# cryptenv

Encrypted secrets in git, built on [age](https://age-encryption.org): a `.env` file goes
in, an armored age file that is safe to commit comes out.

```bash
cryptenv keygen                    # writes ~/.config/cryptenv/key.txt, prints the public key
echo "age1..." > .cryptenv-recipients

cryptenv encrypt .env              # .env -> .env.age
cryptenv decrypt .env.age          # .env.age -> .env
cryptenv decrypt .env.age --stdout
cryptenv edit .env.age             # decrypt, $EDITOR, encrypt again

cryptenv filter install            # encrypt on `git add`, decrypt on `git checkout`
```

## Layout

`src/` is the library, verified with Verus. `app/` is the command line around it.

| module       | what it holds                                                         |
|--------------|-----------------------------------------------------------------------|
| `crypto`     | encrypting to recipients, decrypting with identities, spotting armor  |
| `gitfilter`  | the clean and smudge filters                                          |
| `identity`   | secret keys, identity files and where they are kept                   |
| `paths`      | the paths of encrypted, decrypted and recipients files                |
| `install`    | `.gitattributes` and the filter's settings                            |
| `commands`   | what `keygen` and `edit` decide                                       |
| `text`       | text files taken apart line by line                                   |
| `error`      | what can go wrong, and how it is said                                 |
| `age_calls`  | the calls into age, and what is taken for granted of them             |

## What is proved

- Whoever holds the identity of one of the recipients decrypts what was encrypted to them,
  alone or with other identities at hand. Taken for granted of age: a key that the file was
  not made for does not pass for the right one, which by its making rests on chance.
- The clean filter never lets plaintext through: it encrypts, passes armored content on
  unchanged, or fails. Cleaning twice is cleaning once.
- The smudge filter never fails: what it cannot decrypt it leaves as it is. It undoes the
  clean filter for whoever has an identity, and where there is none, cleaning again gives
  back what is stored.
- What is encrypted is encrypted to the given recipients and nobody else, as armored ASCII
  in which no hyphenated word of the plaintext shows.
- Installing the filter keeps the lines of `.gitattributes`, and leaves its own in the order
  that keeps `*.age` files out. Installing twice is installing once.
- An identity file that was written is read back as the same identity.

That an unrelated identity does not decrypt, that two encryptions of one plaintext differ,
and that ciphertext tells nothing of its plaintext rests on age's cryptography and on chance:
it is tested, not proved.
