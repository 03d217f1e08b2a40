//! Encryption to recipients, and decryption with identities.

use crate::age_calls::{
    age_opened, age_public, age_recipient, age_sealed, armor_end, armor_marker, is_alphanumeric,
    is_armor_file, is_key, is_secret, line_ending, open, opens_for, parse_recipient, seal, sealable,
    small_order, unlocks, OpenFailure, OpenStage, ARMOR_END, ARMOR_MARKER, SMALL_ORDER_KEYS,
};
use crate::error::Error;
use crate::identity::{identity_secret_string, secrets, Identity};
use crate::text::texts;
use vstd::prelude::*;

verus! {

/// The bytes that may stand in front of the armor.
pub open spec fn is_blank(b: u8) -> bool {
    b == 0x0a || b == 0x0d || b == 0x20 || b == 0x09
}

/// `data` without the blanks in front.
pub open spec fn skip_blanks(data: Seq<u8>) -> Seq<u8>
    decreases data.len(),
{
    if data.len() > 0 && is_blank(data.first()) {
        skip_blanks(data.drop_first())
    } else {
        data
    }
}

/// Whether `data`, blanks in front of it aside, starts with the armor's first line.
pub open spec fn is_armored(data: Seq<u8>) -> bool {
    armor_marker().is_prefix_of(skip_blanks(data))
}

/// Whether every one of `recipients` is the text of a public key.
pub open spec fn all_valid(recipients: Seq<Seq<char>>) -> bool {
    forall|i: int| 0 <= i < recipients.len() ==> age_recipient(#[trigger] recipients[i]) is Ok
}

/// The canonical texts of valid recipients.
pub open spec fn keys_of(recipients: Seq<Seq<char>>) -> Seq<Seq<char>> {
    recipients.map_values(|text: Seq<char>| age_recipient(text)->Ok_0)
}

/// Whether recipient `i` is the first that is not the text of a public key.
pub open spec fn first_invalid(recipients: Seq<Seq<char>>, i: int) -> bool {
    &&& 0 <= i < recipients.len()
    &&& age_recipient(recipients[i]) is Err
    &&& all_valid(recipients.take(i))
}

/// Whether age panics when asked to encrypt to `recipients`: they are all valid, and one is
/// of small order.
pub open spec fn age_panics(recipients: Seq<Seq<char>>) -> bool {
    &&& all_valid(recipients)
    &&& exists|i: int| 0 <= i < recipients.len() && small_order(#[trigger] keys_of(recipients)[i])
}

/// Whether `ciphertext` is `plaintext` encrypted to `recipients`: an armored file that age
/// writes of it for them and nobody else, and that whoever holds the identity of one of them
/// opens to `plaintext`.
pub open spec fn encrypted_to(
    ciphertext: Seq<u8>,
    plaintext: Seq<u8>,
    recipients: Seq<Seq<char>>,
) -> bool {
    &&& recipients.len() > 0
    &&& all_valid(recipients)
    &&& age_sealed(plaintext, keys_of(recipients), ciphertext)
    &&& is_armor_file(ciphertext)
    &&& opens_for(ciphertext, keys_of(recipients), plaintext)
}

/// Whether `error` says what is wrong with `recipients`.
pub open spec fn recipients_fault(recipients: Seq<Seq<char>>, error: Error) -> bool {
    match error {
        Error::NoRecipients => recipients.len() == 0,
        Error::InvalidRecipient { recipient, fault } => exists|i: int|
            {
                &&& #[trigger] first_invalid(recipients, i)
                &&& recipient@ == recipients[i]
                &&& age_recipient(recipients[i]) == Err::<Seq<char>, Seq<char>>(fault@)
            },
        _ => false,
    }
}

/// Whether `error` says at which `stage` opening a file failed.
pub open spec fn opening_fault(stage: OpenStage, error: Error) -> bool {
    match stage {
        OpenStage::Header => error is Header,
        OpenStage::Identity => error is NoMatchingIdentity,
        OpenStage::Payload => error is Payload,
    }
}

/// Whether `r` is what decrypting `ciphertext` with the secret keys `secrets` gives.
pub open spec fn decrypts(
    ciphertext: Seq<u8>,
    secrets: Seq<Seq<char>>,
    r: Result<Vec<u8>, Error>,
) -> bool {
    match r {
        Ok(plaintext) => {
            &&& secrets.len() > 0
            &&& age_opened(ciphertext, secrets) == Ok::<Seq<u8>, OpenStage>(plaintext@)
        },
        Err(Error::NoIdentities) => secrets.len() == 0,
        Err(error) => {
            &&& secrets.len() > 0
            &&& age_opened(ciphertext, secrets) matches Err(stage)
            &&& opening_fault(stage, error)
        },
    }
}

pub(crate) proof fn lemma_skip_blanks(data: Seq<u8>, n: int)
    requires
        0 <= n <= data.len(),
        forall|i: int| 0 <= i < n ==> is_blank(data[i]),
        n < data.len() ==> !is_blank(data[n]),
    ensures
        skip_blanks(data) == data.skip(n),
    decreases n,
{
    if n == 0 {
        assert(data.skip(0) == data);
    } else {
        let rest = data.drop_first();
        assert(forall|i: int| 0 <= i < n - 1 ==> rest[i] == data[i + 1]);
        assert(n < data.len() ==> rest[n - 1] == data[n]);
        lemma_skip_blanks(rest, n - 1);
        assert(rest.skip(n - 1) == data.skip(n));
    }
}

/// What is left of `data` without its blanks starts where they end.
pub(crate) proof fn lemma_skipped_blanks(data: Seq<u8>) -> (n: int)
    ensures
        0 <= n <= data.len(),
        forall|i: int| 0 <= i < n ==> is_blank(#[trigger] data[i]),
        skip_blanks(data) == data.skip(n),
    decreases data.len(),
{
    if data.len() > 0 && is_blank(data.first()) {
        let rest = data.drop_first();
        let n = lemma_skipped_blanks(rest);
        assert(rest.skip(n) == data.skip(n + 1));
        assert forall|i: int| 0 <= i < n + 1 implies is_blank(#[trigger] data[i]) by {
            if i > 0 {
                assert(rest[i - 1] == data[i]);
            }
        }
        n + 1
    } else {
        assert(data.skip(0) == data);
        0
    }
}

/// An armored file is recognized by its first line.
pub(crate) proof fn lemma_armor_file_is_armored(data: Seq<u8>)
    requires
        is_armor_file(data),
    ensures
        armor_marker().is_prefix_of(data),
        is_armored(data),
{
    let opening = armor_marker() + line_ending(data);
    reveal_strlit("-----BEGIN AGE ENCRYPTED FILE-----");
    vstd::utf8::is_ascii_chars_encode_utf8(ARMOR_MARKER@);
    assert(opening == data.subrange(0, opening.len() as int));
    assert(forall|i: int| 0 <= i < armor_marker().len() ==> armor_marker()[i] == opening[i]);
    assert(armor_marker() == data.subrange(0, armor_marker().len() as int));
    assert(armor_marker()[0] == 0x2d);
    assert(data[0] == armor_marker()[0]);
}

/// In an armored file no hyphen stands between letters or digits.
proof fn lemma_armor_has_no_inner_hyphen(data: Seq<u8>, p: int)
    requires
        is_armor_file(data),
        0 < p < data.len() - 1,
        is_alphanumeric(data[p - 1]),
        is_alphanumeric(data[p + 1]),
    ensures
        data[p] != 0x2d,
{
    let eol = line_ending(data);
    let opening = armor_marker() + eol;
    let closing = eol + armor_end() + eol;
    let from = data.len() - closing.len();
    reveal_strlit("-----BEGIN AGE ENCRYPTED FILE-----");
    reveal_strlit("-----END AGE ENCRYPTED FILE-----");
    vstd::utf8::is_ascii_chars_encode_utf8(ARMOR_MARKER@);
    vstd::utf8::is_ascii_chars_encode_utf8(ARMOR_END@);
    assert(opening == data.subrange(0, opening.len() as int));
    assert(forall|i: int| 0 <= i < opening.len() ==> data[i] == opening[i]);
    assert(closing == data.subrange(from, data.len() as int));
    assert(forall|i: int| 0 <= i < closing.len() ==> data[from + i] == closing[i]);
    if p < opening.len() {
        assert(data[p] == opening[p]);
        assert(data[p - 1] == opening[p - 1]);
        if p + 1 < opening.len() {
            assert(data[p + 1] == opening[p + 1]);
        }
    } else if p >= from {
        assert(data[p] == closing[p - from]);
        assert(data[p + 1] == closing[p + 1 - from]);
        if p > from {
            assert(data[p - 1] == closing[p - 1 - from]);
        }
    }
}

/// Whether `piece` stands somewhere in `data`.
pub open spec fn occurs_in(piece: Seq<u8>, data: Seq<u8>) -> bool {
    exists|i: int|
        0 <= i <= data.len() - piece.len() && #[trigger] data.subrange(i, i + piece.len()) == piece
}

/// Text with a hyphen between two letters or digits, as keys and passwords have it, does not
/// occur in what encrypting gives, whatever was encrypted.
pub proof fn law_hyphenated_text_does_not_show(
    ciphertext: Seq<u8>,
    plaintext: Seq<u8>,
    recipients: Seq<Seq<char>>,
    piece: Seq<u8>,
    k: int,
)
    requires
        encrypted_to(ciphertext, plaintext, recipients),
        0 < k < piece.len() - 1,
        piece[k] == 0x2d,
        is_alphanumeric(piece[k - 1]),
        is_alphanumeric(piece[k + 1]),
    ensures
        !occurs_in(piece, ciphertext),
{
    if occurs_in(piece, ciphertext) {
        let i = choose|i: int|
            0 <= i <= ciphertext.len() - piece.len() && #[trigger] ciphertext.subrange(
                i,
                i + piece.len(),
            ) == piece;
        let there = ciphertext.subrange(i, i + piece.len());
        assert(there[k - 1] == ciphertext[i + k - 1]);
        assert(there[k] == ciphertext[i + k]);
        assert(there[k + 1] == ciphertext[i + k + 1]);
        lemma_armor_has_no_inner_hyphen(ciphertext, i + k);
    }
}

/// Decrypting gives back what was encrypted, to whoever brings among their identities one
/// that belongs to one of the recipients.
pub proof fn law_decrypt_undoes_encrypt(
    plaintext: Seq<u8>,
    recipients: Seq<Seq<char>>,
    ciphertext: Seq<u8>,
    secrets: Seq<Seq<char>>,
    r: Result<Vec<u8>, Error>,
)
    requires
        encrypted_to(ciphertext, plaintext, recipients),
        unlocks(secrets, keys_of(recipients)),
        decrypts(ciphertext, secrets, r),
    ensures
        r matches Ok(out) && out@ == plaintext,
{
}

/// Each recipient decrypts alone: the identity whose public key is recipient `i` needs no
/// other.
pub proof fn law_each_recipient_decrypts_alone(
    plaintext: Seq<u8>,
    recipients: Seq<Seq<char>>,
    ciphertext: Seq<u8>,
    secret: Seq<char>,
    i: int,
    r: Result<Vec<u8>, Error>,
)
    requires
        encrypted_to(ciphertext, plaintext, recipients),
        0 <= i < recipients.len(),
        is_secret(secret),
        age_recipient(recipients[i]) == Ok::<Seq<char>, Seq<char>>(age_public(secret)),
        decrypts(ciphertext, seq![secret], r),
    ensures
        r matches Ok(out) && out@ == plaintext,
{
    assert(age_public(seq![secret][0]) == keys_of(recipients)[i]);
    law_decrypt_undoes_encrypt(plaintext, recipients, ciphertext, seq![secret], r);
}

/// However often a plaintext is encrypted, each of the files gives it back.
pub proof fn law_every_encryption_decrypts_alike(
    plaintext: Seq<u8>,
    recipients: Seq<Seq<char>>,
    first: Seq<u8>,
    second: Seq<u8>,
    secrets: Seq<Seq<char>>,
    from_first: Result<Vec<u8>, Error>,
    from_second: Result<Vec<u8>, Error>,
)
    requires
        encrypted_to(first, plaintext, recipients),
        encrypted_to(second, plaintext, recipients),
        unlocks(secrets, keys_of(recipients)),
        decrypts(first, secrets, from_first),
        decrypts(second, secrets, from_second),
    ensures
        from_first matches Ok(out) && out@ == plaintext,
        from_second matches Ok(out) && out@ == plaintext,
{
    law_decrypt_undoes_encrypt(plaintext, recipients, first, secrets, from_first);
    law_decrypt_undoes_encrypt(plaintext, recipients, second, secrets, from_second);
}

/// Encrypting leaves nothing that could pass for plaintext: what comes out is armored.
pub proof fn law_ciphertext_is_armored(
    ciphertext: Seq<u8>,
    plaintext: Seq<u8>,
    recipients: Seq<Seq<char>>,
)
    requires
        encrypted_to(ciphertext, plaintext, recipients),
    ensures
        is_armored(ciphertext),
        !is_armored(plaintext) ==> ciphertext != plaintext,
{
    lemma_armor_file_is_armored(ciphertext);
}

/// Blanks in front do not hide the armor, nor make plaintext pass for armored.
pub proof fn law_blanks_do_not_matter(blanks: Seq<u8>, data: Seq<u8>)
    requires
        forall|i: int| 0 <= i < blanks.len() ==> is_blank(#[trigger] blanks[i]),
    ensures
        is_armored(blanks + data) == is_armored(data),
    decreases blanks.len(),
{
    if blanks.len() == 0 {
        assert(blanks + data == data);
    } else {
        assert((blanks + data).first() == blanks[0]);
        assert((blanks + data).drop_first() == blanks.drop_first() + data);
        law_blanks_do_not_matter(blanks.drop_first(), data);
    }
}

/// Whether `data` looks like an armored age file. Blanks in front are tolerated: editors
/// and shells put them there without meaning to change the content.
pub fn looks_like_age_armor(data: &[u8]) -> (r: bool)
    ensures
        r == is_armored(data@),
{
    let marker = ARMOR_MARKER.as_bytes();
    let mut start: usize = 0;
    while start < data.len() && (data[start] == 0x0a || data[start] == 0x0d || data[start] == 0x20
        || data[start] == 0x09)
        invariant
            start <= data.len(),
            forall|i: int| 0 <= i < start ==> is_blank(data@[i]),
        decreases data.len() - start,
    {
        start += 1;
    }
    proof {
        lemma_skip_blanks(data@, start as int);
    }
    let ghost rest = data@.skip(start as int);
    if data.len() - start < marker.len() {
        return false;
    }
    let mut i: usize = 0;
    while i < marker.len()
        invariant
            marker@ == armor_marker(),
            start + marker.len() <= data.len(),
            rest == data@.skip(start as int),
            rest == skip_blanks(data@),
            i <= marker.len(),
            forall|j: int| 0 <= j < i ==> marker@[j] == rest[j],
        decreases marker.len() - i,
    {
        if data[start + i] != marker[i] {
            assert(rest[i as int] != marker@[i as int]);
            return false;
        }
        i += 1;
    }
    assert(marker@ == rest.subrange(0, marker@.len() as int));
    true
}

/// The canonical texts of `recipients`, or what is wrong with them.
fn resolve_keys(recipients: &[String]) -> (r: Result<Vec<String>, Error>)
    ensures
        match r {
            Ok(keys) => {
                &&& recipients@.len() > 0
                &&& all_valid(texts(recipients@))
                &&& texts(keys@) == keys_of(texts(recipients@))
                &&& forall|i: int| 0 <= i < keys@.len() ==> is_key((#[trigger] keys@[i])@)
            },
            Err(error) => recipients_fault(texts(recipients@), error),
        },
{
    if recipients.len() == 0 {
        return Err(Error::NoRecipients);
    }
    let ghost given = texts(recipients@);
    let mut keys: Vec<String> = Vec::new();
    let mut i: usize = 0;
    while i < recipients.len()
        invariant
            i <= recipients.len(),
            given == texts(recipients@),
            keys@.len() == i,
            all_valid(given.take(i as int)),
            forall|j: int| 0 <= j < i ==> is_key((#[trigger] keys@[j])@),
            forall|j: int|
                0 <= j < i ==> (#[trigger] keys@[j])@ == age_recipient(given[j])->Ok_0,
        decreases recipients.len() - i,
    {
        assert(given[i as int] == recipients@[i as int]@);
        match parse_recipient(recipients[i].as_str()) {
            Ok(key) => {
                assert forall|j: int| 0 <= j < i + 1 implies age_recipient(
                    #[trigger] given.take(i + 1)[j],
                ) is Ok by {
                    if j < i {
                        assert(given.take(i + 1)[j] == given.take(i as int)[j]);
                    }
                }
                keys.push(key);
            },
            Err(fault) => {
                assert(first_invalid(given, i as int));
                return Err(Error::InvalidRecipient { recipient: recipients[i].clone(), fault });
            },
        }
        i += 1;
    }
    proof {
        assert(given.take(i as int) == given);
        assert(texts(keys@) == keys_of(given));
    }
    Ok(keys)
}

/// Whether `key` is the canonical text of a public key of small order.
fn is_small_order(key: &String) -> (r: bool)
    ensures
        r == small_order(key@),
{
    let mut i: usize = 0;
    while i < 14
        invariant
            i <= 14,
            forall|j: int| 0 <= j < i ==> (#[trigger] SMALL_ORDER_KEYS@[j])@ != key@,
        decreases 14 - i,
    {
        if *key == SMALL_ORDER_KEYS[i].to_owned() {
            assert(SMALL_ORDER_KEYS@[i as int]@ == key@);
            return true;
        }
        i += 1;
    }
    false
}

/// Whether age panics when asked to encrypt to `recipients`.
pub fn panics_in_age(recipients: &[String]) -> (r: bool)
    ensures
        r == age_panics(texts(recipients@)),
{
    let ghost given = texts(recipients@);
    match resolve_keys(recipients) {
        Ok(keys) => {
            let mut i: usize = 0;
            proof {
                assert(keys_of(given).len() == given.len());
                assert(texts(keys@).len() == keys@.len());
            }
            while i < keys.len()
                invariant
                    i <= keys.len(),
                    keys@.len() == given.len(),
                    given == texts(recipients@),
                    texts(keys@) == keys_of(given),
                    all_valid(given),
                    forall|j: int| 0 <= j < i ==> !small_order(#[trigger] keys_of(given)[j]),
                decreases keys.len() - i,
            {
                assert(texts(keys@)[i as int] == keys@[i as int]@);
                if is_small_order(&keys[i]) {
                    assert(small_order(keys_of(given)[i as int]));
                    return true;
                }
                i += 1;
            }
            false
        },
        Err(_) => {
            proof {
                assert(given.len() == 0 || exists|i: int| #[trigger] first_invalid(given, i));
            }
            false
        },
    }
}

/// Encrypts `plaintext` to `recipients`, as an armored age file: text that suits a
/// repository, and that anyone whose identity belongs to one of the recipients opens.
pub fn encrypt(plaintext: &[u8], recipients: &[String]) -> (r: Result<Vec<u8>, Error>)
    requires
        !age_panics(texts(recipients@)),
    ensures
        match r {
            Ok(ciphertext) => encrypted_to(ciphertext@, plaintext@, texts(recipients@)),
            Err(error) => recipients_fault(texts(recipients@), error),
        },
{
    let keys = match resolve_keys(recipients) {
        Ok(keys) => keys,
        Err(error) => {
            return Err(error);
        },
    };
    proof {
        assert(texts(keys@).len() == keys_of(texts(recipients@)).len());
        assert forall|i: int| 0 <= i < keys@.len() implies is_key(#[trigger] texts(keys@)[i])
            && !small_order(texts(keys@)[i]) by {
            assert(texts(keys@)[i] == keys@[i]@);
            assert(texts(keys@)[i] == keys_of(texts(recipients@))[i]);
        }
        assert(sealable(texts(keys@)));
    }
    match seal(plaintext, &keys) {
        Ok(ciphertext) => Ok(ciphertext),
        Err(_) => Err(Error::Encryptor),
    }
}

/// Encrypts `plaintext` to `recipients`, unless age would panic over them: then nothing
/// comes back.
pub fn try_encrypt(plaintext: &[u8], recipients: &[String]) -> (r: Option<Result<Vec<u8>, Error>>)
    ensures
        match r {
            Some(Ok(ciphertext)) => encrypted_to(ciphertext@, plaintext@, texts(recipients@))
                && !age_panics(texts(recipients@)),
            Some(Err(error)) => recipients_fault(texts(recipients@), error),
            None => age_panics(texts(recipients@)),
        },
{
    if panics_in_age(recipients) {
        None
    } else {
        Some(encrypt(plaintext, recipients))
    }
}

/// What decrypting gives, from what opening the file gave.
pub fn decrypted(outcome: Result<Vec<u8>, OpenFailure>) -> (r: Result<Vec<u8>, Error>)
    ensures
        match outcome {
            Ok(plaintext) => r == Ok::<Vec<u8>, Error>(plaintext),
            Err(OpenFailure::Header(cause)) => r == Err::<Vec<u8>, Error>(Error::Header { cause }),
            Err(OpenFailure::Identity(cause)) => r == Err::<Vec<u8>, Error>(
                Error::NoMatchingIdentity { cause },
            ),
            Err(OpenFailure::Payload(cause)) => r == Err::<Vec<u8>, Error>(
                Error::Payload { cause },
            ),
        },
{
    match outcome {
        Ok(plaintext) => Ok(plaintext),
        Err(OpenFailure::Header(cause)) => Err(Error::Header { cause }),
        Err(OpenFailure::Identity(cause)) => Err(Error::NoMatchingIdentity { cause }),
        Err(OpenFailure::Payload(cause)) => Err(Error::Payload { cause }),
    }
}

/// Decrypts an age file with the first of `identities` that it was made for.
pub fn decrypt(ciphertext: &[u8], identities: &[Identity]) -> (r: Result<Vec<u8>, Error>)
    ensures
        decrypts(ciphertext@, secrets(identities@), r),
{
    if identities.len() == 0 {
        return Err(Error::NoIdentities);
    }
    let mut keys: Vec<String> = Vec::new();
    let mut i: usize = 0;
    while i < identities.len()
        invariant
            i <= identities.len(),
            keys@.len() == i,
            forall|j: int|
                0 <= j < i ==> is_secret((#[trigger] keys@[j])@) && keys@[j]@ == identities@[j]@,
        decreases identities.len() - i,
    {
        keys.push(identity_secret_string(&identities[i]));
        i += 1;
    }
    proof {
        assert(texts(keys@) == secrets(identities@));
    }
    decrypted(open(ciphertext, &keys))
}

} // verus!
