//! The calls into the age crate, and what is taken for granted of them.
//!
//! Keys are handled as the texts that age reads and writes: a secret key as
//! `AGE-SECRET-KEY-1...`, a public key (a recipient) as `age1...`.

use age::secrecy::ExposeSecret;
use std::io::{Read, Write};
use std::str::FromStr;
use crate::text::texts;
use vstd::prelude::*;

verus! {

/// The public keys of small order, each in its canonical text. A secret shared with one of
/// them is all zeros whatever the other key is, so age takes the secret for the product of
/// a broken random number generator and panics.
pub const SMALL_ORDER_KEYS: [&'static str; 14] = [
    "age1qqqqqqqqqqqqqqqqqqqqqqqqqqqqqqqqqqqqqqqqqqqqqqqqqqqq5cu47z",
    "age1qqqqqqqqqqqqqqqqqqqqqqqqqqqqqqqqqqqqqqqqqqqqqqqqqzqqsuwj9m",
    "age1qyqqqqqqqqqqqqqqqqqqqqqqqqqqqqqqqqqqqqqqqqqqqqqqqqqqj7vrya",
    "age1qyqqqqqqqqqqqqqqqqqqqqqqqqqqqqqqqqqqqqqqqqqqqqqqqzqqk67yly",
    "age1ur4h5lpmgxu2u9jku0a0r87ydtdqnr0tnsetrlvxvgz3vh6fhqqqzyt4v9",
    "age1ur4h5lpmgxu2u9jku0a0r87ydtdqnr0tnsetrlvxvgz3vh6fhzqqxqejhu",
    "age1t7wft09r2zxzfvwsk92eeql0tvzyghxytqwgapkcyf8dm5ylz9ts6wm9s8",
    "age1t7wft09r2zxzfvwsk92eeql0tvzyghxytqwgapkcyf8dm5ylz8ts72fzt7",
    "age1anlllllllllllllllllllllllllllllllllllllllllllllllals4n2t7m",
    "age1anllllllllllllllllllllllllllllllllllllllllllllllllls3hcv9z",
    "age1ahlllllllllllllllllllllllllllllllllllllllllllllllalsn46ayy",
    "age1ahlllllllllllllllllllllllllllllllllllllllllllllllllsh3g6la",
    "age1amlllllllllllllllllllllllllllllllllllllllllllllllalselrwrv",
    "age1amlllllllllllllllllllllllllllllllllllllllllllllllllsam3fc4",
];

/// Whether `key`, the canonical text of a public key, is one of small order.
pub open spec fn small_order(key: Seq<char>) -> bool {
    exists|i: int| 0 <= i < 14 && (#[trigger] SMALL_ORDER_KEYS@[i])@ == key
}

/// Whether `s` has the form of a secret key's text.
pub open spec fn secret_form(s: Seq<char>) -> bool {
    &&& "AGE-SECRET-KEY-1"@.is_prefix_of(s)
    &&& forall|i: int|
        0 <= i < s.len() ==> ('A' <= #[trigger] s[i] <= 'Z' || '0' <= s[i] <= '9' || s[i] == '-')
}

/// The armor's first line, which every armored age file starts with.
pub const ARMOR_MARKER: &'static str = "-----BEGIN AGE ENCRYPTED FILE-----";

/// The bytes of the armor's first line.
pub open spec fn armor_marker() -> Seq<u8> {
    vstd::utf8::encode_utf8(ARMOR_MARKER@)
}

/// The armor's last line, which every armored age file ends with.
pub const ARMOR_END: &'static str = "-----END AGE ENCRYPTED FILE-----";

/// The bytes of the armor's last line.
pub open spec fn armor_end() -> Seq<u8> {
    vstd::utf8::encode_utf8(ARMOR_END@)
}

/// Whether `b` is a letter or a digit.
pub open spec fn is_alphanumeric(b: u8) -> bool {
    0x41 <= b <= 0x5a || 0x61 <= b <= 0x7a || 0x30 <= b <= 0x39
}

/// Whether `b` belongs to base64: a letter, a digit, `+`, `/` or the padding `=`.
pub open spec fn is_base64(b: u8) -> bool {
    is_alphanumeric(b) || b == 0x2b || b == 0x2f || b == 0x3d
}

/// How `data` ends its last line: with a carriage return before the newline, or without.
pub open spec fn line_ending(data: Seq<u8>) -> Seq<u8> {
    if data.len() >= 2 && data[data.len() - 2] == 0x0d {
        seq![0x0du8, 0x0au8]
    } else {
        seq![0x0au8]
    }
}

/// Whether `data` is an armored file from one end to the other: ASCII throughout, the
/// armor's first line, lines of base64, the armor's last line, and nothing else.
pub open spec fn is_armor_file(data: Seq<u8>) -> bool {
    let opening = armor_marker() + line_ending(data);
    let closing = line_ending(data) + armor_end() + line_ending(data);
    &&& forall|i: int| 0 <= i < data.len() ==> #[trigger] data[i] < 0x80
    &&& opening.is_prefix_of(data)
    &&& closing.is_suffix_of(data)
    &&& opening.len() + closing.len() <= data.len()
    &&& forall|i: int|
        opening.len() <= i < data.len() - closing.len() ==> is_base64(#[trigger] data[i]) || data[i]
            == 0x0d || data[i] == 0x0a
}

/// At which step opening an age file fails.
pub enum OpenStage {
    /// Its header cannot be read.
    Header,
    /// None of the identities unwraps its key.
    Identity,
    /// Its content cannot be read to the end.
    Payload,
}

/// Why opening an age file failed, with the words of the step that did.
pub enum OpenFailure {
    Header(String),
    Identity(String),
    Payload(String),
}

/// What the outcome of parsing a key says, as plain text.
pub open spec fn parsed(r: Result<String, String>) -> Result<Seq<char>, Seq<char>> {
    match r {
        Ok(key) => Ok(key@),
        Err(fault) => Err(fault@),
    }
}

/// What the outcome of opening a file says, the words of a failure aside.
pub open spec fn opened(r: Result<Vec<u8>, OpenFailure>) -> Result<Seq<u8>, OpenStage> {
    match r {
        Ok(plaintext) => Ok(plaintext@),
        Err(OpenFailure::Header(_)) => Err(OpenStage::Header),
        Err(OpenFailure::Identity(_)) => Err(OpenStage::Identity),
        Err(OpenFailure::Payload(_)) => Err(OpenStage::Payload),
    }
}

/// What `age::x25519::Identity::from_str` makes of a text: the canonical text of the
/// secret key, or what is wrong.
pub uninterp spec fn age_identity(text: Seq<char>) -> Result<Seq<char>, Seq<char>>;

/// What `age::x25519::Recipient::from_str` makes of a text: the canonical text of the
/// public key, or what is wrong.
pub uninterp spec fn age_recipient(text: Seq<char>) -> Result<Seq<char>, Seq<char>>;

/// The canonical text of the public key that belongs to a secret key.
pub uninterp spec fn age_public(secret: Seq<char>) -> Seq<char>;

/// What `age::Decryptor` makes of a file with some secret keys: the plaintext, or the step
/// that fails.
pub uninterp spec fn age_opened(
    ciphertext: Seq<u8>,
    secrets: Seq<Seq<char>>,
) -> Result<Seq<u8>, OpenStage>;

/// Whether `ciphertext` is one of the files that `age::Encryptor` may write of `plaintext`
/// for exactly the public keys `keys`, in that order. Which of them it writes rests on
/// chance.
pub uninterp spec fn age_sealed(
    plaintext: Seq<u8>,
    keys: Seq<Seq<char>>,
    ciphertext: Seq<u8>,
) -> bool;

/// Whether `secret` is the canonical text of a secret key.
pub open spec fn is_secret(secret: Seq<char>) -> bool {
    age_identity(secret) == Ok::<Seq<char>, Seq<char>>(secret)
}

/// Whether `key` is the canonical text of a public key.
pub open spec fn is_key(key: Seq<char>) -> bool {
    age_recipient(key) == Ok::<Seq<char>, Seq<char>>(key)
}

/// Parses a secret key with `age::x25519::Identity::from_str`, and writes it back with
/// `Identity::to_string`.
///
/// Taken for granted: the outcome depends on the text alone; the text written back is in
/// upper case, has the form of a secret key, and parses to itself.
#[verifier::external_body]
pub(crate) fn parse_identity(text: &str) -> (r: Result<String, String>)
    ensures
        parsed(r) == age_identity(text@),
        r matches Ok(secret) ==> is_secret(secret@) && secret_form(secret@),
{
    match age::x25519::Identity::from_str(text) {
        Ok(identity) => Ok(identity.to_string().expose_secret().to_string()),
        Err(fault) => Err(fault.to_string()),
    }
}

/// Draws a secret key with `age::x25519::Identity::generate`, and writes it with
/// `Identity::to_string`.
///
/// Taken for granted: whichever key is drawn, its text has the form of a secret key and
/// parses to itself.
#[verifier::external_body]
pub(crate) fn generate_secret() -> (secret: String)
    ensures
        is_secret(secret@),
        secret_form(secret@),
{
    age::x25519::Identity::generate().to_string().expose_secret().to_string()
}

/// The public key of a secret key, by `age::x25519::Identity::to_public` and the
/// `Display` of `age::x25519::Recipient`.
///
/// Taken for granted: the outcome depends on the secret key alone; it starts with `age1`,
/// parses to itself, and is not of small order, as no multiple of the base point is.
#[verifier::external_body]
pub(crate) fn public_key(secret: &str) -> (key: String)
    requires
        is_secret(secret@),
    ensures
        key@ == age_public(secret@),
        is_key(key@),
        "age1"@.is_prefix_of(key@),
        !small_order(key@),
{
    let identity = age::x25519::Identity::from_str(secret).expect("a secret key");
    identity.to_public().to_string()
}

/// Parses a public key with `age::x25519::Recipient::from_str`, and writes it back with
/// its `Display`.
///
/// Taken for granted: the outcome depends on the text alone; the text written back parses
/// to itself.
#[verifier::external_body]
pub(crate) fn parse_recipient(text: &str) -> (r: Result<String, String>)
    ensures
        parsed(r) == age_recipient(text@),
        r matches Ok(key) ==> is_key(key@),
{
    match age::x25519::Recipient::from_str(text) {
        Ok(recipient) => Ok(recipient.to_string()),
        Err(fault) => Err(fault.to_string()),
    }
}

/// age's report of a failed encryption.
#[verifier::external_type_specification]
#[verifier::external_body]
pub struct ExEncryptError(age::EncryptError);

/// Whether `secrets` are secret keys, and one of them belongs to one of the public `keys`.
pub open spec fn unlocks(secrets: Seq<Seq<char>>, keys: Seq<Seq<char>>) -> bool {
    &&& forall|i: int| 0 <= i < secrets.len() ==> is_secret(#[trigger] secrets[i])
    &&& exists|i: int, j: int|
        0 <= i < secrets.len() && 0 <= j < keys.len() && age_public(#[trigger] secrets[i])
            == #[trigger] keys[j]
}

/// Whether the holders of `keys` open `ciphertext` to `plaintext`: every list of secret keys
/// does of which one belongs to one of them.
pub open spec fn opens_for(
    ciphertext: Seq<u8>,
    keys: Seq<Seq<char>>,
    plaintext: Seq<u8>,
) -> bool {
    forall|secrets: Seq<Seq<char>>| #[trigger]
        unlocks(secrets, keys) ==> age_opened(ciphertext, secrets) == Ok::<Seq<u8>, OpenStage>(
            plaintext,
        )
}

/// Whether `keys` are public keys that age encrypts to: at least one, and none of small
/// order.
pub open spec fn sealable(keys: Seq<Seq<char>>) -> bool {
    &&& keys.len() > 0
    &&& forall|i: int|
        0 <= i < keys.len() ==> is_key(#[trigger] keys[i]) && !small_order(keys[i])
}

/// Encrypts to public keys with `age::Encryptor::with_recipients` and
/// `Encryptor::wrap_output`, through an `age::armor::ArmoredWriter`.
///
/// Taken for granted: X25519 public keys wrap the file key without fail and carry no
/// labels that could clash, and writing to memory does not fail, so this succeeds; the file
/// is one that age writes of this plaintext for these keys and no others; it is ASCII, made
/// of the armor's first line, base64 in lines and the armor's last line, with the line
/// endings of the machine; and whatever was drawn for it, the identities of which one belongs
/// to one of the public keys open it to what was put in, the chance that a key which it was
/// not made for passes for the right one aside. Nothing is said of what other identities get
/// from it, nor that two files of one plaintext differ: both rest on chance.
#[verifier::external_body]
pub(crate) fn seal(plaintext: &[u8], keys: &Vec<String>) -> (r: Result<Vec<u8>, age::EncryptError>)
    requires
        sealable(texts(keys@)),
    ensures
        r is Ok,
        r matches Ok(ciphertext) ==> age_sealed(plaintext@, texts(keys@), ciphertext@),
        r matches Ok(ciphertext) ==> is_armor_file(ciphertext@),
        r matches Ok(ciphertext) ==> opens_for(ciphertext@, texts(keys@), plaintext@),
{
    let parse = |key: &String| age::x25519::Recipient::from_str(key).expect("a public key");
    let recipients: Vec<age::x25519::Recipient> = keys.iter().map(parse).collect();
    let recipients = recipients.iter().map(|recipient| recipient as &dyn age::Recipient);
    let encryptor = age::Encryptor::with_recipients(recipients)?;
    let mut output = Vec::new();
    let armor = age::armor::ArmoredWriter::wrap_output(&mut output, age::armor::Format::AsciiArmor)?;
    let mut writer = encryptor.wrap_output(armor)?;
    writer.write_all(plaintext)?;
    writer.finish()?.finish()?;
    Ok(output)
}

/// Opens an armored or binary age file with `age::Decryptor::new`, `Decryptor::decrypt` and
/// the reader that it returns, through an `age::armor::ArmoredReader`.
///
/// Taken for granted: the plaintext, or else the step that fails, depends on the file and
/// the secret keys alone. The words of a failure follow the language that age was told to
/// speak, so nothing is said of them.
#[verifier::external_body]
pub(crate) fn open(ciphertext: &[u8], secrets: &Vec<String>) -> (r: Result<Vec<u8>, OpenFailure>)
    requires
        forall|i: int| 0 <= i < secrets.len() ==> is_secret((#[trigger] secrets@[i])@),
    ensures
        opened(r) == age_opened(ciphertext@, texts(secrets@)),
{
    let parse = |secret: &String| age::x25519::Identity::from_str(secret).expect("a secret key");
    let identities: Vec<age::x25519::Identity> = secrets.iter().map(parse).collect();
    let identities = identities.iter().map(|identity| identity as &dyn age::Identity);
    let decryptor = age::Decryptor::new(age::armor::ArmoredReader::new(ciphertext))
        .map_err(|e| OpenFailure::Header(e.to_string()))?;
    let mut reader = decryptor.decrypt(identities).map_err(|e| OpenFailure::Identity(e.to_string()))?;
    let mut plaintext = Vec::new();
    reader.read_to_end(&mut plaintext).map_err(|e| OpenFailure::Payload(e.to_string()))?;
    Ok(plaintext)
}

} // verus!
