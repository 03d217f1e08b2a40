//! Laws of what the public functions take: everything, but for recipients that age panics
//! over.

use crate::age_calls::{age_recipient, OpenFailure, SMALL_ORDER_KEYS};
use crate::commands::{edit_finish, edit_start, keygen};
use crate::crypto::{
    decrypt, decrypted, encrypt, keys_of, looks_like_age_armor, panics_in_age, try_encrypt,
};
use crate::error::Error;
use crate::gitfilter::{
    available_identities, clean, smudge, smudge_outcome, try_clean, CleanOutcome, SmudgeOutcome,
};
use crate::identity::{
    default_identity_path, generate_identity, identity_file, identity_path, identity_secret_string,
    parse_identity_file, public_string, public_strings, Identity,
};
use crate::install::install_filter;
use crate::laws::armor::lemma_texts;
use crate::paths::{
    decrypted_path, default_recipients_file, encrypted_path, parse_recipients_file,
    resolve_recipients,
};
use crate::text::{texts, values_in, white_space};
use vstd::prelude::*;

verus! {

/// Anything can be encrypted to, or cleaned for, recipients of which none is of small order.
pub proof fn law_encrypting_takes_any_content_and_recipients(
    content: &[u8],
    recipients: &[String],
)
    requires
        forall|i: int, k: int|
            0 <= i < recipients@.len() && 0 <= k < 14 ==> age_recipient(
                (#[trigger] recipients@[i])@,
            ) != Ok::<Seq<char>, Seq<char>>((#[trigger] SMALL_ORDER_KEYS@[k])@),
    ensures
        call_requires(encrypt, (content, recipients)),
        call_requires(clean, (content, recipients)),
{
    let given = texts(recipients@);
    lemma_texts(recipients@);
    assert(!crate::crypto::age_panics(given)) by {
        if crate::crypto::age_panics(given) {
            let i = choose|i: int|
                0 <= i < given.len() && crate::age_calls::small_order(#[trigger] keys_of(given)[i]);
            let k = choose|k: int|
                0 <= k < 14 && (#[trigger] SMALL_ORDER_KEYS@[k])@ == keys_of(given)[i];
            assert(age_recipient(given[i]) is Ok);
            assert(age_recipient(recipients@[i]@) == Ok::<Seq<char>, Seq<char>>(
                SMALL_ORDER_KEYS@[k]@,
            ));
        }
    }
}

/// Armored content can be cleaned for any recipients.
pub proof fn law_armored_content_can_always_be_cleaned(content: &[u8], recipients: &[String])
    requires
        call_ensures(looks_like_age_armor, (content,), true),
    ensures
        call_requires(clean, (content, recipients)),
{
}

/// All other functions on content and recipients take any.
pub proof fn law_content_and_recipients_are_taken(
    content: &[u8],
    recipients: &[String],
    identities: &[Identity],
    editor_succeeded: bool,
    existing: Option<&[u8]>,
    opening: Result<Vec<u8>, OpenFailure>,
    decryption: Result<Vec<u8>, Error>,
    stored: CleanOutcome,
    restored: SmudgeOutcome,
)
    ensures
        call_requires(looks_like_age_armor, (content,)),
        call_requires(panics_in_age, (recipients,)),
        call_requires(try_encrypt, (content, recipients)),
        call_requires(try_clean, (content, recipients)),
        call_requires(edit_finish, (editor_succeeded, content, recipients)),
        call_requires(edit_start, (existing, identities)),
        call_requires(decrypt, (content, identities)),
        call_requires(decrypted, (opening,)),
        call_requires(smudge, (content, identities)),
        call_requires(smudge_outcome, (content, decryption)),
        call_requires(CleanOutcome::into_bytes, (stored,)),
        call_requires(SmudgeOutcome::into_bytes, (restored,)),
{
}

/// The functions on identities, texts and paths take any.
pub proof fn law_identities_texts_and_paths_are_taken(
    id: &Identity,
    identities: &[Identity],
    text: &str,
    c: char,
    optional: Option<&str>,
    taken: bool,
    path: &[u8],
    optional_path: Option<Vec<u8>>,
    explicit: Vec<String>,
    error: &Error,
)
    ensures
        call_requires(generate_identity, ()),
        call_requires(keygen, (taken,)),
        call_requires(identity_secret_string, (id,)),
        call_requires(public_string, (id,)),
        call_requires(public_strings, (identities,)),
        call_requires(identity_file, (id,)),
        call_requires(parse_identity_file, (text,)),
        call_requires(available_identities, (optional,)),
        call_requires(parse_recipients_file, (text,)),
        call_requires(values_in, (text,)),
        call_requires(white_space, (c,)),
        call_requires(install_filter, (text,)),
        call_requires(encrypted_path, (path,)),
        call_requires(decrypted_path, (path,)),
        call_requires(default_recipients_file, (path,)),
        call_requires(resolve_recipients, (explicit, optional_path, path)),
        call_requires(identity_path, (optional_path,)),
        call_requires(default_identity_path, ()),
        call_requires(Error::message, (error,)),
        call_requires(Error::cause, (error,)),
{
}

} // verus!
