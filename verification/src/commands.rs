//! What the commands decide between reading and writing.

use crate::age_calls::{age_public, is_key, is_secret, secret_form, small_order, unlocks};
use crate::crypto::{
    age_panics, decrypt, decrypts, encrypted_to, keys_of, law_decrypt_undoes_encrypt,
    recipients_fault, try_encrypt,
};
use crate::error::Error;
use crate::identity::{
    drawn, generate_identity, identity_file, identity_file_of, law_identity_file_round_trips,
    parses_to, public_string, publics, secrets, Identity,
};
use crate::text::texts;
use vstd::prelude::*;

verus! {

/// A new identity, as it is written and announced.
#[derive(Debug, PartialEq, Eq)]
pub struct NewIdentity {
    /// What the identity file is to hold.
    pub contents: String,
    /// The public key to share.
    pub recipient: String,
}

/// Whether `new` is the identity with the secret key `secret`, as it was drawn.
pub open spec fn announces(new: NewIdentity, secret: Seq<char>) -> bool {
    &&& drawn(secret)
    &&& is_secret(secret)
    &&& secret_form(secret)
    &&& new.contents@ == identity_file_of(secret)
    &&& new.recipient@ == age_public(secret)
    &&& is_key(new.recipient@)
    &&& "age1"@.is_prefix_of(new.recipient@)
    &&& !small_order(new.recipient@)
}

/// Whether `new` is the identity with some secret key.
pub open spec fn is_identity(new: NewIdentity) -> bool {
    exists|secret: Seq<char>| #[trigger] announces(new, secret)
}

/// Draws an identity for a file, unless the file's place is taken: an identity is never
/// overwritten.
pub fn keygen(taken: bool) -> (r: Option<NewIdentity>)
    ensures
        match r {
            Some(new) => !taken && is_identity(new),
            None => taken,
        },
{
    if taken {
        return None;
    }
    let id = generate_identity();
    let new = NewIdentity { contents: identity_file(&id), recipient: public_string(&id) };
    assert(announces(new, id@));
    Some(new)
}

/// Reading the file of a new identity tells the public key that was announced for it.
pub proof fn law_keygen_announces_its_recipient(
    new: NewIdentity,
    secret: Seq<char>,
    r: Result<Vec<Identity>, Error>,
)
    requires
        announces(new, secret),
        parses_to(new.contents@, r),
    ensures
        r matches Ok(identities) && publics(secrets(identities@)) == seq![new.recipient@],
{
    law_identity_file_round_trips(secret, r);
}

/// Whether `r` is what an edit starts from, where `existing` is what the file holds, if
/// there is one.
pub open spec fn starts_edit(
    existing: Option<Seq<u8>>,
    secrets: Seq<Seq<char>>,
    r: Result<Vec<u8>, Error>,
) -> bool {
    match existing {
        Some(ciphertext) => decrypts(ciphertext, secrets, r),
        None => r matches Ok(plaintext) && plaintext@.len() == 0,
    }
}

/// What to put before the editor: what the file holds, decrypted, or nothing where there is
/// no file yet.
pub fn edit_start(existing: Option<&[u8]>, identities: &[Identity]) -> (r: Result<Vec<u8>, Error>)
    ensures
        starts_edit(
            match existing {
                Some(ciphertext) => Some(ciphertext@),
                None => None,
            },
            secrets(identities@),
            r,
        ),
{
    match existing {
        Some(ciphertext) => decrypt(ciphertext, identities),
        None => Ok(Vec::new()),
    }
}

/// What comes of an edit.
#[derive(Debug, PartialEq, Eq)]
pub enum EditOutcome {
    /// The editor failed, so the file stays as it is.
    Abandoned,
    /// What was edited cannot be encrypted, so the file stays as it is.
    Failed(Error),
    /// The file is to hold `ciphertext`, and `wipe` is to go over what was edited.
    Stored { ciphertext: Vec<u8>, wipe: Vec<u8> },
}

/// Whether `outcome` is what comes of an edit that left `edited`.
pub open spec fn ends_edit(
    editor_succeeded: bool,
    edited: Seq<u8>,
    recipients: Seq<Seq<char>>,
    outcome: EditOutcome,
) -> bool {
    match outcome {
        EditOutcome::Abandoned => !editor_succeeded,
        EditOutcome::Failed(error) => editor_succeeded && recipients_fault(recipients, error),
        EditOutcome::Stored { ciphertext, wipe } => {
            &&& editor_succeeded
            &&& encrypted_to(ciphertext@, edited, recipients)
            &&& wipe@ == Seq::new(edited.len(), |i: int| 0u8)
        },
    }
}

/// What comes of an edit that left `edited`, unless age would panic over the recipients:
/// then nothing comes back.
pub fn edit_finish(editor_succeeded: bool, edited: &[u8], recipients: &[String]) -> (r: Option<
    EditOutcome,
>)
    ensures
        match r {
            Some(outcome) => {
                &&& ends_edit(editor_succeeded, edited@, texts(recipients@), outcome)
                &&& editor_succeeded ==> !age_panics(texts(recipients@))
            },
            None => editor_succeeded && age_panics(texts(recipients@)),
        },
{
    if !editor_succeeded {
        return Some(EditOutcome::Abandoned);
    }
    match try_encrypt(edited, recipients) {
        Some(Ok(ciphertext)) => {
            let mut wipe: Vec<u8> = Vec::new();
            let mut i: usize = 0;
            while i < edited.len()
                invariant
                    i <= edited.len(),
                    wipe@ == Seq::new(i as nat, |i: int| 0u8),
                decreases edited.len() - i,
            {
                wipe.push(0);
                i += 1;
            }
            Some(EditOutcome::Stored { ciphertext, wipe })
        },
        Some(Err(error)) => Some(EditOutcome::Failed(error)),
        None => None,
    }
}

/// What one edit left is what the next one starts from, for whoever brings an identity that
/// belongs to one of the recipients.
pub proof fn law_edit_is_found_by_the_next(
    edited: Seq<u8>,
    recipients: Seq<Seq<char>>,
    ciphertext: Vec<u8>,
    wipe: Vec<u8>,
    secrets: Seq<Seq<char>>,
    r: Result<Vec<u8>, Error>,
)
    requires
        ends_edit(true, edited, recipients, EditOutcome::Stored { ciphertext, wipe }),
        unlocks(secrets, keys_of(recipients)),
        starts_edit(Some(ciphertext@), secrets, r),
    ensures
        r matches Ok(plaintext) && plaintext@ == edited,
{
    law_decrypt_undoes_encrypt(edited, recipients, ciphertext@, secrets, r);
}

} // verus!
