//! The two ends of a git filter driver: `clean` turns what the worktree holds into what
//! the object database keeps, `smudge` turns it back.
//!
//! `clean` must not encrypt its own output again, or every diff would show a change: what
//! is armored already passes through. `smudge` must not fail a checkout on a machine that
//! has no identity: what it cannot decrypt passes through, with a reason.

use crate::age_calls::{age_identity, is_secret, unlocks};
use crate::crypto::{
    age_panics, decrypt, decrypts, encrypt, encrypted_to, is_armored, keys_of,
    law_ciphertext_is_armored, law_decrypt_undoes_encrypt, looks_like_age_armor, panics_in_age,
    recipients_fault,
};
use crate::error::{words, Error};
use crate::identity::{parse_identity_file, secrets, Identity};
use crate::text::{texts, values};
use vstd::prelude::*;

verus! {

/// What `clean` made of the worktree's content.
#[derive(Debug, PartialEq, Eq)]
pub enum CleanOutcome {
    /// It was plaintext; this is its encrypted form.
    Encrypted(Vec<u8>),
    /// It was armored already; it is unchanged.
    AlreadyEncrypted(Vec<u8>),
}

/// What `smudge` made of the object database's content.
#[derive(Debug, PartialEq, Eq)]
pub enum SmudgeOutcome {
    /// It was ciphertext, and one of the identities decrypted it.
    Decrypted(Vec<u8>),
    /// It is unchanged: it was no ciphertext, there was no identity, or none decrypted it.
    PassedThrough { reason: String, content: Vec<u8> },
}

/// Why content that is not armored passes through `smudge`.
pub const NOT_ARMORED: &'static str =
    "input isn't armored age ciphertext (already plaintext, or already smudged) — passing through unchanged";

/// Why content passes through `smudge` where there is no identity.
pub const NO_IDENTITY: &'static str =
    "no identity available to decrypt — passing through ciphertext unchanged (this is expected on a machine that only needs to read the encrypted file, e.g. CI without the private key)";

/// Why content passes through `smudge` that was not decrypted because of `fault`.
pub open spec fn not_decrypted(fault: Seq<char>) -> Seq<char> {
    "decryption failed ("@ + fault
        + ") — passing through ciphertext unchanged instead of failing the checkout"@
}

/// The content that a `clean` outcome puts into the object database.
pub open spec fn cleaned(outcome: CleanOutcome) -> Seq<u8> {
    match outcome {
        CleanOutcome::Encrypted(bytes) => bytes@,
        CleanOutcome::AlreadyEncrypted(bytes) => bytes@,
    }
}

/// The content that a `smudge` outcome puts into the worktree.
pub open spec fn smudged(outcome: SmudgeOutcome) -> Seq<u8> {
    match outcome {
        SmudgeOutcome::Decrypted(bytes) => bytes@,
        SmudgeOutcome::PassedThrough { content, .. } => content@,
    }
}

/// Whether `r` is what cleaning `input` for `recipients` gives.
pub open spec fn cleans(
    input: Seq<u8>,
    recipients: Seq<Seq<char>>,
    r: Result<CleanOutcome, Error>,
) -> bool {
    match r {
        Ok(CleanOutcome::AlreadyEncrypted(bytes)) => is_armored(input) && bytes@ == input,
        Ok(CleanOutcome::Encrypted(bytes)) => !is_armored(input) && encrypted_to(
            bytes@,
            input,
            recipients,
        ),
        Err(error) => !is_armored(input) && recipients_fault(recipients, error),
    }
}

/// Whether `outcome` is what armored `input` is smudged to, where decrypting it came to `r`.
pub open spec fn smudges_to(
    input: Seq<u8>,
    r: Result<Vec<u8>, Error>,
    outcome: SmudgeOutcome,
) -> bool {
    match (r, outcome) {
        (Ok(plaintext), SmudgeOutcome::Decrypted(bytes)) => bytes@ == plaintext@,
        (Err(error), SmudgeOutcome::PassedThrough { reason, content }) => content@ == input
            && reason@ == not_decrypted(words(error)),
        _ => false,
    }
}

/// Whether `outcome` is what smudging `input` with the secret keys `secrets` gives.
pub open spec fn smudges(
    input: Seq<u8>,
    secrets: Seq<Seq<char>>,
    outcome: SmudgeOutcome,
) -> bool {
    if !is_armored(input) {
        outcome matches SmudgeOutcome::PassedThrough { reason, content } && content@ == input
            && reason@ == NOT_ARMORED@
    } else if secrets.len() == 0 {
        outcome matches SmudgeOutcome::PassedThrough { reason, content } && content@ == input
            && reason@ == NO_IDENTITY@
    } else {
        exists|r: Result<Vec<u8>, Error>| #[trigger]
            decrypts(input, secrets, r) && smudges_to(input, r, outcome)
    }
}

/// Whatever `clean` lets into the object database is armored: never plaintext.
pub proof fn law_clean_never_passes_plaintext(
    input: Seq<u8>,
    recipients: Seq<Seq<char>>,
    outcome: CleanOutcome,
)
    requires
        cleans(input, recipients, Ok(outcome)),
    ensures
        is_armored(cleaned(outcome)),
{
    if outcome is Encrypted {
        law_ciphertext_is_armored(cleaned(outcome), input, recipients);
    }
}

/// Cleaning what was cleaned leaves it as it is, whoever the recipients are by then.
pub proof fn law_clean_is_idempotent(
    input: Seq<u8>,
    recipients: Seq<Seq<char>>,
    first: CleanOutcome,
    later: Seq<Seq<char>>,
    second: Result<CleanOutcome, Error>,
)
    requires
        cleans(input, recipients, Ok(first)),
        cleans(cleaned(first), later, second),
    ensures
        second matches Ok(again) && again is AlreadyEncrypted && cleaned(again) == cleaned(first),
{
    law_clean_never_passes_plaintext(input, recipients, first);
}

/// Without recipients no plaintext is cleaned.
pub proof fn law_clean_needs_recipients(input: Seq<u8>, r: Result<CleanOutcome, Error>)
    requires
        !is_armored(input),
        cleans(input, Seq::empty(), r),
    ensures
        r matches Err(error) && error is NoRecipients,
{
}

/// Smudging what was cleaned gives the plaintext back, to whoever brings an identity that
/// belongs to one of the recipients.
pub proof fn law_smudge_undoes_clean(
    input: Seq<u8>,
    recipients: Seq<Seq<char>>,
    stored: CleanOutcome,
    secrets: Seq<Seq<char>>,
    restored: SmudgeOutcome,
)
    requires
        !is_armored(input),
        cleans(input, recipients, Ok(stored)),
        unlocks(secrets, keys_of(recipients)),
        smudges(cleaned(stored), secrets, restored),
    ensures
        restored is Decrypted,
        smudged(restored) == input,
{
    law_clean_never_passes_plaintext(input, recipients, stored);
    let r = choose|r: Result<Vec<u8>, Error>| #[trigger]
        decrypts(cleaned(stored), secrets, r) && smudges_to(cleaned(stored), r, restored);
    law_decrypt_undoes_encrypt(input, recipients, cleaned(stored), secrets, r);
}

/// What smudging does not decrypt it does not change.
pub proof fn law_smudge_decrypts_or_keeps(
    input: Seq<u8>,
    secrets: Seq<Seq<char>>,
    outcome: SmudgeOutcome,
)
    requires
        smudges(input, secrets, outcome),
    ensures
        outcome is Decrypted || smudged(outcome) == input,
{
}

/// Smudging what was smudged leaves it as it is, unless what was decrypted is itself
/// armored.
pub proof fn law_smudge_is_stable(
    input: Seq<u8>,
    secrets: Seq<Seq<char>>,
    first: SmudgeOutcome,
    second: SmudgeOutcome,
)
    requires
        smudges(input, secrets, first),
        first is Decrypted ==> !is_armored(smudged(first)),
        smudges(smudged(first), secrets, second),
    ensures
        smudged(second) == smudged(first),
{
    if is_armored(input) && secrets.len() > 0 {
        let r = choose|r: Result<Vec<u8>, Error>| #[trigger]
            decrypts(input, secrets, r) && smudges_to(input, r, first);
        if first is PassedThrough {
            let again = choose|r: Result<Vec<u8>, Error>| #[trigger]
                decrypts(input, secrets, r) && smudges_to(input, r, second);
            assert(r is Err && again is Err);
        }
    }
}

/// Where there is no identity, what is checked out is what was stored, and cleaning it
/// stores the same again: the worktree counts as unmodified.
pub proof fn law_no_identity_leaves_no_change(
    stored: Seq<u8>,
    worktree: SmudgeOutcome,
    recipients: Seq<Seq<char>>,
    again: Result<CleanOutcome, Error>,
)
    requires
        is_armored(stored),
        smudges(stored, Seq::empty(), worktree),
        cleans(smudged(worktree), recipients, again),
    ensures
        again matches Ok(outcome) && cleaned(outcome) == stored,
{
}

impl CleanOutcome {
    /// The content for the object database.
    pub fn into_bytes(self) -> (out: Vec<u8>)
        ensures
            out@ == cleaned(self),
    {
        match self {
            CleanOutcome::Encrypted(bytes) => bytes,
            CleanOutcome::AlreadyEncrypted(bytes) => bytes,
        }
    }
}

impl SmudgeOutcome {
    /// The content for the worktree.
    pub fn into_bytes(self) -> (out: Vec<u8>)
        ensures
            out@ == smudged(self),
    {
        match self {
            SmudgeOutcome::Decrypted(bytes) => bytes,
            SmudgeOutcome::PassedThrough { content, .. } => content,
        }
    }
}

/// Encrypts `input` to `recipients`, unless it is armored already. A fault in the
/// recipients is an error, so that plaintext is never passed on in its place.
pub fn clean(input: &[u8], recipients: &[String]) -> (r: Result<CleanOutcome, Error>)
    requires
        is_armored(input@) || !age_panics(texts(recipients@)),
    ensures
        cleans(input@, texts(recipients@), r),
{
    if looks_like_age_armor(input) {
        return Ok(CleanOutcome::AlreadyEncrypted(vstd::slice::slice_to_vec(input)));
    }
    match encrypt(input, recipients) {
        Ok(ciphertext) => Ok(CleanOutcome::Encrypted(ciphertext)),
        Err(error) => Err(error),
    }
}

/// Cleans `input` for `recipients`, unless age would panic over them: then nothing comes
/// back.
pub fn try_clean(input: &[u8], recipients: &[String]) -> (r: Option<Result<CleanOutcome, Error>>)
    ensures
        match r {
            Some(outcome) => cleans(input@, texts(recipients@), outcome) && (is_armored(input@)
                || !age_panics(texts(recipients@))),
            None => !is_armored(input@) && age_panics(texts(recipients@)),
        },
{
    if !looks_like_age_armor(input) && panics_in_age(recipients) {
        None
    } else {
        Some(clean(input, recipients))
    }
}

/// What armored `input` is smudged to, from what decrypting it gave.
pub fn smudge_outcome(input: &[u8], outcome: Result<Vec<u8>, Error>) -> (r: SmudgeOutcome)
    ensures
        smudges_to(input@, outcome, r),
{
    match outcome {
        Ok(plaintext) => SmudgeOutcome::Decrypted(plaintext),
        Err(error) => {
            let mut reason = "decryption failed (".to_owned();
            reason.append(error.message().as_str());
            reason.append(
                ") — passing through ciphertext unchanged instead of failing the checkout",
            );
            SmudgeOutcome::PassedThrough { reason, content: vstd::slice::slice_to_vec(input) }
        },
    }
}

/// The secret keys that smudging can count on: those of the identity file, if it could be
/// read and every line of it is one.
pub open spec fn available(identity_file: Option<Seq<char>>) -> Seq<Seq<char>> {
    match identity_file {
        Some(contents) => if forall|i: int|
            0 <= i < values(contents).len() ==> age_identity(#[trigger] values(contents)[i]) is Ok {
            values(contents).map_values(|line: Seq<char>| age_identity(line)->Ok_0)
        } else {
            Seq::empty()
        },
        None => Seq::empty(),
    }
}

/// The identities that smudging can count on, from what the identity file holds, if it
/// could be read. A file that is missing or malformed counts as one without identities, so
/// that it does not fail a checkout.
pub fn available_identities(identity_file: Option<&str>) -> (out: Vec<Identity>)
    ensures
        secrets(out@) == available(
            match identity_file {
                Some(contents) => Some(contents@),
                None => None,
            },
        ),
        forall|i: int| 0 <= i < out@.len() ==> is_secret((#[trigger] out@[i])@),
{
    match identity_file {
        Some(contents) => match parse_identity_file(contents) {
            Ok(identities) => {
                proof {
                    let lines = values(contents@);
                    assert forall|i: int| 0 <= i < lines.len() implies age_identity(
                        #[trigger] lines[i],
                    ) == Ok::<Seq<char>, Seq<char>>(secrets(identities@)[i]) by {
                        assert(secrets(identities@)[i] == identities@[i]@);
                    }
                    assert(secrets(identities@) == available(Some(contents@)));
                }
                identities
            },
            Err(_) => {
                let none: Vec<Identity> = Vec::new();
                assert(secrets(none@) == available(Some(contents@)));
                none
            },
        },
        None => {
            let none: Vec<Identity> = Vec::new();
            assert(secrets(none@) == available(None));
            none
        },
    }
}

/// Decrypts `input` with `identities`. It never fails: what is no ciphertext, or cannot be
/// decrypted here, passes through unchanged.
pub fn smudge(input: &[u8], identities: &[Identity]) -> (outcome: SmudgeOutcome)
    ensures
        smudges(input@, secrets(identities@), outcome),
{
    if !looks_like_age_armor(input) {
        return SmudgeOutcome::PassedThrough {
            reason: NOT_ARMORED.to_owned(),
            content: vstd::slice::slice_to_vec(input),
        };
    }
    if identities.len() == 0 {
        return SmudgeOutcome::PassedThrough {
            reason: NO_IDENTITY.to_owned(),
            content: vstd::slice::slice_to_vec(input),
        };
    }
    smudge_outcome(input, decrypt(input, identities))
}

} // verus!
