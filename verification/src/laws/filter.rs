//! Laws of the git filter.

use crate::age_calls::{age_identity, age_opened, age_public, age_recipient, age_sealed, OpenStage};
use crate::crypto::{keys_of, law_ciphertext_is_armored, looks_like_age_armor, panics_in_age};
use crate::error::Error;
use crate::gitfilter::{
    available_identities, clean, cleaned, law_clean_is_idempotent, law_smudge_undoes_clean, smudge,
    smudge_outcome, smudged, try_clean, CleanOutcome, SmudgeOutcome,
};
use crate::identity::{parse_identity_file, secrets, Identity};
use crate::laws::armor::{lemma_armored_has_marker, lemma_first_invalid, lemma_texts, lemma_unlocks};
use crate::text::texts;
use vstd::prelude::*;
use vstd::utf8::encode_utf8;

verus! {

/// Whatever cleaning puts out has the armor's first line behind nothing but blanks: no
/// plaintext reaches the object database.
pub proof fn law_cleaned_content_has_the_marker(
    input: &[u8],
    recipients: &[String],
    outcome: CleanOutcome,
    out: Vec<u8>,
)
    requires
        call_ensures(clean, (input, recipients), Ok(outcome)),
        call_ensures(CleanOutcome::into_bytes, (outcome,), out),
    ensures
        exists|n: int|
            {
                &&& 0 <= n <= out@.len() - 34
                &&& forall|i: int|
                    0 <= i < n ==> #[trigger] out@[i] == 0x0a || out@[i] == 0x0d || out@[i] == 0x20
                        || out@[i] == 0x09
                &&& #[trigger] out@.subrange(n, n + 34) == encode_utf8(
                    "-----BEGIN AGE ENCRYPTED FILE-----"@,
                )
            },
{
    if outcome is Encrypted {
        law_ciphertext_is_armored(cleaned(outcome), input@, texts(recipients@));
    }
    let n = lemma_armored_has_marker(out@);
    assert(out@.subrange(n, n + 34) == encode_utf8("-----BEGIN AGE ENCRYPTED FILE-----"@));
}

/// Armored content is kept byte for byte, whoever the recipients are.
pub proof fn law_armored_content_is_kept(
    input: &[u8],
    recipients: &[String],
    r: Result<CleanOutcome, Error>,
)
    requires
        call_ensures(looks_like_age_armor, (input,), true),
        call_ensures(clean, (input, recipients), r),
    ensures
        r matches Ok(CleanOutcome::AlreadyEncrypted(out)) && out@ == input@,
{
}

/// Other content is encrypted, to exactly the recipients, wherever age reads them all.
pub proof fn law_other_content_is_encrypted(
    input: &[u8],
    recipients: &[String],
    keys: Seq<Seq<char>>,
    r: Result<CleanOutcome, Error>,
)
    requires
        call_ensures(looks_like_age_armor, (input,), false),
        call_ensures(clean, (input, recipients), r),
        keys.len() == recipients@.len(),
        keys.len() > 0,
        forall|i: int|
            0 <= i < keys.len() ==> age_recipient(recipients@[i]@) == Ok::<Seq<char>, Seq<char>>(
                #[trigger] keys[i],
            ),
    ensures
        r matches Ok(CleanOutcome::Encrypted(out)) && age_sealed(input@, keys, out@),
{
    lemma_good(recipients@, keys);
}

proof fn lemma_good(recipients: Seq<String>, keys: Seq<Seq<char>>)
    requires
        keys.len() == recipients.len(),
        forall|i: int|
            0 <= i < keys.len() ==> age_recipient(recipients[i]@) == Ok::<Seq<char>, Seq<char>>(
                #[trigger] keys[i],
            ),
    ensures
        crate::crypto::all_valid(texts(recipients)),
        keys == keys_of(texts(recipients)),
{
    lemma_texts(recipients);
    assert forall|i: int| 0 <= i < recipients.len() implies age_recipient(
        #[trigger] texts(recipients)[i],
    ) is Ok by {
        assert(age_recipient(recipients[i]@) == Ok::<Seq<char>, Seq<char>>(keys[i]));
    }
    assert(keys == keys_of(texts(recipients)));
}

/// Other content is refused without recipients.
pub proof fn law_other_content_needs_recipients(
    input: &[u8],
    recipients: &[String],
    r: Result<CleanOutcome, Error>,
)
    requires
        call_ensures(looks_like_age_armor, (input,), false),
        call_ensures(clean, (input, recipients), r),
        recipients@.len() == 0,
    ensures
        r matches Err(error) && error is NoRecipients,
{
    lemma_texts(recipients@);
}

/// Other content is refused where age does not read a recipient, and the first of them is
/// named.
pub proof fn law_other_content_needs_good_recipients(
    input: &[u8],
    recipients: &[String],
    i: int,
    r: Result<CleanOutcome, Error>,
)
    requires
        call_ensures(looks_like_age_armor, (input,), false),
        call_ensures(clean, (input, recipients), r),
        0 <= i < recipients@.len(),
        age_recipient(recipients@[i]@) is Err,
        forall|j: int| 0 <= j < i ==> age_recipient((#[trigger] recipients@[j])@) is Ok,
    ensures
        r matches Err(Error::InvalidRecipient { recipient, fault }) && recipient@ == recipients@[i]@
            && age_recipient(recipients@[i]@) == Err::<Seq<char>, Seq<char>>(fault@),
{
    lemma_texts(recipients@);
    lemma_first_invalid(recipients@, i);
}

/// What an outcome puts out is what it holds.
pub proof fn law_outcomes_put_out_what_they_hold(
    stored: CleanOutcome,
    stored_bytes: Vec<u8>,
    restored: SmudgeOutcome,
    restored_bytes: Vec<u8>,
)
    requires
        call_ensures(CleanOutcome::into_bytes, (stored,), stored_bytes),
        call_ensures(SmudgeOutcome::into_bytes, (restored,), restored_bytes),
    ensures
        stored matches CleanOutcome::Encrypted(bytes) ==> stored_bytes@ == bytes@,
        stored matches CleanOutcome::AlreadyEncrypted(bytes) ==> stored_bytes@ == bytes@,
        restored matches SmudgeOutcome::Decrypted(bytes) ==> restored_bytes@ == bytes@,
        restored matches SmudgeOutcome::PassedThrough { reason, content } ==> restored_bytes@
            == content@,
{
}

/// Cleaning what cleaning put out keeps it, for any recipients.
pub proof fn law_cleaning_twice_is_cleaning_once(
    input: &[u8],
    recipients: &[String],
    outcome: CleanOutcome,
    out: Vec<u8>,
    again: &[u8],
    later: &[String],
    r: Result<CleanOutcome, Error>,
)
    requires
        call_ensures(clean, (input, recipients), Ok(outcome)),
        call_ensures(CleanOutcome::into_bytes, (outcome,), out),
        again@ == out@,
        call_ensures(clean, (again, later), r),
    ensures
        r matches Ok(CleanOutcome::AlreadyEncrypted(kept)) && kept@ == out@,
{
    law_clean_is_idempotent(input@, texts(recipients@), outcome, texts(later@), r);
}

/// `try_clean` does what cleaning does, but where content would be encrypted to recipients
/// that age is kept from: then nothing comes back.
pub proof fn law_try_clean_cleans(
    input: &[u8],
    recipients: &[String],
    keys: Seq<Seq<char>>,
    armored: bool,
    kept: bool,
    r: Option<Result<CleanOutcome, Error>>,
)
    requires
        call_ensures(looks_like_age_armor, (input,), armored),
        call_ensures(panics_in_age, (recipients,), kept),
        call_ensures(try_clean, (input, recipients), r),
        keys.len() == recipients@.len(),
        forall|i: int|
            0 <= i < keys.len() ==> age_recipient(recipients@[i]@) == Ok::<Seq<char>, Seq<char>>(
                #[trigger] keys[i],
            ),
    ensures
        r is None <==> !armored && kept,
        armored ==> (r matches Some(Ok(CleanOutcome::AlreadyEncrypted(out))) && out@ == input@),
        !armored && keys.len() == 0 ==> (r matches Some(Err(error)) && error is NoRecipients),
        !armored && keys.len() > 0 && !kept ==> (r matches Some(Ok(CleanOutcome::Encrypted(out)))
            && age_sealed(input@, keys, out@)),
{
    lemma_texts(recipients@);
    lemma_good(recipients@, keys);
}

/// `try_clean` names the first recipient that age does not read.
pub proof fn law_try_clean_needs_good_recipients(
    input: &[u8],
    recipients: &[String],
    i: int,
    armored: bool,
    r: Option<Result<CleanOutcome, Error>>,
)
    requires
        call_ensures(looks_like_age_armor, (input,), armored),
        call_ensures(try_clean, (input, recipients), r),
        0 <= i < recipients@.len(),
        age_recipient(recipients@[i]@) is Err,
        forall|j: int| 0 <= j < i ==> age_recipient((#[trigger] recipients@[j])@) is Ok,
    ensures
        armored ==> (r matches Some(Ok(CleanOutcome::AlreadyEncrypted(out))) && out@ == input@),
        !armored ==> (r matches Some(Err(Error::InvalidRecipient { recipient, fault }))
            && recipient@ == recipients@[i]@ && age_recipient(recipients@[i]@) == Err::<
            Seq<char>,
            Seq<char>,
        >(fault@)),
{
    lemma_texts(recipients@);
    lemma_first_invalid(recipients@, i);
}

/// Smudging decrypts only to what age opens, and wherever age opens armored content; what
/// it does not decrypt is kept byte for byte.
pub proof fn law_smudge_gives_what_age_opens(
    input: &[u8],
    identities: &[Identity],
    held: Seq<Seq<char>>,
    armored: bool,
    outcome: SmudgeOutcome,
)
    requires
        call_ensures(looks_like_age_armor, (input,), armored),
        call_ensures(smudge, (input, identities), outcome),
        held.len() == identities@.len(),
        forall|i: int| 0 <= i < held.len() ==> #[trigger] held[i] == identities@[i]@,
    ensures
        outcome matches SmudgeOutcome::Decrypted(bytes) ==> armored && held.len() > 0
            && age_opened(input@, held) == Ok::<Seq<u8>, OpenStage>(bytes@),
        outcome matches SmudgeOutcome::PassedThrough { reason, content } ==> content@ == input@,
        outcome is PassedThrough ==> !armored || held.len() == 0 || age_opened(
            input@,
            held,
        ) is Err,
{
    assert(held == secrets(identities@));
}

/// Why content was kept is told: it was not armored, there was no identity, or what went
/// wrong when it was decrypted.
pub proof fn law_smudge_tells_why(
    input: &[u8],
    identities: &[Identity],
    held: Seq<Seq<char>>,
    armored: bool,
    reason: String,
    content: Vec<u8>,
)
    requires
        call_ensures(looks_like_age_armor, (input,), armored),
        call_ensures(smudge, (input, identities), SmudgeOutcome::PassedThrough { reason, content }),
        held.len() == identities@.len(),
        forall|i: int| 0 <= i < held.len() ==> #[trigger] held[i] == identities@[i]@,
    ensures
        !armored ==> reason@
            == "input isn't armored age ciphertext (already plaintext, or already smudged) — passing through unchanged"@,
        armored && held.len() == 0 ==> reason@
            == "no identity available to decrypt — passing through ciphertext unchanged (this is expected on a machine that only needs to read the encrypted file, e.g. CI without the private key)"@,
        armored && held.len() > 0 && age_opened(input@, held) == Err::<Seq<u8>, OpenStage>(
            OpenStage::Header,
        ) ==> reason@ == "decryption failed ("@ + "reading age header"@
            + ") — passing through ciphertext unchanged instead of failing the checkout"@,
        armored && held.len() > 0 && age_opened(input@, held) == Err::<Seq<u8>, OpenStage>(
            OpenStage::Identity,
        ) ==> reason@ == "decryption failed ("@
            + "no matching identity for this ciphertext's recipients"@
            + ") — passing through ciphertext unchanged instead of failing the checkout"@,
        armored && held.len() > 0 ==> "decryption failed ("@.is_prefix_of(reason@)
            && ") — passing through ciphertext unchanged instead of failing the checkout"@.is_suffix_of(
            reason@,
        ),
{
    assert(held == secrets(identities@));
    if armored && held.len() > 0 {
        let opening = "decryption failed ("@;
        let r = choose|r: Result<Vec<u8>, Error>| #[trigger]
            crate::crypto::decrypts(input@, held, r) && crate::gitfilter::smudges_to(
                input@,
                r,
                SmudgeOutcome::PassedThrough { reason, content },
            );
        assert(r is Err);
        assert(opening == reason@.subrange(0, opening.len() as int));
        let closing =
            ") — passing through ciphertext unchanged instead of failing the checkout"@;
        assert(closing == reason@.subrange(
            reason@.len() - closing.len(),
            reason@.len() as int,
        ));
    }
}

/// What is smudged follows from what decrypting gave.
pub proof fn law_smudge_follows_the_decryption(
    input: &[u8],
    outcome: Result<Vec<u8>, Error>,
    message: String,
    r: SmudgeOutcome,
)
    requires
        call_ensures(smudge_outcome, (input, outcome), r),
        outcome matches Err(error) ==> call_ensures(Error::message, (&error,), message),
    ensures
        outcome matches Ok(plaintext) ==> (r matches SmudgeOutcome::Decrypted(bytes) && bytes@
            == plaintext@),
        outcome is Err ==> (r matches SmudgeOutcome::PassedThrough { reason, content } && content@
            == input@ && reason@ == "decryption failed ("@ + message@
            + ") — passing through ciphertext unchanged instead of failing the checkout"@),
{
}

/// Smudging undoes cleaning, for whoever brings an identity whose public key is a
/// recipient.
pub proof fn law_cleaned_content_comes_back(
    input: &[u8],
    recipients: &[String],
    stored: CleanOutcome,
    bytes: Vec<u8>,
    blob: &[u8],
    identities: &[Identity],
    i: int,
    j: int,
    restored: SmudgeOutcome,
)
    requires
        call_ensures(looks_like_age_armor, (input,), false),
        call_ensures(clean, (input, recipients), Ok(stored)),
        call_ensures(CleanOutcome::into_bytes, (stored,), bytes),
        blob@ == bytes@,
        call_ensures(smudge, (blob, identities), restored),
        forall|k: int|
            0 <= k < identities@.len() ==> age_identity((#[trigger] identities@[k])@) == Ok::<
                Seq<char>,
                Seq<char>,
            >(identities@[k]@),
        0 <= i < identities@.len(),
        0 <= j < recipients@.len(),
        age_recipient(recipients@[j]@) == Ok::<Seq<char>, Seq<char>>(age_public(identities@[i]@)),
    ensures
        restored matches SmudgeOutcome::Decrypted(out) && out@ == input@,
{
    lemma_unlocks(identities@, recipients@, i, j);
    law_smudge_undoes_clean(
        input@,
        texts(recipients@),
        stored,
        secrets(identities@),
        restored,
    );
}

/// Without identities, smudging and cleaning again leave what is stored.
pub proof fn law_stored_content_stays_without_identities(
    stored: &[u8],
    identities: &[Identity],
    worktree: SmudgeOutcome,
    bytes: Vec<u8>,
    file: &[u8],
    recipients: &[String],
    r: Result<CleanOutcome, Error>,
)
    requires
        call_ensures(looks_like_age_armor, (stored,), true),
        identities@.len() == 0,
        call_ensures(smudge, (stored, identities), worktree),
        call_ensures(SmudgeOutcome::into_bytes, (worktree,), bytes),
        file@ == bytes@,
        call_ensures(clean, (file, recipients), r),
    ensures
        bytes@ == stored@,
        r matches Ok(CleanOutcome::AlreadyEncrypted(again)) && again@ == stored@,
{
    assert(secrets(identities@) == Seq::<Seq<char>>::empty());
}

/// Smudging counts on the identities that the identity file gives, and on none where it
/// gives none or is not there.
pub proof fn law_unusable_identity_file_counts_as_none(
    identity_file: Option<&str>,
    out: Vec<Identity>,
    parsed: Result<Vec<Identity>, Error>,
)
    requires
        call_ensures(available_identities, (identity_file,), out),
        identity_file matches Some(contents) ==> call_ensures(
            parse_identity_file,
            (contents,),
            parsed,
        ),
    ensures
        identity_file is None ==> out@.len() == 0,
        identity_file is Some && parsed is Err ==> out@.len() == 0,
        identity_file is Some ==> (parsed matches Ok(identities) ==> out@.len() == identities@.len()
            && forall|i: int| 0 <= i < out@.len() ==> (#[trigger] out@[i])@ == identities@[i]@),
{
    assert(secrets(out@).len() == out@.len());
    assert(forall|i: int| 0 <= i < out@.len() ==> secrets(out@)[i] == (#[trigger] out@[i])@);
    if let Some(contents) = identity_file {
        let lines = crate::text::values(contents@);
        if let Ok(identities) = parsed {
            assert forall|i: int| 0 <= i < lines.len() implies age_identity(#[trigger] lines[i])
                == Ok::<Seq<char>, Seq<char>>(identities@[i]@) by {
                assert(age_identity(lines[i]) == Ok::<Seq<char>, Seq<char>>(identities@[i]@));
            }
        } else {
            let i = choose|i: int| #[trigger] crate::identity::first_bad_identity(lines, i);
            assert(age_identity(lines[i]) is Err);
        }
    }
}

} // verus!
