//! Laws of making an identity and of editing a file.

use crate::age_calls::{age_identity, age_public, age_recipient, age_sealed};
use crate::commands::{announces, edit_finish, edit_start, keygen, EditOutcome, NewIdentity};
use crate::crypto::{decrypt, keys_of, law_decrypt_undoes_encrypt, panics_in_age};
use crate::error::Error;
use crate::identity::{
    drawn, law_identity_file_round_trips, parse_identity_file, public_strings, secrets, Identity,
};
use crate::laws::armor::{lemma_first_invalid, lemma_texts, lemma_unlocks};
use crate::text::texts;
use vstd::prelude::*;

verus! {

/// An edit is abandoned where the editor failed, and nowhere else.
pub proof fn law_only_a_failed_editor_abandons(
    editor_succeeded: bool,
    edited: &[u8],
    recipients: &[String],
    r: Option<EditOutcome>,
)
    requires
        call_ensures(edit_finish, (editor_succeeded, edited, recipients), r),
    ensures
        (r matches Some(outcome) && outcome is Abandoned) <==> !editor_succeeded,
{
}

/// What an editor that succeeded left is stored, encrypted to exactly the recipients,
/// wherever age reads them all and is not kept from them; and as many zeros go over it.
pub proof fn law_an_edit_is_stored(
    edited: &[u8],
    recipients: &[String],
    keys: Seq<Seq<char>>,
    kept: bool,
    r: Option<EditOutcome>,
)
    requires
        call_ensures(panics_in_age, (recipients,), kept),
        call_ensures(edit_finish, (true, edited, recipients), r),
        keys.len() == recipients@.len(),
        keys.len() > 0,
        forall|i: int|
            0 <= i < keys.len() ==> age_recipient(recipients@[i]@) == Ok::<Seq<char>, Seq<char>>(
                #[trigger] keys[i],
            ),
    ensures
        kept ==> r is None,
        !kept ==> (r matches Some(EditOutcome::Stored { ciphertext, wipe }) && age_sealed(
            edited@,
            keys,
            ciphertext@,
        ) && wipe@.len() == edited@.len() && forall|i: int|
            0 <= i < wipe@.len() ==> #[trigger] wipe@[i] == 0),
{
    let given = texts(recipients@);
    lemma_texts(recipients@);
    assert forall|i: int| 0 <= i < given.len() implies age_recipient(#[trigger] given[i]) is Ok by {
        assert(age_recipient(recipients@[i]@) == Ok::<Seq<char>, Seq<char>>(keys[i]));
    }
    assert(keys == keys_of(given));
}

/// What an editor that succeeded left is not stored without recipients.
pub proof fn law_an_edit_needs_recipients(
    edited: &[u8],
    recipients: &[String],
    r: Option<EditOutcome>,
)
    requires
        call_ensures(edit_finish, (true, edited, recipients), r),
        recipients@.len() == 0,
    ensures
        r matches Some(EditOutcome::Failed(error)) && error is NoRecipients,
{
    lemma_texts(recipients@);
}

/// What an editor that succeeded left is not stored where age does not read a recipient, and
/// the first of them is named.
pub proof fn law_an_edit_needs_good_recipients(
    edited: &[u8],
    recipients: &[String],
    i: int,
    r: Option<EditOutcome>,
)
    requires
        call_ensures(edit_finish, (true, edited, recipients), r),
        0 <= i < recipients@.len(),
        age_recipient(recipients@[i]@) is Err,
        forall|j: int| 0 <= j < i ==> age_recipient((#[trigger] recipients@[j])@) is Ok,
    ensures
        r matches Some(EditOutcome::Failed(Error::InvalidRecipient { recipient, fault }))
            && recipient@ == recipients@[i]@ && age_recipient(recipients@[i]@) == Err::<
            Seq<char>,
            Seq<char>,
        >(fault@),
{
    lemma_texts(recipients@);
    lemma_first_invalid(recipients@, i);
}

/// An edit starts from nothing where there is no file.
pub proof fn law_a_new_file_starts_empty(
    existing: Option<&[u8]>,
    identities: &[Identity],
    r: Result<Vec<u8>, Error>,
)
    requires
        call_ensures(edit_start, (existing, identities), r),
        existing is None,
    ensures
        r matches Ok(plaintext) && plaintext@.len() == 0,
{
}

/// An edit of a file starts where decrypting it ends, and not at all where that fails.
pub proof fn law_an_edit_starts_from_the_decrypted_file(
    ciphertext: &[u8],
    identities: &[Identity],
    decrypted: Result<Vec<u8>, Error>,
    r: Result<Vec<u8>, Error>,
)
    requires
        call_ensures(edit_start, (Some(ciphertext), identities), r),
        call_ensures(decrypt, (ciphertext, identities), decrypted),
    ensures
        decrypted matches Ok(plaintext) ==> (r matches Ok(out) && out@ == plaintext@),
        decrypted matches Err(fault) ==> {
            &&& r matches Err(error)
            &&& (fault is NoIdentities <==> error is NoIdentities)
            &&& (fault is Header <==> error is Header)
            &&& (fault is NoMatchingIdentity <==> error is NoMatchingIdentity)
            &&& (fault is Payload <==> error is Payload)
        },
{
}

/// What one edit stored is what the next one starts from.
pub proof fn law_the_next_edit_starts_from_the_last(
    edited: &[u8],
    recipients: &[String],
    ciphertext: Vec<u8>,
    wipe: Vec<u8>,
    file: &[u8],
    identities: &[Identity],
    i: int,
    j: int,
    r: Result<Vec<u8>, Error>,
)
    requires
        call_ensures(
            edit_finish,
            (true, edited, recipients),
            Some(EditOutcome::Stored { ciphertext, wipe }),
        ),
        file@ == ciphertext@,
        call_ensures(edit_start, (Some(file), identities), r),
        forall|k: int|
            0 <= k < identities@.len() ==> age_identity((#[trigger] identities@[k])@) == Ok::<
                Seq<char>,
                Seq<char>,
            >(identities@[k]@),
        0 <= i < identities@.len(),
        0 <= j < recipients@.len(),
        age_recipient(recipients@[j]@) == Ok::<Seq<char>, Seq<char>>(age_public(identities@[i]@)),
    ensures
        r matches Ok(plaintext) && plaintext@ == edited@,
{
    lemma_unlocks(identities@, recipients@, i, j);
    law_decrypt_undoes_encrypt(edited@, texts(recipients@), file@, secrets(identities@), r);
}

/// An identity is made unless its place is taken.
pub proof fn law_an_identity_is_made_unless_its_place_is_taken(
    taken: bool,
    r: Option<NewIdentity>,
)
    requires
        call_ensures(keygen, (taken,), r),
    ensures
        r is None <==> taken,
{
}

/// The file of a new identity holds a comment and the secret key that was drawn, each on a
/// line, and its public key is the one announced.
pub proof fn law_a_new_identity_is_written_and_announced(taken: bool, new: NewIdentity)
    requires
        call_ensures(keygen, (taken,), Some(new)),
    ensures
        exists|secret: Seq<char>|
            {
                &&& #[trigger] drawn(secret)
                &&& age_identity(secret) == Ok::<Seq<char>, Seq<char>>(secret)
                &&& new.contents@ == "# created by cryptenv keygen"@ + seq!['\n'] + secret + seq![
                    '\n',
                ]
                &&& new.recipient@ == age_public(secret)
            },
{
    let secret = choose|secret: Seq<char>| #[trigger] announces(new, secret);
    assert(drawn(secret));
    assert(new.contents@ == "# created by cryptenv keygen"@ + seq!['\n'] + secret + seq!['\n']);
}

/// Reading the file of a new identity gives one identity, with the public key announced.
pub proof fn law_a_new_identity_is_read_back(
    taken: bool,
    new: NewIdentity,
    contents: &str,
    r: Result<Vec<Identity>, Error>,
    identities: &[Identity],
    recipients: Vec<String>,
)
    requires
        call_ensures(keygen, (taken,), Some(new)),
        contents@ == new.contents@,
        call_ensures(parse_identity_file, (contents,), r),
        r matches Ok(read) ==> identities@ == read@,
        call_ensures(public_strings, (identities,), recipients),
    ensures
        r is Ok,
        recipients@.len() == 1,
        recipients@[0]@ == new.recipient@,
{
    let secret = choose|secret: Seq<char>| #[trigger] announces(new, secret);
    law_identity_file_round_trips(secret, r);
    lemma_texts(recipients@);
    assert(secrets(identities@) == seq![secret]);
    assert(secrets(identities@)[0] == secret);
    assert(texts(recipients@)[0] == age_public(secret));
}

} // verus!
