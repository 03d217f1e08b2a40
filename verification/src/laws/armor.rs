//! Laws of encryption, decryption and the armor.

use crate::age_calls::{
    age_identity, age_opened, age_public, age_recipient, age_sealed, is_secret, opened, parsed,
    unlocks, OpenFailure, OpenStage, SMALL_ORDER_KEYS,
};
use crate::crypto::{
    all_valid, decrypt, decrypted, encrypt, first_invalid, is_armored, is_blank, keys_of,
    law_decrypt_undoes_encrypt, lemma_skip_blanks, lemma_skipped_blanks, looks_like_age_armor,
    panics_in_age, skip_blanks, try_encrypt,
};
use crate::error::Error;
use crate::identity::{secrets, Identity};
use crate::text::texts;
use vstd::prelude::*;
use vstd::utf8::encode_utf8;

verus! {

proof fn lemma_marker()
    ensures
        encode_utf8("-----BEGIN AGE ENCRYPTED FILE-----"@).len() == 34,
        encode_utf8("-----BEGIN AGE ENCRYPTED FILE-----"@)[0] == 0x2d,
{
    reveal_strlit("-----BEGIN AGE ENCRYPTED FILE-----");
    vstd::utf8::is_ascii_chars_encode_utf8("-----BEGIN AGE ENCRYPTED FILE-----"@);
}

pub(crate) proof fn lemma_armored_has_marker(data: Seq<u8>) -> (n: int)
    requires
        is_armored(data),
    ensures
        0 <= n <= data.len() - 34,
        forall|i: int|
            0 <= i < n ==> #[trigger] data[i] == 0x0a || data[i] == 0x0d || data[i] == 0x20 || data[i]
                == 0x09,
        data.subrange(n, n + 34) == encode_utf8("-----BEGIN AGE ENCRYPTED FILE-----"@),
{
    lemma_marker();
    let n = lemma_skipped_blanks(data);
    let marker = encode_utf8("-----BEGIN AGE ENCRYPTED FILE-----"@);
    assert(marker == skip_blanks(data).subrange(0, 34));
    assert(data.skip(n).subrange(0, 34) == data.subrange(n, n + 34));
    n
}

pub(crate) proof fn lemma_marker_is_armored(data: Seq<u8>, n: int)
    requires
        0 <= n <= data.len() - 34,
        forall|i: int|
            0 <= i < n ==> #[trigger] data[i] == 0x0a || data[i] == 0x0d || data[i] == 0x20 || data[i]
                == 0x09,
        data.subrange(n, n + 34) == encode_utf8("-----BEGIN AGE ENCRYPTED FILE-----"@),
    ensures
        is_armored(data),
{
    lemma_marker();
    assert(data[n] == data.subrange(n, n + 34)[0]);
    assert(forall|i: int| 0 <= i < n ==> is_blank(data[i]));
    lemma_skip_blanks(data, n);
    assert(data.skip(n).subrange(0, 34) == data.subrange(n, n + 34));
}

/// Content that starts with the armor's first line, blanks in front of it aside, is taken
/// for armored.
pub proof fn law_armor_is_recognized(data: &[u8], n: int, r: bool)
    requires
        call_ensures(looks_like_age_armor, (data,), r),
        0 <= n <= data@.len() - 34,
        forall|i: int|
            0 <= i < n ==> #[trigger] data@[i] == 0x0a || data@[i] == 0x0d || data@[i] == 0x20
                || data@[i] == 0x09,
        data@.subrange(n, n + 34) == encode_utf8("-----BEGIN AGE ENCRYPTED FILE-----"@),
    ensures
        r,
{
    lemma_marker_is_armored(data@, n);
}

/// Nothing is taken for armored but blanks with the armor's first line behind them.
pub proof fn law_only_armor_is_recognized(data: &[u8], r: bool)
    requires
        call_ensures(looks_like_age_armor, (data,), r),
    ensures
        r ==> exists|n: int|
            {
                &&& 0 <= n <= data@.len() - 34
                &&& forall|i: int|
                    0 <= i < n ==> #[trigger] data@[i] == 0x0a || data@[i] == 0x0d || data@[i]
                        == 0x20 || data@[i] == 0x09
                &&& #[trigger] data@.subrange(n, n + 34) == encode_utf8(
                    "-----BEGIN AGE ENCRYPTED FILE-----"@,
                )
            },
{
    if r {
        let n = lemma_armored_has_marker(data@);
        assert(data@.subrange(n, n + 34) == encode_utf8("-----BEGIN AGE ENCRYPTED FILE-----"@));
    }
}

/// Encrypting succeeds on recipients that age reads, however many there are, whatever is
/// encrypted.
pub proof fn law_good_recipients_are_encrypted_to(
    plaintext: &[u8],
    recipients: &[String],
    r: Result<Vec<u8>, Error>,
)
    requires
        call_ensures(encrypt, (plaintext, recipients), r),
        recipients@.len() > 0,
        forall|i: int|
            0 <= i < recipients@.len() ==> age_recipient((#[trigger] recipients@[i])@) is Ok,
    ensures
        r is Ok,
{
    lemma_texts(recipients@);
}

pub(crate) proof fn lemma_texts(list: Seq<String>)
    ensures
        texts(list).len() == list.len(),
        forall|i: int| 0 <= i < list.len() ==> #[trigger] texts(list)[i] == list[i]@,
        forall|i: int| 0 <= i < list.len() ==> (#[trigger] list[i])@ == texts(list)[i],
        keys_of(texts(list)).len() == list.len(),
        forall|i: int|
            0 <= i < list.len() ==> #[trigger] keys_of(texts(list))[i] == age_recipient(
                list[i]@,
            )->Ok_0,
{
}

/// Without recipients nothing is encrypted.
pub proof fn law_no_recipients_is_refused(
    plaintext: &[u8],
    recipients: &[String],
    r: Result<Vec<u8>, Error>,
)
    requires
        call_ensures(encrypt, (plaintext, recipients), r),
        recipients@.len() == 0,
    ensures
        r matches Err(error) && error is NoRecipients,
{
    lemma_texts(recipients@);
}

/// The first recipient that age does not read is named, with what age says of it.
pub proof fn law_first_bad_recipient_is_named(
    plaintext: &[u8],
    recipients: &[String],
    i: int,
    r: Result<Vec<u8>, Error>,
)
    requires
        call_ensures(encrypt, (plaintext, recipients), r),
        0 <= i < recipients@.len(),
        age_recipient(recipients@[i]@) is Err,
        forall|j: int| 0 <= j < i ==> age_recipient((#[trigger] recipients@[j])@) is Ok,
    ensures
        r matches Err(Error::InvalidRecipient { recipient, fault }) && recipient@ == recipients@[i]@
            && age_recipient(recipients@[i]@) == Err::<Seq<char>, Seq<char>>(fault@),
{
    lemma_texts(recipients@);
    lemma_first_invalid(recipients@, i);
}

pub(crate) proof fn lemma_first_invalid(recipients: Seq<String>, i: int)
    requires
        0 <= i < recipients.len(),
        age_recipient(recipients[i]@) is Err,
        forall|j: int| 0 <= j < i ==> age_recipient((#[trigger] recipients[j])@) is Ok,
    ensures
        !all_valid(texts(recipients)),
        forall|k: int| #[trigger] first_invalid(texts(recipients), k) ==> k == i,
{
    let given = texts(recipients);
    lemma_texts(recipients);
    assert(age_recipient(given[i]) is Err);
    assert forall|k: int| #[trigger] first_invalid(given, k) implies k == i by {
        if k < i {
            assert(age_recipient(recipients[k]@) is Ok);
        } else if k > i {
            assert(given.take(k)[i] == given[i]);
        }
    }
}

/// A file that came out of encrypting is one that age writes of the plaintext for exactly
/// the recipients, in ASCII, between the armor's first line and its last.
pub proof fn law_ciphertext_is_for_the_recipients(
    plaintext: &[u8],
    recipients: &[String],
    keys: Seq<Seq<char>>,
    ciphertext: Vec<u8>,
)
    requires
        call_ensures(encrypt, (plaintext, recipients), Ok(ciphertext)),
        keys.len() == recipients@.len(),
        forall|i: int|
            0 <= i < keys.len() ==> age_recipient(recipients@[i]@) == Ok::<Seq<char>, Seq<char>>(
                #[trigger] keys[i],
            ),
    ensures
        keys.len() > 0,
        age_sealed(plaintext@, keys, ciphertext@),
        forall|i: int| 0 <= i < ciphertext@.len() ==> #[trigger] ciphertext@[i] < 0x80,
        encode_utf8("-----BEGIN AGE ENCRYPTED FILE-----"@).is_prefix_of(ciphertext@),
        encode_utf8("-----END AGE ENCRYPTED FILE-----\n"@).is_suffix_of(ciphertext@)
            || encode_utf8("-----END AGE ENCRYPTED FILE-----\r\n"@).is_suffix_of(ciphertext@),
{
    lemma_texts(recipients@);
    assert(keys == keys_of(texts(recipients@)));
    lemma_file_form(ciphertext@);
}

proof fn lemma_file_form(file: Seq<u8>)
    requires
        crate::age_calls::is_armor_file(file),
    ensures
        encode_utf8("-----BEGIN AGE ENCRYPTED FILE-----"@).is_prefix_of(file),
        encode_utf8("-----END AGE ENCRYPTED FILE-----\n"@).is_suffix_of(file) || encode_utf8(
            "-----END AGE ENCRYPTED FILE-----\r\n"@,
        ).is_suffix_of(file),
{
    crate::crypto::lemma_armor_file_is_armored(file);
    let eol = crate::age_calls::line_ending(file);
    let end = encode_utf8("-----END AGE ENCRYPTED FILE-----"@);
    let closing = eol + end + eol;
    let lf = encode_utf8("-----END AGE ENCRYPTED FILE-----\n"@);
    let crlf = encode_utf8("-----END AGE ENCRYPTED FILE-----\r\n"@);
    reveal_strlit("-----END AGE ENCRYPTED FILE-----");
    reveal_strlit("-----END AGE ENCRYPTED FILE-----\n");
    reveal_strlit("-----END AGE ENCRYPTED FILE-----\r\n");
    vstd::utf8::is_ascii_chars_encode_utf8("-----END AGE ENCRYPTED FILE-----"@);
    vstd::utf8::is_ascii_chars_encode_utf8("-----END AGE ENCRYPTED FILE-----\n"@);
    vstd::utf8::is_ascii_chars_encode_utf8("-----END AGE ENCRYPTED FILE-----\r\n"@);
    assert(end + seq![0x0au8] == lf);
    assert(end + seq![0x0du8, 0x0au8] == crlf);
    let tail = end + eol;
    assert(closing == eol + tail);
    assert(closing == file.subrange(file.len() - closing.len(), file.len() as int));
    assert(file.subrange(file.len() - tail.len(), file.len() as int) == closing.subrange(
        eol.len() as int,
        closing.len() as int,
    ));
    assert(closing.subrange(eol.len() as int, closing.len() as int) == tail);
    assert(tail.is_suffix_of(file));
}

/// What was encrypted comes back: whoever brings, at any place among their identities, one
/// whose public key is a recipient decrypts the file to the plaintext.
pub proof fn law_what_was_encrypted_comes_back(
    plaintext: &[u8],
    recipients: &[String],
    ciphertext: &[u8],
    file: Vec<u8>,
    identities: &[Identity],
    i: int,
    j: int,
    r: Result<Vec<u8>, Error>,
)
    requires
        call_ensures(encrypt, (plaintext, recipients), Ok(file)),
        ciphertext@ == file@,
        call_ensures(decrypt, (ciphertext, identities), r),
        forall|k: int|
            0 <= k < identities@.len() ==> age_identity((#[trigger] identities@[k])@) == Ok::<
                Seq<char>,
                Seq<char>,
            >(identities@[k]@),
        0 <= i < identities@.len(),
        0 <= j < recipients@.len(),
        age_recipient(recipients@[j]@) == Ok::<Seq<char>, Seq<char>>(age_public(identities@[i]@)),
    ensures
        r matches Ok(out) && out@ == plaintext@,
{
    lemma_texts(recipients@);
    lemma_unlocks(identities@, recipients@, i, j);
    law_decrypt_undoes_encrypt(
        plaintext@,
        texts(recipients@),
        ciphertext@,
        secrets(identities@),
        r,
    );
}

pub(crate) proof fn lemma_unlocks(
    identities: Seq<Identity>,
    recipients: Seq<String>,
    i: int,
    j: int,
)
    requires
        forall|k: int| 0 <= k < identities.len() ==> is_secret((#[trigger] identities[k])@),
        0 <= i < identities.len(),
        0 <= j < recipients.len(),
        age_recipient(recipients[j]@) == Ok::<Seq<char>, Seq<char>>(age_public(identities[i]@)),
    ensures
        unlocks(secrets(identities), keys_of(texts(recipients))),
{
    let held = secrets(identities);
    lemma_texts(recipients);
    assert forall|k: int| 0 <= k < held.len() implies is_secret(#[trigger] held[k]) by {
        assert(held[k] == identities[k]@);
    }
    assert(age_public(held[i]) == keys_of(texts(recipients))[j]);
}

/// Decrypting gives what age opens, and fails only where age does, or where there is no
/// identity: each failure says at which step.
pub proof fn law_decrypt_gives_what_age_opens(
    ciphertext: &[u8],
    identities: &[Identity],
    held: Seq<Seq<char>>,
    r: Result<Vec<u8>, Error>,
)
    requires
        call_ensures(decrypt, (ciphertext, identities), r),
        held.len() == identities@.len(),
        forall|i: int| 0 <= i < held.len() ==> #[trigger] held[i] == identities@[i]@,
    ensures
        held.len() == 0 ==> (r matches Err(error) && error is NoIdentities),
        held.len() > 0 ==> match age_opened(ciphertext@, held) {
            Ok(plaintext) => r matches Ok(out) && out@ == plaintext,
            Err(OpenStage::Header) => r matches Err(error) && error is Header,
            Err(OpenStage::Identity) => r matches Err(error) && error is NoMatchingIdentity,
            Err(OpenStage::Payload) => r matches Err(error) && error is Payload,
        },
{
    assert(held == secrets(identities@));
}

/// The failure of each step of opening a file keeps age's words.
pub proof fn law_opening_keeps_the_words(
    outcome: Result<Vec<u8>, OpenFailure>,
    r: Result<Vec<u8>, Error>,
)
    requires
        call_ensures(decrypted, (outcome,), r),
    ensures
        outcome matches Ok(plaintext) ==> r == Ok::<Vec<u8>, Error>(plaintext),
        outcome matches Err(OpenFailure::Header(words)) ==> (r matches Err(Error::Header { cause })
            && cause == words),
        outcome matches Err(OpenFailure::Identity(words)) ==> (r matches Err(
            Error::NoMatchingIdentity { cause },
        ) && cause == words),
        outcome matches Err(OpenFailure::Payload(words)) ==> (r matches Err(
            Error::Payload { cause },
        ) && cause == words),
{
}

/// What age makes of a key or a file is taken as it is.
pub proof fn law_outcomes_are_taken_as_they_are(
    key: Result<String, String>,
    file: Result<Vec<u8>, OpenFailure>,
)
    ensures
        key matches Ok(text) ==> parsed(key) == Ok::<Seq<char>, Seq<char>>(text@),
        key matches Err(fault) ==> parsed(key) == Err::<Seq<char>, Seq<char>>(fault@),
        file matches Ok(plaintext) ==> opened(file) == Ok::<Seq<u8>, OpenStage>(plaintext@),
        file matches Err(OpenFailure::Header(_)) ==> opened(file) == Err::<Seq<u8>, OpenStage>(
            OpenStage::Header,
        ),
        file matches Err(OpenFailure::Identity(_)) ==> opened(file) == Err::<Seq<u8>, OpenStage>(
            OpenStage::Identity,
        ),
        file matches Err(OpenFailure::Payload(_)) ==> opened(file) == Err::<Seq<u8>, OpenStage>(
            OpenStage::Payload,
        ),
{
}

/// age is kept from recipients of small order, and from no others.
pub proof fn law_only_small_order_is_kept_from_age(recipients: &[String], r: bool)
    requires
        call_ensures(panics_in_age, (recipients,), r),
    ensures
        (exists|i: int|
            0 <= i < recipients@.len() && age_recipient((#[trigger] recipients@[i])@) is Err) ==> !r,
        r ==> exists|i: int, k: int|
            0 <= i < recipients@.len() && 0 <= k < 14 && age_recipient(
                (#[trigger] recipients@[i])@,
            ) == Ok::<Seq<char>, Seq<char>>((#[trigger] SMALL_ORDER_KEYS@[k])@),
        forall|i: int, k: int|
            {
                &&& 0 <= i < recipients@.len()
                &&& 0 <= k < 14
                &&& age_recipient((#[trigger] recipients@[i])@) == Ok::<Seq<char>, Seq<char>>(
                    (#[trigger] SMALL_ORDER_KEYS@[k])@,
                )
                &&& forall|j: int|
                    0 <= j < recipients@.len() ==> age_recipient((#[trigger] recipients@[j])@) is Ok
            } ==> r,
{
    let given = texts(recipients@);
    lemma_texts(recipients@);
    if r {
        let i = choose|i: int|
            0 <= i < given.len() && crate::age_calls::small_order(#[trigger] keys_of(given)[i]);
        let k = choose|k: int| 0 <= k < 14 && (#[trigger] SMALL_ORDER_KEYS@[k])@ == keys_of(given)[i];
        assert(age_recipient(given[i]) is Ok);
        assert(age_recipient(recipients@[i]@) == Ok::<Seq<char>, Seq<char>>(
            SMALL_ORDER_KEYS@[k]@,
        ));
    }
    assert forall|i: int, k: int|
        {
            &&& 0 <= i < recipients@.len()
            &&& 0 <= k < 14
            &&& age_recipient((#[trigger] recipients@[i])@) == Ok::<Seq<char>, Seq<char>>(
                (#[trigger] SMALL_ORDER_KEYS@[k])@,
            )
            &&& forall|j: int|
                0 <= j < recipients@.len() ==> age_recipient((#[trigger] recipients@[j])@) is Ok
        } implies r by {
        assert(crate::age_calls::small_order(keys_of(given)[i]));
        assert(all_valid(given));
    }
    if exists|i: int|
        0 <= i < recipients@.len() && age_recipient((#[trigger] recipients@[i])@) is Err {
        let i = choose|i: int|
            0 <= i < recipients@.len() && age_recipient((#[trigger] recipients@[i])@) is Err;
        assert(age_recipient(given[i]) is Err);
    }
}

/// Where age is not kept from the recipients, they are encrypted to as they always are;
/// where it is, nothing comes back.
pub proof fn law_try_encrypt_encrypts(
    plaintext: &[u8],
    recipients: &[String],
    kept: bool,
    r: Option<Result<Vec<u8>, Error>>,
)
    requires
        call_ensures(try_encrypt, (plaintext, recipients), r),
        call_ensures(panics_in_age, (recipients,), kept),
    ensures
        r is None <==> kept,
        (recipients@.len() > 0 && forall|i: int|
            0 <= i < recipients@.len() ==> age_recipient((#[trigger] recipients@[i])@) is Ok)
            ==> kept || (r matches Some(Ok(_))),
        recipients@.len() == 0 ==> (r matches Some(Err(error)) && error is NoRecipients),
{
    lemma_texts(recipients@);
}

/// Where age is not kept from the recipients, the first that it does not read is named.
pub proof fn law_try_encrypt_names_the_first_bad_recipient(
    plaintext: &[u8],
    recipients: &[String],
    i: int,
    r: Option<Result<Vec<u8>, Error>>,
)
    requires
        call_ensures(try_encrypt, (plaintext, recipients), r),
        0 <= i < recipients@.len(),
        age_recipient(recipients@[i]@) is Err,
        forall|j: int| 0 <= j < i ==> age_recipient((#[trigger] recipients@[j])@) is Ok,
    ensures
        r matches Some(Err(Error::InvalidRecipient { recipient, fault })) && recipient@
            == recipients@[i]@ && age_recipient(recipients@[i]@) == Err::<Seq<char>, Seq<char>>(
            fault@,
        ),
{
    lemma_texts(recipients@);
    lemma_first_invalid(recipients@, i);
}

/// What `try_encrypt` gives is a file for exactly the recipients, and comes back to whoever
/// brings an identity of one.
pub proof fn law_try_encrypt_comes_back(
    plaintext: &[u8],
    recipients: &[String],
    keys: Seq<Seq<char>>,
    file: Vec<u8>,
    ciphertext: &[u8],
    identities: &[Identity],
    i: int,
    j: int,
    r: Result<Vec<u8>, Error>,
)
    requires
        call_ensures(try_encrypt, (plaintext, recipients), Some(Ok(file))),
        keys.len() == recipients@.len(),
        forall|k: int|
            0 <= k < keys.len() ==> age_recipient(recipients@[k]@) == Ok::<Seq<char>, Seq<char>>(
                #[trigger] keys[k],
            ),
        ciphertext@ == file@,
        call_ensures(decrypt, (ciphertext, identities), r),
        forall|k: int|
            0 <= k < identities@.len() ==> age_identity((#[trigger] identities@[k])@) == Ok::<
                Seq<char>,
                Seq<char>,
            >(identities@[k]@),
        0 <= i < identities@.len(),
        0 <= j < recipients@.len(),
        keys[j] == age_public(identities@[i]@),
    ensures
        age_sealed(plaintext@, keys, file@),
        encode_utf8("-----BEGIN AGE ENCRYPTED FILE-----"@).is_prefix_of(file@),
        r matches Ok(out) && out@ == plaintext@,
{
    lemma_texts(recipients@);
    assert(keys == keys_of(texts(recipients@)));
    lemma_file_form(file@);
    lemma_unlocks(identities@, recipients@, i, j);
    law_decrypt_undoes_encrypt(
        plaintext@,
        texts(recipients@),
        ciphertext@,
        secrets(identities@),
        r,
    );
}

/// The keys that age is kept from are these.
pub proof fn law_small_order_keys(key: Seq<char>)
    ensures
        (exists|k: int| 0 <= k < 14 && (#[trigger] SMALL_ORDER_KEYS@[k])@ == key) <==> {
            ||| key == "age1qqqqqqqqqqqqqqqqqqqqqqqqqqqqqqqqqqqqqqqqqqqqqqqqqqqq5cu47z"@
            ||| key == "age1qqqqqqqqqqqqqqqqqqqqqqqqqqqqqqqqqqqqqqqqqqqqqqqqqzqqsuwj9m"@
            ||| key == "age1qyqqqqqqqqqqqqqqqqqqqqqqqqqqqqqqqqqqqqqqqqqqqqqqqqqqj7vrya"@
            ||| key == "age1qyqqqqqqqqqqqqqqqqqqqqqqqqqqqqqqqqqqqqqqqqqqqqqqqzqqk67yly"@
            ||| key == "age1ur4h5lpmgxu2u9jku0a0r87ydtdqnr0tnsetrlvxvgz3vh6fhqqqzyt4v9"@
            ||| key == "age1ur4h5lpmgxu2u9jku0a0r87ydtdqnr0tnsetrlvxvgz3vh6fhzqqxqejhu"@
            ||| key == "age1t7wft09r2zxzfvwsk92eeql0tvzyghxytqwgapkcyf8dm5ylz9ts6wm9s8"@
            ||| key == "age1t7wft09r2zxzfvwsk92eeql0tvzyghxytqwgapkcyf8dm5ylz8ts72fzt7"@
            ||| key == "age1anlllllllllllllllllllllllllllllllllllllllllllllllals4n2t7m"@
            ||| key == "age1anllllllllllllllllllllllllllllllllllllllllllllllllls3hcv9z"@
            ||| key == "age1ahlllllllllllllllllllllllllllllllllllllllllllllllalsn46ayy"@
            ||| key == "age1ahlllllllllllllllllllllllllllllllllllllllllllllllllsh3g6la"@
            ||| key == "age1amlllllllllllllllllllllllllllllllllllllllllllllllalselrwrv"@
            ||| key == "age1amlllllllllllllllllllllllllllllllllllllllllllllllllsam3fc4"@
        },
{
    let all = SMALL_ORDER_KEYS@;
    assert(all[0]@ == "age1qqqqqqqqqqqqqqqqqqqqqqqqqqqqqqqqqqqqqqqqqqqqqqqqqqqq5cu47z"@);
    assert(all[1]@ == "age1qqqqqqqqqqqqqqqqqqqqqqqqqqqqqqqqqqqqqqqqqqqqqqqqqzqqsuwj9m"@);
    assert(all[2]@ == "age1qyqqqqqqqqqqqqqqqqqqqqqqqqqqqqqqqqqqqqqqqqqqqqqqqqqqj7vrya"@);
    assert(all[3]@ == "age1qyqqqqqqqqqqqqqqqqqqqqqqqqqqqqqqqqqqqqqqqqqqqqqqqzqqk67yly"@);
    assert(all[4]@ == "age1ur4h5lpmgxu2u9jku0a0r87ydtdqnr0tnsetrlvxvgz3vh6fhqqqzyt4v9"@);
    assert(all[5]@ == "age1ur4h5lpmgxu2u9jku0a0r87ydtdqnr0tnsetrlvxvgz3vh6fhzqqxqejhu"@);
    assert(all[6]@ == "age1t7wft09r2zxzfvwsk92eeql0tvzyghxytqwgapkcyf8dm5ylz9ts6wm9s8"@);
    assert(all[7]@ == "age1t7wft09r2zxzfvwsk92eeql0tvzyghxytqwgapkcyf8dm5ylz8ts72fzt7"@);
    assert(all[8]@ == "age1anlllllllllllllllllllllllllllllllllllllllllllllllals4n2t7m"@);
    assert(all[9]@ == "age1anllllllllllllllllllllllllllllllllllllllllllllllllls3hcv9z"@);
    assert(all[10]@ == "age1ahlllllllllllllllllllllllllllllllllllllllllllllllalsn46ayy"@);
    assert(all[11]@ == "age1ahlllllllllllllllllllllllllllllllllllllllllllllllllsh3g6la"@);
    assert(all[12]@ == "age1amlllllllllllllllllllllllllllllllllllllllllllllllalselrwrv"@);
    assert(all[13]@ == "age1amlllllllllllllllllllllllllllllllllllllllllllllllllsam3fc4"@);
}

} // verus!
