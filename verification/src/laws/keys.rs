//! Laws of identities, identity files and where they are kept.

use crate::age_calls::{age_identity, age_public};
use crate::error::Error;
use crate::identity::{
    default_identity_path, drawn, first_bad_identity, found_dir, generate_identity, identity_file,
    identity_path, identity_path_in, identity_secret_string, parse_identity_file, public_string,
    public_strings, secrets, Identity,
};
use crate::laws::armor::lemma_texts;
use crate::paths::parse_recipients_file;
use crate::text::{texts, values};
use vstd::prelude::*;
use vstd::utf8::encode_utf8;

verus! {

/// A new identity is one that was drawn, and its text is one that age reads as itself.
pub proof fn law_a_new_identity_was_drawn(identity: Identity)
    requires
        call_ensures(generate_identity, (), identity),
    ensures
        drawn(identity@),
        age_identity(identity@) == Ok::<Seq<char>, Seq<char>>(identity@),
{
}

/// The texts of an identity are the secret key itself, as age reads it, and the public key
/// that belongs to it.
pub proof fn law_an_identity_has_its_texts(id: &Identity, secret: String, public: String)
    requires
        call_ensures(identity_secret_string, (id,), secret),
        call_ensures(public_string, (id,), public),
    ensures
        secret@ == id@,
        age_identity(secret@) == Ok::<Seq<char>, Seq<char>>(id@),
        public@ == age_public(id@),
        "age1"@.is_prefix_of(public@),
{
}

/// Every identity of a list has its public key, at its place.
pub proof fn law_every_identity_has_its_public_key(identities: &[Identity], out: Vec<String>)
    requires
        call_ensures(public_strings, (identities,), out),
    ensures
        out@.len() == identities@.len(),
        forall|i: int|
            0 <= i < out@.len() ==> (#[trigger] out@[i])@ == age_public(identities@[i]@),
{
    lemma_texts(out@);
    assert(texts(out@).len() == identities@.len());
    assert forall|i: int| 0 <= i < out@.len() implies (#[trigger] out@[i])@ == age_public(
        identities@[i]@,
    ) by {
        assert(texts(out@)[i] == age_public(secrets(identities@)[i]));
    }
}

/// An identity file gives an identity for every value that it holds, in order, wherever age
/// reads them all.
pub proof fn law_every_value_gives_an_identity(
    contents: &str,
    lines: Vec<String>,
    r: Result<Vec<Identity>, Error>,
)
    requires
        call_ensures(parse_recipients_file, (contents,), lines),
        call_ensures(parse_identity_file, (contents,), r),
        forall|i: int| 0 <= i < lines@.len() ==> age_identity((#[trigger] lines@[i])@) is Ok,
    ensures
        r matches Ok(identities) && identities@.len() == lines@.len() && forall|i: int|
            0 <= i < identities@.len() ==> age_identity(lines@[i]@) == Ok::<Seq<char>, Seq<char>>(
                (#[trigger] identities@[i])@,
            ),
{
    lemma_texts(lines@);
    if r is Err {
        let i = choose|i: int| #[trigger] first_bad_identity(values(contents@), i);
        assert(age_identity(lines@[i]@) is Ok);
    }
}

/// The first value of an identity file that age does not read is what is wrong with it.
pub proof fn law_first_bad_identity_is_told(
    contents: &str,
    lines: Vec<String>,
    i: int,
    r: Result<Vec<Identity>, Error>,
)
    requires
        call_ensures(parse_recipients_file, (contents,), lines),
        call_ensures(parse_identity_file, (contents,), r),
        0 <= i < lines@.len(),
        age_identity(lines@[i]@) is Err,
        forall|j: int| 0 <= j < i ==> age_identity((#[trigger] lines@[j])@) is Ok,
    ensures
        r matches Err(Error::InvalidIdentity { fault }) && age_identity(lines@[i]@) == Err::<
            Seq<char>,
            Seq<char>,
        >(fault@),
{
    let held = values(contents@);
    lemma_texts(lines@);
    assert(held[i] == lines@[i]@);
    if let Ok(identities) = r {
        assert(age_identity(held[i]) == Ok::<Seq<char>, Seq<char>>(identities@[i]@));
    } else {
        let k = choose|k: int|
            #[trigger] first_bad_identity(held, k) && age_identity(held[k]) == Err::<
                Seq<char>,
                Seq<char>,
            >(r->Err_0->InvalidIdentity_fault@);
        if k < i {
            assert(age_identity(lines@[k]@) is Ok);
        } else if k > i {
            assert(age_identity(held[i]) is Ok);
        }
    }
}

/// An identity file is a comment and the secret key, each on a line.
pub proof fn law_an_identity_file_holds_the_secret_key(id: &Identity, out: String)
    requires
        call_ensures(identity_file, (id,), out),
    ensures
        out@ == "# created by cryptenv keygen"@ + seq!['\n'] + id@ + seq!['\n'],
{
    assert(out@ == "# created by cryptenv keygen"@ + seq!['\n'] + id@ + seq!['\n']);
}

proof fn lemma_place(dir: Seq<u8>)
    ensures
        dir.len() > 0 && dir.last() != 0x2f ==> identity_path_in(Some(dir)) == dir + encode_utf8(
            "/cryptenv/key.txt"@,
        ),
        dir.len() == 0 || dir.last() == 0x2f ==> identity_path_in(Some(dir)) == dir + encode_utf8(
            "cryptenv/key.txt"@,
        ),
        identity_path_in(None) == encode_utf8("./cryptenv/key.txt"@),
{
    reveal_strlit("cryptenv");
    reveal_strlit("key.txt");
    reveal_strlit("/cryptenv/key.txt");
    reveal_strlit("cryptenv/key.txt");
    reveal_strlit("./cryptenv/key.txt");
    vstd::utf8::is_ascii_chars_encode_utf8("cryptenv"@);
    vstd::utf8::is_ascii_chars_encode_utf8("key.txt"@);
    vstd::utf8::is_ascii_chars_encode_utf8("/cryptenv/key.txt"@);
    vstd::utf8::is_ascii_chars_encode_utf8("cryptenv/key.txt"@);
    vstd::utf8::is_ascii_chars_encode_utf8("./cryptenv/key.txt"@);
    let own = encode_utf8("cryptenv"@);
    let key = encode_utf8("key.txt"@);
    let whole = own.push(0x2f) + key;
    assert(whole == encode_utf8("cryptenv/key.txt"@));
    assert(seq![0x2fu8] + whole == encode_utf8("/cryptenv/key.txt"@));
    assert(seq![0x2eu8, 0x2fu8] + whole == encode_utf8("./cryptenv/key.txt"@));
    assert((dir + own).last() == own.last());
    assert((dir + own).push(0x2f) + key == dir + whole);
    assert((dir.push(0x2f) + own).last() == own.last());
    assert((dir.push(0x2f) + own).push(0x2f) + key == dir + (seq![0x2fu8] + whole));
    let here = seq![0x2eu8];
    assert((here.push(0x2f) + own).last() == own.last());
    assert((here.push(0x2f) + own).push(0x2f) + key == seq![0x2eu8, 0x2fu8] + whole);
}

/// The identity file is `cryptenv/key.txt` in the configuration directory, or in the current
/// one where there is none.
pub proof fn law_the_identity_file_has_its_place(config_dir: Option<Vec<u8>>, out: Vec<u8>)
    requires
        call_ensures(identity_path, (config_dir,), out),
    ensures
        config_dir is None ==> out@ == encode_utf8("./cryptenv/key.txt"@),
        config_dir matches Some(dir) ==> (dir@.len() > 0 && dir@.last() != 0x2f ==> out@ == dir@
            + encode_utf8("/cryptenv/key.txt"@)),
        config_dir matches Some(dir) ==> (dir@.len() == 0 || dir@.last() == 0x2f ==> out@ == dir@
            + encode_utf8("cryptenv/key.txt"@)),
{
    match config_dir {
        Some(dir) => lemma_place(dir@),
        None => lemma_place(Seq::empty()),
    }
}

/// The default is the place in the configuration directory that was found.
pub proof fn law_the_default_place_is_where_the_search_led(out: Vec<u8>)
    requires
        call_ensures(default_identity_path, (), out),
    ensures
        exists|dir: Option<Seq<u8>>|
            {
                &&& #[trigger] found_dir(dir)
                &&& dir is None ==> out@ == encode_utf8("./cryptenv/key.txt"@)
                &&& dir matches Some(d) ==> (d.len() > 0 && d.last() != 0x2f ==> out@ == d
                    + encode_utf8("/cryptenv/key.txt"@))
                &&& dir matches Some(d) ==> (d.len() == 0 || d.last() == 0x2f ==> out@ == d
                    + encode_utf8("cryptenv/key.txt"@))
            },
{
    let dir = choose|dir: Option<Seq<u8>>| #[trigger]
        found_dir(dir) && out@ == identity_path_in(dir);
    match dir {
        Some(d) => lemma_place(d),
        None => lemma_place(Seq::empty()),
    }
    assert(found_dir(dir));
}

} // verus!
