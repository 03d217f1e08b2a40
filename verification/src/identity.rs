//! Identities: the secret keys that decrypt.

use crate::age_calls::{
    age_identity, age_public, generate_secret, is_key, is_secret, parse_identity, public_key,
    secret_form, small_order,
};
use crate::error::Error;
use crate::paths::{join, join_path};
use crate::text::{
    holds_value, lemma_before_newline, lemma_lines_unlines, lemma_trim_of_trimmed, lines, one_line,
    strip_cr, texts, trim, unlines, values, values_in, values_of,
};
use vstd::prelude::*;
use vstd::utf8::encode_utf8;

verus! {

/// A secret key, held as its text.
pub struct Identity {
    secret: String,
}

impl View for Identity {
    type V = Seq<char>;

    closed spec fn view(&self) -> Seq<char> {
        self.secret@
    }
}

impl Identity {
    #[verifier::type_invariant]
    spec fn inv(self) -> bool {
        is_secret(self.secret@) && secret_form(self.secret@)
    }
}

/// The texts of a list of identities.
pub open spec fn secrets(identities: Seq<Identity>) -> Seq<Seq<char>> {
    identities.map_values(|identity: Identity| identity@)
}

/// Whether `secret` is what a draw of a new secret key gave.
pub closed spec fn drawn(secret: Seq<char>) -> bool {
    exists|s: String| #[trigger] call_ensures(generate_secret, (), s) && s@ == secret
}

/// Draws a new identity.
pub fn generate_identity() -> (identity: Identity)
    ensures
        drawn(identity@),
        is_secret(identity@),
        secret_form(identity@),
{
    let secret = generate_secret();
    assert(call_ensures(generate_secret, (), secret));
    Identity { secret }
}

/// A new identity is what a call for a new secret key gave.
pub(crate) proof fn law_new_identities_come_from_the_draw(identity: Identity)
    requires
        call_ensures(generate_identity, (), identity),
    ensures
        exists|s: String| #[trigger] call_ensures(generate_secret, (), s) && s@ == identity@,
{
}

/// The text of the secret key: `AGE-SECRET-KEY-1...`.
pub fn identity_secret_string(id: &Identity) -> (out: String)
    ensures
        out@ == id@,
        is_secret(out@),
        secret_form(out@),
{
    proof {
        use_type_invariant(id);
    }
    id.secret.clone()
}

/// The text of the public key that belongs to the secret key: `age1...`.
pub fn public_string(id: &Identity) -> (out: String)
    ensures
        out@ == age_public(id@),
        is_key(out@),
        "age1"@.is_prefix_of(out@),
        !small_order(out@),
{
    proof {
        use_type_invariant(id);
    }
    public_key(id.secret.as_str())
}

/// Whether line `i` of an identity file's values is the first that is no secret key.
pub open spec fn first_bad_identity(lines: Seq<Seq<char>>, i: int) -> bool {
    &&& 0 <= i < lines.len()
    &&& age_identity(lines[i]) is Err
    &&& forall|j: int| 0 <= j < i ==> age_identity(#[trigger] lines[j]) is Ok
}

/// Whether `r` is what parsing the identity file `contents` gives.
pub open spec fn parses_to(contents: Seq<char>, r: Result<Vec<Identity>, Error>) -> bool {
    match r {
        Ok(identities) => {
            &&& identities@.len() == values(contents).len()
            &&& forall|i: int|
                0 <= i < identities@.len() ==> age_identity(values(contents)[i]) == Ok::<
                    Seq<char>,
                    Seq<char>,
                >((#[trigger] identities@[i])@)
        },
        Err(Error::InvalidIdentity { fault }) => exists|i: int|
            {
                &&& #[trigger] first_bad_identity(values(contents), i)
                &&& age_identity(values(contents)[i]) == Err::<Seq<char>, Seq<char>>(fault@)
            },
        Err(_) => false,
    }
}

/// The comment that a new identity file starts with.
pub const CREATED: &'static str = "# created by cryptenv keygen";

/// The identity file that keeps the secret key `secret`.
pub open spec fn identity_file_of(secret: Seq<char>) -> Seq<char> {
    CREATED@.push('\n') + secret.push('\n')
}

/// Where the identity file is kept, in the user's configuration directory or, where there
/// is none, in the current directory.
pub open spec fn identity_path_in(config_dir: Option<Seq<u8>>) -> Seq<u8> {
    let dir = match config_dir {
        Some(dir) => dir,
        None => seq![0x2eu8],
    };
    join_path(join_path(dir, encode_utf8("cryptenv"@)), encode_utf8("key.txt"@))
}

proof fn lemma_secret_is_a_value(secret: Seq<char>)
    requires
        secret_form(secret),
    ensures
        secret.len() > 0,
        one_line(secret),
        strip_cr(secret) == secret,
        trim(secret) == secret,
        holds_value(secret),
{
    reveal_strlit("AGE-SECRET-KEY-1");
    let last = secret.last();
    assert(secret[secret.len() - 1] == last);
    lemma_trim_of_trimmed(secret);
}

/// The public keys that belong to a list of secret keys.
pub open spec fn publics(secrets: Seq<Seq<char>>) -> Seq<Seq<char>> {
    secrets.map_values(|secret: Seq<char>| age_public(secret))
}

/// The text of an identity is an identity file with that identity.
pub proof fn law_secret_string_round_trips(secret: Seq<char>, r: Result<Vec<Identity>, Error>)
    requires
        is_secret(secret),
        secret_form(secret),
        parses_to(secret, r),
    ensures
        r matches Ok(identities) && secrets(identities@) == seq![secret],
{
    lemma_secret_is_a_value(secret);
    lemma_before_newline(secret, secret.len() as int);
    assert(lines(secret) == seq![secret]);
    reveal_with_fuel(values_of, 2);
    assert(seq![secret].drop_last() == Seq::<Seq<char>>::empty());
    assert(values_of(seq![secret]) == seq![secret]);
    lemma_only_identity(secret, secret, r);
}

/// The identity file that is written for an identity is read as that identity.
pub proof fn law_identity_file_round_trips(secret: Seq<char>, r: Result<Vec<Identity>, Error>)
    requires
        is_secret(secret),
        secret_form(secret),
        parses_to(identity_file_of(secret), r),
    ensures
        r matches Ok(identities) && secrets(identities@) == seq![secret],
{
    let comment = CREATED@;
    let parts = seq![comment, secret];
    reveal_strlit("# created by cryptenv keygen");
    lemma_secret_is_a_value(secret);
    lemma_trim_of_trimmed(comment);
    reveal_with_fuel(unlines, 3);
    assert(parts.drop_last() == seq![comment]);
    assert(seq![comment].drop_last() == Seq::<Seq<char>>::empty());
    assert(unlines(parts) == identity_file_of(secret));
    lemma_lines_unlines(parts);
    assert(lines(identity_file_of(secret)) == parts);
    reveal_with_fuel(values_of, 3);
    assert(values_of(parts) == seq![secret]);
    lemma_only_identity(identity_file_of(secret), secret, r);
}

proof fn lemma_only_identity(
    contents: Seq<char>,
    secret: Seq<char>,
    r: Result<Vec<Identity>, Error>,
)
    requires
        is_secret(secret),
        values(contents) == seq![secret],
        parses_to(contents, r),
    ensures
        r matches Ok(identities) && secrets(identities@) == seq![secret],
{
    assert(values(contents)[0] == secret);
    if let Ok(identities) = r {
        assert(age_identity(values(contents)[0]) == Ok::<Seq<char>, Seq<char>>(identities@[0]@));
        assert(secrets(identities@) == seq![secret]);
    }
}

/// Parses an identity file: one secret key per line, blank lines and `#` comments ignored.
pub fn parse_identity_file(contents: &str) -> (r: Result<Vec<Identity>, Error>)
    ensures
        parses_to(contents@, r),
        r matches Ok(identities) ==> forall|i: int|
            0 <= i < identities@.len() ==> is_secret((#[trigger] identities@[i])@),
{
    let lines = values_in(contents);
    let ghost vals = values(contents@);
    let mut out: Vec<Identity> = Vec::new();
    let mut i: usize = 0;
    while i < lines.len()
        invariant
            i <= lines.len(),
            texts(lines@) == vals,
            vals == values(contents@),
            out@.len() == i,
            forall|j: int| 0 <= j < i ==> is_secret((#[trigger] out@[j])@),
            forall|j: int|
                0 <= j < i ==> age_identity(vals[j]) == Ok::<Seq<char>, Seq<char>>(
                    (#[trigger] out@[j])@,
                ),
        decreases lines.len() - i,
    {
        assert(vals[i as int] == lines@[i as int]@);
        match parse_identity(lines[i].as_str()) {
            Ok(secret) => {
                out.push(Identity { secret });
            },
            Err(fault) => {
                assert forall|j: int| 0 <= j < i implies age_identity(#[trigger] vals[j]) is Ok by {
                    assert(age_identity(vals[j]) == Ok::<Seq<char>, Seq<char>>(out@[j]@));
                }
                assert(first_bad_identity(vals, i as int));
                return Err(Error::InvalidIdentity { fault });
            },
        }
        i += 1;
    }
    Ok(out)
}

/// The texts of the public keys that belong to `identities`.
pub fn public_strings(identities: &[Identity]) -> (out: Vec<String>)
    ensures
        texts(out@) == publics(secrets(identities@)),
        forall|i: int|
            0 <= i < out@.len() ==> is_key((#[trigger] out@[i])@) && "age1"@.is_prefix_of(out@[i]@)
                && !small_order(out@[i]@),
{
    let mut out: Vec<String> = Vec::new();
    let mut i: usize = 0;
    while i < identities.len()
        invariant
            i <= identities.len(),
            out@.len() == i,
            forall|j: int| 0 <= j < i ==> (#[trigger] out@[j])@ == age_public(identities@[j]@),
            forall|j: int|
                0 <= j < i ==> is_key((#[trigger] out@[j])@) && "age1"@.is_prefix_of(out@[j]@)
                    && !small_order(out@[j]@),
        decreases identities.len() - i,
    {
        out.push(public_string(&identities[i]));
        i += 1;
    }
    assert(texts(out@) == publics(secrets(identities@)));
    out
}

/// The contents of a new identity file for `id`.
pub fn identity_file(id: &Identity) -> (out: String)
    ensures
        out@ == identity_file_of(id@),
{
    let mut out = CREATED.to_owned();
    out.push('\n');
    out.append(id.secret.as_str());
    out.push('\n');
    assert(out@ == identity_file_of(id@));
    out
}

/// The user's configuration directory, by `dirs::config_dir`. It depends on the
/// environment, so nothing is said of it.
#[verifier::external_body]
fn config_dir() -> (dir: Option<Vec<u8>>) {
    dirs::config_dir().map(|dir| dir.into_os_string().into_encoded_bytes())
}

/// The bytes of a path, where there is one.
pub open spec fn bytes_of(path: Option<Vec<u8>>) -> Option<Seq<u8>> {
    match path {
        Some(bytes) => Some(bytes@),
        None => None,
    }
}

/// Where the identity file is kept for a user whose configuration directory is
/// `config_dir`.
pub fn identity_path(config_dir: Option<Vec<u8>>) -> (out: Vec<u8>)
    ensures
        out@ == identity_path_in(bytes_of(config_dir)),
{
    let dir = match config_dir {
        Some(dir) => dir,
        None => {
            let here: [u8; 1] = [0x2e];
            assert(here@ == seq![0x2eu8]);
            vstd::slice::slice_to_vec(here.as_slice())
        },
    };
    let own = join(dir.as_slice(), "cryptenv".as_bytes());
    join(own.as_slice(), "key.txt".as_bytes())
}

/// Whether `dir` is what a search for the user's configuration directory gave.
pub closed spec fn found_dir(dir: Option<Seq<u8>>) -> bool {
    exists|d: Option<Vec<u8>>| #[trigger] call_ensures(config_dir, (), d) && bytes_of(d) == dir
}

/// The default place is in the directory that the search gave.
proof fn law_the_default_place_comes_from_the_search(out: Vec<u8>)
    requires
        call_ensures(default_identity_path, (), out),
    ensures
        exists|d: Option<Vec<u8>>| #[trigger]
            call_ensures(config_dir, (), d) && (match d {
                Some(dir) => out@ == identity_path_in(Some(dir@)),
                None => out@ == identity_path_in(None),
            }),
{
    let dir = choose|dir: Option<Seq<u8>>| #[trigger]
        found_dir(dir) && out@ == identity_path_in(dir);
    let d = choose|d: Option<Vec<u8>>| #[trigger]
        call_ensures(config_dir, (), d) && bytes_of(d) == dir;
    assert(call_ensures(config_dir, (), d));
}

/// Where the identity file is kept.
pub fn default_identity_path() -> (out: Vec<u8>)
    ensures
        exists|dir: Option<Seq<u8>>| #[trigger] found_dir(dir) && out@ == identity_path_in(dir),
{
    let dir = config_dir();
    assert(call_ensures(config_dir, (), dir));
    assert(found_dir(bytes_of(dir)));
    identity_path(dir)
}

} // verus!
