//! Where things are kept.
//!
//! A path is a string of bytes in which `/` separates the components, as on Unix; what a
//! platform separates otherwise is handed over in this form.

use crate::text::{texts, values, values_in};
use vstd::prelude::*;
use vstd::utf8::{encode_utf8, valid_utf8};

verus! {

/// What the name of an encrypted file ends in.
pub const ENCRYPTED_SUFFIX: &'static str = ".age";

/// What the name of a decrypted file ends in where the name of the encrypted one gives no
/// other.
pub const DECRYPTED_SUFFIX: &'static str = ".dec";

/// The extension of an encrypted file.
pub const ENCRYPTED_EXTENSION: &'static str = "age";

/// The name of the recipients file.
pub const RECIPIENTS_FILENAME: &'static str = ".cryptenv-recipients";

/// `path` without the separators and the `.` components at its end. The root stays.
pub open spec fn trim_tail(path: Seq<u8>) -> Seq<u8>
    decreases path.len(),
{
    if path.len() >= 2 && path.last() == 0x2f {
        trim_tail(path.drop_last())
    } else if path.len() >= 2 && path.last() == 0x2e && path[path.len() - 2] == 0x2f {
        trim_tail(path.drop_last())
    } else {
        path
    }
}

/// Where `b` last stands in `s`, or -1.
pub open spec fn last_index(s: Seq<u8>, b: u8) -> int
    decreases s.len(),
{
    if s.len() == 0 {
        -1
    } else if s.last() == b {
        s.len() - 1
    } else {
        last_index(s.drop_last(), b)
    }
}

/// The last component of `path`, where that is a name: not the root, not `.` and not `..`.
pub open spec fn file_name(path: Seq<u8>) -> Option<Seq<u8>> {
    let trimmed = trim_tail(path);
    let name = trimmed.skip(last_index(trimmed, 0x2f) + 1);
    if name.len() == 0 || name == seq![0x2eu8] || name == seq![0x2eu8, 0x2eu8] {
        None
    } else {
        Some(name)
    }
}

/// What follows the last dot of the file name of `path`, where something precedes that dot.
pub open spec fn extension(path: Seq<u8>) -> Option<Seq<u8>> {
    match file_name(path) {
        Some(name) => {
            let dot = last_index(name, 0x2e);
            if dot > 0 {
                Some(name.skip(dot + 1))
            } else {
                None
            }
        },
        None => None,
    }
}

/// `path` without its last component. The root and the empty path have no parent.
pub open spec fn parent(path: Seq<u8>) -> Option<Seq<u8>> {
    let trimmed = trim_tail(path);
    let sep = last_index(trimmed, 0x2f);
    if trimmed.len() == 0 || trimmed == seq![0x2fu8] {
        None
    } else if sep < 0 {
        Some(Seq::empty())
    } else if sep == 0 {
        Some(seq![0x2fu8])
    } else {
        Some(trim_tail(trimmed.take(sep)))
    }
}

/// The path of `name`, a single component, in `dir`.
pub open spec fn join_path(dir: Seq<u8>, name: Seq<u8>) -> Seq<u8> {
    if dir.len() == 0 || dir.last() == 0x2f {
        dir + name
    } else {
        dir.push(0x2f) + name
    }
}

/// Whether `s` ends in `suffix`.
pub open spec fn ends_in(s: Seq<u8>, suffix: Seq<u8>) -> bool {
    s.len() >= suffix.len() && s.skip(s.len() - suffix.len()) == suffix
}

/// Whether `path` is that of an encrypted file: it ends in `.age`, or names a file with
/// that extension.
pub open spec fn is_encrypted_path(path: Seq<u8>) -> bool {
    ends_in(path, encode_utf8(ENCRYPTED_SUFFIX@)) || extension(path) == Some(
        encode_utf8(ENCRYPTED_EXTENSION@),
    )
}

/// Where the encrypted form of the file at `plain` is kept.
pub open spec fn encrypted_path_of(plain: Seq<u8>) -> Seq<u8> {
    if is_encrypted_path(plain) {
        plain
    } else {
        plain + encode_utf8(ENCRYPTED_SUFFIX@)
    }
}

/// Where the decrypted form of the file at `encrypted` is kept.
pub open spec fn decrypted_path_of(encrypted: Seq<u8>) -> Seq<u8> {
    let text = as_text(encrypted);
    let suffix = encode_utf8(ENCRYPTED_SUFFIX@);
    if ends_in(text, suffix) {
        text.take(text.len() - suffix.len())
    } else {
        encrypted + encode_utf8(DECRYPTED_SUFFIX@)
    }
}

/// The recipients file that goes with the file at `target`.
pub open spec fn recipients_file_of(target: Seq<u8>) -> Seq<u8> {
    let dir = match parent(target) {
        Some(dir) => dir,
        None => seq![0x2eu8],
    };
    join_path(dir, encode_utf8(RECIPIENTS_FILENAME@))
}

/// What `String::from_utf8_lossy` makes of bytes that are not UTF-8: text, in UTF-8.
pub uninterp spec fn utf8_lossy(bytes: Seq<u8>) -> Seq<u8>;

/// `bytes` as text in UTF-8: themselves if they are, a replacement if not.
pub open spec fn as_text(bytes: Seq<u8>) -> Seq<u8> {
    if valid_utf8(bytes) {
        bytes
    } else {
        utf8_lossy(bytes)
    }
}

/// Decodes bytes with `String::from_utf8_lossy`, which puts the replacement character in
/// the place of what is not UTF-8.
///
/// Taken for granted: the outcome is UTF-8; bytes that are UTF-8 come back as they are, and
/// what others become depends on them alone.
#[verifier::external_body]
fn decode_lossy(bytes: &[u8]) -> (text: Vec<u8>)
    ensures
        valid_utf8(bytes@) ==> text@ == bytes@,
        !valid_utf8(bytes@) ==> text@ == utf8_lossy(bytes@),
        valid_utf8(text@),
{
    String::from_utf8_lossy(bytes).into_owned().into_bytes()
}

/// Text is still text without the `.age` at its end.
proof fn lemma_cut_is_utf8(text: Seq<u8>, n: int)
    requires
        valid_utf8(text),
        0 <= n < text.len(),
        text[n] == 0x2e,
    ensures
        valid_utf8(text.take(n)),
{
    vstd::utf8::utf8_byte_ranges_bitwise(text[n]);
    vstd::utf8::is_char_boundary_iff_not_is_continuation_byte(text, n);
    vstd::utf8::valid_utf8_split(text, n);
    assert(text.take(n) == text.subrange(0, n));
}

pub(crate) proof fn lemma_trim_tail(path: Seq<u8>)
    ensures
        trim_tail(trim_tail(path)) == trim_tail(path),
        trim_tail(path).len() <= path.len(),
        path.len() > 0 ==> trim_tail(path).len() > 0,
        trim_tail(path).len() >= 2 ==> trim_tail(path).last() != 0x2f,
    decreases path.len(),
{
    if path.len() >= 2 && (path.last() == 0x2f || (path.last() == 0x2e && path[path.len() - 2]
        == 0x2f)) {
        lemma_trim_tail(path.drop_last());
    }
}

pub(crate) proof fn lemma_last_index_concat(a: Seq<u8>, b: Seq<u8>, c: u8)
    requires
        forall|i: int| 0 <= i < b.len() ==> b[i] != c,
    ensures
        last_index(a + b, c) == last_index(a, c),
    decreases b.len(),
{
    if b.len() == 0 {
        assert(a + b == a);
    } else {
        assert((a + b).last() == b.last());
        assert((a + b).drop_last() == a + b.drop_last());
        lemma_last_index_concat(a, b.drop_last(), c);
    }
}

/// Encrypting to the path of an encrypted file means that same path.
pub proof fn law_encrypted_path_is_idempotent(plain: Seq<u8>)
    ensures
        encrypted_path_of(encrypted_path_of(plain)) == encrypted_path_of(plain),
{
    let suffix = encode_utf8(ENCRYPTED_SUFFIX@);
    if !is_encrypted_path(plain) {
        let path = plain + suffix;
        assert(path.skip(path.len() - suffix.len()) == suffix);
    }
}

/// Decrypting a file that was encrypted puts it back where it came from, if its path is
/// text and was not that of an encrypted file.
pub proof fn law_decrypted_path_undoes_encrypted_path(plain: Seq<u8>)
    requires
        valid_utf8(plain),
        !is_encrypted_path(plain),
    ensures
        decrypted_path_of(encrypted_path_of(plain)) == plain,
{
    let suffix = encode_utf8(ENCRYPTED_SUFFIX@);
    let path = plain + suffix;
    vstd::utf8::encode_utf8_valid_utf8(ENCRYPTED_SUFFIX@);
    vstd::utf8::valid_utf8_concat(plain, suffix);
    assert(path.skip(path.len() - suffix.len()) == suffix);
    assert(path.take(path.len() - suffix.len()) == plain);
}

/// The recipients file stands in the directory of the file that it goes with, under its
/// fixed name.
pub proof fn law_recipients_file_is_a_sibling(target: Seq<u8>)
    ensures
        file_name(recipients_file_of(target)) == Some(encode_utf8(RECIPIENTS_FILENAME@)),
        parent(target) is Some ==> parent(recipients_file_of(target)) == parent(target),
{
    let name = encode_utf8(RECIPIENTS_FILENAME@);
    reveal_strlit(".cryptenv-recipients");
    vstd::utf8::is_ascii_chars_encode_utf8(RECIPIENTS_FILENAME@);
    assert(forall|i: int| 0 <= i < name.len() ==> name[i] != 0x2f);
    assert(name.len() == 20 && name.last() == 0x73);
    let trimmed = trim_tail(target);
    let sep = last_index(trimmed, 0x2f);
    let dir = match parent(target) {
        Some(dir) => dir,
        None => seq![0x2eu8],
    };
    let file = recipients_file_of(target);
    let front = if dir.len() == 0 || dir.last() == 0x2f {
        dir
    } else {
        dir.push(0x2f)
    };
    lemma_trim_tail(target);
    if sep > 0 {
        lemma_trim_tail(trimmed.take(sep));
    }
    assert(file == front + name);
    assert(file.last() == name.last());
    assert(trim_tail(file) == file);
    lemma_last_index_concat(front, name, 0x2f);
    assert(last_index(front, 0x2f) == front.len() - 1);
    assert(file.skip(front.len() as int) == name);
    assert(name != seq![0x2eu8] && name != seq![0x2eu8, 0x2eu8]) by {
        assert(seq![0x2eu8].len() == 1 && seq![0x2eu8, 0x2eu8].len() == 2);
    }
    if parent(target) is Some && dir.len() > 0 {
        if dir.last() == 0x2f {
            assert(dir.len() == 1);
            assert(dir == seq![0x2fu8]);
        } else {
            assert(file.take(dir.len() as int) == dir);
        }
    }
}

fn same_bytes(a: &[u8], b: &[u8]) -> (r: bool)
    ensures
        r == (a@ == b@),
{
    if a.len() != b.len() {
        return false;
    }
    let mut i: usize = 0;
    while i < a.len()
        invariant
            a.len() == b.len(),
            i <= a.len(),
            forall|j: int| 0 <= j < i ==> a@[j] == b@[j],
        decreases a.len() - i,
    {
        if a[i] != b[i] {
            return false;
        }
        i += 1;
    }
    assert(a@ == b@);
    true
}

fn concat(a: &[u8], b: &[u8]) -> (out: Vec<u8>)
    ensures
        out@ == a@ + b@,
{
    let mut out = vstd::slice::slice_to_vec(a);
    let mut i: usize = 0;
    while i < b.len()
        invariant
            i <= b.len(),
            out@ == a@ + b@.take(i as int),
        decreases b.len() - i,
    {
        out.push(b[i]);
        i += 1;
        assert(b@.take(i as int) == b@.take(i - 1).push(b@[i - 1]));
    }
    assert(b@.take(i as int) == b@);
    out
}

fn has_suffix(s: &[u8], suffix: &[u8]) -> (r: bool)
    ensures
        r == ends_in(s@, suffix@),
{
    if s.len() < suffix.len() {
        return false;
    }
    let from: usize = s.len() - suffix.len();
    let tail = vstd::slice::slice_subrange(s, from, s.len());
    assert(tail@ == s@.skip(from as int));
    same_bytes(tail, suffix)
}

fn without_tail(path: &[u8]) -> (out: &[u8])
    ensures
        out@ == trim_tail(path@),
{
    let mut n: usize = path.len();
    assert(path@.take(n as int) == path@);
    while n >= 2 && (path[n - 1] == 0x2f || (path[n - 1] == 0x2e && path[n - 2] == 0x2f))
        invariant
            n <= path.len(),
            trim_tail(path@.take(n as int)) == trim_tail(path@),
        decreases n,
    {
        assert(path@.take(n as int).drop_last() == path@.take(n - 1));
        n -= 1;
    }
    assert(path@.take(n as int) == path@.subrange(0, n as int));
    vstd::slice::slice_subrange(path, 0, n)
}

/// Where `b` last stands in `s`, plus one; zero if nowhere.
fn after_last(s: &[u8], b: u8) -> (n: usize)
    ensures
        n == last_index(s@, b) + 1,
        n <= s.len(),
{
    let mut n: usize = s.len();
    assert(s@.take(n as int) == s@);
    while n > 0 && s[n - 1] != b
        invariant
            n <= s.len(),
            last_index(s@.take(n as int), b) == last_index(s@, b),
        decreases n,
    {
        assert(s@.take(n as int).drop_last() == s@.take(n - 1));
        n -= 1;
    }
    n
}

fn has_encrypted_extension(path: &[u8]) -> (r: bool)
    ensures
        r == (extension(path@) == Some(encode_utf8(ENCRYPTED_EXTENSION@))),
{
    let trimmed = without_tail(path);
    let from = after_last(trimmed, 0x2f);
    let name = vstd::slice::slice_subrange(trimmed, from, trimmed.len());
    assert(name@ == trimmed@.skip(from as int));
    if name.len() == 0 || (name.len() == 1 && name[0] == 0x2e) || (name.len() == 2 && name[0]
        == 0x2e && name[1] == 0x2e) {
        assert(name@.len() == 0 || name@ == seq![0x2eu8] || name@ == seq![0x2eu8, 0x2eu8]);
        return false;
    }
    assert(file_name(path@) == Some(name@));
    let dot = after_last(name, 0x2e);
    if dot <= 1 {
        return false;
    }
    let ext = vstd::slice::slice_subrange(name, dot, name.len());
    assert(ext@ == name@.skip(dot as int));
    same_bytes(ext, ENCRYPTED_EXTENSION.as_bytes())
}

/// The path of `name` in `dir`.
pub(crate) fn join(dir: &[u8], name: &[u8]) -> (out: Vec<u8>)
    ensures
        out@ == join_path(dir@, name@),
{
    if dir.len() == 0 || dir[dir.len() - 1] == 0x2f {
        concat(dir, name)
    } else {
        let mut with_sep = vstd::slice::slice_to_vec(dir);
        with_sep.push(0x2f);
        concat(with_sep.as_slice(), name)
    }
}

/// `.env` becomes `.env.age`. A path that ends in `.age` already stays as it is, so that
/// encrypting twice does not make `.env.age.age`.
pub fn encrypted_path(plain: &[u8]) -> (out: Vec<u8>)
    ensures
        out@ == encrypted_path_of(plain@),
{
    if has_suffix(plain, ENCRYPTED_SUFFIX.as_bytes()) || has_encrypted_extension(plain) {
        vstd::slice::slice_to_vec(plain)
    } else {
        concat(plain, ENCRYPTED_SUFFIX.as_bytes())
    }
}

/// `.env.age` becomes `.env`. Anything that does not end in `.age` gets `.dec` appended, so
/// that no file is overwritten that this ciphertext was not made from.
pub fn decrypted_path(encrypted: &[u8]) -> (out: Vec<u8>)
    ensures
        out@ == decrypted_path_of(encrypted@),
        out@ != encrypted@,
{
    proof {
        reveal_strlit(".age");
        reveal_strlit(".dec");
        vstd::utf8::is_ascii_chars_encode_utf8(ENCRYPTED_SUFFIX@);
        vstd::utf8::is_ascii_chars_encode_utf8(DECRYPTED_SUFFIX@);
    }
    let text = decode_lossy(encrypted);
    let suffix = ENCRYPTED_SUFFIX.as_bytes();
    if has_suffix(text.as_slice(), suffix) {
        let n: usize = text.len() - suffix.len();
        assert(text@.take(n as int) == text@.subrange(0, n as int));
        proof {
            let cut = text@.take(n as int);
            if !valid_utf8(encrypted@) {
                lemma_cut_is_utf8(text@, n as int);
            }
            assert(cut != encrypted@);
        }
        vstd::slice::slice_to_vec(vstd::slice::slice_subrange(text.as_slice(), 0, n))
    } else {
        let out = concat(encrypted, DECRYPTED_SUFFIX.as_bytes());
        assert(out@.len() != encrypted@.len());
        out
    }
}

/// The recipients file that is looked for next to the file at `target`: in the same
/// directory, under a fixed name.
pub fn default_recipients_file(target: &[u8]) -> (out: Vec<u8>)
    ensures
        out@ == recipients_file_of(target@),
{
    let name = RECIPIENTS_FILENAME.as_bytes();
    let trimmed = without_tail(target);
    if trimmed.len() == 0 || (trimmed.len() == 1 && trimmed[0] == 0x2f) {
        assert(trimmed@.len() == 0 || trimmed@ == seq![0x2fu8]);
        let here: [u8; 1] = [0x2e];
        assert(here@ == seq![0x2eu8]);
        return join(here.as_slice(), name);
    }
    assert(trimmed@ != seq![0x2fu8]) by {
        assert(seq![0x2fu8].len() == 1);
        assert(seq![0x2fu8][0] == 0x2f);
    }
    let from = after_last(trimmed, 0x2f);
    if from == 0 {
        let empty: [u8; 0] = [];
        assert(empty@ == Seq::<u8>::empty());
        join(empty.as_slice(), name)
    } else if from == 1 {
        let root: [u8; 1] = [0x2f];
        assert(root@ == seq![0x2fu8]);
        join(root.as_slice(), name)
    } else {
        let before = vstd::slice::slice_subrange(trimmed, 0, from - 1);
        assert(before@ == trimmed@.take(from - 1));
        join(without_tail(before), name)
    }
}

/// The recipients that a recipients file names: one per line, blank lines and `#` comments
/// ignored.
pub fn parse_recipients_file(contents: &str) -> (out: Vec<String>)
    ensures
        texts(out@) == values(contents@),
{
    values_in(contents)
}

/// Where the recipients of a request are found.
#[derive(Debug, PartialEq, Eq)]
pub enum RecipientsSource {
    /// They were given with the request.
    Given(Vec<String>),
    /// They are named in the file at this path.
    File(Vec<u8>),
}

/// Decides where the recipients for the file at `target` are found: those that were given
/// explicitly go before any file; a file that was given goes before the default one.
pub fn resolve_recipients(
    explicit: Vec<String>,
    recipients_file: Option<Vec<u8>>,
    target: &[u8],
) -> (out: RecipientsSource)
    ensures
        match out {
            RecipientsSource::Given(recipients) => explicit@.len() > 0 && recipients == explicit,
            RecipientsSource::File(path) => explicit@.len() == 0 && path@ == match recipients_file {
                Some(given) => given@,
                None => recipients_file_of(target@),
            },
        },
{
    if explicit.len() > 0 {
        return RecipientsSource::Given(explicit);
    }
    match recipients_file {
        Some(path) => RecipientsSource::File(path),
        None => RecipientsSource::File(default_recipients_file(target)),
    }
}

} // verus!
