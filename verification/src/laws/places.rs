//! Laws of the paths of files.
//!
//! In what follows `.age` stands for the bytes 0x2e 0x61 0x67 0x65, `.dec` for 0x2e 0x64 0x65
//! 0x63, a separator for 0x2f and a dot for 0x2e.

use crate::paths::{
    decrypted_path, default_recipients_file, encrypted_path, extension, file_name, last_index,
    lemma_last_index_concat, parent, resolve_recipients, trim_tail, utf8_lossy, RecipientsSource,
};
use vstd::prelude::*;
use vstd::utf8::{encode_utf8, valid_utf8};

verus! {

proof fn lemma_suffixes()
    ensures
        encode_utf8(".age"@) == seq![0x2eu8, 0x61u8, 0x67u8, 0x65u8],
        encode_utf8(".dec"@) == seq![0x2eu8, 0x64u8, 0x65u8, 0x63u8],
        encode_utf8("age"@) == seq![0x61u8, 0x67u8, 0x65u8],
{
    reveal_strlit(".age");
    reveal_strlit(".dec");
    reveal_strlit("age");
    vstd::utf8::is_ascii_chars_encode_utf8(".age"@);
    vstd::utf8::is_ascii_chars_encode_utf8(".dec"@);
    vstd::utf8::is_ascii_chars_encode_utf8("age"@);
    assert(encode_utf8(".age"@) == seq![0x2eu8, 0x61u8, 0x67u8, 0x65u8]);
    assert(encode_utf8(".dec"@) == seq![0x2eu8, 0x64u8, 0x65u8, 0x63u8]);
    assert(encode_utf8("age"@) == seq![0x61u8, 0x67u8, 0x65u8]);
}

proof fn lemma_last_index(s: Seq<u8>, b: u8)
    ensures
        -1 <= last_index(s, b) < s.len(),
        last_index(s, b) >= 0 ==> s[last_index(s, b)] == b,
        forall|i: int| last_index(s, b) < i < s.len() ==> #[trigger] s[i] != b,
    decreases s.len(),
{
    if s.len() > 0 && s.last() != b {
        let rest = s.drop_last();
        lemma_last_index(rest, b);
        assert forall|i: int| last_index(s, b) < i < s.len() implies #[trigger] s[i] != b by {
            if i < rest.len() {
                assert(rest[i] == s[i]);
            }
        }
    }
}

/// The path that encrypting writes to is the path itself, or has `.age` appended.
pub proof fn law_encrypting_appends_or_keeps(plain: &[u8], out: Vec<u8>)
    requires
        call_ensures(encrypted_path, (plain,), out),
    ensures
        out@ == plain@ || out@ == plain@ + seq![0x2eu8, 0x61u8, 0x67u8, 0x65u8],
{
    lemma_suffixes();
}

/// A path that ends in `.age` is kept.
pub proof fn law_a_path_that_ends_in_age_is_kept(plain: &[u8], stem: Seq<u8>, out: Vec<u8>)
    requires
        call_ensures(encrypted_path, (plain,), out),
        plain@ == stem + seq![0x2eu8, 0x61u8, 0x67u8, 0x65u8],
    ensures
        out@ == plain@,
{
    lemma_suffixes();
    assert(plain@.skip(plain@.len() - 4) == seq![0x2eu8, 0x61u8, 0x67u8, 0x65u8]);
}

/// Any other path gets `.age` appended, unless a separator or a dot behind one ends it.
pub proof fn law_any_other_name_gets_age_appended(plain: &[u8], out: Vec<u8>)
    requires
        call_ensures(encrypted_path, (plain,), out),
        plain@.len() >= 4 ==> plain@.skip(plain@.len() - 4) != seq![0x2eu8, 0x61u8, 0x67u8, 0x65u8],
        plain@.len() > 0 ==> plain@.last() != 0x2f,
        plain@.len() > 1 && plain@.last() == 0x2e ==> plain@[plain@.len() - 2] != 0x2f,
    ensures
        out@ == plain@ + seq![0x2eu8, 0x61u8, 0x67u8, 0x65u8],
{
    let path = plain@;
    lemma_suffixes();
    assert(trim_tail(path) == path);
    lemma_extension(path);
}

/// A path that nothing is trimmed off has the extension `age` exactly where it ends in
/// `.age` behind something that is no separator.
proof fn lemma_extension(path: Seq<u8>)
    requires
        trim_tail(path) == path,
    ensures
        extension(path) == Some(seq![0x61u8, 0x67u8, 0x65u8]) <==> {
            &&& path.len() > 4
            &&& path.skip(path.len() - 4) == seq![0x2eu8, 0x61u8, 0x67u8, 0x65u8]
            &&& path[path.len() - 5] != 0x2f
        },
{
    let age = seq![0x2eu8, 0x61u8, 0x67u8, 0x65u8];
    let ext = seq![0x61u8, 0x67u8, 0x65u8];
    let sep = last_index(path, 0x2f);
    let name = path.skip(sep + 1);
    let dot = last_index(name, 0x2e);
    lemma_last_index(path, 0x2f);
    lemma_last_index(name, 0x2e);
    let n = path.len();
    if n > 4 && path.skip(n - 4) == age && path[n - 5] != 0x2f {
        assert(path[n - 4] == age[0] && path[n - 3] == age[1] && path[n - 2] == age[2] && path[n - 1]
            == age[3]) by {
            assert(path.skip(n - 4)[0] == path[n - 4]);
            assert(path.skip(n - 4)[1] == path[n - 3]);
            assert(path.skip(n - 4)[2] == path[n - 2]);
            assert(path.skip(n - 4)[3] == path[n - 1]);
        }
        assert(sep < n - 5);
        assert(name.len() == n - sep - 1);
        assert(name[name.len() - 4] == path[n - 4]);
        assert(name[name.len() - 3] == path[n - 3]);
        assert(name[name.len() - 2] == path[n - 2]);
        assert(name[name.len() - 1] == path[n - 1]);
        assert(dot == name.len() - 4);
        assert(name.len() > 4);
        assert(seq![0x2eu8].len() == 1 && seq![0x2eu8, 0x2eu8].len() == 2);
        assert(file_name(path) == Some(name));
        assert(name.skip(dot + 1) == ext);
    }
    if extension(path) == Some(ext) {
        assert(file_name(path) == Some(name));
        assert(name.skip(dot + 1) == ext);
        assert(name.len() == dot + 4);
        assert(name[dot] == 0x2e);
        assert(path[n - 4] == name[dot]);
        assert(path[n - 3] == name.skip(dot + 1)[0]);
        assert(path[n - 2] == name.skip(dot + 1)[1]);
        assert(path[n - 1] == name.skip(dot + 1)[2]);
        assert(path.skip(n - 4) == age);
        assert(path[n - 5] == name[dot - 1]);
    }
}

/// A separator behind a name keeps the path where the name has something in front of the
/// `.age` that it ends in.
pub proof fn law_a_separator_behind_an_encrypted_name(
    core: Seq<u8>,
    plain: &[u8],
    out: Vec<u8>,
)
    requires
        call_ensures(encrypted_path, (plain,), out),
        plain@ == core.push(0x2f),
        core.len() > 0,
        core.last() != 0x2f,
        core.len() > 1 && core.last() == 0x2e ==> core[core.len() - 2] != 0x2f,
    ensures
        out@ == plain@ <==> {
            &&& core.len() > 4
            &&& core.skip(core.len() - 4) == seq![0x2eu8, 0x61u8, 0x67u8, 0x65u8]
            &&& core[core.len() - 5] != 0x2f
        },
{
    let age = seq![0x2eu8, 0x61u8, 0x67u8, 0x65u8];
    lemma_suffixes();
    assert(plain@.drop_last() == core);
    assert(trim_tail(core) == core);
    assert(trim_tail(plain@) == core);
    lemma_extension(core);
    assert(extension(plain@) == extension(core));
    lemma_not_age(plain@);
    assert((plain@ + age).len() != plain@.len());
}

proof fn lemma_not_age(path: Seq<u8>)
    requires
        path.len() > 0,
        path.last() == 0x2f || path.last() == 0x2e,
    ensures
        path.len() >= 4 ==> path.skip(path.len() - 4) != seq![0x2eu8, 0x61u8, 0x67u8, 0x65u8],
{
    if path.len() >= 4 {
        assert(path.skip(path.len() - 4)[3] == path.last());
    }
}

/// A further separator behind one, or a dot behind one, changes nothing in whether a path is
/// kept; the root is not.
pub proof fn law_what_follows_a_separator_makes_no_difference(
    shorter: &[u8],
    longer: &[u8],
    of_shorter: Vec<u8>,
    of_longer: Vec<u8>,
)
    requires
        call_ensures(encrypted_path, (shorter,), of_shorter),
        call_ensures(encrypted_path, (longer,), of_longer),
        shorter@.len() > 0,
        shorter@.last() == 0x2f,
        longer@ == shorter@.push(0x2f) || longer@ == shorter@.push(0x2e),
    ensures
        of_shorter@ == shorter@ <==> of_longer@ == longer@,
        shorter@.len() == 1 ==> of_shorter@ != shorter@,
{
    let age = seq![0x2eu8, 0x61u8, 0x67u8, 0x65u8];
    lemma_suffixes();
    assert(longer@.drop_last() == shorter@);
    assert(trim_tail(longer@) == trim_tail(shorter@));
    assert(extension(longer@) == extension(shorter@));
    lemma_not_age(shorter@);
    lemma_not_age(longer@);
    assert((shorter@ + age).len() != shorter@.len());
    assert((longer@ + age).len() != longer@.len());
    if shorter@.len() == 1 {
        assert(trim_tail(shorter@) == shorter@);
        lemma_extension(shorter@);
    }
}

/// Decrypting a file whose path ends in `.age` writes to what stands in front of it; to any
/// other path `.dec` is appended. A path that is no text is read with its faults replaced.
pub proof fn law_decrypting_cuts_age_or_appends_dec(
    encrypted: &[u8],
    text: Seq<u8>,
    out: Vec<u8>,
)
    requires
        call_ensures(decrypted_path, (encrypted,), out),
        valid_utf8(encrypted@) ==> text == encrypted@,
        !valid_utf8(encrypted@) ==> text == utf8_lossy(encrypted@),
    ensures
        text.len() >= 4 && text.skip(text.len() - 4) == seq![0x2eu8, 0x61u8, 0x67u8, 0x65u8]
            ==> out@ == text.take(text.len() - 4),
        !(text.len() >= 4 && text.skip(text.len() - 4) == seq![0x2eu8, 0x61u8, 0x67u8, 0x65u8])
            ==> out@ == encrypted@ + seq![0x2eu8, 0x64u8, 0x65u8, 0x63u8],
{
    lemma_suffixes();
}

/// Decrypting what was encrypted leads back to the plain path, where that is text and did not
/// stay.
pub proof fn law_the_way_leads_back(
    plain: &[u8],
    there: Vec<u8>,
    encrypted: &[u8],
    back: Vec<u8>,
)
    requires
        call_ensures(encrypted_path, (plain,), there),
        there@ != plain@,
        valid_utf8(plain@),
        encrypted@ == there@,
        call_ensures(decrypted_path, (encrypted,), back),
    ensures
        back@ == plain@,
{
    crate::paths::law_decrypted_path_undoes_encrypted_path(plain@);
}

proof fn lemma_name(front: Seq<u8>, name: Seq<u8>)
    requires
        name.len() > 0,
        forall|i: int| 0 <= i < name.len() ==> #[trigger] name[i] != 0x2f,
        name != seq![0x2eu8],
        front.len() > 0,
        front.last() == 0x2f,
    ensures
        trim_tail(front + name) == front + name,
        last_index(front + name, 0x2f) == front.len() - 1,
{
    let path = front + name;
    assert(path.last() == name.last());
    assert(name[name.len() - 1] != 0x2f);
    if name.len() == 1 {
        if name[0] == 0x2e {
            assert(name == seq![0x2eu8]);
        }
    } else {
        assert(path[path.len() - 2] == name[name.len() - 2]);
    }
    lemma_last_index_concat(front, name, 0x2f);
}

/// A file in a directory has its recipients file in that directory.
pub proof fn law_the_recipients_file_is_in_the_same_directory(
    dir: Seq<u8>,
    name: Seq<u8>,
    target: &[u8],
    out: Vec<u8>,
)
    requires
        call_ensures(default_recipients_file, (target,), out),
        target@ == dir + seq![0x2fu8] + name,
        name.len() > 0,
        forall|i: int| 0 <= i < name.len() ==> #[trigger] name[i] != 0x2f,
        name != seq![0x2eu8],
        dir.len() > 0 ==> dir.last() != 0x2f,
        dir.len() > 1 && dir.last() == 0x2e ==> dir[dir.len() - 2] != 0x2f,
    ensures
        out@ == dir + seq![0x2fu8] + encode_utf8(".cryptenv-recipients"@),
{
    let front = dir + seq![0x2fu8];
    let file = encode_utf8(".cryptenv-recipients"@);
    lemma_name(front, name);
    assert(target@ == front + name);
    assert(target@ != seq![0x2fu8]) by {
        assert(target@.len() > 1);
    }
    if dir.len() == 0 {
        assert(parent(target@) == Some(seq![0x2fu8]));
        assert(front == seq![0x2fu8]);
    } else {
        assert(target@.take(dir.len() as int) == dir);
        assert(trim_tail(dir) == dir);
        assert(parent(target@) == Some(dir));
        assert(dir.push(0x2f) == front);
    }
}

/// A file that is named alone has its recipients file in the current directory, and so have
/// the root and the empty path.
pub proof fn law_a_name_alone_is_in_the_current_directory(target: &[u8], out: Vec<u8>)
    requires
        call_ensures(default_recipients_file, (target,), out),
    ensures
        target@.len() > 0 && (forall|i: int|
            0 <= i < target@.len() ==> #[trigger] target@[i] != 0x2f) ==> out@ == encode_utf8(
            ".cryptenv-recipients"@,
        ),
        target@.len() == 0 || target@ == seq![0x2fu8] ==> out@ == seq![0x2eu8, 0x2fu8]
            + encode_utf8(".cryptenv-recipients"@),
{
    let path = target@;
    let file = encode_utf8(".cryptenv-recipients"@);
    if path.len() > 0 && (forall|i: int| 0 <= i < path.len() ==> #[trigger] path[i] != 0x2f) {
        assert(path[path.len() - 1] != 0x2f);
        if path.len() >= 2 {
            assert(path[path.len() - 2] != 0x2f);
        }
        assert(trim_tail(path) == path);
        lemma_last_index(path, 0x2f);
        assert(path != seq![0x2fu8]) by {
            assert(path[0] != 0x2f);
            assert(seq![0x2fu8][0] == 0x2f);
        }
        assert(Seq::<u8>::empty() + file == file);
    }
    if path.len() == 0 || path == seq![0x2fu8] {
        assert(trim_tail(path) == path);
        assert(seq![0x2eu8].push(0x2f) == seq![0x2eu8, 0x2fu8]);
    }
}

/// A separator behind a path, or a dot behind a separator, changes nothing in where its
/// recipients file is.
pub proof fn law_what_ends_a_path_moves_no_recipients_file(
    shorter: &[u8],
    longer: &[u8],
    of_shorter: Vec<u8>,
    of_longer: Vec<u8>,
)
    requires
        call_ensures(default_recipients_file, (shorter,), of_shorter),
        call_ensures(default_recipients_file, (longer,), of_longer),
        shorter@.len() > 0,
        longer@ == shorter@.push(0x2f) || (shorter@.last() == 0x2f && longer@ == shorter@.push(
            0x2e,
        )),
    ensures
        of_shorter@ == of_longer@,
{
    assert(longer@.drop_last() == shorter@);
    assert(trim_tail(longer@) == trim_tail(shorter@));
    assert(parent(longer@) == parent(shorter@));
}

/// A further separator in front of the name, or a dot between two, changes nothing in where
/// the recipients file is.
pub proof fn law_what_precedes_a_name_moves_no_recipients_file(
    dir: Seq<u8>,
    name: Seq<u8>,
    shorter: &[u8],
    longer: &[u8],
    of_shorter: Vec<u8>,
    of_longer: Vec<u8>,
)
    requires
        call_ensures(default_recipients_file, (shorter,), of_shorter),
        call_ensures(default_recipients_file, (longer,), of_longer),
        name.len() > 0,
        forall|i: int| 0 <= i < name.len() ==> #[trigger] name[i] != 0x2f,
        name != seq![0x2eu8],
        shorter@ == dir + seq![0x2fu8] + name,
        longer@ == dir + seq![0x2fu8, 0x2fu8] + name || longer@ == dir + seq![
            0x2fu8,
            0x2eu8,
            0x2fu8,
        ] + name,
    ensures
        of_shorter@ == of_longer@,
{
    let front = dir + seq![0x2fu8];
    let doubled = dir + seq![0x2fu8, 0x2fu8];
    let dotted = dir + seq![0x2fu8, 0x2eu8, 0x2fu8];
    lemma_name(front, name);
    lemma_name(doubled, name);
    lemma_name(dotted, name);
    assert(front.drop_last() == dir);
    assert((dir + seq![0x2fu8, 0x2eu8]).drop_last() == front);
    assert(trim_tail(dir + seq![0x2fu8, 0x2eu8]) == trim_tail(front));
    assert(shorter@.len() > 1 && longer@.len() > 1);
    assert(shorter@ != seq![0x2fu8] && longer@ != seq![0x2fu8]);
    assert(shorter@.take(dir.len() as int) == dir);
    let up = if longer@ == doubled + name {
        front
    } else {
        dir + seq![0x2fu8, 0x2eu8]
    };
    assert(longer@.take(up.len() as int) == up);
    assert(last_index(longer@, 0x2f) == up.len());
    assert(parent(longer@) == Some(trim_tail(up)));
    if dir.len() == 0 {
        assert(front == seq![0x2fu8]);
        assert(trim_tail(front) == front);
        assert(parent(shorter@) == Some(front));
    } else {
        assert(trim_tail(front) == trim_tail(dir));
        assert(parent(shorter@) == Some(trim_tail(dir)));
    }
}

/// Recipients that were given go before a file, a file that was given before the default.
pub proof fn law_what_was_given_goes_first(
    explicit: Vec<String>,
    recipients_file: Option<Vec<u8>>,
    target: &[u8],
    default: Vec<u8>,
    out: RecipientsSource,
)
    requires
        call_ensures(resolve_recipients, (explicit, recipients_file, target), out),
        call_ensures(default_recipients_file, (target,), default),
    ensures
        explicit@.len() > 0 ==> (out matches RecipientsSource::Given(list) && list@ == explicit@),
        explicit@.len() == 0 ==> (out matches RecipientsSource::File(path) && path@ == (
        match recipients_file {
            Some(given) => given@,
            None => default@,
        })),
{
}

} // verus!
