//! Installing the filter: what `.gitattributes` and the repository's configuration say of
//! it.

use crate::text::{
    char_rows, chars_of, join_lines, lemma_lines_are_one_line, lemma_lines_unlines,
    lemma_strip_crs, lemma_trim_of_trimmed, lines, one_line, split_lines, strip_cr, strip_crs,
    trim, trimmed, unlines, without_crs,
};
use vstd::prelude::*;

verus! {

/// Sends `.env` through the filter.
pub const ENV_ATTRIBUTE: &'static str = ".env filter=cryptenv";

/// Sends `.env.production` and its like through the filter.
pub const ENV_VARIANT_ATTRIBUTE: &'static str = ".env.* filter=cryptenv";

/// Keeps files that are committed encrypted, such as `.env.age`, out of the filter. Git
/// lets the last matching pattern win, so this one has to follow `.env.*`.
pub const AGE_EXCLUSION: &'static str = "*.age -filter";

/// Whether one of `rows` is `wanted`, white space around it aside.
pub open spec fn has_line(rows: Seq<Seq<char>>, wanted: Seq<char>) -> bool {
    exists|i: int| 0 <= i < rows.len() && trim(#[trigger] rows[i]) == wanted
}

/// `rows`, with `wanted` put at the end unless it is there already.
pub open spec fn with_line(rows: Seq<Seq<char>>, wanted: Seq<char>) -> Seq<Seq<char>> {
    if has_line(rows, wanted) {
        rows
    } else {
        rows.push(wanted)
    }
}

/// Whether the exclusion of `*.age` stands in `rows`, behind every line that sends
/// `.env.age` through the filter. `.env` alone matches no name that ends in `.age`.
pub open spec fn exclusion_wins(rows: Seq<Seq<char>>) -> bool {
    exists|i: int| #[trigger] wins_at(rows, i)
}

/// Whether row `i` is the exclusion of `*.age`, and no row behind it sends `.env.*` through
/// the filter.
pub open spec fn wins_at(rows: Seq<Seq<char>>, i: int) -> bool {
    &&& 0 <= i < rows.len()
    &&& trim(rows[i]) == AGE_EXCLUSION@
    &&& forall|j: int|
        i < j < rows.len() ==> trim(#[trigger] rows[j]) != ENV_VARIANT_ATTRIBUTE@
}

/// `rows`, with each of the filter's attributes that is missing put at the end. The
/// exclusion is put there also where it stands in front of `.env.*`, and so has no effect.
pub open spec fn with_filter(rows: Seq<Seq<char>>) -> Seq<Seq<char>> {
    let sent = with_line(with_line(rows, ENV_ATTRIBUTE@), ENV_VARIANT_ATTRIBUTE@);
    if exclusion_wins(sent) {
        sent
    } else {
        sent.push(AGE_EXCLUSION@)
    }
}

/// The lines of `existing`, without any carriage return at the end of one: what is left of
/// it would end the line when the text is read again.
pub open spec fn rows_of(existing: Seq<char>) -> Seq<Seq<char>> {
    lines(existing).map_values(|line: Seq<char>| strip_crs(line))
}

/// The `.gitattributes` that installing the filter makes of `existing`.
pub open spec fn installed(existing: Seq<char>) -> Seq<char> {
    unlines(with_filter(rows_of(existing)))
}

pub(crate) proof fn lemma_attributes_are_trimmed()
    ensures
        trim(ENV_ATTRIBUTE@) == ENV_ATTRIBUTE@,
        trim(ENV_VARIANT_ATTRIBUTE@) == ENV_VARIANT_ATTRIBUTE@,
        trim(AGE_EXCLUSION@) == AGE_EXCLUSION@,
        strip_cr(ENV_ATTRIBUTE@) == ENV_ATTRIBUTE@,
        strip_cr(ENV_VARIANT_ATTRIBUTE@) == ENV_VARIANT_ATTRIBUTE@,
        strip_cr(AGE_EXCLUSION@) == AGE_EXCLUSION@,
        one_line(ENV_ATTRIBUTE@),
        one_line(ENV_VARIANT_ATTRIBUTE@),
        one_line(AGE_EXCLUSION@),
{
    reveal_strlit(".env filter=cryptenv");
    reveal_strlit(".env.* filter=cryptenv");
    reveal_strlit("*.age -filter");
    lemma_trim_of_trimmed(ENV_ATTRIBUTE@);
    lemma_trim_of_trimmed(ENV_VARIANT_ATTRIBUTE@);
    lemma_trim_of_trimmed(AGE_EXCLUSION@);
}

proof fn lemma_with_line(rows: Seq<Seq<char>>, wanted: Seq<char>)
    requires
        trim(wanted) == wanted,
    ensures
        has_line(with_line(rows, wanted), wanted),
        forall|other: Seq<char>| has_line(rows, other) ==> #[trigger] has_line(
            with_line(rows, wanted),
            other,
        ),
{
    let after = with_line(rows, wanted);
    if !has_line(rows, wanted) {
        assert(trim(after[rows.len() as int]) == wanted);
    }
    assert forall|other: Seq<char>| has_line(rows, other) implies #[trigger] has_line(
        after,
        other,
    ) by {
        let i = choose|i: int| 0 <= i < rows.len() && trim(#[trigger] rows[i]) == other;
        assert(trim(after[i]) == other);
    }
}

/// The lines of an installed `.gitattributes` are those that installing put together.
pub(crate) proof fn lemma_installed_lines(existing: Seq<char>)
    ensures
        lines(installed(existing)) == with_filter(rows_of(existing)),
        rows_of(installed(existing)) == with_filter(rows_of(existing)),
{
    let rows = with_filter(rows_of(existing));
    lemma_attributes_are_trimmed();
    lemma_lines_are_one_line(existing);
    assert forall|i: int| 0 <= i < rows.len() implies one_line(#[trigger] rows[i]) && strip_cr(
        rows[i],
    ) == rows[i] && strip_crs(rows[i]) == rows[i] by {
        if i < lines(existing).len() {
            assert(one_line(lines(existing)[i]));
            assert(rows[i] == rows_of(existing)[i]);
            lemma_strip_crs(lines(existing)[i]);
        } else {
            lemma_strip_crs(rows[i]);
        }
    }
    lemma_lines_unlines(rows);
    assert(lines(installed(existing)) == rows);
    assert(rows_of(installed(existing)) == rows);
}

pub(crate) proof fn lemma_with_filter(rows: Seq<Seq<char>>)
    ensures
        has_line(with_filter(rows), ENV_ATTRIBUTE@),
        has_line(with_filter(rows), ENV_VARIANT_ATTRIBUTE@),
        has_line(with_filter(rows), AGE_EXCLUSION@),
        exclusion_wins(with_filter(rows)),
{
    let first = with_line(rows, ENV_ATTRIBUTE@);
    let sent = with_line(first, ENV_VARIANT_ATTRIBUTE@);
    let all = with_filter(rows);
    lemma_attributes_are_trimmed();
    lemma_with_line(rows, ENV_ATTRIBUTE@);
    lemma_with_line(first, ENV_VARIANT_ATTRIBUTE@);
    assert(has_line(sent, ENV_ATTRIBUTE@) && has_line(sent, ENV_VARIANT_ATTRIBUTE@));
    if !exclusion_wins(sent) {
        assert(wins_at(all, sent.len() as int));
        assert forall|wanted: Seq<char>| #[trigger] has_line(sent, wanted) implies has_line(
            all,
            wanted,
        ) by {
            let i = choose|i: int| 0 <= i < sent.len() && trim(#[trigger] sent[i]) == wanted;
            assert(trim(all[i]) == wanted);
        }
    }
    let i = choose|i: int| #[trigger] wins_at(all, i);
    assert(trim(all[i]) == AGE_EXCLUSION@);
}

/// After installing, every attribute of the filter is a line of `.gitattributes`.
pub proof fn law_install_puts_every_attribute(existing: Seq<char>)
    ensures
        has_line(lines(installed(existing)), ENV_ATTRIBUTE@),
        has_line(lines(installed(existing)), ENV_VARIANT_ATTRIBUTE@),
        has_line(lines(installed(existing)), AGE_EXCLUSION@),
{
    lemma_installed_lines(existing);
    lemma_with_filter(rows_of(existing));
}

/// After installing, the exclusion of `*.age` wins over the filter's other attributes: files that are committed encrypted stay out of it.
pub proof fn law_installed_exclusion_wins(existing: Seq<char>)
    ensures
        exclusion_wins(lines(installed(existing))),
{
    lemma_installed_lines(existing);
    lemma_with_filter(rows_of(existing));
}

/// Installing once more adds no line.
pub proof fn law_second_install_adds_no_line(existing: Seq<char>)
    ensures
        with_filter(lines(installed(existing))) == lines(installed(existing)),
{
    law_install_puts_every_attribute(existing);
    law_installed_exclusion_wins(existing);
}

/// Installing twice leaves the file that installing once left.
pub proof fn law_install_is_idempotent(existing: Seq<char>)
    ensures
        installed(installed(existing)) == installed(existing),
{
    lemma_installed_lines(existing);
    law_second_install_adds_no_line(existing);
}

/// Installing keeps the lines of the file, in their order and in front of what it adds,
/// carriage returns at the end of each aside.
pub proof fn law_install_keeps_lines(existing: Seq<char>)
    ensures
        lines(existing).len() <= lines(installed(existing)).len() <= lines(existing).len() + 3,
        forall|i: int|
            0 <= i < lines(existing).len() ==> #[trigger] lines(installed(existing))[i]
                == strip_crs(lines(existing)[i]),
{
    lemma_installed_lines(existing);
    assert forall|i: int| 0 <= i < lines(existing).len() implies #[trigger] lines(
        installed(existing),
    )[i] == strip_crs(lines(existing)[i]) by {
        assert(rows_of(existing)[i] == strip_crs(lines(existing)[i]));
    }
}

fn same_chars(a: &[char], b: &[char]) -> (r: bool)
    ensures
        r == (a@ == b@),
{
    if a.len() != b.len() {
        return false;
    }
    let mut i: usize = 0;
    while i < a.len()
        invariant
            a.len() == b.len(),
            i <= a.len(),
            forall|j: int| 0 <= j < i ==> a@[j] == b@[j],
        decreases a.len() - i,
    {
        if a[i] != b[i] {
            return false;
        }
        i += 1;
    }
    assert(a@ == b@);
    true
}

fn add_line(rows: &mut Vec<Vec<char>>, wanted: &str)
    ensures
        char_rows(final(rows)@) == with_line(char_rows(old(rows)@), wanted@),
{
    let row = chars_of(wanted);
    let mut i: usize = 0;
    while i < rows.len()
        invariant
            i <= rows.len(),
            *rows == *old(rows),
            row@ == wanted@,
            forall|j: int| 0 <= j < i ==> trim(#[trigger] char_rows(rows@)[j]) != wanted@,
        decreases rows.len() - i,
    {
        if same_chars(trimmed(rows[i].as_slice()), row.as_slice()) {
            assert(trim(char_rows(rows@)[i as int]) == wanted@);
            return;
        }
        i += 1;
    }
    proof {
        assert(char_rows(rows@.push(row)) == char_rows(rows@).push(wanted@));
    }
    rows.push(row);
}

/// Whether the exclusion of `*.age` stands in `rows` behind every line for `.env.*`.
fn is_excluded(rows: &Vec<Vec<char>>) -> (r: bool)
    ensures
        r == exclusion_wins(char_rows(rows@)),
{
    let variant = chars_of(ENV_VARIANT_ATTRIBUTE);
    let exclusion = chars_of(AGE_EXCLUSION);
    let ghost all = char_rows(rows@);
    proof {
        reveal_strlit(".env.* filter=cryptenv");
        reveal_strlit("*.age -filter");
        assert(ENV_VARIANT_ATTRIBUTE@.first() != AGE_EXCLUSION@.first());
    }
    let mut n: usize = rows.len();
    while n > 0
        invariant
            n <= rows.len(),
            all == char_rows(rows@),
            variant@ == ENV_VARIANT_ATTRIBUTE@,
            exclusion@ == AGE_EXCLUSION@,
            AGE_EXCLUSION@ != ENV_VARIANT_ATTRIBUTE@,
            forall|j: int|
                n <= j < all.len() ==> trim(#[trigger] all[j]) != ENV_VARIANT_ATTRIBUTE@ && trim(
                    all[j],
                ) != AGE_EXCLUSION@,
        decreases n,
    {
        n -= 1;
        let row = trimmed(rows[n].as_slice());
        assert(row@ == trim(all[n as int]));
        if same_chars(row, exclusion.as_slice()) {
            assert(wins_at(all, n as int));
            return true;
        }
        if same_chars(row, variant.as_slice()) {
            proof {
                if exclusion_wins(all) {
                    let i = choose|i: int| #[trigger] wins_at(all, i);
                    assert(i < n);
                }
            }
            return false;
        }
    }
    false
}

/// The settings of the filter driver, as keys and values for `git config`.
///
/// The driver is required: by default git passes content on unfiltered when a filter fails,
/// which for `clean` would put plaintext into the object database.
pub open spec fn settings() -> Seq<(Seq<char>, Seq<char>)> {
    seq![
        ("filter.cryptenv.clean"@, "cryptenv git-clean %f"@),
        ("filter.cryptenv.smudge"@, "cryptenv git-smudge %f"@),
        ("filter.cryptenv.required"@, "true"@),
    ]
}

/// What installing the filter into a directory takes.
#[derive(Debug, PartialEq, Eq)]
pub struct Installation {
    /// The new contents of `.gitattributes`.
    pub attributes: String,
    /// What to set in the repository's configuration, in order.
    pub config: Vec<(String, String)>,
}

/// What installs the filter into a directory whose `.gitattributes` holds `existing`. Its
/// lines stay, in their order; attributes that are missing follow them, and so does the
/// exclusion of `*.age` where `.env.*` stood behind it.
pub fn install_filter(existing: &str) -> (out: Installation)
    ensures
        out.attributes@ == installed(existing@),
        out.config@.map_values(|pair: (String, String)| (pair.0@, pair.1@)) == settings(),
{
    let lines = split_lines(existing);
    let mut rows: Vec<Vec<char>> = Vec::new();
    let mut i: usize = 0;
    while i < lines.len()
        invariant
            i <= lines.len(),
            rows@.len() == i,
            forall|j: int|
                0 <= j < i ==> (#[trigger] rows@[j])@ == strip_crs(char_rows(lines@)[j]),
        decreases lines.len() - i,
    {
        rows.push(without_crs(lines[i].as_slice()));
        i += 1;
    }
    assert(char_rows(rows@) == rows_of(existing@));
    add_line(&mut rows, ENV_ATTRIBUTE);
    add_line(&mut rows, ENV_VARIANT_ATTRIBUTE);
    if !is_excluded(&rows) {
        let row = chars_of(AGE_EXCLUSION);
        proof {
            assert(char_rows(rows@.push(row)) == char_rows(rows@).push(AGE_EXCLUSION@));
        }
        rows.push(row);
    }
    let mut config: Vec<(String, String)> = Vec::new();
    config.push(("filter.cryptenv.clean".to_owned(), "cryptenv git-clean %f".to_owned()));
    config.push(("filter.cryptenv.smudge".to_owned(), "cryptenv git-smudge %f".to_owned()));
    config.push(("filter.cryptenv.required".to_owned(), "true".to_owned()));
    Installation { attributes: join_lines(&rows), config }
}

} // verus!
