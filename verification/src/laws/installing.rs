//! Laws of installing the filter.

use crate::install::{
    has_line, install_filter, law_install_is_idempotent, lemma_attributes_are_trimmed,
    lemma_installed_lines, lemma_with_filter, rows_of, wins_at, with_filter, with_line,
    Installation, AGE_EXCLUSION, ENV_ATTRIBUTE, ENV_VARIANT_ATTRIBUTE,
};
use crate::text::{
    lemma_lines_are_one_line, lemma_strip_crs, lines, one_line, strip_crs, trim, unlines,
};
use vstd::prelude::*;

verus! {

/// After installing, each attribute of the filter is a line of `.gitattributes`, white space
/// around it aside.
pub proof fn law_each_attribute_is_a_line(existing: &str, out: Installation)
    requires
        call_ensures(install_filter, (existing,), out),
    ensures
        exists|i: int|
            0 <= i < lines(out.attributes@).len() && trim(#[trigger] lines(out.attributes@)[i])
                == ".env filter=cryptenv"@,
        exists|i: int|
            0 <= i < lines(out.attributes@).len() && trim(#[trigger] lines(out.attributes@)[i])
                == ".env.* filter=cryptenv"@,
        exists|i: int|
            0 <= i < lines(out.attributes@).len() && trim(#[trigger] lines(out.attributes@)[i])
                == "*.age -filter"@,
{
    let rows = lines(out.attributes@);
    lemma_installed_lines(existing@);
    lemma_with_filter(rows_of(existing@));
    let a = choose|i: int| 0 <= i < rows.len() && trim(#[trigger] rows[i]) == ENV_ATTRIBUTE@;
    let b = choose|i: int|
        0 <= i < rows.len() && trim(#[trigger] rows[i]) == ENV_VARIANT_ATTRIBUTE@;
    let c = choose|i: int| 0 <= i < rows.len() && trim(#[trigger] rows[i]) == AGE_EXCLUSION@;
    assert(trim(rows[a]) == ".env filter=cryptenv"@);
    assert(trim(rows[b]) == ".env.* filter=cryptenv"@);
    assert(trim(rows[c]) == "*.age -filter"@);
}

/// After installing, `*.age` is excluded behind the last line that filters `.env.*`.
pub proof fn law_encrypted_files_stay_out_of_the_filter(existing: &str, out: Installation)
    requires
        call_ensures(install_filter, (existing,), out),
    ensures
        exists|i: int|
            {
                &&& 0 <= i < lines(out.attributes@).len()
                &&& trim(#[trigger] lines(out.attributes@)[i]) == "*.age -filter"@
                &&& forall|j: int|
                    i < j < lines(out.attributes@).len() ==> trim(
                        #[trigger] lines(out.attributes@)[j],
                    ) != ".env.* filter=cryptenv"@
            },
{
    let rows = lines(out.attributes@);
    lemma_installed_lines(existing@);
    lemma_with_filter(rows_of(existing@));
    let i = choose|i: int| #[trigger] wins_at(rows, i);
    assert(trim(rows[i]) == "*.age -filter"@);
}

/// The lines of the file stay, each at its place, but for carriage returns at the end of
/// one.
pub proof fn law_lines_stay_in_place(existing: &str, out: Installation, i: int)
    requires
        call_ensures(install_filter, (existing,), out),
        0 <= i < lines(existing@).len(),
    ensures
        i < lines(out.attributes@).len(),
        lines(out.attributes@)[i].is_prefix_of(lines(existing@)[i]),
        forall|k: int|
            lines(out.attributes@)[i].len() <= k < lines(existing@)[i].len()
                ==> #[trigger] lines(existing@)[i][k] == '\r',
        lines(out.attributes@)[i].len() > 0 ==> lines(out.attributes@)[i].last() != '\r',
{
    lemma_installed_lines(existing@);
    assert(rows_of(existing@)[i] == strip_crs(lines(existing@)[i]));
    lemma_cut(lines(existing@)[i]);
}

proof fn lemma_cut(line: Seq<char>)
    ensures
        strip_crs(line).is_prefix_of(line),
        forall|k: int| strip_crs(line).len() <= k < line.len() ==> #[trigger] line[k] == '\r',
        strip_crs(line).len() > 0 ==> strip_crs(line).last() != '\r',
    decreases line.len(),
{
    if line.len() > 0 && line.last() == '\r' {
        let rest = line.drop_last();
        let cut = strip_crs(line);
        lemma_cut(rest);
        assert(cut == rest.subrange(0, cut.len() as int));
        assert(cut == line.subrange(0, cut.len() as int));
        assert forall|k: int| cut.len() <= k < line.len() implies #[trigger] line[k] == '\r' by {
            if k < rest.len() {
                assert(rest[k] == '\r');
            }
        }
    } else {
        assert(line == line.subrange(0, line.len() as int));
    }
}

/// Behind the lines of the file come attributes of the filter alone, each at most once, in
/// their order.
pub proof fn law_only_attributes_are_added(existing: &str, out: Installation)
    requires
        call_ensures(install_filter, (existing,), out),
    ensures
        lines(existing@).len() <= lines(out.attributes@).len() <= lines(existing@).len() + 3,
        forall|i: int|
            lines(existing@).len() <= i < lines(out.attributes@).len() ==> {
                ||| #[trigger] lines(out.attributes@)[i] == ".env filter=cryptenv"@
                ||| lines(out.attributes@)[i] == ".env.* filter=cryptenv"@
                ||| lines(out.attributes@)[i] == "*.age -filter"@
            },
        forall|i: int, j: int|
            lines(existing@).len() <= i < j < lines(out.attributes@).len() ==> {
                ||| #[trigger] lines(out.attributes@)[i] == ".env filter=cryptenv"@
                    && #[trigger] lines(out.attributes@)[j] == ".env.* filter=cryptenv"@
                ||| lines(out.attributes@)[i] == ".env filter=cryptenv"@ && lines(
                    out.attributes@,
                )[j] == "*.age -filter"@
                ||| lines(out.attributes@)[i] == ".env.* filter=cryptenv"@ && lines(
                    out.attributes@,
                )[j] == "*.age -filter"@
            },
{
    lemma_installed_lines(existing@);
    assert(rows_of(existing@).len() == lines(existing@).len());
}

/// An attribute that is a line of the file already is not added once more; the exclusion is
/// only where a line that filters `.env.*` stands behind it, or has to.
pub proof fn law_nothing_is_added_twice(existing: &str, out: Installation, k: int, i: int)
    requires
        call_ensures(install_filter, (existing,), out),
        0 <= k < lines(existing@).len(),
        lines(existing@).len() <= i < lines(out.attributes@).len(),
    ensures
        trim(lines(existing@)[k]) == ".env filter=cryptenv"@ ==> lines(out.attributes@)[i]
            != ".env filter=cryptenv"@,
        trim(lines(existing@)[k]) == ".env.* filter=cryptenv"@ ==> lines(out.attributes@)[i]
            != ".env.* filter=cryptenv"@,
        ({
            &&& trim(lines(existing@)[k]) == "*.age -filter"@
            &&& exists|v: int|
                0 <= v < k && trim(#[trigger] lines(existing@)[v]) == ".env.* filter=cryptenv"@
            &&& forall|j: int|
                k < j < lines(existing@).len() ==> trim(#[trigger] lines(existing@)[j])
                    != ".env.* filter=cryptenv"@
        }) ==> lines(out.attributes@)[i] != "*.age -filter"@,
{
    let old_rows = lines(existing@);
    let rows = rows_of(existing@);
    let first = with_line(rows, ENV_ATTRIBUTE@);
    let sent = with_line(first, ENV_VARIANT_ATTRIBUTE@);
    lemma_installed_lines(existing@);
    lemma_attributes_are_trimmed();
    lemma_distinct();
    assert forall|j: int| 0 <= j < rows.len() implies trim(#[trigger] rows[j]) == trim(
        old_rows[j],
    ) by {
        lemma_strip_crs(old_rows[j]);
    }
    assert(trim(rows[k]) == trim(old_rows[k]));
    assert(trim(first[k]) == trim(old_rows[k]));
    assert(trim(sent[k]) == trim(old_rows[k]));
    if trim(old_rows[k]) == ".env.* filter=cryptenv"@ {
        assert(has_line(first, ENV_VARIANT_ATTRIBUTE@));
    }
    if trim(old_rows[k]) == "*.age -filter"@ && (exists|v: int|
        0 <= v < k && trim(#[trigger] old_rows[v]) == ".env.* filter=cryptenv"@) && (forall|j: int|
        k < j < old_rows.len() ==> trim(#[trigger] old_rows[j]) != ".env.* filter=cryptenv"@) {
        let v = choose|v: int|
            0 <= v < k && trim(#[trigger] old_rows[v]) == ".env.* filter=cryptenv"@;
        assert(trim(rows[v]) == ENV_VARIANT_ATTRIBUTE@);
        assert(trim(first[v]) == ENV_VARIANT_ATTRIBUTE@);
        assert(has_line(first, ENV_VARIANT_ATTRIBUTE@));
        assert(sent == first);
        assert forall|j: int| k < j < sent.len() implies trim(#[trigger] sent[j])
            != ENV_VARIANT_ATTRIBUTE@ by {
            if j < rows.len() {
                assert(trim(rows[j]) == trim(old_rows[j]));
            } else {
                assert(sent[j] == ENV_ATTRIBUTE@);
            }
        }
        assert(wins_at(sent, k));
    }
}

proof fn lemma_distinct()
    ensures
        ENV_ATTRIBUTE@ != ENV_VARIANT_ATTRIBUTE@,
        ENV_ATTRIBUTE@ != AGE_EXCLUSION@,
        ENV_VARIANT_ATTRIBUTE@ != AGE_EXCLUSION@,
{
    reveal_strlit(".env filter=cryptenv");
    reveal_strlit(".env.* filter=cryptenv");
    reveal_strlit("*.age -filter");
    assert(ENV_ATTRIBUTE@[4] != ENV_VARIANT_ATTRIBUTE@[4]);
    assert(ENV_ATTRIBUTE@[0] != AGE_EXCLUSION@[0]);
    assert(ENV_VARIANT_ATTRIBUTE@[0] != AGE_EXCLUSION@[0]);
}

/// The new file ends in a newline, and in front of no newline stands a carriage return.
pub proof fn law_the_new_file_ends_its_lines(existing: &str, out: Installation)
    requires
        call_ensures(install_filter, (existing,), out),
    ensures
        out.attributes@.len() > 0,
        out.attributes@.last() == '\n',
        forall|i: int|
            0 < i < out.attributes@.len() && #[trigger] out.attributes@[i] == '\n'
                ==> out.attributes@[i - 1] != '\r',
{
    let rows = with_filter(rows_of(existing@));
    lemma_attributes_are_trimmed();
    lemma_with_filter(rows_of(existing@));
    lemma_lines_are_one_line(existing@);
    assert forall|i: int| 0 <= i < rows.len() implies (#[trigger] rows[i]).len() == 0
        || rows[i].last() != '\r' by {
        if i < rows_of(existing@).len() {
            assert(rows[i] == strip_crs(lines(existing@)[i]));
            lemma_cut(lines(existing@)[i]);
        }
    }
    assert forall|i: int, k: int| 0 <= i < rows.len() && 0 <= k < rows[i].len() implies #[trigger]
        rows[i][k] != '\n' by {
        assert(one_line(rows[i])) by {
            if i < rows_of(existing@).len() {
                assert(one_line(lines(existing@)[i]));
                assert(rows[i] == strip_crs(lines(existing@)[i]));
                lemma_strip_crs(lines(existing@)[i]);
            }
        }
    }
    lemma_no_cr(rows);
}

proof fn lemma_no_cr(parts: Seq<Seq<char>>)
    requires
        forall|i: int|
            0 <= i < parts.len() ==> (#[trigger] parts[i]).len() == 0 || parts[i].last() != '\r',
        forall|i: int, k: int|
            0 <= i < parts.len() && 0 <= k < parts[i].len() ==> #[trigger] parts[i][k] != '\n',
    ensures
        parts.len() > 0 ==> unlines(parts).len() > 0 && unlines(parts).last() == '\n',
        forall|i: int|
            0 < i < unlines(parts).len() && #[trigger] unlines(parts)[i] == '\n' ==> unlines(
                parts,
            )[i - 1] != '\r',
    decreases parts.len(),
{
    if parts.len() > 0 {
        let rest = parts.drop_last();
        let last = parts[parts.len() - 1];
        let whole = unlines(parts);
        let before = unlines(rest);
        assert forall|i: int, k: int| 0 <= i < rest.len() && 0 <= k < rest[i].len() implies
            #[trigger] rest[i][k] != '\n' by {
            assert(parts[i][k] != '\n');
        }
        lemma_no_cr(rest);
        assert(whole == before + last.push('\n'));
        assert forall|i: int| 0 < i < whole.len() && #[trigger] whole[i] == '\n' implies whole[i
            - 1] != '\r' by {
            if i < before.len() {
                assert(before[i] == '\n');
            } else if i < whole.len() - 1 {
                assert(whole[i] == parts[parts.len() - 1][i - before.len()]);
            } else if last.len() > 0 {
                assert(whole[i - 1] == last.last());
            } else {
                assert(whole[i - 1] == before.last());
            }
        }
    }
}

/// Installing into the file that installing left changes nothing.
pub proof fn law_installing_twice_is_installing_once(
    existing: &str,
    first: Installation,
    between: &str,
    second: Installation,
)
    requires
        call_ensures(install_filter, (existing,), first),
        between@ == first.attributes@,
        call_ensures(install_filter, (between,), second),
    ensures
        second.attributes@ == first.attributes@,
{
    law_install_is_idempotent(existing@);
}

/// The settings of the driver, whatever the file held: its two commands, and that it is
/// required.
pub proof fn law_the_driver_is_set_and_required(existing: &str, out: Installation)
    requires
        call_ensures(install_filter, (existing,), out),
    ensures
        out.config@.len() == 3,
        out.config@[0].0@ == "filter.cryptenv.clean"@,
        out.config@[0].1@ == "cryptenv git-clean %f"@,
        out.config@[1].0@ == "filter.cryptenv.smudge"@,
        out.config@[1].1@ == "cryptenv git-smudge %f"@,
        out.config@[2].0@ == "filter.cryptenv.required"@,
        out.config@[2].1@ == "true"@,
{
    let told = out.config@.map_values(|pair: (String, String)| (pair.0@, pair.1@));
    assert(told.len() == 3);
    assert(told[0] == (out.config@[0].0@, out.config@[0].1@));
    assert(told[1] == (out.config@[1].0@, out.config@[1].1@));
    assert(told[2] == (out.config@[2].0@, out.config@[2].1@));
}

} // verus!
