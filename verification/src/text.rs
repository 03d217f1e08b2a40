//! Text files taken apart line by line.

use vstd::prelude::*;

verus! {

/// Appends one character to a string.
pub assume_specification[ String::push ](s: &mut String, c: char)
    ensures
        final(s)@ == old(s)@.push(c),
;

/// The characters that Unicode gives the `White_Space` property.
pub open spec fn is_white_space(c: char) -> bool {
    let n = c as u32;
    ||| 0x9 <= n <= 0xd
    ||| n == 0x20
    ||| n == 0x85
    ||| n == 0xa0
    ||| n == 0x1680
    ||| 0x2000 <= n <= 0x200a
    ||| n == 0x2028
    ||| n == 0x2029
    ||| n == 0x202f
    ||| n == 0x205f
    ||| n == 0x3000
}

/// `s` without its leading white space.
pub open spec fn trim_start(s: Seq<char>) -> Seq<char>
    decreases s.len(),
{
    if s.len() > 0 && is_white_space(s.first()) {
        trim_start(s.drop_first())
    } else {
        s
    }
}

/// `s` without its trailing white space.
pub open spec fn trim_end(s: Seq<char>) -> Seq<char>
    decreases s.len(),
{
    if s.len() > 0 && is_white_space(s.last()) {
        trim_end(s.drop_last())
    } else {
        s
    }
}

/// `s` without its leading and trailing white space.
pub open spec fn trim(s: Seq<char>) -> Seq<char> {
    trim_end(trim_start(s))
}

/// How many characters stand before the first newline of `s`, or in all of `s` if it has
/// none.
pub open spec fn before_newline(s: Seq<char>) -> nat
    decreases s.len(),
{
    if s.len() == 0 || s.first() == '\n' {
        0
    } else {
        1 + before_newline(s.drop_first())
    }
}

/// `s` without one carriage return at its end.
pub open spec fn strip_cr(s: Seq<char>) -> Seq<char> {
    if s.len() > 0 && s.last() == '\r' {
        s.drop_last()
    } else {
        s
    }
}

/// `s` without any carriage return at its end.
pub open spec fn strip_crs(s: Seq<char>) -> Seq<char>
    decreases s.len(),
{
    if s.len() > 0 && s.last() == '\r' {
        strip_crs(s.drop_last())
    } else {
        s
    }
}

/// The lines of `s`. A newline ends a line, with or without a carriage return before it;
/// what follows the last newline is a line only if it is not empty.
pub open spec fn lines(s: Seq<char>) -> Seq<Seq<char>>
    decreases s.len(),
{
    let n = before_newline(s) as int;
    if s.len() == 0 {
        Seq::empty()
    } else if n < s.len() {
        seq![strip_cr(s.take(n))] + lines(s.skip(n + 1))
    } else {
        seq![s]
    }
}

/// The text of `parts`, each ended by a newline.
pub open spec fn unlines(parts: Seq<Seq<char>>) -> Seq<char>
    decreases parts.len(),
{
    if parts.len() == 0 {
        Seq::empty()
    } else {
        unlines(parts.drop_last()) + parts.last().push('\n')
    }
}

/// Whether a trimmed line holds a value: it is not blank and not a `#` comment.
pub open spec fn holds_value(line: Seq<char>) -> bool {
    line.len() > 0 && line.first() != '#'
}

/// The values that `lines` hold, trimmed, in order.
pub open spec fn values_of(lines: Seq<Seq<char>>) -> Seq<Seq<char>>
    decreases lines.len(),
{
    if lines.len() == 0 {
        Seq::empty()
    } else {
        let rest = values_of(lines.drop_last());
        let last = trim(lines.last());
        if holds_value(last) {
            rest.push(last)
        } else {
            rest
        }
    }
}

/// The values that the text `s` holds: its trimmed lines, in order, without blank lines
/// and `#` comments.
pub open spec fn values(s: Seq<char>) -> Seq<Seq<char>> {
    values_of(lines(s))
}

/// The views of a list of strings.
pub open spec fn texts(list: Seq<String>) -> Seq<Seq<char>> {
    list.map_values(|s: String| s@)
}

/// The views of a list of character vectors.
pub open spec fn char_rows(list: Seq<Vec<char>>) -> Seq<Seq<char>> {
    list.map_values(|row: Vec<char>| row@)
}

pub(crate) proof fn lemma_before_newline(s: Seq<char>, n: int)
    requires
        0 <= n <= s.len(),
        forall|i: int| 0 <= i < n ==> s[i] != '\n',
        n < s.len() ==> s[n] == '\n',
    ensures
        before_newline(s) == n,
    decreases s.len(),
{
    if n > 0 {
        let rest = s.drop_first();
        assert(forall|i: int| 0 <= i < n - 1 ==> rest[i] == s[i + 1]);
        assert(n < s.len() ==> rest[n - 1] == s[n]);
        lemma_before_newline(rest, n - 1);
    }
}

pub(crate) proof fn lemma_trim_start_skip(s: Seq<char>, n: int)
    requires
        0 <= n <= s.len(),
        forall|i: int| 0 <= i < n ==> is_white_space(s[i]),
        n < s.len() ==> !is_white_space(s[n]),
    ensures
        trim_start(s) == s.skip(n),
    decreases n,
{
    if n == 0 {
        assert(s.skip(0) == s);
    } else {
        let rest = s.drop_first();
        assert(forall|i: int| 0 <= i < n - 1 ==> rest[i] == s[i + 1]);
        assert(n < s.len() ==> rest[n - 1] == s[n]);
        lemma_trim_start_skip(rest, n - 1);
        assert(rest.skip(n - 1) == s.skip(n));
    }
}

pub(crate) proof fn lemma_trim_end_take(s: Seq<char>, n: int)
    requires
        0 <= n <= s.len(),
        forall|i: int| n <= i < s.len() ==> is_white_space(s[i]),
        n > 0 ==> !is_white_space(s[n - 1]),
    ensures
        trim_end(s) == s.take(n),
    decreases s.len(),
{
    if n == s.len() {
        assert(s.take(n) == s);
    } else {
        let rest = s.drop_last();
        lemma_trim_end_take(rest, n);
        assert(rest.take(n) == s.take(n));
    }
}

/// Whether `s` holds no newline.
pub open spec fn one_line(s: Seq<char>) -> bool {
    forall|i: int| 0 <= i < s.len() ==> s[i] != '\n'
}

pub(crate) proof fn lemma_before_newline_bounds(s: Seq<char>)
    ensures
        before_newline(s) <= s.len(),
        before_newline(s) < s.len() ==> s[before_newline(s) as int] == '\n',
        one_line(s.take(before_newline(s) as int)),
    decreases s.len(),
{
    if s.len() > 0 && s.first() != '\n' {
        let rest = s.drop_first();
        let n = before_newline(s) as int;
        lemma_before_newline_bounds(rest);
        assert forall|i: int| 0 <= i < n implies s.take(n)[i] != '\n' by {
            if i > 0 {
                assert(rest.take(n - 1)[i - 1] == s[i]);
            }
        }
    }
}

/// No line of a text holds a newline.
pub(crate) proof fn lemma_lines_are_one_line(s: Seq<char>)
    ensures
        forall|i: int| 0 <= i < lines(s).len() ==> one_line(#[trigger] lines(s)[i]),
    decreases s.len(),
{
    let n = before_newline(s) as int;
    lemma_before_newline_bounds(s);
    if s.len() > 0 && n < s.len() {
        lemma_lines_are_one_line(s.skip(n + 1));
        assert forall|i: int| 0 <= i < lines(s).len() implies one_line(#[trigger] lines(s)[i]) by {
            if i > 0 {
                assert(lines(s)[i] == lines(s.skip(n + 1))[i - 1]);
            }
        }
    } else if s.len() > 0 {
        assert(s.take(n) == s);
    }
}

/// Text that ends a line and text after it have their lines one after the other.
pub(crate) proof fn lemma_lines_concat(a: Seq<char>, b: Seq<char>)
    requires
        a.len() > 0 ==> a.last() == '\n',
    ensures
        lines(a + b) == lines(a) + lines(b),
    decreases a.len(),
{
    if a.len() == 0 {
        assert(a + b == b);
        assert(lines(a) + lines(b) == lines(b));
    } else {
        let n = before_newline(a) as int;
        lemma_before_newline_bounds(a);
        if n == a.len() {
            assert(a.take(n)[a.len() - 1] == '\n');
        }
        let whole = a + b;
        assert forall|i: int| 0 <= i < n implies whole[i] != '\n' by {
            assert(a.take(n)[i] == whole[i]);
        }
        lemma_before_newline(whole, n);
        assert(whole.take(n) == a.take(n));
        assert(whole.skip(n + 1) == a.skip(n + 1) + b);
        lemma_lines_concat(a.skip(n + 1), b);
        let head = seq![strip_cr(a.take(n))];
        assert(head + (lines(a.skip(n + 1)) + lines(b)) == (head + lines(a.skip(n + 1))) + lines(
            b,
        ));
    }
}

/// Reading lines back from the text made of them gives the same lines, a carriage return
/// at the end of each aside.
pub(crate) proof fn lemma_lines_unlines(parts: Seq<Seq<char>>)
    requires
        forall|i: int| 0 <= i < parts.len() ==> one_line(#[trigger] parts[i]),
    ensures
        lines(unlines(parts)) == parts.map_values(|s: Seq<char>| strip_cr(s)),
        parts.len() > 0 ==> unlines(parts).len() > 0 && unlines(parts).last() == '\n',
    decreases parts.len(),
{
    let strip = |s: Seq<char>| strip_cr(s);
    if parts.len() > 0 {
        let rest = parts.drop_last();
        let last = parts.last();
        let line = last.push('\n');
        lemma_lines_unlines(rest);
        lemma_lines_concat(unlines(rest), line);
        lemma_before_newline(line, last.len() as int);
        assert(line.take(last.len() as int) == last);
        let after = line.skip(last.len() as int + 1);
        assert(lines(after) == Seq::<Seq<char>>::empty());
        assert(seq![strip_cr(last)] + lines(after) == seq![strip_cr(last)]);
        assert(lines(line) == seq![strip_cr(last)]);
        assert(parts.map_values(strip) == rest.map_values(strip).push(strip_cr(last)));
        assert(rest.map_values(strip) + seq![strip_cr(last)] == rest.map_values(strip).push(
            strip_cr(last),
        ));
    } else {
        assert(lines(unlines(parts)) == parts.map_values(strip));
    }
}

/// White space at the end of a text does not change what trimming leaves of it.
pub(crate) proof fn lemma_trim_drop_last(s: Seq<char>)
    requires
        s.len() > 0,
        is_white_space(s.last()),
    ensures
        trim(s.drop_last()) == trim(s),
    decreases s.len(),
{
    if is_white_space(s.first()) {
        if s.len() > 1 {
            lemma_trim_drop_last(s.drop_first());
            assert(s.drop_first().drop_last() == s.drop_last().drop_first());
        } else {
            assert(s.drop_first() == s.drop_last());
        }
    }
}

pub(crate) proof fn lemma_trim_strip_cr(s: Seq<char>)
    ensures
        trim(strip_cr(s)) == trim(s),
{
    if s.len() > 0 && s.last() == '\r' {
        lemma_trim_drop_last(s);
    }
}

pub(crate) proof fn lemma_strip_crs(s: Seq<char>)
    ensures
        strip_cr(strip_crs(s)) == strip_crs(s),
        strip_crs(strip_crs(s)) == strip_crs(s),
        trim(strip_crs(s)) == trim(s),
        one_line(s) ==> one_line(strip_crs(s)),
        strip_cr(s) == s ==> strip_crs(s) == s,
    decreases s.len(),
{
    if s.len() > 0 && s.last() == '\r' {
        lemma_strip_crs(s.drop_last());
        lemma_trim_drop_last(s);
        assert(s.drop_last().len() != s.len());
    }
}

/// Text with no white space at either end is what trimming leaves of it.
pub(crate) proof fn lemma_trim_of_trimmed(s: Seq<char>)
    requires
        s.len() > 0 ==> !is_white_space(s.first()) && !is_white_space(s.last()),
    ensures
        trim(s) == s,
{
}

pub(crate) proof fn lemma_values_of_concat(a: Seq<Seq<char>>, b: Seq<Seq<char>>)
    ensures
        values_of(a + b) == values_of(a) + values_of(b),
    decreases b.len(),
{
    if b.len() == 0 {
        assert(a + b == a);
        assert(values_of(a) + values_of(b) == values_of(a));
    } else {
        let last = trim(b.last());
        let rest = values_of(b.drop_last());
        lemma_values_of_concat(a, b.drop_last());
        assert((a + b).drop_last() == a + b.drop_last());
        assert((a + b).last() == b.last());
        assert(values_of(a) + rest.push(last) == (values_of(a) + rest).push(last));
    }
}

/// Whether `s` can stand as a value on a line: it has no newline and no white space at its
/// ends, and is not a comment.
pub open spec fn is_value(s: Seq<char>) -> bool {
    &&& holds_value(s)
    &&& one_line(s)
    &&& !is_white_space(s.first())
    &&& !is_white_space(s.last())
}

proof fn lemma_trim_start_of_line(s: Seq<char>)
    requires
        one_line(s),
    ensures
        one_line(trim_start(s)),
        trim_start(s).len() > 0 ==> !is_white_space(trim_start(s).first()),
    decreases s.len(),
{
    if s.len() > 0 && is_white_space(s.first()) {
        lemma_trim_start_of_line(s.drop_first());
    }
}

proof fn lemma_trim_end_of_line(s: Seq<char>)
    requires
        one_line(s),
    ensures
        one_line(trim_end(s)),
        trim_end(s).len() > 0 ==> !is_white_space(trim_end(s).last()),
        trim_end(s).len() > 0 ==> trim_end(s).first() == s.first(),
    decreases s.len(),
{
    if s.len() > 0 && is_white_space(s.last()) {
        lemma_trim_end_of_line(s.drop_last());
    }
}

proof fn lemma_values_of_are_values(rows: Seq<Seq<char>>)
    requires
        forall|i: int| 0 <= i < rows.len() ==> one_line(#[trigger] rows[i]),
    ensures
        forall|i: int| 0 <= i < values_of(rows).len() ==> is_value(#[trigger] values_of(rows)[i]),
    decreases rows.len(),
{
    if rows.len() > 0 {
        lemma_values_of_are_values(rows.drop_last());
        assert(one_line(rows[rows.len() - 1]));
        lemma_trim_start_of_line(rows.last());
        lemma_trim_end_of_line(trim_start(rows.last()));
        let before = values_of(rows.drop_last());
        assert forall|i: int| 0 <= i < values_of(rows).len() implies is_value(
            #[trigger] values_of(rows)[i],
        ) by {
            if i < before.len() {
                assert(is_value(before[i]));
            } else {
                assert(is_value(trim(rows.last())));
            }
        }
    }
}

/// Nothing but values is read from a text: no blank, no comment, no white space around one.
pub proof fn law_only_values_are_read(s: Seq<char>)
    ensures
        forall|i: int| 0 <= i < values(s).len() ==> is_value(#[trigger] values(s)[i]),
{
    lemma_lines_are_one_line(s);
    lemma_values_of_are_values(lines(s));
}

/// A blank line or a comment makes no difference, wherever it stands.
pub proof fn law_blanks_and_comments_are_ignored(
    before: Seq<char>,
    line: Seq<char>,
    after: Seq<char>,
)
    requires
        before.len() > 0 ==> before.last() == '\n',
        one_line(line),
        !holds_value(trim(line)),
    ensures
        values(before + (line.push('\n') + after)) == values(before + after),
{
    let row = line.push('\n');
    let only = seq![line];
    reveal_with_fuel(unlines, 2);
    assert(only.drop_last() == Seq::<Seq<char>>::empty());
    assert(unlines(only) == row);
    lemma_lines_unlines(only);
    assert(lines(row) == seq![strip_cr(line)]);
    lemma_trim_strip_cr(line);
    reveal_with_fuel(values_of, 2);
    assert(lines(row).drop_last() == Seq::<Seq<char>>::empty());
    assert(values_of(lines(row)) == Seq::<Seq<char>>::empty());
    lemma_lines_concat(row, after);
    lemma_lines_concat(before, row + after);
    lemma_lines_concat(before, after);
    lemma_values_of_concat(lines(row), lines(after));
    lemma_values_of_concat(lines(before), lines(row) + lines(after));
    lemma_values_of_concat(lines(before), lines(after));
    assert(values_of(lines(row)) + values_of(lines(after)) == values_of(lines(after)));
}

proof fn lemma_values_of_values(list: Seq<Seq<char>>)
    requires
        forall|i: int| 0 <= i < list.len() ==> is_value(#[trigger] list[i]),
    ensures
        values_of(list) == list,
    decreases list.len(),
{
    if list.len() > 0 {
        assert(is_value(list[list.len() - 1]));
        lemma_trim_of_trimmed(list.last());
        lemma_values_of_values(list.drop_last());
        assert(list.drop_last().push(list.last()) == list);
    }
}

/// Values that are written one per line are read back, in their order.
pub proof fn law_values_are_read_back(list: Seq<Seq<char>>)
    requires
        forall|i: int| 0 <= i < list.len() ==> is_value(#[trigger] list[i]),
    ensures
        values(unlines(list)) == list,
{
    lemma_lines_unlines(list);
    assert forall|i: int| 0 <= i < list.len() implies strip_cr(#[trigger] list[i]) == list[i] by {
        assert(is_value(list[i]));
    }
    assert(lines(unlines(list)) == list);
    lemma_values_of_values(list);
}

/// Whether `c` is white space.
pub fn white_space(c: char) -> (r: bool)
    ensures
        r == is_white_space(c),
{
    let n: u32 = c as u32;
    (0x9 <= n && n <= 0xd) || n == 0x20 || n == 0x85 || n == 0xa0 || n == 0x1680 || (0x2000 <= n
        && n <= 0x200a) || n == 0x2028 || n == 0x2029 || n == 0x202f || n == 0x205f || n == 0x3000
}

/// The characters of `text`.
pub(crate) fn chars_of(text: &str) -> (out: Vec<char>)
    ensures
        out@ == text@,
{
    let mut out: Vec<char> = Vec::new();
    for c in it: text.chars()
        invariant
            out@ == it.seq().take(it.index()),
            it.seq() == text@,
    {
        out.push(c);
    }
    assert(text@.take(text@.len() as int) == text@);
    out
}

/// The string made of `chars`.
pub(crate) fn string_of(chars: &[char]) -> (out: String)
    ensures
        out@ == chars@,
{
    let mut out = String::new();
    let mut i: usize = 0;
    while i < chars.len()
        invariant
            i <= chars.len(),
            out@ == chars@.take(i as int),
        decreases chars.len() - i,
    {
        out.push(chars[i]);
        i += 1;
        assert(chars@.take(i as int) == chars@.take(i - 1).push(chars@[i - 1]));
    }
    assert(chars@.take(i as int) == chars@);
    out
}

/// `chars` without the white space around it.
pub(crate) fn trimmed(chars: &[char]) -> (out: &[char])
    ensures
        out@ == trim(chars@),
{
    let mut from: usize = 0;
    while from < chars.len() && white_space(chars[from])
        invariant
            from <= chars.len(),
            forall|i: int| 0 <= i < from ==> is_white_space(chars@[i]),
        decreases chars.len() - from,
    {
        from += 1;
    }
    let mut to: usize = chars.len();
    while to > from && white_space(chars[to - 1])
        invariant
            from <= to <= chars.len(),
            forall|i: int| to <= i < chars.len() ==> is_white_space(chars@[i]),
        decreases to,
    {
        to -= 1;
    }
    proof {
        lemma_trim_start_skip(chars@, from as int);
        let rest = chars@.skip(from as int);
        lemma_trim_end_take(rest, to - from);
        assert(rest.take(to - from) == chars@.subrange(from as int, to as int));
    }
    vstd::slice::slice_subrange(chars, from, to)
}

/// The lines of `text`.
pub(crate) fn split_lines(text: &str) -> (out: Vec<Vec<char>>)
    ensures
        char_rows(out@) == lines(text@),
{
    let chars = chars_of(text);
    let mut out: Vec<Vec<char>> = Vec::new();
    let mut start: usize = 0;
    let mut i: usize = 0;
    proof {
        assert(text@.skip(0) == text@);
    }
    while i < chars.len()
        invariant
            chars@ == text@,
            start <= i <= chars.len(),
            forall|j: int| start <= j < i ==> chars@[j] != '\n',
            lines(text@) == char_rows(out@) + lines(chars@.skip(start as int)),
        decreases chars.len() - i,
    {
        if chars[i] == '\n' {
            let end: usize = if i > start && chars[i - 1] == '\r' {
                i - 1
            } else {
                i
            };
            let row = vstd::slice::slice_to_vec(
                vstd::slice::slice_subrange(chars.as_slice(), start, end),
            );
            proof {
                let rest = chars@.skip(start as int);
                let n = i - start;
                assert(forall|j: int| 0 <= j < n ==> rest[j] == chars@[start + j]);
                assert(rest[n] == chars@[i as int]);
                lemma_before_newline(rest, n);
                assert(rest.skip(n + 1) == chars@.skip(i + 1));
                assert(rest.take(n) == chars@.subrange(start as int, i as int));
                assert(strip_cr(rest.take(n)) == row@);
                assert(char_rows(out@.push(row)) == char_rows(out@).push(row@));
                assert(char_rows(out@) + (seq![row@] + lines(chars@.skip(i + 1))) == char_rows(
                    out@,
                ).push(row@) + lines(chars@.skip(i + 1)));
            }
            out.push(row);
            start = i + 1;
        }
        i += 1;
    }
    let ghost rest = chars@.skip(start as int);
    if start < chars.len() {
        let row = vstd::slice::slice_to_vec(
            vstd::slice::slice_subrange(chars.as_slice(), start, chars.len()),
        );
        proof {
            assert(forall|j: int| 0 <= j < rest.len() ==> rest[j] == chars@[start + j]);
            lemma_before_newline(rest, rest.len() as int);
            assert(row@ == rest);
            assert(char_rows(out@.push(row)) == char_rows(out@) + seq![row@]);
        }
        out.push(row);
    } else {
        proof {
            assert(rest.len() == 0);
            assert(lines(text@) == char_rows(out@));
        }
    }
    out
}

/// `chars` without any carriage return at its end.
pub(crate) fn without_crs(chars: &[char]) -> (out: Vec<char>)
    ensures
        out@ == strip_crs(chars@),
{
    let mut n: usize = chars.len();
    assert(chars@.take(n as int) == chars@);
    while n > 0 && chars[n - 1] == '\r'
        invariant
            n <= chars.len(),
            strip_crs(chars@.take(n as int)) == strip_crs(chars@),
        decreases n,
    {
        assert(chars@.take(n as int).drop_last() == chars@.take(n - 1));
        n -= 1;
    }
    assert(chars@.take(n as int) == chars@.subrange(0, n as int));
    vstd::slice::slice_to_vec(vstd::slice::slice_subrange(chars, 0, n))
}

/// The values that `text` holds, one per line: every line is trimmed, and blank lines and
/// `#` comments are left out.
pub fn values_in(text: &str) -> (out: Vec<String>)
    ensures
        texts(out@) == values(text@),
{
    let rows = split_lines(text);
    let mut out: Vec<String> = Vec::new();
    let mut i: usize = 0;
    while i < rows.len()
        invariant
            i <= rows.len(),
            texts(out@) == values_of(char_rows(rows@).take(i as int)),
        decreases rows.len() - i,
    {
        let ghost upto = char_rows(rows@).take(i + 1);
        let line = trimmed(rows[i].as_slice());
        proof {
            assert(upto.drop_last() == char_rows(rows@).take(i as int));
            assert(upto.last() == rows@[i as int]@);
        }
        if line.len() > 0 && line[0] != '#' {
            let value = string_of(line);
            proof {
                assert(texts(out@.push(value)) == texts(out@).push(value@));
            }
            out.push(value);
        }
        i += 1;
    }
    proof {
        assert(char_rows(rows@).take(i as int) == char_rows(rows@));
    }
    out
}

/// The text of `rows`, each ended by a newline.
pub(crate) fn join_lines(rows: &Vec<Vec<char>>) -> (out: String)
    ensures
        out@ == unlines(char_rows(rows@)),
{
    let mut out = String::new();
    let mut i: usize = 0;
    while i < rows.len()
        invariant
            i <= rows.len(),
            out@ == unlines(char_rows(rows@).take(i as int)),
        decreases rows.len() - i,
    {
        let ghost upto = char_rows(rows@).take(i + 1);
        let line = string_of(rows[i].as_slice());
        out.append(line.as_str());
        out.push('\n');
        proof {
            assert(upto.drop_last() == char_rows(rows@).take(i as int));
            assert(upto.last() == rows@[i as int]@);
            assert(out@ == unlines(upto));
        }
        i += 1;
    }
    proof {
        assert(char_rows(rows@).take(i as int) == char_rows(rows@));
    }
    out
}

} // verus!
