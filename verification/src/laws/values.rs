//! Laws of text that is read line by line.

use crate::paths::parse_recipients_file;
use crate::text::{
    is_white_space, lemma_before_newline, lemma_lines_concat, lemma_lines_unlines,
    lemma_trim_end_take, lemma_trim_start_skip, lemma_trim_strip_cr, lemma_values_of_concat, lines,
    one_line, strip_cr, trim, trim_start, unlines, values, values_in, values_of, white_space,
};
use crate::laws::armor::lemma_texts;
use vstd::prelude::*;

verus! {

/// The characters that count as white space.
pub proof fn law_white_space(c: char, r: bool)
    requires
        call_ensures(white_space, (c,), r),
    ensures
        r <==> {
            ||| 0x9 <= c as u32 <= 0xd
            ||| c as u32 == 0x20
            ||| c as u32 == 0x85
            ||| c as u32 == 0xa0
            ||| c as u32 == 0x1680
            ||| 0x2000 <= c as u32 <= 0x200a
            ||| c as u32 == 0x2028
            ||| c as u32 == 0x2029
            ||| c as u32 == 0x202f
            ||| c as u32 == 0x205f
            ||| c as u32 == 0x3000
        },
        r == is_white_space(c),
{
}

/// Trimming leaves what stands between the white space at the two ends, and all of it.
pub proof fn law_trimming_takes_off_white_space(
    front: Seq<char>,
    text: Seq<char>,
    back: Seq<char>,
)
    requires
        forall|i: int| 0 <= i < front.len() ==> is_white_space(#[trigger] front[i]),
        forall|i: int| 0 <= i < back.len() ==> is_white_space(#[trigger] back[i]),
        text.len() > 0 ==> !is_white_space(text.first()) && !is_white_space(text.last()),
    ensures
        trim(front + text + back) == text,
{
    let whole = front + text + back;
    if text.len() == 0 {
        assert forall|i: int| 0 <= i < whole.len() implies is_white_space(whole[i]) by {
            if i < front.len() {
                assert(whole[i] == front[i]);
            } else {
                assert(whole[i] == back[i - front.len()]);
            }
        }
        lemma_trim_start_skip(whole, whole.len() as int);
        assert(trim_start(whole).len() == 0);
        assert(trim(whole) == text);
    } else {
        let n = front.len() as int;
        assert(forall|i: int| 0 <= i < n ==> whole[i] == front[i]);
        assert(whole[n] == text[0]);
        lemma_trim_start_skip(whole, n);
        let rest = whole.skip(n);
        assert(rest == text + back);
        assert forall|i: int| text.len() <= i < rest.len() implies is_white_space(rest[i]) by {
            assert(rest[i] == back[i - text.len()]);
        }
        assert(rest[text.len() - 1] == text.last());
        lemma_trim_end_take(rest, text.len() as int);
        assert(rest.take(text.len() as int) == text);
    }
}

/// A newline ends a line, with the carriage return in front of it; the text behind it has
/// its lines behind that one.
pub proof fn law_a_newline_ends_a_line(line: Seq<char>, rest: Seq<char>)
    requires
        forall|i: int| 0 <= i < line.len() ==> #[trigger] line[i] != '\n',
    ensures
        line.len() > 0 && line.last() == '\r' ==> lines(line + seq!['\n'] + rest) == seq![
            line.drop_last(),
        ] + lines(rest),
        line.len() == 0 || line.last() != '\r' ==> lines(line + seq!['\n'] + rest) == seq![line]
            + lines(rest),
{
    let row = line.push('\n');
    lemma_row(line);
    lemma_lines_concat(row, rest);
    assert(line + seq!['\n'] + rest == row + rest);
}

proof fn lemma_row(line: Seq<char>)
    requires
        forall|i: int| 0 <= i < line.len() ==> #[trigger] line[i] != '\n',
    ensures
        lines(line.push('\n')) == seq![strip_cr(line)],
{
    let only = seq![line];
    reveal_with_fuel(unlines, 2);
    assert(only.drop_last() == Seq::<Seq<char>>::empty());
    assert(unlines(only) == line.push('\n'));
    assert(one_line(line));
    lemma_lines_unlines(only);
    assert(lines(line.push('\n')) == seq![strip_cr(line)]);
}

/// Text without a newline is one line, or none where there is no text.
pub proof fn law_text_without_newline_is_one_line(text: Seq<char>)
    requires
        forall|i: int| 0 <= i < text.len() ==> #[trigger] text[i] != '\n',
    ensures
        text.len() > 0 ==> lines(text) == seq![text],
        text.len() == 0 ==> lines(text).len() == 0,
{
    lemma_before_newline(text, text.len() as int);
}

/// The first line of a text holds at most one value, which is what is left of it without the
/// white space around it, unless that is nothing or a comment; the values of the text behind
/// it follow.
pub proof fn law_values_are_read_line_by_line(
    text: &str,
    front: Seq<char>,
    value: Seq<char>,
    back: Seq<char>,
    rest: &str,
    of_text: Vec<String>,
    of_rest: Vec<String>,
)
    requires
        call_ensures(values_in, (text,), of_text),
        call_ensures(values_in, (rest,), of_rest),
        text@ == front + value + back + seq!['\n'] + rest@,
        forall|i: int|
            0 <= i < (front + value + back).len() ==> #[trigger] (front + value + back)[i] != '\n',
        forall|i: int| 0 <= i < front.len() ==> is_white_space(#[trigger] front[i]),
        forall|i: int| 0 <= i < back.len() ==> is_white_space(#[trigger] back[i]),
        value.len() > 0 ==> !is_white_space(value.first()) && !is_white_space(value.last()),
    ensures
        value.len() == 0 || value[0] == '#' ==> of_text@.len() == of_rest@.len() && forall|i: int|
            0 <= i < of_rest@.len() ==> (#[trigger] of_rest@[i])@ == of_text@[i]@,
        value.len() > 0 && value[0] != '#' ==> of_text@.len() == of_rest@.len() + 1
            && of_text@[0]@ == value && forall|i: int|
            0 <= i < of_rest@.len() ==> (#[trigger] of_rest@[i])@ == of_text@[i + 1]@,
{
    let line = front + value + back;
    let row = line.push('\n');
    lemma_texts(of_text@);
    lemma_texts(of_rest@);
    lemma_row(line);
    lemma_trim_strip_cr(line);
    law_trimming_takes_off_white_space(front, value, back);
    lemma_lines_concat(row, rest@);
    assert(text@ == row + rest@);
    lemma_values_of_concat(lines(row), lines(rest@));
    lemma_one_row(strip_cr(line));
    assert(values(text@) == values_of(lines(row)) + values(rest@));
}

proof fn lemma_one_row(line: Seq<char>)
    ensures
        trim(line).len() > 0 && trim(line)[0] != '#' ==> values_of(seq![line]) == seq![trim(line)],
        trim(line).len() == 0 || trim(line)[0] == '#' ==> values_of(seq![line]).len() == 0,
{
    reveal_with_fuel(values_of, 2);
    assert(seq![line].drop_last() == Seq::<Seq<char>>::empty());
    assert(values_of(Seq::<Seq<char>>::empty()) == Seq::<Seq<char>>::empty());
    assert(Seq::<Seq<char>>::empty().push(trim(line)) == seq![trim(line)]);
}

/// Text without a newline holds at most one value.
pub proof fn law_the_last_line_holds_a_value(
    text: &str,
    front: Seq<char>,
    value: Seq<char>,
    back: Seq<char>,
    of_text: Vec<String>,
)
    requires
        call_ensures(values_in, (text,), of_text),
        text@ == front + value + back,
        forall|i: int| 0 <= i < text@.len() ==> #[trigger] text@[i] != '\n',
        forall|i: int| 0 <= i < front.len() ==> is_white_space(#[trigger] front[i]),
        forall|i: int| 0 <= i < back.len() ==> is_white_space(#[trigger] back[i]),
        value.len() > 0 ==> !is_white_space(value.first()) && !is_white_space(value.last()),
    ensures
        value.len() == 0 || value[0] == '#' ==> of_text@.len() == 0,
        value.len() > 0 && value[0] != '#' ==> of_text@.len() == 1 && of_text@[0]@ == value,
{
    lemma_texts(of_text@);
    law_text_without_newline_is_one_line(text@);
    law_trimming_takes_off_white_space(front, value, back);
    if text@.len() > 0 {
        lemma_one_row(text@);
        assert(values(text@) == values_of(seq![text@]));
    } else {
        assert(lines(text@) == Seq::<Seq<char>>::empty());
    }
}

/// The recipients that a file names are the values that it holds.
pub proof fn law_recipients_are_values(contents: &str, recipients: Vec<String>, held: Vec<String>)
    requires
        call_ensures(parse_recipients_file, (contents,), recipients),
        call_ensures(values_in, (contents,), held),
    ensures
        recipients@.len() == held@.len(),
        forall|i: int| 0 <= i < held@.len() ==> (#[trigger] recipients@[i])@ == held@[i]@,
{
    lemma_texts(recipients@);
    lemma_texts(held@);
}

/// Parts are put together one after the other, each with a newline behind it.
pub proof fn law_parts_are_put_together(parts: Seq<Seq<char>>, part: Seq<char>)
    ensures
        unlines(Seq::empty()).len() == 0,
        unlines(parts.push(part)) == unlines(parts) + part + seq!['\n'],
{
    let all = parts.push(part);
    assert(all.drop_last() == parts);
    assert(all.last() == part);
    assert(unlines(parts) + part.push('\n') == unlines(parts) + part + seq!['\n']);
}

} // verus!
