//! Lines and white space.
use vstd::prelude::*;

use crate::text::{characters, texts_view};

verus! {

/// Whether a character has the Unicode property White_Space.
pub open spec fn is_white_space(c: char) -> bool {
    let code = c as u32 as int;
    ||| 0x9 <= code <= 0xd
    ||| code == 0x20
    ||| code == 0x85
    ||| code == 0xa0
    ||| code == 0x1680
    ||| 0x2000 <= code <= 0x200a
    ||| code == 0x2028
    ||| code == 0x2029
    ||| code == 0x202f
    ||| code == 0x205f
    ||| code == 0x3000
}

/// Whether a text is white space throughout.
pub open spec fn is_blank(text: Seq<char>) -> bool {
    forall|i: int| 0 <= i < text.len() ==> is_white_space(#[trigger] text[i])
}

/// A text without the white space at its end.
pub open spec fn trimmed_end(text: Seq<char>) -> Seq<char>
    decreases text.len(),
{
    if text.len() > 0 && is_white_space(text.last()) {
        trimmed_end(text.drop_last())
    } else {
        text
    }
}

/// Whether a character has the Unicode property White_Space.
pub fn white_space(character: char) -> (holds: bool)
    ensures
        holds == is_white_space(character),
{
    let code: u32 = character as u32;
    (0x9 <= code && code <= 0xd) || code == 0x20 || code == 0x85 || code == 0xa0 || code == 0x1680
        || (0x2000 <= code && code <= 0x200a) || code == 0x2028 || code == 0x2029 || code == 0x202f
        || code == 0x205f || code == 0x3000
}

/// Whether a text is white space throughout.
pub fn blank(text: &str) -> (holds: bool)
    ensures
        holds == is_blank(text@),
{
    for character in iter: text.chars()
        invariant
            iter.seq() == text@,
            forall|i: int| 0 <= i < iter.index() ==> is_white_space(#[trigger] text@[i]),
    {
        assert(text@[iter.index() as int] == character);
        if !white_space(character) {
            return false;
        }
    }
    true
}

/// A text without the white space at its end.
pub fn trim_end(text: &str) -> (trimmed: String)
    ensures
        trimmed@ == trimmed_end(text@),
{
    let chars: Vec<char> = characters(text);
    let mut length: usize = chars.len();
    proof {
        assert(text@.take(length as int) =~= text@);
    }
    while length > 0 && white_space(chars[length - 1])
        invariant
            chars@ == text@,
            length <= text@.len(),
            trimmed_end(text@.take(length as int)) == trimmed_end(text@),
        decreases length,
    {
        proof {
            assert(text@.take(length as int).drop_last() =~= text@.take(length - 1));
        }
        length = length - 1;
    }
    proof {
        assert(text@.subrange(0, length as int) =~= text@.take(length as int));
    }
    text.substring_char(0, length).to_owned()
}

/// How many characters stand before the first line end.
pub open spec fn line_length(text: Seq<char>) -> int
    decreases text.len(),
{
    if text.len() == 0 || text[0] == '\n' {
        0
    } else {
        1 + line_length(text.drop_first())
    }
}

/// A line without the carriage return at its end.
pub open spec fn without_return(line: Seq<char>) -> Seq<char> {
    if line.len() > 0 && line.last() == '\r' {
        line.drop_last()
    } else {
        line
    }
}

/// The lines of a text. Each but the last ends in a line end, with or without a carriage return
/// before it; no empty line follows the last line end.
pub open spec fn lines_of(text: Seq<char>) -> Seq<Seq<char>>
    decreases text.len(),
{
    let length = line_length(text);
    if text.len() == 0 {
        Seq::empty()
    } else if length < 0 || length >= text.len() {
        seq![text]
    } else {
        seq![without_return(text.take(length))] + lines_of(text.skip(length + 1))
    }
}

proof fn lemma_line_length(text: Seq<char>, length: int)
    requires
        0 <= length <= text.len(),
        forall|i: int| 0 <= i < length ==> #[trigger] text[i] != '\n',
        length < text.len() ==> text[length] == '\n',
    ensures
        line_length(text) == length,
    decreases text.len(),
{
    if text.len() > 0 && text[0] != '\n' {
        let rest = text.drop_first();
        assert forall|i: int| 0 <= i < length - 1 implies #[trigger] rest[i] != '\n' by {
            assert(rest[i] == text[i + 1]);
        }
        lemma_line_length(rest, length - 1);
    } else if text.len() > 0 && length > 0 {
        assert(text[0] != '\n');
    }
}

/// The lines of a text.
pub fn lines(text: &str) -> (lines: Vec<String>)
    ensures
        texts_view(lines@) == lines_of(text@),
{
    let chars: Vec<char> = characters(text);
    let mut lines: Vec<String> = Vec::new();
    let mut start: usize = 0;
    let mut index: usize = 0;
    proof {
        assert(text@.skip(0) =~= text@);
        assert(texts_view(lines@) + lines_of(text@) =~= lines_of(text@));
    }
    while index < chars.len()
        invariant
            chars@ == text@,
            start <= index <= text@.len(),
            forall|i: int| start <= i < index ==> #[trigger] text@[i] != '\n',
            texts_view(lines@) + lines_of(text@.skip(start as int)) == lines_of(text@),
        decreases text@.len() - index,
    {
        if chars[index] == '\n' {
            let end: usize = if index > start && chars[index - 1] == '\r' {
                index - 1
            } else {
                index
            };
            let line: String = text.substring_char(start, end).to_owned();
            proof {
                let rest = text@.skip(start as int);
                let length = index - start;
                lemma_line_length(rest, length);
                assert(rest.take(length) =~= text@.subrange(start as int, index as int));
                assert(without_return(rest.take(length)) =~= line@);
                assert(rest.skip(length + 1) =~= text@.skip(index + 1));
                let before = texts_view(lines@);
                assert(texts_view(lines@.push(line)) =~= before.push(line@));
                assert(before + (seq![line@] + lines_of(text@.skip(index + 1))) =~= before.push(line@)
                    + lines_of(text@.skip(index + 1)));
            }
            lines.push(line);
            start = index + 1;
        }
        index = index + 1;
    }
    proof {
        lemma_line_length(text@.skip(start as int), text@.len() - start);
    }
    if start < chars.len() {
        let line: String = text.substring_char(start, chars.len()).to_owned();
        proof {
            let rest = text@.skip(start as int);
            assert(rest =~= line@);
            let before = texts_view(lines@);
            assert(texts_view(lines@.push(line)) =~= before + seq![line@]);
        }
        lines.push(line);
    } else {
        proof {
            assert(texts_view(lines@) + Seq::<Seq<char>>::empty() =~= texts_view(lines@));
        }
    }
    lines
}

/// A text without the white space at its end is a beginning of it that does not end in white space, and what
/// is taken away is white space throughout.
pub proof fn law_only_white_space_is_trimmed(text: Seq<char>)
    ensures
        trimmed_end(text).len() <= text.len(),
        trimmed_end(text) == text.take(trimmed_end(text).len() as int),
        trimmed_end(text).len() > 0 ==> !is_white_space(trimmed_end(text).last()),
        is_blank(text.skip(trimmed_end(text).len() as int)),
    decreases text.len(),
{
    if text.len() > 0 && is_white_space(text.last()) {
        let front = text.drop_last();
        law_only_white_space_is_trimmed(front);
        let kept = trimmed_end(text).len() as int;
        assert(text.take(kept) =~= front.take(kept));
        assert forall|i: int| 0 <= i < text.skip(kept).len() implies is_white_space(
            #[trigger] text.skip(kept)[i],
        ) by {
            if kept + i < front.len() {
                assert(front.skip(kept)[i] == text.skip(kept)[i]);
            }
        }
    } else {
        assert(text.take(text.len() as int) =~= text);
    }
}

proof fn lemma_line_end(text: Seq<char>)
    ensures
        0 <= line_length(text) <= text.len(),
        forall|i: int| 0 <= i < line_length(text) ==> #[trigger] text[i] != '\n',
        line_length(text) < text.len() ==> text[line_length(text)] == '\n',
    decreases text.len(),
{
    if text.len() > 0 && text[0] != '\n' {
        let rest = text.drop_first();
        lemma_line_end(rest);
        assert forall|i: int| 0 <= i < line_length(text) implies #[trigger] text[i] != '\n' by {
            if i > 0 {
                assert(rest[i - 1] == text[i]);
            }
        }
    }
}

/// The text that lines make, each with a line end behind it.
pub open spec fn with_ends(lines: Seq<Seq<char>>) -> Seq<char>
    decreases lines.len(),
{
    if lines.len() == 0 {
        Seq::empty()
    } else {
        lines[0] + seq!['\n'] + with_ends(lines.drop_first())
    }
}

/// Lines hold no line ends; and put together again, each with a line end behind it, they make the text,
/// with a line end at its end where it had none, as long as it holds no carriage returns.
pub proof fn law_lines_make_the_text(text: Seq<char>)
    ensures
        forall|i: int| 0 <= i < lines_of(text).len() ==> !(#[trigger] lines_of(text)[i]).contains('\n'),
        !text.contains('\r') ==> with_ends(lines_of(text)) == if text.len() == 0 || text.last() == '\n' {
            text
        } else {
            text + seq!['\n']
        },
    decreases text.len(),
{
    let length = line_length(text);
    let all = lines_of(text);
    lemma_line_end(text);
    if text.len() > 0 {
        if length >= text.len() {
            assert(all[0] == text);
            assert(all.drop_first() =~= Seq::<Seq<char>>::empty());
            assert(text.last() != '\n');
            assert(with_ends(all) =~= text + seq!['\n']) by {
                reveal_with_fuel(with_ends, 2);
            }
            assert forall|i: int| 0 <= i < all.len() implies !(#[trigger] all[i]).contains('\n') by {
                assert(all[i] == text);
            }
        } else {
            let rest = text.skip(length + 1);
            let first = without_return(text.take(length));
            law_lines_make_the_text(rest);
            let later = lines_of(rest);
            assert(all.drop_first() =~= later);
            assert forall|i: int| 0 <= i < all.len() implies !(#[trigger] all[i]).contains('\n') by {
                if i == 0 {
                    if first.contains('\n') {
                        let k = choose|k: int| 0 <= k < first.len() && first[k] == '\n';
                        assert(text[k] == '\n');
                    }
                } else {
                    assert(all[i] == later[i - 1]);
                }
            }
            if !text.contains('\r') {
                if length > 0 && text.take(length).last() == '\r' {
                    assert(text[length - 1] == '\r');
                }
                assert(first == text.take(length));
                if rest.contains('\r') {
                    let k = choose|k: int| 0 <= k < rest.len() && rest[k] == '\r';
                    assert(text[length + 1 + k] == '\r');
                }
                assert(text =~= text.take(length) + seq!['\n'] + rest);
                if rest.len() > 0 {
                    assert(rest.last() == text.last());
                }
                assert(with_ends(all) =~= first + seq!['\n'] + with_ends(later));
                if rest.len() == 0 || rest.last() == '\n' {
                    assert(with_ends(all) =~= text);
                } else {
                    assert(with_ends(all) =~= text + seq!['\n']);
                }
            }
        }
    }
}

/// A line ends at a line end, and the carriage return before that, if there is one, is no part of it; what
/// follows are the next lines.
pub proof fn law_lines_end_with_or_without_a_return(line: Seq<char>, rest: Seq<char>)
    requires
        !line.contains('\n'),
    ensures
        lines_of(line + seq!['\r', '\n'] + rest) == seq![line] + lines_of(rest),
        line.len() == 0 || line.last() != '\r' ==> lines_of(line + seq!['\n'] + rest) == seq![line]
            + lines_of(rest),
        line.len() > 0 ==> lines_of(line) == seq![line],
{
    assert forall|i: int| 0 <= i < line.len() implies #[trigger] line[i] != '\n' by {}
    let windows = line + seq!['\r', '\n'] + rest;
    let length = line.len() as int;
    assert(windows[length] == '\r' && windows[length + 1] == '\n');
    assert forall|i: int| 0 <= i < length + 1 implies #[trigger] windows[i] != '\n' by {
        if i < length {
            assert(windows[i] == line[i]);
        }
    }
    lemma_line_length(windows, length + 1);
    assert(windows.take(length + 1).drop_last() =~= line);
    assert(windows.skip(length + 2) =~= rest);
    let plain = line + seq!['\n'] + rest;
    assert(plain[length] == '\n');
    assert forall|i: int| 0 <= i < length implies #[trigger] plain[i] != '\n' by {
        assert(plain[i] == line[i]);
    }
    lemma_line_length(plain, length);
    assert(plain.take(length) =~= line);
    assert(plain.skip(length + 1) =~= rest);
    lemma_line_length(line, length);
}

/// The white space of ASCII is the space, the tab, the line ends and the form feed; no other character of it
/// is white space.
pub proof fn law_ascii_white_space(c: char)
    requires
        c as u32 <= 127,
    ensures
        is_white_space(c) <==> c == ' ' || c == '\t' || c == '\n' || c == '\r' || c as u32 == 11 || c as u32
            == 12,
{
}

} // verus!
