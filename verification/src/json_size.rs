//! How long JSON text can be, and texts that are cut to fit into it.
use vstd::prelude::*;

use crate::json::{
    after_first_comma, comma_entries, comma_items, compact, entry_value, escaped, escaped_char,
    filled_to, quoted, with_entry, JsonView,
};
use crate::text::{
    byte_len, character_width, characters, decimal, lemma_byte_len_concat, lemma_byte_len_first,
    lemma_byte_len_one, lemma_decimal_digits_len, text_before,
};

verus! {

/// Whether all characters are printable ASCII.
pub open spec fn printable(text: Seq<char>) -> bool {
    forall|i: int| 0 <= i < text.len() ==> ' ' <= #[trigger] text[i] <= '~'
}

/// Whether all characters are printable ASCII and stand for themselves in a JSON string.
pub open spec fn unescaped(text: Seq<char>) -> bool {
    forall|i: int|
        0 <= i < text.len() ==> ' ' <= #[trigger] text[i] <= '~' && text[i] != '"' && text[i] != '\\'
}

/// A printable text takes one byte for each character.
pub proof fn lemma_printable_bytes(text: Seq<char>)
    requires
        printable(text),
    ensures
        byte_len(text) == text.len(),
{
    assert forall|i: int| 0 <= i < text.len() implies '\0' <= #[trigger] text[i] <= '\u{7f}' by {}
    vstd::utf8::is_ascii_chars_encode_utf8(text);
}

pub proof fn lemma_printable_concat(a: Seq<char>, b: Seq<char>)
    requires
        printable(a),
        printable(b),
    ensures
        printable(a + b),
{
}

/// A printable text stays printable in a JSON string, and at most doubles there.
pub proof fn lemma_escaped_printable(text: Seq<char>)
    requires
        printable(text),
    ensures
        printable(escaped(text)),
        escaped(text).len() <= 2 * text.len(),
    decreases text.len(),
{
    if text.len() > 0 {
        let rest = text.drop_last();
        assert forall|i: int| 0 <= i < rest.len() implies ' ' <= #[trigger] rest[i] <= '~' by {
            assert(rest[i] == text[i]);
        }
        lemma_escaped_printable(rest);
        let last = text[text.len() - 1];
        assert(' ' <= last <= '~');
        assert(printable(escaped_char(last)) && escaped_char(last).len() <= 2);
    }
}

/// A text without quotes and backslashes stands in a JSON string as it is.
pub proof fn lemma_escaped_unescaped(text: Seq<char>)
    requires
        unescaped(text),
    ensures
        escaped(text) == text,
    decreases text.len(),
{
    if text.len() > 0 {
        let rest = text.drop_last();
        assert forall|i: int| 0 <= i < rest.len() implies ' ' <= #[trigger] rest[i] <= '~' && rest[i]
            != '"' && rest[i] != '\\' by {
            assert(rest[i] == text[i]);
        }
        lemma_escaped_unescaped(rest);
        let last = text[text.len() - 1];
        assert(' ' <= last <= '~' && last != '"' && last != '\\');
        assert(escaped(text) =~= text);
    } else {
        assert(escaped(text) =~= text);
    }
}

/// A text without quotes and backslashes takes two characters more as a JSON string.
pub proof fn lemma_quoted_unescaped(text: Seq<char>)
    requires
        unescaped(text),
    ensures
        printable(quoted(text)),
        quoted(text).len() == text.len() + 2,
{
    lemma_escaped_unescaped(text);
}

/// A printable text as a JSON string.
pub proof fn lemma_quoted_printable(text: Seq<char>)
    requires
        printable(text),
    ensures
        printable(quoted(text)),
        quoted(text).len() <= 2 * text.len() + 2,
{
    lemma_escaped_printable(text);
}

/// A number of at most twenty digits in decimal.
pub proof fn lemma_decimal_printable(n: int)
    requires
        -10000000000 < n < 100000000000000000000,
    ensures
        printable(decimal(n)),
        unescaped(decimal(n)),
        decimal(n).len() <= 20,
        -10000000000 < n < 10000000000 ==> decimal(n).len() <= 11,
{
    assert(vstd::arithmetic::power::pow(10, 20) == 100000000000000000000
        && vstd::arithmetic::power::pow(10, 10) == 10000000000) by {
        reveal_with_fuel(vstd::arithmetic::power::pow, 21);
    }
    if n < 0 {
        lemma_decimal_digits_len((-n) as nat, 10);
    } else {
        lemma_decimal_digits_len(n as nat, 20);
        if n < 10000000000 {
            lemma_decimal_digits_len(n as nat, 10);
        }
    }
}

proof fn lemma_entry_bytes(
    entries: Seq<(Seq<char>, JsonView)>,
)
    requires
        entries.len() > 0,
    ensures
        byte_len(comma_entries(entries)) == 2 + byte_len(quoted(entries[0].0)) + byte_len(
            compact(entries[0].1),
        ) + byte_len(comma_entries(entries.drop_first())),
{
    let key = quoted(entries[0].0);
    let value = compact(entries[0].1);
    let rest = comma_entries(entries.drop_first());
    lemma_byte_len_one(',');
    lemma_byte_len_one(':');
    lemma_byte_len_concat(seq![','], key);
    lemma_byte_len_concat(seq![','] + key, seq![':']);
    lemma_byte_len_concat(seq![','] + key + seq![':'], value);
    lemma_byte_len_concat(seq![','] + key + seq![':'] + value, rest);
}

proof fn lemma_with_entry_bytes(
    entries: Seq<(Seq<char>, JsonView)>,
    key: Seq<char>,
    value: JsonView,
)
    ensures
        byte_len(comma_entries(with_entry(entries, key, value))) <= byte_len(comma_entries(entries))
            + 2 + byte_len(quoted(key)) + byte_len(compact(value)),
        printable(comma_entries(entries)) && printable(quoted(key)) && printable(compact(value))
            ==> printable(comma_entries(with_entry(entries, key, value))),
    decreases entries.len(),
{
    let all = with_entry(entries, key, value);
    let own = seq![','] + quoted(key) + seq![':'] + compact(value);
    lemma_entry_bytes(all);
    if entries.len() == 0 {
        assert(all.drop_first() =~= entries);
        assert(comma_entries(all) =~= own + comma_entries(entries));
    } else {
        lemma_entry_bytes(entries);
        let rest = entries.drop_first();
        let first = seq![','] + quoted(entries[0].0) + seq![':'] + compact(entries[0].1);
        assert(comma_entries(entries) =~= first + comma_entries(rest));
        if printable(comma_entries(entries)) {
            assert forall|i: int| 0 <= i < comma_entries(rest).len() implies ' '
                <= #[trigger] comma_entries(rest)[i] <= '~' by {
                assert(comma_entries(entries)[first.len() + i] == comma_entries(rest)[i]);
            }
            assert forall|i: int| 0 <= i < first.len() implies ' ' <= #[trigger] first[i] <= '~' by {
                assert(comma_entries(entries)[i] == first[i]);
            }
        }
        if entries[0].0 == key {
            assert(all.drop_first() =~= rest);
            assert(comma_entries(all) =~= own + comma_entries(rest));
        } else if text_before(key, entries[0].0) {
            assert(all.drop_first() =~= entries);
            assert(comma_entries(all) =~= own + comma_entries(entries));
        } else {
            let tail = with_entry(rest, key, value);
            lemma_with_entry_bytes(rest, key, value);
            assert(all.drop_first() =~= tail);
            assert(comma_entries(all) =~= first + comma_entries(tail));
        }
    }
}

proof fn lemma_between_bytes(open: char, text: Seq<char>, close: char)
    requires
        text.len() > 0 ==> text[0] == ',',
        ' ' <= open <= '~',
        ' ' <= close <= '~',
    ensures
        text.len() > 0 ==> byte_len(seq![open] + after_first_comma(text) + seq![close]) == byte_len(
            text,
        ) + 1,
        text.len() == 0 ==> byte_len(seq![open] + after_first_comma(text) + seq![close]) == 2,
        printable(text) <==> printable(seq![open] + after_first_comma(text) + seq![close]),
{
    let inner = after_first_comma(text);
    let all = seq![open] + inner + seq![close];
    lemma_byte_len_one(open);
    lemma_byte_len_one(close);
    lemma_byte_len_concat(seq![open], inner);
    lemma_byte_len_concat(seq![open] + inner, seq![close]);
    if text.len() > 0 {
        lemma_byte_len_first(text);
        if printable(all) {
            assert forall|i: int| 0 <= i < text.len() implies ' ' <= #[trigger] text[i] <= '~' by {
                if i > 0 {
                    assert(all[i] == text[i]);
                }
            }
        }
        if printable(text) {
            assert forall|i: int| 0 <= i < all.len() implies ' ' <= #[trigger] all[i] <= '~' by {
                if 0 < i < all.len() - 1 {
                    assert(all[i] == text[i]);
                }
            }
        }
    }
}

/// One more entry adds at most its key, its value, a colon and a comma.
pub proof fn lemma_with_bytes(object: JsonView, key: Seq<char>, value: JsonView)
    requires
        object is Object,
    ensures
        byte_len(compact(object.with(key, value))) <= byte_len(compact(object)) + byte_len(
            quoted(key),
        ) + byte_len(compact(value)) + 2,
        printable(compact(object)) && printable(quoted(key)) && printable(compact(value))
            ==> printable(compact(object.with(key, value))),
{
    let entries = object->Object_0;
    let all = with_entry(entries, key, value);
    lemma_with_entry_bytes(entries, key, value);
    lemma_between_bytes('{', comma_entries(entries), '}');
    lemma_between_bytes('{', comma_entries(all), '}');
}

/// The empty object takes two bytes.
pub proof fn lemma_object_bytes()
    ensures
        byte_len(compact(JsonView::object())) == 2,
        printable(compact(JsonView::object())),
{
    lemma_between_bytes('{', comma_entries(Seq::empty()), '}');
}

/// An array of one item takes two bytes more than the item.
pub proof fn lemma_single_item_bytes(value: JsonView)
    ensures
        byte_len(compact(JsonView::list().item(value))) == byte_len(compact(value)) + 2,
        printable(compact(value)) ==> printable(compact(JsonView::list().item(value))),
{
    reveal_with_fuel(comma_items, 2);
    let items = Seq::<JsonView>::empty().push(value);
    assert(items.drop_first() =~= Seq::<JsonView>::empty());
    assert(comma_items(items) =~= seq![','] + compact(value));
    lemma_byte_len_one(',');
    lemma_byte_len_concat(seq![','], compact(value));
    lemma_between_bytes('[', comma_items(items), ']');
    if printable(compact(value)) {
        lemma_printable_concat(seq![','], compact(value));
    }
}

/// One more entry with a word for its value.
pub proof fn lemma_word_bytes(object: JsonView, key: Seq<char>, word: Seq<char>, size: int)
    requires
        object is Object,
        unescaped(key),
        unescaped(word),
        printable(compact(object)),
        byte_len(compact(object)) <= size,
    ensures
        object.with(key, JsonView::Text(word)) is Object,
        printable(compact(object.with(key, JsonView::Text(word)))),
        byte_len(compact(object.with(key, JsonView::Text(word)))) <= size + key.len() + word.len()
            + 6,
{
    lemma_quoted_unescaped(key);
    lemma_quoted_unescaped(word);
    lemma_printable_bytes(quoted(key));
    lemma_printable_bytes(quoted(word));
    lemma_with_bytes(object, key, JsonView::Text(word));
}

/// One more entry whose value is printable.
pub proof fn lemma_value_bytes(object: JsonView, key: Seq<char>, value: JsonView, size: int)
    requires
        object is Object,
        unescaped(key),
        printable(compact(value)),
        printable(compact(object)),
        byte_len(compact(object)) <= size,
    ensures
        object.with(key, value) is Object,
        printable(compact(object.with(key, value))),
        byte_len(compact(object.with(key, value))) <= size + key.len() + compact(value).len() + 4,
{
    lemma_quoted_unescaped(key);
    lemma_printable_bytes(quoted(key));
    lemma_printable_bytes(compact(value));
    lemma_with_bytes(object, key, value);
}

/// Whether a value is an object whose text is printable and takes at most so many bytes.
pub open spec fn small_object(value: JsonView, size: int) -> bool {
    value is Object && printable(compact(value)) && byte_len(compact(value)) <= size
}

/// The sum of the first numbers of a sequence.
pub open spec fn sum_to(numbers: Seq<int>, count: int) -> int
    decreases count,
{
    if count <= 0 {
        0
    } else {
        sum_to(numbers, count - 1) + numbers[count - 1]
    }
}

/// Whether the keys and the values of entries take no more bytes than these.
pub open spec fn entries_within(
    entries: Seq<(Seq<char>, JsonView)>,
    keys: Seq<int>,
    values: Seq<int>,
) -> bool {
    forall|i: int|
        0 <= i < entries.len() ==> byte_len(quoted((#[trigger] entries[i]).0)) <= keys[i] && byte_len(
            compact(entries[i].1),
        ) <= values[i]
}

/// An object takes at most the bytes of the keys and the values that it was filled with, two for each
/// entry and two for the braces.
pub proof fn lemma_filled_bytes(
    entries: Seq<(Seq<char>, JsonView)>,
    keys: Seq<int>,
    values: Seq<int>,
    count: int,
)
    requires
        0 <= count <= entries.len(),
        entries_within(entries, keys, values),
    ensures
        filled_to(entries, count) is Object,
        byte_len(compact(filled_to(entries, count))) <= 2 + 2 * count + sum_to(keys, count) + sum_to(
            values,
            count,
        ),
    decreases count,
{
    if count == 0 {
        lemma_object_bytes();
    } else {
        lemma_filled_bytes(entries, keys, values, count - 1);
        let last = entries[count - 1];
        lemma_with_bytes(filled_to(entries, count - 1), last.0, last.1);
    }
}

/// An object is printable that was filled with printable keys and values.
pub proof fn lemma_filled_printable(entries: Seq<(Seq<char>, JsonView)>, count: int)
    requires
        0 <= count <= entries.len(),
        forall|i: int|
            0 <= i < entries.len() ==> printable(quoted((#[trigger] entries[i]).0)) && printable(
                compact(entries[i].1),
            ),
    ensures
        filled_to(entries, count) is Object,
        printable(compact(filled_to(entries, count))),
    decreases count,
{
    if count == 0 {
        lemma_object_bytes();
    } else {
        lemma_filled_printable(entries, count - 1);
        let last = entries[count - 1];
        lemma_with_bytes(filled_to(entries, count - 1), last.0, last.1);
    }
}

/// The bytes of a word as a value.
pub proof fn lemma_word_size(word: Seq<char>)
    requires
        unescaped(word),
    ensures
        byte_len(quoted(word)) == word.len() + 2,
        printable(quoted(word)),
{
    lemma_quoted_unescaped(word);
    lemma_printable_bytes(quoted(word));
}

/// The bytes of a value that is neither a text nor composed.
pub proof fn lemma_plain_sizes(number: int)
    requires
        -10000000000 < number < 100000000000000000000,
    ensures
        printable(compact(JsonView::Null)),
        printable(compact(JsonView::Bool(true))),
        printable(compact(JsonView::Bool(false))),
        printable(compact(JsonView::Int(number))),
        byte_len(compact(JsonView::Null)) == 4,
        byte_len(compact(JsonView::Bool(true))) == 4,
        byte_len(compact(JsonView::Bool(false))) == 5,
        byte_len(compact(JsonView::Int(number))) <= 20,
        -10000000000 < number < 10000000000 ==> byte_len(compact(JsonView::Int(number))) <= 11,
{
    lemma_decimal_printable(number);
    lemma_printable_bytes(compact(JsonView::Null));
    lemma_printable_bytes(compact(JsonView::Bool(true)));
    lemma_printable_bytes(compact(JsonView::Bool(false)));
    lemma_printable_bytes(decimal(number));
}

/// What stands in a JSON string for a text in two parts.
pub proof fn lemma_escaped_concat(a: Seq<char>, b: Seq<char>)
    ensures
        escaped(a + b) == escaped(a) + escaped(b),
    decreases b.len(),
{
    if b.len() == 0 {
        assert(a + b =~= a);
        assert(escaped(a) + escaped(b) =~= escaped(a));
    } else {
        assert((a + b).drop_last() =~= a + b.drop_last());
        lemma_escaped_concat(a, b.drop_last());
        assert(escaped(a + b) =~= escaped(a) + escaped(b));
    }
}

/// The bytes that a text takes between the quotes of a JSON string.
pub open spec fn escaped_bytes(text: Seq<char>) -> int {
    byte_len(escaped(text)) as int
}

/// A text without quotes and backslashes takes one byte for each character.
pub proof fn lemma_unescaped_size(text: Seq<char>)
    requires
        unescaped(text),
    ensures
        escaped_bytes(text) == text.len(),
{
    lemma_escaped_unescaped(text);
    lemma_printable_bytes(text);
}

/// A text takes two bytes more with its quotes.
pub proof fn lemma_quoted_bytes(text: Seq<char>)
    ensures
        byte_len(quoted(text)) == escaped_bytes(text) + 2,
{
    lemma_byte_len_one('"');
    lemma_byte_len_concat(seq!['"'], escaped(text));
    lemma_byte_len_concat(seq!['"'] + escaped(text), seq!['"']);
}

/// One more part adds its own bytes.
pub proof fn lemma_escaped_bytes_concat(a: Seq<char>, b: Seq<char>)
    ensures
        escaped_bytes(a + b) == escaped_bytes(a) + escaped_bytes(b),
{
    lemma_escaped_concat(a, b);
    lemma_byte_len_concat(escaped(a), escaped(b));
}

/// The longest beginning of a text that takes at most `max` bytes in a JSON string.
pub open spec fn escaped_within(text: Seq<char>, max: int) -> Seq<char>
    decreases text.len(),
{
    if text.len() == 0 || escaped_bytes(text) <= max {
        text
    } else {
        escaped_within(text.drop_last(), max)
    }
}

/// A text as it is where it takes at most `max` bytes in a JSON string; else its longest beginning that
/// leaves room for three dots there, and the dots.
pub open spec fn brief(text: Seq<char>, max: int) -> Seq<char> {
    if escaped_bytes(text) <= max {
        text
    } else {
        escaped_within(text, max - 3) + "..."@
    }
}

proof fn lemma_escaped_within(text: Seq<char>, max: int)
    requires
        0 <= max,
    ensures
        escaped_bytes(escaped_within(text, max)) <= max,
    decreases text.len(),
{
    if text.len() == 0 {
        assert(escaped(text) =~= Seq::<char>::empty());
    } else if escaped_bytes(text) > max {
        lemma_escaped_within(text.drop_last(), max);
    }
}

/// A brief text fits.
pub proof fn lemma_brief(text: Seq<char>, max: int)
    requires
        3 <= max,
    ensures
        escaped_bytes(brief(text, max)) <= max,
{
    if escaped_bytes(text) > max {
        lemma_escaped_within(text, max - 3);
        lemma_escaped_bytes_concat(escaped_within(text, max - 3), "..."@);
        reveal_strlit("...");
        lemma_escaped_unescaped("..."@);
        lemma_printable_bytes("..."@);
    }
}

proof fn lemma_escaped_take(text: Seq<char>, count: int)
    requires
        0 <= count <= text.len(),
    ensures
        escaped_bytes(text.take(count)) <= escaped_bytes(text),
        count < text.len() ==> escaped_bytes(text.take(count + 1)) == escaped_bytes(text.take(count))
            + byte_len(escaped_char(text[count])),
{
    assert(text =~= text.take(count) + text.skip(count));
    lemma_escaped_bytes_concat(text.take(count), text.skip(count));
    if count < text.len() {
        assert(text.take(count + 1).drop_last() =~= text.take(count));
        lemma_byte_len_concat(escaped(text.take(count)), escaped_char(text[count]));
    }
}

proof fn lemma_longest_beginning(text: Seq<char>, max: int, count: int)
    requires
        0 <= count <= text.len(),
        escaped_bytes(text.take(count)) <= max,
        count < text.len() ==> escaped_bytes(text.take(count + 1)) > max,
    ensures
        escaped_within(text, max) == text.take(count),
    decreases text.len(),
{
    if count == text.len() {
        assert(text.take(count) =~= text);
    } else {
        lemma_escaped_take(text, count + 1);
        let shorter = text.drop_last();
        assert(shorter.take(count) =~= text.take(count));
        if count < shorter.len() {
            assert(shorter.take(count + 1) =~= text.take(count + 1));
        }
        lemma_longest_beginning(shorter, max, count);
    }
}

/// The bytes that a character takes in a JSON string.
pub fn escaped_width(character: char) -> (width: usize)
    ensures
        width == byte_len(escaped_char(character)),
        1 <= width <= 6,
{
    let code: u32 = character as u32;
    proof {
        lemma_byte_len_one(character);
        if code < 128 {
            assert forall|i: int| 0 <= i < escaped_char(character).len() implies '\0'
                <= #[trigger] escaped_char(character)[i] <= '\u{7f}' by {}
            vstd::utf8::is_ascii_chars_encode_utf8(escaped_char(character));
        }
    }
    if character == '"' || character == '\\' || code == 8 || code == 9 || code == 10 || code == 12
        || code == 13 {
        2
    } else if code < 32 {
        6
    } else {
        character_width(character)
    }
}

/// A text as it is where it takes at most `max` bytes in a JSON string; else its longest beginning that
/// leaves room for three dots there, and the dots.
pub fn brief_text(text: &str, max: usize) -> (told: String)
    requires
        3 <= max < 0x1_0000_0000 - 6,
    ensures
        told@ == brief(text@, max as int),
{
    let chars: Vec<char> = characters(text);
    let mut count: usize = 0;
    let mut bytes: usize = 0;
    let mut kept: usize = 0;
    proof {
        assert(escaped(text@.take(0)) =~= Seq::<char>::empty());
    }
    while count < chars.len() && bytes <= max
        invariant
            chars@ == text@,
            3 <= max < 0x1_0000_0000 - 6,
            kept <= count <= chars@.len(),
            bytes == escaped_bytes(text@.take(count as int)),
            bytes <= max + 6,
            escaped_bytes(text@.take(kept as int)) <= max - 3,
            kept < count ==> escaped_bytes(text@.take(kept + 1)) > max - 3,
        decreases chars@.len() - count,
    {
        let width: usize = escaped_width(chars[count]);
        proof {
            lemma_escaped_take(text@, count as int);
        }
        bytes = bytes + width;
        if kept == count && bytes <= max - 3 {
            kept = kept + 1;
        }
        count = count + 1;
    }
    proof {
        lemma_escaped_take(text@, count as int);
    }
    if bytes <= max {
        proof {
            assert(text@.take(count as int) =~= text@);
        }
        return text.to_owned();
    }
    proof {
        lemma_longest_beginning(text@, max - 3, kept as int);
        assert(text@.subrange(0, kept as int) =~= text@.take(kept as int));
    }
    let mut told: String = text.substring_char(0, kept).to_owned();
    told.append("...");
    told
}

/// An object takes the bytes of its entries, each with its comma, and one more.
pub proof fn lemma_filled_object_bytes(entries: Seq<(Seq<char>, JsonView)>)
    requires
        entries.len() > 0,
    ensures
        byte_len(compact(JsonView::Object(entries))) == byte_len(comma_entries(entries)) + 1,
{
    lemma_between_bytes('{', comma_entries(entries), '}');
}

/// What an entry with a new key adds to the entries of an object.
pub proof fn lemma_new_entry_bytes(
    entries: Seq<(Seq<char>, JsonView)>,
    key: Seq<char>,
    value: JsonView,
)
    requires
        entry_value(entries, key) is None,
    ensures
        with_entry(entries, key, value).len() > 0,
        byte_len(comma_entries(with_entry(entries, key, value))) == byte_len(comma_entries(entries))
            + 2 + byte_len(quoted(key)) + byte_len(compact(value)),
    decreases entries.len(),
{
    let all = with_entry(entries, key, value);
    lemma_entry_bytes(all);
    if entries.len() == 0 {
        assert(all.drop_first() =~= entries);
    } else if text_before(key, entries[0].0) {
        assert(all.drop_first() =~= entries);
    } else {
        assert(all.drop_first() =~= with_entry(entries.drop_first(), key, value));
        lemma_new_entry_bytes(entries.drop_first(), key, value);
        lemma_entry_bytes(entries);
    }
}

/// A brief text is the text itself where that fits into a JSON string of so many bytes; else it is its
/// longest beginning that leaves room for three dots there, and the dots.
pub proof fn law_brief_texts_keep_as_much_as_fits(text: Seq<char>, max: int)
    requires
        3 <= max,
    ensures
        escaped_bytes(brief(text, max)) <= max,
        escaped_bytes(text) <= max ==> brief(text, max) == text,
        escaped_bytes(text) > max ==> exists|count: int|
            {
                &&& 0 <= count < text.len()
                &&& brief(text, max) == #[trigger] text.take(count) + "..."@
                &&& escaped_bytes(text.take(count + 1)) > max - 3
            },
{
    lemma_brief(text, max);
    if escaped_bytes(text) > max {
        let count = lemma_longest_count(text, max - 3);
        assert(brief(text, max) == text.take(count) + "..."@);
    }
}

proof fn lemma_longest_count(text: Seq<char>, max: int) -> (count: int)
    requires
        0 <= max < escaped_bytes(text),
    ensures
        0 <= count < text.len(),
        escaped_within(text, max) == text.take(count),
        escaped_bytes(text.take(count + 1)) > max,
    decreases text.len(),
{
    if text.len() == 0 {
        assert(escaped(text) =~= Seq::<char>::empty());
        0
    } else {
        let shorter = text.drop_last();
        if escaped_bytes(shorter) <= max {
            let count = shorter.len() as int;
            assert(escaped_within(shorter, max) == shorter);
            assert(text.take(count) =~= shorter);
            assert(text.take(count + 1) =~= text);
            count
        } else {
            let count = lemma_longest_count(shorter, max);
            assert(shorter.take(count) =~= text.take(count));
            assert(shorter.take(count + 1) =~= text.take(count + 1));
            count
        }
    }
}

} // verus!
