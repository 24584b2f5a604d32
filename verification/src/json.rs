//! JSON values, the text they are written in, and the trusted calls into `serde_json`.
use vstd::prelude::*;

use crate::text::{
    decimal, is_text_before, lemma_text_before_total, lemma_text_before_transitive, same_text,
    text_before,
};

verus! {

/// The outside type `serde_json::Value`, carried from a parse to a rendering.
#[verifier::external_type_specification]
#[verifier::external_body]
pub struct ExValue(serde_json::Value);

/// The outside type `serde_json::Number`, kept for the numbers that are no integers.
#[verifier::external_type_specification]
#[verifier::external_body]
pub struct ExNumber(serde_json::Number);

/// A number that is no integer, as `serde_json` has read it.
#[derive(Debug, PartialEq)]
pub struct Fraction {
    number: serde_json::Number,
}

impl Fraction {
    /// Only numbers that `serde_json` keeps in floating point are fractions.
    #[verifier::type_invariant]
    spec fn valid(self) -> bool {
        is_f64(self.number)
    }
}

impl View for Fraction {
    type V = Seq<char>;

    closed spec fn view(&self) -> Seq<char> {
        number_text(self.number)
    }
}

impl Clone for Fraction {
    fn clone(&self) -> (copy: Fraction)
        ensures
            copy@ == self@,
    {
        proof {
            use_type_invariant(self);
        }
        Fraction { number: self.number.clone() }
    }
}

/// A JSON value. The entries of an object stand in the order of their keys, each key once.
#[derive(Debug, PartialEq)]
pub enum Json {
    Null,
    Bool(bool),
    Unsigned(u64),
    Signed(i64),
    Float(Fraction),
    Text(String),
    Array(Vec<Json>),
    Object(Vec<(String, Json)>),
}

/// What a JSON value is. A number that is no integer is known by its text.
#[verifier::ext_equal]
pub enum JsonView {
    Null,
    Bool(bool),
    Int(int),
    Float(Seq<char>),
    Text(Seq<char>),
    Array(Seq<JsonView>),
    Object(Seq<(Seq<char>, JsonView)>),
}

/// The value that a `serde_json::Value` holds.
pub uninterp spec fn content(value: serde_json::Value) -> JsonView;

/// The text in which a `serde_json::Number` is written.
pub uninterp spec fn number_text(number: serde_json::Number) -> Seq<char>;

/// Whether a `serde_json::Number` is kept in floating point, as `Number::is_f64` says: then it is
/// no integer to `as_u64` and `as_i64`.
pub uninterp spec fn is_f64(number: serde_json::Number) -> bool;

/// What `serde_json::from_str` reads in a text: a value, or what it says of the mistake.
pub uninterp spec fn parsed(text: Seq<char>) -> Result<JsonView, Seq<char>>;

pub open spec fn json_view(json: Json) -> JsonView
    decreases json,
{
    match json {
        Json::Null => JsonView::Null,
        Json::Bool(flag) => JsonView::Bool(flag),
        Json::Unsigned(n) => JsonView::Int(n as int),
        Json::Signed(n) => JsonView::Int(n as int),
        Json::Float(fraction) => JsonView::Float(fraction@),
        Json::Text(text) => JsonView::Text(text@),
        Json::Array(items) => JsonView::Array(
            Seq::new(
                items@.len(),
                |i: int|
                    if 0 <= i < items@.len() {
                        json_view(items@[i])
                    } else {
                        JsonView::Null
                    },
            ),
        ),
        Json::Object(entries) => JsonView::Object(
            Seq::new(
                entries@.len(),
                |i: int|
                    if 0 <= i < entries@.len() {
                        (entries@[i].0@, json_view(entries@[i].1))
                    } else {
                        (Seq::empty(), JsonView::Null)
                    },
            ),
        ),
    }
}

impl View for Json {
    type V = JsonView;

    open spec fn view(&self) -> JsonView {
        json_view(*self)
    }
}

/// The values of a sequence of JSON values.
pub open spec fn items_view(items: Seq<Json>) -> Seq<JsonView> {
    Seq::new(items.len(), |i: int| items[i]@)
}

/// The entries of an object, keys and values.
pub open spec fn entries_view(entries: Seq<(String, Json)>) -> Seq<(Seq<char>, JsonView)> {
    Seq::new(entries.len(), |i: int| (entries[i].0@, entries[i].1@))
}

/// Whether keys stand in order, each once, in this value and in all it holds.
pub open spec fn ordered(value: JsonView) -> bool
    decreases value,
{
    match value {
        JsonView::Array(items) => forall|i: int|
            0 <= i < items.len() ==> ordered(#[trigger] items[i]),
        JsonView::Object(entries) => {
            &&& forall|i: int, j: int|
                0 <= i < j < entries.len() ==> text_before(
                    (#[trigger] entries[i]).0,
                    (#[trigger] entries[j]).0,
                )
            &&& forall|i: int| 0 <= i < entries.len() ==> ordered((#[trigger] entries[i]).1)
        },
        _ => true,
    }
}

/// Whether a value is a text, an integer, a flag or nothing.
pub open spec fn plain(value: JsonView) -> bool {
    value is Null || value is Bool || value is Int || value is Text
}

/// Whether the values of all entries are plain.
pub open spec fn all_plain(entries: Seq<(Seq<char>, JsonView)>) -> bool {
    forall|i: int| 0 <= i < entries.len() ==> plain(#[trigger] entries[i].1)
}

/// Whether a value is an object that holds plain values only.
pub open spec fn flat(value: JsonView) -> bool {
    value is Object && all_plain(value->Object_0)
}

/// One more plain entry leaves an object flat.
pub proof fn lemma_with_flat(object: JsonView, key: Seq<char>, value: JsonView)
    requires
        flat(object),
        plain(value),
    ensures
        flat(object.with(key, value)),
{
    lemma_entries_plain(object->Object_0, key, value);
}

proof fn lemma_entries_plain(entries: Seq<(Seq<char>, JsonView)>, key: Seq<char>, value: JsonView)
    requires
        all_plain(entries),
        plain(value),
    ensures
        all_plain(with_entry(entries, key, value)),
    decreases entries.len(),
{
    let all = with_entry(entries, key, value);
    let rest = entries.drop_first();
    if entries.len() > 0 {
        assert forall|i: int| 0 <= i < rest.len() implies plain(#[trigger] rest[i].1) by {
            assert(plain(entries[i + 1].1));
        }
        lemma_entries_plain(rest, key, value);
        assert(plain(entries[0].1));
    }
    let tail = with_entry(rest, key, value);
    assert forall|i: int| 0 <= i < all.len() implies plain(#[trigger] all[i].1) by {
        if entries.len() == 0 {
        } else if entries[0].0 == key {
            if i > 0 {
                assert(plain(rest[i - 1].1));
            }
        } else if text_before(key, entries[0].0) {
            if i > 0 {
                assert(plain(entries[i - 1].1));
            }
        } else if i > 0 {
            assert(plain(tail[i - 1].1));
        }
    }
}

/// The view of an array holds the views of its items.
pub proof fn lemma_json_array(items: Vec<Json>)
    ensures
        Json::Array(items)@ == JsonView::Array(items_view(items@)),
{
    assert(json_view(Json::Array(items))->Array_0 =~= items_view(items@));
}

/// The view of an object holds its keys and the views of its values.
pub proof fn lemma_json_object(entries: Vec<(String, Json)>)
    ensures
        Json::Object(entries)@ == JsonView::Object(entries_view(entries@)),
{
    assert(json_view(Json::Object(entries))->Object_0 =~= entries_view(entries@));
}

/// The character of one hexadecimal digit.
pub open spec fn hex_char(digit: int) -> char {
    if digit < 10 {
        (48 + digit) as char
    } else {
        (87 + digit) as char
    }
}

/// How one character stands in a JSON string.
pub open spec fn escaped_char(c: char) -> Seq<char> {
    let code = c as u32 as int;
    if c == '"' || c == '\\' {
        seq!['\\', c]
    } else if code == 8 {
        seq!['\\', 'b']
    } else if code == 9 {
        seq!['\\', 't']
    } else if code == 10 {
        seq!['\\', 'n']
    } else if code == 12 {
        seq!['\\', 'f']
    } else if code == 13 {
        seq!['\\', 'r']
    } else if code < 32 {
        seq!['\\', 'u', '0', '0', hex_char(code / 16), hex_char(code % 16)]
    } else {
        seq![c]
    }
}

/// How a text stands between the quotes of a JSON string.
pub open spec fn escaped(text: Seq<char>) -> Seq<char>
    decreases text.len(),
{
    if text.len() == 0 {
        Seq::empty()
    } else {
        escaped(text.drop_last()) + escaped_char(text.last())
    }
}

/// A text as a JSON string.
pub open spec fn quoted(text: Seq<char>) -> Seq<char> {
    seq!['"'] + escaped(text) + seq!['"']
}

/// A value as JSON text without spaces.
pub open spec fn compact(value: JsonView) -> Seq<char>
    decreases value,
{
    match value {
        JsonView::Null => seq!['n', 'u', 'l', 'l'],
        JsonView::Bool(flag) => if flag {
            seq!['t', 'r', 'u', 'e']
        } else {
            seq!['f', 'a', 'l', 's', 'e']
        },
        JsonView::Int(n) => decimal(n),
        JsonView::Float(text) => text,
        JsonView::Text(text) => quoted(text),
        JsonView::Array(items) => seq!['['] + after_first_comma(comma_items(items)) + seq![']'],
        JsonView::Object(entries) => seq!['{'] + after_first_comma(comma_entries(entries)) + seq!['}'],
    }
}

/// The items of an array, a comma before each.
pub open spec fn comma_items(items: Seq<JsonView>) -> Seq<char>
    decreases items,
{
    if items.len() == 0 {
        Seq::empty()
    } else {
        seq![','] + compact(items[0]) + comma_items(items.drop_first())
    }
}

/// The entries of an object, a comma before each.
pub open spec fn comma_entries(entries: Seq<(Seq<char>, JsonView)>) -> Seq<char>
    decreases entries,
{
    if entries.len() == 0 {
        Seq::empty()
    } else {
        seq![','] + quoted(entries[0].0) + seq![':'] + compact(entries[0].1) + comma_entries(
            entries.drop_first(),
        )
    }
}

/// Two spaces for each level.
pub open spec fn indentation(depth: nat) -> Seq<char> {
    Seq::new(2 * depth, |i: int| ' ')
}

/// A value as JSON text on lines of its own, at a level.
pub open spec fn pretty(value: JsonView, depth: nat) -> Seq<char>
    decreases value,
{
    match value {
        JsonView::Array(items) => if items.len() == 0 {
            seq!['[', ']']
        } else {
            seq!['['] + after_first_comma(pretty_items(items, depth)) + seq!['\n'] + indentation(
                depth,
            ) + seq![']']
        },
        JsonView::Object(entries) => if entries.len() == 0 {
            seq!['{', '}']
        } else {
            seq!['{'] + after_first_comma(pretty_entries(entries, depth)) + seq!['\n'] + indentation(
                depth,
            ) + seq!['}']
        },
        other => compact(other),
    }
}

/// The items of an array, a comma and a line end before each.
pub open spec fn pretty_items(items: Seq<JsonView>, depth: nat) -> Seq<char>
    decreases items,
{
    if items.len() == 0 {
        Seq::empty()
    } else {
        seq![',', '\n'] + indentation(depth + 1) + pretty(items[0], depth + 1) + pretty_items(
            items.drop_first(),
            depth,
        )
    }
}

/// The entries of an object, a comma and a line end before each.
pub open spec fn pretty_entries(entries: Seq<(Seq<char>, JsonView)>, depth: nat) -> Seq<char>
    decreases entries,
{
    if entries.len() == 0 {
        Seq::empty()
    } else {
        seq![',', '\n'] + indentation(depth + 1) + quoted(entries[0].0) + seq![':', ' '] + pretty(
            entries[0].1,
            depth + 1,
        ) + pretty_entries(entries.drop_first(), depth)
    }
}

/// What follows the first comma.
pub open spec fn after_first_comma(text: Seq<char>) -> Seq<char> {
    if text.len() == 0 {
        text
    } else {
        text.drop_first()
    }
}

/// The entries with one more: in its place by the order of the keys, or in place of the entry
/// that has its key.
pub open spec fn with_entry(
    entries: Seq<(Seq<char>, JsonView)>,
    key: Seq<char>,
    value: JsonView,
) -> Seq<(Seq<char>, JsonView)>
    decreases entries.len(),
{
    if entries.len() == 0 {
        seq![(key, value)]
    } else if entries[0].0 == key {
        seq![(key, value)] + entries.drop_first()
    } else if text_before(key, entries[0].0) {
        seq![(key, value)] + entries
    } else {
        seq![entries[0]] + with_entry(entries.drop_first(), key, value)
    }
}

impl JsonView {
    /// The object without entries.
    pub open spec fn object() -> JsonView {
        JsonView::Object(Seq::empty())
    }

    /// This object with one more entry.
    pub open spec fn with(self, key: Seq<char>, value: JsonView) -> JsonView {
        match self {
            JsonView::Object(entries) => JsonView::Object(with_entry(entries, key, value)),
            _ => self,
        }
    }

    /// The array without items.
    pub open spec fn list() -> JsonView {
        JsonView::Array(Seq::empty())
    }

    /// This array with one more item at its end.
    pub open spec fn item(self, value: JsonView) -> JsonView {
        match self {
            JsonView::Array(items) => JsonView::Array(items.push(value)),
            _ => self,
        }
    }

    /// A text, or null where there is none.
    pub open spec fn optional_text(text: Option<Seq<char>>) -> JsonView {
        match text {
            Some(text) => JsonView::Text(text),
            None => JsonView::Null,
        }
    }
}

/// The value of the first entry with this key.
pub open spec fn entry_value(entries: Seq<(Seq<char>, JsonView)>, key: Seq<char>) -> Option<JsonView>
    decreases entries.len(),
{
    if entries.len() == 0 {
        None
    } else if entries[0].0 == key {
        Some(entries[0].1)
    } else {
        entry_value(entries.drop_first(), key)
    }
}

/// What an object holds under a key; nothing where the value is no object.
pub open spec fn member(value: JsonView, key: Seq<char>) -> Option<JsonView> {
    match value {
        JsonView::Object(entries) => entry_value(entries, key),
        _ => None,
    }
}

/// The text that an object holds under a key, where there is one.
pub open spec fn text_member(value: JsonView, key: Seq<char>) -> Option<Seq<char>> {
    match member(value, key) {
        Some(JsonView::Text(text)) => Some(text),
        _ => None,
    }
}

/// Whether the keys of these entries stand in order, each once.
pub open spec fn ascending(entries: Seq<(Seq<char>, JsonView)>) -> bool {
    forall|i: int, j: int|
        0 <= i < j < entries.len() ==> text_before(
            (#[trigger] entries[i]).0,
            (#[trigger] entries[j]).0,
        )
}

/// Whether all keys of these entries stand after `low`.
spec fn keys_after(entries: Seq<(Seq<char>, JsonView)>, low: Seq<char>) -> bool {
    forall|i: int| 0 <= i < entries.len() ==> text_before(low, (#[trigger] entries[i]).0)
}

/// Whether all values of these entries have their keys in order.
spec fn values_ordered(entries: Seq<(Seq<char>, JsonView)>) -> bool {
    forall|i: int| 0 <= i < entries.len() ==> ordered((#[trigger] entries[i]).1)
}

/// Where an entry goes: the first place whose key is its own or stands after it.
spec fn place_for(entries: Seq<(Seq<char>, JsonView)>, key: Seq<char>, place: int) -> bool {
    &&& 0 <= place <= entries.len()
    &&& forall|i: int|
        0 <= i < place ==> (#[trigger] entries[i]).0 != key && !text_before(key, entries[i].0)
    &&& place < entries.len() ==> entries[place].0 == key || text_before(key, entries[place].0)
}

proof fn lemma_with_entry_at(
    entries: Seq<(Seq<char>, JsonView)>,
    key: Seq<char>,
    value: JsonView,
    place: int,
)
    requires
        place_for(entries, key, place),
    ensures
        with_entry(entries, key, value) == if place < entries.len() && entries[place].0 == key {
            entries.update(place, (key, value))
        } else {
            entries.insert(place, (key, value))
        },
    decreases entries.len(),
{
    let entry = (key, value);
    if entries.len() == 0 {
        assert(with_entry(entries, key, value) =~= entries.insert(0, entry));
    } else if place == 0 {
        if entries[0].0 == key {
            assert(with_entry(entries, key, value) =~= entries.update(0, entry));
        } else {
            assert(with_entry(entries, key, value) =~= entries.insert(0, entry));
        }
    } else {
        let rest = entries.drop_first();
        assert(entries[0].0 != key && !text_before(key, entries[0].0));
        assert forall|i: int| 0 <= i < place - 1 implies (#[trigger] rest[i]).0 != key
            && !text_before(key, rest[i].0) by {
            assert(rest[i] == entries[i + 1]);
        }
        lemma_with_entry_at(rest, key, value, place - 1);
        if place < entries.len() && entries[place].0 == key {
            assert(seq![entries[0]] + rest.update(place - 1, entry) =~= entries.update(place, entry));
        } else {
            assert(seq![entries[0]] + rest.insert(place - 1, entry) =~= entries.insert(place, entry));
        }
    }
}

proof fn lemma_with_entry_keeps(
    entries: Seq<(Seq<char>, JsonView)>,
    key: Seq<char>,
    value: JsonView,
    low: Seq<char>,
)
    ensures
        text_before(low, key) && keys_after(entries, low) ==> keys_after(
            with_entry(entries, key, value),
            low,
        ),
        ordered(value) && values_ordered(entries) ==> values_ordered(
            with_entry(entries, key, value),
        ),
    decreases entries.len(),
{
    if entries.len() > 0 {
        let rest = entries.drop_first();
        assert forall|i: int| 0 <= i < rest.len() implies #[trigger] rest[i] == entries[i + 1] by {}
        lemma_with_entry_keeps(rest, key, value, low);
        assert(keys_after(entries, low) ==> keys_after(rest, low));
        assert(values_ordered(entries) ==> values_ordered(rest));
        let all = with_entry(entries, key, value);
        let tail = with_entry(rest, key, value);
        assert forall|i: int| 0 <= i < all.len() implies #[trigger] all[i] == (key, value) || (exists|j: int|
            0 <= j < entries.len() && all[i] == #[trigger] entries[j]) || (exists|j: int|
            0 <= j < tail.len() && all[i] == #[trigger] tail[j]) by {
            if entries[0].0 == key {
                if i > 0 {
                    assert(all[i] == entries[i]);
                }
            } else if text_before(key, entries[0].0) {
                if i > 0 {
                    assert(all[i] == entries[i - 1]);
                }
            } else {
                if i > 0 {
                    assert(all[i] == tail[i - 1]);
                } else {
                    assert(all[i] == entries[0]);
                }
            }
        }
    }
}

proof fn lemma_with_entry_ascending(
    entries: Seq<(Seq<char>, JsonView)>,
    key: Seq<char>,
    value: JsonView,
)
    requires
        ascending(entries),
    ensures
        ascending(with_entry(entries, key, value)),
    decreases entries.len(),
{
    if entries.len() > 0 {
        let first = entries[0].0;
        let rest = entries.drop_first();
        assert forall|i: int, j: int| 0 <= i < j < rest.len() implies text_before(
            (#[trigger] rest[i]).0,
            (#[trigger] rest[j]).0,
        ) by {
            assert(rest[i] == entries[i + 1] && rest[j] == entries[j + 1]);
        }
        assert forall|i: int| 0 <= i < rest.len() implies text_before(first, (#[trigger] rest[i]).0) by {
            assert(rest[i] == entries[i + 1]);
        }
        lemma_text_before_total(key, first);
        if first != key {
            if text_before(key, first) {
                assert forall|i: int| 0 <= i < entries.len() implies text_before(
                    key,
                    (#[trigger] entries[i]).0,
                ) by {
                    if i > 0 {
                        assert(text_before(entries[0].0, entries[i].0));
                        lemma_text_before_transitive(key, first, entries[i].0);
                    }
                }
            } else {
                lemma_with_entry_ascending(rest, key, value);
                lemma_with_entry_keeps(rest, key, value, first);
            }
        }
    }
}

/// An object stays in order with one more entry.
pub proof fn lemma_with_ordered(object: JsonView, key: Seq<char>, value: JsonView)
    requires
        ordered(object),
        ordered(value),
    ensures
        ordered(object.with(key, value)),
{
    match object {
        JsonView::Object(entries) => {
            assert(ascending(entries));
            lemma_with_entry_ascending(entries, key, value);
            lemma_with_entry_keeps(entries, key, value, key);
        },
        _ => {},
    }
}

/// An array stays in order with one more item.
pub proof fn lemma_item_ordered(list: JsonView, value: JsonView)
    requires
        ordered(list),
        ordered(value),
    ensures
        ordered(list.item(value)),
{
}

/// What is put under a key is found there, and nothing else is found elsewhere.
pub proof fn lemma_member_with(object: JsonView, key: Seq<char>, value: JsonView, other: Seq<char>)
    requires
        object is Object,
    ensures
        member(object.with(key, value), other) == if other == key {
            Some(value)
        } else {
            member(object, other)
        },
{
    lemma_entry_value_with(object->Object_0, key, value, other);
}

proof fn lemma_entry_value_with(
    entries: Seq<(Seq<char>, JsonView)>,
    key: Seq<char>,
    value: JsonView,
    other: Seq<char>,
)
    ensures
        entry_value(with_entry(entries, key, value), other) == if other == key {
            Some(value)
        } else {
            entry_value(entries, other)
        },
    decreases entries.len(),
{
    reveal_with_fuel(entry_value, 2);
    let all = with_entry(entries, key, value);
    if entries.len() == 0 {
        assert(all.drop_first() =~= Seq::<(Seq<char>, JsonView)>::empty());
    } else if entries[0].0 == key {
        assert(all.drop_first() =~= entries.drop_first());
    } else if text_before(key, entries[0].0) {
        assert(all.drop_first() =~= entries);
    } else {
        assert(all.drop_first() =~= with_entry(entries.drop_first(), key, value));
        lemma_entry_value_with(entries.drop_first(), key, value, other);
    }
}

/// The object that holds the first `count` of these entries, which are put into it one after the other.
pub open spec fn filled_to(entries: Seq<(Seq<char>, JsonView)>, count: int) -> JsonView
    decreases count,
{
    if count <= 0 {
        JsonView::object()
    } else {
        filled_to(entries, count - 1).with(entries[count - 1].0, entries[count - 1].1)
    }
}

/// The object that holds these entries.
pub open spec fn filled(entries: Seq<(Seq<char>, JsonView)>) -> JsonView {
    filled_to(entries, entries.len() as int)
}

/// Whether no two entries have the same key.
pub open spec fn distinct_keys(entries: Seq<(Seq<char>, JsonView)>) -> bool {
    forall|i: int, j: int|
        0 <= i < j < entries.len() ==> (#[trigger] entries[i]).0 != (#[trigger] entries[j]).0
}

/// Whether one of the first `count` entries has a key.
pub open spec fn has_key(entries: Seq<(Seq<char>, JsonView)>, count: int, key: Seq<char>) -> bool {
    exists|i: int| 0 <= i < count && (#[trigger] entries[i]).0 == key
}

proof fn lemma_filled_to(entries: Seq<(Seq<char>, JsonView)>, count: int, key: Seq<char>)
    requires
        distinct_keys(entries),
        0 <= count <= entries.len(),
    ensures
        filled_to(entries, count) is Object,
        member(filled_to(entries, count), key) is Some <==> has_key(entries, count, key),
        forall|i: int|
            0 <= i < count && (#[trigger] entries[i]).0 == key ==> member(
                filled_to(entries, count),
                key,
            ) == Some(entries[i].1),
    decreases count,
{
    if count > 0 {
        let last = entries[count - 1];
        lemma_filled_to(entries, count - 1, key);
        lemma_member_with(filled_to(entries, count - 1), last.0, last.1, key);
        if last.0 == key {
            assert(entries[count - 1].0 == key);
            assert(has_key(entries, count, key));
        } else if has_key(entries, count - 1, key) {
            let i = choose|i: int| 0 <= i < count - 1 && (#[trigger] entries[i]).0 == key;
            assert(entries[i].0 == key);
            assert(has_key(entries, count, key));
        } else if has_key(entries, count, key) {
            let i = choose|i: int| 0 <= i < count && (#[trigger] entries[i]).0 == key;
            assert(i == count - 1);
        }
    }
}

/// An object that is filled with entries of distinct keys has each of them, and nothing else.
pub proof fn lemma_filled_member(entries: Seq<(Seq<char>, JsonView)>, key: Seq<char>)
    requires
        distinct_keys(entries),
    ensures
        member(filled(entries), key) is Some <==> has_key(entries, entries.len() as int, key),
        forall|i: int|
            0 <= i < entries.len() && (#[trigger] entries[i]).0 == key ==> member(
                filled(entries),
                key,
            ) == Some(entries[i].1),
{
    lemma_filled_to(entries, entries.len() as int, key);
}

/// An object that is filled with entries of distinct keys has the value of each entry under its key.
pub proof fn lemma_entries_held(entries: Seq<(Seq<char>, JsonView)>)
    requires
        distinct_keys(entries),
    ensures
        forall|i: int|
            0 <= i < entries.len() ==> member(filled(entries), (#[trigger] entries[i]).0) == Some(
                entries[i].1,
            ),
{
    assert forall|i: int| 0 <= i < entries.len() implies member(
        filled(entries),
        (#[trigger] entries[i]).0,
    ) == Some(entries[i].1) by {
        lemma_filled_member(entries, entries[i].0);
    }
}

/// An object that is filled with plain values is flat.
pub proof fn lemma_filled_flat(entries: Seq<(Seq<char>, JsonView)>, count: int)
    requires
        all_plain(entries),
        0 <= count <= entries.len(),
    ensures
        flat(filled_to(entries, count)),
    decreases count,
{
    if count > 0 {
        lemma_filled_flat(entries, count - 1);
        assert(plain(entries[count - 1].1));
        lemma_with_flat(filled_to(entries, count - 1), entries[count - 1].0, entries[count - 1].1);
    }
}

/// What pairs of keys and values say.
pub open spec fn pairs_view(pairs: Seq<(&'static str, Json)>) -> Seq<(Seq<char>, JsonView)> {
    Seq::new(pairs.len(), |i: int| (pairs[i].0@, pairs[i].1@))
}

/// `serde_json::from_str::<Value>` reads a text that holds one JSON value. Its result depends on
/// the text alone; what it makes of each text is not said here.
#[verifier::external_body]
fn parse_value(text: &str) -> (result: Result<serde_json::Value, String>)
    ensures
        match result {
            Ok(value) => parsed(text@) == Ok::<JsonView, Seq<char>>(content(value)),
            Err(message) => parsed(text@) == Err::<JsonView, Seq<char>>(message@),
        },
{
    serde_json::from_str::<serde_json::Value>(text).map_err(|error| error.to_string())
}

/// Takes a `serde_json::Value` apart. Its maps are kept in a `BTreeMap`, so that the entries come
/// in the order of their keys, each key once. A number that neither `as_u64` nor `as_i64` gives is
/// one in floating point, a fraction; this is the one place that makes fractions of numbers.
#[verifier::external_body]
fn json_from(value: serde_json::Value) -> (json: Json)
    ensures
        json@ == content(value),
        ordered(json@),
{
    match value {
        serde_json::Value::Null => Json::Null,
        serde_json::Value::Bool(flag) => Json::Bool(flag),
        serde_json::Value::Number(number) => match (number.as_u64(), number.as_i64()) {
            (Some(n), _) => Json::Unsigned(n),
            (None, Some(n)) => Json::Signed(n),
            (None, None) => Json::Float(Fraction { number }),
        },
        serde_json::Value::String(text) => Json::Text(text),
        serde_json::Value::Array(items) => Json::Array(items.into_iter().map(json_from).collect()),
        serde_json::Value::Object(map) => {
            Json::Object(map.into_iter().map(|(key, item)| (key, json_from(item))).collect())
        }
    }
}

/// Puts a `serde_json::Value` together. A map keeps the entries whose keys are in order as they
/// are. The number in a fraction is in floating point, as the invariant of `Fraction` says, so that
/// taking the value apart gives the fraction again, and not an integer.
#[verifier::external_body]
fn value_from(json: &Json) -> (value: serde_json::Value)
    requires
        ordered(json@),
    ensures
        content(value) == json@,
{
    match json {
        Json::Null => serde_json::Value::Null,
        Json::Bool(flag) => serde_json::Value::Bool(*flag),
        Json::Unsigned(n) => serde_json::Value::from(*n),
        Json::Signed(n) => serde_json::Value::from(*n),
        Json::Float(fraction) => serde_json::Value::Number(fraction.number.clone()),
        Json::Text(text) => serde_json::Value::String(text.clone()),
        Json::Array(items) => serde_json::Value::Array(items.iter().map(value_from).collect()),
        Json::Object(entries) => {
            entries.iter().map(|entry| (entry.0.clone(), value_from(&entry.1))).collect()
        }
    }
}

/// `serde_json::to_string` writes a value without spaces, the entries of an object in the order
/// of their keys. A `Value` has only text as keys, so that it never fails. What it has written of an
/// object that holds no fractions, arrays and objects, `from_str` reads back. Of other values this is
/// not said: a fraction may be read back as its neighbour, and what is nested deeply is refused.
#[verifier::external_body]
fn render_value(value: &serde_json::Value) -> (text: String)
    ensures
        text@ == compact(content(*value)),
        flat(content(*value)) ==> parsed(text@) is Ok && parsed(text@)->Ok_0 == content(*value),
{
    serde_json::to_string(value).expect("a JSON value always has a text")
}

/// `serde_json::to_string_pretty` writes a value on lines of its own, with two spaces for each
/// level, the entries of an object in the order of their keys.
#[verifier::external_body]
fn render_value_pretty(value: &serde_json::Value) -> (text: String)
    ensures
        text@ == pretty(content(*value), 0),
{
    serde_json::to_string_pretty(value).expect("a JSON value always has a text")
}

/// `Number::clone` gives the same number, kept in the same way and written in the same text.
pub assume_specification[ <serde_json::Number as Clone>::clone ](number: &serde_json::Number) -> (copy: serde_json::Number)
    ensures
        number_text(copy) == number_text(*number),
        is_f64(copy) == is_f64(*number),
;

/// A second value like the first.
fn copied(json: &Json) -> (copy: Json)
    ensures
        copy@ == json@,
    decreases json,
{
    match json {
        Json::Null => Json::Null,
        Json::Bool(flag) => Json::Bool(*flag),
        Json::Unsigned(n) => Json::Unsigned(*n),
        Json::Signed(n) => Json::Signed(*n),
        Json::Float(fraction) => Json::Float(fraction.clone()),
        Json::Text(text) => Json::Text(text.clone()),
        Json::Array(items) => {
            let mut copies: Vec<Json> = Vec::new();
            let mut index: usize = 0;
            while index < items.len()
                invariant
                    json == Json::Array(*items),
                    index <= items@.len(),
                    copies@.len() == index,
                    forall|i: int| 0 <= i < index ==> (#[trigger] copies@[i])@ == items@[i]@,
                decreases items@.len() - index,
            {
                assert(decreases_to!(*json => json->Array_0@[index as int]));
                copies.push(copied(&items[index]));
                index = index + 1;
            }
            proof {
                lemma_json_array(*items);
                lemma_json_array(copies);
                assert(items_view(copies@) =~= items_view(items@));
            }
            Json::Array(copies)
        },
        Json::Object(entries) => {
            let mut copies: Vec<(String, Json)> = Vec::new();
            let mut index: usize = 0;
            while index < entries.len()
                invariant
                    json == Json::Object(*entries),
                    index <= entries@.len(),
                    copies@.len() == index,
                    forall|i: int|
                        0 <= i < index ==> (#[trigger] copies@[i]).0@ == entries@[i].0@
                            && copies@[i].1@ == entries@[i].1@,
                decreases entries@.len() - index,
            {
                let key: String = entries[index].0.clone();
                assert(decreases_to!(*json => json->Object_0@[index as int]));
                assert(decreases_to!(*json => json->Object_0@[index as int].1));
                let value: Json = copied(&entries[index].1);
                copies.push((key, value));
                index = index + 1;
            }
            proof {
                lemma_json_object(*entries);
                lemma_json_object(copies);
                assert(entries_view(copies@) =~= entries_view(entries@));
            }
            Json::Object(copies)
        },
    }
}

impl Clone for Json {
    fn clone(&self) -> (copy: Json)
        ensures
            copy@ == self@,
    {
        copied(self)
    }
}

/// The place of a key among entries: the first whose key is the same or stands after it.
fn entry_place(entries: &Vec<(String, Json)>, key: &str) -> (place: usize)
    ensures
        place_for(entries_view(entries@), key@, place as int),
{
    let mut place: usize = 0;
    while place < entries.len() && !same_text(entries[place].0.as_str(), key) && !is_text_before(
        key,
        entries[place].0.as_str(),
    )
        invariant
            place <= entries@.len(),
            forall|i: int|
                0 <= i < place ==> (#[trigger] entries_view(entries@)[i]).0 != key@ && !text_before(
                    key@,
                    entries_view(entries@)[i].0,
                ),
        decreases entries@.len() - place,
    {
        place = place + 1;
    }
    place
}

impl Json {
    /// A text.
    pub fn text(text: &str) -> (json: Json)
        ensures
            json@ == JsonView::Text(text@),
            ordered(json@),
    {
        Json::Text(text.to_owned())
    }

    /// A text, or null where there is none.
    pub fn optional_text(text: &Option<String>) -> (json: Json)
        ensures
            json@ == JsonView::optional_text(
                match text {
                    Some(text) => Some(text@),
                    None => None,
                },
            ),
            ordered(json@),
    {
        match text {
            Some(text) => Json::Text(text.clone()),
            None => Json::Null,
        }
    }

    /// The object without entries.
    pub fn object() -> (json: Json)
        ensures
            json@ == JsonView::object(),
            ordered(json@),
    {
        let entries: Vec<(String, Json)> = Vec::new();
        proof {
            lemma_json_object(entries);
            assert(entries_view(entries@) =~= Seq::<(Seq<char>, JsonView)>::empty());
        }
        Json::Object(entries)
    }

    /// The object that holds these entries.
    pub fn filled(pairs: Vec<(&'static str, Json)>) -> (json: Json)
        requires
            forall|i: int| 0 <= i < pairs@.len() ==> ordered((#[trigger] pairs@[i]).1@),
        ensures
            json@ == filled(pairs_view(pairs@)),
            ordered(json@),
    {
        let ghost all = pairs@;
        let ghost entries = pairs_view(pairs@);
        let mut rest: Vec<(&'static str, Json)> = pairs;
        let mut json: Json = Json::object();
        let ghost mut count: int = 0;
        proof {
            assert(all.skip(0) =~= all);
        }
        while rest.len() > 0
            invariant
                entries == pairs_view(all),
                forall|i: int| 0 <= i < all.len() ==> ordered((#[trigger] all[i]).1@),
                0 <= count,
                count + rest@.len() == all.len(),
                rest@ == all.skip(count),
                json@ == filled_to(entries, count),
                json@ is Object,
                ordered(json@),
            decreases rest@.len(),
        {
            proof {
                assert(rest@[0] == all[count]);
            }
            let (key, value): (&'static str, Json) = rest.remove(0);
            json = json.with(key, value);
            proof {
                count = count + 1;
                assert(rest@ =~= all.skip(count));
            }
        }
        json
    }

    /// The array without items.
    pub fn list() -> (json: Json)
        ensures
            json@ == JsonView::list(),
            ordered(json@),
    {
        let items: Vec<Json> = Vec::new();
        proof {
            lemma_json_array(items);
            assert(items_view(items@) =~= Seq::<JsonView>::empty());
        }
        Json::Array(items)
    }

    /// This array with one more item at its end.
    pub fn item(self, value: Json) -> (json: Json)
        requires
            self@ is Array,
        ensures
            json@ == self@.item(value@),
            ordered(self@) && ordered(value@) ==> ordered(json@),
    {
        proof {
            if ordered(self@) && ordered(value@) {
                lemma_item_ordered(self@, value@);
            }
        }
        match self {
            Json::Array(items) => {
                let ghost before = items;
                let mut items: Vec<Json> = items;
                items.push(value);
                proof {
                    lemma_json_array(before);
                    lemma_json_array(items);
                    assert(items_view(items@) =~= items_view(before@).push(value@));
                }
                Json::Array(items)
            },
            other => other,
        }
    }

    /// This object with one more entry: in its place by the order of the keys, or in place of the
    /// entry that has its key.
    pub fn with(self, key: &str, value: Json) -> (json: Json)
        requires
            self@ is Object,
        ensures
            json@ == self@.with(key@, value@),
            ordered(self@) && ordered(value@) ==> ordered(json@),
    {
        proof {
            if ordered(self@) && ordered(value@) {
                lemma_with_ordered(self@, key@, value@);
            }
        }
        match self {
            Json::Object(entries) => {
                let mut entries: Vec<(String, Json)> = entries;
                let ghost before = entries;
                let ghost all = entries_view(before@);
                let place: usize = entry_place(&entries, key);
                let present: bool = place < entries.len() && same_text(entries[place].0.as_str(), key);
                if present {
                    entries[place] = (key.to_owned(), value);
                } else {
                    entries.insert(place, (key.to_owned(), value));
                }
                proof {
                    lemma_with_entry_at(all, key@, value@, place as int);
                }
                proof {
                    lemma_json_object(before);
                    lemma_json_object(entries);
                    assert(entries_view(entries@) =~= with_entry(all, key@, value@));
                }
                Json::Object(entries)
            },
            other => other,
        }
    }

    /// What this object holds under a key; nothing where this is no object.
    pub fn get(&self, key: &str) -> (found: Option<&Json>)
        ensures
            match found {
                Some(value) => member(self@, key@) == Some(value@),
                None => member(self@, key@) is None,
            },
            ordered(self@) ==> (found matches Some(value) ==> ordered(value@)),
    {
        match self {
            Json::Object(entries) => {
                let ghost all = entries_view(entries@);
                let mut index: usize = 0;
                proof {
                    lemma_json_object(*entries);
                    assert(all.skip(0) =~= all);
                }
                while index < entries.len()
                    invariant
                        index <= entries@.len(),
                        self@ == JsonView::Object(all),
                        all == entries_view(entries@),
                        entry_value(all, key@) == entry_value(all.skip(index as int), key@),
                    decreases entries@.len() - index,
                {
                    proof {
                        let rest = all.skip(index as int);
                        assert(rest[0] == all[index as int]);
                        assert(rest.drop_first() =~= all.skip(index + 1));
                    }
                    if same_text(entries[index].0.as_str(), key) {
                        return Some(&entries[index].1);
                    }
                    index = index + 1;
                }
                None
            },
            _ => None,
        }
    }

    /// The characters of this text; nothing where this is no text.
    pub fn as_str(&self) -> (text: Option<&str>)
        ensures
            match text {
                Some(text) => self@ == JsonView::Text(text@),
                None => !(self@ is Text),
            },
    {
        match self {
            Json::Text(text) => Some(text.as_str()),
            _ => None,
        }
    }

    /// The text that this object holds under a key, where there is one.
    pub fn get_text(&self, key: &str) -> (text: Option<&str>)
        ensures
            match text {
                Some(text) => text_member(self@, key@) == Some(text@),
                None => text_member(self@, key@) is None,
            },
    {
        match self.get(key) {
            Some(value) => value.as_str(),
            None => None,
        }
    }
}

/// Reads a text that holds one JSON value, or says what is wrong with it.
pub fn parse(text: &str) -> (result: Result<Json, String>)
    ensures
        match result {
            Ok(json) => parsed(text@) == Ok::<JsonView, Seq<char>>(json@) && ordered(json@),
            Err(message) => parsed(text@) == Err::<JsonView, Seq<char>>(message@),
        },
{
    match parse_value(text) {
        Ok(value) => Ok(json_from(value)),
        Err(message) => Err(message),
    }
}

/// Writes a value as JSON text without spaces.
pub fn render(json: &Json) -> (text: String)
    requires
        ordered(json@),
    ensures
        text@ == compact(json@),
        flat(json@) ==> parsed(text@) == Ok::<JsonView, Seq<char>>(json@),
{
    render_value(&value_from(json))
}

/// Writes a value as JSON text on lines of its own.
pub fn render_pretty(json: &Json) -> (text: String)
    requires
        ordered(json@),
    ensures
        text@ == pretty(json@, 0),
{
    render_value_pretty(&value_from(json))
}

/// The character that stands for one in a JSON string: itself, or one behind a backslash, or the one whose
/// number is written in four hexadecimal digits.
pub open spec fn character_of(written: Seq<char>) -> int {
    if written.len() == 1 {
        written[0] as u32 as int
    } else if written.len() == 2 && written[0] == '\\' {
        if written[1] == 'b' {
            8
        } else if written[1] == 't' {
            9
        } else if written[1] == 'n' {
            10
        } else if written[1] == 'f' {
            12
        } else if written[1] == 'r' {
            13
        } else if written[1] == '"' || written[1] == '\\' {
            written[1] as u32 as int
        } else {
            -1
        }
    } else if written.len() == 6 && written[0] == '\\' && written[1] == 'u' && written[2] == '0'
        && written[3] == '0' {
        16 * digit_of(written[4]) + digit_of(written[5])
    } else {
        -1
    }
}

/// The number that a hexadecimal digit stands for.
pub open spec fn digit_of(c: char) -> int {
    if '0' <= c <= '9' {
        c as u32 - 48
    } else if 'a' <= c <= 'f' {
        c as u32 - 87
    } else {
        -1000
    }
}

/// What is written in a JSON string for a character stands for it; and no character that JSON forbids there
/// is written as it is.
pub proof fn law_characters_are_read_back(c: char)
    ensures
        character_of(escaped_char(c)) == c as u32,
        forall|i: int| 0 <= i < escaped_char(c).len() ==> (#[trigger] escaped_char(c)[i]) as u32 >= 32,
        c == '"' || c == '\\' ==> escaped_char(c).len() == 2 && escaped_char(c)[0] == '\\',
        escaped_char(c).len() == 1 ==> escaped_char(c)[0] == c && c != '"' && c != '\\' && c as u32 >= 32,
        c as u32 >= 32 && c != '"' && c != '\\' ==> escaped_char(c) == seq![c],
{
    let code = c as u32 as int;
    if code < 32 {
        assert(code / 16 == 0 || code / 16 == 1);
        assert(code == 16 * (code / 16) + code % 16);
    }
}

} // verus!
