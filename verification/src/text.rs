//! Text measured in UTF-8 bytes and cut on character boundaries.
use vstd::prelude::*;
use vstd::utf8::encode_utf8;

verus! {

/// `String::push` appends one character.
pub assume_specification[ String::push ](text: &mut String, character: char)
    ensures
        final(text)@ == old(text)@.push(character),
;

/// The number of bytes that UTF-8 spends on one character.
pub open spec fn char_width(c: char) -> nat {
    if c as u32 <= 0x7f {
        1
    } else if c as u32 <= 0x7ff {
        2
    } else if c as u32 <= 0xffff {
        3
    } else {
        4
    }
}

/// The number of bytes that UTF-8 spends on a text.
pub open spec fn byte_len(text: Seq<char>) -> nat {
    encode_utf8(text).len()
}

/// How many characters from the front of `text` fit into `max` bytes.
pub open spec fn fitting_front(text: Seq<char>, max: int) -> nat
    decreases text.len(),
{
    if text.len() == 0 || char_width(text[0]) > max {
        0
    } else {
        1 + fitting_front(text.drop_first(), max - char_width(text[0]))
    }
}

/// How many characters from the back of `text` fit into `max` bytes.
pub open spec fn fitting_back(text: Seq<char>, max: int) -> nat
    decreases text.len(),
{
    if text.len() == 0 || char_width(text.last()) > max {
        0
    } else {
        1 + fitting_back(text.drop_last(), max - char_width(text.last()))
    }
}

/// The longest beginning of `text` that takes at most `max` bytes.
pub open spec fn prefix_within(text: Seq<char>, max: int) -> Seq<char> {
    text.take(fitting_front(text, max) as int)
}

/// The longest ending of `text` that takes at most `max` bytes.
pub open spec fn suffix_within(text: Seq<char>, max: int) -> Seq<char> {
    text.skip(text.len() - fitting_back(text, max))
}

/// `text` as it is where it fits into `max` bytes; else its longest beginning that leaves room
/// for three dots, and the dots.
pub open spec fn shortened(text: Seq<char>, max: int) -> Seq<char> {
    if byte_len(text) <= max {
        text
    } else {
        prefix_within(text, if max >= 3 { max - 3 } else { 0 }) + "..."@
    }
}

pub proof fn lemma_byte_len_empty()
    ensures
        byte_len(Seq::<char>::empty()) == 0,
{
}

pub proof fn lemma_byte_len_first(text: Seq<char>)
    requires
        text.len() > 0,
    ensures
        byte_len(text) == char_width(text[0]) + byte_len(text.drop_first()),
{
    let first = text[0] as u32;
    vstd::utf8::char_is_scalar(text[0]);
    assert(vstd::utf8::encode_scalar(first).len() == char_width(text[0]));
}

/// The bytes of a concatenation are the bytes of its parts.
pub proof fn lemma_byte_len_concat(a: Seq<char>, b: Seq<char>)
    ensures
        byte_len(a + b) == byte_len(a) + byte_len(b),
    decreases a.len(),
{
    if a.len() == 0 {
        assert(a + b =~= b);
    } else {
        assert((a + b).drop_first() =~= a.drop_first() + b);
        lemma_byte_len_concat(a.drop_first(), b);
    }
}

pub proof fn lemma_byte_len_one(c: char)
    ensures
        byte_len(seq![c]) == char_width(c),
{
    reveal_with_fuel(encode_utf8, 2);
    assert(seq![c].drop_first() =~= Seq::<char>::empty());
}

pub proof fn lemma_byte_len_push(text: Seq<char>, c: char)
    ensures
        byte_len(text.push(c)) == byte_len(text) + char_width(c),
{
    assert(text.push(c) =~= text + seq![c]);
    lemma_byte_len_concat(text, seq![c]);
    lemma_byte_len_one(c);
}

pub proof fn lemma_byte_len_last(text: Seq<char>)
    requires
        text.len() > 0,
    ensures
        byte_len(text) == byte_len(text.drop_last()) + char_width(text.last()),
{
    assert(text =~= text.drop_last().push(text.last()));
    lemma_byte_len_push(text.drop_last(), text.last());
}

/// A text has at least one byte for each character and at most four.
pub proof fn lemma_byte_len_bounds(text: Seq<char>)
    ensures
        text.len() <= byte_len(text) <= 4 * text.len(),
    decreases text.len(),
{
    if text.len() > 0 {
        lemma_byte_len_first(text);
        lemma_byte_len_bounds(text.drop_first());
    }
}

/// The beginning that fits is within the limit, and no longer beginning is.
pub proof fn lemma_prefix_within(text: Seq<char>, max: int)
    requires
        0 <= max,
    ensures
        fitting_front(text, max) <= text.len(),
        byte_len(prefix_within(text, max)) <= max,
        forall|n: int|
            fitting_front(text, max) < n <= text.len() ==> byte_len(#[trigger] text.take(n)) > max,
        byte_len(text) <= max ==> prefix_within(text, max) == text,
    decreases text.len(),
{
    if text.len() == 0 {
        assert(prefix_within(text, max) =~= text);
    } else if char_width(text[0]) > max {
        assert(prefix_within(text, max) =~= Seq::<char>::empty());
        assert forall|n: int| 0 < n <= text.len() implies byte_len(#[trigger] text.take(n)) > max by {
            lemma_byte_len_first(text.take(n));
        }
        lemma_byte_len_first(text);
    } else {
        let rest = text.drop_first();
        let left = max - char_width(text[0]);
        lemma_prefix_within(rest, left);
        let kept = prefix_within(text, max);
        assert(kept.drop_first() =~= prefix_within(rest, left));
        lemma_byte_len_first(kept);
        assert forall|n: int|
            fitting_front(text, max) < n <= text.len() implies byte_len(#[trigger] text.take(n)) > max by {
            assert(text.take(n).drop_first() =~= rest.take(n - 1));
            lemma_byte_len_first(text.take(n));
        }
        lemma_byte_len_first(text);
        if byte_len(text) <= max {
            assert(rest.take(fitting_front(rest, left) as int).len() == rest.len());
            assert(kept =~= text);
        }
    }
}

/// The ending that fits is within the limit, and no longer ending is.
pub proof fn lemma_suffix_within(text: Seq<char>, max: int)
    requires
        0 <= max,
    ensures
        fitting_back(text, max) <= text.len(),
        byte_len(suffix_within(text, max)) <= max,
        forall|n: int|
            0 <= n < text.len() - fitting_back(text, max) ==> byte_len(#[trigger] text.skip(n)) > max,
        byte_len(text) <= max ==> suffix_within(text, max) == text,
    decreases text.len(),
{
    if text.len() == 0 {
        assert(suffix_within(text, max) =~= text);
    } else if char_width(text.last()) > max {
        assert(suffix_within(text, max) =~= Seq::<char>::empty());
        assert forall|n: int| 0 <= n < text.len() implies byte_len(#[trigger] text.skip(n)) > max by {
            lemma_byte_len_last(text.skip(n));
        }
        lemma_byte_len_last(text);
    } else {
        let rest = text.drop_last();
        let left = max - char_width(text.last());
        lemma_suffix_within(rest, left);
        let kept = suffix_within(text, max);
        assert(kept.drop_last() =~= suffix_within(rest, left));
        lemma_byte_len_last(kept);
        assert forall|n: int|
            0 <= n < text.len() - fitting_back(text, max) implies byte_len(#[trigger] text.skip(n)) > max by {
            assert(text.skip(n).drop_last() =~= rest.skip(n));
            lemma_byte_len_last(text.skip(n));
        }
        lemma_byte_len_last(text);
        if byte_len(text) <= max {
            assert(suffix_within(rest, left).len() == rest.len());
            assert(kept =~= text);
        }
    }
}

/// The number of characters kept from the front is the one whose bytes fit while one more does not.
pub proof fn lemma_fitting_front_unique(text: Seq<char>, max: int, n: int)
    requires
        0 <= max,
        0 <= n <= text.len(),
        byte_len(text.take(n)) <= max,
        n < text.len() ==> byte_len(text.take(n + 1)) > max,
    ensures
        fitting_front(text, max) == n,
{
    lemma_prefix_within(text, max);
    let kept = fitting_front(text, max) as int;
    if kept < n {
        assert(byte_len(text.take(n)) > max);
    } else if n < kept {
        assert(text.take(kept) =~= text.take(n + 1) + text.subrange(n + 1, kept));
        lemma_byte_len_concat(text.take(n + 1), text.subrange(n + 1, kept));
    }
}

/// The number of characters kept from the back is the one whose bytes fit while one more does not.
pub proof fn lemma_fitting_back_unique(text: Seq<char>, max: int, n: int)
    requires
        0 <= max,
        0 <= n <= text.len(),
        byte_len(text.skip(n)) <= max,
        n > 0 ==> byte_len(text.skip(n - 1)) > max,
    ensures
        fitting_back(text, max) == text.len() - n,
{
    lemma_suffix_within(text, max);
    let start = text.len() - fitting_back(text, max);
    if n < start {
        assert(byte_len(text.skip(n)) > max);
    } else if start < n {
        assert(text.skip(start) =~= text.subrange(start, n - 1) + text.skip(n - 1));
        lemma_byte_len_concat(text.subrange(start, n - 1), text.skip(n - 1));
    }
}

/// A shortened text is within its limit, as soon as the limit has room for the dots.
pub proof fn lemma_shortened_within(text: Seq<char>, max: int)
    requires
        3 <= max,
    ensures
        byte_len(shortened(text, max)) <= max,
{
    if byte_len(text) > max {
        lemma_prefix_within(text, max - 3);
        reveal_strlit("...");
        lemma_byte_len_concat(prefix_within(text, max - 3), "..."@);
        assert(vstd::utf8::is_ascii_chars("..."@));
        vstd::utf8::is_ascii_chars_encode_utf8("..."@);
    }
}

/// The bytes that UTF-8 spends on `text`.
pub fn byte_length(text: &str) -> (length: usize)
    ensures
        length == byte_len(text@),
{
    text.as_bytes().len()
}

/// The bytes that UTF-8 spends on one character.
pub fn character_width(character: char) -> (width: usize)
    ensures
        width == char_width(character),
{
    let code: u32 = character as u32;
    if code <= 0x7f {
        1
    } else if code <= 0x7ff {
        2
    } else if code <= 0xffff {
        3
    } else {
        4
    }
}

/// The longest beginning of `text` that takes at most `max_bytes` bytes.
pub fn bounded_utf8_prefix(text: &str, max_bytes: usize) -> (prefix: String)
    ensures
        prefix@ == prefix_within(text@, max_bytes as int),
{
    let total: usize = byte_length(text);
    let mut used: usize = 0;
    let mut count: usize = 0;
    proof {
        assert(text@.take(0) =~= Seq::<char>::empty());
        lemma_byte_len_bounds(text@);
    }
    for character in iter: text.chars()
        invariant_except_break
            count == iter.index(),
        invariant
            iter.seq() == text@,
            total == byte_len(text@),
            text@.len() <= total,
            count <= text@.len(),
            used == byte_len(text@.take(count as int)),
            used <= max_bytes,
            used <= total,
        ensures
            count < text@.len() ==> byte_len(text@.take(count + 1)) > max_bytes,
    {
        let width: usize = character_width(character);
        proof {
            assert(text@.take(count + 1) =~= text@.take(count as int).push(character));
            lemma_byte_len_push(text@.take(count as int), character);
            assert(text@ =~= text@.take(count + 1) + text@.skip(count + 1));
            lemma_byte_len_concat(text@.take(count + 1), text@.skip(count + 1));
        }
        if width > max_bytes - used {
            break;
        }
        used = used + width;
        count = count + 1;
    }
    proof {
        lemma_fitting_front_unique(text@, max_bytes as int, count as int);
        assert(text@.subrange(0, count as int) =~= text@.take(count as int));
    }
    text.substring_char(0, count).to_owned()
}

/// The longest ending of `text` that takes at most `max_bytes` bytes.
pub fn bounded_utf8_suffix(text: &str, max_bytes: usize) -> (suffix: String)
    ensures
        suffix@ == suffix_within(text@, max_bytes as int),
{
    let mut left: usize = byte_length(text);
    let mut start: usize = 0;
    proof {
        assert(text@.skip(0) =~= text@);
        lemma_byte_len_bounds(text@);
    }
    let length: usize = text.unicode_len();
    for character in iter: text.chars()
        invariant_except_break
            start == iter.index(),
            start > 0 ==> byte_len(text@.skip(start - 1)) > max_bytes,
        invariant
            iter.seq() == text@,
            length == text@.len(),
            start <= text@.len(),
            left == byte_len(text@.skip(start as int)),
        ensures
            left <= max_bytes,
            start > 0 ==> byte_len(text@.skip(start - 1)) > max_bytes,
    {
        if left <= max_bytes {
            break;
        }
        let width: usize = character_width(character);
        proof {
            let rest = text@.skip(start as int);
            assert(rest.drop_first() =~= text@.skip(start + 1));
            lemma_byte_len_first(rest);
        }
        left = left - width;
        start = start + 1;
        proof {
            if start == text@.len() {
                assert(text@.skip(start as int) =~= Seq::<char>::empty());
            }
        }
    }
    proof {
        lemma_fitting_back_unique(text@, max_bytes as int, start as int);
        assert(text@.subrange(start as int, length as int) =~= text@.skip(start as int));
    }
    text.substring_char(start, length).to_owned()
}

/// `text` as it is where it takes at most `max_bytes` bytes; else its longest beginning that
/// leaves room for three dots, and the dots.
pub fn bounded_text(text: &str, max_bytes: usize) -> (bounded: String)
    ensures
        bounded@ == shortened(text@, max_bytes as int),
{
    if byte_length(text) <= max_bytes {
        return text.to_owned();
    }
    let mut bounded: String = bounded_utf8_prefix(text, max_bytes.saturating_sub(3));
    bounded.append("...");
    bounded
}

/// Whether one byte sequence stands before another in dictionary order, which is how text is
/// ordered too.
pub open spec fn bytes_before(a: Seq<u8>, b: Seq<u8>) -> bool
    decreases a.len(),
{
    if b.len() == 0 {
        false
    } else if a.len() == 0 {
        true
    } else if a[0] != b[0] {
        a[0] < b[0]
    } else {
        bytes_before(a.drop_first(), b.drop_first())
    }
}

/// Whether one text stands before another, by the bytes of their encodings.
pub open spec fn text_before(a: Seq<char>, b: Seq<char>) -> bool {
    bytes_before(encode_utf8(a), encode_utf8(b))
}

pub proof fn lemma_bytes_before_irreflexive(a: Seq<u8>)
    ensures
        !bytes_before(a, a),
    decreases a.len(),
{
    if a.len() > 0 {
        lemma_bytes_before_irreflexive(a.drop_first());
    }
}

pub proof fn lemma_bytes_before_transitive(a: Seq<u8>, b: Seq<u8>, c: Seq<u8>)
    requires
        bytes_before(a, b),
        bytes_before(b, c),
    ensures
        bytes_before(a, c),
    decreases a.len(),
{
    if a.len() > 0 && a[0] == b[0] && b[0] == c[0] {
        lemma_bytes_before_transitive(a.drop_first(), b.drop_first(), c.drop_first());
    }
}

pub proof fn lemma_bytes_before_total(a: Seq<u8>, b: Seq<u8>)
    ensures
        a == b || bytes_before(a, b) || bytes_before(b, a),
    decreases a.len(),
{
    if a.len() > 0 && b.len() > 0 && a[0] == b[0] {
        lemma_bytes_before_total(a.drop_first(), b.drop_first());
        if a.drop_first() == b.drop_first() {
            assert(a =~= seq![a[0]] + a.drop_first());
            assert(b =~= seq![b[0]] + b.drop_first());
        }
    } else if a.len() == 0 && b.len() == 0 {
        assert(a =~= b);
    }
}

pub proof fn lemma_text_before_irreflexive(a: Seq<char>)
    ensures
        !text_before(a, a),
{
    lemma_bytes_before_irreflexive(encode_utf8(a));
}

pub proof fn lemma_text_before_transitive(a: Seq<char>, b: Seq<char>, c: Seq<char>)
    requires
        text_before(a, b),
        text_before(b, c),
    ensures
        text_before(a, c),
{
    lemma_bytes_before_transitive(encode_utf8(a), encode_utf8(b), encode_utf8(c));
}

/// Two different texts stand in one order or the other.
pub proof fn lemma_text_before_total(a: Seq<char>, b: Seq<char>)
    ensures
        a == b || text_before(a, b) || text_before(b, a),
{
    lemma_bytes_before_total(encode_utf8(a), encode_utf8(b));
    vstd::utf8::encode_utf8_decode_utf8(a);
    vstd::utf8::encode_utf8_decode_utf8(b);
}

/// Whether one byte sequence stands before another in dictionary order.
pub fn is_bytes_before(a: &[u8], b: &[u8]) -> (before: bool)
    ensures
        before == bytes_before(a@, b@),
{
    let mut index: usize = 0;
    proof {
        assert(a@.skip(0) =~= a@);
        assert(b@.skip(0) =~= b@);
    }
    while index < a.len() && index < b.len()
        invariant
            index <= a@.len(),
            index <= b@.len(),
            bytes_before(a@, b@) == bytes_before(a@.skip(index as int), b@.skip(index as int)),
        decreases a@.len() - index,
    {
        if a[index] != b[index] {
            return a[index] < b[index];
        }
        proof {
            assert(a@.skip(index as int).drop_first() =~= a@.skip(index + 1));
            assert(b@.skip(index as int).drop_first() =~= b@.skip(index + 1));
        }
        index = index + 1;
    }
    index < b.len()
}

/// Whether one text stands before another, by the bytes of their encodings.
pub fn is_text_before(a: &str, b: &str) -> (before: bool)
    ensures
        before == text_before(a@, b@),
{
    is_bytes_before(a.as_bytes(), b.as_bytes())
}

/// Whether two texts hold the same characters.
pub fn same_text(a: &str, b: &str) -> (same: bool)
    ensures
        same == (a@ == b@),
{
    let left: &[u8] = a.as_bytes();
    let right: &[u8] = b.as_bytes();
    proof {
        vstd::utf8::encode_utf8_decode_utf8(a@);
        vstd::utf8::encode_utf8_decode_utf8(b@);
    }
    if left.len() != right.len() {
        return false;
    }
    let mut index: usize = 0;
    while index < left.len()
        invariant
            index <= left@.len(),
            left@.len() == right@.len(),
            left@ == encode_utf8(a@),
            right@ == encode_utf8(b@),
            forall|i: int| 0 <= i < index ==> left@[i] == right@[i],
        decreases left@.len() - index,
    {
        if left[index] != right[index] {
            return false;
        }
        index = index + 1;
    }
    assert(left@ =~= right@);
    true
}

/// Whether a character is a decimal digit.
pub open spec fn is_digit(c: char) -> bool {
    '0' <= c <= '9'
}

/// The number that digits stand for.
pub open spec fn digits_value(digits: Seq<char>) -> nat
    decreases digits.len(),
{
    if digits.len() == 0 {
        0
    } else {
        10 * digits_value(digits.drop_last()) + (digits.last() as u32 as int - 48) as nat
    }
}

/// The digits of a number that is written with or without a plus sign.
pub open spec fn after_plus(text: Seq<char>) -> Seq<char> {
    if text.len() > 0 && text[0] == '+' {
        text.drop_first()
    } else {
        text
    }
}

/// The number that a text stands for: a plus sign or none, then only digits, at least one, and
/// no more than a `usize` can hold.
pub open spec fn parsed_usize(text: Seq<char>) -> Option<int> {
    let digits = after_plus(text);
    if digits.len() > 0 && (forall|i: int| 0 <= i < digits.len() ==> is_digit(#[trigger] digits[i]))
        && digits_value(digits) <= usize::MAX {
        Some(digits_value(digits) as int)
    } else {
        None
    }
}

proof fn lemma_digits_value_grows(digits: Seq<char>, n: int)
    requires
        0 <= n <= digits.len(),
    ensures
        digits_value(digits.take(n)) <= digits_value(digits),
    decreases digits.len() - n,
{
    if n < digits.len() {
        assert(digits.take(n + 1).drop_last() =~= digits.take(n));
        lemma_digits_value_grows(digits, n + 1);
    } else {
        assert(digits.take(n) =~= digits);
    }
}

/// Reads a number that is written in decimal.
pub fn parse_usize(text: &str) -> (number: Option<usize>)
    ensures
        match number {
            Some(number) => parsed_usize(text@) == Some(number as int),
            None => parsed_usize(text@) is None,
        },
{
    let length: usize = text.unicode_len();
    let digits: &str = if length > 0 && text.get_char(0) == '+' {
        proof {
            assert(text@.subrange(1, length as int) =~= text@.drop_first());
        }
        text.substring_char(1, length)
    } else {
        text
    };
    let mut value: usize = 0;
    proof {
        assert(digits@.take(0) =~= Seq::<char>::empty());
    }
    for character in iter: digits.chars()
        invariant
            iter.seq() == digits@,
            digits@ == after_plus(text@),
            value == digits_value(digits@.take(iter.index())),
            forall|i: int| 0 <= i < iter.index() ==> is_digit(#[trigger] digits@[i]),
    {
        let ghost at: int = iter.index();
        assert(digits@[at] == character);
        if !('0' <= character && character <= '9') {
            assert(!is_digit(digits@[at]));
            return None;
        }
        let digit: usize = (character as u32 - 48) as usize;
        proof {
            assert(digits@.take(at + 1).drop_last() =~= digits@.take(at));
            lemma_digits_value_grows(digits@, at + 1);
        }
        if value > (usize::MAX - digit) / 10 {
            return None;
        }
        value = value * 10 + digit;
    }
    proof {
        assert(digits@.take(digits@.len() as int) =~= digits@);
    }
    if digits.is_empty() {
        return None;
    }
    Some(value)
}

/// The character of one decimal digit.
pub open spec fn digit_char(digit: int) -> char {
    (48 + digit) as char
}

/// A natural number in decimal.
pub open spec fn decimal_digits(n: nat) -> Seq<char>
    decreases n,
{
    if n < 10 {
        seq![digit_char(n as int)]
    } else {
        decimal_digits(n / 10).push(digit_char((n % 10) as int))
    }
}

/// An integer in decimal, with a minus sign where it is negative.
pub open spec fn decimal(n: int) -> Seq<char> {
    if n < 0 {
        seq!['-'] + decimal_digits((-n) as nat)
    } else {
        decimal_digits(n as nat)
    }
}

/// A number below ten to the `count` has at most `count` digits.
pub proof fn lemma_decimal_digits_len(n: nat, count: nat)
    requires
        n < vstd::arithmetic::power::pow(10, count),
        0 < count,
    ensures
        1 <= decimal_digits(n).len() <= count,
        forall|i: int|
            0 <= i < decimal_digits(n).len() ==> '0' <= #[trigger] decimal_digits(n)[i] <= '9',
    decreases count,
{
    if n >= 10 {
        vstd::arithmetic::power::lemma_pow1(10);
        if count == 1 {
            assert(false);
        }
        vstd::arithmetic::power::lemma_pow_adds(10, 1, (count - 1) as nat);
        let below = vstd::arithmetic::power::pow(10, (count - 1) as nat);
        assert(n < 10 * below);
        lemma_decimal_digits_len(n / 10, (count - 1) as nat);
    }
}

/// A number in decimal.
pub fn decimal_text(n: u128) -> (text: String)
    ensures
        text@ == decimal_digits(n as nat),
    decreases n,
{
    let mut text: String = if n < 10 {
        String::new()
    } else {
        decimal_text(n / 10)
    };
    let digit: u8 = (n % 10) as u8;
    text.push((48 + digit) as char);
    proof {
        if n < 10 {
            assert(text@ =~= seq![digit_char(n as int)]);
        }
    }
    text
}

/// A signed number in decimal.
pub fn signed_decimal_text(n: i128) -> (text: String)
    requires
        n > i128::MIN,
    ensures
        text@ == decimal(n as int),
{
    if n < 0 {
        let mut text: String = String::new();
        text.push('-');
        text.append(decimal_text((-n) as u128).as_str());
        assert(text@ =~= decimal(n as int));
        text
    } else {
        decimal_text(n as u128)
    }
}

/// The characters of a text that may be missing.
pub open spec fn optional_view(text: Option<String>) -> Option<Seq<char>> {
    match text {
        Some(text) => Some(text@),
        None => None,
    }
}

/// The characters of a text that may be missing.
pub open spec fn optional_str_view(text: Option<&str>) -> Option<Seq<char>> {
    match text {
        Some(text) => Some(text@),
        None => None,
    }
}

/// Whether a text stands somewhere in another.
pub open spec fn contains_text(text: Seq<char>, part: Seq<char>) -> bool {
    exists|start: int|
        0 <= start <= text.len() - part.len() && #[trigger] text.subrange(start, start + part.len())
            == part
}

/// The characters of a text, one by one.
pub fn characters(text: &str) -> (chars: Vec<char>)
    ensures
        chars@ == text@,
{
    let mut chars: Vec<char> = Vec::new();
    for character in iter: text.chars()
        invariant
            iter.seq() == text@,
            chars@ == text@.take(iter.index()),
    {
        proof {
            assert(text@.take(iter.index() + 1) =~= text@.take(iter.index()).push(character));
        }
        chars.push(character);
    }
    proof {
        assert(text@.take(text@.len() as int) =~= text@);
    }
    chars
}

/// Whether `part` stands in `text` from `start` on.
fn stands_at(text: &Vec<char>, part: &Vec<char>, start: usize) -> (found: bool)
    requires
        start + part@.len() <= text@.len(),
    ensures
        found == (text@.subrange(start as int, start + part@.len()) == part@),
{
    let length: usize = text.len();
    let mut index: usize = 0;
    while index < part.len()
        invariant
            length == text@.len(),
            index <= part@.len(),
            start + part@.len() <= length,
            forall|i: int| 0 <= i < index ==> text@[start + i] == part@[i],
        decreases part@.len() - index,
    {
        if text[start + index] != part[index] {
            proof {
                let here = text@.subrange(start as int, start + part@.len());
                assert(here[index as int] == text@[start + index]);
            }
            return false;
        }
        index = index + 1;
    }
    proof {
        assert(text@.subrange(start as int, start + part@.len()) =~= part@);
    }
    true
}

/// Whether a text stands somewhere in another.
pub fn text_contains(text: &str, part: &str) -> (found: bool)
    ensures
        found == contains_text(text@, part@),
{
    let text_chars: Vec<char> = characters(text);
    let part_chars: Vec<char> = characters(part);
    if part_chars.len() > text_chars.len() {
        return false;
    }
    let last: usize = text_chars.len() - part_chars.len();
    let mut start: usize = 0;
    loop
        invariant
            text_chars@ == text@,
            part_chars@ == part@,
            last == text@.len() - part@.len(),
            start <= last,
            forall|i: int|
                0 <= i < start ==> #[trigger] text@.subrange(i, i + part@.len()) != part@,
        decreases last - start,
    {
        if stands_at(&text_chars, &part_chars, start) {
            return true;
        }
        if start == last {
            return false;
        }
        start = start + 1;
    }
}

/// A text that may be missing, once more.
pub fn copy_optional(text: &Option<String>) -> (copy: Option<String>)
    ensures
        optional_view(copy) == optional_view(*text),
{
    match text {
        Some(text) => Some(text.clone()),
        None => None,
    }
}

/// The characters of texts.
pub open spec fn texts_view(texts: Seq<String>) -> Seq<Seq<char>> {
    Seq::new(texts.len(), |i: int| texts[i]@)
}

/// Texts one after the other, with a separator between each two.
pub open spec fn joined(texts: Seq<Seq<char>>, separator: Seq<char>) -> Seq<char>
    decreases texts.len(),
{
    if texts.len() == 0 {
        Seq::empty()
    } else if texts.len() == 1 {
        texts[0]
    } else {
        joined(texts.drop_last(), separator) + separator + texts.last()
    }
}

/// Texts one after the other, with a separator between each two.
pub fn join_texts(texts: &Vec<String>, separator: &str) -> (text: String)
    ensures
        text@ == joined(texts_view(texts@), separator@),
{
    let ghost views = texts_view(texts@);
    let mut text: String = String::new();
    let mut index: usize = 0;
    proof {
        assert(views.take(0) =~= Seq::<Seq<char>>::empty());
    }
    while index < texts.len()
        invariant
            views == texts_view(texts@),
            index <= texts@.len(),
            text@ == joined(views.take(index as int), separator@),
        decreases texts@.len() - index,
    {
        proof {
            assert(views.take(index + 1).drop_last() =~= views.take(index as int));
            assert(views.take(index + 1).last() == texts@[index as int]@);
        }
        if index > 0 {
            text.append(separator);
        }
        text.append(texts[index].as_str());
        proof {
            if index == 0 {
                assert(text@ =~= texts@[0]@);
                assert(views.take(1)[0] == texts@[0]@);
            }
        }
        index = index + 1;
    }
    proof {
        assert(views.take(index as int) =~= views);
    }
    text
}

/// Whether two lists hold the same texts in the same order.
pub fn same_texts(a: &Vec<String>, b: &Vec<String>) -> (same: bool)
    ensures
        same == (texts_view(a@) == texts_view(b@)),
{
    if a.len() != b.len() {
        assert(texts_view(a@).len() != texts_view(b@).len());
        return false;
    }
    let mut index: usize = 0;
    while index < a.len()
        invariant
            a@.len() == b@.len(),
            index <= a@.len(),
            forall|i: int| 0 <= i < index ==> (#[trigger] a@[i])@ == b@[i]@,
        decreases a@.len() - index,
    {
        if !same_text(a[index].as_str(), b[index].as_str()) {
            assert(texts_view(a@)[index as int] != texts_view(b@)[index as int]);
            return false;
        }
        index = index + 1;
    }
    assert(texts_view(a@) =~= texts_view(b@));
    true
}

/// A list of texts, once more.
pub fn copy_texts(texts: &Vec<String>) -> (copy: Vec<String>)
    ensures
        texts_view(copy@) == texts_view(texts@),
        copy@.len() == texts@.len(),
{
    let mut copy: Vec<String> = Vec::new();
    let mut index: usize = 0;
    while index < texts.len()
        invariant
            index <= texts@.len(),
            copy@.len() == index,
            forall|i: int| 0 <= i < index ==> (#[trigger] copy@[i])@ == texts@[i]@,
        decreases texts@.len() - index,
    {
        copy.push(texts[index].clone());
        index = index + 1;
    }
    assert(texts_view(copy@) =~= texts_view(texts@));
    copy
}

/// What `Debug` writes of a text that it may have to escape something in.
pub uninterp spec fn debug_text(text: Seq<char>) -> Seq<char>;

/// Whether a text is printable ASCII without quotes and backslashes.
pub open spec fn needs_no_escape(text: Seq<char>) -> bool {
    forall|i: int|
        0 <= i < text.len() ==> ' ' <= #[trigger] text[i] <= '~' && text[i] != '"' && text[i] != '\\'
}

/// A text as `Debug` writes it: in quotes, and otherwise as it is where nothing has to be escaped.
pub open spec fn debug_form(text: Seq<char>) -> Seq<char> {
    if needs_no_escape(text) {
        seq!['"'] + text + seq!['"']
    } else {
        debug_text(text)
    }
}

/// `Debug` of `str` writes a text in quotes, with escapes where a character could be misread.
/// Printable ASCII other than quotes and backslashes needs none. What becomes of other texts is not
/// said here, only that it depends on the text alone.
#[verifier::external_body]
pub(crate) fn debug_string(text: &str) -> (written: String)
    ensures
        needs_no_escape(text@) ==> written@ == seq!['"'] + text@ + seq!['"'],
        !needs_no_escape(text@) ==> written@ == debug_text(text@),
{
    format!("{text:?}")
}

/// Whether `part` is the longest beginning of `text` that takes at most `max` bytes.
pub open spec fn is_longest_beginning(part: Seq<char>, text: Seq<char>, max: int) -> bool {
    &&& part.len() <= text.len()
    &&& part == text.take(part.len() as int)
    &&& byte_len(part) <= max
    &&& part.len() < text.len() ==> byte_len(text.take(part.len() as int + 1)) > max
}

/// Whether `part` is the longest ending of `text` that takes at most `max` bytes.
pub open spec fn is_longest_ending(part: Seq<char>, text: Seq<char>, max: int) -> bool {
    &&& part.len() <= text.len()
    &&& part == text.skip(text.len() - part.len())
    &&& byte_len(part) <= max
    &&& part.len() < text.len() ==> byte_len(text.skip(text.len() - part.len() - 1)) > max
}

/// What is kept of a text from its front is its longest beginning that fits, what is kept from its back its
/// longest ending; and a text that is cut short is as long as it may be, with dots where something is missing
/// and nothing added where it fits.
pub proof fn law_cut_texts_keep_as_much_as_fits(text: Seq<char>, max: int)
    requires
        0 <= max,
    ensures
        is_longest_beginning(prefix_within(text, max), text, max),
        is_longest_ending(suffix_within(text, max), text, max),
        byte_len(text) <= max ==> shortened(text, max) == text,
        byte_len(text) > max && max >= 3 ==> byte_len(shortened(text, max)) <= max && exists|
            part: Seq<char>,
        |
            #[trigger] is_longest_beginning(part, text, max - 3) && shortened(text, max) == part
                + "..."@,
{
    lemma_prefix_within(text, max);
    lemma_suffix_within(text, max);
    let kept = fitting_front(text, max) as int;
    if kept < text.len() {
        assert(byte_len(text.take(kept + 1)) > max);
    }
    let start = text.len() - fitting_back(text, max);
    if start > 0 {
        assert(byte_len(text.skip(start - 1)) > max);
    }
    if byte_len(text) > max && max >= 3 {
        lemma_shortened_within(text, max);
        lemma_prefix_within(text, max - 3);
        let part = prefix_within(text, max - 3);
        if part.len() < text.len() {
            assert(byte_len(text.take(part.len() as int + 1)) > max - 3);
        }
        assert(is_longest_beginning(part, text, max - 3));
    }
}

proof fn lemma_digits_are_read(n: nat)
    ensures
        digits_value(decimal_digits(n)) == n,
        decimal_digits(n).len() > 0,
        forall|i: int|
            0 <= i < decimal_digits(n).len() ==> '0' <= #[trigger] decimal_digits(n)[i] <= '9',
    decreases n,
{
    let digits = decimal_digits(n);
    if n < 10 {
        reveal_with_fuel(digits_value, 2);
        assert(digits.drop_last() =~= Seq::<char>::empty());
        assert(digits.last() as u32 == 48 + n);
    } else {
        lemma_digits_are_read(n / 10);
        assert(digits.drop_last() =~= decimal_digits(n / 10));
        assert(digits.last() as u32 == 48 + n % 10);
    }
}

/// A number that is written in decimal is read back, and no two numbers are written alike.
pub proof fn law_numbers_are_read_back(n: int, other: int)
    requires
        0 <= n <= usize::MAX,
    ensures
        parsed_usize(decimal(n)) == Some(n),
        decimal(other) == decimal(n) ==> other == n,
{
    lemma_digits_are_read(n as nat);
    let digits = decimal_digits(n as nat);
    assert('0' <= digits[0] <= '9');
    assert(after_plus(decimal(n)) == digits);
    if other >= 0 {
        lemma_digits_are_read(other as nat);
    } else if decimal(other) == decimal(n) {
        assert(decimal(other)[0] == '-');
    }
}

/// Texts are joined one after the other, with the separator between each two and nowhere else.
pub proof fn law_texts_are_joined_in_order(texts: Seq<Seq<char>>, separator: Seq<char>, last: Seq<char>)
    ensures
        joined(Seq::empty(), separator).len() == 0,
        joined(seq![last], separator) == last,
        texts.len() > 0 ==> joined(texts.push(last), separator) == joined(texts, separator) + separator
            + last,
{
    assert(texts.push(last).drop_last() =~= texts);
}

/// One text stands before another exactly if it is a beginning of it, or at the first byte in which they
/// differ it has the lesser one.
pub proof fn law_bytes_are_compared_in_order(a: Seq<u8>, b: Seq<u8>, place: int)
    requires
        0 <= place <= a.len(),
        place <= b.len(),
        forall|i: int| 0 <= i < place ==> a[i] == b[i],
        place < a.len() && place < b.len() ==> a[place] != b[place],
    ensures
        place < a.len() && place < b.len() ==> (bytes_before(a, b) <==> a[place] < b[place]),
        place == a.len() ==> (bytes_before(a, b) <==> a.len() < b.len()),
        place == b.len() ==> !bytes_before(a, b),
    decreases a.len(),
{
    if place > 0 {
        let (x, y) = (a.drop_first(), b.drop_first());
        assert(a[0] == b[0]);
        law_bytes_are_compared_in_order(x, y, place - 1);
    }
}

/// A text is read as a number exactly if it is one to the reader: digits and nothing else, at least one, with
/// a plus sign before them or without, for a number that fits.
pub proof fn law_only_digits_are_numbers(text: Seq<char>, i: int)
    ensures
        text.len() == 0 ==> parsed_usize(text) is None,
        text == seq!['+'] ==> parsed_usize(text) is None,
        0 <= i < text.len() && !('0' <= text[i] <= '9') && !(i == 0 && text[i] == '+') ==> parsed_usize(
            text,
        ) is None,
        parsed_usize(text) matches Some(n) ==> 0 <= n <= usize::MAX && text.len() > 0,
{
    let digits = after_plus(text);
    if 0 <= i < text.len() && !('0' <= text[i] <= '9') && !(i == 0 && text[i] == '+') {
        let at = if text[0] == '+' {
            i - 1
        } else {
            i
        };
        assert(digits[at] == text[i]);
        assert(!is_digit(digits[at]));
    }
}

} // verus!
