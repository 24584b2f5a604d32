//! The identifiers of jobs.
use vstd::prelude::*;

use crate::json::hex_char;
use crate::json_size::unescaped;

verus! {

/// The identifier of a job: a UUID, held as its 128 bits.
#[derive(Clone, Copy, Debug, PartialEq, Eq, Hash, Structural)]
pub struct JobId {
    pub bits: u128,
}

/// Sixteen to the power `n`.
pub open spec fn power_of_16(n: int) -> int
    decreases n,
{
    if n <= 0 {
        1
    } else {
        16 * power_of_16(n - 1)
    }
}

/// One of the 32 hexadecimal digits of a number of 128 bits, the first being the highest.
pub open spec fn hex_digit(bits: u128, index: int) -> int {
    (bits as int / power_of_16(31 - index)) % 16
}

/// How many hyphens stand before a place in the text of a UUID.
pub open spec fn hyphens_before(place: int) -> int {
    if place <= 8 {
        0
    } else if place <= 13 {
        1
    } else if place <= 18 {
        2
    } else if place <= 23 {
        3
    } else {
        4
    }
}

/// A UUID as text: its digits in lower case, in groups of 8, 4, 4, 4 and 12.
pub open spec fn uuid_text(bits: u128) -> Seq<char> {
    Seq::new(
        36,
        |place: int|
            if place == 8 || place == 13 || place == 18 || place == 23 {
                '-'
            } else {
                hex_char(hex_digit(bits, place - hyphens_before(place)))
            },
    )
}

/// What `Uuid::parse_str` reads in a text.
pub uninterp spec fn parsed_uuid(text: Seq<char>) -> Option<u128>;

/// `Uuid::to_string` writes a UUID with hyphens, in lower case.
#[verifier::external_body]
fn uuid_string(bits: u128) -> (text: String)
    ensures
        text@ == uuid_text(bits),
{
    uuid::Uuid::from_u128(bits).to_string()
}

/// `Uuid::parse_str` reads the texts of UUIDs in four shapes; the one with hyphens in lower case
/// gives back the UUID that is written so. What it makes of other texts is not said here, only
/// that it depends on the text alone.
#[verifier::external_body]
fn parse_uuid(text: &str) -> (bits: Option<u128>)
    ensures
        bits == parsed_uuid(text@),
        forall|written: u128| text@ == #[trigger] uuid_text(written) ==> bits == Some(written),
{
    uuid::Uuid::parse_str(text).ok().map(|uuid| uuid.as_u128())
}

/// The text of a UUID has 36 characters, none of which JSON escapes.
pub proof fn lemma_uuid_text(bits: u128)
    ensures
        uuid_text(bits).len() == 36,
        unescaped(uuid_text(bits)),
{
    assert forall|i: int| 0 <= i < 36 implies ' ' <= #[trigger] uuid_text(bits)[i] <= '~'
        && uuid_text(bits)[i] != '"' && uuid_text(bits)[i] != '\\' by {
        let digit = hex_digit(bits, i - hyphens_before(i));
        assert(0 <= digit < 16);
    }
}

proof fn lemma_power_of_16(n: int)
    requires
        0 <= n,
    ensures
        power_of_16(n) > 0,
        power_of_16(n + 1) == power_of_16(n) * 16,
    decreases n,
{
    if n > 0 {
        lemma_power_of_16(n - 1);
    }
}

/// Two numbers that have the same digits down to a place agree down to it.
proof fn lemma_same_digits(a: u128, b: u128, n: int)
    requires
        0 <= n <= 32,
        forall|index: int| 0 <= index < 32 ==> #[trigger] hex_digit(a, index) == hex_digit(b, index),
    ensures
        a as int / power_of_16(n) == b as int / power_of_16(n),
    decreases 32 - n,
{
    lemma_power_of_16(n);
    if n == 32 {
        assert(power_of_16(32) == 0x1_0000_0000_0000_0000_0000_0000_0000_0000int) by {
            reveal_with_fuel(power_of_16, 33);
        }
        vstd::arithmetic::div_mod::lemma_basic_div(a as int, power_of_16(32));
        vstd::arithmetic::div_mod::lemma_basic_div(b as int, power_of_16(32));
    } else {
        lemma_same_digits(a, b, n + 1);
        assert(hex_digit(a, 31 - n) == hex_digit(b, 31 - n));
        vstd::arithmetic::div_mod::lemma_div_denominator(a as int, power_of_16(n), 16);
        vstd::arithmetic::div_mod::lemma_div_denominator(b as int, power_of_16(n), 16);
    }
}

/// Two identifiers that are written in the same way are the same.
pub proof fn law_identifiers_differ_in_writing(a: u128, b: u128)
    requires
        uuid_text(a) == uuid_text(b),
    ensures
        a == b,
{
    assert forall|index: int| 0 <= index < 32 implies #[trigger] hex_digit(a, index) == hex_digit(
        b,
        index,
    ) by {
        let place = if index < 8 {
            index
        } else if index < 12 {
            index + 1
        } else if index < 16 {
            index + 2
        } else if index < 20 {
            index + 3
        } else {
            index + 4
        };
        assert(uuid_text(a)[place] == uuid_text(b)[place]);
        assert(uuid_text(a)[place] == hex_char(hex_digit(a, index)));
        assert(uuid_text(b)[place] == hex_char(hex_digit(b, index)));
        assert(0 <= hex_digit(a, index) < 16 && 0 <= hex_digit(b, index) < 16);
    }
    lemma_same_digits(a, b, 0);
}

impl JobId {
    /// This identifier as text, with hyphens and in lower case.
    pub fn to_text(&self) -> (text: String)
        ensures
            text@ == uuid_text(self.bits),
    {
        uuid_string(self.bits)
    }

    /// Reads the text of an identifier.
    pub fn parse_str(text: &str) -> (id: Option<JobId>)
        ensures
            match id {
                Some(id) => parsed_uuid(text@) == Some(id.bits),
                None => parsed_uuid(text@) is None,
            },
            forall|written: JobId|
                text@ == #[trigger] uuid_text(written.bits) ==> id == Some(written),
    {
        match parse_uuid(text) {
            Some(bits) => Some(JobId { bits }),
            None => None,
        }
    }
}

} // verus!
