//! The names of the files that a journal keeps its records in.
//!
//! A record is written to a temporary file, which is then given its lasting name. The name begins
//! with the time of writing, so that the last name is the newest record.
use vstd::prelude::*;
use vstd::utf8::encode_utf8;

use crate::job_id::{lemma_uuid_text, uuid_text, JobId};
use crate::text::{
    bytes_before, characters, digit_char, is_text_before, lemma_text_before_irreflexive, lemma_text_before_total,
    lemma_text_before_transitive, same_text, text_before,
};

verus! {

/// A number with leading zeros, `width` digits long.
pub open spec fn padded(n: nat, width: nat) -> Seq<char>
    decreases width,
{
    if width == 0 {
        Seq::empty()
    } else {
        padded(n / 10, (width - 1) as nat).push(digit_char((n % 10) as int))
    }
}

/// The part that the two names of a file have in common.
pub open spec fn snapshot_base(stamp: u128, nonce: u128) -> Seq<char> {
    padded(stamp as nat, 39) + "-"@ + uuid_text(nonce)
}

/// The lasting name of a file.
pub open spec fn snapshot_name(stamp: u128, nonce: u128) -> Seq<char> {
    snapshot_base(stamp, nonce) + ".json"@
}

/// The name of a file that is being written.
pub open spec fn temporary_name(stamp: u128, nonce: u128) -> Seq<char> {
    "."@ + snapshot_base(stamp, nonce) + ".tmp"@
}

/// The place of the last dot, or -1.
pub open spec fn last_dot(name: Seq<char>) -> int
    decreases name.len(),
{
    if name.len() == 0 {
        -1
    } else if name.last() == '.' {
        name.len() - 1
    } else {
        last_dot(name.drop_last())
    }
}

/// What follows the last dot of a file name, where something precedes the dot.
pub open spec fn extension(name: Seq<char>) -> Option<Seq<char>> {
    if last_dot(name) > 0 && name != ".."@ {
        Some(name.skip(last_dot(name) + 1))
    } else {
        None
    }
}

/// Whether a file name ends in a dot and these letters.
pub open spec fn has_extension(name: Seq<char>, letters: Seq<char>) -> bool {
    extension(name) == Some(letters)
}

fn padded_text(n: u128, width: usize) -> (text: String)
    ensures
        text@ == padded(n as nat, width as nat),
    decreases width,
{
    if width == 0 {
        return String::new();
    }
    let mut text: String = padded_text(n / 10, width - 1);
    let digit: u8 = (n % 10) as u8;
    text.push((48 + digit) as char);
    text
}

fn base_text(stamp: u128, nonce: JobId) -> (base: String)
    ensures
        base@ == snapshot_base(stamp, nonce.bits),
{
    let mut base: String = padded_text(stamp, 39);
    base.append("-");
    base.append(nonce.to_text().as_str());
    base
}

/// The lasting name of a file that is written at a time, in nanoseconds since the beginning of
/// 1970; the nonce keeps it apart from others.
pub fn published_name(stamp: u128, nonce: JobId) -> (name: String)
    ensures
        name@ == snapshot_name(stamp, nonce.bits),
{
    let mut name: String = base_text(stamp, nonce);
    name.append(".json");
    name
}

/// The name that the file has while it is being written.
pub fn unpublished_name(stamp: u128, nonce: JobId) -> (name: String)
    ensures
        name@ == temporary_name(stamp, nonce.bits),
{
    let mut name: String = ".".to_owned();
    name.append(base_text(stamp, nonce).as_str());
    name.append(".tmp");
    name
}

/// Whether a file name ends in a dot and these letters.
pub fn name_has_extension(name: &str, letters: &str) -> (holds: bool)
    ensures
        holds == has_extension(name@, letters@),
{
    let chars: Vec<char> = characters(name);
    let mut end: usize = chars.len();
    proof {
        assert(name@.take(end as int) =~= name@);
    }
    while end > 0 && chars[end - 1] != '.'
        invariant
            chars@ == name@,
            end <= name@.len(),
            last_dot(name@) == last_dot(name@.take(end as int)),
        decreases end,
    {
        proof {
            assert(name@.take(end as int).drop_last() =~= name@.take(end - 1));
        }
        end = end - 1;
    }
    proof {
        if end > 0 {
            assert(name@.take(end as int).last() == '.');
        } else {
            assert(name@.take(0) =~= Seq::<char>::empty());
        }
    }
    if end <= 1 || same_text(name, "..") {
        return false;
    }
    proof {
        assert(name@.subrange(end as int, name@.len() as int) =~= name@.skip(last_dot(name@) + 1));
    }
    same_text(name.substring_char(end, chars.len()), letters)
}

/// The characters of names.
pub open spec fn names_view(names: Seq<String>) -> Seq<Seq<char>> {
    Seq::new(names.len(), |i: int| names[i]@)
}

/// Whether `latest` is the place of the last of the names that records have, or of none where
/// there is none.
pub open spec fn is_latest(names: Seq<Seq<char>>, latest: Option<int>) -> bool {
    match latest {
        Some(place) => {
            &&& 0 <= place < names.len()
            &&& has_extension(names[place], "json"@)
            &&& forall|i: int|
                0 <= i < names.len() && has_extension(#[trigger] names[i], "json"@) ==> names[i]
                    == names[place] || text_before(names[i], names[place])
        },
        None => forall|i: int|
            0 <= i < names.len() ==> !has_extension(#[trigger] names[i], "json"@),
    }
}

/// The place of the newest record among the files of a directory.
pub fn latest_snapshot(names: &Vec<String>) -> (latest: Option<usize>)
    ensures
        is_latest(
            names_view(names@),
            match latest {
                Some(place) => Some(place as int),
                None => None,
            },
        ),
{
    let ghost views = names_view(names@);
    let mut latest: Option<usize> = None;
    let mut index: usize = 0;
    proof {
        assert(views.take(0) =~= Seq::<Seq<char>>::empty());
    }
    while index < names.len()
        invariant
            views == names_view(names@),
            index <= names@.len(),
            latest matches Some(place) ==> place < index,
            is_latest(
                views.take(index as int),
                match latest {
                    Some(place) => Some(place as int),
                    None => None,
                },
            ),
        decreases names@.len() - index,
    {
        let ghost before = views.take(index as int);
        let ghost after = views.take(index + 1);
        let ghost newest = latest;
        proof {
            assert(forall|i: int| 0 <= i < index ==> before[i] == #[trigger] after[i]);
            assert(after[index as int] == names@[index as int]@);
        }
        if name_has_extension(names[index].as_str(), "json") {
            let later: bool = match latest {
                Some(place) => is_text_before(names[place].as_str(), names[index].as_str()),
                None => true,
            };
            proof {
                if let Some(place) = newest {
                    lemma_text_before_total(before[place as int], after[index as int]);
                    assert forall|i: int|
                        0 <= i < after.len() && has_extension(#[trigger] after[i], "json"@)
                            && later implies after[i] == after[index as int] || text_before(
                        after[i],
                        after[index as int],
                    ) by {
                        if i < index {
                            assert(before[i] == after[i]);
                            if before[i] != before[place as int] {
                                lemma_text_before_transitive(
                                    before[i],
                                    before[place as int],
                                    after[index as int],
                                );
                            }
                        }
                    }
                }
            }
            if later {
                latest = Some(index);
            }
        }
        index = index + 1;
    }
    proof {
        assert(views.take(index as int) =~= views);
    }
    latest
}

proof fn lemma_encode_concat(a: Seq<char>, b: Seq<char>)
    ensures
        encode_utf8(a + b) == encode_utf8(a) + encode_utf8(b),
    decreases a.len(),
{
    if a.len() == 0 {
        assert(a + b =~= b);
        assert(encode_utf8(a) + encode_utf8(b) =~= encode_utf8(b));
    } else {
        assert((a + b).drop_first() =~= a.drop_first() + b);
        lemma_encode_concat(a.drop_first(), b);
        assert(encode_utf8(a + b) =~= encode_utf8(a) + encode_utf8(b));
    }
}

proof fn lemma_common_beginning(p: Seq<u8>, a: Seq<u8>, b: Seq<u8>)
    ensures
        bytes_before(p + a, p + b) == bytes_before(a, b),
    decreases p.len(),
{
    if p.len() == 0 {
        assert(p + a =~= a);
        assert(p + b =~= b);
    } else {
        assert((p + a).drop_first() =~= p.drop_first() + a);
        assert((p + b).drop_first() =~= p.drop_first() + b);
        lemma_common_beginning(p.drop_first(), a, b);
    }
}

proof fn lemma_digit_order(a: int, b: int, s: Seq<char>, t: Seq<char>)
    requires
        0 <= a < b < 10,
    ensures
        text_before(seq![digit_char(a)] + s, seq![digit_char(b)] + t),
{
    let x = digit_char(a);
    let y = digit_char(b);
    assert((seq![x] + s)[0] == x && (seq![y] + t)[0] == y);
    assert((seq![x] + s).drop_first() =~= s);
    assert((seq![y] + t).drop_first() =~= t);
    let ax = x as u32;
    let by = y as u32;
    assert(vstd::utf8::leading_byte_width_1(ax) == ax as u8) by (bit_vector)
        requires
            ax < 128,
    ;
    assert(vstd::utf8::leading_byte_width_1(by) == by as u8) by (bit_vector)
        requires
            by < 128,
    ;
    assert(encode_utf8(seq![x] + s)[0] == ax as u8);
    assert(encode_utf8(seq![y] + t)[0] == by as u8);
}

proof fn lemma_padded_order(a: nat, b: nat, width: nat, s: Seq<char>, t: Seq<char>)
    requires
        a < b,
        b < vstd::arithmetic::power::pow(10, width),
    ensures
        text_before(padded(a, width) + s, padded(b, width) + t),
    decreases width,
{
    vstd::arithmetic::power::lemma_pow0(10);
    assert(width > 0);
    let less = (width - 1) as nat;
    let x = seq![digit_char((a % 10) as int)];
    let y = seq![digit_char((b % 10) as int)];
    assert(padded(a, width) + s =~= padded(a / 10, less) + (x + s));
    assert(padded(b, width) + t =~= padded(b / 10, less) + (y + t));
    vstd::arithmetic::power::lemma_pow1(10);
    vstd::arithmetic::power::lemma_pow_adds(10, 1, less);
    if a / 10 < b / 10 {
        lemma_padded_order(a / 10, b / 10, less, x + s, y + t);
    } else {
        lemma_digit_order((a % 10) as int, (b % 10) as int, s, t);
        lemma_encode_concat(padded(a / 10, less), x + s);
        lemma_encode_concat(padded(b / 10, less), y + t);
        lemma_common_beginning(
            encode_utf8(padded(a / 10, less)),
            encode_utf8(x + s),
            encode_utf8(y + t),
        );
    }
}

/// The name of a record that was written later stands after that of one written before, whatever
/// their nonces; so the last name is the newest record.
pub proof fn law_newer_records_have_later_names(
    earlier: u128,
    earlier_nonce: u128,
    later: u128,
    later_nonce: u128,
)
    requires
        earlier < later,
    ensures
        text_before(
            snapshot_name(earlier, earlier_nonce),
            snapshot_name(later, later_nonce),
        ),
{
    assert(vstd::arithmetic::power::pow(10, 39) > u128::MAX) by {
        reveal_with_fuel(vstd::arithmetic::power::pow, 40);
    }
    let s = "-"@ + uuid_text(earlier_nonce) + ".json"@;
    let t = "-"@ + uuid_text(later_nonce) + ".json"@;
    assert(snapshot_name(earlier, earlier_nonce) =~= padded(earlier as nat, 39) + s);
    assert(snapshot_name(later, later_nonce) =~= padded(later as nat, 39) + t);
    lemma_padded_order(earlier as nat, later as nat, 39, s, t);
}

proof fn lemma_last_dot(front: Seq<char>, letters: Seq<char>)
    requires
        forall|i: int| 0 <= i < letters.len() ==> #[trigger] letters[i] != '.',
    ensures
        last_dot(front + seq!['.'] + letters) == front.len(),
    decreases letters.len(),
{
    let name = front + seq!['.'] + letters;
    if letters.len() == 0 {
        assert(name.last() == '.');
    } else {
        assert(name.last() == letters[letters.len() - 1]);
        assert(name.drop_last() =~= front + seq!['.'] + letters.drop_last());
        assert forall|i: int| 0 <= i < letters.drop_last().len() implies #[trigger] letters.drop_last()[i]
            != '.' by {
            assert(letters.drop_last()[i] == letters[i]);
        }
        lemma_last_dot(front, letters.drop_last());
    }
}

/// A file that is being written is never taken for a record, and a record is never taken for a file
/// that is being written.
pub proof fn law_temporary_files_are_no_records(stamp: u128, nonce: u128)
    ensures
        has_extension(snapshot_name(stamp, nonce), "json"@),
        has_extension(temporary_name(stamp, nonce), "tmp"@),
        !has_extension(temporary_name(stamp, nonce), "json"@),
        !has_extension(snapshot_name(stamp, nonce), "tmp"@),
{
    reveal_strlit(".json");
    reveal_strlit(".tmp");
    reveal_strlit("json");
    reveal_strlit("tmp");
    reveal_strlit(".");
    reveal_strlit("..");
    lemma_uuid_text(nonce);
    let base = snapshot_base(stamp, nonce);
    let lasting = snapshot_name(stamp, nonce);
    let temporary = temporary_name(stamp, nonce);
    assert(".json"@ =~= seq!['.'] + "json"@);
    assert(".tmp"@ =~= seq!['.'] + "tmp"@);
    assert(lasting =~= base + seq!['.'] + "json"@);
    assert(temporary =~= ("."@ + base) + seq!['.'] + "tmp"@);
    lemma_last_dot(base, "json"@);
    lemma_last_dot("."@ + base, "tmp"@);
    assert(lasting.skip(base.len() as int + 1) =~= "json"@);
    assert(temporary.skip(base.len() as int + 2) =~= "tmp"@);
    assert(base.len() >= 36);
    assert("json"@.len() != "tmp"@.len());
}

/// The record that is taken is the newest: none of those that are there was written later.
pub proof fn law_the_newest_record_is_taken(
    names: Seq<Seq<char>>,
    place: int,
    stamp: u128,
    nonce: u128,
    other: int,
    other_stamp: u128,
    other_nonce: u128,
)
    requires
        is_latest(names, Some(place)),
        names[place] == snapshot_name(stamp, nonce),
        0 <= other < names.len(),
        names[other] == snapshot_name(other_stamp, other_nonce),
    ensures
        other_stamp <= stamp,
{
    if stamp < other_stamp {
        law_newer_records_have_later_names(stamp, nonce, other_stamp, other_nonce);
        law_temporary_files_are_no_records(other_stamp, other_nonce);
        let (mine, theirs) = (names[place], names[other]);
        lemma_text_before_irreflexive(mine);
        if text_before(theirs, mine) {
            lemma_text_before_transitive(mine, theirs, mine);
        }
    }
}

/// A record is found exactly where there is a file that is one.
pub proof fn law_records_are_found_where_there_are_some(
    names: Seq<Seq<char>>,
    latest: Option<int>,
    place: int,
    stamp: u128,
    nonce: u128,
)
    requires
        is_latest(names, latest),
        0 <= place < names.len(),
        names[place] == snapshot_name(stamp, nonce),
    ensures
        latest is Some,
        latest->0 < names.len(),
{
    law_temporary_files_are_no_records(stamp, nonce);
}

} // verus!
