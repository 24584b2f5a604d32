//! Putting things in order by time, and by name where the times agree.
use vstd::prelude::*;

use crate::text::{bytes_before, is_bytes_before, lemma_bytes_before_irreflexive,
    lemma_bytes_before_total, lemma_bytes_before_transitive};

verus! {

/// What a thing is put in order by.
#[derive(Debug)]
pub struct SortKey {
    pub time: i128,
    pub name: Vec<u8>,
}

/// A time and a name.
pub type KeyView = (int, Seq<u8>);

impl View for SortKey {
    type V = KeyView;

    open spec fn view(&self) -> KeyView {
        (self.time as int, self.name@)
    }
}

/// The keys of a sequence.
pub open spec fn keys_view(keys: Seq<SortKey>) -> Seq<KeyView> {
    Seq::new(keys.len(), |i: int| keys[i]@)
}

/// Whether one key is less than another.
pub open spec fn key_before(a: KeyView, b: KeyView) -> bool {
    a.0 < b.0 || (a.0 == b.0 && bytes_before(a.1, b.1))
}

/// Whether the thing at `i` goes before the thing at `j`: by their keys, up or down, and by their
/// places where the keys are alike.
pub open spec fn goes_before(keys: Seq<KeyView>, descending: bool, i: int, j: int) -> bool {
    let (first, second) = if descending {
        (keys[j], keys[i])
    } else {
        (keys[i], keys[j])
    };
    key_before(first, second) || (!key_before(second, first) && i < j)
}

/// Whether `order` lists the first `count` places, each once, in order.
pub open spec fn orders_first(keys: Seq<KeyView>, descending: bool, count: int, order: Seq<usize>) -> bool {
    &&& order.len() == count
    &&& forall|a: int| 0 <= a < order.len() ==> 0 <= #[trigger] order[a] < count
    &&& forall|a: int, b: int|
        0 <= a < b < order.len() ==> goes_before(
            keys,
            descending,
            #[trigger] order[a] as int,
            #[trigger] order[b] as int,
        )
}

/// Whether `order` lists all places, each once, in order.
pub open spec fn is_order(keys: Seq<KeyView>, descending: bool, order: Seq<usize>) -> bool {
    orders_first(keys, descending, keys.len() as int, order)
}

proof fn lemma_key_before_transitive(a: KeyView, b: KeyView, c: KeyView)
    requires
        !key_before(b, a),
        !key_before(c, b),
    ensures
        !key_before(c, a),
        key_before(a, b) || key_before(b, c) ==> key_before(a, c),
{
    let (x, y, z) = (a.1, b.1, c.1);
    if a.0 == b.0 && b.0 == c.0 {
        lemma_bytes_before_total(x, y);
        lemma_bytes_before_total(y, z);
        lemma_bytes_before_total(x, z);
        lemma_bytes_before_irreflexive(x);
        if bytes_before(x, y) && bytes_before(y, z) {
            lemma_bytes_before_transitive(x, y, z);
        }
        if bytes_before(z, x) {
            if bytes_before(x, y) {
                lemma_bytes_before_transitive(z, x, y);
            }
        }
    }
}

proof fn lemma_goes_before_transitive(keys: Seq<KeyView>, descending: bool, i: int, j: int, k: int)
    requires
        goes_before(keys, descending, i, j),
        goes_before(keys, descending, j, k),
    ensures
        goes_before(keys, descending, i, k),
{
    lemma_not_both(keys[i], keys[j]);
    lemma_not_both(keys[j], keys[k]);
    lemma_not_both(keys[i], keys[k]);
    if descending {
        lemma_key_before_transitive(keys[k], keys[j], keys[i]);
    } else {
        lemma_key_before_transitive(keys[i], keys[j], keys[k]);
    }
}

proof fn lemma_not_both(a: KeyView, b: KeyView)
    ensures
        !(key_before(a, b) && key_before(b, a)),
{
    if key_before(a, b) && key_before(b, a) {
        lemma_bytes_before_transitive(a.1, b.1, a.1);
        lemma_bytes_before_irreflexive(a.1);
    }
}

proof fn lemma_goes_before_total(keys: Seq<KeyView>, descending: bool, i: int, j: int)
    requires
        i != j,
    ensures
        goes_before(keys, descending, i, j) != goes_before(keys, descending, j, i),
{
    lemma_not_both(keys[i], keys[j]);
}

/// Things can be put in order in one way only.
pub proof fn law_there_is_one_order(keys: Seq<KeyView>, descending: bool, a: Seq<usize>, b: Seq<usize>)
    requires
        is_order(keys, descending, a),
        is_order(keys, descending, b),
    ensures
        a == b,
{
    assert forall|n: int| 0 <= n < a.len() implies a[n] == b[n] by {
        lemma_same_at(keys, descending, a, b, n);
    }
    assert(a =~= b);
}

proof fn lemma_same_at(keys: Seq<KeyView>, descending: bool, a: Seq<usize>, b: Seq<usize>, n: int)
    requires
        is_order(keys, descending, a),
        is_order(keys, descending, b),
        0 <= n < a.len(),
    ensures
        a[n] == b[n],
    decreases n,
{
    assert forall|m: int| 0 <= m < n implies a[m] == b[m] by {
        lemma_same_at(keys, descending, a, b, m);
    }
    if a[n] != b[n] {
        lemma_lists_all(keys, descending, a, b[n]);
        lemma_lists_all(keys, descending, b, a[n]);
        let p = choose|p: int| 0 <= p < a.len() && a[p] == b[n];
        let q = choose|q: int| 0 <= q < b.len() && b[q] == a[n];
        lemma_goes_before_total(keys, descending, a[n] as int, b[n] as int);
        if p < n {
            assert(b[p] == b[n]);
            assert(goes_before(keys, descending, b[p] as int, b[n] as int));
            lemma_not_both(keys[b[n] as int], keys[b[n] as int]);
        }
        if q < n {
            assert(a[q] == a[n]);
            assert(goes_before(keys, descending, a[q] as int, a[n] as int));
            lemma_not_both(keys[a[n] as int], keys[a[n] as int]);
        }
        assert(goes_before(keys, descending, a[n] as int, a[p] as int));
        assert(goes_before(keys, descending, b[n] as int, b[q] as int));
    }
}

/// An order leaves no place out.
pub proof fn lemma_lists_all(keys: Seq<KeyView>, descending: bool, order: Seq<usize>, place: usize)
    requires
        is_order(keys, descending, order),
        place < keys.len(),
    ensures
        exists|a: int| 0 <= a < order.len() && #[trigger] order[a] == place,
{
    lemma_distinct(keys, descending, order);
    let numbers = order.map_values(|n: usize| n as int);
    assert(numbers.no_duplicates());
    numbers.unique_seq_to_set();
    let all = vstd::set_lib::set_int_range(0, keys.len() as int);
    vstd::set_lib::lemma_int_range(0, keys.len() as int);
    assert(numbers.to_set().subset_of(all)) by {
        assert forall|n: int| numbers.to_set().contains(n) implies all.contains(n) by {
            let a = choose|a: int| 0 <= a < numbers.len() && numbers[a] == n;
            assert(0 <= order[a] < keys.len());
        }
    }
    vstd::set_lib::lemma_subset_equality(numbers.to_set(), all);
    assert(all.contains(place as int));
    let a = choose|a: int| 0 <= a < numbers.len() && numbers[a] == place as int;
    assert(order[a] == place);
}

/// An order lists no place twice.
pub proof fn lemma_distinct(keys: Seq<KeyView>, descending: bool, order: Seq<usize>)
    requires
        is_order(keys, descending, order),
    ensures
        order.no_duplicates(),
{
    assert forall|a: int, b: int| 0 <= a < order.len() && 0 <= b < order.len() && a != b implies order[a]
        != order[b] by {
        if order[a] == order[b] {
            let (low, high) = if a < b {
                (a, b)
            } else {
                (b, a)
            };
            assert(goes_before(keys, descending, order[low] as int, order[high] as int));
            lemma_not_both(keys[order[a] as int], keys[order[a] as int]);
        }
    }
}

fn is_key_before(a: &SortKey, b: &SortKey) -> (before: bool)
    ensures
        before == key_before(a@, b@),
{
    a.time < b.time || (a.time == b.time && is_bytes_before(a.name.as_slice(), b.name.as_slice()))
}

/// Whether a later place goes before an earlier one.
fn later_goes_first(keys: &Vec<SortKey>, descending: bool, earlier: usize, later: usize) -> (first: bool)
    requires
        earlier < later < keys@.len(),
    ensures
        first == goes_before(keys_view(keys@), descending, later as int, earlier as int),
{
    if descending {
        is_key_before(&keys[earlier], &keys[later])
    } else {
        is_key_before(&keys[later], &keys[earlier])
    }
}

/// The places of `keys` in order, up or down.
pub fn sorted_order(keys: &Vec<SortKey>, descending: bool) -> (order: Vec<usize>)
    ensures
        is_order(keys_view(keys@), descending, order@),
{
    let mut order: Vec<usize> = Vec::new();
    let mut next: usize = 0;
    while next < keys.len()
        invariant
            next <= keys@.len(),
            orders_first(keys_view(keys@), descending, next as int, order@),
        decreases keys@.len() - next,
    {
        let mut place: usize = order.len();
        while place > 0 && later_goes_first(keys, descending, order[place - 1], next)
            invariant
                next < keys@.len(),
                place <= order@.len(),
                orders_first(keys_view(keys@), descending, next as int, order@),
                forall|a: int|
                    place <= a < order@.len() ==> goes_before(
                        keys_view(keys@),
                        descending,
                        next as int,
                        #[trigger] order@[a] as int,
                    ),
            decreases place,
        {
            place = place - 1;
        }
        let ghost before = order@;
        order.insert(place, next);
        proof {
            assert forall|a: int| 0 <= a < place implies goes_before(
                keys_view(keys@),
                descending,
                #[trigger] before[a] as int,
                next as int,
            ) by {
                let last = before[place - 1] as int;
                lemma_goes_before_total(keys_view(keys@), descending, last, next as int);
                assert(goes_before(keys_view(keys@), descending, last, next as int));
                if a < place - 1 {
                    assert(goes_before(keys_view(keys@), descending, before[a] as int, last));
                    lemma_goes_before_transitive(
                        keys_view(keys@),
                        descending,
                        before[a] as int,
                        last,
                        next as int,
                    );
                }
            }
            assert forall|a: int, b: int| 0 <= a < b < order@.len() implies goes_before(
                keys_view(keys@),
                descending,
                #[trigger] order@[a] as int,
                #[trigger] order@[b] as int,
            ) by {
                let old_a = if a < place {
                    a
                } else {
                    a - 1
                };
                let old_b = if b < place {
                    b
                } else {
                    b - 1
                };
                if a != place {
                    assert(order@[a] == before[old_a]);
                }
                if b != place {
                    assert(order@[b] == before[old_b]);
                }
            }
            assert forall|a: int| 0 <= a < order@.len() implies 0 <= #[trigger] order@[a] < next + 1 by {
                if a < place {
                    assert(order@[a] == before[a]);
                } else if a > place {
                    assert(order@[a] == before[a - 1]);
                }
            }
        }
        next = next + 1;
    }
    order
}

/// The places below `count` at which something holds, in their order.
pub open spec fn places(count: int, holds: spec_fn(int) -> bool) -> Seq<usize>
    decreases count,
{
    if count <= 0 {
        Seq::empty()
    } else if holds(count - 1) {
        places(count - 1, holds).push((count - 1) as usize)
    } else {
        places(count - 1, holds)
    }
}

/// The places at which something holds are below the count, are all such places, and rise.
pub proof fn lemma_places(count: int, holds: spec_fn(int) -> bool)
    requires
        0 <= count <= usize::MAX,
    ensures
        places(count, holds).len() <= count,
        forall|k: int|
            0 <= k < places(count, holds).len() ==> 0 <= #[trigger] places(count, holds)[k] < count
                && holds(places(count, holds)[k] as int),
        forall|i: usize|
            i < count && holds(i as int) ==> #[trigger] places(count, holds).contains(i),
        forall|j: int, k: int|
            0 <= j < k < places(count, holds).len() ==> #[trigger] places(count, holds)[j]
                < #[trigger] places(count, holds)[k],
    decreases count,
{
    if count > 0 {
        lemma_places(count - 1, holds);
        let before = places(count - 1, holds);
        let all = places(count, holds);
        assert forall|i: usize| i < count && holds(i as int) implies #[trigger] all.contains(i) by {
            if i < count - 1 {
                assert(before.contains(i));
                let k = choose|k: int| 0 <= k < before.len() && #[trigger] before[k] == i;
                assert(all[k] == i);
            } else {
                assert(all[all.len() - 1] == i);
            }
        }
    }
}

/// The bytes, once more.
pub fn copy_bytes(bytes: &Vec<u8>) -> (copy: Vec<u8>)
    ensures
        copy@ == bytes@,
{
    let mut copy: Vec<u8> = Vec::new();
    let mut index: usize = 0;
    while index < bytes.len()
        invariant
            index <= bytes@.len(),
            copy@ == bytes@.take(index as int),
        decreases bytes@.len() - index,
    {
        copy.push(bytes[index]);
        index = index + 1;
        proof {
            assert(bytes@.take(index as int) =~= bytes@.take(index - 1).push(bytes@[index - 1]));
        }
    }
    proof {
        assert(bytes@.take(index as int) =~= bytes@);
    }
    copy
}

} // verus!
