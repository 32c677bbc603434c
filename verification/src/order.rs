//! Stable sorting by a key.

use crate::double;
use crate::double::{Double, Real};
use crate::text;
use vstd::prelude::*;

verus! {

/// A key that items are sorted by.
pub trait SortKey: Sized {
    /// Whether this key can be compared with others of its kind.
    spec fn is_key(self) -> bool;

    /// Whether this key comes before `other`.
    spec fn precedes(self, other: Self) -> bool;

    /// Two keys do not precede each other.
    proof fn asymmetric(a: Self, b: Self)
        requires
            a.is_key(),
            b.is_key(),
        ensures
            !(a.precedes(b) && b.precedes(a)),
    ;

    /// A key that does not precede a second, which does not precede a third, does not precede it.
    proof fn transitive(a: Self, b: Self, c: Self)
        requires
            a.is_key(),
            b.is_key(),
            c.is_key(),
            !a.precedes(b),
            !b.precedes(c),
        ensures
            !a.precedes(c),
    ;

    /// Whether this key comes before `other`.
    fn is_before(&self, other: &Self) -> (r: bool)
        ensures
            r == self.precedes(*other),
    ;
}

/// Times sort by value; one that is absent comes before all that are there.
impl SortKey for Option<Double> {
    open spec fn is_key(self) -> bool {
        self matches Some(x) ==> x@ != Real::NotANumber
    }

    open spec fn precedes(self, other: Self) -> bool {
        match (self, other) {
            (None, Some(_)) => true,
            (Some(x), Some(y)) => double::less(x@, y@),
            _ => false,
        }
    }

    proof fn asymmetric(a: Self, b: Self) {
    }

    proof fn transitive(a: Self, b: Self, c: Self) {
    }

    fn is_before(&self, other: &Self) -> (r: bool) {
        match (self, other) {
            (None, Some(_)) => true,
            (Some(x), Some(y)) => x.lt(y),
            _ => false,
        }
    }
}

/// Texts sort by their characters' code points.
impl SortKey for String {
    open spec fn is_key(self) -> bool {
        true
    }

    open spec fn precedes(self, other: Self) -> bool {
        text::precedes(self@, other@)
    }

    proof fn asymmetric(a: Self, b: Self) {
        text::precedes_is_asymmetric(a@, b@);
    }

    proof fn transitive(a: Self, b: Self, c: Self) {
        text::precedes_is_transitive(a@, b@, c@);
    }

    fn is_before(&self, other: &Self) -> (r: bool) {
        text::is_before(self.as_str(), other.as_str())
    }
}

/// Whether all of the keys can be compared.
pub open spec fn sortable<K: SortKey>(keys: Seq<K>) -> bool {
    forall|i: int| 0 <= i < keys.len() ==> (#[trigger] keys[i]).is_key()
}

/// `order` with `i` put behind the last index whose key is not behind that of `i`.
pub open spec fn inserted<K: SortKey>(order: Seq<int>, keys: Seq<K>, i: int) -> Seq<int>
    decreases order.len(),
{
    if order.len() == 0 || !keys[i].precedes(keys[order.last()]) {
        order.push(i)
    } else {
        inserted(order.drop_last(), keys, i).push(order.last())
    }
}

/// The indices below `n` in the order of their keys, equal keys in index order.
pub open spec fn stable_order<K: SortKey>(keys: Seq<K>, n: nat) -> Seq<int>
    decreases n,
{
    if n == 0 {
        Seq::empty()
    } else {
        inserted(stable_order(keys, (n - 1) as nat), keys, n - 1)
    }
}

/// Whether `order` lists each index below `n` once.
pub open spec fn lists_each_once(order: Seq<int>, n: nat) -> bool {
    &&& order.len() == n
    &&& order.no_duplicates()
    &&& forall|k: int| 0 <= k < n ==> #[trigger] order.contains(k)
    &&& forall|k: int| #[trigger] order.contains(k) ==> 0 <= k < n
}

/// Whether the keys do not fall along `order`, and equal ones keep their index order.
pub open spec fn rises_stably<K: SortKey>(order: Seq<int>, keys: Seq<K>) -> bool {
    forall|i: int, j: int|
        0 <= i < j < order.len() ==> !keys[#[trigger] order[j]].precedes(
            keys[#[trigger] order[i]],
        ) && (keys[order[i]].precedes(keys[order[j]]) || order[i] < order[j])
}

/// Inserting an index adds just that one.
proof fn lemma_inserted_contains<K: SortKey>(order: Seq<int>, keys: Seq<K>, i: int)
    ensures
        inserted(order, keys, i).len() == order.len() + 1,
        forall|k: int| #[trigger]
            inserted(order, keys, i).contains(k) <==> k == i || order.contains(k),
    decreases order.len(),
{
    let r = inserted(order, keys, i);
    if order.len() == 0 || !keys[i].precedes(keys[order.last()]) {
        assert forall|k: int| #[trigger] r.contains(k) <==> k == i || order.contains(k) by {
            if order.contains(k) {
                let w = order.index_of(k);
                assert(r[w] == k);
            }
            if k == i {
                assert(r[order.len() as int] == i);
            }
        }
    } else {
        let head = order.drop_last();
        let inner = inserted(head, keys, i);
        lemma_inserted_contains(head, keys, i);
        assert forall|k: int| #[trigger] r.contains(k) <==> k == i || order.contains(k) by {
            if r.contains(k) {
                let w = r.index_of(k);
                if w < inner.len() {
                    assert(inner[w] == k);
                    assert(inner.contains(k));
                    if head.contains(k) {
                        let v = head.index_of(k);
                        assert(order[v] == k);
                    }
                } else {
                    assert(order[order.len() - 1] == k);
                }
            }
            if k == i || head.contains(k) {
                assert(inner.contains(k));
                let w = inner.index_of(k);
                assert(r[w] == k);
            }
            if order.contains(k) && !head.contains(k) {
                let v = order.index_of(k);
                if v < head.len() {
                    assert(head[v] == k);
                }
                assert(k == order.last());
                assert(r[inner.len() as int] == k);
            }
        }
    }
}

/// Inserting a new, larger index keeps an order stable.
proof fn lemma_inserted_rises<K: SortKey>(order: Seq<int>, keys: Seq<K>, i: int)
    requires
        sortable(keys),
        0 <= i < keys.len(),
        rises_stably(order, keys),
        forall|k: int| #[trigger] order.contains(k) ==> 0 <= k < i,
    ensures
        rises_stably(inserted(order, keys, i), keys),
    decreases order.len(),
{
    let r = inserted(order, keys, i);
    lemma_inserted_contains(order, keys, i);
    assert forall|k: int| 0 <= k < order.len() implies 0 <= #[trigger] order[k] < i by {
        assert(order.contains(order[k]));
    }
    if order.len() == 0 || !keys[i].precedes(keys[order.last()]) {
        assert forall|a: int, b: int| 0 <= a < b < r.len() implies !keys[#[trigger] r[b]].precedes(
            keys[#[trigger] r[a]],
        ) && (keys[r[a]].precedes(keys[r[b]]) || r[a] < r[b]) by {
            if b == order.len() {
                assert(r[a] == order[a]);
                if a < order.len() - 1 {
                    assert(!keys[order[order.len() - 1]].precedes(keys[order[a]]));
                    K::transitive(keys[i], keys[order.last()], keys[order[a]]);
                }
            } else {
                assert(r[a] == order[a] && r[b] == order[b]);
            }
        }
    } else {
        let head = order.drop_last();
        let inner = inserted(head, keys, i);
        assert forall|k: int| #[trigger] head.contains(k) implies 0 <= k < i by {
            let w = head.index_of(k);
            assert(order[w] == k);
        }
        assert(rises_stably(head, keys)) by {
            assert forall|a: int, b: int| 0 <= a < b < head.len() implies !keys[#[trigger] head[b]].precedes(
                keys[#[trigger] head[a]],
            ) && (keys[head[a]].precedes(keys[head[b]]) || head[a] < head[b]) by {
                assert(head[a] == order[a] && head[b] == order[b]);
            }
        }
        lemma_inserted_rises(head, keys, i);
        lemma_inserted_contains(head, keys, i);
        let last = order.last();
        assert(order[order.len() - 1] == last);
        assert forall|a: int, b: int| 0 <= a < b < r.len() implies !keys[#[trigger] r[b]].precedes(
            keys[#[trigger] r[a]],
        ) && (keys[r[a]].precedes(keys[r[b]]) || r[a] < r[b]) by {
            if b == inner.len() {
                assert(r[a] == inner[a]);
                assert(inner.contains(inner[a]));
                if inner[a] != i {
                    assert(head.contains(inner[a]));
                    let w = head.index_of(inner[a]);
                    assert(order[w] == inner[a]);
                } else {
                    K::asymmetric(keys[i], keys[last]);
                }
            } else {
                assert(r[a] == inner[a] && r[b] == inner[b]);
            }
        }
    }
}

/// Inserting a new index keeps the indices distinct.
proof fn lemma_inserted_distinct<K: SortKey>(order: Seq<int>, keys: Seq<K>, i: int)
    requires
        order.no_duplicates(),
        !order.contains(i),
    ensures
        inserted(order, keys, i).no_duplicates(),
    decreases order.len(),
{
    let r = inserted(order, keys, i);
    if order.len() == 0 || !keys[i].precedes(keys[order.last()]) {
        assert forall|a: int, b: int| 0 <= a < r.len() && 0 <= b < r.len() && a != b implies r[a]
            != r[b] by {
            if a == order.len() && r[a] == r[b] {
                assert(order[b] == i);
            }
            if b == order.len() && r[a] == r[b] {
                assert(order[a] == i);
            }
        }
    } else {
        let head = order.drop_last();
        let inner = inserted(head, keys, i);
        let last = order.last();
        if head.contains(i) {
            let w = head.index_of(i);
            assert(order[w] == i);
        }
        lemma_inserted_distinct(head, keys, i);
        lemma_inserted_contains(head, keys, i);
        assert(order[order.len() - 1] == last);
        assert(!inner.contains(last)) by {
            if head.contains(last) {
                let w = head.index_of(last);
                assert(order[w] == order[order.len() - 1]);
            }
        }
        assert forall|a: int, b: int| 0 <= a < r.len() && 0 <= b < r.len() && a != b implies r[a]
            != r[b] by {
            if a == inner.len() && r[a] == r[b] {
                assert(inner[b] == last);
            }
            if b == inner.len() && r[a] == r[b] {
                assert(inner[a] == last);
            }
        }
    }
}

/// Sorting loses no item and repeats none.
pub proof fn stable_order_lists_each_once<K: SortKey>(keys: Seq<K>, n: nat)
    ensures
        lists_each_once(stable_order(keys, n), n),
    decreases n,
{
    if n > 0 {
        let head = stable_order(keys, (n - 1) as nat);
        stable_order_lists_each_once(keys, (n - 1) as nat);
        lemma_inserted_contains(head, keys, n - 1);
        lemma_inserted_distinct(head, keys, n - 1);
    }
}

/// Sorting puts no later key before an earlier one, and keeps items with equal keys in their given
/// order.
pub proof fn stable_order_is_a_stable_sort<K: SortKey>(keys: Seq<K>, n: nat)
    requires
        sortable(keys),
        n <= keys.len(),
    ensures
        rises_stably(stable_order(keys, n), keys),
    decreases n,
{
    if n > 0 {
        let head = stable_order(keys, (n - 1) as nat);
        stable_order_is_a_stable_sort(keys, (n - 1) as nat);
        stable_order_lists_each_once(keys, (n - 1) as nat);
        lemma_inserted_rises(head, keys, n - 1);
    }
}

/// Indices moved on by `by`.
pub open spec fn moved(order: Seq<int>, by: int) -> Seq<int> {
    Seq::new(order.len(), |k: int| order[k] + by)
}

/// The order of the first keys does not depend on those that follow.
proof fn lemma_front_order<K: SortKey>(a: Seq<K>, b: Seq<K>, n: nat)
    requires
        n <= a.len(),
    ensures
        stable_order(a + b, n) == stable_order(a, n),
    decreases n,
{
    if n > 0 {
        let head = stable_order(a, (n - 1) as nat);
        lemma_front_order(a, b, (n - 1) as nat);
        stable_order_lists_each_once(a, (n - 1) as nat);
        assert forall|k: int| 0 <= k < head.len() implies 0 <= #[trigger] head[k] < n - 1 by {
            assert(head.contains(head[k]));
        }
        lemma_inserted_in_front(head, a, b, n - 1);
    }
}

proof fn lemma_inserted_in_front<K: SortKey>(order: Seq<int>, a: Seq<K>, b: Seq<K>, i: int)
    requires
        0 <= i < a.len(),
        forall|k: int| 0 <= k < order.len() ==> 0 <= #[trigger] order[k] < a.len(),
    ensures
        inserted(order, a + b, i) == inserted(order, a, i),
    decreases order.len(),
{
    if order.len() > 0 {
        let last = order[order.len() - 1];
        assert((a + b)[i] == a[i] && (a + b)[last] == a[last]);
        lemma_inserted_in_front(order.drop_last(), a, b, i);
    }
}

/// Inserting an index of the later keys leaves the earlier ones alone.
proof fn lemma_inserted_behind<K: SortKey>(front: Seq<int>, order: Seq<int>, a: Seq<K>, b: Seq<K>, i: int)
    requires
        0 <= i < b.len(),
        forall|k: int| 0 <= k < front.len() ==> 0 <= #[trigger] front[k] < a.len(),
        forall|k: int| 0 <= k < order.len() ==> 0 <= #[trigger] order[k] < b.len(),
        forall|k: int| 0 <= k < a.len() ==> !b[i].precedes(#[trigger] a[k]),
    ensures
        inserted(front + moved(order, a.len() as int), a + b, a.len() + i) == front + moved(
            inserted(order, b, i),
            a.len() as int,
        ),
    decreases order.len(),
{
    let n = a.len() as int;
    let all = front + moved(order, n);
    assert((a + b)[n + i] == b[i]);
    if order.len() == 0 {
        assert(all =~= front);
        if front.len() > 0 {
            let last = front[front.len() - 1];
            assert((a + b)[last] == a[last]);
        }
        assert(all.push(n + i) =~= front + moved(order.push(i), n));
    } else {
        let last = order[order.len() - 1];
        assert(all.last() == last + n);
        assert((a + b)[last + n] == b[last]);
        if !b[i].precedes(b[last]) {
            assert(all.push(n + i) =~= front + moved(order.push(i), n));
        } else {
            let head = order.drop_last();
            assert(all.drop_last() =~= front + moved(head, n));
            lemma_inserted_behind(front, head, a, b, i);
            assert((front + moved(inserted(head, b, i), n)).push(last + n) =~= front + moved(
                inserted(head, b, i).push(last),
                n,
            ));
        }
    }
}

/// Keys behind others, none of which they precede, are sorted by themselves: the order of all is
/// that of the first ones followed by that of the rest.
pub proof fn stable_order_of_joined<K: SortKey>(a: Seq<K>, b: Seq<K>, m: nat)
    requires
        m <= b.len(),
        forall|i: int, j: int|
            0 <= i < a.len() && 0 <= j < b.len() ==> !(#[trigger] b[j]).precedes(#[trigger] a[i]),
    ensures
        stable_order(a + b, a.len() + m) == stable_order(a, a.len()) + moved(
            stable_order(b, m),
            a.len() as int,
        ),
    decreases m,
{
    let front = stable_order(a, a.len());
    if m == 0 {
        lemma_front_order(a, b, a.len());
        assert(front + moved(stable_order(b, 0), a.len() as int) =~= front);
    } else {
        let head = stable_order(b, (m - 1) as nat);
        stable_order_of_joined(a, b, (m - 1) as nat);
        stable_order_lists_each_once(a, a.len());
        stable_order_lists_each_once(b, (m - 1) as nat);
        assert forall|k: int| 0 <= k < front.len() implies 0 <= #[trigger] front[k] < a.len() by {
            assert(front.contains(front[k]));
        }
        assert forall|k: int| 0 <= k < head.len() implies 0 <= #[trigger] head[k] < b.len() by {
            assert(head.contains(head[k]));
        }
        lemma_inserted_behind(front, head, a, b, m - 1);
    }
}

/// Machine indices as integers.
pub open spec fn indices(order: Seq<usize>) -> Seq<int> {
    Seq::new(order.len(), |k: int| order[k] as int)
}

/// Puts `i` into the order of keys.
fn insert_index<K: SortKey>(order: &mut Vec<usize>, keys: &Vec<K>, i: usize)
    requires
        i < keys@.len(),
        forall|k: int| 0 <= k < old(order)@.len() ==> #[trigger] old(order)@[k] < i,
    ensures
        indices(final(order)@) == inserted(indices(old(order)@), keys@, i as int),
        forall|k: int| 0 <= k < final(order)@.len() ==> #[trigger] final(order)@[k] <= i,
{
    let ghost all = indices(order@);
    let ghost before = order@;
    let mut at: usize = order.len();
    let ghost mut tail = Seq::<int>::empty();
    assert(all =~= indices(order@.take(at as int)));
    assert(inserted(all, keys@, i as int) + tail =~= inserted(all, keys@, i as int));
    assert(tail =~= indices(order@.skip(at as int)));
    while at > 0 && keys[i].is_before(&keys[order[at - 1]])
        invariant
            i < keys@.len(),
            at <= order@.len(),
            order@ == before,
            forall|k: int| 0 <= k < order@.len() ==> #[trigger] order@[k] < i,
            tail == indices(order@.skip(at as int)),
            inserted(all, keys@, i as int) == inserted(
                indices(order@.take(at as int)),
                keys@,
                i as int,
            ) + tail,
        decreases at,
    {
        proof {
            let now = indices(order@.take(at as int));
            let less = indices(order@.take(at - 1));
            assert(now.drop_last() =~= less);
            assert(now.last() == order@[at - 1]);
            assert(inserted(now, keys@, i as int) == inserted(less, keys@, i as int).push(
                now.last(),
            ));
            assert(indices(order@.skip(at - 1)) =~= seq![now.last()] + tail);
            assert(inserted(less, keys@, i as int).push(now.last()) + tail =~= inserted(
                less,
                keys@,
                i as int,
            ) + (seq![now.last()] + tail));
            tail = seq![now.last()] + tail;
        }
        at -= 1;
    }
    order.insert(at, i);
    proof {
        let now = indices(before.take(at as int));
        if at > 0 {
            assert(now.last() == before[at - 1]);
        }
        assert(inserted(now, keys@, i as int) == now.push(i as int));
        assert(indices(order@) =~= now.push(i as int) + tail);
    }
}

/// The indices of `keys` in the order of the keys, equal keys in index order.
pub fn sort_indices<K: SortKey>(keys: &Vec<K>) -> (r: Vec<usize>)
    ensures
        indices(r@) == stable_order(keys@, keys@.len()),
        r@.len() == keys@.len(),
        forall|k: int| 0 <= k < r@.len() ==> #[trigger] r@[k] < keys@.len(),
        lists_each_once(indices(r@), keys@.len()),
{
    let mut order: Vec<usize> = Vec::new();
    let mut i: usize = 0;
    assert(indices(order@) =~= Seq::empty());
    while i < keys.len()
        invariant
            i <= keys@.len(),
            indices(order@) == stable_order(keys@, i as nat),
            forall|k: int| 0 <= k < order@.len() ==> #[trigger] order@[k] < i,
        decreases keys@.len() - i,
    {
        insert_index(&mut order, keys, i);
        i += 1;
    }
    proof {
        stable_order_lists_each_once(keys@, keys@.len());
        assert(indices(order@).len() == order@.len());
    }
    order
}

/// An order that lists each place once holds every place, at one position.
pub proof fn orders_hold_every_place(order: Seq<int>, n: nat, i: int, j: int)
    requires
        lists_each_once(order, n),
    ensures
        order.len() == n,
        0 <= i < n ==> 0 <= order[i] < n,
        0 <= i < n ==> exists|k: int| 0 <= k < n && #[trigger] order[k] == i,
        0 <= i < j < n ==> order[i] != order[j],
{
    if 0 <= i < n {
        assert(order.contains(order[i]));
        assert(order.contains(i));
        assert(order[order.index_of(i)] == i);
    }
}

/// A stable order never puts a greater key before a lesser one, and leaves equal keys in their
/// places.
pub proof fn stable_orders_rise<K: SortKey>(order: Seq<int>, keys: Seq<K>, i: int, j: int)
    requires
        rises_stably(order, keys),
        0 <= i < j < order.len(),
    ensures
        !keys[order[j]].precedes(keys[order[i]]),
        !keys[order[i]].precedes(keys[order[j]]) ==> order[i] < order[j],
{
}

/// Times are ordered by their values, absent ones before all others, and texts by their code
/// points.
pub proof fn keys_are_ordered(a: Option<Double>, b: Option<Double>, s: String, t: String)
    ensures
        a is None && b is Some ==> a.precedes(b),
        b is None ==> !a.precedes(b),
        a matches Some(x) ==> (b matches Some(y) ==> (a.precedes(b) <==> double::less(x@, y@))),
        s.precedes(t) <==> text::precedes(s@, t@),
        a.is_key() <==> (a is None || a->0@ != Real::NotANumber),
        s.is_key(),
{
}

} // verus!
