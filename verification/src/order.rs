//! Orders on entries, and what it means to sort a listing stably.
//!
//! A sort is stable when entries that rank alike keep the order in which they
//! stood. That is stated here without naming an algorithm: the result is in
//! order, and for every entry the run of entries that rank with it reads the
//! same before and after.

use crate::entry::EntryData;
use crate::names::{
    lemma_lex_le_reflexive, lemma_lex_le_total, lemma_lex_le_transitive, lex_le, name_le,
};
use crate::size::size_le;
use vstd::prelude::*;

verus! {

/// What entries are ranked by.
#[derive(Debug, Clone, Copy, PartialEq, Eq, Structural)]
pub enum SortKey {
    /// The name, in dictionary order of its bytes.
    Name,
    /// The size, unknown below every known size.
    Size,
}

/// A key and a direction.
#[derive(Debug, Clone, Copy, PartialEq, Eq, Structural)]
pub struct Order {
    pub key: SortKey,
    /// Largest first when set, smallest first when not.
    pub descending: bool,
}

/// `x` ranks no higher than `y` by `key`.
pub open spec fn key_le(key: SortKey, x: EntryData, y: EntryData) -> bool {
    match key {
        SortKey::Name => lex_le(x.name@, y.name@),
        SortKey::Size => size_le(x.size, y.size),
    }
}

/// `x` and `y` rank alike by `key`.
pub open spec fn same_rank(key: SortKey, x: EntryData, y: EntryData) -> bool {
    key_le(key, x, y) && key_le(key, y, x)
}

/// `x` may stand before `y` in a listing that follows `order`.
pub open spec fn in_order(order: Order, x: EntryData, y: EntryData) -> bool {
    if order.descending {
        key_le(order.key, y, x)
    } else {
        key_le(order.key, x, y)
    }
}

/// Every entry of `s` may stand before all that follow it.
pub open spec fn is_ordered(s: Seq<EntryData>, order: Order) -> bool {
    forall|i: int, j: int| 0 <= i < j < s.len() ==> in_order(order, s[i], s[j])
}

/// The entries of `s` that rank with `x`, in the order in which they stand.
pub open spec fn tie_group(s: Seq<EntryData>, key: SortKey, x: EntryData) -> Seq<EntryData>
    decreases s.len(),
{
    if s.len() == 0 {
        Seq::empty()
    } else if same_rank(key, x, s.last()) {
        tie_group(s.drop_last(), key, x).push(s.last())
    } else {
        tie_group(s.drop_last(), key, x)
    }
}

/// `after` is `before`, sorted stably by `order`: it is in order, and each
/// run of entries that rank alike reads as it did in `before`.
pub open spec fn is_stable_sort(before: Seq<EntryData>, after: Seq<EntryData>, order: Order) -> bool {
    &&& is_ordered(after, order)
    &&& forall|x: EntryData| #[trigger]
        tie_group(after, order.key, x) == tie_group(before, order.key, x)
}

/// Every entry ranks with itself.
pub proof fn lemma_key_le_reflexive(key: SortKey, x: EntryData)
    ensures
        key_le(key, x, x),
        same_rank(key, x, x),
{
    lemma_lex_le_reflexive(x.name@);
}

/// Of two entries, one ranks no higher than the other.
pub proof fn lemma_key_le_total(key: SortKey, x: EntryData, y: EntryData)
    ensures
        key_le(key, x, y) || key_le(key, y, x),
{
    lemma_lex_le_total(x.name@, y.name@);
}

/// Ranking is transitive.
pub proof fn lemma_key_le_transitive(key: SortKey, x: EntryData, y: EntryData, z: EntryData)
    requires
        key_le(key, x, y),
        key_le(key, y, z),
    ensures
        key_le(key, x, z),
{
    if key == SortKey::Name {
        lemma_lex_le_transitive(x.name@, y.name@, z.name@);
    }
}

/// In either direction, of two entries one may stand before the other.
pub proof fn lemma_in_order_total(order: Order, x: EntryData, y: EntryData)
    ensures
        in_order(order, x, y) || in_order(order, y, x),
{
    lemma_key_le_total(order.key, x, y);
}

/// In either direction, standing before is transitive.
pub proof fn lemma_in_order_transitive(order: Order, x: EntryData, y: EntryData, z: EntryData)
    requires
        in_order(order, x, y),
        in_order(order, y, z),
    ensures
        in_order(order, x, z),
{
    if order.descending {
        lemma_key_le_transitive(order.key, z, y, x);
    } else {
        lemma_key_le_transitive(order.key, x, y, z);
    }
}

/// Decides whether `x` may stand before `y`.
pub fn stands_before(order: Order, x: &EntryData, y: &EntryData) -> (r: bool)
    ensures
        r == in_order(order, *x, *y),
{
    match order.key {
        SortKey::Name => {
            if order.descending {
                name_le(y.name.as_slice(), x.name.as_slice())
            } else {
                name_le(x.name.as_slice(), y.name.as_slice())
            }
        },
        SortKey::Size => {
            if order.descending {
                y.size <= x.size
            } else {
                x.size <= y.size
            }
        },
    }
}

/// Decides whether a listing is in order.
pub fn is_sorted(entries: &Vec<EntryData>, order: Order) -> (r: bool)
    ensures
        r == is_ordered(entries@, order),
{
    if entries.len() < 2 {
        return true;
    }
    let mut i: usize = 0;
    while i + 1 < entries.len()
        invariant
            i < entries@.len(),
            forall|a: int, b: int| 0 <= a < b <= i ==> in_order(order, entries@[a], entries@[b]),
        decreases entries.len() - i,
    {
        if !stands_before(order, &entries[i], &entries[i + 1]) {
            return false;
        }
        proof {
            assert forall|a: int, b: int| 0 <= a < b <= i + 1 implies in_order(
                order,
                entries@[a],
                entries@[b],
            ) by {
                if b == i + 1 && a < i {
                    lemma_in_order_transitive(
                        order,
                        entries@[a],
                        entries@[i as int],
                        entries@[i + 1],
                    );
                }
            }
        }
        i += 1;
    }
    true
}

/// A listing that is in order is its own stable sort.
pub proof fn lemma_ordered_is_own_sort(s: Seq<EntryData>, order: Order)
    requires
        is_ordered(s, order),
    ensures
        is_stable_sort(s, s, order),
{
}

/// Adding an entry at the end adds it to the runs of the entries it ranks
/// with, and to no other.
pub proof fn lemma_tie_group_push(s: Seq<EntryData>, e: EntryData, key: SortKey, x: EntryData)
    ensures
        tie_group(s.push(e), key, x) == if same_rank(key, x, e) {
            tie_group(s, key, x).push(e)
        } else {
            tie_group(s, key, x)
        },
{
    assert(s.push(e).drop_last() =~= s);
    assert(s.push(e).last() == e);
}

/// The run of ties within a single entry.
pub proof fn lemma_tie_group_single(e: EntryData, key: SortKey, x: EntryData)
    ensures
        tie_group(seq![e], key, x) == if same_rank(key, x, e) {
            seq![e]
        } else {
            Seq::<EntryData>::empty()
        },
{
    lemma_tie_group_push(Seq::<EntryData>::empty(), e, key, x);
    assert(Seq::<EntryData>::empty().push(e) =~= seq![e]);
}

/// The run of ties of a joined listing is the two runs joined.
pub proof fn lemma_tie_group_concat(s: Seq<EntryData>, t: Seq<EntryData>, key: SortKey, x: EntryData)
    ensures
        tie_group(s + t, key, x) == tie_group(s, key, x) + tie_group(t, key, x),
    decreases t.len(),
{
    if t.len() == 0 {
        assert(s + t =~= s);
        assert(tie_group(s, key, x) + tie_group(t, key, x) =~= tie_group(s, key, x));
    } else {
        assert((s + t).drop_last() =~= s + t.drop_last());
        assert((s + t).last() == t.last());
        lemma_tie_group_concat(s, t.drop_last(), key, x);
        if same_rank(key, x, t.last()) {
            assert(tie_group(s + t, key, x) =~= tie_group(s, key, x) + tie_group(t, key, x));
        }
    }
}

/// Every entry of a run of ties stands in the listing and ranks with `x`.
pub proof fn lemma_tie_group_members(s: Seq<EntryData>, key: SortKey, x: EntryData)
    ensures
        tie_group(s, key, x).len() <= s.len(),
        forall|k: int|
            0 <= k < tie_group(s, key, x).len() ==> s.contains(#[trigger] tie_group(s, key, x)[k])
                && same_rank(key, x, tie_group(s, key, x)[k]),
    decreases s.len(),
{
    if s.len() > 0 {
        lemma_tie_group_members(s.drop_last(), key, x);
        let rest = tie_group(s.drop_last(), key, x);
        assert forall|k: int| 0 <= k < tie_group(s, key, x).len() implies s.contains(
            #[trigger] tie_group(s, key, x)[k],
        ) && same_rank(key, x, tie_group(s, key, x)[k]) by {
            if k < rest.len() {
                let e = rest[k];
                assert(s.drop_last().contains(e));
                let w = choose|w: int| 0 <= w < s.drop_last().len() && s.drop_last()[w] == e;
                assert(s[w] == e);
            } else {
                assert(s[s.len() - 1] == s.last());
            }
        }
    }
}

/// An entry of the listing that ranks with `x` stands in the run of ties of
/// `x`.
pub proof fn lemma_tie_group_holds(s: Seq<EntryData>, key: SortKey, x: EntryData, i: int)
    requires
        0 <= i < s.len(),
        same_rank(key, x, s[i]),
    ensures
        tie_group(s, key, x).contains(s[i]),
    decreases s.len(),
{
    let g = tie_group(s, key, x);
    if i == s.len() - 1 {
        assert(g[g.len() - 1] == s[i]);
    } else {
        lemma_tie_group_holds(s.drop_last(), key, x, i);
        let rest = tie_group(s.drop_last(), key, x);
        let w = choose|w: int| 0 <= w < rest.len() && rest[w] == s.drop_last()[i];
        assert(g[w] == s[i]);
    }
}

/// Where nothing in the listing ranks with `x`, the run of ties of `x` is
/// empty.
pub proof fn lemma_tie_group_empty(s: Seq<EntryData>, key: SortKey, x: EntryData)
    requires
        forall|i: int| 0 <= i < s.len() ==> !same_rank(key, x, #[trigger] s[i]),
    ensures
        tie_group(s, key, x) == Seq::<EntryData>::empty(),
    decreases s.len(),
{
    if s.len() > 0 {
        assert(!same_rank(key, x, s[s.len() - 1]));
        lemma_tie_group_empty(s.drop_last(), key, x);
    }
}

/// An entry stands in a listing as often as in its own run of ties there.
pub proof fn lemma_tie_group_counts(s: Seq<EntryData>, key: SortKey, x: EntryData)
    ensures
        s.to_multiset().count(x) == tie_group(s, key, x).to_multiset().count(x),
    decreases s.len(),
{
    broadcast use vstd::multiset::group_multiset_axioms;

    if s.len() == 0 {
        assert(tie_group(s, key, x) =~= s);
    } else {
        let rest = s.drop_last();
        let e = s.last();
        lemma_tie_group_counts(rest, key, x);
        assert(s =~= rest.push(e));
        vstd::seq_lib::to_multiset_build(rest, e);
        if same_rank(key, x, e) {
            vstd::seq_lib::to_multiset_build(tie_group(rest, key, x), e);
        } else {
            lemma_key_le_reflexive(key, x);
        }
    }
}

/// Sorting loses nothing and adds nothing: a stable sort of a listing holds
/// the same entries, each as often, as the listing.
pub proof fn lemma_stable_sort_permutes(before: Seq<EntryData>, after: Seq<EntryData>, order: Order)
    requires
        is_stable_sort(before, after, order),
    ensures
        after.to_multiset() == before.to_multiset(),
        after.len() == before.len(),
{
    assert forall|x: EntryData| after.to_multiset().count(x) == before.to_multiset().count(x) by {
        lemma_tie_group_counts(after, order.key, x);
        lemma_tie_group_counts(before, order.key, x);
        assert(tie_group(after, order.key, x) == tie_group(before, order.key, x));
    }
    assert(after.to_multiset() =~= before.to_multiset());
    vstd::seq_lib::to_multiset_len(after);
    vstd::seq_lib::to_multiset_len(before);
}

proof fn lemma_same_ties_same_listing(a: Seq<EntryData>, b: Seq<EntryData>, order: Order)
    requires
        is_ordered(a, order),
        is_ordered(b, order),
        forall|x: EntryData| #[trigger] tie_group(a, order.key, x) == tie_group(b, order.key, x),
    ensures
        a == b,
    decreases a.len(),
{
    let key = order.key;
    if a.len() == 0 {
        if b.len() > 0 {
            let z = b.last();
            lemma_key_le_reflexive(key, z);
            assert(tie_group(a, key, z) == tie_group(b, key, z));
            assert(tie_group(b, key, z).len() > 0);
        }
        assert(a =~= b);
    } else {
        let x = a.last();
        lemma_key_le_reflexive(key, x);
        assert(tie_group(a, key, x) == tie_group(b, key, x));
        assert(tie_group(a, key, x).last() == x);
        assert(b.len() > 0);
        let z = b.last();
        lemma_key_le_reflexive(key, z);
        if !same_rank(key, x, z) {
            lemma_tie_group_holds(a, key, x, a.len() - 1);
            lemma_tie_group_members(b, key, x);
            let w = choose|w: int| 0 <= w < b.len() && b[w] == x;
            assert(in_order(order, b[w], b[b.len() - 1]));
            assert(tie_group(a, key, z) == tie_group(b, key, z));
            lemma_tie_group_holds(b, key, z, b.len() - 1);
            lemma_tie_group_members(a, key, z);
            let v = choose|v: int| 0 <= v < a.len() && a[v] == z;
            assert(in_order(order, a[v], a[a.len() - 1]));
            assert(false);
        }
        assert(tie_group(b, key, x).last() == z);
        assert(z == x);
        let a1 = a.drop_last();
        let b1 = b.drop_last();
        assert forall|y: EntryData| #[trigger]
            tie_group(a1, key, y) == tie_group(b1, key, y) by {
            assert(tie_group(a, key, y) == tie_group(b, key, y));
            if same_rank(key, y, x) {
                assert(tie_group(a1, key, y).push(x).drop_last() =~= tie_group(a1, key, y));
                assert(tie_group(b1, key, y).push(x).drop_last() =~= tie_group(b1, key, y));
            }
        }
        assert forall|i: int, j: int| 0 <= i < j < a1.len() implies in_order(
            order,
            a1[i],
            a1[j],
        ) by {
            assert(a1[i] == a[i] && a1[j] == a[j]);
        }
        assert forall|i: int, j: int| 0 <= i < j < b1.len() implies in_order(
            order,
            b1[i],
            b1[j],
        ) by {
            assert(b1[i] == b[i] && b1[j] == b[j]);
        }
        lemma_same_ties_same_listing(a1, b1, order);
        assert(a =~= a1.push(x));
        assert(b =~= b1.push(x));
    }
}

/// A listing has one stable sort by a given order, and no other.
pub proof fn lemma_stable_sort_unique(
    before: Seq<EntryData>,
    a: Seq<EntryData>,
    b: Seq<EntryData>,
    order: Order,
)
    requires
        is_stable_sort(before, a, order),
        is_stable_sort(before, b, order),
    ensures
        a == b,
{
    assert forall|x: EntryData| #[trigger]
        tie_group(a, order.key, x) == tie_group(b, order.key, x) by {
        assert(tie_group(a, order.key, x) == tie_group(before, order.key, x));
        assert(tie_group(b, order.key, x) == tie_group(before, order.key, x));
    }
    lemma_same_ties_same_listing(a, b, order);
}

/// Every entry of a stable sort of a listing is an entry of the listing.
pub proof fn lemma_stable_sort_members(
    before: Seq<EntryData>,
    after: Seq<EntryData>,
    order: Order,
    i: int,
)
    requires
        is_stable_sort(before, after, order),
        0 <= i < after.len(),
    ensures
        before.contains(after[i]),
{
    let x = after[i];
    lemma_key_le_reflexive(order.key, x);
    lemma_tie_group_holds(after, order.key, x, i);
    assert(tie_group(after, order.key, x) == tie_group(before, order.key, x));
    lemma_tie_group_members(before, order.key, x);
}

/// Turning a listing round turns each run of ties round.
pub proof fn lemma_tie_group_reverse(s: Seq<EntryData>, key: SortKey, x: EntryData)
    ensures
        tie_group(s.reverse(), key, x) == tie_group(s, key, x).reverse(),
    decreases s.len(),
{
    if s.len() == 0 {
        assert(s.reverse() =~= s);
        assert(tie_group(s, key, x).reverse() =~= tie_group(s, key, x));
    } else {
        let rest = s.drop_last();
        let e = s.last();
        lemma_tie_group_reverse(rest, key, x);
        assert(s.reverse() =~= seq![e] + rest.reverse());
        lemma_tie_group_concat(seq![e], rest.reverse(), key, x);
        lemma_tie_group_single(e, key, x);
        if same_rank(key, x, e) {
            assert(tie_group(rest, key, x).push(e).reverse() =~= seq![e] + tie_group(
                rest,
                key,
                x,
            ).reverse());
        } else {
            assert(Seq::<EntryData>::empty() + tie_group(rest, key, x).reverse() =~= tie_group(
                rest,
                key,
                x,
            ).reverse());
        }
    }
}

/// No two entries of `s` rank alike by `key`.
pub open spec fn ranks_distinct(s: Seq<EntryData>, key: SortKey) -> bool {
    forall|i: int, j: int| 0 <= i < j < s.len() ==> !same_rank(key, s[i], s[j])
}

/// Where no two entries rank alike, a run of ties holds one entry at most.
pub proof fn lemma_tie_group_of_distinct(s: Seq<EntryData>, key: SortKey, x: EntryData)
    requires
        ranks_distinct(s, key),
    ensures
        tie_group(s, key, x).len() <= 1,
    decreases s.len(),
{
    if s.len() > 0 {
        let rest = s.drop_last();
        let e = s.last();
        assert forall|i: int, j: int| 0 <= i < j < rest.len() implies !same_rank(
            key,
            rest[i],
            rest[j],
        ) by {
            assert(rest[i] == s[i] && rest[j] == s[j]);
        }
        if same_rank(key, x, e) {
            assert forall|i: int| 0 <= i < rest.len() implies !same_rank(
                key,
                x,
                #[trigger] rest[i],
            ) by {
                assert(rest[i] == s[i] && e == s[s.len() - 1]);
                assert(!same_rank(key, s[i], s[s.len() - 1]));
                if same_rank(key, x, rest[i]) {
                    lemma_key_le_transitive(key, rest[i], x, e);
                    lemma_key_le_transitive(key, e, x, rest[i]);
                }
            }
            lemma_tie_group_empty(rest, key, x);
        } else {
            lemma_tie_group_of_distinct(rest, key, x);
        }
    }
}

/// Where no two entries rank alike, sorting and then turning the listing
/// round is sorting it in the opposite direction.
pub proof fn lemma_reverse_of_sort(before: Seq<EntryData>, after: Seq<EntryData>, order: Order)
    requires
        ranks_distinct(before, order.key),
        is_stable_sort(before, after.reverse(), order),
    ensures
        is_stable_sort(before, after, Order { key: order.key, descending: !order.descending }),
{
    let turned = after.reverse();
    let opposite = Order { key: order.key, descending: !order.descending };
    assert(turned.reverse() =~= after);
    assert forall|i: int, j: int| 0 <= i < j < after.len() implies in_order(
        opposite,
        after[i],
        after[j],
    ) by {
        let n = after.len();
        assert(after[i] == turned[n - 1 - i]);
        assert(after[j] == turned[n - 1 - j]);
        assert(in_order(order, turned[n - 1 - j], turned[n - 1 - i]));
    }
    assert forall|x: EntryData| #[trigger]
        tie_group(after, order.key, x) == tie_group(before, order.key, x) by {
        lemma_tie_group_reverse(turned, order.key, x);
        assert(tie_group(turned, order.key, x) == tie_group(before, order.key, x));
        lemma_tie_group_of_distinct(before, order.key, x);
        assert(tie_group(before, order.key, x).reverse() =~= tie_group(before, order.key, x));
    }
}

} // verus!
