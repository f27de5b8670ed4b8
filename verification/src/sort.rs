//! A stable merge sort on the entries of a listing.
//!
//! Entries are moved, never copied. The two halves are merged from their
//! largest entries downwards, and the result is turned round at the end.

use crate::entry::EntryData;
use crate::order::{
    in_order, is_ordered, is_stable_sort, lemma_in_order_total, lemma_in_order_transitive,
    lemma_key_le_transitive, lemma_tie_group_concat, lemma_tie_group_empty, lemma_tie_group_push,
    lemma_tie_group_single, same_rank, stands_before, tie_group, Order,
};
use vstd::prelude::*;

verus! {

/// Moves the items of `v` into a new vector, the last one first.
pub fn reversed<T>(v: Vec<T>) -> (r: Vec<T>)
    ensures
        r@ == v@.reverse(),
{
    let ghost v0 = v@;
    let mut v = v;
    let mut r: Vec<T> = Vec::new();
    while v.len() > 0
        invariant
            r@.len() + v@.len() == v0.len(),
            v@ == v0.subrange(0, v@.len() as int),
            forall|k: int| 0 <= k < r@.len() ==> r@[k] == v0[v0.len() - 1 - k],
        decreases v.len(),
    {
        let e = v.pop().unwrap();
        r.push(e);
    }
    assert(r@ =~= v0.reverse());
    r
}

/// Merges two listings that are each in order into one. Where entries of
/// the two rank alike, those of `left` come first.
fn merge(left: Vec<EntryData>, right: Vec<EntryData>, order: Order) -> (out: Vec<EntryData>)
    requires
        is_ordered(left@, order),
        is_ordered(right@, order),
    ensures
        is_ordered(out@, order),
        forall|x: EntryData| #[trigger]
            tie_group(out@, order.key, x) == tie_group(left@, order.key, x) + tie_group(
                right@,
                order.key,
                x,
            ),
{
    let ghost l0 = left@;
    let ghost r0 = right@;
    let ghost key = order.key;
    let mut left = left;
    let mut right = right;
    let mut rev: Vec<EntryData> = Vec::new();
    let ghost mut m: Seq<EntryData> = Seq::empty();
    while left.len() > 0 || right.len() > 0
        invariant
            key == order.key,
            is_ordered(left@, order),
            is_ordered(right@, order),
            m == rev@.reverse(),
            is_ordered(m, order),
            forall|i: int, k: int|
                0 <= i < left@.len() && 0 <= k < m.len() ==> in_order(order, left@[i], m[k]),
            forall|i: int, k: int|
                0 <= i < right@.len() && 0 <= k < m.len() ==> in_order(order, right@[i], m[k]),
            forall|x: EntryData|
                tie_group(left@, key, x) + tie_group(right@, key, x) + tie_group(m, key, x)
                    == #[trigger] tie_group(l0, key, x) + tie_group(r0, key, x),
        decreases left@.len() + right@.len(),
    {
        let ghost left_was = left@;
        let ghost right_was = right@;
        let ghost m_was = m;
        let take_right = if left.len() == 0 {
            true
        } else if right.len() == 0 {
            false
        } else {
            stands_before(order, &left[left.len() - 1], &right[right.len() - 1])
        };
        if take_right {
            let e = right.pop().unwrap();
            proof {
                m = seq![e] + m_was;
                assert(right_was.drop_last() =~= right@);
                assert(right_was.last() == e);
                assert forall|i: int| 0 <= i < left@.len() implies in_order(
                    order,
                    #[trigger] left@[i],
                    e,
                ) by {
                    let top = left@[left@.len() - 1];
                    if i < left@.len() - 1 {
                        lemma_in_order_transitive(order, left@[i], top, e);
                    }
                }
                assert forall|i: int| 0 <= i < right@.len() implies in_order(
                    order,
                    #[trigger] right@[i],
                    e,
                ) by {
                    assert(right@[i] == right_was[i]);
                    assert(e == right_was[right_was.len() - 1]);
                }
                assert forall|x: EntryData|
                    tie_group(left@, key, x) + tie_group(right@, key, x) + tie_group(m, key, x)
                        == #[trigger] tie_group(l0, key, x) + tie_group(r0, key, x) by {
                    lemma_tie_group_concat(seq![e], m_was, key, x);
                    lemma_tie_group_single(e, key, x);
                    lemma_tie_group_push(right@, e, key, x);
                    assert(right_was =~= right@.push(e));
                    assert(tie_group(left@, key, x) + tie_group(right@, key, x) + tie_group(
                        m,
                        key,
                        x,
                    ) =~= tie_group(left_was, key, x) + tie_group(right_was, key, x) + tie_group(
                        m_was,
                        key,
                        x,
                    ));
                }
            }
            rev.push(e);
        } else {
            let e = left.pop().unwrap();
            proof {
                m = seq![e] + m_was;
                assert(left_was.drop_last() =~= left@);
                assert(left_was.last() == e);
                assert forall|i: int| 0 <= i < left@.len() implies in_order(
                    order,
                    #[trigger] left@[i],
                    e,
                ) by {
                    assert(left@[i] == left_was[i]);
                    assert(e == left_was[left_was.len() - 1]);
                }
                assert forall|i: int| 0 <= i < right@.len() implies in_order(
                    order,
                    #[trigger] right@[i],
                    e,
                ) && !same_rank(key, e, right@[i]) by {
                    let top = right@[right@.len() - 1];
                    lemma_in_order_total(order, e, top);
                    if i < right@.len() - 1 {
                        lemma_in_order_transitive(order, right@[i], top, e);
                    }
                    if same_rank(key, e, right@[i]) {
                        if i < right@.len() - 1 {
                            lemma_in_order_transitive(order, e, right@[i], top);
                        }
                    }
                }
                assert forall|x: EntryData|
                    tie_group(left@, key, x) + tie_group(right@, key, x) + tie_group(m, key, x)
                        == #[trigger] tie_group(l0, key, x) + tie_group(r0, key, x) by {
                    lemma_tie_group_concat(seq![e], m_was, key, x);
                    lemma_tie_group_single(e, key, x);
                    lemma_tie_group_push(left@, e, key, x);
                    assert(left_was =~= left@.push(e));
                    if same_rank(key, x, e) {
                        assert forall|i: int| 0 <= i < right@.len() implies !same_rank(
                            key,
                            x,
                            #[trigger] right@[i],
                        ) by {
                            if same_rank(key, x, right@[i]) {
                                lemma_key_le_transitive(key, e, x, right@[i]);
                                lemma_key_le_transitive(key, right@[i], x, e);
                            }
                        }
                        lemma_tie_group_empty(right@, key, x);
                    }
                    assert(tie_group(left@, key, x) + tie_group(right@, key, x) + tie_group(
                        m,
                        key,
                        x,
                    ) =~= tie_group(left_was, key, x) + tie_group(right_was, key, x) + tie_group(
                        m_was,
                        key,
                        x,
                    ));
                }
            }
            rev.push(e);
        }
        proof {
            assert(rev@.reverse() =~= m);
            assert forall|i: int, j: int| 0 <= i < j < m.len() implies in_order(
                order,
                m[i],
                m[j],
            ) by {
                if i > 0 {
                    assert(m[i] == m_was[i - 1]);
                    assert(m[j] == m_was[j - 1]);
                } else {
                    assert(m[j] == m_was[j - 1]);
                }
            }
            assert forall|i: int, k: int| 0 <= i < left@.len() && 0 <= k < m.len() implies in_order(
                order,
                left@[i],
                m[k],
            ) by {
                assert(left@[i] == left_was[i]);
                if k > 0 {
                    assert(m[k] == m_was[k - 1]);
                }
            }
            assert forall|i: int, k: int|
                0 <= i < right@.len() && 0 <= k < m.len() implies in_order(
                order,
                right@[i],
                m[k],
            ) by {
                assert(right@[i] == right_was[i]);
                if k > 0 {
                    assert(m[k] == m_was[k - 1]);
                }
            }
        }
    }
    let out = reversed(rev);
    proof {
        assert(out@ =~= m);
        assert forall|x: EntryData| #[trigger]
            tie_group(out@, order.key, x) == tie_group(l0, order.key, x) + tie_group(
                r0,
                order.key,
                x,
            ) by {
            assert(tie_group(l0, key, x) + tie_group(r0, key, x) == tie_group(left@, key, x)
                + tie_group(right@, key, x) + tie_group(m, key, x));
            assert(tie_group(left@, key, x) + tie_group(right@, key, x) + tie_group(m, key, x)
                =~= tie_group(m, key, x));
        }
    }
    out
}

/// Sorts the entries of `v` stably by `order`.
fn merge_sort(v: Vec<EntryData>, order: Order) -> (out: Vec<EntryData>)
    ensures
        is_stable_sort(v@, out@, order),
    decreases v@.len(),
{
    if v.len() <= 1 {
        return v;
    }
    let ghost v0 = v@;
    let mut left = v;
    let mid = left.len() / 2;
    let right = left.split_off(mid);
    let ghost l0 = left@;
    let ghost r0 = right@;
    let left = merge_sort(left, order);
    let right = merge_sort(right, order);
    let ghost l1 = left@;
    let ghost r1 = right@;
    let out = merge(left, right, order);
    proof {
        assert(v0 =~= l0 + r0);
        assert forall|x: EntryData| #[trigger]
            tie_group(out@, order.key, x) == tie_group(v0, order.key, x) by {
            lemma_tie_group_concat(l0, r0, order.key, x);
            assert(tie_group(l1, order.key, x) == tie_group(l0, order.key, x));
            assert(tie_group(r1, order.key, x) == tie_group(r0, order.key, x));
        }
    }
    out
}

/// Sorts `entries` stably by `order`: afterwards they are in order, and
/// entries that rank alike stand as they stood before.
pub fn sort_entries(entries: &mut Vec<EntryData>, order: Order)
    ensures
        is_stable_sort(old(entries)@, final(entries)@, order),
{
    let mut taken: Vec<EntryData> = Vec::new();
    core::mem::swap(entries, &mut taken);
    *entries = merge_sort(taken, order);
}

} // verus!
