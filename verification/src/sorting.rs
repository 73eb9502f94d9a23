//! Lexicographic order and a stable merge sort.

use vstd::prelude::*;
use vstd::multiset::Multiset;

verus! {

// ---------------------------------------------------------------------------
// Lexicographic order
// ---------------------------------------------------------------------------

/// Whether the items from `at` on come no later than those of the other sequence, compared item
/// by item; a sequence that ends first comes first.
pub open spec fn lex_from(left: Seq<int>, right: Seq<int>, at: int) -> bool
    decreases left.len() - at,
{
    if at >= left.len() {
        true
    } else if at >= right.len() {
        false
    } else if left[at] != right[at] {
        left[at] < right[at]
    } else {
        lex_from(left, right, at + 1)
    }
}

/// Whether a sequence comes no later than another in lexicographic order.
pub open spec fn lex_le(left: Seq<int>, right: Seq<int>) -> bool {
    lex_from(left, right, 0)
}

proof fn lex_from_total(left: Seq<int>, right: Seq<int>, at: int)
    requires
        0 <= at,
    ensures
        lex_from(left, right, at) || lex_from(right, left, at),
    decreases left.len() - at,
{
    if at < left.len() && at < right.len() && left[at] == right[at] {
        lex_from_total(left, right, at + 1);
    }
}

proof fn lex_from_transitive(a: Seq<int>, b: Seq<int>, c: Seq<int>, at: int)
    requires
        0 <= at,
        lex_from(a, b, at),
        lex_from(b, c, at),
    ensures
        lex_from(a, c, at),
    decreases a.len() - at,
{
    if at < a.len() && at < b.len() && at < c.len() && a[at] == b[at] && b[at] == c[at] {
        lex_from_transitive(a, b, c, at + 1);
    }
}

proof fn lex_from_antisymmetric(left: Seq<int>, right: Seq<int>, at: int)
    requires
        0 <= at,
        lex_from(left, right, at),
        lex_from(right, left, at),
        at <= left.len(),
        at <= right.len(),
        left.subrange(0, at) == right.subrange(0, at),
    ensures
        left == right,
    decreases left.len() - at,
{
    if at < left.len() && at < right.len() {
        assert(left.subrange(0, at + 1) =~= left.subrange(0, at).push(left[at]));
        assert(right.subrange(0, at + 1) =~= right.subrange(0, at).push(right[at]));
        lex_from_antisymmetric(left, right, at + 1);
    } else {
        assert(left =~= left.subrange(0, at));
        assert(right =~= right.subrange(0, at));
    }
}

/// Lexicographic order puts any two sequences in some order.
pub proof fn lex_total(left: Seq<int>, right: Seq<int>)
    ensures
        lex_le(left, right) || lex_le(right, left),
{
    lex_from_total(left, right, 0);
}

/// Lexicographic order is transitive.
pub proof fn lex_transitive(a: Seq<int>, b: Seq<int>, c: Seq<int>)
    requires
        lex_le(a, b),
        lex_le(b, c),
    ensures
        lex_le(a, c),
{
    lex_from_transitive(a, b, c, 0);
}

/// Only equal sequences come no later than each other.
pub proof fn lex_antisymmetric(left: Seq<int>, right: Seq<int>)
    requires
        lex_le(left, right),
        lex_le(right, left),
    ensures
        left == right,
{
    assert(left.subrange(0, 0) =~= right.subrange(0, 0));
    lex_from_antisymmetric(left, right, 0);
}

/// The bytes as mathematical integers.
pub open spec fn byte_ranks(bytes: Seq<u8>) -> Seq<int> {
    Seq::new(bytes.len(), |i: int| bytes[i] as int)
}

/// Whether bytes come no later than other bytes.
pub open spec fn bytes_le(left: Seq<u8>, right: Seq<u8>) -> bool {
    lex_le(byte_ranks(left), byte_ranks(right))
}

/// Byte order puts any two byte strings in some order, and only equal ones in both.
pub proof fn bytes_order(left: Seq<u8>, right: Seq<u8>)
    ensures
        bytes_le(left, right) || bytes_le(right, left),
        bytes_le(left, right) && bytes_le(right, left) ==> left == right,
        left == right ==> bytes_le(left, right),
{
    lex_total(byte_ranks(left), byte_ranks(right));
    if bytes_le(left, right) && bytes_le(right, left) {
        lex_antisymmetric(byte_ranks(left), byte_ranks(right));
        assert forall|i: int| 0 <= i < left.len() implies left[i] == right[i] by {
            assert(byte_ranks(left)[i] == byte_ranks(right)[i]);
        }
        assert(left.len() == byte_ranks(left).len());
        assert(right.len() == byte_ranks(right).len());
        assert(left =~= right);
    }
}

/// Byte order is transitive.
pub proof fn bytes_transitive(a: Seq<u8>, b: Seq<u8>, c: Seq<u8>)
    requires
        bytes_le(a, b),
        bytes_le(b, c),
    ensures
        bytes_le(a, c),
{
    lex_transitive(byte_ranks(a), byte_ranks(b), byte_ranks(c));
}

/// Tells whether bytes come no later than other bytes.
pub fn bytes_in_order(left: &[u8], right: &[u8]) -> (ordered: bool)
    ensures
        ordered == bytes_le(left@, right@),
{
    let mut at: usize = 0;
    let ghost l = byte_ranks(left@);
    let ghost r = byte_ranks(right@);
    while at < left.len() && at < right.len()
        invariant
            at <= left.len(),
            at <= right.len(),
            l == byte_ranks(left@),
            r == byte_ranks(right@),
            lex_le(l, r) == lex_from(l, r, at as int),
        decreases left.len() - at,
    {
        if left[at] != right[at] {
            return left[at] < right[at];
        }
        at += 1;
    }
    at >= left.len()
}

/// Tells whether two byte strings are the same.
pub fn same_bytes(left: &[u8], right: &[u8]) -> (same: bool)
    ensures
        same == (left@ == right@),
{
    if left.len() != right.len() {
        return false;
    }
    let mut at: usize = 0;
    while at < left.len()
        invariant
            at <= left.len(),
            left@.len() == right@.len(),
            forall|i: int| 0 <= i < at ==> left@[i] == right@[i],
        decreases left.len() - at,
    {
        if left[at] != right[at] {
            return false;
        }
        at += 1;
    }
    assert(left@ =~= right@);
    true
}

// ---------------------------------------------------------------------------
// Sorting
// ---------------------------------------------------------------------------

/// Items with a total order.
pub trait Ranked: Sized {
    /// Whether an item comes no later than another.
    spec fn before(&self, other: &Self) -> bool;

    /// Tells whether an item comes no later than another.
    fn in_order(&self, other: &Self) -> (ordered: bool)
        ensures
            ordered == self.before(other),
    ;

    proof fn order_is_total(left: &Self, right: &Self)
        ensures
            left.before(right) || right.before(left),
    ;

    proof fn order_is_transitive(a: &Self, b: &Self, c: &Self)
        requires
            a.before(b),
            b.before(c),
        ensures
            a.before(c),
    ;
}

/// Whether items stand in order.
pub open spec fn sorted<T: Ranked>(items: Seq<T>) -> bool {
    forall|i: int, j: int|
        #![trigger items[i], items[j]]
        0 <= i <= j < items.len() ==> items[i].before(&items[j])
}

/// Whether every item of one sequence comes no later than every item of another.
spec fn all_before<T: Ranked>(left: Seq<T>, right: Seq<T>) -> bool {
    forall|i: int, j: int|
        #![trigger left[i], right[j]]
        0 <= i < left.len() && 0 <= j < right.len() ==> left[i].before(&right[j])
}

/// Whether items stand in reverse order.
spec fn sorted_down<T: Ranked>(items: Seq<T>) -> bool {
    forall|i: int, j: int|
        #![trigger items[i], items[j]]
        0 <= i <= j < items.len() ==> items[j].before(&items[i])
}

proof fn pop_counts<T>(items: Seq<T>)
    requires
        items.len() > 0,
    ensures
        items.to_multiset() =~= items.subrange(0, items.len() - 1).to_multiset().insert(
            items[items.len() - 1],
        ),
{
    broadcast use vstd::seq_lib::group_to_multiset_ensures;

    assert(items =~= items.subrange(0, items.len() - 1).push(items[items.len() - 1]));
}

proof fn push_counts<T>(items: Seq<T>, item: T)
    ensures
        items.push(item).to_multiset() =~= items.to_multiset().insert(item),
{
    broadcast use vstd::seq_lib::group_to_multiset_ensures;

}

/// Merges two sorted sequences. Of two items that come no later than each other, the one of the
/// left sequence stays in front.
fn merge<T: Ranked>(left: Vec<T>, right: Vec<T>) -> (merged: Vec<T>)
    requires
        sorted(left@),
        sorted(right@),
    ensures
        sorted(merged@),
        merged@.to_multiset() == left@.to_multiset().add(right@.to_multiset()),
{
    broadcast use vstd::seq_lib::group_to_multiset_ensures;

    let ghost total = left@.to_multiset().add(right@.to_multiset());
    let mut left = left;
    let mut right = right;
    let mut taken: Vec<T> = Vec::with_capacity(left.len());
    assert(taken@.to_multiset() =~= Multiset::empty());
    while left.len() > 0 || right.len() > 0
        invariant
            sorted(left@),
            sorted(right@),
            sorted_down(taken@),
            all_before(left@, taken@),
            all_before(right@, taken@),
            total =~= left@.to_multiset().add(right@.to_multiset()).add(taken@.to_multiset()),
        decreases left@.len() + right@.len(),
    {
        let take_right = if right.len() == 0 {
            false
        } else if left.len() == 0 {
            true
        } else {
            left[left.len() - 1].in_order(&right[right.len() - 1])
        };
        let ghost old_taken = taken@;
        let ghost old_left = left@;
        let ghost old_right = right@;
        proof {
            if left.len() > 0 && right.len() > 0 {
                T::order_is_total(&left@[left@.len() - 1], &right@[right@.len() - 1]);
            }
        }
        if take_right {
            proof {
                pop_counts(right@);
                if left.len() > 0 {
                    assert forall|i: int| 0 <= i < left@.len() implies (#[trigger] left@[i]).before(
                        &right@[right@.len() - 1],
                    ) by {
                        T::order_is_transitive(
                            &left@[i],
                            &left@[left@.len() - 1],
                            &right@[right@.len() - 1],
                        );
                    }
                }
            }
            if let Some(item) = right.pop() {
                taken.push(item);
            }
        } else {
            proof {
                pop_counts(left@);
                if right.len() > 0 {
                    assert forall|i: int| 0 <= i < right@.len() implies (#[trigger] right@[i]).before(
                        &left@[left@.len() - 1],
                    ) by {
                        T::order_is_transitive(
                            &right@[i],
                            &right@[right@.len() - 1],
                            &left@[left@.len() - 1],
                        );
                    }
                }
            }
            if let Some(item) = left.pop() {
                taken.push(item);
            }
        }
        proof {
            let item = taken@[taken@.len() - 1];
            assert(taken@ == old_taken.push(item));
            push_counts(old_taken, item);
            T::order_is_total(&item, &item);
        }
    }
    assert(left@.to_multiset() =~= Multiset::empty());
    assert(right@.to_multiset() =~= Multiset::empty());
    let mut merged: Vec<T> = Vec::with_capacity(taken.len());
    while taken.len() > 0
        invariant
            sorted_down(taken@),
            sorted(merged@),
            all_before(merged@, taken@),
            total =~= taken@.to_multiset().add(merged@.to_multiset()),
        decreases taken@.len(),
    {
        let ghost old_taken = taken@;
        let ghost old_merged = merged@;
        proof {
            pop_counts(taken@);
            let last = taken@[taken@.len() - 1];
            T::order_is_total(&last, &last);
        }
        if let Some(item) = taken.pop() {
            merged.push(item);
        }
        assert(merged@ == old_merged.push(old_taken[old_taken.len() - 1]));
        proof {
            push_counts(old_merged, old_taken[old_taken.len() - 1]);
        }
    }
    assert(taken@.to_multiset() =~= Multiset::empty());
    merged
}

/// Sorts items.
pub fn sort<T: Ranked>(items: Vec<T>) -> (ordered: Vec<T>)
    ensures
        sorted(ordered@),
        ordered@.to_multiset() == items@.to_multiset(),
    decreases items@.len(),
{
    if items.len() <= 1 {
        proof {
            if items@.len() == 1 {
                T::order_is_total(&items@[0], &items@[0]);
            }
        }
        return items;
    }
    let mut left = items;
    let ghost all = left@;
    let middle: usize = left.len() / 2;
    let right = left.split_off(middle);
    proof {
        broadcast use vstd::seq_lib::group_to_multiset_ensures;

        assert(all =~= left@ + right@);
        vstd::seq_lib::lemma_multiset_commutative(left@, right@);
    }
    merge(sort(left), sort(right))
}

/// A sorted sequence holds exactly the items of the original one.
pub proof fn same_items<T>(left: Seq<T>, right: Seq<T>)
    requires
        left.to_multiset() == right.to_multiset(),
    ensures
        left.len() == right.len(),
        forall|item: T|
            #![trigger left.contains(item)]
            #![trigger right.contains(item)]
            left.contains(item) <==> right.contains(item),
{
    broadcast use vstd::seq_lib::group_to_multiset_ensures;

    assert(left.to_multiset().len() == left.len());
    assert(right.to_multiset().len() == right.len());
    assert forall|item: T|
        #![trigger left.contains(item)]
        #![trigger right.contains(item)]
        left.contains(item) <==> right.contains(item) by {
        assert(left.contains(item) <==> left.to_multiset().count(item) > 0);
        assert(right.contains(item) <==> right.to_multiset().count(item) > 0);
    }
}

/// Items in another order have the same views, as often.
pub proof fn views_permute<T: View>(left: Seq<T>, right: Seq<T>)
    requires
        left.to_multiset() == right.to_multiset(),
    ensures
        crate::text::views(left).to_multiset() == crate::text::views(right).to_multiset(),
{
    let f = |seen: Multiset<T::V>, item: T| seen.insert(item@);
    assert forall|a: T, b: T, seen: Multiset<T::V>| #[trigger] f(f(seen, a), b) == f(
        f(seen, b),
        a,
    ) by {
        assert(seen.insert(a@).insert(b@) =~= seen.insert(b@).insert(a@));
    }
    vstd::seq_lib::lemma_fold_left_permutation(left, right, f, Multiset::empty());
    views_as_fold(left);
    views_as_fold(right);
}

proof fn views_as_fold<T: View>(items: Seq<T>)
    ensures
        crate::text::views(items).to_multiset() == items.fold_left(
            Multiset::empty(),
            |seen: Multiset<T::V>, item: T| seen.insert(item@),
        ),
    decreases items.len(),
{
    broadcast use vstd::seq_lib::group_to_multiset_ensures;

    let all = crate::text::views(items);
    if items.len() > 0 {
        views_as_fold(items.drop_last());
        assert(all =~= crate::text::views(items.drop_last()).push(items.last()@));
    } else {
        assert(all =~= Seq::empty());
        assert(all.to_multiset() =~= Multiset::empty());
    }
}

} // verus!
