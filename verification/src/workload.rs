//! Work whose profile is known beforehand: helpers that are inlined, recursion, and allocation.

use vstd::prelude::*;
use vstd::relations::{sorted_by, total_ordering};
use vstd::string::StringExecFns;
use vstd::utf8::encode_utf8;

use crate::sorting::{sort, Ranked};
use crate::text::{decimal, push_decimal};

verus! {

broadcast use vstd::string::group_string_axioms;

/// A number mixed once: multiplied, rotated by 31 bits, and moved on.
pub open spec fn mixed(value: u64) -> u64 {
    let product = value.wrapping_mul(0x9e37_79b9_7f4a_7c15u64);
    ((product << 31u64) | (product >> 33u64)).wrapping_add(0x517c_c1b7_2722_0a95u64)
}

/// Mixes a number.
#[must_use]
pub fn mix(value: u64) -> (result: u64)
    ensures
        result == mixed(value),
{
    let product: u64 = value.wrapping_mul(0x9e37_79b9_7f4a_7c15);
    ((product << 31u64) | (product >> 33u64)).wrapping_add(0x517c_c1b7_2722_0a95)
}

/// Mixes a number twice.
#[must_use]
pub fn mix_twice(value: u64) -> (result: u64)
    ensures
        result == mixed(mixed(value)),
{
    mix(mix(value))
}

/// A number after `count` rounds at the bottom of the recursion.
pub open spec fn bottom(seed: u64, count: nat) -> u64
    decreases count,
{
    if count == 0 {
        seed
    } else {
        mixed(mixed(bottom(seed, (count - 1) as nat) ^ ((count - 1) as u64)))
    }
}

/// What a recursion gives.
pub open spec fn recursed(depth: nat, seed: u64) -> u64
    decreases depth,
{
    if depth == 0 {
        bottom(seed, 512)
    } else {
        recursed((depth - 1) as nat, mixed(seed)).wrapping_add(depth as u64)
    }
}

/// Works in a recursion of a depth.
#[must_use]
pub fn recurse(depth: u32, seed: u64) -> (result: u64)
    ensures
        result == recursed(depth as nat, seed),
    decreases depth,
{
    if depth == 0 {
        let mut acc: u64 = seed;
        let mut index: u64 = 0;
        while index < 512
            invariant
                index <= 512,
                acc == bottom(seed, index as nat),
            decreases 512 - index,
        {
            acc = mix_twice(acc ^ index);
            index += 1;
        }
        acc
    } else {
        recurse(depth - 1, mix(seed)).wrapping_add(depth as u64)
    }
}

impl Ranked for u64 {
    open spec fn before(&self, other: &Self) -> bool {
        *self <= *other
    }

    fn in_order(&self, other: &Self) -> (ordered: bool) {
        *self <= *other
    }

    proof fn order_is_total(left: &Self, right: &Self) {
    }

    proof fn order_is_transitive(a: &Self, b: &Self, c: &Self) {
    }
}

/// The numbers of a round.
pub open spec fn round_values(round: u64) -> Seq<u64> {
    Seq::new(2048, |i: int| mixed((i as u64) ^ round))
}

/// Numbers in order.
pub open spec fn in_order(values: Seq<u64>) -> Seq<u64> {
    values.sort_by(|a: u64, b: u64| a <= b)
}

/// What a round gives: the length of a text with the number in the middle, and the smallest
/// number.
pub open spec fn round_gives(round: u64, acc: u64) -> u64 {
    let values = in_order(round_values(round));
    let text = "round-"@ + decimal(round as nat) + "-"@ + decimal(values[1024] as nat);
    acc.wrapping_add(encode_utf8(text).len() as u64).wrapping_add(values[0])
}

/// What the first `rounds` rounds give.
pub open spec fn churned(rounds: nat) -> u64
    decreases rounds,
{
    if rounds == 0 {
        0
    } else {
        round_gives((rounds - 1) as u64, churned((rounds - 1) as nat))
    }
}

fn ordered_round(round: u64) -> (values: Vec<u64>)
    ensures
        values@ == in_order(round_values(round)),
        values@.len() == 2048,
{
    let mut values: Vec<u64> = Vec::with_capacity(2048);
    let mut i: u64 = 0;
    while i < 2048
        invariant
            i <= 2048,
            values@.len() == i,
            forall|j: int| 0 <= j < i ==> values@[j] == mixed((j as u64) ^ round),
        decreases 2048 - i,
    {
        values.push(mix(i ^ round));
        i += 1;
    }
    assert(values@ =~= round_values(round));
    let ordered = sort(values);
    proof {
        let le = |a: u64, b: u64| a <= b;
        let listed = round_values(round);
        assert(total_ordering(le));
        listed.lemma_sort_by_ensures(le);
        assert(sorted_by(ordered@, le)) by {
            assert forall|a: int, b: int| 0 <= a < b < ordered@.len() implies #[trigger] le(
                ordered@[a],
                ordered@[b],
            ) by {
                assert(ordered@[a].before(&ordered@[b]));
            }
        }
        vstd::seq_lib::lemma_sorted_unique(ordered@, in_order(listed), le);
        ordered@.to_multiset_ensures();
        listed.to_multiset_ensures();
    }
    ordered
}

/// Works with rounds of numbers that are ordered.
#[must_use]
pub fn churn_allocations(rounds: usize) -> (result: u64)
    ensures
        result == churned(rounds as nat),
{
    let mut acc: u64 = 0;
    let mut round: usize = 0;
    while round < rounds
        invariant
            round <= rounds,
            acc == churned(round as nat),
        decreases rounds - round,
    {
        let values = ordered_round(round as u64);
        let mut text = "round-".to_string();
        push_decimal(&mut text, round as u128);
        text.append("-");
        push_decimal(&mut text, values[1024] as u128);
        let len: usize = text.as_str().as_bytes().len();
        acc = acc.wrapping_add(len as u64).wrapping_add(values[0]);
        round += 1;
    }
    acc
}

/// What the first `rounds` rounds of all work give.
pub open spec fn total_of(rounds: nat) -> u64
    decreases rounds,
{
    if rounds == 0 {
        0
    } else {
        let last = (rounds - 1) as nat;
        total_of(last).wrapping_add(recursed(24, last as u64)).wrapping_add(churned(8))
    }
}

/// Does rounds of all work.
#[must_use]
pub fn total_work(rounds: u64) -> (total: u64)
    ensures
        total == total_of(rounds as nat),
{
    let mut total: u64 = 0;
    let mut round: u64 = 0;
    while round < rounds
        invariant
            round <= rounds,
            total == total_of(round as nat),
        decreases rounds - round,
    {
        total = total.wrapping_add(recurse(24, round));
        total = total.wrapping_add(churn_allocations(8));
        round += 1;
    }
    total
}

} // verus!
