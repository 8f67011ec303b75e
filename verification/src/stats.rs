//! Summary statistics over sequences of reward points.

use vstd::prelude::*;
use vstd::arithmetic::div_mod::{lemma_div_is_ordered, lemma_div_multiples_vanish};
use vstd::seq_lib::group_to_multiset_ensures;

verus! {

broadcast use vstd::multiset::group_multiset_axioms;

/// Fixed-point scale: all fractional quantities carry nine decimal places.
pub const SCALE: u64 = 1_000_000_000;

/// True when the sequence is ordered from smallest to largest.
pub open spec fn sorted_asc(s: Seq<u32>) -> bool {
    forall|i: int, j: int| 0 <= i <= j < s.len() ==> s[i] <= s[j]
}

/// Sum of the sequence, as a mathematical integer.
pub open spec fn sum_of(s: Seq<u32>) -> int
    decreases s.len(),
{
    if s.len() == 0 {
        0
    } else {
        sum_of(s.drop_last()) + s.last()
    }
}

/// Every element is at most `u32::MAX`, so the sum is at most `len * u32::MAX`.
pub proof fn lemma_sum_of_bounds(s: Seq<u32>)
    ensures
        0 <= sum_of(s) <= s.len() * 0xffff_ffff,
    decreases s.len(),
{
    if s.len() > 0 {
        lemma_sum_of_bounds(s.drop_last());
        assert((s.len() - 1) * 0xffff_ffff + 0xffff_ffff == s.len() * 0xffff_ffff)
            by (nonlinear_arith);
    }
}

/// Smallest element of the list; 0 when the list is empty.
pub fn min(list: &Vec<u32>) -> (r: u32)
    ensures
        list@.len() == 0 ==> r == 0,
        list@.len() > 0 ==> list@.contains(r),
        forall|i: int| 0 <= i < list@.len() ==> r <= list@[i],
{
    if list.len() == 0 {
        return 0;
    }
    let mut r = list[0];
    let mut k: usize = 1;
    while k < list.len()
        invariant
            1 <= k <= list@.len(),
            exists|w: int| 0 <= w < k && list@[w] == r,
            forall|i: int| 0 <= i < k ==> r <= list@[i],
        decreases list@.len() - k,
    {
        if list[k] < r {
            r = list[k];
        }
        k += 1;
    }
    r
}

/// Largest element of the list; 0 when the list is empty.
pub fn max(list: &Vec<u32>) -> (r: u32)
    ensures
        list@.len() == 0 ==> r == 0,
        list@.len() > 0 ==> list@.contains(r),
        forall|i: int| 0 <= i < list@.len() ==> list@[i] <= r,
{
    if list.len() == 0 {
        return 0;
    }
    let mut r = list[0];
    let mut k: usize = 1;
    while k < list.len()
        invariant
            1 <= k <= list@.len(),
            exists|w: int| 0 <= w < k && list@[w] == r,
            forall|i: int| 0 <= i < k ==> list@[i] <= r,
        decreases list@.len() - k,
    {
        if list[k] > r {
            r = list[k];
        }
        k += 1;
    }
    r
}

/// Sorts the list in place: afterwards it is ascending and holds the same
/// elements (as a multiset) as before.
pub fn sort(list: &mut Vec<u32>)
    ensures
        sorted_asc(final(list)@),
        final(list)@.to_multiset() == old(list)@.to_multiset(),
        final(list)@.len() == old(list)@.len(),
{
    broadcast use group_to_multiset_ensures;

    let mut src: Vec<u32> = Vec::new();
    core::mem::swap(&mut src, list);
    let ghost all = src@.to_multiset();
    assert(list@.to_multiset().add(src@.to_multiset()) =~= all);
    while src.len() > 0
        invariant
            sorted_asc(list@),
            list@.to_multiset().add(src@.to_multiset()) =~= all,
            list@.len() + src@.len() == all.len(),
            forall|i: int, j: int|
                0 <= i < list@.len() && 0 <= j < src@.len() ==> list@[i] <= src@[j],
        decreases src@.len(),
    {
        // find the index of a smallest remaining element
        let mut idx: usize = 0;
        let mut k: usize = 1;
        while k < src.len()
            invariant
                0 <= idx < k <= src@.len(),
                forall|i: int| 0 <= i < k ==> src@[idx as int] <= src@[i],
            decreases src@.len() - k,
        {
            if src[k] < src[idx] {
                idx = k;
            }
            k += 1;
        }
        let ghost old_list = list@;
        let ghost old_src = src@;
        let v = src.remove(idx);
        list.push(v);
        proof {
            assert(old_src.contains(v));
            vstd::seq_lib::to_multiset_contains(old_src, v);
            vstd::seq_lib::to_multiset_build(old_list, v);
            vstd::seq_lib::to_multiset_remove(old_src, idx as int);
            assert(old_src.to_multiset().count(v) > 0);
            assert(list@ == old_list.push(v));
            assert(list@.to_multiset().add(src@.to_multiset()) =~= all);
        }
    }
    proof {
        assert(list@.to_multiset() =~= all);
        assert(all.len() == old(list)@.len());
    }
}

/// Middle element (upper middle for an even length) after sorting the list
/// in place; 0 when the list is empty.
pub fn median(list: &mut Vec<u32>) -> (r: u32)
    ensures
        sorted_asc(final(list)@),
        final(list)@.to_multiset() == old(list)@.to_multiset(),
        final(list)@.len() == old(list)@.len(),
        old(list)@.len() == 0 ==> r == 0,
        old(list)@.len() > 0 ==> r == final(list)@[old(list)@.len() as int / 2],
{
    sort(list);
    if list.len() == 0 {
        return 0;
    }
    let mid = list.len() / 2;
    list[mid]
}

/// Arithmetic mean in fixed point: `sum * SCALE / len`, rounded down;
/// 0 when the list is empty.
pub fn mean_scaled(list: &Vec<u32>) -> (r: u64)
    ensures
        list@.len() == 0 ==> r == 0,
        list@.len() > 0 ==> r == sum_of(list@) * SCALE / list@.len() as int,
{
    if list.len() == 0 {
        return 0;
    }
    let mut sum: u128 = 0;
    let mut k: usize = 0;
    while k < list.len()
        invariant
            0 <= k <= list@.len(),
            sum == sum_of(list@.take(k as int)),
            sum <= k * 0xffff_ffff,
        decreases list@.len() - k,
    {
        proof {
            assert(list@.take(k as int + 1).drop_last() =~= list@.take(k as int));
            assert((k + 1) * 0xffff_ffff == k * 0xffff_ffff + 0xffff_ffff) by (nonlinear_arith);
            assert((k + 1) * 0xffff_ffff < 0x1_0000_0000_0000_0000_0000_0000) by (nonlinear_arith)
                requires k < 0x1_0000_0000_0000_0000;
        }
        sum = sum + list[k] as u128;
        k += 1;
    }
    let n = list.len();
    proof {
        assert(list@.take(list@.len() as int) =~= list@);
        assert(sum * (SCALE as int) <= (n as int) * (0xffff_ffff * (SCALE as int)))
            by (nonlinear_arith)
            requires
                0 <= sum <= (n as int) * 0xffff_ffff,
        ;
        assert((n as int) * (0xffff_ffff * (SCALE as int))
            < 0x1_0000_0000_0000_0000_0000_0000_0000_0000) by (nonlinear_arith)
            requires
                n < 0x1_0000_0000_0000_0000,
        ;
    }
    let scaled = sum * (SCALE as u128);
    let avg = scaled / (n as u128);
    proof {
        lemma_div_is_ordered(
            scaled as int,
            (n as int) * (0xffff_ffff * (SCALE as int)),
            n as int,
        );
        lemma_div_multiples_vanish(0xffff_ffff * (SCALE as int), n as int);
    }
    avg as u64
}

} // verus!
