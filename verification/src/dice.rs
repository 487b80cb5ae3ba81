//! Random draws. Nothing is known of a draw beyond its range: callers are verified for
//! every value a draw may return.
use vstd::prelude::*;
use rand::Rng;
use rand::seq::SliceRandom;

verus! {

/// Calls `rand::Rng::gen_range(0..bound)` on the thread generator; the value lies in
/// `0..bound` (the call panics on an empty range, which `requires` rules out).
#[verifier::external_body]
pub(crate) fn random_below(bound: i64) -> (r: i64)
    requires
        bound > 0,
    ensures
        0 <= r < bound,
{
    rand::thread_rng().gen_range(0..bound)
}

/// Calls `rand::Rng::gen_range(0..=max)` on the thread generator; the value lies in
/// `0..=max` (`requires` rules out the empty range, on which the call panics).
#[verifier::external_body]
pub(crate) fn random_upto(max: i64) -> (r: i64)
    requires
        max >= 0,
    ensures
        0 <= r <= max,
{
    rand::thread_rng().gen_range(0..=max)
}

/// Calls `rand::Rng::gen_range(lo..=hi)` on the thread generator; the value lies in
/// `lo..=hi` (`requires` rules out the empty range, on which the call panics).
#[verifier::external_body]
pub(crate) fn random_between(lo: i64, hi: i64) -> (r: i64)
    requires
        lo <= hi,
    ensures
        lo <= r <= hi,
{
    rand::thread_rng().gen_range(lo..=hi)
}

/// Calls `rand::random::<u32>()`; any `u32` may come back.
#[verifier::external_body]
pub(crate) fn random_u32() -> (r: u32) {
    rand::random::<u32>()
}

/// Calls `rand::seq::SliceRandom::choose_multiple` on the thread generator and collects
/// the result: `min(amount, len)` items taken from distinct positions of `items`.
#[verifier::external_body]
pub(crate) fn choose_multiple(items: &Vec<i32>, amount: usize) -> (r: Vec<i32>)
    ensures
        r@.len() == (if amount < items@.len() { amount as int } else { items@.len() as int }),
        r@.to_multiset().subset_of(items@.to_multiset()),
{
    items.choose_multiple(&mut rand::thread_rng(), amount).cloned().collect()
}

/// Calls `rand::seq::SliceRandom::shuffle` on the thread generator: the same entries, in
/// some order.
#[verifier::external_body]
pub(crate) fn shuffle(v: &mut Vec<usize>)
    ensures
        final(v)@.to_multiset() == old(v)@.to_multiset(),
{
    v.shuffle(&mut rand::thread_rng());
}

/// Calls `rand::seq::SliceRandom::choose` on the thread generator: one of the entries.
#[verifier::external_body]
pub(crate) fn choose_one(items: &Vec<usize>) -> (r: usize)
    requires
        items@.len() > 0,
    ensures
        items@.contains(r),
{
    *items.choose(&mut rand::thread_rng()).unwrap()
}

/// The sum of the first `k` weights.
pub open spec fn prefix_weight(w: Seq<i64>, k: int) -> int
    decreases k,
{
    if k <= 0 || k > w.len() {
        0
    } else {
        prefix_weight(w, k - 1) + w[k - 1]
    }
}

/// The first position at or after `i` whose running weight total exceeds `roll`.
pub open spec fn pick_from(w: Seq<i64>, roll: int, i: int) -> Option<int>
    decreases w.len() - i,
{
    if i < 0 || i >= w.len() {
        None
    } else if roll < prefix_weight(w, i + 1) {
        Some(i)
    } else {
        pick_from(w, roll, i + 1)
    }
}

/// The entry a roll lands on when each entry covers its weight in turn: the first
/// position whose running weight total exceeds `roll`.
pub open spec fn weighted_index(w: Seq<i64>, roll: int) -> Option<int> {
    pick_from(w, roll, 0)
}

/// Finds the entry a roll lands on.
pub fn pick_by_weight(w: &Vec<i64>, roll: i64) -> (r: Option<usize>)
    ensures
        r is Some <==> weighted_index(w@, roll as int) is Some,
        r is Some ==> weighted_index(w@, roll as int) == Some(r->0 as int) && r->0 < w@.len(),
{
    proof {
        lemma_pick_from_bounds(w@, roll as int, 0);
    }
    let mut acc: i128 = 0;
    let mut i: usize = 0;
    while i < w.len()
        invariant
            i <= w@.len(),
            acc == prefix_weight(w@, i as int),
            -(i as int) * 0x8000_0000_0000_0000 <= acc <= (i as int) * 0x8000_0000_0000_0000,
            weighted_index(w@, roll as int) == pick_from(w@, roll as int, i as int),
        decreases w@.len() - i,
    {
        acc = acc + w[i] as i128;
        if (roll as i128) < acc {
            return Some(i);
        }
        i = i + 1;
    }
    None
}

proof fn lemma_pick_from_bounds(w: Seq<i64>, roll: int, i: int)
    requires
        0 <= i,
    ensures
        pick_from(w, roll, i) matches Some(k) ==> i <= k < w.len(),
    decreases w.len() - i,
{
    if i < w.len() && !(roll < prefix_weight(w, i + 1)) {
        lemma_pick_from_bounds(w, roll, i + 1);
    }
}

/// The sum of all weights.
pub open spec fn total_weight(w: Seq<i64>) -> int {
    prefix_weight(w, w.len() as int)
}

/// Every roll below the total of non-negative weights lands on some entry, and on one
/// whose weight is positive.
pub proof fn lemma_roll_below_total_lands(w: Seq<i64>, roll: int)
    requires
        forall|k: int| 0 <= k < w.len() ==> w[k] >= 0,
        0 <= roll < total_weight(w),
    ensures
        weighted_index(w, roll) is Some,
        w[weighted_index(w, roll)->0] > 0,
{
    lemma_pick_from_lands(w, roll, 0);
}

proof fn lemma_prefix_stable(w: Seq<i64>, x: i64, k: int)
    requires
        0 <= k <= w.len(),
    ensures
        prefix_weight(w.push(x), k) == prefix_weight(w, k),
    decreases k,
{
    if k > 0 {
        lemma_prefix_stable(w, x, k - 1);
        assert(w.push(x)[k - 1] == w[k - 1]);
    }
}

/// Adding a weight at the end adds it to the total.
pub proof fn lemma_total_weight_push(w: Seq<i64>, x: i64)
    ensures
        total_weight(w.push(x)) == total_weight(w) + x,
{
    lemma_prefix_stable(w, x, w.len() as int);
    assert(w.push(x)[w.len() as int] == x);
}

/// Positive weights have a positive total.
pub proof fn lemma_positive_total(w: Seq<i64>)
    requires
        w.len() > 0,
        forall|k: int| 0 <= k < w.len() ==> #[trigger] w[k] > 0,
    ensures
        total_weight(w) > 0,
    decreases w.len(),
{
    let v = w.drop_last();
    if v.len() > 0 {
        assert forall|k: int| 0 <= k < v.len() implies #[trigger] v[k] > 0 by {
            assert(v[k] == w[k]);
        }
        lemma_positive_total(v);
    }
    assert(v.push(w.last()) =~= w);
    lemma_total_weight_push(v, w.last());
    lemma_nonneg_total(v);
}

proof fn lemma_nonneg_total(w: Seq<i64>)
    requires
        forall|k: int| 0 <= k < w.len() ==> #[trigger] w[k] > 0,
    ensures
        total_weight(w) >= 0,
    decreases w.len(),
{
    if w.len() > 0 {
        let v = w.drop_last();
        assert forall|k: int| 0 <= k < v.len() implies #[trigger] v[k] > 0 by {
            assert(v[k] == w[k]);
        }
        lemma_nonneg_total(v);
        assert(v.push(w.last()) =~= w);
        lemma_total_weight_push(v, w.last());
    }
}

proof fn lemma_pick_from_lands(w: Seq<i64>, roll: int, i: int)
    requires
        forall|k: int| 0 <= k < w.len() ==> w[k] >= 0,
        0 <= i <= w.len(),
        prefix_weight(w, i) <= roll < prefix_weight(w, w.len() as int),
    ensures
        pick_from(w, roll, i) is Some,
        w[pick_from(w, roll, i)->0] > 0,
    decreases w.len() - i,
{
    if i == w.len() {
    } else if roll < prefix_weight(w, i + 1) {
    } else {
        lemma_pick_from_lands(w, roll, i + 1);
    }
}

} // verus!
