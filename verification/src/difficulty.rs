//! How the food supply scales with the score.
//!
//! Both curves are a decimal logarithm rounded to the nearest whole number,
//! plus one. The logarithm of `n` rounds to `k` exactly when `n * n` lies
//! between `10^(2k-1)` and `10^(2k+1)`, which is how it is computed here
//! without leaving the integers.

use vstd::prelude::*;
use vstd::arithmetic::power::pow;
use vstd::arithmetic::power::lemma_pow1;
use vstd::arithmetic::power::lemma_pow_adds;
use vstd::arithmetic::power::lemma_pow_positive;

verus! {

/// Counts the odd powers of ten, from `threshold = 10^(2k+1)` on, that do
/// not exceed `square`, and adds them to `k`.
pub open spec fn rounded_log10_from(square: nat, threshold: nat, k: nat) -> nat
    decreases
            (if square >= threshold {
                square + 1 - threshold
            } else {
                0
            }),
{
    if threshold == 0 || square < threshold {
        k
    } else {
        rounded_log10_from(square, threshold * 100, k + 1)
    }
}

/// The decimal logarithm of `n`, rounded to the nearest whole number; 0 for
/// `n == 0`.
pub open spec fn spec_rounded_log10(n: nat) -> nat {
    rounded_log10_from(n * n, 10, 0)
}

/// The score as the curves see it: losses below the starting length count
/// as no score at all.
pub open spec fn clamped_score(score: int) -> nat {
    if score < 0 {
        0
    } else {
        score as nat
    }
}

/// Most Normal food that may be alive at `score`.
pub open spec fn spec_max_food(score: int) -> nat {
    spec_rounded_log10(2 * clamped_score(score)) + 1
}

/// Upper end (exclusive, unless it is 1) of the quality of new Normal food
/// at `score`.
pub open spec fn spec_quality_cap(score: int) -> nat {
    spec_rounded_log10(clamped_score(score) + 1) + 1
}

/// Quality of the Bad food that appears at `score`.
pub open spec fn spec_bad_food_quality(score: int) -> nat {
    if score / 5 < 1 {
        1
    } else {
        (score / 5) as nat
    }
}

/// Whether a roll of `[0, 100)` brings a Bad food at `score`.
pub open spec fn spec_spawns_bad_food(score: int, roll: int) -> bool {
    score > 5 && roll < 40
}

/// Number of Normal foods that still fit when `count` are listed and
/// `pending` of those are about to be removed.
pub open spec fn spec_batch_capacity(max_food: nat, count: nat, pending: nat) -> nat {
    let live = if count >= pending {
        count - pending
    } else {
        0
    };
    if max_food > live {
        (max_food - live) as nat
    } else {
        0
    }
}

/// The decimal logarithm of `n`, rounded to the nearest whole number.
pub fn rounded_log10(n: u64) -> (k: u32)
    requires
        n <= 0x2_0000_0000,
    ensures
        k == spec_rounded_log10(n as nat),
        k <= 10,
{
    assert(n * n <= 0x4_0000_0000_0000_0000) by (nonlinear_arith)
        requires
            n <= 0x2_0000_0000,
    ;
    let square: u128 = (n as u128) * (n as u128);
    let mut threshold: u128 = 10;
    let mut k: u32 = 0;
    proof {
        lemma_pow1(10);
    }
    while square >= threshold
        invariant
            0 < threshold <= 1_000_000_000_000_000_000_000,
            threshold == pow(10, 2 * k as nat + 1),
            k <= 10,
            square <= 0x4_0000_0000_0000_0000,
            k == 10 ==> square < threshold,
            rounded_log10_from(square as nat, threshold as nat, k as nat) == spec_rounded_log10(
                n as nat,
            ),
        decreases 11 - k,
    {
        proof {
            lemma_pow_adds(10, 2 * k as nat + 1, 2);
            lemma_pow_adds(10, 1, 1);
            lemma_pow1(10);
            lemma_power_of_ten_table();
            if k == 9 {
                assert(threshold * 100 == pow(10, 21));
            }
        }
        threshold = threshold * 100;
        k = k + 1;
    }
    k
}

/// Most Normal food that may be alive at `score`.
pub fn max_food_for(score: i32) -> (max_food: u32)
    ensures
        max_food == spec_max_food(score as int),
        score <= 0 ==> max_food == 1,
        1 <= max_food <= 11,
{
    if score <= 0 {
        proof {
            assert(spec_rounded_log10(0) == 0);
        }
        1
    } else {
        rounded_log10(2 * (score as u64)) + 1
    }
}

/// Upper end of the quality of new Normal food at `score`.
pub fn quality_cap_for(score: i32) -> (cap: u32)
    ensures
        cap == spec_quality_cap(score as int),
        1 <= cap <= 11,
{
    if score <= 0 {
        rounded_log10(1) + 1
    } else {
        rounded_log10(score as u64 + 1) + 1
    }
}

/// Quality of the Bad food that appears at `score`.
pub fn bad_food_quality(score: i32) -> (quality: u32)
    ensures
        quality == spec_bad_food_quality(score as int),
        quality >= 1,
{
    if score < 10 {
        1
    } else {
        (score / 5) as u32
    }
}

/// Whether a roll of `[0, 100)` brings a Bad food at `score`.
pub fn spawns_bad_food(score: i32, roll: i64) -> (spawns: bool)
    ensures
        spawns == spec_spawns_bad_food(score as int, roll as int),
{
    score > 5 && roll < 40
}

/// Number of Normal foods that still fit when `count` are listed and
/// `pending` of those are about to be removed.
pub fn batch_capacity(max_food: u32, count: usize, pending: usize) -> (capacity: usize)
    ensures
        capacity == spec_batch_capacity(max_food as nat, count as nat, pending as nat),
        capacity <= max_food,
{
    let live: usize = if count >= pending {
        count - pending
    } else {
        0
    };
    if live < max_food as usize {
        max_food as usize - live
    } else {
        0
    }
}

/// The count never falls below the `k` it starts from.
pub proof fn lemma_rounded_log10_from_at_least(square: nat, threshold: nat, k: nat)
    ensures
        rounded_log10_from(square, threshold, k) >= k,
    decreases
            (if square >= threshold {
                square + 1 - threshold
            } else {
                0
            }),
{
    if !(threshold == 0 || square < threshold) {
        lemma_rounded_log10_from_at_least(square, threshold * 100, k + 1);
    }
}

/// A larger square passes at least as many thresholds.
pub proof fn lemma_rounded_log10_from_monotonic(
    smaller: nat,
    larger: nat,
    threshold: nat,
    k: nat,
)
    requires
        smaller <= larger,
    ensures
        rounded_log10_from(smaller, threshold, k) <= rounded_log10_from(larger, threshold, k),
    decreases
            (if larger >= threshold {
                larger + 1 - threshold
            } else {
                0
            }),
{
    if !(threshold == 0 || larger < threshold) {
        if smaller < threshold {
            lemma_rounded_log10_from_at_least(larger, threshold * 100, k + 1);
        } else {
            lemma_rounded_log10_from_monotonic(smaller, larger, threshold * 100, k + 1);
        }
    }
}

/// The rounded logarithm never decreases as its argument grows.
pub proof fn lemma_rounded_log10_monotonic(smaller: nat, larger: nat)
    requires
        smaller <= larger,
    ensures
        spec_rounded_log10(smaller) <= spec_rounded_log10(larger),
{
    assert(smaller * smaller <= larger * larger) by (nonlinear_arith)
        requires
            smaller <= larger,
    ;
    lemma_rounded_log10_from_monotonic(smaller * smaller, larger * larger, 10, 0);
}

/// Both difficulty curves never decrease as the score grows.
pub proof fn lemma_difficulty_monotonic(lower: int, higher: int)
    requires
        lower <= higher,
    ensures
        spec_max_food(lower) <= spec_max_food(higher),
        spec_quality_cap(lower) <= spec_quality_cap(higher),
        spec_max_food(lower) >= 1,
        spec_quality_cap(lower) >= 1,
{
    lemma_rounded_log10_monotonic(2 * clamped_score(lower), 2 * clamped_score(higher));
    lemma_rounded_log10_monotonic(clamped_score(lower) + 1, clamped_score(higher) + 1);
}

/// Counting from `threshold = 10^(2k+1)` ends at the `r` whose odd powers
/// of ten enclose `square`.
pub proof fn lemma_rounded_log10_from_encloses(square: nat, threshold: nat, k: nat)
    requires
        threshold == pow(10, 2 * k + 1),
        k > 0 ==> pow(10, (2 * k - 1) as nat) <= square,
    ensures
        square < pow(10, 2 * rounded_log10_from(square, threshold, k) + 1),
        rounded_log10_from(square, threshold, k) > 0 ==> pow(
            10,
            (2 * rounded_log10_from(square, threshold, k) - 1) as nat,
        ) <= square,
    decreases
            (if square >= threshold {
                square + 1 - threshold
            } else {
                0
            }),
{
    lemma_pow_positive(10, 2 * k + 1);
    if !(threshold == 0 || square < threshold) {
        lemma_pow_adds(10, 2 * k + 1, 2);
        lemma_pow_adds(10, 1, 1);
        lemma_pow1(10);
        assert(2 * k + 1 + 2 == 2 * (k + 1) + 1);
        assert((2 * (k + 1) - 1) as nat == 2 * k + 1);
        lemma_rounded_log10_from_encloses(square, threshold * 100, k + 1);
    }
}

/// `spec_rounded_log10(n)` is the whole number nearest to the decimal
/// logarithm of `n`: the square of `n` lies between the two odd powers of
/// ten around it.
pub proof fn lemma_rounded_log10_encloses(n: nat)
    ensures
        n * n < pow(10, 2 * spec_rounded_log10(n) + 1),
        spec_rounded_log10(n) > 0 ==> pow(10, (2 * spec_rounded_log10(n) - 1) as nat) <= n * n,
{
    lemma_pow1(10);
    lemma_rounded_log10_from_encloses(n * n, 10, 0);
}

/// The odd powers of ten up to `10^21`.
proof fn lemma_power_of_ten_table()
    ensures
        pow(10, 1) == 10,
        pow(10, 2) == 100,
        pow(10, 21) == 1_000_000_000_000_000_000_000,
        forall|k: nat| k <= 9 ==> #[trigger] pow(10, 2 * k + 1) <= 10_000_000_000_000_000_000,
{
    lemma_pow1(10);
    reveal_with_fuel(pow, 22);
    assert(pow(10, 21) == 1_000_000_000_000_000_000_000);
    assert forall|k: nat| k <= 9 implies #[trigger] pow(10, 2 * k + 1)
        <= 10_000_000_000_000_000_000 by {
        assert(pow(10, 19) == 10_000_000_000_000_000_000);
        assert(pow(10, 17) <= 10_000_000_000_000_000_000);
        assert(pow(10, 15) <= 10_000_000_000_000_000_000);
        assert(pow(10, 13) <= 10_000_000_000_000_000_000);
        assert(pow(10, 11) <= 10_000_000_000_000_000_000);
        assert(pow(10, 9) <= 10_000_000_000_000_000_000);
        assert(pow(10, 7) <= 10_000_000_000_000_000_000);
        assert(pow(10, 5) <= 10_000_000_000_000_000_000);
        assert(pow(10, 3) <= 10_000_000_000_000_000_000);
        assert(pow(10, 1) <= 10_000_000_000_000_000_000);
    }
}

} // verus!
