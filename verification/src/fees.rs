//! Which tier of a tiered fee schedule a trade falls in.
//!
//! A tiered schedule lists thresholds of trade value, each with its rate.
//! The tiers are read in order, and each one whose threshold the trade
//! value reaches replaces the rate before it; the first threshold the value
//! does not reach ends the reading. The rates and the fee itself are money
//! arithmetic outside this module; thresholds and trade values enter as
//! their ranks in value order.
use vstd::prelude::*;

verus! {

/// Whether the trade value at rank `value` reaches each of the first `k`
/// thresholds.
pub open spec fn reaches_first(thresholds: Seq<i64>, value: i64, k: int) -> bool {
    forall|j: int| 0 <= j < k ==> #[trigger] thresholds[j] <= value
}

/// The number of leading tiers the trade value at rank `value` reaches.
pub open spec fn tiers_reached(thresholds: Seq<i64>, value: i64) -> nat
    decreases thresholds.len(),
{
    if thresholds.len() == 0 || thresholds[0] > value {
        0
    } else {
        1 + tiers_reached(thresholds.drop_first(), value)
    }
}

proof fn lemma_tiers_reached(thresholds: Seq<i64>, value: i64)
    ensures
        tiers_reached(thresholds, value) <= thresholds.len(),
        reaches_first(thresholds, value, tiers_reached(thresholds, value) as int),
        tiers_reached(thresholds, value) < thresholds.len() ==> thresholds[tiers_reached(
            thresholds,
            value,
        ) as int] > value,
    decreases thresholds.len(),
{
    if thresholds.len() > 0 && thresholds[0] <= value {
        let rest = thresholds.drop_first();
        lemma_tiers_reached(rest, value);
        assert forall|j: int| 0 <= j < tiers_reached(thresholds, value) implies #[trigger] thresholds[j]
            <= value by {
            if j > 0 {
                assert(thresholds[j] == rest[j - 1]);
            }
        }
    }
}

/// The tier whose rate applies to a trade of value rank `value`: the last
/// of the leading tiers whose thresholds it reaches, or `None` where it
/// does not reach the first (the rate is then zero).
pub fn applicable_tier(thresholds: &[i64], value: i64) -> (tier: Option<usize>)
    ensures
        tiers_reached(thresholds@, value) == 0 ==> tier.is_none(),
        tiers_reached(thresholds@, value) > 0 ==> tier == Some((tiers_reached(thresholds@, value) - 1) as usize),
{
    let mut i: usize = 0;
    while i < thresholds.len()
        invariant
            i <= thresholds.len(),
            reaches_first(thresholds@, value, i as int),
        ensures
            i <= thresholds.len(),
            reaches_first(thresholds@, value, i as int),
            i < thresholds.len() ==> thresholds@[i as int] > value,
        decreases thresholds.len() - i,
    {
        if thresholds[i] > value {
            break;
        }
        i = i + 1;
    }
    proof {
        lemma_tiers_reached(thresholds@, value);
        let r = tiers_reached(thresholds@, value) as int;
        // Both `i` and `r` end the leading run of reached thresholds.
        if (i as int) < r {
            assert(thresholds@[i as int] <= value);
        }
        if r < (i as int) {
            assert(thresholds@[r] <= value);
        }
        assert(r == i as int);
    }
    if i == 0 {
        None
    } else {
        Some(i - 1)
    }
}

/// A larger trade never falls in an earlier tier: the number of tiers a
/// trade value reaches never shrinks as the value grows.
pub proof fn law_a_larger_trade_reaches_no_fewer_tiers(thresholds: Seq<i64>, smaller: i64, larger: i64)
    requires
        smaller <= larger,
    ensures
        tiers_reached(thresholds, smaller) <= tiers_reached(thresholds, larger),
    decreases thresholds.len(),
{
    if thresholds.len() > 0 && thresholds[0] <= smaller {
        law_a_larger_trade_reaches_no_fewer_tiers(thresholds.drop_first(), smaller, larger);
    }
}

} // verus!
