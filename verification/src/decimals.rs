//! Multiplying decimal quantities without leaving the decimal.
//!
//! A short decimal is an integer mantissa and a power-of-ten scale:
//! `0.10379` is `10379` at scale `5`. The product of several decimals is
//! then the product of their mantissas at the sum of their scales, formed
//! exactly in integers and converted to binary once, by one correctly
//! rounded division. Reading a float as the short decimal it means, and the
//! final division, are floating-point steps outside this module; what is
//! decided here is whether the exact product stays where that conversion is
//! exact, and what it is.
use vstd::prelude::*;

verus! {

/// Largest total scale the reconstruction may carry: powers of ten are
/// exact in `f64` up to `1e22`.
pub const MAX_TOTAL_SCALE: u32 = 22;

/// `2^53`: integers at or above this magnitude are no longer exactly
/// representable in `f64`.
pub const MAX_EXACT_INT: i128 = 9_007_199_254_740_992;

/// The product of the mantissas of `parts`; `1` for no parts.
pub open spec fn mantissa_product(parts: Seq<(i128, u32)>) -> int
    decreases parts.len(),
{
    if parts.len() == 0 {
        1
    } else {
        mantissa_product(parts.drop_last()) * parts.last().0
    }
}

/// The sum of the scales of `parts`; `0` for no parts.
pub open spec fn scale_sum(parts: Seq<(i128, u32)>) -> int
    decreases parts.len(),
{
    if parts.len() == 0 {
        0
    } else {
        scale_sum(parts.drop_last()) + parts.last().1
    }
}

/// Whether a partial product stays exact: its mantissa is smaller than
/// `2^53` in magnitude and its scale is at most `MAX_TOTAL_SCALE`.
pub open spec fn exact_at(parts: Seq<(i128, u32)>) -> bool {
    &&& -MAX_EXACT_INT < mantissa_product(parts) < MAX_EXACT_INT
    &&& scale_sum(parts) <= MAX_TOTAL_SCALE
}

/// Whether the product of `parts`, formed one factor at a time, stays exact
/// after every factor.
pub open spec fn stays_exact(parts: Seq<(i128, u32)>) -> bool {
    forall|k: int| 1 <= k <= parts.len() ==> #[trigger] exact_at(parts.take(k))
}

proof fn lemma_take_step(parts: Seq<(i128, u32)>, i: int)
    requires
        0 <= i < parts.len(),
    ensures
        mantissa_product(parts.take(i + 1)) == mantissa_product(parts.take(i)) * parts[i].0,
        scale_sum(parts.take(i + 1)) == scale_sum(parts.take(i)) + parts[i].1,
{
    assert(parts.take(i + 1).drop_last() =~= parts.take(i));
}

/// The exact product of decimal `parts`, each a mantissa and a scale, as a
/// mantissa and a scale.
///
/// Returns `None` as soon as a partial product leaves the range where the
/// final conversion to `f64` is exact: a mantissa of `2^53` or more in
/// magnitude, or a total scale above `MAX_TOTAL_SCALE`. The caller then
/// falls back to floating point. No parts multiply to `1` at scale `0`.
pub fn exact_decimal_product(parts: &[(i128, u32)]) -> (product: Option<(i128, u32)>)
    ensures
        product.is_some() <==> stays_exact(parts@),
        product.is_some() ==> product.unwrap().0 == mantissa_product(parts@) && product.unwrap().1
            == scale_sum(parts@),
{
    let mut mantissa: i128 = 1;
    let mut total_scale: u32 = 0;
    let mut i: usize = 0;
    assert(parts@.take(0) =~= Seq::<(i128, u32)>::empty());
    while i < parts.len()
        invariant
            0 <= i <= parts.len(),
            mantissa == mantissa_product(parts@.take(i as int)),
            total_scale == scale_sum(parts@.take(i as int)),
            -MAX_EXACT_INT < mantissa < MAX_EXACT_INT,
            total_scale <= MAX_TOTAL_SCALE,
            forall|k: int| 1 <= k <= i ==> #[trigger] exact_at(parts@.take(k)),
        decreases parts.len() - i,
    {
        let (scaled, scale) = parts[i];
        proof {
            lemma_take_step(parts@, i as int);
        }
        let next = mantissa.checked_mul(scaled);
        let next_scale = total_scale.checked_add(scale);
        match (next, next_scale) {
            (Some(m), Some(t)) => {
                if m >= MAX_EXACT_INT || m <= -MAX_EXACT_INT || t > MAX_TOTAL_SCALE {
                    assert(!exact_at(parts@.take(i + 1)));
                    return None;
                }
                mantissa = m;
                total_scale = t;
            },
            _ => {
                assert(!exact_at(parts@.take(i + 1)));
                return None;
            },
        }
        i = i + 1;
    }
    assert(parts@.take(parts.len() as int) =~= parts@);
    Some((mantissa, total_scale))
}

} // verus!
