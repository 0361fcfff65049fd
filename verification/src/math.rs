//! Constant-product pricing: the quote formula and its safety facts.

use vstd::prelude::*;
use vstd::arithmetic::div_mod::{
    lemma_div_is_ordered, lemma_div_multiples_vanish, lemma_div_pos_is_pos,
    lemma_fundamental_div_mod, lemma_mod_division_less_than_divisor,
};
use vstd::arithmetic::mul::{
    lemma_mul_inequality, lemma_mul_is_commutative, lemma_mul_nonnegative, lemma_mul_upper_bound,
};

use crate::error::ErrorCode;

verus! {

/// The constant-product quote: `floor(amount_in * reserve_out / (reserve_in + amount_in))`.
///
/// Meaningful whenever the denominator is positive; all executable contracts
/// only apply it under that condition.
pub open spec fn swap_output(amount_in: int, reserve_in: int, reserve_out: int) -> int
    recommends
        0 < reserve_in + amount_in,
{
    (amount_in * reserve_out) / (reserve_in + amount_in)
}

/// The intermediate product of the pricing formula always fits the 128-bit
/// domain it is computed in: with 64-bit operands, `amount_in * reserve_out`
/// can never exceed `u128::MAX`, so the multiplication itself is never a
/// source of overflow.
pub proof fn lemma_numerator_in_domain(amount_in: u64, reserve_out: u64)
    ensures
        0 <= (amount_in as int) * (reserve_out as int) <= u128::MAX as int,
{
    lemma_mul_nonnegative(amount_in as int, reserve_out as int);
    lemma_mul_upper_bound(
        amount_in as int,
        u64::MAX as int,
        reserve_out as int,
        u64::MAX as int,
    );
}

/// The quote never exceeds the output-side reserve: the pool always holds
/// enough to pay a successful swap out of its own vault.
pub proof fn lemma_swap_output_bounds(amount_in: int, reserve_in: int, reserve_out: int)
    requires
        0 <= amount_in,
        0 <= reserve_in,
        0 <= reserve_out,
        0 < reserve_in + amount_in,
    ensures
        0 <= swap_output(amount_in, reserve_in, reserve_out) <= reserve_out,
{
    let den = reserve_in + amount_in;
    lemma_mul_nonnegative(amount_in, reserve_out);
    lemma_div_pos_is_pos(amount_in * reserve_out, den);
    lemma_mul_inequality(amount_in, den, reserve_out);
    lemma_div_is_ordered(amount_in * reserve_out, den * reserve_out, den);
    lemma_mul_is_commutative(den, reserve_out);
    lemma_div_multiples_vanish(reserve_out, den);
}

/// After a swap priced by the floored constant-product formula, the product of
/// the reserves never decreases: with `out = swap_output(amount_in, reserve_in,
/// reserve_out)`, `(reserve_in + amount_in) * (reserve_out - out) >= reserve_in
/// * reserve_out`.
pub proof fn lemma_swap_product_non_decreasing(amount_in: int, reserve_in: int, reserve_out: int)
    requires
        0 <= amount_in,
        0 <= reserve_in,
        0 <= reserve_out,
        0 < reserve_in + amount_in,
    ensures
        (reserve_in + amount_in) * (reserve_out - swap_output(amount_in, reserve_in, reserve_out))
            >= reserve_in * reserve_out,
{
    let den = reserve_in + amount_in;
    let num = amount_in * reserve_out;
    let q = num / den;
    let rem = num % den;
    lemma_fundamental_div_mod(num, den);
    lemma_mod_division_less_than_divisor(num, den);
    assert(den * (reserve_out - q) >= reserve_in * reserve_out) by (nonlinear_arith)
        requires
            num == den * q + rem,
            0 <= rem,
            num == amount_in * reserve_out,
            den == reserve_in + amount_in,
    ;
}

/// Price a single-direction exchange with the constant-product formula,
/// computed in the 128-bit domain.
///
/// Fails with `MathOverflow` exactly when the denominator is zero, that is
/// when both `reserve_in` and `amount_in` are zero; on every other input the
/// exact floored quote is returned, and it never exceeds `reserve_out`.
pub fn calculate_swap_output(amount_in: u64, reserve_in: u64, reserve_out: u64) -> (r: Result<
    u64,
    ErrorCode,
>)
    ensures
        r is Err <==> reserve_in == 0 && amount_in == 0,
        r is Err ==> r == Err::<u64, ErrorCode>(ErrorCode::MathOverflow),
        r matches Ok(out) ==> out as int == swap_output(
            amount_in as int,
            reserve_in as int,
            reserve_out as int,
        ) && out <= reserve_out,
{
    proof {
        lemma_numerator_in_domain(amount_in, reserve_out);
    }
    let numerator: u128 = (amount_in as u128) * (reserve_out as u128);
    let denominator: u128 = (reserve_in as u128) + (amount_in as u128);
    if denominator == 0 {
        return Err(ErrorCode::MathOverflow);
    }
    let quotient: u128 = numerator / denominator;
    proof {
        lemma_swap_output_bounds(amount_in as int, reserve_in as int, reserve_out as int);
    }
    Ok(quotient as u64)
}

} // verus!
