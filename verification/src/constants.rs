//! Scale Calculus constants, as exact decimals.

use vstd::prelude::*;
use crate::decimal::{Decimal, Num, digits_value};

verus! {

/// Maximum rebalancing iterations before DRC.TERTIARY.
pub const MAX_REBALANCE: usize = 50;

/// Maximum kappa inference iterations before a divergence error.
pub const MAX_INFER_ITER: usize = 200;

/// Lower edge of the forbidden zone, `e^-1 ≈ 0.36787944117144233`.
pub open spec fn forbidden_low_num() -> Num {
    (36787944117144233, 17)
}

/// Upper edge of the forbidden zone, `e^-1/2 ≈ 0.60653065971263342`.
pub open spec fn forbidden_high_num() -> Num {
    (60653065971263342, 17)
}

/// The digits of `e^-1` as written here, `0.36787944117144233`.
pub open spec fn forbidden_low_digits() -> Seq<u8> {
    seq![0u8, 3, 6, 7, 8, 7, 9, 4, 4, 1, 1, 7, 1, 4, 4, 2, 3, 3]
}

/// The digits of `e^-1/2` as written here, `0.60653065971263342`.
pub open spec fn forbidden_high_digits() -> Seq<u8> {
    seq![0u8, 6, 0, 6, 5, 3, 0, 6, 5, 9, 7, 1, 2, 6, 3, 3, 4, 2]
}

/// The minimum epsilon, `10^-9`.
pub open spec fn eps_num() -> Num {
    (1, 9)
}

/// The Phi equilibrium tolerance, `0.05`.
pub open spec fn phi_tol_num() -> Num {
    (5, 2)
}

/// Lower edge of the forbidden zone: e^-1.
/// Only sentient vessels may hold a kappa strictly between the two edges.
pub fn forbidden_low() -> (r: Decimal)
    ensures
        r.wf(),
        r.value() == forbidden_low_num(),
        r.digits.len() == 18,
        !r.negative,
        r.digits@ == forbidden_low_digits(),
        r.scale == 17,
{
    let r = Decimal { negative: false, digits: vec![0, 3, 6, 7, 8, 7, 9, 4, 4, 1, 1, 7, 1, 4, 4, 2, 3, 3], scale: 17 };
    proof {
        reveal_with_fuel(digits_value, 19);
    }
    assert(digits_value(r.digits@) == 36787944117144233);
    assert(r.digits@ =~= forbidden_low_digits());
    r
}

/// Upper edge of the forbidden zone: e^-1/2.
pub fn forbidden_high() -> (r: Decimal)
    ensures
        r.wf(),
        r.value() == forbidden_high_num(),
        r.digits.len() == 18,
        !r.negative,
        r.digits@ == forbidden_high_digits(),
        r.scale == 17,
{
    let r = Decimal { negative: false, digits: vec![0, 6, 0, 6, 5, 3, 0, 6, 5, 9, 7, 1, 2, 6, 3, 3, 4, 2], scale: 17 };
    proof {
        reveal_with_fuel(digits_value, 19);
    }
    assert(digits_value(r.digits@) == 60653065971263342);
    assert(r.digits@ =~= forbidden_high_digits());
    r
}

/// The minimum epsilon, 1e-9: kappa is bounded away from 0 and 1 by this amount.
pub fn eps() -> (r: Decimal)
    ensures
        r.wf(),
        r.value() == eps_num(),
        r.digits.len() == 10,
{
    let r = Decimal { negative: false, digits: vec![0, 0, 0, 0, 0, 0, 0, 0, 0, 1], scale: 9 };
    proof {
        reveal_with_fuel(digits_value, 11);
    }
    assert(digits_value(r.digits@) == 1);
    r
}

/// The T-H1 tolerance, 1e-9: |alpha - ln(kappa)| must stay below it.
pub fn th1_tol() -> (r: Decimal)
    ensures
        r.wf(),
        r.value() == eps_num(),
        r.digits.len() == 10,
{
    eps()
}

/// The Phi equilibrium tolerance for runtime rebalancing, 0.05.
pub fn phi_tol() -> (r: Decimal)
    ensures
        r.wf(),
        r.value() == phi_tol_num(),
        r.digits.len() == 3,
{
    let r = Decimal { negative: false, digits: vec![0, 0, 5], scale: 2 };
    proof {
        reveal_with_fuel(digits_value, 4);
    }
    assert(digits_value(r.digits@) == 5);
    r
}

} // verus!
