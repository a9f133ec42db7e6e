//! Arithmetic on natural numbers that are capped: enough to compare sums and products of
//! machine integers with bounds below the cap, whatever their size.
use vstd::prelude::*;

verus! {

/// The cap of sums and products that are only compared with bounds below it: `2^126`.
pub open spec fn budget_cap() -> int {
    0x4000_0000_0000_0000_0000_0000_0000_0000
}

/// A number that is not negative, capped.
pub open spec fn capped(x: int) -> int {
    if x >= budget_cap() {
        budget_cap()
    } else {
        x
    }
}

/// Capping the operands first does not change a capped sum or product of numbers that are
/// not negative.
pub proof fn lemma_capped_operations(x: int, y: int)
    requires
        x >= 0,
        y >= 0,
    ensures
        capped(capped(x) + capped(y)) == capped(x + y),
        capped(capped(x) * capped(y)) == capped(x * y),
        x * y >= 0,
{
    let cap = budget_cap();
    assert(x * y >= 0) by (nonlinear_arith)
        requires
            x >= 0,
            y >= 0,
    ;
    if x >= cap {
        if y >= 1 {
            assert(x * y >= cap) by (nonlinear_arith)
                requires
                    x >= cap,
                    y >= 1,
                    cap >= 0,
            ;
            assert(cap * capped(y) >= cap) by (nonlinear_arith)
                requires
                    capped(y) >= 1,
                    cap >= 0,
            ;
        } else {
            assert(x * y == 0) by (nonlinear_arith)
                requires
                    y == 0,
            ;
            assert(cap * 0 == 0) by (nonlinear_arith);
        }
    } else if y >= cap {
        if x >= 1 {
            assert(x * y >= cap) by (nonlinear_arith)
                requires
                    y >= cap,
                    x >= 1,
                    cap >= 0,
            ;
            assert(x * cap >= cap) by (nonlinear_arith)
                requires
                    x >= 1,
                    cap >= 0,
            ;
        } else {
            assert(x * y == 0) by (nonlinear_arith)
                requires
                    x == 0,
            ;
            assert(0 * cap == 0) by (nonlinear_arith);
        }
    }
}

/// The capped sum of two capped numbers.
pub fn capped_sum(a: u128, b: u128) -> (sum: u128)
    requires
        a <= budget_cap(),
        b <= budget_cap(),
    ensures
        sum == capped(a + b),
{
    let sum = a + b;
    if sum >= 0x4000_0000_0000_0000_0000_0000_0000_0000 {
        0x4000_0000_0000_0000_0000_0000_0000_0000
    } else {
        sum
    }
}

/// The capped product of two capped numbers.
pub fn capped_product(a: u128, b: u128) -> (product: u128)
    requires
        a <= budget_cap(),
        b <= budget_cap(),
    ensures
        product == capped(a * b),
{
    match a.checked_mul(b) {
        Some(product) => {
            if product >= 0x4000_0000_0000_0000_0000_0000_0000_0000 {
                0x4000_0000_0000_0000_0000_0000_0000_0000
            } else {
                product
            }
        },
        None => 0x4000_0000_0000_0000_0000_0000_0000_0000,
    }
}

} // verus!
