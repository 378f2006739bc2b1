//! Sum of squares of the integers from 1 to an inclusive upper bound.
//!
//! The arithmetic is done in `i32`, the width the public functions expose.
//! The bound accepted by `sum_squares` is limited so that the total always
//! fits in `i32`; a bound of zero or below yields an empty range and a
//! total of zero.

use vstd::prelude::*;

verus! {

/// Mathematical sum of squares of 1..=n; 0 when n <= 0.
pub open spec fn sum_squares_spec(n: int) -> int
    decreases n,
{
    if n <= 0 {
        0
    } else {
        sum_squares_spec(n - 1) + n * n
    }
}

/// Largest bound for which the total fits in `i32`:
/// sum_squares_spec(1860) == 2146682110 <= i32::MAX.
pub const MAX_BOUND: i32 = 1860;

/// Closed-form identity: for all n >= 0,
/// sum_squares_spec(n) == n * (n + 1) * (2n + 1) / 6,
/// stated without division as 6 * sum_squares_spec(n) == n * (n + 1) * (2n + 1).
pub proof fn lemma_sum_squares_closed_form(n: int)
    requires
        n >= 0,
    ensures
        6 * sum_squares_spec(n) == n * (n + 1) * (2 * n + 1),
    decreases n,
{
    if n == 0 {
        assert(n * (n + 1) * (2 * n + 1) == 0) by (nonlinear_arith)
            requires
                n == 0;
    } else {
        lemma_sum_squares_closed_form(n - 1);
        assert(6 * sum_squares_spec(n) == n * (n + 1) * (2 * n + 1)) by (nonlinear_arith)
            requires
                6 * sum_squares_spec(n - 1) == (n - 1) * n * (2 * (n - 1) + 1),
                sum_squares_spec(n) == sum_squares_spec(n - 1) + n * n,
                n > 0;
    }
}

/// Monotonicity: for 0 <= m <= n, the sum of squares does not decrease.
pub proof fn lemma_sum_squares_monotonic(m: int, n: int)
    requires
        0 <= m <= n,
    ensures
        sum_squares_spec(m) <= sum_squares_spec(n),
    decreases n - m,
{
    if m < n {
        lemma_sum_squares_monotonic(m, n - 1);
        assert(n * n >= 0) by (nonlinear_arith);
    }
}

/// Any bound at most MAX_BOUND gives a total within `i32` range.
proof fn lemma_sum_squares_fits(n: int)
    requires
        n <= MAX_BOUND as int,
    ensures
        0 <= sum_squares_spec(n) <= 2146682110,
{
    if n > 0 {
        lemma_sum_squares_monotonic(0, n);
        lemma_sum_squares_monotonic(n, MAX_BOUND as int);
        lemma_sum_squares_closed_form(MAX_BOUND as int);
        assert(1860 * (1860 + 1) * (2 * 1860 + 1) == 12880092660) by (nonlinear_arith);
    }
}

/// Maps an integer to its square.
pub fn square(x: i32) -> (r: i32)
    requires
        -46340 <= x <= 46340,
    ensures
        r == x * x,
{
    proof {
        assert(0 <= x * x <= 2147395600) by (nonlinear_arith)
            requires
                -46340 <= x <= 46340;
    }
    x * x
}

/// Sum of the squares of 1..=n, in ascending order; 0 when n <= 0.
pub fn sum_squares(n: i32) -> (r: i32)
    requires
        n <= MAX_BOUND,
    ensures
        r == sum_squares_spec(n as int),
        n <= 0 ==> r == 0,
{
    let mut total: i32 = 0;
    let mut i: i32 = 1;
    while i <= n
        invariant
            1 <= i,
            i <= n + 1 || i == 1,
            n <= MAX_BOUND,
            total == sum_squares_spec(i - 1),
        decreases n + 1 - i,
    {
        proof {
            lemma_sum_squares_fits(i as int);
            assert(1 * 1 <= i * i <= 1860 * 1860) by (nonlinear_arith)
                requires
                    1 <= i <= 1860;
        }
        total = total + square(i);
        i = i + 1;
    }
    total
}

} // verus!
