//! The stableswap invariant solver: Newton's method for the invariant `D`
//! and for the post-swap balance `y`, plus the LP-mint computation for
//! stableswap deposits.
//!
//! Every iteration is modelled by a total specification function that returns
//! `None` exactly where the executable code reports an arithmetic failure
//! (a zero divisor or an intermediate that does not fit in 128 bits), so the
//! contracts characterise success, the converged value, and non-convergence
//! precisely.

use vstd::prelude::*;
use vstd::arithmetic::div_mod::lemma_fundamental_div_mod;

use crate::error::ContractError;
use crate::math::{
    lemma_sum_u128_take_all, lemma_sum_u128_take_next, mul_div_floor, spec_mul_div_floor,
    spec_sum_u128,
};
use crate::model::{Asset, MAX_ASSETS_PER_POOL};

verus! {

/// Iteration bound of both Newton solvers; exhausting it without two
/// successive iterates within one unit of each other is a convergence error.
pub const NEWTON_ITERATIONS: u64 = 64;

/// `b^e` over the unbounded integers.
pub open spec fn spec_pow_int(b: int, e: nat) -> int
    decreases e,
{
    if e == 0 {
        1
    } else {
        b * spec_pow_int(b, (e - 1) as nat)
    }
}

/// `n^n`, the coefficient the curve formulas use for an `n`-asset pool.
pub open spec fn spec_self_pow(n: nat) -> int {
    spec_pow_int(n as int, n)
}

/// `n^n` at each of the supported pool sizes.
pub proof fn lemma_self_pow_values()
    ensures
        spec_self_pow(1) == 1,
        spec_self_pow(2) == 4,
        spec_self_pow(3) == 27,
        spec_self_pow(4) == 256,
{
    reveal_with_fuel(spec_pow_int, 5);
}

/// `n^n` for the supported pool sizes.
fn self_pow(n: usize) -> (r: u128)
    requires
        1 <= n <= MAX_ASSETS_PER_POOL,
    ensures
        r == spec_self_pow(n as nat),
        1 <= r <= 256,
{
    proof {
        lemma_self_pow_values();
    }
    if n == 1 {
        1
    } else if n == 2 {
        4
    } else if n == 3 {
        27
    } else {
        assert(n == 4);
        256
    }
}

/// `k` applications of `step` to `init`; `None` once any application fails.
pub open spec fn spec_iterate(step: spec_fn(int) -> Option<int>, init: int, k: nat) -> Option<int>
    decreases k,
{
    if k == 0 {
        Some(init)
    } else {
        match spec_iterate(step, init, (k - 1) as nat) {
            Option::None => Option::None,
            Option::Some(v) => step(v),
        }
    }
}

/// Iterates `k` and `k + 1` both exist and differ by at most one unit.
pub open spec fn spec_converged_at(step: spec_fn(int) -> Option<int>, init: int, k: nat) -> bool {
    &&& spec_iterate(step, init, k) is Some
    &&& spec_iterate(step, init, (k + 1) as nat) is Some
    &&& -1 <= spec_iterate(step, init, (k + 1) as nat)->0 - spec_iterate(step, init, k)->0 <= 1
}

/// `k` is the first index at which the iteration converges.
pub open spec fn spec_first_conv_at(
    step: spec_fn(int) -> Option<int>,
    init: int,
    k: nat,
) -> bool {
    &&& spec_converged_at(step, init, k)
    &&& forall|j: nat| j < k ==> !spec_converged_at(step, init, j)
}

/// The value Newton's method finds within `bound` steps, if it converges.
pub open spec fn spec_iter_result(
    step: spec_fn(int) -> Option<int>,
    init: int,
    bound: nat,
) -> Option<int> {
    if exists|k: nat| k < bound && spec_first_conv_at(step, init, k) {
        let k = choose|k: nat| k < bound && spec_first_conv_at(step, init, k);
        spec_iterate(step, init, (k + 1) as nat)
    } else {
        Option::None
    }
}

/// If a later iterate exists, so does every earlier one.
pub proof fn lemma_iterate_some_mono(
    step: spec_fn(int) -> Option<int>,
    init: int,
    j: nat,
    k: nat,
)
    requires
        j <= k,
        spec_iterate(step, init, k) is Some,
    ensures
        spec_iterate(step, init, j) is Some,
    decreases k - j,
{
    if j < k {
        assert(spec_iterate(step, init, (k - 1) as nat) is Some);
        lemma_iterate_some_mono(step, init, j, (k - 1) as nat);
    }
}

/// There is at most one first convergence index.
pub proof fn lemma_first_conv_unique(
    step: spec_fn(int) -> Option<int>,
    init: int,
    k1: nat,
    k2: nat,
)
    requires
        spec_first_conv_at(step, init, k1),
        spec_first_conv_at(step, init, k2),
    ensures
        k1 == k2,
{
}

/// Once an iterate fails, no later index can converge.
pub proof fn lemma_no_conv_from_none(step: spec_fn(int) -> Option<int>, init: int, i: nat)
    requires
        spec_iterate(step, init, i) is None,
    ensures
        forall|k: nat| k + 1 >= i ==> !spec_converged_at(step, init, k),
{
    assert forall|k: nat| k + 1 >= i implies !spec_converged_at(step, init, k) by {
        if spec_converged_at(step, init, k) {
            lemma_iterate_some_mono(step, init, i, (k + 1) as nat);
        }
    }
}

/// One product step of `D^{n+1} / (n^n * prod(balances))`, accumulated as
/// `(acc * d / balances[i]) / n` from index `i` on with a 256-bit product;
/// `None` on a zero balance or a quotient beyond 128 bits.
pub open spec fn spec_dp_rec(bal: Seq<u128>, d: int, i: nat, acc: int) -> Option<int>
    decreases bal.len() - i,
{
    if i >= bal.len() {
        Some(acc)
    } else {
        if bal[i as int] == 0 {
            Option::None
        } else {
            let q = (acc * d) / (bal[i as int] as int);
            if q > u128::MAX as int {
                Option::None
            } else {
                spec_dp_rec(bal, d, i + 1, q / (bal.len() as int))
            }
        }
    }
}

/// One Newton step for the invariant `D`:
/// `d' = (ann*sum + n*dp) * d / ((ann-1)*d + (n+1)*dp)`, with `None` exactly
/// where the executable arithmetic fails.  The numerator runs through a
/// 256-bit product; the linear terms are 128-bit sums and scalings.
pub open spec fn spec_d_step(amp: int, bal: Seq<u128>, d: int) -> Option<int> {
    let n = bal.len() as int;
    let ann = amp * spec_self_pow(bal.len());
    let sum = spec_sum_u128(bal);
    match spec_dp_rec(bal, d, 0, d) {
        Option::None => Option::None,
        Option::Some(dp) => {
            let t1 = ann * sum;
            let t2 = n * dp;
            if t1 > u128::MAX as int || t2 > u128::MAX as int || t1 + t2 > u128::MAX as int {
                Option::None
            } else {
                let t3 = ann * d;
                let t4 = (n + 1) * dp;
                if t3 > u128::MAX as int || t4 > u128::MAX as int || t3 + t4 > u128::MAX as int {
                    Option::None
                } else if t3 + t4 < d {
                    Option::None
                } else {
                    let den = t3 + t4 - d;
                    if den == 0 {
                        Option::None
                    } else {
                        let q = ((t1 + t2) * d) / den;
                        if q > u128::MAX as int {
                            Option::None
                        } else {
                            Some(q)
                        }
                    }
                }
            }
        },
    }
}

/// The Newton step for `D`, as a function of the current iterate.
pub open spec fn d_step_fn(amp: int, bal: Seq<u128>) -> spec_fn(int) -> Option<int> {
    |d: int| spec_d_step(amp, bal, d)
}

/// The invariant `D` of `balances` under amplification `amp`: 0 for an empty
/// pool, otherwise the first converged Newton iterate from `D_0 = sum`;
/// `None` where the iteration fails arithmetically or does not converge
/// within [`NEWTON_ITERATIONS`].
pub open spec fn spec_d_result(amp: int, bal: Seq<u128>) -> Option<int> {
    let sum = spec_sum_u128(bal);
    if sum == 0 {
        Some(0)
    } else if sum > u128::MAX as int {
        Option::None
    } else {
        spec_iter_result(d_step_fn(amp, bal), sum, NEWTON_ITERATIONS as nat)
    }
}

/// The `D` iteration survived the full iteration budget without converging.
pub open spec fn spec_d_ran_out(amp: int, bal: Seq<u128>) -> bool {
    let sum = spec_sum_u128(bal);
    &&& sum != 0
    &&& sum <= u128::MAX as int
    &&& spec_iterate(d_step_fn(amp, bal), sum, NEWTON_ITERATIONS as nat) is Some
    &&& spec_iter_result(d_step_fn(amp, bal), sum, NEWTON_ITERATIONS as nat) is None
}

/// Sum of the balances, or an overflow failure.
fn sum_balances(balances: &Vec<u128>) -> (r: Result<u128, ContractError>)
    ensures
        r is Ok <==> spec_sum_u128(balances@) <= u128::MAX,
        r is Ok ==> r->Ok_0 == spec_sum_u128(balances@),
        !(r is Ok) ==> r == Err::<u128, ContractError>(ContractError::OverflowError),
{
    let mut sum: u128 = 0;
    let mut i: usize = 0;
    while i < balances.len()
        invariant
            i <= balances@.len(),
            sum == spec_sum_u128(balances@.take(i as int)),
        decreases balances@.len() - i,
    {
        proof {
            lemma_sum_u128_take_next(balances@, i as int);
        }
        sum = match sum.checked_add(balances[i]) {
            Some(s) => s,
            None => {
                proof {
                    lemma_sum_overflow(balances@, i as int);
                }
                return Err(ContractError::OverflowError);
            },
        };
        i = i + 1;
    }
    proof {
        lemma_sum_u128_take_all(balances@);
    }
    Ok(sum)
}

/// If a prefix sum already exceeds the 128-bit range, the whole sum does.
proof fn lemma_sum_overflow(s: Seq<u128>, i: int)
    requires
        0 <= i < s.len(),
        spec_sum_u128(s.take(i + 1)) > u128::MAX,
    ensures
        spec_sum_u128(s) > u128::MAX,
    decreases s.len() - i,
{
    if i + 1 == s.len() {
        lemma_sum_u128_take_all(s);
    } else {
        lemma_sum_u128_take_next(s, i + 1);
        lemma_sum_overflow(s, i + 1);
    }
}

/// One executable Newton step for `D`, exactly matching [`spec_d_step`].
fn compute_d_step(amp: u64, sum: u128, balances: &Vec<u128>, d: u128) -> (r: Result<
    u128,
    ContractError,
>)
    requires
        1 <= balances@.len() <= MAX_ASSETS_PER_POOL,
        sum == spec_sum_u128(balances@),
    ensures
        r is Ok <==> spec_d_step(amp as int, balances@, d as int) is Some,
        r is Ok ==> Some(r->Ok_0 as int) == spec_d_step(amp as int, balances@, d as int),
        !(r is Ok) ==> r == Err::<u128, ContractError>(ContractError::OverflowError) || r
            == Err::<u128, ContractError>(ContractError::DivideByZeroError),
{
    let n = balances.len();
    let n_u: u128 = n as u128;
    let nn = self_pow(n);
    proof {
        assert((amp as int) * (nn as int) <= u128::MAX as int) by (nonlinear_arith)
            requires
                amp <= u64::MAX,
                0 <= nn <= 256,
        ;
    }
    let ann: u128 = (amp as u128) * nn;

    let mut dp: u128 = d;
    let mut j: usize = 0;
    while j < n
        invariant
            j <= n,
            n == balances@.len(),
            1 <= n <= MAX_ASSETS_PER_POOL,
            n_u == n as u128,
            spec_dp_rec(balances@, d as int, j as nat, dp as int) == spec_dp_rec(
                balances@,
                d as int,
                0,
                d as int,
            ),
        decreases n - j,
    {
        let bal_j = balances[j];
        if bal_j == 0 {
            return Err(ContractError::DivideByZeroError);
        }
        let w = crate::math::wide_mul(dp, d);
        proof {
            lemma_fundamental_div_mod((dp as int) * (d as int), bal_j as int);
            assert((w.0 >= bal_j) == ((dp as int) * (d as int) / (bal_j as int)
                > u128::MAX as int)) by (nonlinear_arith)
                requires
                    (dp as int) * (d as int) == w.0 * crate::math::spec_two128() + w.1,
                    crate::math::spec_two128() == 0x100000000000000000000000000000000int,
                    (dp as int) * (d as int) == bal_j * ((dp as int) * (d as int) / (
                    bal_j as int)) + (dp as int) * (d as int) % (bal_j as int),
                    0 <= (dp as int) * (d as int) % (bal_j as int),
                    (dp as int) * (d as int) % (bal_j as int) < bal_j,
                    bal_j > 0,
                    w.1 <= u128::MAX,
                    w.0 <= u128::MAX,
            ;
        }
        if w.0 >= bal_j {
            return Err(ContractError::OverflowError);
        }
        let q = crate::math::wide_div(w.0, w.1, bal_j);
        dp = q / n_u;
        j = j + 1;
    }
    assert(spec_dp_rec(balances@, d as int, 0, d as int) == Some(dp as int));

    let t1 = match ann.checked_mul(sum) {
        Some(v) => v,
        None => {
            return Err(ContractError::OverflowError);
        },
    };
    let t2 = match n_u.checked_mul(dp) {
        Some(v) => v,
        None => {
            return Err(ContractError::OverflowError);
        },
    };
    let s12 = match t1.checked_add(t2) {
        Some(v) => v,
        None => {
            return Err(ContractError::OverflowError);
        },
    };
    let t3 = match ann.checked_mul(d) {
        Some(v) => v,
        None => {
            return Err(ContractError::OverflowError);
        },
    };
    let t4 = match (n_u + 1).checked_mul(dp) {
        Some(v) => v,
        None => {
            return Err(ContractError::OverflowError);
        },
    };
    let s34 = match t3.checked_add(t4) {
        Some(v) => v,
        None => {
            return Err(ContractError::OverflowError);
        },
    };
    let den = match s34.checked_sub(d) {
        Some(v) => v,
        None => {
            return Err(ContractError::OverflowError);
        },
    };
    if den == 0 {
        return Err(ContractError::DivideByZeroError);
    }
    let w = crate::math::wide_mul(s12, d);
    proof {
        lemma_fundamental_div_mod((s12 as int) * (d as int), den as int);
        assert((w.0 >= den) == ((s12 as int) * (d as int) / (den as int) > u128::MAX as int))
            by (nonlinear_arith)
            requires
                (s12 as int) * (d as int) == w.0 * crate::math::spec_two128() + w.1,
                crate::math::spec_two128() == 0x100000000000000000000000000000000int,
                (s12 as int) * (d as int) == den * ((s12 as int) * (d as int) / (den as int)) + (
                s12 as int) * (d as int) % (den as int),
                0 <= (s12 as int) * (d as int) % (den as int),
                (s12 as int) * (d as int) % (den as int) < den,
                den > 0,
                w.1 <= u128::MAX,
                w.0 <= u128::MAX,
        ;
    }
    if w.0 >= den {
        return Err(ContractError::OverflowError);
    }
    Ok(crate::math::wide_div(w.0, w.1, den))
}

/// Solves the stableswap invariant equation
/// `ann*n^n*sum + D = ann*D*n^n + D^{n+1}/(n^n*prod)` iteratively from
/// `D_0 = sum`, stopping when two successive iterates differ by at most one
/// unit.  Exhausting the iteration budget is reported distinctly as
/// [`ContractError::ConvergeError`]; arithmetic failures keep their own
/// variants.
pub fn compute_d(amp: u64, balances: &Vec<u128>) -> (r: Result<u128, ContractError>)
    requires
        1 <= balances@.len() <= MAX_ASSETS_PER_POOL,
    ensures
        r is Ok <==> spec_d_result(amp as int, balances@) is Some,
        r is Ok ==> Some(r->Ok_0 as int) == spec_d_result(amp as int, balances@),
        (r == Err::<u128, ContractError>(ContractError::ConvergeError)) <==> spec_d_ran_out(
            amp as int,
            balances@,
        ),
        !(r is Ok) ==> (r == Err::<u128, ContractError>(ContractError::OverflowError) || r
            == Err::<u128, ContractError>(ContractError::DivideByZeroError) || r == Err::<
            u128,
            ContractError,
        >(ContractError::ConvergeError)),
{
    let sum = match sum_balances(balances) {
        Ok(s) => s,
        Err(e) => {
            return Err(e);
        },
    };
    if sum == 0 {
        return Ok(0);
    }
    let ghost step = d_step_fn(amp as int, balances@);
    let mut d: u128 = sum;
    let mut i: u64 = 0;
    while i < NEWTON_ITERATIONS
        invariant
            i <= NEWTON_ITERATIONS,
            1 <= balances@.len() <= MAX_ASSETS_PER_POOL,
            sum == spec_sum_u128(balances@),
            sum != 0,
            step == d_step_fn(amp as int, balances@),
            spec_iterate(step, sum as int, i as nat) == Some(d as int),
            forall|j: nat| j < i ==> !spec_converged_at(step, sum as int, j),
        decreases NEWTON_ITERATIONS - i,
    {
        let d_next = match compute_d_step(amp, sum, balances, d) {
            Ok(v) => v,
            Err(e) => {
                proof {
                    assert(step(d as int) == spec_d_step(amp as int, balances@, d as int));
                    assert(spec_iterate(step, sum as int, (i + 1) as nat) is None);
                    lemma_no_conv_from_none(step, sum as int, (i + 1) as nat);
                    assert forall|k: nat|
                        !(k < NEWTON_ITERATIONS as nat && spec_first_conv_at(
                            step,
                            sum as int,
                            k,
                        )) by {
                        if spec_first_conv_at(step, sum as int, k) {
                            assert(spec_converged_at(step, sum as int, k));
                            if k < i as nat {
                            } else {
                                assert(k + 1 >= (i + 1) as nat);
                            }
                        }
                    }
                    assert(spec_iter_result(step, sum as int, NEWTON_ITERATIONS as nat) is None);
                    if spec_iterate(step, sum as int, NEWTON_ITERATIONS as nat) is Some {
                        lemma_iterate_some_mono(
                            step,
                            sum as int,
                            (i + 1) as nat,
                            NEWTON_ITERATIONS as nat,
                        );
                    }
                }
                return Err(e);
            },
        };
        proof {
            assert(step(d as int) == spec_d_step(amp as int, balances@, d as int));
            assert(spec_iterate(step, sum as int, (i + 1) as nat) == Some(d_next as int));
        }
        let converged = if d_next >= d {
            d_next - d <= 1
        } else {
            d - d_next <= 1
        };
        if converged {
            proof {
                assert(spec_converged_at(step, sum as int, i as nat));
                assert(spec_first_conv_at(step, sum as int, i as nat));
                assert((i as nat) < NEWTON_ITERATIONS as nat && spec_first_conv_at(
                    step,
                    sum as int,
                    i as nat,
                ));
                let kk = choose|k: nat|
                    k < NEWTON_ITERATIONS as nat && spec_first_conv_at(step, sum as int, k);
                lemma_first_conv_unique(step, sum as int, kk, i as nat);
                assert(spec_iter_result(step, sum as int, NEWTON_ITERATIONS as nat) == Some(
                    d_next as int,
                ));
            }
            return Ok(d_next);
        }
        proof {
            assert(!spec_converged_at(step, sum as int, i as nat));
        }
        d = d_next;
        i = i + 1;
    }
    proof {
        assert forall|k: nat|
            !(k < NEWTON_ITERATIONS as nat && spec_first_conv_at(step, sum as int, k)) by {
            if k < NEWTON_ITERATIONS as nat && spec_first_conv_at(step, sum as int, k) {
                assert(spec_converged_at(step, sum as int, k));
            }
        }
        assert(spec_iter_result(step, sum as int, NEWTON_ITERATIONS as nat) is None);
        assert(spec_iterate(step, sum as int, NEWTON_ITERATIONS as nat) is Some);
        assert(spec_d_ran_out(amp as int, balances@));
    }
    Err(ContractError::ConvergeError)
}

/// Whether the swap solver walks forward (given the offer amount) or backward
/// (given the desired ask amount).
#[derive(Clone, Copy)]
pub enum StableSwapDirection {
    Simulate,
    ReverseSimulate,
}

/// One Newton step for the unknown balance `y`:
/// `y' = (y*y + c) / (2*y + b - d)`, with `None` exactly where the executable
/// arithmetic fails.
pub open spec fn spec_y_step(c: int, b: int, d: int, y: int) -> Option<int> {
    let num = y * y + c;
    let twoy = 2 * y;
    if twoy > u128::MAX as int {
        Option::None
    } else if twoy + b > u128::MAX as int {
        Option::None
    } else if twoy + b < d {
        Option::None
    } else {
        let den = twoy + b - d;
        if den == 0 {
            Option::None
        } else {
            let q = num / den;
            if q > u128::MAX as int {
                Option::None
            } else {
                Some(q)
            }
        }
    }
}

/// The Newton step for `y`, as a function of the current iterate.
pub open spec fn y_step_fn(c: int, b: int, d: int) -> spec_fn(int) -> Option<int> {
    |y: int| spec_y_step(c, b, d, y)
}

/// The constant term `c = d^3 / (x * n * ann * n)` of the `y` iteration,
/// evaluated with the executable code's nested floor divisions.
pub open spec fn spec_y_c(d: int, x: int, n: int, ann: int) -> Option<int> {
    if x == 0 {
        Option::None
    } else {
        let q0 = (d * d) / x;
        if q0 > u128::MAX as int {
            Option::None
        } else {
            let q1 = q0 / n;
            if ann == 0 {
                Option::None
            } else {
                let q2 = (q1 * d) / ann;
                if q2 > u128::MAX as int {
                    Option::None
                } else {
                    Some(q2 / n)
                }
            }
        }
    }
}

/// The linear term `b = x + d / ann` of the `y` iteration.
pub open spec fn spec_y_b(d: int, x: int, ann: int) -> Option<int> {
    if ann == 0 {
        Option::None
    } else {
        let q = d / ann;
        if x + q > u128::MAX as int {
            Option::None
        } else {
            Some(x + q)
        }
    }
}

/// The new unknown-side balance the `y` solver finds for a swap over the pair
/// `(offer_pool, ask_pool)`: the known side moves by `amount` in the given
/// direction, and Newton's method runs from `y_0 = D`.
pub open spec fn spec_y_full(
    n: int,
    offer_pool: u128,
    ask_pool: u128,
    amount: u128,
    amp: int,
    dir: StableSwapDirection,
) -> Option<int> {
    let bal = seq![offer_pool, ask_pool];
    match spec_d_result(amp, bal) {
        Option::None => Option::None,
        Option::Some(d) => {
            let x = if dir is Simulate {
                offer_pool + amount
            } else {
                ask_pool - amount
            };
            if x < 0 || x > u128::MAX as int {
                Option::None
            } else {
                let ann = amp * spec_self_pow(n as nat);
                match spec_y_c(d, x, n, ann) {
                    Option::None => Option::None,
                    Option::Some(c) => match spec_y_b(d, x, ann) {
                        Option::None => Option::None,
                        Option::Some(b) => spec_iter_result(
                            y_step_fn(c, b, d),
                            d,
                            NEWTON_ITERATIONS as nat,
                        ),
                    },
                }
            }
        },
    }
}

/// Either solver stage survived its full iteration budget without converging.
pub open spec fn spec_y_ran_out(
    n: int,
    offer_pool: u128,
    ask_pool: u128,
    amount: u128,
    amp: int,
    dir: StableSwapDirection,
) -> bool {
    let bal = seq![offer_pool, ask_pool];
    spec_d_ran_out(amp, bal) || (match spec_d_result(amp, bal) {
        Option::None => false,
        Option::Some(d) => {
            let x = if dir is Simulate {
                offer_pool + amount
            } else {
                ask_pool - amount
            };
            if x < 0 || x > u128::MAX as int {
                false
            } else {
                let ann = amp * spec_self_pow(n as nat);
                match spec_y_c(d, x, n, ann) {
                    Option::None => false,
                    Option::Some(c) => match spec_y_b(d, x, ann) {
                        Option::None => false,
                        Option::Some(b) => spec_iterate(
                            y_step_fn(c, b, d),
                            d,
                            NEWTON_ITERATIONS as nat,
                        ) is Some && spec_iter_result(
                            y_step_fn(c, b, d),
                            d,
                            NEWTON_ITERATIONS as nat,
                        ) is None,
                    },
                }
            }
        },
    })
}

/// One executable Newton step for `y`, exactly matching [`spec_y_step`].
fn compute_y_step(c: u128, b: u128, d: u128, y: u128) -> (r: Result<u128, ContractError>)
    ensures
        r is Ok <==> spec_y_step(c as int, b as int, d as int, y as int) is Some,
        r is Ok ==> Some(r->Ok_0 as int) == spec_y_step(c as int, b as int, d as int, y as int),
        !(r is Ok) ==> r == Err::<u128, ContractError>(ContractError::OverflowError) || r
            == Err::<u128, ContractError>(ContractError::DivideByZeroError),
{
    let twoy = match y.checked_mul(2) {
        Some(v) => v,
        None => {
            return Err(ContractError::OverflowError);
        },
    };
    let s = match twoy.checked_add(b) {
        Some(v) => v,
        None => {
            return Err(ContractError::OverflowError);
        },
    };
    let den = match s.checked_sub(d) {
        Some(v) => v,
        None => {
            return Err(ContractError::OverflowError);
        },
    };
    if den == 0 {
        return Err(ContractError::DivideByZeroError);
    }
    // y*y + c as a two-limb value: the carry into the high limb always fits
    let w = crate::math::wide_mul(y, y);
    proof {
        assert(w.0 < u128::MAX) by (nonlinear_arith)
            requires
                (y as int) * (y as int) == w.0 * crate::math::spec_two128() + w.1,
                crate::math::spec_two128() == 0x100000000000000000000000000000000int,
                y <= u128::MAX,
                w.1 >= 0,
                w.0 >= 0,
        ;
    }
    let num_lo: u128;
    let num_hi: u128;
    if c <= u128::MAX - w.1 {
        num_lo = w.1 + c;
        num_hi = w.0;
    } else {
        num_lo = c - (u128::MAX - w.1) - 1;
        num_hi = w.0 + 1;
    }
    proof {
        assert(crate::math::spec_wide(num_hi, num_lo) == (y as int) * (y as int) + c)
            by (nonlinear_arith)
            requires
                (y as int) * (y as int) == w.0 * crate::math::spec_two128() + w.1,
                crate::math::spec_two128() == 0x100000000000000000000000000000000int,
                crate::math::spec_wide(num_hi, num_lo) == num_hi * crate::math::spec_two128()
                    + num_lo,
                (c <= u128::MAX - w.1 && num_lo == w.1 + c && num_hi == w.0) || (c > u128::MAX
                    - w.1 && num_lo == c - (u128::MAX - w.1) - 1 && num_hi == w.0 + 1),
        ;
        lemma_fundamental_div_mod(((y as int) * (y as int) + c) as int, den as int);
        assert((num_hi >= den) == (((y as int) * (y as int) + c) / (den as int)
            > u128::MAX as int)) by (nonlinear_arith)
            requires
                (y as int) * (y as int) + c == num_hi * crate::math::spec_two128() + num_lo,
                crate::math::spec_two128() == 0x100000000000000000000000000000000int,
                (y as int) * (y as int) + c == den * (((y as int) * (y as int) + c) / (
                den as int)) + ((y as int) * (y as int) + c) % (den as int),
                0 <= ((y as int) * (y as int) + c) % (den as int),
                ((y as int) * (y as int) + c) % (den as int) < den,
                den > 0,
                num_lo <= u128::MAX,
                num_hi <= u128::MAX,
        ;
    }
    if num_hi >= den {
        return Err(ContractError::OverflowError);
    }
    Ok(crate::math::wide_div(num_hi, num_lo, den))
}

/// Solves for the unknown balance after a stableswap trade between two
/// balances of an `n_assets` pool: computes the invariant `D` of the pair,
/// moves the known side by `amount` in the given direction, and iterates
/// Newton's method from `y_0 = D` until two successive iterates are within
/// one unit.
pub fn calculate_stableswap_y(
    n_assets: u64,
    offer_pool: u128,
    ask_pool: u128,
    amount: u128,
    amp: u64,
    direction: StableSwapDirection,
) -> (r: Result<u128, ContractError>)
    requires
        2 <= n_assets <= MAX_ASSETS_PER_POOL as u64,
    ensures
        r is Ok <==> spec_y_full(
            n_assets as int,
            offer_pool,
            ask_pool,
            amount,
            amp as int,
            direction,
        ) is Some,
        r is Ok ==> Some(r->Ok_0 as int) == spec_y_full(
            n_assets as int,
            offer_pool,
            ask_pool,
            amount,
            amp as int,
            direction,
        ),
        (r == Err::<u128, ContractError>(ContractError::ConvergeError)) <==> spec_y_ran_out(
            n_assets as int,
            offer_pool,
            ask_pool,
            amount,
            amp as int,
            direction,
        ),
        !(r is Ok) ==> (r == Err::<u128, ContractError>(ContractError::OverflowError) || r
            == Err::<u128, ContractError>(ContractError::DivideByZeroError) || r == Err::<
            u128,
            ContractError,
        >(ContractError::ConvergeError)),
{
    let mut pools: Vec<u128> = Vec::new();
    pools.push(offer_pool);
    pools.push(ask_pool);
    proof {
        assert(pools@ =~= seq![offer_pool, ask_pool]);
    }
    let d = match compute_d(amp, &pools) {
        Ok(v) => v,
        Err(e) => {
            return Err(e);
        },
    };
    let x = match direction {
        StableSwapDirection::Simulate => {
            match offer_pool.checked_add(amount) {
                Some(v) => v,
                None => {
                    return Err(ContractError::OverflowError);
                },
            }
        },
        StableSwapDirection::ReverseSimulate => {
            match ask_pool.checked_sub(amount) {
                Some(v) => v,
                None => {
                    return Err(ContractError::OverflowError);
                },
            }
        },
    };
    let nn = self_pow(n_assets as usize);
    proof {
        assert((amp as int) * (nn as int) <= u128::MAX as int) by (nonlinear_arith)
            requires
                amp <= u64::MAX,
                0 <= nn <= 256,
        ;
    }
    let ann: u128 = (amp as u128) * nn;
    let n_u: u128 = n_assets as u128;

    if x == 0 {
        return Err(ContractError::DivideByZeroError);
    }
    let w0 = crate::math::wide_mul(d, d);
    proof {
        lemma_fundamental_div_mod((d as int) * (d as int), x as int);
        assert((w0.0 >= x) == ((d as int) * (d as int) / (x as int) > u128::MAX as int))
            by (nonlinear_arith)
            requires
                (d as int) * (d as int) == w0.0 * crate::math::spec_two128() + w0.1,
                crate::math::spec_two128() == 0x100000000000000000000000000000000int,
                (d as int) * (d as int) == x * ((d as int) * (d as int) / (x as int)) + (
                d as int) * (d as int) % (x as int),
                0 <= (d as int) * (d as int) % (x as int),
                (d as int) * (d as int) % (x as int) < x,
                x > 0,
                w0.1 <= u128::MAX,
                w0.0 <= u128::MAX,
        ;
    }
    if w0.0 >= x {
        return Err(ContractError::OverflowError);
    }
    let q0 = crate::math::wide_div(w0.0, w0.1, x);
    let q1 = q0 / n_u;
    if ann == 0 {
        return Err(ContractError::DivideByZeroError);
    }
    let w1 = crate::math::wide_mul(q1, d);
    proof {
        lemma_fundamental_div_mod((q1 as int) * (d as int), ann as int);
        assert((w1.0 >= ann) == ((q1 as int) * (d as int) / (ann as int) > u128::MAX as int))
            by (nonlinear_arith)
            requires
                (q1 as int) * (d as int) == w1.0 * crate::math::spec_two128() + w1.1,
                crate::math::spec_two128() == 0x100000000000000000000000000000000int,
                (q1 as int) * (d as int) == ann * ((q1 as int) * (d as int) / (ann as int)) + (
                q1 as int) * (d as int) % (ann as int),
                0 <= (q1 as int) * (d as int) % (ann as int),
                (q1 as int) * (d as int) % (ann as int) < ann,
                ann > 0,
                w1.1 <= u128::MAX,
                w1.0 <= u128::MAX,
        ;
    }
    if w1.0 >= ann {
        return Err(ContractError::OverflowError);
    }
    let q2 = crate::math::wide_div(w1.0, w1.1, ann);
    let c = q2 / n_u;
    let q = d / ann;
    let b = match x.checked_add(q) {
        Some(v) => v,
        None => {
            return Err(ContractError::OverflowError);
        },
    };

    let ghost step = y_step_fn(c as int, b as int, d as int);
    let mut y: u128 = d;
    let mut i: u64 = 0;
    while i < NEWTON_ITERATIONS
        invariant
            i <= NEWTON_ITERATIONS,
            step == y_step_fn(c as int, b as int, d as int),
            spec_iterate(step, d as int, i as nat) == Some(y as int),
            forall|j: nat| j < i ==> !spec_converged_at(step, d as int, j),
            spec_y_full(
                n_assets as int,
                offer_pool,
                ask_pool,
                amount,
                amp as int,
                direction,
            ) == spec_iter_result(step, d as int, NEWTON_ITERATIONS as nat),
            !spec_d_ran_out(amp as int, seq![offer_pool, ask_pool]),
            spec_y_ran_out(n_assets as int, offer_pool, ask_pool, amount, amp as int, direction)
                <==> (spec_iterate(step, d as int, NEWTON_ITERATIONS as nat) is Some
                && spec_iter_result(step, d as int, NEWTON_ITERATIONS as nat) is None),
        decreases NEWTON_ITERATIONS - i,
    {
        let y_next = match compute_y_step(c, b, d, y) {
            Ok(v) => v,
            Err(e) => {
                proof {
                    assert(step(y as int) == spec_y_step(c as int, b as int, d as int, y as int));
                    assert(spec_iterate(step, d as int, (i + 1) as nat) is None);
                    lemma_no_conv_from_none(step, d as int, (i + 1) as nat);
                    assert forall|k: nat|
                        !(k < NEWTON_ITERATIONS as nat && spec_first_conv_at(step, d as int, k)) by {
                        if spec_first_conv_at(step, d as int, k) {
                            assert(spec_converged_at(step, d as int, k));
                            if k < i as nat {
                            } else {
                                assert(k + 1 >= (i + 1) as nat);
                            }
                        }
                    }
                    assert(spec_iter_result(step, d as int, NEWTON_ITERATIONS as nat) is None);
                    if spec_iterate(step, d as int, NEWTON_ITERATIONS as nat) is Some {
                        lemma_iterate_some_mono(
                            step,
                            d as int,
                            (i + 1) as nat,
                            NEWTON_ITERATIONS as nat,
                        );
                    }
                }
                return Err(e);
            },
        };
        proof {
            assert(step(y as int) == spec_y_step(c as int, b as int, d as int, y as int));
            assert(spec_iterate(step, d as int, (i + 1) as nat) == Some(y_next as int));
        }
        let converged = if y_next >= y {
            y_next - y <= 1
        } else {
            y - y_next <= 1
        };
        if converged {
            proof {
                assert(spec_converged_at(step, d as int, i as nat));
                assert(spec_first_conv_at(step, d as int, i as nat));
                assert((i as nat) < NEWTON_ITERATIONS as nat && spec_first_conv_at(
                    step,
                    d as int,
                    i as nat,
                ));
                let kk = choose|k: nat|
                    k < NEWTON_ITERATIONS as nat && spec_first_conv_at(step, d as int, k);
                lemma_first_conv_unique(step, d as int, kk, i as nat);
                assert(spec_iter_result(step, d as int, NEWTON_ITERATIONS as nat) == Some(
                    y_next as int,
                ));
            }
            return Ok(y_next);
        }
        proof {
            assert(!spec_converged_at(step, d as int, i as nat));
        }
        y = y_next;
        i = i + 1;
    }
    proof {
        assert forall|k: nat|
            !(k < NEWTON_ITERATIONS as nat && spec_first_conv_at(step, d as int, k)) by {
            if k < NEWTON_ITERATIONS as nat && spec_first_conv_at(step, d as int, k) {
                assert(spec_converged_at(step, d as int, k));
            }
        }
        assert(spec_iter_result(step, d as int, NEWTON_ITERATIONS as nat) is None);
        assert(spec_iterate(step, d as int, NEWTON_ITERATIONS as nat) is Some);
    }
    Err(ContractError::ConvergeError)
}

/// Extracts the plain amounts of a sequence of assets.
pub fn asset_amounts(assets: &Vec<Asset>) -> (r: Vec<u128>)
    ensures
        r@ == assets@.map_values(|a: Asset| a.amount),
{
    let mut r: Vec<u128> = Vec::new();
    let mut i: usize = 0;
    while i < assets.len()
        invariant
            i <= assets@.len(),
            r@ == assets@.take(i as int).map_values(|a: Asset| a.amount),
        decreases assets@.len() - i,
    {
        r.push(assets[i].amount);
        proof {
            assert(r@ =~= assets@.take(i + 1).map_values(|a: Asset| a.amount));
        }
        i = i + 1;
    }
    proof {
        assert(assets@.take(assets@.len() as int) =~= assets@);
    }
    r
}

/// LP shares to mint for a stableswap deposit: `total_share * (D_after -
/// D_before) / D_before`, floor-rounded; `None` when the deposit does not
/// strictly grow the invariant.
pub fn compute_lp_mint_amount_for_stableswap_deposit(
    amp: u64,
    balances_before: &Vec<u128>,
    balances_after: &Vec<u128>,
    total_share: u128,
) -> (r: Result<Option<u128>, ContractError>)
    requires
        1 <= balances_before@.len() <= MAX_ASSETS_PER_POOL,
        1 <= balances_after@.len() <= MAX_ASSETS_PER_POOL,
    ensures
        r is Ok ==> spec_d_result(amp as int, balances_before@) is Some && spec_d_result(
            amp as int,
            balances_after@,
        ) is Some,
        (r matches Ok(o) && o is None) <==> (spec_d_result(amp as int, balances_before@) is Some
            && spec_d_result(amp as int, balances_after@) is Some && spec_d_result(
            amp as int,
            balances_after@,
        )->0 <= spec_d_result(amp as int, balances_before@)->0),
        r matches Ok(o) ==> (o matches Some(m) ==> ({
            let db = spec_d_result(amp as int, balances_before@)->0;
            let da = spec_d_result(amp as int, balances_after@)->0;
            da > db && db > 0 && m == spec_mul_div_floor(total_share as int, da - db, db)
        })),
        ({
            let db = spec_d_result(amp as int, balances_before@);
            let da = spec_d_result(amp as int, balances_after@);
            db is Some && da is Some && (da->0 > db->0 ==> (db->0 > 0 && spec_mul_div_floor(
                total_share as int,
                da->0 - db->0,
                db->0,
            ) <= u128::MAX))
        }) ==> r is Ok,
{
    let d_before = match compute_d(amp, balances_before) {
        Ok(v) => v,
        Err(e) => {
            return Err(e);
        },
    };
    let d_after = match compute_d(amp, balances_after) {
        Ok(v) => v,
        Err(e) => {
            return Err(e);
        },
    };
    if d_after <= d_before {
        return Ok(None);
    }
    let minted = match mul_div_floor(total_share, d_after - d_before, d_before) {
        Ok(v) => v,
        Err(e) => {
            return Err(e);
        },
    };
    Ok(Some(minted))
}

} // verus!
