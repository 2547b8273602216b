//! Integer fixed-point arithmetic shared by the curve math engine: two-limb
//! 256-bit products with exact floor and ceiling division (so balance-level
//! products never overflow), powers of ten for precision normalization, the
//! integer square root, fee application, and the summation model of asset
//! sequences.

use vstd::prelude::*;
use vstd::arithmetic::div_mod::{
    lemma_div_is_ordered, lemma_div_multiples_vanish, lemma_div_pos_is_pos,
    lemma_fundamental_div_mod,
};
use vstd::arithmetic::mul::{lemma_mul_inequality, lemma_mul_is_distributive_add};

use crate::error::ContractError;
use crate::model::{spec_fee_shares_sum, Asset, Fee, PoolFees, FEE_SCALE, MAX_DECIMALS};

verus! {

/// `floor(a * b / d)` over the unbounded integers.
pub open spec fn spec_mul_div_floor(a: int, b: int, d: int) -> int {
    (a * b) / d
}

/// `ceil(x / d)` over the unbounded integers, for `d > 0`.
pub open spec fn spec_div_ceil(x: int, d: int) -> int {
    if x % d == 0 {
        x / d
    } else {
        x / d + 1
    }
}

/// `ceil(a * b / d)` over the unbounded integers.
pub open spec fn spec_mul_div_ceil(a: int, b: int, d: int) -> int {
    spec_div_ceil(a * b, d)
}

/// `2^128`, the weight of the high limb of a two-limb value.
pub open spec fn spec_two128() -> int {
    0x100000000000000000000000000000000int
}

/// The value a two-limb (high, low) pair denotes:
/// `high * 2^128 + low`.
pub open spec fn spec_wide(hi: u128, lo: u128) -> int {
    hi * spec_two128() + lo
}

/// The full 256-bit product of two 128-bit amounts, as a (high, low) pair of
/// 128-bit limbs, computed through 64-bit half-products.
pub fn wide_mul(a: u128, b: u128) -> (r: (u128, u128))
    ensures
        spec_wide(r.0, r.1) == a * b,
{
    let two64: u128 = 0x1_0000_0000_0000_0000;
    let ah = a / two64;
    let al = a % two64;
    let bh = b / two64;
    let bl = b % two64;
    proof {
        lemma_fundamental_div_mod(a as int, two64 as int);
        lemma_fundamental_div_mod(b as int, two64 as int);
        assert(ah < two64 && al < two64 && bh < two64 && bl < two64) by (nonlinear_arith)
            requires
                two64 == 0x1_0000_0000_0000_0000u128,
                ah == a as int / two64 as int,
                al == a as int % two64 as int,
                bh == b as int / two64 as int,
                bl == b as int % two64 as int,
                a <= u128::MAX,
                b <= u128::MAX,
        ;
        assert(ah * bh <= u128::MAX && ah * bl <= u128::MAX && al * bh <= u128::MAX && al * bl
            <= u128::MAX) by (nonlinear_arith)
            requires
                ah < 0x1_0000_0000_0000_0000u128,
                al < 0x1_0000_0000_0000_0000u128,
                bh < 0x1_0000_0000_0000_0000u128,
                bl < 0x1_0000_0000_0000_0000u128,
        ;
    }
    let ll = al * bl;
    let lh = al * bh;
    let hl = ah * bl;
    let hh = ah * bh;
    let t = ll / two64 + lh % two64 + hl % two64;
    proof {
        let w64 = two64 as int;
        let w128: int = spec_two128();
        lemma_fundamental_div_mod(ll as int, w64);
        lemma_fundamental_div_mod(lh as int, w64);
        lemma_fundamental_div_mod(hl as int, w64);
        lemma_fundamental_div_mod(t as int, w64);
        lemma_div_pos_is_pos(ll as int, w64);
        lemma_div_pos_is_pos(lh as int, w64);
        lemma_div_pos_is_pos(hl as int, w64);
        lemma_div_pos_is_pos(t as int, w64);
        let lo_g: int = (t as int % w64) * w64 + ll as int % w64;
        let hi_g: int = hh + lh as int / w64 + hl as int / w64 + t as int / w64;
        assert(hi_g * w128 + lo_g == a * b) by (nonlinear_arith)
            requires
                w64 == 0x1_0000_0000_0000_0000,
                w128 == w64 * w64,
                a == ah * w64 + al,
                b == bh * w64 + bl,
                ll == al * bl,
                lh == al * bh,
                hl == ah * bl,
                hh == ah * bh,
                ll == w64 * (ll as int / w64) + ll as int % w64,
                lh == w64 * (lh as int / w64) + lh as int % w64,
                hl == w64 * (hl as int / w64) + hl as int % w64,
                t == w64 * (t as int / w64) + t as int % w64,
                t == ll as int / w64 + lh as int % w64 + hl as int % w64,
                lo_g == (t as int % w64) * w64 + ll as int % w64,
                hi_g == hh + lh as int / w64 + hl as int / w64 + t as int / w64,
        ;
        assert(0 <= lo_g && lo_g <= u128::MAX) by (nonlinear_arith)
            requires
                w64 == 0x1_0000_0000_0000_0000,
                lo_g == (t as int % w64) * w64 + ll as int % w64,
                0 <= t as int % w64 < w64,
                0 <= ll as int % w64 < w64,
        ;
        // the high limb fits because the whole product does not reach 2^256
        assert(0 <= hi_g && hi_g <= u128::MAX) by (nonlinear_arith)
            requires
                w128 == spec_two128(),
                hi_g * w128 + lo_g == a * b,
                lo_g >= 0,
                hi_g >= 0,
                a <= u128::MAX,
                b <= u128::MAX,
        ;
    }
    let lo = (t % two64) * two64 + ll % two64;
    let hi = hh + lh / two64 + hl / two64 + t / two64;
    (hi, lo)
}

/// `floor((hi * 2^128 + lo) / d)`, by binary search on the quotient; defined
/// whenever the quotient fits in 128 bits, which is exactly `hi < d`.
pub fn wide_div(n_hi: u128, n_lo: u128, d: u128) -> (q: u128)
    requires
        d > 0,
        n_hi < d,
    ensures
        q == spec_wide(n_hi, n_lo) / d as int,
{
    let ghost n = spec_wide(n_hi, n_lo);
    proof {
        assert(0 <= n && n < d * spec_two128()) by (nonlinear_arith)
            requires
                n == n_hi * spec_two128() + n_lo,
                n_hi < d,
                n_lo <= u128::MAX,
        ;
    }
    let mut lo: u128 = 0;
    let mut hi: u128 = u128::MAX;
    while lo < hi
        invariant
            lo <= hi,
            n == spec_wide(n_hi, n_lo),
            d > 0,
            lo * d <= n,
            n < (hi + 1) * d,
        decreases hi - lo,
    {
        let mid = lo + (hi - lo) / 2 + 1;
        let p = wide_mul(mid, d);
        let le = p.0 < n_hi || (p.0 == n_hi && p.1 <= n_lo);
        proof {
            assert(le == (spec_wide(p.0, p.1) <= n)) by (nonlinear_arith)
                requires
                    n == n_hi * spec_two128() + n_lo,
                    spec_wide(p.0, p.1) == p.0 * spec_two128() + p.1,
                    le == (p.0 < n_hi || (p.0 == n_hi && p.1 <= n_lo)),
                    n_lo <= u128::MAX,
                    p.1 <= u128::MAX,
            ;
        }
        if le {
            lo = mid;
        } else {
            hi = mid - 1;
        }
    }
    proof {
        lemma_fundamental_div_mod(n, d as int);
        assert(n / d as int == lo) by (nonlinear_arith)
            requires
                n == d * (n / d as int) + n % (d as int),
                0 <= n % (d as int),
                n % (d as int) < d,
                d > 0,
                lo * d <= n,
                n < (lo + 1) * d,
        ;
    }
    lo
}

/// Floor of the square root of the full product `a * b`, which always exists
/// as a 128-bit amount.
pub fn isqrt_prod(a: u128, b: u128) -> (r: u128)
    ensures
        is_isqrt(a * b, r as int),
        r == spec_isqrt(a * b),
{
    let p = wide_mul(a, b);
    let ghost n = (a * b) as int;
    let mut lo: u128 = 0;
    let mut hi: u128 = u128::MAX;
    proof {
        assert(n < (hi + 1) * (hi + 1)) by (nonlinear_arith)
            requires
                n == a * b,
                a <= u128::MAX,
                b <= u128::MAX,
                hi == u128::MAX,
        ;
    }
    while lo < hi
        invariant
            lo <= hi,
            n == a * b,
            spec_wide(p.0, p.1) == n,
            lo * lo <= n,
            n < (hi + 1) * (hi + 1),
        decreases hi - lo,
    {
        let mid = lo + (hi - lo) / 2 + 1;
        let s = wide_mul(mid, mid);
        let le = s.0 < p.0 || (s.0 == p.0 && s.1 <= p.1);
        proof {
            assert(le == (spec_wide(s.0, s.1) <= n)) by (nonlinear_arith)
                requires
                    n == p.0 * spec_two128() + p.1,
                    spec_wide(s.0, s.1) == s.0 * spec_two128() + s.1,
                    le == (s.0 < p.0 || (s.0 == p.0 && s.1 <= p.1)),
                    p.1 <= u128::MAX,
                    s.1 <= u128::MAX,
            ;
        }
        if le {
            lo = mid;
        } else {
            hi = mid - 1;
        }
    }
    proof {
        assert(is_isqrt(n, lo as int));
        let w = spec_isqrt(n);
        assert(is_isqrt(n, w));
        lemma_isqrt_unique(n, lo as int, w);
    }
    lo
}

/// `floor(a * b / d)` with a full 256-bit intermediate product, failing
/// exactly on a zero divisor or a quotient beyond 128 bits.
pub fn mul_div_floor(a: u128, b: u128, d: u128) -> (r: Result<u128, ContractError>)
    ensures
        r is Ok <==> d != 0 && spec_mul_div_floor(a as int, b as int, d as int) <= u128::MAX,
        r is Ok ==> r->Ok_0 == spec_mul_div_floor(a as int, b as int, d as int),
        d == 0 ==> r == Err::<u128, ContractError>(ContractError::DivideByZeroError),
        !(r is Ok) && d != 0 ==> r == Err::<u128, ContractError>(ContractError::OverflowError),
{
    if d == 0 {
        return Err(ContractError::DivideByZeroError);
    }
    let p = wide_mul(a, b);
    proof {
        lemma_fundamental_div_mod((a * b) as int, d as int);
        assert((p.0 >= d) == (a * b / (d as int) > u128::MAX)) by (nonlinear_arith)
            requires
                a * b == p.0 * spec_two128() + p.1,
                a * b == d * (a * b / (d as int)) + a * b % (d as int),
                0 <= a * b % (d as int),
                a * b % (d as int) < d,
                d > 0,
                p.1 <= u128::MAX,
                p.0 <= u128::MAX,
        ;
    }
    if p.0 >= d {
        return Err(ContractError::OverflowError);
    }
    Ok(wide_div(p.0, p.1, d))
}

/// `ceil(a * b / d)` with a full 256-bit intermediate product, failing
/// exactly on a zero divisor or a ceiling beyond 128 bits.
pub fn mul_div_ceil(a: u128, b: u128, d: u128) -> (r: Result<u128, ContractError>)
    ensures
        r is Ok <==> d != 0 && spec_mul_div_ceil(a as int, b as int, d as int) <= u128::MAX,
        r is Ok ==> r->Ok_0 == spec_mul_div_ceil(a as int, b as int, d as int),
        d == 0 ==> r == Err::<u128, ContractError>(ContractError::DivideByZeroError),
        !(r is Ok) && d != 0 ==> r == Err::<u128, ContractError>(ContractError::OverflowError),
{
    if d == 0 {
        return Err(ContractError::DivideByZeroError);
    }
    let p = wide_mul(a, b);
    proof {
        lemma_fundamental_div_mod((a * b) as int, d as int);
        assert((p.0 >= d) == (a * b / (d as int) > u128::MAX)) by (nonlinear_arith)
            requires
                a * b == p.0 * spec_two128() + p.1,
                a * b == d * (a * b / (d as int)) + a * b % (d as int),
                0 <= a * b % (d as int),
                a * b % (d as int) < d,
                d > 0,
                p.1 <= u128::MAX,
                p.0 <= u128::MAX,
        ;
    }
    if p.0 >= d {
        return Err(ContractError::OverflowError);
    }
    let q = wide_div(p.0, p.1, d);
    let back = wide_mul(q, d);
    let exact = back.0 == p.0 && back.1 == p.1;
    proof {
        lemma_fundamental_div_mod((a * b) as int, d as int);
        assert(exact == (a * b % (d as int) == 0)) by (nonlinear_arith)
            requires
                a * b == p.0 * spec_two128() + p.1,
                q * d == back.0 * spec_two128() + back.1,
                q == a * b / (d as int),
                a * b == d * (a * b / (d as int)) + a * b % (d as int),
                0 <= a * b % (d as int),
                a * b % (d as int) < d,
                exact == (back.0 == p.0 && back.1 == p.1),
                p.1 <= u128::MAX,
                back.1 <= u128::MAX,
        ;
    }
    if exact {
        Ok(q)
    } else {
        if q == u128::MAX {
            return Err(ContractError::OverflowError);
        }
        Ok(q + 1)
    }
}

/// `10^exp` over the unbounded integers.
pub open spec fn spec_pow10(exp: nat) -> int
    decreases exp,
{
    if exp == 0 {
        1
    } else {
        10 * spec_pow10((exp - 1) as nat)
    }
}

/// `10^e` grows with `e`.
pub proof fn lemma_pow10_monotone(e1: nat, e2: nat)
    requires
        e1 <= e2,
    ensures
        1 <= spec_pow10(e1) <= spec_pow10(e2),
    decreases e2 - e1,
{
    if e1 == e2 {
        lemma_pow10_positive(e1);
    } else {
        lemma_pow10_monotone(e1, (e2 - 1) as nat);
    }
}

/// `10^e` is at least 1.
pub proof fn lemma_pow10_positive(e: nat)
    ensures
        spec_pow10(e) >= 1,
    decreases e,
{
    if e > 0 {
        lemma_pow10_positive((e - 1) as nat);
    }
}

/// `10^18` is the fee scale.
pub proof fn lemma_pow10_18()
    ensures
        spec_pow10(18) == FEE_SCALE,
{
    reveal_with_fuel(spec_pow10, 19);
}

/// `10^exp` for exponents up to [`MAX_DECIMALS`]; used to bring amounts of
/// different decimal precision to a common scale.
pub fn pow10(exp: u8) -> (r: u128)
    requires
        exp <= MAX_DECIMALS,
    ensures
        r == spec_pow10(exp as nat),
        1 <= r <= FEE_SCALE,
{
    proof {
        lemma_pow10_18();
    }
    let mut r: u128 = 1;
    let mut i: u8 = 0;
    while i < exp
        invariant
            i <= exp <= MAX_DECIMALS,
            r == spec_pow10(i as nat),
        decreases exp - i,
    {
        proof {
            lemma_pow10_monotone((i + 1) as nat, 18);
            lemma_pow10_18();
        }
        r = r * 10;
        i = i + 1;
    }
    proof {
        lemma_pow10_monotone(exp as nat, 18);
        lemma_pow10_positive(exp as nat);
    }
    r
}

/// `r` is the integer square root of `n`.
pub open spec fn is_isqrt(n: int, r: int) -> bool {
    &&& 0 <= r
    &&& r * r <= n
    &&& n < (r + 1) * (r + 1)
}

/// The integer square root of `n`, as the unique witness of [`is_isqrt`].
pub open spec fn spec_isqrt(n: int) -> int {
    choose|r: int| is_isqrt(n, r)
}

/// The integer square root is unique.
pub proof fn lemma_isqrt_unique(n: int, r1: int, r2: int)
    requires
        is_isqrt(n, r1),
        is_isqrt(n, r2),
    ensures
        r1 == r2,
{
    if r1 < r2 {
        lemma_mul_inequality(r1 + 1, r2, r1 + 1);
        lemma_mul_inequality(r1 + 1, r2, r2);
    }
    if r2 < r1 {
        lemma_mul_inequality(r2 + 1, r1, r2 + 1);
        lemma_mul_inequality(r2 + 1, r1, r1);
    }
}

/// Floor of the square root of `n`: the unique `r` with
/// `r * r <= n < (r + 1) * (r + 1)`.
pub fn isqrt(n: u128) -> (r: u128)
    ensures
        is_isqrt(n as int, r as int),
        r == spec_isqrt(n as int),
{
    let mut lo: u128 = 0;
    let mut hi: u128 = 0x1_0000_0000_0000_0000;
    proof {
        assert((hi as int) * (hi as int) > n as int) by (nonlinear_arith)
            requires
                hi == 0x1_0000_0000_0000_0000u128,
                n <= u128::MAX,
        ;
    }
    while lo + 1 < hi
        invariant
            lo < hi <= 0x1_0000_0000_0000_0000u128,
            (lo as int) * (lo as int) <= n as int,
            n < (hi as int) * (hi as int),
        decreases hi - lo,
    {
        let mid = lo + (hi - lo) / 2;
        proof {
            assert((mid as int) * (mid as int) <= u128::MAX as int) by (nonlinear_arith)
                requires
                    mid < 0x1_0000_0000_0000_0000u128,
            ;
        }
        if mid * mid <= n {
            lo = mid;
        } else {
            hi = mid;
        }
    }
    proof {
        assert(is_isqrt(n as int, lo as int));
        let w = spec_isqrt(n as int);
        assert(is_isqrt(n as int, w));
        lemma_isqrt_unique(n as int, lo as int, w);
    }
    lo
}

/// The fee amount a ratio takes from `amount`: `floor(amount * share / FEE_SCALE)`.
pub open spec fn spec_fee_amount(amount: int, share: int) -> int {
    (amount * share) / (FEE_SCALE as int)
}

/// A valid ratio never takes more than the whole amount.
pub proof fn lemma_fee_amount_le(amount: int, share: int)
    requires
        0 <= amount,
        0 <= share <= FEE_SCALE,
    ensures
        0 <= spec_fee_amount(amount, share) <= amount,
{
    lemma_mul_inequality(share, FEE_SCALE as int, amount);
    assert(amount * share == share * amount) by (nonlinear_arith);
    assert(amount * FEE_SCALE == FEE_SCALE * amount) by (nonlinear_arith);
    lemma_div_is_ordered(amount * share, amount * (FEE_SCALE as int), FEE_SCALE as int);
    lemma_div_multiples_vanish(amount, FEE_SCALE as int);
    assert(amount * share >= 0) by (nonlinear_arith)
        requires
            amount >= 0,
            share >= 0,
    ;
}

impl Fee {
    /// Applies the ratio to `amount`, rounding down so the pool is favored.
    /// A valid ratio never fails: its fee is at most the amount itself.
    pub fn compute(&self, amount: u128) -> (r: Result<u128, ContractError>)
        ensures
            r is Ok <==> spec_fee_amount(amount as int, self.share as int) <= u128::MAX,
            r is Ok ==> r->Ok_0 == spec_fee_amount(amount as int, self.share as int),
            r is Ok && self.valid() ==> r->Ok_0 <= amount,
            self.valid() ==> r is Ok,
            !(r is Ok) ==> r == Err::<u128, ContractError>(ContractError::OverflowError),
    {
        let r = mul_div_floor(amount, self.share, FEE_SCALE);
        proof {
            if self.valid() {
                lemma_fee_amount_le(amount as int, self.share as int);
            }
        }
        r
    }
}

/// Floor division distributes over addition with a loss of at most one unit
/// per summand: the sum of the quotients never exceeds the quotient of the sum.
pub proof fn lemma_div_sum_ge(a: int, b: int, d: int)
    requires
        0 <= a,
        0 <= b,
        0 < d,
    ensures
        a / d + b / d <= (a + b) / d,
{
    lemma_fundamental_div_mod(a, d);
    lemma_fundamental_div_mod(b, d);
    assert(d * (a / d) + d * (b / d) == d * (a / d + b / d)) by (nonlinear_arith);
    lemma_div_pos_is_pos(a, d);
    lemma_div_pos_is_pos(b, d);
    assert(a % d >= 0 && b % d >= 0);
    lemma_div_is_ordered(d * (a / d + b / d), a + b, d);
    lemma_div_multiples_vanish(a / d + b / d, d);
}

/// Charging two ratios separately never takes more than charging their sum.
pub proof fn lemma_fee_split(g: int, s1: int, s2: int)
    requires
        0 <= g,
        0 <= s1,
        0 <= s2,
    ensures
        spec_fee_amount(g, s1) + spec_fee_amount(g, s2) <= spec_fee_amount(g, s1 + s2),
{
    lemma_mul_is_distributive_add(g, s1, s2);
    assert(g * s1 >= 0 && g * s2 >= 0) by (nonlinear_arith)
        requires
            g >= 0,
            s1 >= 0,
            s2 >= 0,
    ;
    lemma_div_sum_ge(g * s1, g * s2, FEE_SCALE as int);
}

/// A larger ratio takes at least as much.
pub proof fn lemma_fee_monotone_share(g: int, s1: int, s2: int)
    requires
        0 <= g,
        0 <= s1 <= s2,
    ensures
        spec_fee_amount(g, s1) <= spec_fee_amount(g, s2),
{
    lemma_mul_inequality(s1, s2, g);
    assert(s1 * g == g * s1 && s2 * g == g * s2) by (nonlinear_arith);
    lemma_div_is_ordered(g * s1, g * s2, FEE_SCALE as int);
}

/// The fee amount of a non-negative ratio is non-negative.
pub proof fn lemma_fee_amount_nonneg(g: int, s: int)
    requires
        0 <= g,
        0 <= s,
    ensures
        0 <= spec_fee_amount(g, s),
{
    assert(g * s >= 0) by (nonlinear_arith)
        requires
            g >= 0,
            s >= 0,
    ;
    lemma_div_pos_is_pos(g * s, FEE_SCALE as int);
}

/// A sum of fee shares is never negative.
pub proof fn lemma_fee_shares_sum_nonneg(fees: Seq<Fee>)
    ensures
        spec_fee_shares_sum(fees) >= 0,
    decreases fees.len(),
{
    if fees.len() > 0 {
        lemma_fee_shares_sum_nonneg(fees.drop_last());
    }
}

/// Extending a prefix of fees by one element adds that element's share.
pub proof fn lemma_fee_shares_sum_take_next(fees: Seq<Fee>, i: int)
    requires
        0 <= i < fees.len(),
    ensures
        spec_fee_shares_sum(fees.take(i + 1)) == spec_fee_shares_sum(fees.take(i))
            + fees[i].share,
{
    assert(fees.take(i + 1).drop_last() =~= fees.take(i));
    assert(fees.take(i + 1).last() == fees[i]);
}

/// The whole fee sequence is its own full prefix.
pub proof fn lemma_fee_shares_sum_take_all(fees: Seq<Fee>)
    ensures
        spec_fee_shares_sum(fees.take(fees.len() as int)) == spec_fee_shares_sum(fees),
{
    assert(fees.take(fees.len() as int) =~= fees);
}

/// Any prefix of fee shares sums to at most the whole.
pub proof fn lemma_fee_shares_prefix_le(fees: Seq<Fee>, i: int)
    requires
        0 <= i <= fees.len(),
    ensures
        spec_fee_shares_sum(fees.take(i)) <= spec_fee_shares_sum(fees),
    decreases fees.len() - i,
{
    if i == fees.len() {
        lemma_fee_shares_sum_take_all(fees);
    } else {
        lemma_fee_shares_sum_take_next(fees, i);
        lemma_fee_shares_prefix_le(fees, i + 1);
    }
}

/// Sum of the fee amounts an ordered list of extra ratios takes from `g`.
pub open spec fn spec_extra_fees_amount(g: int, fees: Seq<Fee>) -> int
    decreases fees.len(),
{
    if fees.len() == 0 {
        0
    } else {
        spec_extra_fees_amount(g, fees.drop_last()) + spec_fee_amount(g, fees.last().share as int)
    }
}

/// Extending a prefix of extra fees by one element adds its fee amount.
pub proof fn lemma_extra_fees_take_next(g: int, fees: Seq<Fee>, i: int)
    requires
        0 <= i < fees.len(),
    ensures
        spec_extra_fees_amount(g, fees.take(i + 1)) == spec_extra_fees_amount(g, fees.take(i))
            + spec_fee_amount(g, fees[i].share as int),
{
    assert(fees.take(i + 1).drop_last() =~= fees.take(i));
    assert(fees.take(i + 1).last() == fees[i]);
}

/// The whole extra-fee sequence is its own full prefix.
pub proof fn lemma_extra_fees_take_all(g: int, fees: Seq<Fee>)
    ensures
        spec_extra_fees_amount(g, fees.take(fees.len() as int)) == spec_extra_fees_amount(g, fees),
{
    assert(fees.take(fees.len() as int) =~= fees);
}

/// Separate floor-rounded extra fees never take more than one fee at the sum
/// of their ratios, and never a negative amount.
pub proof fn lemma_extra_fees_le(g: int, fees: Seq<Fee>)
    requires
        0 <= g,
    ensures
        0 <= spec_extra_fees_amount(g, fees) <= spec_fee_amount(g, spec_fee_shares_sum(fees)),
    decreases fees.len(),
{
    lemma_fee_shares_sum_nonneg(fees);
    if fees.len() == 0 {
        lemma_fee_amount_nonneg(g, spec_fee_shares_sum(fees));
    } else {
        lemma_extra_fees_le(g, fees.drop_last());
        lemma_fee_amount_nonneg(g, fees.last().share as int);
        lemma_fee_shares_sum_nonneg(fees.drop_last());
        lemma_fee_split(g, spec_fee_shares_sum(fees.drop_last()), fees.last().share as int);
    }
}

/// Total fee amount of one swap: the three named ratios plus all extra ratios,
/// each floor-rounded separately.
pub open spec fn spec_total_fee_amount(g: int, fees: PoolFees) -> int {
    spec_fee_amount(g, fees.swap_fee.share as int) + spec_fee_amount(
        g,
        fees.protocol_fee.share as int,
    ) + spec_fee_amount(g, fees.burn_fee.share as int) + spec_extra_fees_amount(
        g,
        fees.extra_fees@,
    )
}

/// With a valid fee configuration the fees never exceed the gross amount they
/// are taken from.
pub proof fn lemma_total_fee_le(g: int, fees: PoolFees)
    requires
        0 <= g,
        fees.valid(),
    ensures
        0 <= spec_total_fee_amount(g, fees) <= spec_fee_amount(g, fees.spec_total_shares()),
        spec_total_fee_amount(g, fees) <= g,
{
    let sw = fees.swap_fee.share as int;
    let pr = fees.protocol_fee.share as int;
    let bu = fees.burn_fee.share as int;
    let ex = spec_fee_shares_sum(fees.extra_fees@);
    lemma_fee_shares_sum_nonneg(fees.extra_fees@);
    lemma_fee_amount_nonneg(g, sw);
    lemma_fee_amount_nonneg(g, pr);
    lemma_fee_amount_nonneg(g, bu);
    lemma_extra_fees_le(g, fees.extra_fees@);
    lemma_fee_split(g, sw, pr);
    lemma_fee_split(g, sw + pr, bu);
    lemma_fee_split(g, sw + pr + bu, ex);
    lemma_fee_amount_le(g, fees.spec_total_shares());
}

/// Sum of a sequence of amounts.
pub open spec fn spec_sum_u128(s: Seq<u128>) -> int
    decreases s.len(),
{
    if s.len() == 0 {
        0
    } else {
        spec_sum_u128(s.drop_last()) + s.last()
    }
}

/// Extending a prefix by one element adds that element.
pub proof fn lemma_sum_u128_take_next(s: Seq<u128>, i: int)
    requires
        0 <= i < s.len(),
    ensures
        spec_sum_u128(s.take(i + 1)) == spec_sum_u128(s.take(i)) + s[i],
{
    assert(s.take(i + 1).drop_last() =~= s.take(i));
    assert(s.take(i + 1).last() == s[i]);
}

/// The whole sequence is its own full prefix.
pub proof fn lemma_sum_u128_take_all(s: Seq<u128>)
    ensures
        spec_sum_u128(s.take(s.len() as int)) == spec_sum_u128(s),
{
    assert(s.take(s.len() as int) =~= s);
}

/// Sum of the amounts of a sequence of assets.
pub open spec fn spec_sum_amounts(s: Seq<Asset>) -> int
    decreases s.len(),
{
    if s.len() == 0 {
        0
    } else {
        spec_sum_amounts(s.drop_last()) + s.last().amount
    }
}

/// Extending a prefix by one element adds that element's amount.
pub proof fn lemma_sum_amounts_take_next(s: Seq<Asset>, i: int)
    requires
        0 <= i < s.len(),
    ensures
        spec_sum_amounts(s.take(i + 1)) == spec_sum_amounts(s.take(i)) + s[i].amount,
{
    assert(s.take(i + 1).drop_last() =~= s.take(i));
    assert(s.take(i + 1).last() == s[i]);
}

/// The whole sequence is its own full prefix.
pub proof fn lemma_sum_amounts_take_all(s: Seq<Asset>)
    ensures
        spec_sum_amounts(s.take(s.len() as int)) == spec_sum_amounts(s),
{
    assert(s.take(s.len() as int) =~= s);
}

/// Replacing the amount at one index changes the sum by the difference.
pub proof fn lemma_sum_amounts_update(s: Seq<Asset>, i: int, a: Asset)
    requires
        0 <= i < s.len(),
    ensures
        spec_sum_amounts(s.update(i, a)) == spec_sum_amounts(s) + a.amount - s[i].amount,
    decreases s.len(),
{
    let t = s.update(i, a);
    if i == s.len() - 1 {
        assert(t.drop_last() =~= s.drop_last());
        assert(t.last() == a);
    } else {
        assert(t.drop_last() =~= s.drop_last().update(i, a));
        assert(t.last() == s.last());
        lemma_sum_amounts_update(s.drop_last(), i, a);
    }
}

/// Total amount a sequence of assets carries under one denomination.
pub open spec fn spec_denom_amount(s: Seq<Asset>, denom: Seq<char>) -> int
    decreases s.len(),
{
    if s.len() == 0 {
        0
    } else {
        spec_denom_amount(s.drop_last(), denom) + (if s.last().denom@ == denom {
            s.last().amount as int
        } else {
            0
        })
    }
}

/// A per-denomination total is never negative.
pub proof fn lemma_denom_amount_nonneg(s: Seq<Asset>, denom: Seq<char>)
    ensures
        spec_denom_amount(s, denom) >= 0,
    decreases s.len(),
{
    if s.len() > 0 {
        lemma_denom_amount_nonneg(s.drop_last(), denom);
    }
}

/// Extending a prefix by one element adds its contribution to the
/// denomination's total.
pub proof fn lemma_denom_amount_take_next(s: Seq<Asset>, denom: Seq<char>, i: int)
    requires
        0 <= i < s.len(),
    ensures
        spec_denom_amount(s.take(i + 1), denom) == spec_denom_amount(s.take(i), denom) + (if s[
            i
        ].denom@ == denom {
            s[i].amount as int
        } else {
            0
        }),
{
    assert(s.take(i + 1).drop_last() =~= s.take(i));
    assert(s.take(i + 1).last() == s[i]);
}

/// The whole sequence is its own full prefix.
pub proof fn lemma_denom_amount_take_all(s: Seq<Asset>, denom: Seq<char>)
    ensures
        spec_denom_amount(s.take(s.len() as int), denom) == spec_denom_amount(s, denom),
{
    assert(s.take(s.len() as int) =~= s);
}

/// Appending one element adds its contribution to the denomination's total.
pub proof fn lemma_denom_amount_push(s: Seq<Asset>, denom: Seq<char>, a: Asset)
    ensures
        spec_denom_amount(s.push(a), denom) == spec_denom_amount(s, denom) + (if a.denom@ == denom {
            a.amount as int
        } else {
            0
        }),
{
    assert(s.push(a).drop_last() =~= s);
    assert(s.push(a).last() == a);
}

/// Replacing one element changes the denomination's total by the difference
/// of the two contributions.
pub proof fn lemma_denom_amount_update(s: Seq<Asset>, denom: Seq<char>, i: int, a: Asset)
    requires
        0 <= i < s.len(),
    ensures
        spec_denom_amount(s.update(i, a), denom) == spec_denom_amount(s, denom) + (if a.denom@
            == denom {
            a.amount as int
        } else {
            0
        }) - (if s[i].denom@ == denom {
            s[i].amount as int
        } else {
            0
        }),
    decreases s.len(),
{
    let t = s.update(i, a);
    if i == s.len() - 1 {
        assert(t.drop_last() =~= s.drop_last());
        assert(t.last() == a);
    } else {
        assert(t.drop_last() =~= s.drop_last().update(i, a));
        assert(t.last() == s.last());
        lemma_denom_amount_update(s.drop_last(), denom, i, a);
    }
}

/// A denomination no asset bears has a total of zero.
pub proof fn lemma_denom_amount_absent(s: Seq<Asset>, denom: Seq<char>)
    requires
        forall|i: int| 0 <= i < s.len() ==> s[i].denom@ != denom,
    ensures
        spec_denom_amount(s, denom) == 0,
    decreases s.len(),
{
    if s.len() > 0 {
        lemma_denom_amount_absent(s.drop_last(), denom);
    }
}

/// Under unique denominations, a denomination's total is exactly the amount
/// of the one asset bearing it.
pub proof fn lemma_denom_amount_unique_at(s: Seq<Asset>, denom: Seq<char>, j: int)
    requires
        crate::model::spec_denoms_unique(s),
        0 <= j < s.len(),
        s[j].denom@ == denom,
    ensures
        spec_denom_amount(s, denom) == s[j].amount,
    decreases s.len(),
{
    if j == s.len() - 1 {
        assert(forall|i: int| 0 <= i < s.drop_last().len() ==> s.drop_last()[i].denom@ != denom);
        lemma_denom_amount_absent(s.drop_last(), denom);
    } else {
        assert(s.last().denom@ != denom);
        lemma_denom_amount_unique_at(s.drop_last(), denom, j);
    }
}

/// A prefix never carries more of a denomination than the whole sequence.
pub proof fn lemma_denom_amount_prefix_le(s: Seq<Asset>, denom: Seq<char>, i: int)
    requires
        0 <= i <= s.len(),
    ensures
        spec_denom_amount(s.take(i), denom) <= spec_denom_amount(s, denom),
    decreases s.len() - i,
{
    if i == s.len() {
        lemma_denom_amount_take_all(s, denom);
    } else {
        lemma_denom_amount_take_next(s, denom, i);
        lemma_denom_amount_prefix_le(s, denom, i + 1);
    }
}

} // verus!
