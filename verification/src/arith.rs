use vstd::prelude::*;

verus! {

/// Fixed-point scale shared by every fractional quantity in the library:
/// a stored value `v` stands for the real number `v / SCALE`
/// (four decimal digits of precision).
pub const SCALE: i64 = 10_000;

/// Largest magnitude accepted for a fixed-point amount carried by an input
/// row (profit, holding time, drawdown).  Keeping per-row amounts within
/// this bound lets every cohort sum fit in an `i64` and every squared
/// deviation fit in an `i128`.
pub const AMOUNT_LIMIT: i64 = 1_000_000_000_000;

/// Largest number of input rows one aggregation accepts; together with
/// `AMOUNT_LIMIT` it keeps all sums representable in an `i64`.
pub const MAX_INPUT_ROWS: usize = 1_000_000;

/// Profit factor reported for a cohort with no losing month: the fixed
/// constant 999 as a fixed-point value.
pub const NO_LOSS_PROFIT_FACTOR: i64 = 9_990_000;

/// Division rounding toward zero, the rounding of `/` on signed machine
/// integers (`int` division in specifications is Euclidean, which differs
/// on negative dividends).
pub open spec fn div_trunc(a: int, b: int) -> int
    recommends
        b > 0,
{
    if a >= 0 {
        a / b
    } else {
        -((-a) / b)
    }
}

/// Magnitude of an integer.
pub open spec fn abs_of(a: int) -> int {
    if a >= 0 {
        a
    } else {
        -a
    }
}

/// Truncating division keeps the dividend's sign, and its magnitude is
/// the Euclidean quotient of the magnitudes.
pub proof fn lemma_div_trunc_props(a: int, b: int)
    requires
        b > 0,
    ensures
        abs_of(div_trunc(a, b)) == abs_of(a) / b,
        a >= 0 ==> div_trunc(a, b) >= 0,
        a <= 0 ==> div_trunc(a, b) <= 0,
        abs_of(div_trunc(a, b)) <= abs_of(a),
{
    if a >= 0 {
        vstd::arithmetic::div_mod::lemma_div_pos_is_pos(a, b);
        vstd::arithmetic::div_mod::lemma_div_nonincreasing(a, b);
    } else {
        vstd::arithmetic::div_mod::lemma_div_pos_is_pos(-a, b);
        vstd::arithmetic::div_mod::lemma_div_nonincreasing(-a, b);
    }
}

/// A mean stays within the per-item bound: if `|a| <= n * l` then
/// `|a / n| <= l` (division truncating).
pub proof fn lemma_div_trunc_mean_bound(a: int, n: int, l: int)
    requires
        n > 0,
        0 <= l,
        abs_of(a) <= n * l,
    ensures
        abs_of(div_trunc(a, n)) <= l,
{
    lemma_div_trunc_props(a, n);
    vstd::arithmetic::div_mod::lemma_div_is_ordered(abs_of(a), n * l, n);
    vstd::arithmetic::div_mod::lemma_div_by_multiple(l, n);
    assert(n * l == l * n) by (nonlinear_arith);
}

/// Truncating signed division on 64-bit values.
pub fn div_trunc_i64(a: i64, b: i64) -> (r: i64)
    requires
        b > 0,
        a > i64::MIN,
    ensures
        r as int == div_trunc(a as int, b as int),
{
    if a >= 0 {
        let q = (a as u64) / (b as u64);
        q as i64
    } else {
        let q = ((-a) as u64) / (b as u64);
        -(q as i64)
    }
}

/// Truncating signed division on 128-bit values.
pub fn div_trunc_i128(a: i128, b: i128) -> (r: i128)
    requires
        b > 0,
        a > i128::MIN,
    ensures
        r as int == div_trunc(a as int, b as int),
{
    if a >= 0 {
        let q = (a as u128) / (b as u128);
        q as i128
    } else {
        let q = ((-a) as u128) / (b as u128);
        -(q as i128)
    }
}

/// The integer square root: the largest `r` with `r * r <= x`.
pub open spec fn isqrt_spec(x: nat) -> nat
    decreases x,
{
    if x == 0 {
        0
    } else {
        let p = isqrt_spec((x - 1) as nat);
        if (p + 1) * (p + 1) <= x {
            p + 1
        } else {
            p
        }
    }
}

pub proof fn lemma_isqrt_bounds(x: nat)
    ensures
        isqrt_spec(x) * isqrt_spec(x) <= x,
        x < (isqrt_spec(x) + 1) * (isqrt_spec(x) + 1),
    decreases x,
{
    if x > 0 {
        lemma_isqrt_bounds((x - 1) as nat);
        let p = isqrt_spec((x - 1) as nat);
        assert(p * p <= x - 1);
        assert(x - 1 < (p + 1) * (p + 1));
        if (p + 1) * (p + 1) <= x {
            assert(isqrt_spec(x) == p + 1);
            assert(x < (p + 2) * (p + 2)) by (nonlinear_arith)
                requires
                    x <= (p + 1) * (p + 1),
                    p >= 0,
            ;
            assert((isqrt_spec(x) + 1) * (isqrt_spec(x) + 1) == (p + 2) * (p + 2));
            assert(x < (isqrt_spec(x) + 1) * (isqrt_spec(x) + 1));
        } else {
            assert(isqrt_spec(x) == p);
            assert(x < (isqrt_spec(x) + 1) * (isqrt_spec(x) + 1));
        }
    } else {
        assert(x == 0);
        assert(isqrt_spec(x) == 0);
        assert(x < (isqrt_spec(x) + 1) * (isqrt_spec(x) + 1)) by (nonlinear_arith)
            requires
                x == 0,
                isqrt_spec(x) == 0,
        ;
    }
}

pub proof fn lemma_isqrt_unique(x: nat, r: nat)
    requires
        r * r <= x,
        x < (r + 1) * (r + 1),
    ensures
        r == isqrt_spec(x),
{
    lemma_isqrt_bounds(x);
    let q = isqrt_spec(x);
    if r < q {
        assert((r + 1) * (r + 1) <= q * q) by (nonlinear_arith)
            requires
                r + 1 <= q,
                r >= 0,
        ;
    }
    if q < r {
        assert((q + 1) * (q + 1) <= r * r) by (nonlinear_arith)
            requires
                q + 1 <= r,
                q >= 0,
        ;
    }
}

/// Integer square root by binary search; large enough for every variance
/// the aggregator can produce.
pub fn isqrt_u128(x: u128) -> (r: u64)
    requires
        x <= 4_000_000_000_000_000_000_000_000,
    ensures
        r as nat == isqrt_spec(x as nat),
        (r as int) * (r as int) <= x as int,
        (x as int) < (r as int + 1) * (r as int + 1),
{
    let mut lo: u64 = 0;
    let mut hi: u64 = 2_000_000_000_001;
    assert((hi as int) * (hi as int) > x as int);
    while lo + 1 < hi
        invariant
            lo < hi,
            hi <= 2_000_000_000_001,
            (lo as int) * (lo as int) <= x as int,
            (x as int) < (hi as int) * (hi as int),
        decreases hi - lo,
    {
        let mid = lo + (hi - lo) / 2;
        assert((mid as int) * (mid as int) <= 2_000_000_000_001 * 2_000_000_000_001)
            by (nonlinear_arith)
            requires
                0 <= mid as int <= 2_000_000_000_001,
        ;
        if (mid as u128) * (mid as u128) <= x {
            lo = mid;
        } else {
            hi = mid;
        }
    }
    proof {
        lemma_isqrt_unique(x as nat, lo as nat);
    }
    lo
}

} // verus!
