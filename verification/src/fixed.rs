use vstd::prelude::*;

verus! {

/// Number of fixed-point ticks in one world unit. One grid cell (one
/// particle diameter) spans `SCALE` ticks.
pub const SCALE: i64 = 65536;

/// Truncated (round-toward-zero) division by a positive divisor: the
/// rounding that every fixed-point operation of this crate uses.
pub open spec fn tdiv(a: int, d: int) -> int
    recommends
        d >= 1,
{
    if a >= 0 {
        a / d
    } else {
        -((-a) / d)
    }
}

/// Saturation of a mathematical integer into the `i64` range: a result
/// out of range pins to the nearest representable value.
pub open spec fn clip(x: int) -> int {
    if x < i64::MIN as int {
        i64::MIN as int
    } else if x > i64::MAX as int {
        i64::MAX as int
    } else {
        x
    }
}

/// The saturated value, as an `i64` term: the specification-level mirror
/// of the saturating executable operations.
pub open spec fn to64(x: int) -> i64 {
    clip(x) as i64
}

/// `to64` really is `clip`: the saturated value is always in range.
pub broadcast proof fn lemma_to64(x: int)
    ensures
        (#[trigger] to64(x)) as int == clip(x),
{
}

/// Saturate a 128-bit intermediate into `i64`.
pub fn clip_i128(x: i128) -> (r: i64)
    ensures
        r as int == clip(x as int),
{
    if x < i64::MIN as i128 {
        i64::MIN
    } else if x > i64::MAX as i128 {
        i64::MAX
    } else {
        x as i64
    }
}

/// Saturating addition.
pub fn sat_add(a: i64, b: i64) -> (r: i64)
    ensures
        r as int == clip(a as int + b as int),
{
    clip_i128(a as i128 + b as i128)
}

/// Saturating subtraction.
pub fn sat_sub(a: i64, b: i64) -> (r: i64)
    ensures
        r as int == clip(a as int - b as int),
{
    clip_i128(a as i128 - b as i128)
}

/// The magnitude of an `i64`, widened so that `i64::MIN` is representable.
fn abs_u128(x: i64) -> (r: u128)
    ensures
        r as int == if x >= 0 {
            x as int
        } else {
            -(x as int)
        },
{
    if x >= 0 {
        x as u128
    } else {
        (-(x as i128)) as u128
    }
}

/// `clip(tdiv(a * b, d))`: the exact product, divided with rounding toward
/// zero, then saturated. This is the one primitive behind every fixed-point
/// multiplication and division of the simulation.
pub fn mul_div(a: i64, b: i64, d: i64) -> (r: i64)
    requires
        d >= 1,
    ensures
        r as int == clip(tdiv(a as int * b as int, d as int)),
{
    let neg: bool = (a < 0) != (b < 0);
    let am = abs_u128(a);
    let bm = abs_u128(b);
    proof {
        assert(am * bm <= 0x8000_0000_0000_0000u128 * 0x8000_0000_0000_0000u128)
            by (nonlinear_arith)
            requires
                am <= 0x8000_0000_0000_0000u128,
                bm <= 0x8000_0000_0000_0000u128,
        ;
        assert(am as int * bm as int == if a as int * b as int >= 0 {
            a as int * b as int
        } else {
            -(a as int * b as int)
        }) by (nonlinear_arith)
            requires
                am as int == if a as int >= 0 {
                    a as int
                } else {
                    -(a as int)
                },
                bm as int == if b as int >= 0 {
                    b as int
                } else {
                    -(b as int)
                },
        ;
    }
    let p: u128 = am * bm;
    let q: u128 = p / (d as u128);
    proof {
        assert(q as int == (p as int) / (d as int));
        assert(p as int / d as int <= p as int) by (nonlinear_arith)
            requires
                p as int >= 0,
                d as int >= 1,
        ;
    }
    if neg || q == 0 {
        // The exact product is `<= 0` here, so the result is `-q`, saturated.
        proof {
            let pab = (a as int) * (b as int);
            if pab >= 0 {
                if neg {
                    // Opposite signs make the product non-positive, so it is zero.
                    assert((a as int) * (b as int) <= 0) by (nonlinear_arith)
                        requires
                            ((a as int) < 0) != ((b as int) < 0),
                    ;
                }
                assert(q == 0);
                assert(tdiv(pab, d as int) == -(q as int));
            } else {
                assert(tdiv(pab, d as int) == -(q as int));
            }
        }
        if q >= 0x8000_0000_0000_0000u128 {
            i64::MIN
        } else {
            -(q as i64)
        }
    } else {
        proof {
            let pab = (a as int) * (b as int);
            // Equal signs make the product non-negative.
            assert((a as int) * (b as int) >= 0) by (nonlinear_arith)
                requires
                    !(((a as int) < 0) != ((b as int) < 0)),
            ;
            assert(tdiv(pab, d as int) == q as int);
        }
        if q > i64::MAX as u128 {
            i64::MAX
        } else {
            q as i64
        }
    }
}

/// Truncated division of an `i64` by a positive divisor; the quotient is
/// never larger in magnitude than `a`, so no saturation is needed.
pub fn div_trunc(a: i64, d: i64) -> (r: i64)
    requires
        d >= 1,
    ensures
        r as int == tdiv(a as int, d as int),
{
    proof {
        lemma_tdiv_in_bounds(a as int, d as int);
        lemma_tdiv_mul_one(a as int, d as int);
    }
    mul_div(a, 1, d)
}

proof fn lemma_tdiv_mul_one(a: int, d: int)
    requires
        d >= 1,
    ensures
        tdiv(a * 1, d) == tdiv(a, d),
{
    assert(a * 1 == a) by (nonlinear_arith);
}

/// Truncated division shrinks the magnitude, so it stays in the `i64` range.
pub proof fn lemma_tdiv_in_bounds(a: int, d: int)
    requires
        d >= 1,
        i64::MIN <= a <= i64::MAX,
    ensures
        a >= 0 ==> 0 <= tdiv(a, d) <= a,
        a < 0 ==> a <= tdiv(a, d) <= 0,
        clip(tdiv(a, d)) == tdiv(a, d),
{
    if a >= 0 {
        assert(0 <= a / d <= a) by (nonlinear_arith)
            requires
                a >= 0,
                d >= 1,
        ;
    } else {
        assert(0 <= (-a) / d <= -a) by (nonlinear_arith)
            requires
                -a >= 0,
                d >= 1,
        ;
    }
}

/// The integer square root, at the specification level: the greatest `r`
/// with `r * r <= n`.
pub open spec fn sqrt_of(n: int) -> int
    recommends
        n >= 0,
    decreases n,
{
    if n <= 0 {
        0
    } else {
        let r = sqrt_of(n - 1);
        if (r + 1) * (r + 1) <= n {
            r + 1
        } else {
            r
        }
    }
}

pub proof fn lemma_sqrt_of_bounds(n: int)
    requires
        n >= 0,
    ensures
        0 <= sqrt_of(n),
        sqrt_of(n) * sqrt_of(n) <= n,
        n < (sqrt_of(n) + 1) * (sqrt_of(n) + 1),
    decreases n,
{
    if n == 0 {
    } else {
        lemma_sqrt_of_bounds(n - 1);
        let r = sqrt_of(n - 1);
        if (r + 1) * (r + 1) <= n {
            assert((r + 1) * (r + 1) + 1 <= (r + 2) * (r + 2)) by (nonlinear_arith)
                requires
                    r >= 0,
            ;
        }
    }
}

/// The integer square root is pinned down by its bracketing property.
pub proof fn lemma_sqrt_of_unique(n: int, r: int)
    requires
        n >= 0,
        r >= 0,
        r * r <= n,
        n < (r + 1) * (r + 1),
    ensures
        r == sqrt_of(n),
{
    lemma_sqrt_of_bounds(n);
    let s = sqrt_of(n);
    if r < s {
        assert((r + 1) * (r + 1) <= s * s) by (nonlinear_arith)
            requires
                0 <= r + 1 <= s,
        ;
        assert(false);
    } else if s < r {
        assert((s + 1) * (s + 1) <= r * r) by (nonlinear_arith)
            requires
                0 <= s + 1 <= r,
        ;
        assert(false);
    }
}

/// The integer square root of a `u64`, by bisection.
pub fn isqrt(n: u64) -> (r: u64)
    ensures
        r as int == sqrt_of(n as int),
        r as int * r as int <= n as int,
        (n as int) < (r as int + 1) * (r as int + 1),
{
    let mut lo: u64 = 0;
    let mut hi: u64 = 0x1_0000_0000;
    proof {
        assert((n as int) < 0x1_0000_0000 * 0x1_0000_0000);
    }
    while lo + 1 < hi
        invariant
            lo < hi,
            hi <= 0x1_0000_0000,
            lo as int * lo as int <= n as int,
            (n as int) < (hi as int) * (hi as int),
        decreases hi - lo,
    {
        let mid: u64 = lo + (hi - lo) / 2;
        proof {
            assert((mid as int) * (mid as int) <= 0x1_0000_0000 * 0x1_0000_0000)
                by (nonlinear_arith)
                requires
                    0 <= mid as int <= 0x1_0000_0000,
            ;
        }
        let sq: u128 = (mid as u128) * (mid as u128);
        if sq <= n as u128 {
            lo = mid;
        } else {
            hi = mid;
        }
    }
    proof {
        lemma_sqrt_of_unique(n as int, lo as int);
    }
    lo
}

} // verus!
