//! Fixed-point arithmetic.
//!
//! Every quantity of this library is a signed 64-bit integer that counts
//! millionths: the real number `x` is held as `x * SCALE`, rounded down.
//! Products are formed exactly in 128 bits and a quotient is always the floor
//! of the exact rational quotient, so each operation loses less than one
//! millionth and its result is fixed by its arguments alone.
use vstd::arithmetic::div_mod::{lemma_fundamental_div_mod, lemma_fundamental_div_mod_converse};
use vstd::prelude::*;

verus! {

/// How many units of the fixed-point representation make up one.
pub const SCALE: i64 = 1_000_000;

/// Whether a mathematical integer can be held in a fixed-point value.
pub open spec fn fits(x: int) -> bool {
    i64::MIN <= x <= i64::MAX
}

/// Whether a mathematical integer can be held in a 128-bit intermediate and
/// negated there.
pub open spec fn wide(x: int) -> bool {
    -i128::MAX <= x <= i128::MAX
}

/// The floor of the rational `n / d`, for any sign of `d` but zero.
pub open spec fn floor_div(n: int, d: int) -> int {
    if d > 0 {
        n / d
    } else {
        (-n) / (-d)
    }
}

/// The floor of `n / d` as a fixed-point value: absent when `d` is zero or
/// when the quotient cannot be held.
pub open spec fn ratio(n: int, d: int) -> Option<int> {
    if d != 0 && fits(floor_div(n, d)) {
        Some(floor_div(n, d))
    } else {
        None
    }
}

/// `r` is the floor of the square root of `n`.
pub open spec fn is_floor_sqrt(n: int, r: int) -> bool {
    0 <= r && r * r <= n < (r + 1) * (r + 1)
}

/// `r` is the floor of the cube root of `n`.
pub open spec fn is_floor_cbrt(n: int, r: int) -> bool {
    0 <= r && r * r * r <= n < (r + 1) * (r + 1) * (r + 1)
}

/// The floor of the square root of a natural number.
pub open spec fn floor_sqrt(n: int) -> int {
    choose|r: int| is_floor_sqrt(n, r)
}

/// The floor of the cube root of a natural number.
pub open spec fn floor_cbrt(n: int) -> int {
    choose|r: int| is_floor_cbrt(n, r)
}

/// The floor quotient is the one integer `q` with `q * d <= n < (q + 1) * d`.
pub proof fn lemma_floor_div_bounds(n: int, d: int)
    requires
        d > 0,
    ensures
        floor_div(n, d) * d <= n < (floor_div(n, d) + 1) * d,
{
    lemma_fundamental_div_mod(n, d);
    assert(d * (n / d) == (n / d) * d) by (nonlinear_arith);
    assert((n / d + 1) * d == (n / d) * d + d) by (nonlinear_arith);
}

/// Any integer `q` with `q * d <= n < (q + 1) * d` is the floor quotient.
pub proof fn lemma_floor_div_unique(n: int, d: int, q: int)
    requires
        d > 0,
        q * d <= n < (q + 1) * d,
    ensures
        floor_div(n, d) == q,
{
    let r: int = n - q * d;
    assert((q + 1) * d == q * d + d) by (nonlinear_arith);
    lemma_fundamental_div_mod_converse(n, d, q, r);
}

/// Dividing a product by one of its factors gives the other.
pub proof fn lemma_floor_div_cancel(a: int, b: int)
    requires
        a != 0,
    ensures
        floor_div(a * b, a) == b,
{
    if a > 0 {
        assert(b * a == a * b && (b + 1) * a == a * b + a) by (nonlinear_arith);
        lemma_floor_div_unique(a * b, a, b);
    } else {
        assert(b * (-a) == -(a * b) && (b + 1) * (-a) == -(a * b) - a) by (nonlinear_arith);
        lemma_floor_div_unique(-(a * b), -a, b);
    }
}

/// Squaring is monotone on the natural numbers.
pub proof fn lemma_square_monotone(a: int, b: int)
    requires
        0 <= a <= b,
    ensures
        a * a <= b * b,
{
    assert(a * a <= b * b) by (nonlinear_arith)
        requires
            0 <= a <= b,
    ;
}

/// Cubing is monotone on the natural numbers.
pub proof fn lemma_cube_monotone(a: int, b: int)
    requires
        0 <= a <= b,
    ensures
        a * a * a <= b * b * b,
{
    lemma_square_monotone(a, b);
    assert(a * a * a <= b * b * b) by (nonlinear_arith)
        requires
            0 <= a <= b,
            0 <= a * a <= b * b,
    ;
}

/// Every natural number has a floor square root.
pub proof fn lemma_floor_sqrt_exists(n: int)
    requires
        0 <= n,
    ensures
        is_floor_sqrt(n, floor_sqrt(n)),
    decreases n,
{
    if n == 0 {
        assert(is_floor_sqrt(0, 0));
    } else {
        lemma_floor_sqrt_exists(n - 1);
        let r: int = floor_sqrt(n - 1);
        if (r + 1) * (r + 1) <= n {
            assert((r + 2) * (r + 2) > (r + 1) * (r + 1)) by (nonlinear_arith)
                requires
                    r >= 0,
            ;
            assert(is_floor_sqrt(n, r + 1));
        } else {
            assert(is_floor_sqrt(n, r));
        }
    }
}

/// Every natural number has a floor cube root.
pub proof fn lemma_floor_cbrt_exists(n: int)
    requires
        0 <= n,
    ensures
        is_floor_cbrt(n, floor_cbrt(n)),
    decreases n,
{
    if n == 0 {
        assert(is_floor_cbrt(0, 0));
    } else {
        lemma_floor_cbrt_exists(n - 1);
        let r: int = floor_cbrt(n - 1);
        if (r + 1) * (r + 1) * (r + 1) <= n {
            assert((r + 2) * (r + 2) * (r + 2) > (r + 1) * (r + 1) * (r + 1)) by (nonlinear_arith)
                requires
                    r >= 0,
            ;
            assert(is_floor_cbrt(n, r + 1));
        } else {
            assert(is_floor_cbrt(n, r));
        }
    }
}

/// The floor square root of a number is no less than any natural number
/// whose square the number reaches.
pub proof fn lemma_floor_sqrt_at_least(n: int, a: int)
    requires
        0 <= a,
        a * a <= n,
    ensures
        a <= floor_sqrt(n),
{
    assert(0 <= a * a) by (nonlinear_arith);
    lemma_floor_sqrt_exists(n);
    let r: int = floor_sqrt(n);
    if r < a {
        lemma_square_monotone(r + 1, a);
    }
}

/// A natural number has at most one floor square root.
pub proof fn lemma_floor_sqrt_unique(n: int, r: int)
    requires
        is_floor_sqrt(n, r),
    ensures
        floor_sqrt(n) == r,
{
    let s: int = floor_sqrt(n);
    assert(is_floor_sqrt(n, s));
    if s < r {
        lemma_square_monotone(s + 1, r);
    } else if r < s {
        lemma_square_monotone(r + 1, s);
    }
}

/// A natural number has at most one floor cube root.
pub proof fn lemma_floor_cbrt_unique(n: int, r: int)
    requires
        is_floor_cbrt(n, r),
    ensures
        floor_cbrt(n) == r,
{
    let s: int = floor_cbrt(n);
    assert(is_floor_cbrt(n, s));
    if s < r {
        lemma_cube_monotone(s + 1, r);
    } else if r < s {
        lemma_cube_monotone(r + 1, s);
    }
}

/// The product of two integers is bounded by the product of their bounds.
pub proof fn lemma_mul_bound(a: int, b: int, ka: int, kb: int)
    requires
        -ka <= a <= ka,
        -kb <= b <= kb,
    ensures
        -(ka * kb) <= a * b <= ka * kb,
{
    assert(-(ka * kb) <= a * b <= ka * kb) by (nonlinear_arith)
        requires
            -ka <= a <= ka,
            -kb <= b <= kb,
    ;
}

/// The floor of `n / d`.
pub fn div_floor(n: i128, d: i128) -> (q: i128)
    requires
        d != 0,
        wide(n as int),
        wide(d as int),
    ensures
        q == floor_div(n as int, d as int),
{
    let a: i128 = if d < 0 {
        -n
    } else {
        n
    };
    let b: i128 = if d < 0 {
        -d
    } else {
        d
    };
    assert(floor_div(n as int, d as int) == (a as int) / (b as int));
    if a >= 0 {
        a / b
    } else {
        let m: i128 = -a;
        let q: i128 = m / b;
        let r: i128 = m % b;
        proof {
            lemma_fundamental_div_mod(m as int, b as int);
            assert((b as int) * (q as int) == (q as int) * (b as int)) by (nonlinear_arith);
            if r == 0 {
                assert((-(q as int)) * (b as int) == -((q as int) * (b as int)))
                    by (nonlinear_arith);
                lemma_fundamental_div_mod_converse(a as int, b as int, -(q as int), 0);
            } else {
                assert((-(q as int) - 1) * (b as int) == -((q as int) * (b as int)) - (b as int))
                    by (nonlinear_arith);
                lemma_fundamental_div_mod_converse(
                    a as int,
                    b as int,
                    -(q as int) - 1,
                    (b as int) - (r as int),
                );
            }
            assert(q <= m) by (nonlinear_arith)
                requires
                    q == (m as int) / (b as int),
                    m >= 0,
                    b > 0,
            ;
        }
        if r == 0 {
            -q
        } else {
            -q - 1
        }
    }
}

/// The product `a * b`, where 128 bits hold it.
pub fn product(a: i128, b: i128) -> (p: Option<i128>)
    requires
        wide(a as int),
        wide(b as int),
    ensures
        p matches Some(v) ==> v == a * b && wide(a * b),
        p is None ==> !wide(a * b),
{
    if a == 0 || b == 0 {
        assert(a * b == 0) by (nonlinear_arith)
            requires
                a == 0 || b == 0,
        ;
        return Some(0);
    }
    let ma: i128 = if a < 0 {
        -a
    } else {
        a
    };
    let mb: i128 = if b < 0 {
        -b
    } else {
        b
    };
    let most: i128 = i128::MAX / mb;
    proof {
        let mai: int = ma as int;
        let mbi: int = mb as int;
        let qi: int = most as int;
        let top: int = i128::MAX as int;
        lemma_fundamental_div_mod(top, mbi);
        assert((mai <= qi) == (mai * mbi <= top)) by (nonlinear_arith)
            requires
                mbi > 0,
                mbi * qi <= top < mbi * qi + mbi,
        ;
        assert(a * b == mai * mbi || a * b == -(mai * mbi)) by (nonlinear_arith)
            requires
                mai == a || mai == -a,
                mbi == b || mbi == -b,
        ;
        assert(mai * mbi >= 0) by (nonlinear_arith)
            requires
                mai >= 0,
                mbi >= 0,
        ;
        assert(((a < 0) != (b < 0)) ==> a * b == -(mai * mbi)) by (nonlinear_arith)
            requires
                a != 0,
                b != 0,
                mai == (if a < 0 { -a } else { a as int }),
                mbi == (if b < 0 { -b } else { b as int }),
        ;
        assert(((a < 0) == (b < 0)) ==> a * b == mai * mbi) by (nonlinear_arith)
            requires
                a != 0,
                b != 0,
                mai == (if a < 0 { -a } else { a as int }),
                mbi == (if b < 0 { -b } else { b as int }),
        ;
    }
    if ma > most {
        None
    } else {
        let m: i128 = ma * mb;
        if (a < 0) != (b < 0) {
            Some(-m)
        } else {
            Some(m)
        }
    }
}

/// The floor of `n / d` as a fixed-point value, where there is one.
pub fn quotient(n: i128, d: i128) -> (q: Option<i64>)
    requires
        wide(n as int),
        wide(d as int),
    ensures
        q matches Some(v) ==> ratio(n as int, d as int) == Some(v as int),
        q is None ==> ratio(n as int, d as int) is None,
{
    if d == 0 {
        return None;
    }
    let q: i128 = div_floor(n, d);
    if q < i64::MIN as i128 || q > i64::MAX as i128 {
        None
    } else {
        Some(q as i64)
    }
}

/// The floor of the square root of `n`.
pub fn isqrt(n: u128) -> (r: u64)
    ensures
        is_floor_sqrt(n as int, r as int),
        r as int == floor_sqrt(n as int),
{
    let mut lo: u128 = 0;
    let mut hi: u128 = 0x1_0000_0000_0000_0000;
    assert(n < hi * hi) by (nonlinear_arith)
        requires
            hi == 0x1_0000_0000_0000_0000u128,
            n <= u128::MAX,
    ;
    while hi - lo > 1
        invariant
            lo < hi <= 0x1_0000_0000_0000_0000,
            lo * lo <= n < hi * hi,
        decreases hi - lo,
    {
        let mid: u128 = lo + (hi - lo) / 2;
        assert(mid * mid <= u128::MAX) by (nonlinear_arith)
            requires
                0 <= mid < 0x1_0000_0000_0000_0000,
        ;
        if mid * mid <= n {
            lo = mid;
        } else {
            hi = mid;
        }
    }
    proof {
        lemma_floor_sqrt_unique(n as int, lo as int);
    }
    lo as u64
}

/// Whether `m * m * m <= n`, decided without leaving 128 bits.
fn cube_at_most(m: u128, n: u128) -> (b: bool)
    requires
        m < 0x800_0000_0000,
    ensures
        b == (m * m * m <= n),
{
    if m == 0 {
        assert(m * m * m == 0) by (nonlinear_arith)
            requires
                m == 0,
        ;
        return true;
    }
    assert(m * m < 0x40_0000_0000_0000_0000_0000) by (nonlinear_arith)
        requires
            0 <= m < 0x800_0000_0000,
    ;
    let sq: u128 = m * m;
    let q: u128 = n / m;
    proof {
        let mi: int = m as int;
        let ni: int = n as int;
        let si: int = sq as int;
        let qi: int = q as int;
        lemma_fundamental_div_mod(ni, mi);
        assert(mi * qi <= ni < mi * qi + mi);
        assert((si <= qi) == (si * mi <= ni)) by (nonlinear_arith)
            requires
                mi > 0,
                mi * qi <= ni < mi * qi + mi,
        ;
    }
    sq <= q
}

/// The floor of the cube root of `n`.
pub fn icbrt(n: u128) -> (r: u64)
    ensures
        is_floor_cbrt(n as int, r as int),
        r as int == floor_cbrt(n as int),
{
    let mut lo: u128 = 0;
    let mut hi: u128 = 0x800_0000_0000;
    assert(n < hi * hi * hi) by (nonlinear_arith)
        requires
            hi == 0x800_0000_0000u128,
            n <= u128::MAX,
    ;
    assert(lo * lo * lo == 0) by (nonlinear_arith)
        requires
            lo == 0,
    ;
    while hi - lo > 1
        invariant
            lo < hi <= 0x800_0000_0000,
            lo * lo * lo <= n < hi * hi * hi,
        decreases hi - lo,
    {
        let mid: u128 = lo + (hi - lo) / 2;
        if cube_at_most(mid, n) {
            lo = mid;
        } else {
            hi = mid;
        }
    }
    proof {
        lemma_floor_cbrt_unique(n as int, lo as int);
    }
    lo as u64
}

} // verus!
