//! A light that is its own reference.
//!
//! When the test light and the reference illuminant are seen alike, the
//! adaptation maps every chromaticity onto itself and every colour difference
//! vanishes, so that every special index is 100. In fixed-point arithmetic
//! each step may lose a millionth; this module follows those losses through
//! the whole computation and bounds what they can do to an index.
use crate::cri::{
    adapted_of, at_100_of, cri_of, delta_e, index_between_of, index_of, ri_at, ri_of,
    special_index_of, square, white_cd_of, Sighting,
};
use crate::fixed::{
    fits, floor_cbrt, floor_div, floor_sqrt, lemma_cube_monotone, lemma_floor_cbrt_exists,
    lemma_floor_div_bounds, lemma_floor_div_cancel, lemma_floor_div_unique,
    lemma_floor_sqrt_exists, lemma_square_monotone, SCALE,
};
use crate::kries::{cd_of, kries_den, kries_num, uv_kries_of, uv_of_cd};
use crate::xyz::{luv60_of, uv60_of, uvw64_against, uvw64_of, w64_of, XYZ};
use vstd::prelude::*;

verus! {

/// The most that a special index can fall short of 100 when the test light
/// is its own reference, in millionths.
pub const IDENTITY_LOSS: i64 = 13_248;

/// A tristimulus value without negative components and with some luminance
/// has a chromaticity, which lies in the triangle `u >= 0`, `v >= 0`,
/// `u + 10v <= 4`.
pub proof fn lemma_uv60_range(x: int, y: int, z: int)
    requires
        x >= 0,
        y > 0,
        z >= 0,
    ensures
        uv60_of(x, y, z) matches Some(uv) && 0 <= uv.0 && 0 <= uv.1 && uv.0 + 10 * uv.1 <= 4
            * SCALE,
{
    let s: int = SCALE as int;
    let sum: int = x + 15 * y + 3 * z;
    let nu: int = 4 * x * s;
    let nv: int = 6 * y * s;
    let u: int = floor_div(nu, sum);
    let v: int = floor_div(nv, sum);
    lemma_floor_div_bounds(nu, sum);
    lemma_floor_div_bounds(nv, sum);
    assert(nu >= 0 && nv >= 0) by (nonlinear_arith)
        requires
            nu == 4 * x * s,
            nv == 6 * y * s,
            x >= 0,
            y > 0,
            s == 1_000_000,
    ;
    assert(u >= 0) by (nonlinear_arith)
        requires
            (u + 1) * sum > nu,
            nu >= 0,
            sum > 0,
    ;
    assert(v >= 0) by (nonlinear_arith)
        requires
            (v + 1) * sum > nv,
            nv >= 0,
            sum > 0,
    ;
    assert(nu + 10 * nv <= 4 * s * sum) by (nonlinear_arith)
        requires
            nu == 4 * x * s,
            nv == 6 * y * s,
            sum == x + 15 * y + 3 * z,
            z >= 0,
            s == 1_000_000,
    ;
    assert(u + 10 * v <= 4 * s) by (nonlinear_arith)
        requires
            u * sum <= nu,
            v * sum <= nv,
            nu + 10 * nv <= 4 * s * sum,
            sum > 0,
    ;
}

/// Adapting between equal whites is turning the coefficients of the sample
/// back into a chromaticity.
pub proof fn lemma_kries_same_white(ct: int, dt: int, cti: int, dti: int)
    requires
        ct != 0,
        dt != 0,
        fits(cti),
        fits(dti),
    ensures
        uv_kries_of(ct, dt, ct, dt, cti, dti) == uv_of_cd(cti, dti),
{
    lemma_floor_div_cancel(ct, cti);
    lemma_floor_div_cancel(dt, dti);
}

/// A chromaticity of the triangle with some `v` has adaptation coefficients,
/// and turning it into them and back loses at most a millionth in each
/// coordinate, and never adds any.
pub proof fn lemma_cd_round_trip(u: int, v: int)
    requires
        0 <= u,
        1 <= v,
        u + 10 * v <= 4 * SCALE,
    ensures
        cd_of(u, v) matches Some(k) && uv_of_cd(k.0, k.1) matches Some(uva) && u - 1 <= uva.0 <= u
            && v - 1 <= uva.1 <= v,
{
    let s: int = SCALE as int;
    let p: int = 4 * s - u - 10 * v;
    let q: int = 1708 * v - 1481 * u + 404 * s;
    let ps: int = p * s;
    let qs: int = q * s;
    let c: int = floor_div(ps, v);
    let d: int = floor_div(qs, 1000 * v);
    lemma_floor_div_bounds(ps, v);
    lemma_floor_div_bounds(qs, 1000 * v);
    let cv: int = c * v;
    let dv: int = d * v;
    assert(d * (1000 * v) == 1000 * dv && (d + 1) * (1000 * v) == 1000 * dv + 1000 * v)
        by (nonlinear_arith)
        requires
            dv == d * v,
    ;
    assert((c + 1) * v == cv + v) by (nonlinear_arith)
        requires
            cv == c * v,
    ;
    let r1: int = ps - cv;
    let r2: int = qs - 1000 * dv;
    assert(0 <= r1 < v);
    assert(0 <= r2 < 1000 * v);
    let dd: int = kries_den(c, d);
    let nn: int = kries_num(c, d);
    let m: int = dd * v;
    let k: int = nn * v;
    let ss: int = s * s;
    let su: int = s * u;
    let sv: int = s * v;
    assert(ps == 4 * ss - su - 10 * sv && qs == 1708 * sv - 1481 * su + 404 * ss)
        by (nonlinear_arith)
        requires
            ps == p * s,
            qs == q * s,
            p == 4 * s - u - 10 * v,
            q == 1708 * v - 1481 * u + 404 * s,
            ss == s * s,
            su == s * u,
            sv == s * v,
    ;
    assert(m == 16518 * sv + 1481 * cv - 1000 * dv && k == 10872 * sv + 404 * cv - 4000 * dv)
        by (nonlinear_arith)
        requires
            m == dd * v,
            k == nn * v,
            dd == 16518 * s + 1481 * c - 1000 * d,
            nn == 10872 * s + 404 * c - 4000 * d,
            cv == c * v,
            dv == d * v,
            sv == s * v,
    ;
    // The two identities on which the transform rests.
    assert(m == 5520 * ss - 1481 * r1 + r2);
    assert(k == 5520 * su - 404 * r1 + 4 * r2);
    assert(ss == 1_000_000_000_000 && sv == 1_000_000 * v && su == 1_000_000 * u)
        by (nonlinear_arith)
        requires
            ss == s * s,
            sv == s * v,
            su == s * u,
            s == 1_000_000,
    ;
    assert(v <= 400_000);
    assert(0 <= c <= 4_000_000_000_000) by (nonlinear_arith)
        requires
            cv == c * v,
            0 <= cv + r1 <= 4_000_000_000_000,
            0 <= r1 < v,
    ;
    assert(-6_000_000_000_000 <= d <= 6_000_000_000_000) by (nonlinear_arith)
        requires
            dv == d * v,
            -6_000_000_000_000_000 <= 1000 * dv + r2 <= 6_000_000_000_000_000,
            0 <= r2 < 1000 * v,
            v >= 1,
    ;
    assert(cd_of(u, v) == Some((c, d)));
    assert(m > 0);
    assert(dd >= 4_000_000_000) by (nonlinear_arith)
        requires
            m == dd * v,
            m >= 5_520_000_000_000_000 - 1481 * v,
            1 <= v <= 400_000,
    ;
    lemma_floor_div_bounds(nn * s, dd);
    lemma_floor_div_bounds(5520 * s * s, dd);
    let ua: int = floor_div(nn * s, dd);
    let va: int = floor_div(5520 * s * s, dd);
    assert(5520 * s * s == 5520 * ss) by (nonlinear_arith)
        requires
            ss == s * s,
    ;
    // v' is v or one less.
    let ed: int = r2 - 1481 * r1;
    assert(-592_400_000 < ed < 400_000_000);
    assert(va <= v) by (nonlinear_arith)
        requires
            va * dd <= 5520 * ss,
            5520 * ss == dd * v - ed,
            ed > -592_400_000,
            dd >= 4_000_000_000,
    ;
    assert(va >= v - 1) by (nonlinear_arith)
        requires
            (va + 1) * dd > 5520 * ss,
            5520 * ss == dd * v - ed,
            ed < 400_000_000,
            dd >= 4_000_000_000,
    ;
    // u' is u or one less.
    let en: int = 4 * r2 - 404 * r1;
    let t: int = en * s - ed * u;
    assert(k * s == m * u + t) by (nonlinear_arith)
        requires
            k == 5520 * su + en,
            m == 5520 * ss + ed,
            t == en * s - ed * u,
            ss == s * s,
            su == s * u,
    ;
    assert(ua * m <= k * s) by (nonlinear_arith)
        requires
            ua * dd <= nn * s,
            m == dd * v,
            k == nn * v,
            v >= 1,
    ;
    assert((ua + 1) * m > k * s) by (nonlinear_arith)
        requires
            (ua + 1) * dd > nn * s,
            m == dd * v,
            k == nn * v,
            v >= 1,
    ;
    assert(-404 * v < en < 4000 * v);
    assert(-1481 * v < ed < 1000 * v);
    assert(u <= 4_000_000 - 10 * v);
    assert(t < 9924 * sv) by (nonlinear_arith)
        requires
            t == en * s - ed * u,
            en < 4000 * v,
            ed > -1481 * v,
            0 <= u <= 4_000_000,
            s == 1_000_000,
            sv == 1_000_000 * v,
            v >= 1,
    ;
    assert(t > -4404 * sv) by (nonlinear_arith)
        requires
            t == en * s - ed * u,
            en > -404 * v,
            ed < 1000 * v,
            0 <= u <= 4_000_000,
            s == 1_000_000,
            sv == 1_000_000 * v,
            v >= 1,
    ;
    assert(-m < t < m);
    assert(ua <= u) by (nonlinear_arith)
        requires
            ua * m <= m * u + t,
            t < m,
            m > 0,
    ;
    assert(ua >= u - 1) by (nonlinear_arith)
        requires
            (ua + 1) * m > m * u + t,
            t > -m,
            m > 0,
    ;
    assert(uv_of_cd(c, d) == Some((ua, va)));
}

/// A chromaticity of the triangle with some `v` and a luminance between 1
/// and 100 make a tristimulus value, and turning them into it and back keeps
/// `v` and loses at most a millionth in `u`.
pub proof fn lemma_luv60_round_trip(u: int, v: int, y: int)
    requires
        -1 <= u,
        1 <= v,
        u + 10 * v <= 4 * SCALE,
        SCALE <= y <= 100 * SCALE,
    ensures
        luv60_of(u, v, y) matches Some(t) && uv60_of(t.0, t.1, t.2) matches Some(uvb) && u - 1
            <= uvb.0 <= u && uvb.1 == v,
{
    let s: int = SCALE as int;
    let p: int = 4 * s - u - 10 * v;
    let uy: int = u * y;
    let py: int = p * y;
    let sy: int = s * y;
    let vy: int = v * y;
    assert(3 * u * y == 3 * uy) by (nonlinear_arith)
        requires
            uy == u * y,
    ;
    let x: int = floor_div(3 * uy, 2 * v);
    let z: int = floor_div(py, 2 * v);
    lemma_floor_div_bounds(3 * uy, 2 * v);
    lemma_floor_div_bounds(py, 2 * v);
    assert(-100_000_000 <= uy <= 400_000_000_000_000 && 0 <= py <= 400_000_100_000_000)
        by (nonlinear_arith)
        requires
            uy == u * y,
            py == p * y,
            -1 <= u <= 4_000_000,
            0 <= p <= 4_000_001,
            1_000_000 <= y <= 100_000_000,
    ;
    let xv: int = x * v;
    let zv: int = z * v;
    assert(x * (2 * v) == 2 * xv && (x + 1) * (2 * v) == 2 * xv + 2 * v) by (nonlinear_arith)
        requires
            xv == x * v,
    ;
    assert(z * (2 * v) == 2 * zv && (z + 1) * (2 * v) == 2 * zv + 2 * v) by (nonlinear_arith)
        requires
            zv == z * v,
    ;
    let r1: int = 3 * uy - 2 * xv;
    let r2: int = py - 2 * zv;
    assert(0 <= r1 < 2 * v);
    assert(0 <= r2 < 2 * v);
    assert(-300_000_000 <= x <= 1_200_000_000_000_000) by (nonlinear_arith)
        requires
            xv == x * v,
            -300_000_000 <= 2 * xv + r1 <= 1_200_000_000_000_000,
            0 <= r1 < 2 * v,
            v >= 1,
    ;
    assert(0 <= z <= 400_000_100_000_000) by (nonlinear_arith)
        requires
            zv == z * v,
            0 <= 2 * zv + r2 <= 400_000_100_000_000,
            0 <= r2 < 2 * v,
            v >= 1,
    ;
    assert(luv60_of(u, v, y) == Some((x, y, z)));
    let sum: int = x + 15 * y + 3 * z;
    let r: int = r1 + 3 * r2;
    let g: int = sum * v;
    assert(py == 4 * sy - uy - 10 * vy) by (nonlinear_arith)
        requires
            py == p * y,
            p == 4 * s - u - 10 * v,
            sy == s * y,
            uy == u * y,
            vy == v * y,
    ;
    assert(g == xv + 15 * vy + 3 * zv) by (nonlinear_arith)
        requires
            g == sum * v,
            sum == x + 15 * y + 3 * z,
            xv == x * v,
            zv == z * v,
            vy == v * y,
    ;
    // Twice the sum times v is 12 y, less what the two divisions lost.
    assert(2 * g == 12 * sy - r);
    assert(sy == 1_000_000 * y) by (nonlinear_arith)
        requires
            sy == s * y,
            s == 1_000_000,
    ;
    assert(v <= 400_000 + 1);
    assert(0 <= r < 8 * v);
    assert(g > 0);
    assert(sum > 0) by (nonlinear_arith)
        requires
            g == sum * v,
            g > 0,
            v >= 1,
    ;
    let nu: int = 4 * x * s;
    let nv: int = 6 * y * s;
    lemma_floor_div_bounds(nu, sum);
    lemma_floor_div_bounds(nv, sum);
    let ub: int = floor_div(nu, sum);
    let vb: int = floor_div(nv, sum);
    assert(nv == 6 * sy) by (nonlinear_arith)
        requires
            nv == 6 * y * s,
            sy == s * y,
    ;
    // v comes back as it was.
    assert(v * sum == g) by (nonlinear_arith)
        requires
            g == sum * v,
    ;
    assert((v + 1) * sum == g + sum) by (nonlinear_arith)
        requires
            g == sum * v,
    ;
    assert(sum >= 8 * v) by (nonlinear_arith)
        requires
            g == sum * v,
            2 * g == 12 * sy - r,
            r < 8 * v,
            sy >= 1_000_000_000_000,
            1 <= v <= 400_001,
    ;
    assert(v * sum <= nv < (v + 1) * sum);
    lemma_floor_div_unique(nv, sum, v);
    // u comes back as it was or one less.
    let xs: int = x * s;
    assert(nu == 4 * xs) by (nonlinear_arith)
        requires
            nu == 4 * x * s,
            xs == x * s,
    ;
    let h: int = xs * v;
    assert(h == s * xv) by (nonlinear_arith)
        requires
            h == xs * v,
            xs == x * s,
            xv == x * v,
    ;
    let su: int = s * uy;
    let sr: int = s * r1;
    assert(2 * h == 3 * su - sr) by (nonlinear_arith)
        requires
            h == s * xv,
            2 * xv == 3 * uy - r1,
            su == s * uy,
            sr == s * r1,
    ;
    // 8 h = 4 (3 s u y - s r1) and 2 g u = 12 s y u - r u
    let gu: int = g * u;
    let ru: int = r * u;
    assert(2 * gu == 12 * su - ru) by (nonlinear_arith)
        requires
            gu == g * u,
            2 * g == 12 * sy - r,
            su == s * uy,
            sy == s * y,
            uy == u * y,
            ru == r * u,
    ;
    assert(ub * g <= 4 * h) by (nonlinear_arith)
        requires
            ub * sum <= nu,
            nu == 4 * xs,
            h == xs * v,
            g == sum * v,
            v >= 1,
    ;
    assert((ub + 1) * g > 4 * h) by (nonlinear_arith)
        requires
            (ub + 1) * sum > nu,
            nu == 4 * xs,
            h == xs * v,
            g == sum * v,
            v >= 1,
    ;
    // 4 h = g u + t with t = (r u - 4 s r1) / 2
    let t2: int = ru - 4 * sr;
    assert(8 * h == 2 * gu + t2);
    assert(sr == 1_000_000 * r1) by (nonlinear_arith)
        requires
            sr == s * r1,
            s == 1_000_000,
    ;
    assert(ru <= 8 * v * (4_000_000 - 10 * v) && ru >= -8 * v) by (nonlinear_arith)
        requires
            ru == r * u,
            0 <= r < 8 * v,
            -1 <= u <= 4_000_000 - 10 * v,
            v >= 1,
    ;
    assert(8 * v * (4_000_000 - 10 * v) <= 3_200_000_000_000) by (nonlinear_arith)
        requires
            1 <= v <= 400_001,
    ;
    assert(-2 * g < t2 < 2 * g);
    assert(ub <= u) by (nonlinear_arith)
        requires
            ub * g <= 4 * h,
            8 * h == 2 * gu + t2,
            gu == g * u,
            t2 < 2 * g,
            g > 0,
    ;
    assert(ub >= u - 1) by (nonlinear_arith)
        requires
            (ub + 1) * g > 4 * h,
            8 * h == 2 * gu + t2,
            gu == g * u,
            t2 > -2 * g,
            g > 0,
    ;
    assert(uv60_of(x, y, z) == Some((ub, vb)));
}

/// The lightness of a luminance between 1 and 100 lies between 8 and
/// 99.0397.
pub proof fn lemma_w64_range(y: int)
    requires
        SCALE <= y <= 100 * SCALE,
    ensures
        8 * SCALE <= w64_of(y) <= 99_039_700,
{
    let n: int = y * SCALE * SCALE;
    assert(1_000_000_000_000_000_000 <= n <= 100_000_000_000_000_000_000) by (nonlinear_arith)
        requires
            n == y * SCALE * SCALE,
            SCALE == 1_000_000,
            1_000_000 <= y <= 100_000_000,
    ;
    lemma_floor_cbrt_exists(n);
    let r: int = floor_cbrt(n);
    if r < 1_000_000 {
        lemma_cube_monotone(r + 1, 1_000_000);
        assert(1_000_000int * 1_000_000 * 1_000_000 == 1_000_000_000_000_000_000)
            by (nonlinear_arith);
    }
    if r > 4_641_588 {
        lemma_cube_monotone(4_641_589, r);
        assert(4_641_589int * 4_641_589 * 4_641_589 > 100_000_000_000_000_000_000)
            by (nonlinear_arith);
    }
}

/// Two chromaticities that differ by at most two millionths in `u` and one
/// in `v`, at one luminance between 1 and 100, have coordinates in the
/// uniform space about any white within five units of them, and lie close
/// there.
pub proof fn lemma_uvw64_close(ua: int, va: int, ub: int, vb: int, y: int, un: int, vn: int)
    requires
        SCALE <= y <= 100 * SCALE,
        ub - 2 <= ua <= ub,
        vb - 1 <= va <= vb,
        -5 * SCALE <= ub - un <= 5 * SCALE,
        -5 * SCALE <= vb - vn <= 5 * SCALE,
    ensures
        uvw64_of(ua, va, y, un, vn) matches Some(a) && uvw64_of(ub, vb, y, un, vn) matches Some(b)
            && 0 <= b.0 - a.0 <= 2576 && 0 <= b.1 - a.1 <= 1288 && b.2 == a.2,
{
    lemma_w64_range(y);
    let w: int = w64_of(y);
    lemma_scaled_close(w, ua - un, ub - un);
    lemma_scaled_close(w, va - vn, vb - vn);
}

/// `13 w a` and `13 w b`, each divided by the scale, differ by no more than
/// `13 w (b - a)` does, and one more; and neither is large.
proof fn lemma_scaled_close(w: int, a: int, b: int)
    requires
        0 <= w <= 99_039_700,
        b - 2 <= a <= b,
        -5 * SCALE <= b <= 5 * SCALE,
    ensures
        0 <= floor_div(13 * w * b, SCALE as int) - floor_div(13 * w * a, SCALE as int),
        floor_div(13 * w * b, SCALE as int) - floor_div(13 * w * a, SCALE as int) <= 1288 * (b
            - a),
        fits(floor_div(13 * w * a, SCALE as int)),
        fits(floor_div(13 * w * b, SCALE as int)),
{
    let s: int = SCALE as int;
    let na: int = 13 * w * a;
    let nb: int = 13 * w * b;
    lemma_floor_div_bounds(na, s);
    lemma_floor_div_bounds(nb, s);
    assert(nb - na == 13 * w * (b - a)) by (nonlinear_arith)
        requires
            na == 13 * w * a,
            nb == 13 * w * b,
    ;
    let k: int = b - a;
    assert(13 * w * k == if k == 0 {
        0
    } else if k == 1 {
        13 * w
    } else {
        26 * w
    }) by (nonlinear_arith)
        requires
            0 <= k <= 2,
    ;
    assert(-7_000_000_000_000_000 <= nb <= 7_000_000_000_000_000) by (nonlinear_arith)
        requires
            nb == 13 * w * b,
            0 <= w <= 99_039_700,
            -5_000_000 <= b <= 5_000_000,
    ;
}

/// Two points of the uniform space that differ by at most 2576 millionths in
/// `U*`, 1288 in `V*` and not at all in `W*` have an index within
/// `IDENTITY_LOSS` of 100.
pub proof fn lemma_index_close(a: (int, int, int), b: (int, int, int))
    requires
        -2576 <= a.0 - b.0 <= 2576,
        -1288 <= a.1 - b.1 <= 1288,
        a.2 == b.2,
    ensures
        100 * SCALE - IDENTITY_LOSS <= index_of(delta_e(a, b)) <= 100 * SCALE,
{
    let d0: int = a.0 - b.0;
    let d1: int = a.1 - b.1;
    let sum: int = square(d0) + square(d1) + square(a.2 - b.2);
    assert(0 <= square(d0) <= 6_635_776) by (nonlinear_arith)
        requires
            -2576 <= d0 <= 2576,
    ;
    assert(0 <= square(d1) <= 1_658_944) by (nonlinear_arith)
        requires
            -1288 <= d1 <= 1288,
    ;
    assert(square(a.2 - b.2) == 0) by (nonlinear_arith)
        requires
            a.2 - b.2 == 0,
    ;
    lemma_floor_sqrt_exists(sum);
    let r: int = floor_sqrt(sum);
    if r > 2880 {
        lemma_square_monotone(2881, r);
    }
}

/// A sample that is seen alike under the test light and under the reference
/// illuminant, while the two whites are the same, has an index, which is
/// within `IDENTITY_LOSS` of 100. This holds where the coefficients of the
/// white are not zero and the coordinates of its chromaticity lie between 0
/// and 4, and where the sample has no negative component, a luminance
/// between 1 and 100, and an `x + 3z` of at most a million times its
/// luminance.
pub proof fn lemma_identity_of_sample(cd: (int, int), white: XYZ, sample: XYZ)
    requires
        cd.0 != 0,
        cd.1 != 0,
        white.uv60_spec() matches Some(uvn) && 0 <= uvn.0 <= 4 * SCALE && 0 <= uvn.1 <= 4 * SCALE,
        sample.x >= 0,
        sample.z >= 0,
        SCALE <= sample.y <= 100 * SCALE,
        sample.x + 3 * sample.z <= SCALE * sample.y,
    ensures
        special_index_of(cd, cd, white, sample, sample) matches Some(ri) && 100 * SCALE
            - IDENTITY_LOSS <= ri <= 100 * SCALE,
{
    let x: int = sample.x as int;
    let y: int = sample.y as int;
    let z: int = sample.z as int;
    lemma_uv60_range(x, y, z);
    let uv = uv60_of(x, y, z)->0;
    // v is at least five millionths
    let sum: int = x + 15 * y + 3 * z;
    lemma_floor_div_bounds(6 * y * SCALE, sum);
    assert(6 * y * SCALE == 6_000_000 * y) by (nonlinear_arith)
        requires
            SCALE == 1_000_000,
    ;
    assert(SCALE * sample.y == 1_000_000 * y) by (nonlinear_arith)
        requires
            SCALE == 1_000_000,
            y == sample.y,
    ;
    assert(uv.1 >= 5) by (nonlinear_arith)
        requires
            (uv.1 + 1) * sum > 6_000_000 * y,
            0 < sum <= 1_000_015 * y,
            y >= 1,
    ;
    lemma_cd_round_trip(uv.0, uv.1);
    let k = cd_of(uv.0, uv.1)->0;
    lemma_kries_same_white(cd.0, cd.1, k.0, k.1);
    let uva = uv_of_cd(k.0, k.1)->0;
    assert(uv_kries_of(cd.0, cd.1, cd.0, cd.1, k.0, k.1) == Some(uva));
    lemma_luv60_round_trip(uva.0, uva.1, y);
    let t = luv60_of(uva.0, uva.1, y)->0;
    assert(adapted_of(cd, cd, sample) == Some(t));
    assert(t.1 == y);
    let uvn = white.uv60_spec()->0;
    let uvb = uv60_of(t.0, y, t.2)->0;
    lemma_uvw64_close(uvb.0, uvb.1, uv.0, uv.1, y, uvn.0, uvn.1);
    let a = uvw64_of(uvb.0, uvb.1, y, uvn.0, uvn.1)->0;
    let b = uvw64_of(uv.0, uv.1, y, uvn.0, uvn.1)->0;
    assert(uvw64_against(t.0, t.1, t.2, white) == Some(a));
    assert(sample.uvw64_spec(white) == Some(b));
    lemma_index_close(a, b);
    assert(index_between_of(a, b) is Some);
}

/// Whether a tristimulus value can be that of a light source: it has some
/// luminance, no negative component, an `x` of at most two and a half times
/// and a `z` between a thousandth of and a hundred times the luminance.
pub open spec fn is_light(white: XYZ) -> bool {
    &&& white.y > 0
    &&& 0 <= white.x
    &&& 2 * white.x <= 5 * white.y
    &&& white.y <= 1000 * white.z
    &&& white.z <= 100 * white.y
}

/// Whether a tristimulus value can be that of a surface under a light of
/// the luminance `y_white`: it has no negative component, a luminance
/// between 1 % and 100 % of that of the light, and an `x + 3z` of at most a
/// thousand times its luminance.
pub open spec fn is_surface(sample: XYZ, y_white: int) -> bool {
    &&& 0 <= sample.x
    &&& 0 <= sample.z
    &&& sample.x + 3 * sample.z <= 1000 * sample.y
    &&& y_white <= 100 * sample.y
    &&& sample.y <= y_white
}

/// A light at illuminance 100, with an `x` of at most 250 and a `z` between
/// a tenth and 10000, has adaptation coefficients, both of which are
/// positive, and the coordinates of its chromaticity lie between 0 and 4.
pub proof fn lemma_light_at_100(white: XYZ)
    requires
        white.y == 100 * SCALE,
        0 <= white.x <= 250 * SCALE,
        100_000 <= white.z <= 10_000 * SCALE,
    ensures
        white.uv60_spec() matches Some(uvn) && 0 <= uvn.0 <= 4 * SCALE && 0 <= uvn.1 <= 4 * SCALE,
        white_cd_of(white) matches Some(cd) && cd.0 >= 1 && cd.1 >= 1,
{
    let s: int = SCALE as int;
    let x: int = white.x as int;
    let y: int = white.y as int;
    let z: int = white.z as int;
    lemma_uv60_range(x, y, z);
    let uv = uv60_of(x, y, z)->0;
    let u: int = uv.0;
    let v: int = uv.1;
    let sum: int = x + 15 * y + 3 * z;
    lemma_floor_div_bounds(4 * x * s, sum);
    lemma_floor_div_bounds(6 * y * s, sum);
    assert(6 * y * s == 600_000_000_000_000 && 4 * x * s == 4_000_000 * x) by (nonlinear_arith)
        requires
            y == 100_000_000,
            s == 1_000_000,
    ;
    assert(1_500_000_000 <= sum <= 31_750_000_000);
    let us: int = u * sum;
    let vs: int = v * sum;
    assert((u + 1) * sum == us + sum && (v + 1) * sum == vs + sum) by (nonlinear_arith)
        requires
            us == u * sum,
            vs == v * sum,
    ;
    assert(v >= 18_000) by (nonlinear_arith)
        requires
            vs == v * sum,
            vs + sum > 600_000_000_000_000,
            0 < sum <= 31_750_000_000,
    ;
    lemma_cd_round_trip(u, v);
    let k = cd_of(u, v)->0;
    assert(white_cd_of(white) == Some(k));
    // c: 4 - u - 10v is 12 z over the sum, or more
    let p: int = 4 * s - u - 10 * v;
    let q: int = 1708 * v - 1481 * u + 404 * s;
    let pg: int = p * sum;
    let qg: int = q * sum;
    assert(pg == 4_000_000 * sum - us - 10 * vs && qg == 1708 * vs - 1481 * us + 404_000_000
        * sum) by (nonlinear_arith)
        requires
            pg == p * sum,
            qg == q * sum,
            p == 4 * s - u - 10 * v,
            q == 1708 * v - 1481 * u + 404 * s,
            us == u * sum,
            vs == v * sum,
            s == 1_000_000,
    ;
    assert(pg >= 12_000_000 * z);
    assert(p >= 1) by (nonlinear_arith)
        requires
            pg == p * sum,
            pg >= 12_000_000 * z,
            z >= 1,
            sum > 0,
    ;
    lemma_floor_div_bounds(p * s, v);
    assert(p * s >= 1_000_000) by (nonlinear_arith)
        requires
            p >= 1,
            s == 1_000_000,
    ;
    assert(k.0 >= 1) by (nonlinear_arith)
        requires
            (k.0 + 1) * v > p * s,
            p * s >= 1_000_000,
            1 <= v <= 400_000,
    ;
    // d: 1.708 v - 1.481 u + 0.404 stays well above zero
    assert(qg > 250_000_000_000_000_000 - 1708 * sum);
    assert(q >= 7_000_000) by (nonlinear_arith)
        requires
            qg == q * sum,
            qg > 250_000_000_000_000_000 - 1708 * sum,
            0 < sum <= 31_750_000_000,
    ;
    lemma_floor_div_bounds(q * s, 1000 * v);
    assert(q * s >= 7_000_000_000_000) by (nonlinear_arith)
        requires
            q >= 7_000_000,
            s == 1_000_000,
    ;
    assert(k.1 >= 1) by (nonlinear_arith)
        requires
            (k.1 + 1) * (1000 * v) > q * s,
            q * s >= 7_000_000_000_000,
            1 <= v <= 400_000,
    ;
}

/// A light can be brought to illuminance 100, where its `x` is at most 250
/// and its `z` between a tenth and 10000.
pub proof fn lemma_light_to_100(s: Sighting)
    requires
        is_light(s.white),
    ensures
        at_100_of(s, s.white) matches Some(n) && n.y == 100 * SCALE && 0 <= n.x <= 250 * SCALE
            && 100_000 <= n.z <= 10_000 * SCALE,
{
    let w: int = s.white.y as int;
    let h: int = 100 * SCALE;
    lemma_floor_div_bounds(s.white.x * h, w);
    lemma_floor_div_bounds(s.white.z * h, w);
    let x: int = floor_div(s.white.x * h, w);
    let z: int = floor_div(s.white.z * h, w);
    assert(s.white.y * h == w * h);
    lemma_floor_div_cancel(w, h);
    assert(0 <= x <= 250_000_000) by (nonlinear_arith)
        requires
            x * w <= s.white.x * h < (x + 1) * w,
            0 <= s.white.x,
            2 * s.white.x <= 5 * w,
            h == 100_000_000,
            w > 0,
    ;
    assert(100_000 <= z <= 10_000_000_000) by (nonlinear_arith)
        requires
            z * w <= s.white.z * h < (z + 1) * w,
            w <= 1000 * s.white.z,
            s.white.z <= 100 * w,
            h == 100_000_000,
            w > 0,
    ;
}

/// A surface under a light can be brought to the scale on which the light
/// has the luminance 100, where it has no negative component, a luminance
/// between 1 and 100, and an `x + 3z` of at most a million times its
/// luminance.
pub proof fn lemma_surface_to_100(s: Sighting, c: XYZ)
    requires
        s.white.y > 0,
        is_surface(c, s.white.y as int),
    ensures
        at_100_of(s, c) matches Some(n) && n.x >= 0 && n.z >= 0 && SCALE <= n.y <= 100 * SCALE
            && n.x + 3 * n.z <= SCALE * n.y,
{
    let w: int = s.white.y as int;
    let h: int = 100 * SCALE;
    lemma_floor_div_bounds(c.x * h, w);
    lemma_floor_div_bounds(c.y * h, w);
    lemma_floor_div_bounds(c.z * h, w);
    let x: int = floor_div(c.x * h, w);
    let y: int = floor_div(c.y * h, w);
    let z: int = floor_div(c.z * h, w);
    let xh: int = c.x * h;
    let yh: int = c.y * h;
    let zh: int = c.z * h;
    assert(xh == 100_000_000 * c.x && yh == 100_000_000 * c.y && zh == 100_000_000 * c.z)
        by (nonlinear_arith)
        requires
            xh == c.x * h,
            yh == c.y * h,
            zh == c.z * h,
            h == 100_000_000,
    ;
    let xw: int = x * w;
    let yw: int = y * w;
    let zw: int = z * w;
    assert((x + 1) * w == xw + w && (y + 1) * w == yw + w && (z + 1) * w == zw + w)
        by (nonlinear_arith)
        requires
            xw == x * w,
            yw == y * w,
            zw == z * w,
    ;
    assert(x >= 0) by (nonlinear_arith)
        requires
            xw == x * w,
            xw + w > 0,
            w > 0,
    ;
    assert(z >= 0) by (nonlinear_arith)
        requires
            zw == z * w,
            zw + w > 0,
            w > 0,
    ;
    assert(y >= 1_000_000) by (nonlinear_arith)
        requires
            yw == y * w,
            yw + w > 100_000_000 * c.y,
            w <= 100 * c.y,
            w > 0,
    ;
    assert(y <= 100_000_000) by (nonlinear_arith)
        requires
            yw == y * w,
            yw <= 100_000_000 * c.y,
            c.y <= w,
            w > 0,
    ;
    // x + 3z <= 1000 (y + 1), which is less than a million times y
    assert(xw + 3 * zw < 1000 * (yw + w));
    assert(x + 3 * z <= 1000 * y + 1000) by (nonlinear_arith)
        requires
            xw == x * w,
            yw == y * w,
            zw == z * w,
            xw + 3 * zw < 1000 * (yw + w),
            w > 0,
    ;
    assert(x <= 100_001_000_000 && z <= 100_001_000_000);
    assert(SCALE * y == 1_000_000 * y) by (nonlinear_arith)
        requires
            SCALE == 1_000_000,
    ;
}

/// A light that is its own reference renders every sample faithfully: the
/// index of a sample of a sighting against itself has a value, which is at
/// most 100 and falls short of it by no more than `IDENTITY_LOSS`, which is
/// 0.013248. This holds where the white of the sighting can be that of a
/// light, and the sample that of a surface under it.
pub proof fn lemma_identity(s: Sighting, i: int)
    requires
        0 <= i < 14,
        is_light(s.white),
        is_surface(s.samples[i], s.white.y as int),
    ensures
        ri_of(s, s, i) matches Some(ri) && 100 * SCALE - IDENTITY_LOSS <= ri <= 100 * SCALE,
{
    lemma_light_to_100(s);
    lemma_surface_to_100(s, s.samples[i]);
    let white = at_100_of(s, s.white)->0;
    let sample = at_100_of(s, s.samples[i])->0;
    assert(ri_of(s, s, i) == ri_at(white, white, sample, sample));
    lemma_light_at_100(white);
    let cd = white_cd_of(white)->0;
    lemma_identity_of_sample(cd, white, sample);
}

/// The same of all fourteen indices: a sighting whose white can be that of a
/// light and whose samples can be those of surfaces under it has indices
/// against itself, and every one of them lies between `100 - 0.013248` and
/// 100.
pub proof fn lemma_identity_of_cri(s: Sighting)
    requires
        is_light(s.white),
        forall|i: int| 0 <= i < 14 ==> is_surface(#[trigger] s.samples[i], s.white.y as int),
    ensures
        cri_of(s, s) matches Some(indices) && forall|i: int|
            0 <= i < 14 ==> 100 * SCALE - IDENTITY_LOSS <= (#[trigger] indices[i]) <= 100 * SCALE,
{
    assert forall|i: int| 0 <= i < 14 implies (#[trigger] ri_of(s, s, i)) matches Some(ri) && 100
        * SCALE - IDENTITY_LOSS <= ri <= 100 * SCALE by {
        assert(is_surface(s.samples[i], s.white.y as int));
        lemma_identity(s, i);
    }
    let indices = cri_of(s, s)->0;
    assert forall|i: int| 0 <= i < 14 implies 100 * SCALE - IDENTITY_LOSS <= (
    #[trigger] indices[i]) <= 100 * SCALE by {
        assert(indices[i] == ri_of(s, s, i)->0);
    }
}

} // verus!
