//! Tristimulus values and the two CIE coordinate systems derived from them:
//! the 1960 chromaticity `(u, v)` and the 1964 uniform space `(U*, V*, W*)`.
use crate::error::CmtError;
use crate::fixed::{
    fits, floor_cbrt, icbrt, is_floor_cbrt, lemma_cube_monotone, lemma_floor_cbrt_exists,
    lemma_floor_div_cancel, lemma_mul_bound, product, quotient, ratio, wide, SCALE,
};
use vstd::prelude::*;

verus! {

/// A tristimulus value, each component in millionths.
#[derive(Clone, Copy, Debug, PartialEq, Eq, Structural)]
pub struct XYZ {
    pub x: i64,
    pub y: i64,
    pub z: i64,
}

/// The 1960 chromaticity of the tristimulus value `(x, y, z)`:
/// `u = 4x / (x + 15y + 3z)` and `v = 6y / (x + 15y + 3z)`.
pub open spec fn uv60_of(x: int, y: int, z: int) -> Option<(int, int)> {
    let sum = x + 15 * y + 3 * z;
    match (ratio(4 * x * SCALE, sum), ratio(6 * y * SCALE, sum)) {
        (Some(u), Some(v)) => Some((u, v)),
        _ => None,
    }
}

/// The tristimulus value of chromaticity `(u, v)` and luminance `y`:
/// `x = 3uy / 2v` and `z = (4 - u - 10v)y / 2v`.
pub open spec fn luv60_of(u: int, v: int, y: int) -> Option<(int, int, int)> {
    let p = 4 * SCALE - u - 10 * v;
    if !wide(3 * u * y) || !wide(p * y) {
        None
    } else {
        match (ratio(3 * u * y, 2 * v), ratio(p * y, 2 * v)) {
            (Some(x), Some(z)) => Some((x, y, z)),
            _ => None,
        }
    }
}

/// The 1964 lightness `W* = 25 y^(1/3) - 17` of the luminance `y >= 0`.
pub open spec fn w64_of(y: int) -> int {
    25 * floor_cbrt(y * SCALE * SCALE) - 17 * SCALE
}

/// The 1964 coordinates of a colour of chromaticity `(u, v)` and luminance
/// `y` against a white of chromaticity `(un, vn)`:
/// `U* = 13 W* (u - un)`, `V* = 13 W* (v - vn)`, and `W*` as above.
pub open spec fn uvw64_of(u: int, v: int, y: int, un: int, vn: int) -> Option<(int, int, int)> {
    if y < 0 {
        None
    } else {
        let w = w64_of(y);
        match (ratio(13 * w * (u - un), SCALE as int), ratio(13 * w * (v - vn), SCALE as int)) {
            (Some(us), Some(vs)) => Some((us, vs, w)),
            _ => None,
        }
    }
}

/// The lightness of a luminance that a fixed-point value can hold stays far
/// inside the fixed-point range.
pub proof fn lemma_w64_bound(y: int)
    requires
        0 <= y <= i64::MAX,
    ensures
        -17 * SCALE <= w64_of(y) < 25 * 0x8_0000_0000,
        is_floor_cbrt(y * SCALE * SCALE, floor_cbrt(y * SCALE * SCALE)),
{
    let n: int = y * SCALE * SCALE;
    assert(0 <= n < 0x80_0000_0000_0000_0000_0000_0000) by (nonlinear_arith)
        requires
            0 <= y <= i64::MAX,
            n == y * SCALE * SCALE,
            SCALE == 1_000_000,
    ;
    lemma_floor_cbrt_exists(n);
    let r: int = floor_cbrt(n);
    if r >= 0x8_0000_0000 {
        lemma_cube_monotone(0x8_0000_0000, r);
    }
}

/// The tristimulus value `c` on the scale on which a white of luminance
/// `y_white` has the luminance `illuminance`: each component times
/// `illuminance / y_white`.
pub open spec fn rescaled_of(c: XYZ, illuminance: int, y_white: int) -> Option<XYZ> {
    match (
        ratio(c.x * illuminance, y_white),
        ratio(c.y * illuminance, y_white),
        ratio(c.z * illuminance, y_white),
    ) {
        (Some(x), Some(y), Some(z)) => Some(XYZ { x: x as i64, y: y as i64, z: z as i64 }),
        _ => None,
    }
}

/// Rescaling to the luminance that the white has changes nothing.
pub proof fn lemma_rescaled_to_itself(c: XYZ, y_white: int)
    requires
        y_white != 0,
    ensures
        rescaled_of(c, y_white, y_white) == Some(c),
{
    lemma_floor_div_cancel(y_white, c.x as int);
    lemma_floor_div_cancel(y_white, c.y as int);
    lemma_floor_div_cancel(y_white, c.z as int);
    assert(c.x * y_white == y_white * c.x && c.y * y_white == y_white * c.y && c.z * y_white
        == y_white * c.z) by (nonlinear_arith);
}

/// Rescaling the white itself gives it the luminance asked for.
pub proof fn lemma_rescaled_white(white: XYZ, illuminance: int)
    requires
        rescaled_of(white, illuminance, white.y as int) is Some,
        fits(illuminance),
    ensures
        rescaled_of(white, illuminance, white.y as int) matches Some(n) && n.y == illuminance,
{
    lemma_floor_div_cancel(white.y as int, illuminance);
}

/// The 1964 coordinates of the tristimulus value `(x, y, z)` against the
/// white point `white`.
pub open spec fn uvw64_against(x: int, y: int, z: int, white: XYZ) -> Option<(int, int, int)> {
    match (uv60_of(x, y, z), white.uv60_spec()) {
        (Some((u, v)), Some((un, vn))) => uvw64_of(u, v, y, un, vn),
        _ => None,
    }
}

impl XYZ {
    /// The 1960 chromaticity of this value, where it has one.
    pub open spec fn uv60_spec(self) -> Option<(int, int)> {
        uv60_of(self.x as int, self.y as int, self.z as int)
    }

    /// The 1964 coordinates of this value against the white point `white`,
    /// where it has them.
    pub open spec fn uvw64_spec(self, white: XYZ) -> Option<(int, int, int)> {
        uvw64_against(self.x as int, self.y as int, self.z as int, white)
    }

    /// The CIE 1960 chromaticity `[u, v]`.
    ///
    /// Fails when `x + 15y + 3z` is zero or a coordinate cannot be held.
    pub fn uv60(&self) -> (r: Result<[i64; 2], CmtError>)
        ensures
            r matches Ok(uv) ==> self.uv60_spec() == Some((uv[0] as int, uv[1] as int)),
            r matches Err(e) ==> e == CmtError::NumericDegeneracy && self.uv60_spec() is None,
    {
        let sum: i128 = self.x as i128 + 15 * (self.y as i128) + 3 * (self.z as i128);
        let u = quotient(4 * (self.x as i128) * (SCALE as i128), sum);
        let v = quotient(6 * (self.y as i128) * (SCALE as i128), sum);
        match (u, v) {
            (Some(u), Some(v)) => Ok([u, v]),
            _ => Err(CmtError::NumericDegeneracy),
        }
    }

    /// The tristimulus value of the 1960 chromaticity `(u, v)` and the
    /// luminance `y`.
    ///
    /// Fails when `v` is zero, when a product leaves 128 bits, or when a
    /// component cannot be held.
    pub fn try_from_luv60(u: i64, v: i64, y: i64) -> (r: Result<XYZ, CmtError>)
        ensures
            r matches Ok(c) ==> luv60_of(u as int, v as int, y as int) == Some(
                (c.x as int, c.y as int, c.z as int),
            ),
            r matches Err(e) ==> e == CmtError::NumericDegeneracy && luv60_of(
                u as int,
                v as int,
                y as int,
            ) is None,
    {
        let p: i128 = 4 * (SCALE as i128) - (u as i128) - 10 * (v as i128);
        proof {
            lemma_mul_bound(u as int, y as int, 0x8000_0000_0000_0000int, 0x8000_0000_0000_0000int);
            assert(3 * u * y == 3 * (u * y)) by (nonlinear_arith);
        }
        let uy: i128 = (u as i128) * (y as i128);
        let uy3: i128 = match product(3, uy) {
            Some(t) => t,
            None => {
                return Err(CmtError::NumericDegeneracy);
            },
        };
        let py: i128 = match product(p, y as i128) {
            Some(t) => t,
            None => {
                return Err(CmtError::NumericDegeneracy);
            },
        };
        let x = quotient(uy3, 2 * (v as i128));
        let z = quotient(py, 2 * (v as i128));
        match (x, z) {
            (Some(x), Some(z)) => Ok(XYZ { x, y, z }),
            _ => Err(CmtError::NumericDegeneracy),
        }
    }

    /// The CIE 1964 coordinates `[U*, V*, W*]` against the white point
    /// `white`, for a luminance on the scale on which the white has 100.
    ///
    /// Fails when either value has no chromaticity, when the luminance is
    /// negative, or when a coordinate cannot be held.
    pub fn uvw64(&self, white: XYZ) -> (r: Result<[i64; 3], CmtError>)
        ensures
            r matches Ok(c) ==> self.uvw64_spec(white) == Some(
                (c[0] as int, c[1] as int, c[2] as int),
            ),
            r matches Err(e) ==> e == CmtError::NumericDegeneracy && self.uvw64_spec(white) is None,
    {
        let uv = match self.uv60() {
            Ok(uv) => uv,
            Err(e) => {
                return Err(e);
            },
        };
        let uvn = match white.uv60() {
            Ok(uvn) => uvn,
            Err(e) => {
                return Err(e);
            },
        };
        uvw64_at(uv, self.y, uvn)
    }

    /// This value with each component multiplied by `illuminance / y_white`.
    ///
    /// Fails when `y_white` is zero or a component cannot be held.
    pub fn rescaled(&self, illuminance: i64, y_white: i64) -> (r: Result<XYZ, CmtError>)
        ensures
            r matches Ok(c) ==> rescaled_of(*self, illuminance as int, y_white as int) == Some(c),
            r matches Err(e) ==> e == CmtError::NumericDegeneracy && rescaled_of(
                *self,
                illuminance as int,
                y_white as int,
            ) is None,
            illuminance == y_white && y_white != 0 ==> r == Ok::<XYZ, CmtError>(*self),
    {
        proof {
            if illuminance == y_white && y_white != 0 {
                lemma_rescaled_to_itself(*self, y_white as int);
            }
            lemma_mul_bound(
                self.x as int,
                illuminance as int,
                0x8000_0000_0000_0000int,
                0x8000_0000_0000_0000int,
            );
            lemma_mul_bound(
                self.y as int,
                illuminance as int,
                0x8000_0000_0000_0000int,
                0x8000_0000_0000_0000int,
            );
            lemma_mul_bound(
                self.z as int,
                illuminance as int,
                0x8000_0000_0000_0000int,
                0x8000_0000_0000_0000int,
            );
        }
        let x = quotient((self.x as i128) * (illuminance as i128), y_white as i128);
        let y = quotient((self.y as i128) * (illuminance as i128), y_white as i128);
        let z = quotient((self.z as i128) * (illuminance as i128), y_white as i128);
        match (x, y, z) {
            (Some(x), Some(y), Some(z)) => Ok(XYZ { x, y, z }),
            _ => Err(CmtError::NumericDegeneracy),
        }
    }
}

/// The CIE 1964 coordinates `[U*, V*, W*]` of a colour of chromaticity `uv`
/// and luminance `y` against a white of chromaticity `uvn`.
///
/// Fails when the luminance is negative or a coordinate cannot be held.
pub fn uvw64_at(uv: [i64; 2], y: i64, uvn: [i64; 2]) -> (r: Result<[i64; 3], CmtError>)
    ensures
        r matches Ok(c) ==> uvw64_of(
            uv[0] as int,
            uv[1] as int,
            y as int,
            uvn[0] as int,
            uvn[1] as int,
        ) == Some((c[0] as int, c[1] as int, c[2] as int)),
        r matches Err(e) ==> e == CmtError::NumericDegeneracy && uvw64_of(
            uv[0] as int,
            uv[1] as int,
            y as int,
            uvn[0] as int,
            uvn[1] as int,
        ) is None,
{
    if y < 0 {
        return Err(CmtError::NumericDegeneracy);
    }
    proof {
        lemma_w64_bound(y as int);
        assert(0 <= y * SCALE * SCALE < 0x80_0000_0000_0000_0000_0000_0000) by (nonlinear_arith)
            requires
                0 <= y <= i64::MAX,
                SCALE == 1_000_000,
        ;
        assert(y * SCALE * SCALE == y * 1_000_000_000_000) by (nonlinear_arith)
            requires
                SCALE == 1_000_000,
        ;
    }
    let root: u64 = icbrt((y as u128) * 1_000_000_000_000);
    let w: i64 = 25 * (root as i64) - 17 * SCALE;
    let du: i128 = uv[0] as i128 - uvn[0] as i128;
    let dv: i128 = uv[1] as i128 - uvn[1] as i128;
    proof {
        lemma_mul_bound(13 * w, du as int, 13 * 25 * 0x8_0000_0000int, 0x1_0000_0000_0000_0000int);
        lemma_mul_bound(13 * w, dv as int, 13 * 25 * 0x8_0000_0000int, 0x1_0000_0000_0000_0000int);
    }
    let us = quotient(13 * (w as i128) * du, SCALE as i128);
    let vs = quotient(13 * (w as i128) * dv, SCALE as i128);
    match (us, vs) {
        (Some(us), Some(vs)) => Ok([us, vs, w]),
        _ => Err(CmtError::NumericDegeneracy),
    }
}

} // verus!
