//! Chromatic adaptation after von Kries, on CIE 1960 chromaticities.
//!
//! A chromaticity `(u, v)` is first turned into the pair of adaptation
//! coefficients `(c, d)`; the coefficients of a sample are then rescaled by the
//! ratio of those of the reference white to those of the test white, and
//! turned back into a chromaticity.
use crate::error::CmtError;
use crate::fixed::{lemma_mul_bound, quotient, ratio, SCALE};
use vstd::prelude::*;

verus! {

/// The adaptation coefficients of the chromaticity `(u, v)`:
/// `c = (4 - u - 10v) / v` and `d = (1.708v - 1.481u + 0.404) / v`.
pub open spec fn cd_of(u: int, v: int) -> Option<(int, int)> {
    match (
        ratio((4 * SCALE - u - 10 * v) * SCALE, v),
        ratio((1708 * v - 1481 * u + 404 * SCALE) * SCALE, 1000 * v),
    ) {
        (Some(c), Some(d)) => Some((c, d)),
        _ => None,
    }
}

/// The denominator of the adapted chromaticity, in thousandths of a unit:
/// `16.518 + 1.481 kc - kd`, for the rescaled coefficients `kc` and `kd`.
pub open spec fn kries_den(kc: int, kd: int) -> int {
    16518 * SCALE + 1481 * kc - 1000 * kd
}

/// The numerator of the adapted `u`, in thousandths of a unit:
/// `10.872 + 0.404 kc - 4 kd`.
pub open spec fn kries_num(kc: int, kd: int) -> int {
    10872 * SCALE + 404 * kc - 4000 * kd
}

/// The chromaticity that belongs to the coefficients `(kc, kd)`:
/// `u = (10.872 + 0.404 kc - 4 kd) / (16.518 + 1.481 kc - kd)` and
/// `v = 5.520 / (16.518 + 1.481 kc - kd)`.
pub open spec fn uv_of_cd(kc: int, kd: int) -> Option<(int, int)> {
    match (
        ratio(kries_num(kc, kd) * SCALE, kries_den(kc, kd)),
        ratio(5520 * SCALE * SCALE, kries_den(kc, kd)),
    ) {
        (Some(u), Some(v)) => Some((u, v)),
        _ => None,
    }
}

/// The adapted chromaticity of a sample with coefficients `(cti, dti)` under
/// a test white with coefficients `(ct, dt)`, as seen under a reference white
/// with coefficients `(cr, dr)`: that of the coefficients
/// `(cr * cti / ct, dr * dti / dt)`, each product divided once.
pub open spec fn uv_kries_of(ct: int, dt: int, cr: int, dr: int, cti: int, dti: int) -> Option<
    (int, int),
> {
    match (ratio(cr * cti, ct), ratio(dr * dti, dt)) {
        (Some(kc), Some(kd)) => uv_of_cd(kc, kd),
        _ => None,
    }
}

/// The adaptation coefficients `[c, d]` of the chromaticity `uv60 = [u, v]`.
///
/// Fails when `v` is zero or a coefficient cannot be held.
pub fn cd(uv60: [i64; 2]) -> (r: Result<[i64; 2], CmtError>)
    ensures
        r matches Ok(k) ==> cd_of(uv60[0] as int, uv60[1] as int) == Some(
            (k[0] as int, k[1] as int),
        ),
        r matches Err(e) ==> e == CmtError::NumericDegeneracy && cd_of(
            uv60[0] as int,
            uv60[1] as int,
        ) is None,
{
    let u: i128 = uv60[0] as i128;
    let v: i128 = uv60[1] as i128;
    let scale: i128 = SCALE as i128;
    let c = quotient((4 * scale - u - 10 * v) * scale, v);
    let d = quotient((1708 * v - 1481 * u + 404 * scale) * scale, 1000 * v);
    match (c, d) {
        (Some(c), Some(d)) => Ok([c, d]),
        _ => Err(CmtError::NumericDegeneracy),
    }
}

/// The von Kries transform: the chromaticity `[u', v']` that a sample with
/// coefficients `cdti` under the test white would have under the reference
/// white, given the coefficients `cdt` of the test white and `cdr` of the
/// reference white.
///
/// Fails when a coefficient of the test white is zero, when the denominator
/// `16.518 + 1.481 (cr / ct) cti - (dr / dt) dti` is zero, or when a rescaled
/// coefficient or a coordinate cannot be held.
pub fn uv_kries(cdt: [i64; 2], cdr: [i64; 2], cdti: [i64; 2]) -> (r: Result<[i64; 2], CmtError>)
    ensures
        r matches Ok(uv) ==> uv_kries_of(
            cdt[0] as int,
            cdt[1] as int,
            cdr[0] as int,
            cdr[1] as int,
            cdti[0] as int,
            cdti[1] as int,
        ) == Some((uv[0] as int, uv[1] as int)),
        r matches Err(e) ==> e == CmtError::NumericDegeneracy && uv_kries_of(
            cdt[0] as int,
            cdt[1] as int,
            cdr[0] as int,
            cdr[1] as int,
            cdti[0] as int,
            cdti[1] as int,
        ) is None,
{
    proof {
        lemma_mul_bound(
            cdr[0] as int,
            cdti[0] as int,
            0x8000_0000_0000_0000int,
            0x8000_0000_0000_0000int,
        );
        lemma_mul_bound(
            cdr[1] as int,
            cdti[1] as int,
            0x8000_0000_0000_0000int,
            0x8000_0000_0000_0000int,
        );
    }
    let kc = quotient((cdr[0] as i128) * (cdti[0] as i128), cdt[0] as i128);
    let kd = quotient((cdr[1] as i128) * (cdti[1] as i128), cdt[1] as i128);
    match (kc, kd) {
        (Some(kc), Some(kd)) => {
            let scale: i128 = SCALE as i128;
            let den: i128 = 16518 * scale + 1481 * (kc as i128) - 1000 * (kd as i128);
            let num: i128 = 10872 * scale + 404 * (kc as i128) - 4000 * (kd as i128);
            let u = quotient(num * scale, den);
            let v = quotient(5520 * scale * scale, den);
            match (u, v) {
                (Some(u), Some(v)) => Ok([u, v]),
                _ => Err(CmtError::NumericDegeneracy),
            }
        },
        _ => Err(CmtError::NumericDegeneracy),
    }
}

} // verus!
