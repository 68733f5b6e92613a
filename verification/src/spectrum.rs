//! Spectra on the working grid: one sample for each nanometre from 380 nm to
//! 780 nm.
use crate::fixed::{div_floor, floor_div, lemma_floor_div_bounds, lemma_mul_bound};
use vstd::arithmetic::div_mod::lemma_fundamental_div_mod;
use vstd::prelude::*;

verus! {

/// The number of samples of a spectrum.
pub const N_SAMPLES: usize = 401;

/// A function of wavelength, sampled at 380 nm, 381 nm, ..., 780 nm, each
/// sample in millionths.
#[derive(Clone, Copy, Debug)]
pub struct Spectrum(pub [i64; 401]);

/// A spectrum read as the factor by which a surface reflects light.
#[derive(Clone, Copy, Debug)]
pub struct Colorant(pub Spectrum);

/// The value at point `j` of `n` evenly spaced points of the piecewise linear
/// function through the evenly spaced points `data`, both sets of points
/// spanning the same interval.
pub open spec fn lerp_of(data: Seq<int>, n: int, j: int) -> int {
    let pos = j * (data.len() - 1);
    let k = pos / (n - 1);
    let f = pos % (n - 1);
    if f == 0 {
        data[k]
    } else {
        floor_div(data[k] * (n - 1 - f) + data[k + 1] * f, n - 1)
    }
}

/// A value interpolated between two neighbours lies between them.
pub proof fn lemma_lerp_between(a: int, b: int, f: int, m: int)
    requires
        0 < f < m,
    ensures
        a <= b ==> a <= floor_div(a * (m - f) + b * f, m) <= b,
        b <= a ==> b <= floor_div(a * (m - f) + b * f, m) <= a,
{
    let t: int = a * (m - f) + b * f;
    let q: int = floor_div(t, m);
    lemma_floor_div_bounds(t, m);
    assert(t == a * m + (b - a) * f) by (nonlinear_arith)
        requires
            t == a * (m - f) + b * f,
    ;
    assert(t == b * m - (b - a) * (m - f)) by (nonlinear_arith)
        requires
            t == a * (m - f) + b * f,
    ;
    if a <= b {
        assert((b - a) * f >= 0 && (b - a) * (m - f) >= 0) by (nonlinear_arith)
            requires
                a <= b,
                0 < f < m,
        ;
        assert(a <= q) by (nonlinear_arith)
            requires
                a * m <= t,
                t < (q + 1) * m,
                m > 0,
        ;
        assert(q <= b) by (nonlinear_arith)
            requires
                t <= b * m,
                q * m <= t,
                m > 0,
        ;
    }
    if b <= a {
        assert((b - a) * f <= 0 && (b - a) * (m - f) <= 0) by (nonlinear_arith)
            requires
                b <= a,
                0 < f < m,
        ;
        assert(b <= q) by (nonlinear_arith)
            requires
                b * m <= t,
                t < (q + 1) * m,
                m > 0,
        ;
        assert(q <= a) by (nonlinear_arith)
            requires
                t <= a * m,
                q * m <= t,
                m > 0,
        ;
    }
}

impl View for Spectrum {
    type V = Seq<int>;

    /// The samples as a sequence of integers, in millionths.
    open spec fn view(&self) -> Seq<int> {
        Seq::new(401, |k: int| self.0[k] as int)
    }
}

impl Spectrum {
    /// The spectrum through the values `data`, which are taken to be evenly
    /// spaced from 380 nm to 780 nm: each sample is interpolated linearly
    /// between the two values next to it.
    ///
    /// There is none through fewer than two values.
    pub fn linear_interpolate(data: &[i64]) -> (r: Option<Spectrum>)
        ensures
            r is Some <==> data@.len() >= 2,
            r matches Some(s) ==> forall|j: int|
                0 <= j < 401 ==> s@[j] == lerp_of(data@.map_values(|v: i64| v as int), 401, j),
    {
        let m: usize = data.len();
        if m < 2 {
            return None;
        }
        let ghost ints: Seq<int> = data@.map_values(|v: i64| v as int);
        let mut out: [i64; 401] = [0; 401];
        let mut j: usize = 0;
        while j < 401
            invariant
                j <= 401,
                m == data@.len(),
                m >= 2,
                ints == data@.map_values(|v: i64| v as int),
                forall|i: int| 0 <= i < j ==> out[i] as int == lerp_of(ints, 401, i),
            decreases 401 - j,
        {
            assert(0 <= j * (m - 1) <= 400 * (m - 1)) by (nonlinear_arith)
                requires
                    0 <= j <= 400,
                    m >= 2,
            ;
            let pos: u128 = (j as u128) * ((m - 1) as u128);
            let whole: u128 = pos / 400;
            let f: u128 = pos % 400;
            proof {
                lemma_fundamental_div_mod(pos as int, 400);
                assert(pos == j * (ints.len() - 1));
            }
            let k: usize = whole as usize;
            if f == 0 {
                out[j] = data[k];
            } else {
                let a: i128 = data[k] as i128;
                let b: i128 = data[k + 1] as i128;
                let fi: i128 = f as i128;
                proof {
                    lemma_mul_bound(a as int, 400 - fi, 0x8000_0000_0000_0000int, 400);
                    lemma_mul_bound(b as int, fi as int, 0x8000_0000_0000_0000int, 400);
                    lemma_lerp_between(a as int, b as int, fi as int, 400);
                }
                let q: i128 = div_floor(a * (400 - fi) + b * fi, 400);
                out[j] = q as i64;
            }
            j = j + 1;
        }
        let s = Spectrum(out);
        assert forall|j: int| 0 <= j < 401 implies s@[j] == lerp_of(ints, 401, j) by {
            assert(s@[j] == out[j] as int);
        }
        Some(s)
    }
}

} // verus!
