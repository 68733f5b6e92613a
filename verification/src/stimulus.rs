//! Stimuli: the light that reaches the eye from a display pixel.
//!
//! A pixel of a display emits a mixture of the spectra of its three
//! primaries. Its stimulus is the sum of the three primary spectra, each
//! weighted by the channel's value and by the luminance that the primary
//! contributes to white.
use crate::fixed::{
    div_floor, fits, floor_div, lemma_floor_div_bounds, lemma_mul_bound, product, quotient, ratio,
    wide, SCALE,
};
use crate::spectrum::Spectrum;
use vstd::prelude::*;

verus! {

/// What this library reads of an RGB colour space: the spectra of its red,
/// green and blue primaries, and the luminance of each primary for the
/// observer in use, as a fraction of the luminance of white.
#[derive(Clone, Copy, Debug)]
pub struct RgbSpace {
    pub primaries: [Spectrum; 3],
    pub yrgb: [i64; 3],
}

/// The colour of a display pixel: the values of its red, green and blue
/// channels, each from 0 to 1 in millionths, and the colour space they refer
/// to.
#[derive(Clone, Copy, Debug)]
pub struct RGB {
    pub rgb: [i64; 3],
    pub space: RgbSpace,
}

/// What this library reads of a colorimetric observer: its luminous
/// efficiency at each wavelength of the working grid, and the constant that
/// turns the weighted sum of a spectrum into a luminance.
#[derive(Clone, Copy, Debug)]
pub struct ObserverData {
    pub ybar: Spectrum,
    pub lumconst: i64,
}

/// The spectrum of a beam of light that reaches the eye.
#[derive(Clone, Copy, Debug)]
pub struct Stimulus(pub Spectrum);

/// The fixed-point product of two fixed-point values.
pub open spec fn times_of(a: int, b: int) -> Option<int> {
    ratio(a * b, SCALE as int)
}

/// A spectrum with every sample multiplied by `factor`: present when every
/// product can be held.
pub open spec fn scaled_of(s: Seq<int>, factor: int) -> Option<Seq<int>> {
    if forall|k: int| 0 <= k < 401 ==> (#[trigger] times_of(s[k], factor)) is Some {
        Some(Seq::new(401, |k: int| times_of(s[k], factor)->0))
    } else {
        None
    }
}

/// The sum of sample `k` over the first `n` of the spectra `items`.
pub open spec fn column_sum(items: Seq<Seq<int>>, k: int, n: int) -> int
    decreases n,
{
    if n <= 0 {
        0
    } else {
        column_sum(items, k, n - 1) + items[n - 1][k]
    }
}

/// The sum of the spectra `items`, sample by sample: present when every sum
/// can be held.
pub open spec fn sum_of(items: Seq<Seq<int>>) -> Option<Seq<int>> {
    if forall|k: int|
        0 <= k < 401 ==> fits(#[trigger] column_sum(items, k, items.len() as int)) {
        Some(Seq::new(401, |k: int| column_sum(items, k, items.len() as int)))
    } else {
        None
    }
}

/// The value of a channel given as one of 256 levels: `level / 255`.
pub open spec fn channel_of(level: int) -> int {
    floor_div(level * SCALE, 255)
}

/// The spectrum of primary `i` of a pixel, weighted by the channel's value
/// and the primary's luminance.
pub open spec fn primary_of(rgb: RGB, i: int) -> Option<Seq<int>> {
    match times_of(rgb.rgb[i] as int, rgb.space.yrgb[i] as int) {
        Some(weight) => scaled_of(rgb.space.primaries[i]@, weight),
        None => None,
    }
}

/// The stimulus of a pixel: the sum of its three weighted primary spectra.
pub open spec fn stimulus_of(rgb: RGB) -> Option<Seq<int>> {
    match (primary_of(rgb, 0), primary_of(rgb, 1), primary_of(rgb, 2)) {
        (Some(r), Some(g), Some(b)) => sum_of(seq![r, g, b]),
        _ => None,
    }
}

/// The weighted sum of the first `n` samples of the spectrum `s`, with the
/// weights `w`.
pub open spec fn dot_of(w: Seq<int>, s: Seq<int>, n: int) -> int
    decreases n,
{
    if n <= 0 {
        0
    } else {
        dot_of(w, s, n - 1) + floor_div(w[n - 1] * s[n - 1], SCALE as int)
    }
}

/// The luminance of the spectrum `s` for an observer: the sum of the samples
/// weighted by the luminous efficiency, times the observer's constant.
pub open spec fn luminance_of(obs: ObserverData, s: Seq<int>) -> int {
    floor_div(obs.lumconst * dot_of(obs.ybar@, s, 401), SCALE as int)
}

/// The spectrum `s` rescaled to the luminance `luminance`: present when the
/// luminance of `s` is not zero, the product of the observer's constant and
/// the weighted sum stays within 128 bits, and every new sample can be held.
pub open spec fn relit_of(obs: ObserverData, s: Seq<int>, luminance: int) -> Option<Seq<int>> {
    let now = luminance_of(obs, s);
    if !wide(obs.lumconst * dot_of(obs.ybar@, s, 401)) {
        None
    } else if forall|k: int| 0 <= k < 401 ==> (#[trigger] ratio(s[k] * luminance, now)) is Some {
        Some(Seq::new(401, |k: int| ratio(s[k] * luminance, now)->0))
    } else {
        None
    }
}

/// Each term of the weighted sum is far smaller than 128 bits, and so is the
/// sum of 401 of them.
proof fn lemma_dot_bound(w: Seq<int>, s: Seq<int>, n: int)
    requires
        0 <= n <= 401,
        w.len() == 401,
        s.len() == 401,
        forall|k: int| 0 <= k < 401 ==> fits(#[trigger] w[k]),
        forall|k: int| 0 <= k < 401 ==> fits(#[trigger] s[k]),
    ensures
        -n * 0x4000_0000_0000_0000_0000_0000_0000 <= dot_of(w, s, n) <= n
            * 0x4000_0000_0000_0000_0000_0000_0000,
    decreases n,
{
    if n > 0 {
        lemma_dot_bound(w, s, n - 1);
        let a: int = w[n - 1];
        let b: int = s[n - 1];
        assert(fits(a) && fits(b));
        lemma_mul_bound(a, b, 0x8000_0000_0000_0000int, 0x8000_0000_0000_0000int);
        let t: int = a * b;
        lemma_floor_div_bounds(t, SCALE as int);
        let q: int = floor_div(t, SCALE as int);
        assert(-0x4000_0000_0000_0000_0000_0000_0000 <= q <= 0x4000_0000_0000_0000_0000_0000_0000)
            by (nonlinear_arith)
            requires
                q * 1_000_000 <= t < (q + 1) * 1_000_000,
                -0x4000_0000_0000_0000_0000_0000_0000_0000 <= t
                    <= 0x4000_0000_0000_0000_0000_0000_0000_0000,
        ;
    }
}

impl View for Stimulus {
    type V = Seq<int>;

    /// The samples as a sequence of integers, in millionths.
    open spec fn view(&self) -> Seq<int> {
        self.0@
    }
}

impl Stimulus {
    /// The spectrum of this stimulus.
    pub fn spectrum(&self) -> (r: &Spectrum)
        ensures
            *r == self.0,
    {
        &self.0
    }

    /// This stimulus with every sample multiplied by `factor`.
    ///
    /// There is none when a product cannot be held.
    pub fn scale(&self, factor: i64) -> (r: Option<Stimulus>)
        ensures
            r matches Some(s) ==> scaled_of(self@, factor as int) == Some(s@),
            r is None ==> scaled_of(self@, factor as int) is None,
    {
        let mut out: [i64; 401] = [0; 401];
        let mut k: usize = 0;
        while k < 401
            invariant
                k <= 401,
                forall|i: int|
                    0 <= i < k ==> (#[trigger] times_of(self@[i], factor as int)) == Some(
                        out[i] as int,
                    ),
            decreases 401 - k,
        {
            proof {
                lemma_mul_bound(
                    self.0.0[k as int] as int,
                    factor as int,
                    0x8000_0000_0000_0000int,
                    0x8000_0000_0000_0000int,
                );
            }
            match quotient((self.0.0[k] as i128) * (factor as i128), SCALE as i128) {
                Some(v) => {
                    out[k] = v;
                },
                None => {
                    assert(times_of(self@[k as int], factor as int) is None);
                    return None;
                },
            }
            k = k + 1;
        }
        let s = Stimulus(Spectrum(out));
        assert(s@ =~= Seq::new(401, |k: int| times_of(self@[k], factor as int)->0));
        Some(s)
    }

    /// The sum of the stimuli `items`, sample by sample; that of none is
    /// dark.
    ///
    /// There is none when a sum cannot be held.
    pub fn sum(items: &[Stimulus]) -> (r: Option<Stimulus>)
        ensures
            r matches Some(s) ==> sum_of(items@.map_values(|t: Stimulus| t@)) == Some(s@),
            r is None ==> sum_of(items@.map_values(|t: Stimulus| t@)) is None,
    {
        let ghost views: Seq<Seq<int>> = items@.map_values(|t: Stimulus| t@);
        let n: usize = items.len();
        let mut out: [i64; 401] = [0; 401];
        let mut k: usize = 0;
        while k < 401
            invariant
                k <= 401,
                n == items@.len(),
                views == items@.map_values(|t: Stimulus| t@),
                forall|i: int|
                    0 <= i < k ==> (#[trigger] column_sum(views, i, n as int)) == out[i] as int,
            decreases 401 - k,
        {
            let mut acc: i128 = 0;
            let mut i: usize = 0;
            while i < n
                invariant
                    i <= n,
                    k < 401,
                    n == items@.len(),
                    views == items@.map_values(|t: Stimulus| t@),
                    acc == column_sum(views, k as int, i as int),
                    -i * 0x8000_0000_0000_0000 <= acc <= i * 0x8000_0000_0000_0000,
                decreases n - i,
            {
                assert(views[i as int][k as int] == items[i as int].0.0[k as int] as int);
                acc = acc + items[i].0.0[k] as i128;
                i = i + 1;
            }
            if acc < i64::MIN as i128 || acc > i64::MAX as i128 {
                assert(!fits(column_sum(views, k as int, n as int)));
                return None;
            }
            out[k] = acc as i64;
            k = k + 1;
        }
        let s = Stimulus(Spectrum(out));
        assert(s@ =~= Seq::new(401, |k: int| column_sum(views, k, n as int)));
        Some(s)
    }

    /// The stimulus of a display pixel of colour `rgb`: the sum of the spectra
    /// of the three primaries, each multiplied by the value of its channel
    /// and by its luminance.
    ///
    /// There is none when a product or a sum cannot be held.
    pub fn rgb(rgb: RGB) -> (r: Option<Stimulus>)
        ensures
            r matches Some(s) ==> stimulus_of(rgb) == Some(s@),
            r is None ==> stimulus_of(rgb) is None,
    {
        let red = Self::primary(&rgb, 0)?;
        let green = Self::primary(&rgb, 1)?;
        let blue = Self::primary(&rgb, 2)?;
        let parts: [Stimulus; 3] = [red, green, blue];
        let items = vstd::array::array_as_slice(&parts);
        assert(items@.map_values(|t: Stimulus| t@) =~= seq![red@, green@, blue@]);
        Self::sum(items)
    }

    /// The spectrum of primary `i` of `rgb`, multiplied by the value of its
    /// channel and by its luminance.
    fn primary(rgb: &RGB, i: usize) -> (r: Option<Stimulus>)
        requires
            i < 3,
        ensures
            r matches Some(s) ==> primary_of(*rgb, i as int) == Some(s@),
            r is None ==> primary_of(*rgb, i as int) is None,
    {
        proof {
            lemma_mul_bound(
                rgb.rgb[i as int] as int,
                rgb.space.yrgb[i as int] as int,
                0x8000_0000_0000_0000int,
                0x8000_0000_0000_0000int,
            );
        }
        let weight = quotient((rgb.rgb[i] as i128) * (rgb.space.yrgb[i] as i128), SCALE as i128)?;
        Stimulus(rgb.space.primaries[i]).scale(weight)
    }

    /// The stimulus of a display pixel whose red, green and blue channels are
    /// set to the levels `r_u8`, `g_u8` and `b_u8` of 255, in the colour space
    /// `space`.
    ///
    /// There is none when a product or a sum cannot be held.
    pub fn srgb(r_u8: u8, g_u8: u8, b_u8: u8, space: RgbSpace) -> (r: Option<Stimulus>)
        ensures
            r matches Some(s) ==> stimulus_of(
                (RGB {
                    rgb: [
                        channel_of(r_u8 as int) as i64,
                        channel_of(g_u8 as int) as i64,
                        channel_of(b_u8 as int) as i64,
                    ],
                    space,
                }),
            ) == Some(s@),
            r is None ==> stimulus_of(
                (RGB {
                    rgb: [
                        channel_of(r_u8 as int) as i64,
                        channel_of(g_u8 as int) as i64,
                        channel_of(b_u8 as int) as i64,
                    ],
                    space,
                }),
            ) is None,
    {
        let rgb = RGB {
            rgb: [
                (r_u8 as i64) * SCALE / 255,
                (g_u8 as i64) * SCALE / 255,
                (b_u8 as i64) * SCALE / 255,
            ],
            space,
        };
        Self::rgb(rgb)
    }

    /// This stimulus with every sample multiplied by one factor, such that
    /// its luminance for the observer `obs` becomes `luminance`.
    ///
    /// There is none when the stimulus has no luminance to start from, or
    /// when a value cannot be held.
    pub fn set_luminance(self, obs: &ObserverData, luminance: i64) -> (r: Option<Stimulus>)
        ensures
            r matches Some(s) ==> relit_of(*obs, self@, luminance as int) == Some(s@),
            r is None ==> relit_of(*obs, self@, luminance as int) is None,
    {
        let mut dot: i128 = 0;
        let mut k: usize = 0;
        while k < 401
            invariant
                k <= 401,
                dot == dot_of(obs.ybar@, self@, k as int),
                -k * 0x4000_0000_0000_0000_0000_0000_0000 <= dot <= k
                    * 0x4000_0000_0000_0000_0000_0000_0000,
            decreases 401 - k,
        {
            proof {
                lemma_dot_bound(obs.ybar@, self@, k as int + 1);
                lemma_mul_bound(
                    obs.ybar.0[k as int] as int,
                    self.0.0[k as int] as int,
                    0x8000_0000_0000_0000int,
                    0x8000_0000_0000_0000int,
                );
            }
            let term: i128 = div_floor((obs.ybar.0[k] as i128) * (self.0.0[k] as i128), SCALE as i128);
            dot = dot + term;
            k = k + 1;
        }
        let scaled: i128 = match product(obs.lumconst as i128, dot) {
            Some(t) => t,
            None => {
                return None;
            },
        };
        let now: i128 = div_floor(scaled, SCALE as i128);
        proof {
            lemma_floor_div_bounds(scaled as int, SCALE as int);
            assert(now == luminance_of(*obs, self@));
        }
        let mut out: [i64; 401] = [0; 401];
        let mut k: usize = 0;
        while k < 401
            invariant
                k <= 401,
                now == luminance_of(*obs, self@),
                wide(now as int),
                forall|i: int|
                    0 <= i < k ==> (#[trigger] ratio(self@[i] * luminance, now as int)) == Some(
                        out[i] as int,
                    ),
            decreases 401 - k,
        {
            proof {
                lemma_mul_bound(
                    self.0.0[k as int] as int,
                    luminance as int,
                    0x8000_0000_0000_0000int,
                    0x8000_0000_0000_0000int,
                );
            }
            match quotient((self.0.0[k] as i128) * (luminance as i128), now) {
                Some(v) => {
                    out[k] = v;
                },
                None => {
                    assert(ratio(self@[k as int] * luminance, now as int) is None);
                    return None;
                },
            }
            k = k + 1;
        }
        let s = Stimulus(Spectrum(out));
        assert(s@ =~= Seq::new(401, |k: int| ratio(self@[k] * luminance, now as int)->0));
        Some(s)
    }
}

} // verus!
