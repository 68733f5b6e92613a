//! The CIE colour rendering index: how faithfully a light renders the
//! fourteen test colour samples, compared with a reference illuminant of the
//! same correlated colour temperature.
//!
//! The library works on what a colorimetric observer reports (tristimulus
//! values); it neither integrates spectra nor estimates temperatures. An
//! [`Assessment`] leads a caller through the two questions that have to be
//! put to the outside, and every failure that comes back ends it unchanged.
use crate::error::CmtError;
use crate::fixed::{
    fits, floor_div, floor_sqrt, isqrt, lemma_floor_sqrt_at_least, lemma_mul_bound, quotient, SCALE,
};
use crate::kries::{cd, cd_of, uv_kries, uv_kries_of};
use crate::xyz::{
    lemma_rescaled_to_itself, lemma_rescaled_white, luv60_of, rescaled_of, uvw64_against, XYZ,
};
use vstd::prelude::*;

verus! {

/// The number of test colour samples.
pub const N_TCS: usize = 14;

/// The temperature, in millionths of a kelvin, up to which the reference
/// illuminant is a Planckian radiator: 5000 K.
pub const PLANCKIAN_LIMIT: i64 = 5_000_000_000;

/// What an observer reports of one illuminant: the tristimulus value of the
/// illuminant itself and that of each test colour sample under it, in the
/// order of the samples, all on one scale.
#[derive(Clone, Copy, Debug)]
pub struct Sighting {
    pub white: XYZ,
    pub samples: [XYZ; 14],
}

/// The reference illuminant of a colour rendering computation, with its
/// temperature in millionths of a kelvin.
#[derive(Clone, Copy, Debug, PartialEq, Eq, Structural)]
pub enum Reference {
    /// A Planckian radiator.
    Planckian(i64),
    /// The CIE daylight illuminant.
    Daylight(i64),
}

/// The special colour rendering indices `Ri` of the fourteen test colour
/// samples, in their order, each in millionths.
#[derive(Clone, Copy, Debug)]
pub struct CRI([i64; 14]);

/// The square of an integer.
pub open spec fn square(a: int) -> int {
    a * a
}

/// The colour difference between two points of the 1964 uniform space: their
/// Euclidean distance.
pub open spec fn delta_e(a: (int, int, int), b: (int, int, int)) -> int {
    floor_sqrt(square(a.0 - b.0) + square(a.1 - b.1) + square(a.2 - b.2))
}

/// The special index of a colour difference: `100 - 4.6 dE`.
pub open spec fn index_of(de: int) -> int {
    floor_div(1000 * SCALE - 46 * de, 10)
}

/// The special index that belongs to two points of the uniform space, where
/// it can be held.
pub open spec fn index_between_of(a: (int, int, int), b: (int, int, int)) -> Option<int> {
    if fits(index_of(delta_e(a, b))) {
        Some(index_of(delta_e(a, b)))
    } else {
        None
    }
}

/// The tristimulus value that a sample seen as `sample` under the test
/// illuminant would have under the reference illuminant: its chromaticity is
/// adapted from the test white, with coefficients `cdt`, to the reference
/// white, with coefficients `cdr`, and its luminance is kept.
pub open spec fn adapted_of(cdt: (int, int), cdr: (int, int), sample: XYZ) -> Option<
    (int, int, int),
> {
    match sample.uv60_spec() {
        Some((u, v)) => match cd_of(u, v) {
            Some((cti, dti)) => match uv_kries_of(cdt.0, cdt.1, cdr.0, cdr.1, cti, dti) {
                Some((ua, va)) => luv60_of(ua, va, sample.y as int),
                None => None,
            },
            None => None,
        },
        None => None,
    }
}

/// The special index of one sample, seen as `sample_t` under the test
/// illuminant and as `sample_r` under the reference illuminant, whose white
/// point is `white_r`.
pub open spec fn special_index_of(
    cdt: (int, int),
    cdr: (int, int),
    white_r: XYZ,
    sample_t: XYZ,
    sample_r: XYZ,
) -> Option<int> {
    match adapted_of(cdt, cdr, sample_t) {
        Some((x, y, z)) => match (uvw64_against(x, y, z, white_r), sample_r.uvw64_spec(white_r)) {
            (Some(a), Some(b)) => index_between_of(a, b),
            _ => None,
        },
        None => None,
    }
}

/// The adaptation coefficients of a white point.
pub open spec fn white_cd_of(white: XYZ) -> Option<(int, int)> {
    match white.uv60_spec() {
        Some((u, v)) => cd_of(u, v),
        None => None,
    }
}

/// A tristimulus value of the sighting `s`, on the scale on which the white
/// of `s` has the luminance 100.
pub open spec fn at_100_of(s: Sighting, c: XYZ) -> Option<XYZ> {
    rescaled_of(c, 100 * SCALE, s.white.y as int)
}

/// The special index of a sample seen as `sample_t` under a test light of
/// white point `white_t` and as `sample_r` under a reference illuminant of
/// white point `white_r`.
pub open spec fn ri_at(white_t: XYZ, white_r: XYZ, sample_t: XYZ, sample_r: XYZ) -> Option<int> {
    match (white_cd_of(white_t), white_cd_of(white_r)) {
        (Some(cdt), Some(cdr)) => special_index_of(cdt, cdr, white_r, sample_t, sample_r),
        _ => None,
    }
}

/// The special index of sample `i` of a test sighting against a reference
/// sighting, both taken at illuminance 100.
pub open spec fn ri_of(test: Sighting, reference: Sighting, i: int) -> Option<int> {
    match (
        at_100_of(test, test.white),
        at_100_of(reference, reference.white),
        at_100_of(test, test.samples[i]),
        at_100_of(reference, reference.samples[i]),
    ) {
        (Some(white_t), Some(white_r), Some(sample_t), Some(sample_r)) => ri_at(
            white_t,
            white_r,
            sample_t,
            sample_r,
        ),
        _ => None,
    }
}

/// The fourteen special indices of a test sighting against a reference
/// sighting: present when every one of them has a value.
pub open spec fn cri_of(test: Sighting, reference: Sighting) -> Option<Seq<int>> {
    if forall|i: int| 0 <= i < 14 ==> (#[trigger] ri_of(test, reference, i)) is Some {
        Some(Seq::new(14, |i: int| ri_of(test, reference, i)->0))
    } else {
        None
    }
}

/// Whether `r` is the outcome of computing the indices of `test` against
/// `reference`: the fourteen indices where each has a value, and a numeric
/// degeneracy where one has none.
pub open spec fn is_cri_of(test: Sighting, reference: Sighting, r: Result<CRI, CmtError>) -> bool {
    &&& r matches Ok(cri) ==> cri_of(test, reference) == Some(cri@)
    &&& r matches Err(e) ==> e == CmtError::NumericDegeneracy && cri_of(test, reference) is None
}

/// The reference illuminant for a correlated colour temperature.
pub open spec fn reference_of(cct: int) -> Reference {
    if cct <= PLANCKIAN_LIMIT {
        Reference::Planckian(cct as i64)
    } else {
        Reference::Daylight(cct as i64)
    }
}

/// The special index `100 - 4.6 dE` for the colour difference `dE` between
/// the points `a` and `b` of the 1964 uniform space.
///
/// Fails when the index cannot be held.
pub fn index_between(a: [i64; 3], b: [i64; 3]) -> (r: Result<i64, CmtError>)
    ensures
        r matches Ok(ri) ==> index_between_of(
            (a[0] as int, a[1] as int, a[2] as int),
            (b[0] as int, b[1] as int, b[2] as int),
        ) == Some(ri as int),
        r matches Err(e) ==> e == CmtError::NumericDegeneracy && index_between_of(
            (a[0] as int, a[1] as int, a[2] as int),
            (b[0] as int, b[1] as int, b[2] as int),
        ) is None,
        r matches Ok(ri) ==> ri <= 100 * SCALE,
{
    proof {
        lemma_index_at_most_hundred(
            (a[0] as int, a[1] as int, a[2] as int),
            (b[0] as int, b[1] as int, b[2] as int),
        );
    }
    let d0: i128 = a[0] as i128 - b[0] as i128;
    let d1: i128 = a[1] as i128 - b[1] as i128;
    let d2: i128 = a[2] as i128 - b[2] as i128;
    let m0: i128 = if d0 < 0 {
        -d0
    } else {
        d0
    };
    let m1: i128 = if d1 < 0 {
        -d1
    } else {
        d1
    };
    let m2: i128 = if d2 < 0 {
        -d2
    } else {
        d2
    };
    let ghost sum: int = square(d0 as int) + square(d1 as int) + square(d2 as int);
    proof {
        assert(square(d0 as int) == m0 * m0 && m0 * m0 >= 0) by (nonlinear_arith)
            requires
                m0 == d0 || m0 == -d0,
        ;
        assert(square(d1 as int) == m1 * m1 && m1 * m1 >= 0) by (nonlinear_arith)
            requires
                m1 == d1 || m1 == -d1,
        ;
        assert(square(d2 as int) == m2 * m2 && m2 * m2 >= 0) by (nonlinear_arith)
            requires
                m2 == d2 || m2 == -d2,
        ;
    }
    let top: i128 = 0x2000_0000_0000_0000;
    if m0 > top || m1 > top || m2 > top {
        proof {
            let m: int = if m0 > top {
                m0 as int
            } else if m1 > top {
                m1 as int
            } else {
                m2 as int
            };
            lemma_floor_sqrt_at_least(sum, m);
        }
        return Err(CmtError::NumericDegeneracy);
    }
    proof {
        lemma_mul_bound(m0 as int, m0 as int, top as int, top as int);
        lemma_mul_bound(m1 as int, m1 as int, top as int, top as int);
        lemma_mul_bound(m2 as int, m2 as int, top as int, top as int);
    }
    let total: u128 = (m0 * m0) as u128 + (m1 * m1) as u128 + (m2 * m2) as u128;
    let de: u64 = isqrt(total);
    match quotient(1000 * (SCALE as i128) - 46 * (de as i128), 10) {
        Some(ri) => Ok(ri),
        None => Err(CmtError::NumericDegeneracy),
    }
}

/// The special index of one test colour sample.
///
/// `cdt` and `cdr` are the adaptation coefficients of the test and of the
/// reference white, `white_r` is the reference white, and `sample_t` and
/// `sample_r` are the sample as seen under the test and under the reference
/// illuminant. The chromaticity of `sample_t` is adapted to the reference
/// white, made a tristimulus value again with the luminance of `sample_t`,
/// and compared with `sample_r` in the 1964 uniform space about `white_r`.
///
/// Fails when any step has no value.
pub fn special_index(
    cdt: [i64; 2],
    cdr: [i64; 2],
    white_r: XYZ,
    sample_t: XYZ,
    sample_r: XYZ,
) -> (r: Result<i64, CmtError>)
    ensures
        r matches Ok(ri) ==> special_index_of(
            (cdt[0] as int, cdt[1] as int),
            (cdr[0] as int, cdr[1] as int),
            white_r,
            sample_t,
            sample_r,
        ) == Some(ri as int),
        r matches Err(e) ==> e == CmtError::NumericDegeneracy && special_index_of(
            (cdt[0] as int, cdt[1] as int),
            (cdr[0] as int, cdr[1] as int),
            white_r,
            sample_t,
            sample_r,
        ) is None,
{
    let cdti = cd(sample_t.uv60()?)?;
    let uv_vk = uv_kries(cdt, cdr, cdti)?;
    let xyz_vk = XYZ::try_from_luv60(uv_vk[0], uv_vk[1], sample_t.y)?;
    let uvw = xyz_vk.uvw64(white_r)?;
    let uvwr = sample_r.uvw64(white_r)?;
    index_between(uvw, uvwr)
}

/// The reference illuminant that belongs to a correlated colour temperature
/// `cct`, in millionths of a kelvin: a Planckian radiator up to and including
/// 5000 K, the daylight illuminant above.
pub fn reference_for(cct: i64) -> (r: Reference)
    ensures
        r == reference_of(cct as int),
{
    if cct <= PLANCKIAN_LIMIT {
        Reference::Planckian(cct)
    } else {
        Reference::Daylight(cct)
    }
}

impl Sighting {
    /// Whether this sighting is the sighting `s` brought to the illuminance
    /// `illuminance`.
    pub open spec fn is_at(self, s: Sighting, illuminance: int) -> bool {
        &&& rescaled_of(s.white, illuminance, s.white.y as int) == Some(self.white)
        &&& forall|i: int|
            0 <= i < 14 ==> rescaled_of(#[trigger] s.samples[i], illuminance, s.white.y as int)
                == Some(self.samples[i])
    }

    /// Whether this sighting can be brought to the illuminance `illuminance`.
    pub open spec fn has_at(self, illuminance: int) -> bool {
        &&& rescaled_of(self.white, illuminance, self.white.y as int) is Some
        &&& forall|i: int|
            0 <= i < 14 ==> rescaled_of(#[trigger] self.samples[i], illuminance, self.white.y as int)
                is Some
    }

    /// This sighting as it would be if the illuminant were dimmed or
    /// brightened to the illuminance `illuminance`: every component is
    /// multiplied by `illuminance / white.y`, which makes `illuminance` the
    /// luminance of the white.
    ///
    /// Fails when the white has no luminance or a component cannot be held.
    pub fn set_illuminance(&self, illuminance: i64) -> (r: Result<Sighting, CmtError>)
        ensures
            r matches Ok(s) ==> s.is_at(*self, illuminance as int),
            r matches Err(e) ==> e == CmtError::NumericDegeneracy && !self.has_at(
                illuminance as int,
            ),
            r matches Ok(s) ==> s.white.y == illuminance,
            self.white.y == illuminance && illuminance != 0 ==> r == Ok::<Sighting, CmtError>(
                *self,
            ),
    {
        let white = self.white.rescaled(illuminance, self.white.y)?;
        proof {
            lemma_rescaled_white(self.white, illuminance as int);
        }
        let mut samples: [XYZ; 14] = self.samples;
        let mut i: usize = 0;
        while i < 14
            invariant
                i <= 14,
                forall|j: int|
                    0 <= j < i ==> rescaled_of(
                        #[trigger] self.samples[j],
                        illuminance as int,
                        self.white.y as int,
                    ) == Some(samples[j]),
            decreases 14 - i,
        {
            match self.samples[i].rescaled(illuminance, self.white.y) {
                Ok(c) => {
                    samples[i] = c;
                },
                Err(e) => {
                    assert(rescaled_of(
                        self.samples[i as int],
                        illuminance as int,
                        self.white.y as int,
                    ) is None);
                    return Err(e);
                },
            }
            i = i + 1;
        }
        proof {
            if self.white.y == illuminance && illuminance != 0 {
                assert forall|j: int| 0 <= j < 14 implies samples[j] == self.samples[j] by {
                    lemma_rescaled_to_itself(self.samples[j], illuminance as int);
                }
                assert(samples =~= self.samples);
            }
        }
        Ok(Sighting { white, samples })
    }
}

/// A colour rendering computation under way. The test light has been
/// observed and its correlated colour temperature estimated, which fixes the
/// reference illuminant; what is missing is the observer's report on that
/// illuminant.
#[derive(Clone, Copy, Debug)]
pub struct Assessment {
    /// The test light as the observer saw it.
    pub test: Sighting,
    /// The reference illuminant that has to be built and observed next.
    pub reference: Reference,
}

impl Assessment {
    /// Begins a computation with the sighting of the test light and the
    /// answer of the temperature estimator to `test.white`.
    ///
    /// A failed estimate ends the computation with the estimator's error.
    pub fn begin(test: Sighting, cct: Result<i64, CmtError>) -> (r: Result<Assessment, CmtError>)
        ensures
            cct matches Ok(t) ==> r matches Ok(a) && a.test == test && a.reference == reference_of(
                t as int,
            ),
            cct matches Err(e) ==> r matches Err(f) && f == e,
    {
        match cct {
            Ok(t) => Ok(Assessment { test, reference: reference_for(t) }),
            Err(e) => Err(e),
        }
    }

    /// Completes the computation with the sighting of `self.reference`,
    /// built and scaled to illuminance 100.
    ///
    /// A reference illuminant that could not be built ends the computation
    /// with the builder's error; otherwise the outcome is that of
    /// [`CRI::try_new`].
    pub fn finish(&self, reference: Result<Sighting, CmtError>) -> (r: Result<CRI, CmtError>)
        ensures
            reference matches Ok(s) ==> is_cri_of(self.test, s, r),
            reference matches Err(e) ==> r matches Err(f) && f == e,
    {
        match reference {
            Ok(s) => CRI::try_new(&self.test, &s),
            Err(e) => Err(e),
        }
    }
}

/// Where a sighting cannot be brought to illuminance 100, some index has no
/// value.
pub proof fn lemma_no_sighting_no_index(test: Sighting, reference: Sighting)
    requires
        !test.has_at(100 * SCALE) || !reference.has_at(100 * SCALE),
    ensures
        cri_of(test, reference) is None,
{
    if !test.has_at(100 * SCALE) {
        if at_100_of(test, test.white) is Some {
            let k = choose|k: int| 0 <= k < 14 && at_100_of(test, test.samples[k]) is None;
            assert(ri_of(test, reference, k) is None);
        } else {
            assert(ri_of(test, reference, 0) is None);
        }
    } else {
        if at_100_of(reference, reference.white) is Some {
            let k = choose|k: int|
                0 <= k < 14 && at_100_of(reference, reference.samples[k]) is None;
            assert(ri_of(test, reference, k) is None);
        } else {
            assert(ri_of(test, reference, 0) is None);
        }
    }
}

/// No special index exceeds 100.
pub proof fn lemma_index_at_most_hundred(a: (int, int, int), b: (int, int, int))
    ensures
        index_of(delta_e(a, b)) <= 100 * SCALE,
{
    let sum: int = square(a.0 - b.0) + square(a.1 - b.1) + square(a.2 - b.2);
    assert(square(a.0 - b.0) >= 0 && square(a.1 - b.1) >= 0 && square(a.2 - b.2) >= 0)
        by (nonlinear_arith);
    lemma_floor_sqrt_at_least(sum, 0);
}

/// An index is 100 at most, however well or badly a sample is rendered, and
/// nothing bounds it from below but the format.
pub proof fn lemma_cri_at_most_hundred(test: Sighting, reference: Sighting, indices: Seq<int>)
    requires
        cri_of(test, reference) == Some(indices),
    ensures
        indices.len() == 14,
        forall|i: int| 0 <= i < 14 ==> fits(#[trigger] indices[i]) && indices[i] <= 100 * SCALE,
{
    assert forall|i: int| 0 <= i < 14 implies fits(#[trigger] indices[i]) && indices[i] <= 100
        * SCALE by {
        assert(ri_of(test, reference, i) == Some(indices[i]));
        let white_t = at_100_of(test, test.white)->0;
        let white_r = at_100_of(reference, reference.white)->0;
        let sample_t = at_100_of(test, test.samples[i])->0;
        let sample_r = at_100_of(reference, reference.samples[i])->0;
        let cdt = white_cd_of(white_t)->0;
        let cdr = white_cd_of(white_r)->0;
        let adapted = adapted_of(cdt, cdr, sample_t)->0;
        let a = uvw64_against(adapted.0, adapted.1, adapted.2, white_r)->0;
        let b = sample_r.uvw64_spec(white_r)->0;
        assert(index_between_of(a, b) == Some(indices[i]));
        lemma_index_at_most_hundred(a, b);
    }
}

/// Computing the indices twice from the same sightings gives the same
/// outcome: the same fourteen values, or a failure both times.
pub proof fn lemma_cri_deterministic(
    test: Sighting,
    reference: Sighting,
    first: Result<CRI, CmtError>,
    second: Result<CRI, CmtError>,
)
    requires
        is_cri_of(test, reference, first),
        is_cri_of(test, reference, second),
    ensures
        first == second,
{
    match (first, second) {
        (Ok(a), Ok(b)) => {
            assert(a@ == b@);
            assert forall|i: int| 0 <= i < 14 implies a.0[i] == b.0[i] by {
                assert(a@[i] == b@[i]);
            }
            assert(a.0 =~= b.0);
        },
        _ => {},
    }
}

impl View for CRI {
    type V = Seq<int>;

    /// The indices as a sequence of integers, in millionths.
    closed spec fn view(&self) -> Seq<int> {
        Seq::new(14, |i: int| self.0[i] as int)
    }
}

impl CRI {
    /// The special indices of the light seen as `test`, against the reference
    /// illuminant seen as `reference`.
    ///
    /// Both sightings are first brought to illuminance 100. Then the
    /// chromaticity of each sample under the test light is adapted to the
    /// white of the reference, and its distance in the 1964 uniform space from
    /// the same sample under the reference gives the index.
    ///
    /// Fails, with no partial result, when any of the fourteen indices has no
    /// value.
    pub fn try_new(test: &Sighting, reference: &Sighting) -> (r: Result<CRI, CmtError>)
        ensures
            is_cri_of(*test, *reference, r),
    {
        let t = match test.set_illuminance(100 * SCALE) {
            Ok(t) => t,
            Err(e) => {
                proof {
                    lemma_no_sighting_no_index(*test, *reference);
                }
                return Err(e);
            },
        };
        let f = match reference.set_illuminance(100 * SCALE) {
            Ok(f) => f,
            Err(e) => {
                proof {
                    lemma_no_sighting_no_index(*test, *reference);
                }
                return Err(e);
            },
        };
        let r = Self::of_sightings_at_100(&t, &f);
        proof {
            assert forall|i: int| 0 <= i < 14 implies ri_of(*test, *reference, i) == ri_at(
                t.white,
                f.white,
                t.samples[i],
                f.samples[i],
            ) by {
                assert(at_100_of(*test, test.samples[i]) == Some(t.samples[i]));
                assert(at_100_of(*reference, reference.samples[i]) == Some(f.samples[i]));
            }
            match r {
                Ok(cri) => {
                    assert forall|i: int| 0 <= i < 14 implies (#[trigger] ri_of(
                        *test,
                        *reference,
                        i,
                    )) == Some(cri@[i]) by {
                        assert(ri_at(t.white, f.white, t.samples[i], f.samples[i]) == Some(
                            cri@[i],
                        ));
                    }
                    assert(cri@ =~= Seq::new(14, |i: int| ri_of(*test, *reference, i)->0));
                },
                Err(_) => {
                    let k = choose|i: int|
                        0 <= i < 14 && (#[trigger] ri_at(
                            t.white,
                            f.white,
                            t.samples[i],
                            f.samples[i],
                        )) is None;
                    assert(ri_of(*test, *reference, k) is None);
                },
            }
        }
        r
    }

    /// The special indices for two sightings that are at illuminance 100
    /// already.
    fn of_sightings_at_100(t: &Sighting, f: &Sighting) -> (r: Result<CRI, CmtError>)
        ensures
            r matches Ok(cri) ==> forall|i: int|
                0 <= i < 14 ==> (#[trigger] ri_at(t.white, f.white, t.samples[i], f.samples[i]))
                    == Some(cri@[i]),
            r matches Err(e) ==> e == CmtError::NumericDegeneracy && exists|i: int|
                0 <= i < 14 && (#[trigger] ri_at(t.white, f.white, t.samples[i], f.samples[i]))
                    is None,
    {
        let cdt = match t.white.uv60() {
            Ok(uv) => match cd(uv) {
                Ok(k) => k,
                Err(e) => {
                    assert(ri_at(t.white, f.white, t.samples[0], f.samples[0]) is None);
                    return Err(e);
                },
            },
            Err(e) => {
                assert(ri_at(t.white, f.white, t.samples[0], f.samples[0]) is None);
                return Err(e);
            },
        };
        let cdr = match f.white.uv60() {
            Ok(uv) => match cd(uv) {
                Ok(k) => k,
                Err(e) => {
                    assert(ri_at(t.white, f.white, t.samples[0], f.samples[0]) is None);
                    return Err(e);
                },
            },
            Err(e) => {
                assert(ri_at(t.white, f.white, t.samples[0], f.samples[0]) is None);
                return Err(e);
            },
        };
        let mut ri: [i64; 14] = [0; 14];
        let mut i: usize = 0;
        while i < 14
            invariant
                i <= 14,
                white_cd_of(t.white) == Some((cdt[0] as int, cdt[1] as int)),
                white_cd_of(f.white) == Some((cdr[0] as int, cdr[1] as int)),
                forall|j: int|
                    0 <= j < i ==> (#[trigger] ri_at(
                        t.white,
                        f.white,
                        t.samples[j],
                        f.samples[j],
                    )) == Some(ri[j] as int),
            decreases 14 - i,
        {
            match special_index(cdt, cdr, f.white, t.samples[i], f.samples[i]) {
                Ok(v) => {
                    ri[i] = v;
                },
                Err(e) => {
                    assert(ri_at(t.white, f.white, t.samples[i as int], f.samples[i as int])
                        is None);
                    return Err(e);
                },
            }
            i = i + 1;
        }
        let cri = CRI(ri);
        assert forall|i: int| 0 <= i < 14 implies (#[trigger] ri_at(
            t.white,
            f.white,
            t.samples[i],
            f.samples[i],
        )) == Some(cri@[i]) by {
            assert(cri@[i] == ri[i] as int);
        }
        Ok(cri)
    }

    /// The fourteen indices, in the order of the samples.
    pub fn as_ref(&self) -> (r: &[i64; 14])
        ensures
            r@.len() == 14,
            forall|i: int| 0 <= i < 14 ==> r[i] as int == self@[i],
    {
        &self.0
    }
}

} // verus!
