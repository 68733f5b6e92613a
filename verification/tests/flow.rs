use colorimetry::cri::{Assessment, Reference, Sighting, CRI};
use colorimetry::error::CmtError;
use colorimetry::tcs::tcs;
use colorimetry::xyz::XYZ;

// A laboratory in floating point for the tests: an analytic approximation of
// the CIE 1931 observer, Planckian radiators, and a temperature estimator
// that looks for the nearest Planckian chromaticity. It has no daylight
// model.

fn lobe(x: f64, mu: f64, s1: f64, s2: f64) -> f64 {
    let s = if x < mu { s1 } else { s2 };
    (-0.5 * ((x - mu) / s).powi(2)).exp()
}

fn observer(l: f64) -> [f64; 3] {
    [
        1.056 * lobe(l, 599.8, 37.9, 31.0) + 0.362 * lobe(l, 442.0, 16.0, 26.7)
            - 0.065 * lobe(l, 501.1, 20.4, 26.2),
        0.821 * lobe(l, 568.8, 46.9, 40.5) + 0.286 * lobe(l, 530.9, 16.3, 31.1),
        1.217 * lobe(l, 437.0, 11.8, 36.0) + 0.681 * lobe(l, 459.0, 26.0, 13.8),
    ]
}

fn planckian(kelvin: f64) -> Vec<f64> {
    (380..=780)
        .map(|l| {
            let m = l as f64 * 1e-9;
            m.powi(-5) / ((1.4388e-2 / (m * kelvin)).exp() - 1.0)
        })
        .collect()
}

/// The tristimulus value of the light `spd` at illuminance 100, seen directly
/// or reflected by a surface.
fn xyz(spd: &[f64], sample: Option<&[i64; 401]>) -> [f64; 3] {
    let mut sum = [0.0; 3];
    let mut y = 0.0;
    for j in 0..401 {
        let bar = observer(380.0 + j as f64);
        let factor = sample.map_or(1.0, |s| s[j] as f64 / 1e6);
        for c in 0..3 {
            sum[c] += spd[j] * factor * bar[c];
        }
        y += spd[j] * bar[1];
    }
    sum.map(|v| 100.0 * v / y)
}

fn fixed(v: [f64; 3]) -> XYZ {
    XYZ {
        x: (v[0] * 1e6).round() as i64,
        y: (v[1] * 1e6).round() as i64,
        z: (v[2] * 1e6).round() as i64,
    }
}

fn sighting(spd: &[f64]) -> Sighting {
    let white = fixed(xyz(spd, None));
    let mut samples = [white; 14];
    for (seen, sample) in samples.iter_mut().zip(tcs().iter()) {
        *seen = fixed(xyz(spd, Some(&sample.0 .0)));
    }
    Sighting { white, samples }
}

fn uv(v: [f64; 3]) -> [f64; 2] {
    let s = v[0] + 15.0 * v[1] + 3.0 * v[2];
    [4.0 * v[0] / s, 6.0 * v[1] / s]
}

/// The square of the distance in chromaticity from the Planckian radiator
/// of the temperature `kelvin`.
fn off_locus(kelvin: f64, at: [f64; 2]) -> f64 {
    let p = uv(xyz(&planckian(kelvin), None));
    (p[0] - at[0]).powi(2) + (p[1] - at[1]).powi(2)
}

/// The correlated colour temperature in millionths of a kelvin, for
/// chromaticities within 0.05 of the Planckian locus.
fn cct(white: XYZ) -> Result<i64, CmtError> {
    let at = uv([white.x as f64, white.y as f64, white.z as f64]);
    let mut best = 1000.0;
    for step in 0..=240 {
        let t = 1000.0 + 100.0 * step as f64;
        if off_locus(t, at) < off_locus(best, at) {
            best = t;
        }
    }
    let (mut lo, mut hi) = (f64::max(1000.0, best - 100.0), best + 100.0);
    for _ in 0..60 {
        let a = lo + (hi - lo) / 3.0;
        let b = hi - (hi - lo) / 3.0;
        if off_locus(a, at) < off_locus(b, at) {
            hi = b;
        } else {
            lo = a;
        }
    }
    let t = (lo + hi) / 2.0;
    if off_locus(t, at).sqrt() > 0.05 {
        Err(CmtError::EstimationDomain)
    } else {
        Ok((t * 1e6).round() as i64)
    }
}

fn reference(which: Reference) -> Result<Sighting, CmtError> {
    match which {
        Reference::Planckian(t) => Ok(sighting(&planckian(t as f64 / 1e6))),
        Reference::Daylight(_) => Err(CmtError::ConstructionDomain),
    }
}

fn render(spd: &[f64]) -> Result<CRI, CmtError> {
    let test = sighting(spd);
    let assessment = Assessment::begin(test, cct(test.white))?;
    assessment.finish(reference(assessment.reference))
}

fn three_band_lamp() -> Vec<f64> {
    (380..=780)
        .map(|l| {
            let l = l as f64;
            0.25 + 1.0 * lobe(l, 436.0, 6.0, 6.0)
                + 2.2 * lobe(l, 545.0, 8.0, 8.0)
                + 1.6 * lobe(l, 611.0, 7.0, 7.0)
                + 0.4 * lobe(l, 580.0, 40.0, 40.0)
        })
        .collect()
}

#[test]
fn a_planckian_radiator_renders_every_sample_faithfully() {
    for kelvin in [2856.0, 3400.0, 4500.0] {
        let cri = render(&planckian(kelvin)).unwrap();
        for ri in cri.as_ref() {
            assert!((*ri as f64 / 1e6 - 100.0).abs() <= 0.05, "{} K: {:?}", kelvin, cri);
        }
    }
}

#[test]
fn a_planckian_radiator_is_estimated_at_its_temperature() {
    for kelvin in [2856.0, 3400.0, 4500.0, 6500.0] {
        let t = cct(sighting(&planckian(kelvin)).white).unwrap();
        assert!((t as f64 / 1e6 - kelvin).abs() < 0.01, "{} K: {}", kelvin, t);
    }
}

#[test]
fn a_three_band_lamp_is_compared_with_a_planckian_radiator() {
    let test = sighting(&three_band_lamp());
    let assessment = Assessment::begin(test, cct(test.white)).unwrap();
    match assessment.reference {
        Reference::Planckian(t) => assert!((t as f64 / 1e6 - 4214.175).abs() < 0.01),
        Reference::Daylight(_) => panic!("a daylight reference at {:?}", assessment.reference),
    }
    let cri = assessment.finish(reference(assessment.reference)).unwrap();
    let expected = [
        77.560790, 73.522561, 54.377480, 75.180801, 68.531731, 56.781505, 79.865974, 65.984545,
        -9.543835, 20.283481, 61.127221, 23.755961, 75.113655, 71.690905,
    ];
    for i in 0..14 {
        assert!((cri.as_ref()[i] as f64 / 1e6 - expected[i]).abs() < 0.002, "sample {}", i + 1);
    }
}

#[test]
fn a_lamp_renders_the_same_every_time() {
    let first = render(&three_band_lamp()).unwrap();
    let second = render(&three_band_lamp()).unwrap();
    assert_eq!(first.as_ref(), second.as_ref());
}

#[test]
fn a_single_line_defeats_the_estimate() {
    let mut spike = vec![0.0; 401];
    spike[70] = 1.0;
    assert_eq!(render(&spike).err(), Some(CmtError::EstimationDomain));
    let green: Vec<f64> = (380..=780).map(|l| lobe(l as f64, 520.0, 3.0, 3.0)).collect();
    assert_eq!(render(&green).err(), Some(CmtError::EstimationDomain));
}

#[test]
fn a_daylight_reference_that_cannot_be_built_ends_the_computation() {
    let test = sighting(&planckian(6500.0));
    let assessment = Assessment::begin(test, cct(test.white)).unwrap();
    assert!(matches!(assessment.reference, Reference::Daylight(_)));
    assert_eq!(render(&planckian(6500.0)).err(), Some(CmtError::ConstructionDomain));
}
