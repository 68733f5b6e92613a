use colorimetry::spectrum::Spectrum;
use colorimetry::stimulus::{ObserverData, RgbSpace, Stimulus, RGB};

fn flat(v: i64) -> Spectrum {
    Spectrum([v; 401])
}

fn space() -> RgbSpace {
    RgbSpace {
        primaries: [flat(1_000_000), flat(2_000_000), flat(500_000)],
        yrgb: [212_600, 715_200, 72_200],
    }
}

#[test]
fn stimulus_of_a_pixel() {
    // 1 * 0.2126 * 1 + 0.5 * 0.7152 * 2 + 0 * 0.0722 * 0.5
    let s = Stimulus::rgb(RGB { rgb: [1_000_000, 500_000, 0], space: space() }).unwrap();
    assert_eq!(s.0 .0, [927_800; 401]);
    assert_eq!(s.spectrum().0, [927_800; 401]);
}

#[test]
fn stimulus_follows_the_primaries_along_the_spectrum() {
    let mut red = [0i64; 401];
    let mut green = [0i64; 401];
    let mut blue = [0i64; 401];
    for k in 0..401 {
        red[k] = 1_000 * k as i64;
        green[k] = 400_000 - 1_000 * k as i64;
        blue[k] = if k == 70 { 9_000_000 } else { 0 };
    }
    let space = RgbSpace {
        primaries: [Spectrum(red), Spectrum(green), Spectrum(blue)],
        yrgb: [250_000, 500_000, 250_000],
    };
    let s = Stimulus::rgb(RGB { rgb: [1_000_000, 1_000_000, 1_000_000], space }).unwrap();
    for k in 0..401 {
        let expected = 250 * k as i64 + 200_000 - 500 * k as i64 + if k == 70 { 2_250_000 } else { 0 };
        assert_eq!(s.0 .0[k], expected);
    }
}

#[test]
fn stimulus_of_levels() {
    // 128 / 255 = 0.501960, 0.501960 * 0.7152 = 0.359001, 0.359001 * 2 = 0.718002
    let s = Stimulus::srgb(255, 128, 0, space()).unwrap();
    assert_eq!(s.0 .0, [930_602; 401]);
    let s = Stimulus::srgb(0, 0, 0, space()).unwrap();
    assert_eq!(s.0 .0, [0; 401]);
    // 0.2126 + 1.4304 + 0.0361
    let s = Stimulus::srgb(255, 255, 255, space()).unwrap();
    assert_eq!(s.0 .0, [1_679_100; 401]);
}

#[test]
fn stimulus_of_levels_is_that_of_their_values() {
    let a = Stimulus::srgb(51, 102, 204, space()).unwrap();
    let b = Stimulus::rgb(RGB { rgb: [200_000, 400_000, 800_000], space: space() }).unwrap();
    assert_eq!(a.0 .0, b.0 .0);
}

#[test]
fn stimulus_beyond_the_format_is_absent() {
    let bright = RgbSpace { primaries: [flat(i64::MAX), flat(i64::MAX), flat(0)], yrgb: [1_000_000; 3] };
    assert!(Stimulus::rgb(RGB { rgb: [1_000_000, 1_000_000, 0], space: bright }).is_none());
    assert!(Stimulus::rgb(RGB { rgb: [1_000_000, 0, 0], space: bright }).is_some());
    assert!(Stimulus::rgb(RGB { rgb: [1_000_001, 0, 0], space: bright }).is_none());
    let heavy = RgbSpace { primaries: [flat(1), flat(1), flat(1)], yrgb: [i64::MAX, 0, 0] };
    assert!(Stimulus::rgb(RGB { rgb: [i64::MAX, 0, 0], space: heavy }).is_none());
}

#[test]
fn scaling_multiplies_every_sample() {
    let s = Stimulus(flat(3_000_000)).scale(-500_000).unwrap();
    assert_eq!(s.0 .0, [-1_500_000; 401]);
    let mut ramp = [0i64; 401];
    for k in 0..401 {
        ramp[k] = k as i64 * 1_000_000;
    }
    let s = Stimulus(Spectrum(ramp)).scale(250_000).unwrap();
    for k in 0..401 {
        assert_eq!(s.0 .0[k], k as i64 * 250_000);
    }
}

#[test]
fn scaling_rounds_down() {
    assert_eq!(Stimulus(flat(1)).scale(1).unwrap().0 .0, [0; 401]);
    assert_eq!(Stimulus(flat(-1)).scale(1).unwrap().0 .0, [-1; 401]);
    assert_eq!(Stimulus(flat(1_500_000)).scale(1).unwrap().0 .0, [1; 401]);
}

#[test]
fn scaling_beyond_the_format_is_absent() {
    assert!(Stimulus(flat(i64::MAX)).scale(1_000_001).is_none());
    assert!(Stimulus(flat(i64::MAX)).scale(1_000_000).is_some());
    let mut one = [0i64; 401];
    one[400] = i64::MIN;
    assert!(Stimulus(Spectrum(one)).scale(2_000_000).is_none());
}

#[test]
fn sum_adds_sample_by_sample() {
    let mut ramp = [0i64; 401];
    for k in 0..401 {
        ramp[k] = k as i64;
    }
    let s = Stimulus::sum(&[Stimulus(flat(5)), Stimulus(Spectrum(ramp)), Stimulus(flat(-7))]).unwrap();
    for k in 0..401 {
        assert_eq!(s.0 .0[k], k as i64 - 2);
    }
}

#[test]
fn sum_of_nothing_is_dark() {
    assert_eq!(Stimulus::sum(&[]).unwrap().0 .0, [0; 401]);
    assert_eq!(Stimulus::sum(&[Stimulus(flat(9))]).unwrap().0 .0, [9; 401]);
}

#[test]
fn sum_beyond_the_format_is_absent() {
    assert!(Stimulus::sum(&[Stimulus(flat(i64::MAX)), Stimulus(flat(1))]).is_none());
    assert!(Stimulus::sum(&[Stimulus(flat(i64::MIN)), Stimulus(flat(-1))]).is_none());
    let s = Stimulus::sum(&[Stimulus(flat(i64::MAX)), Stimulus(flat(1)), Stimulus(flat(-1))]);
    assert_eq!(s.unwrap().0 .0, [i64::MAX; 401]);
}

fn photometer() -> ObserverData {
    let mut ybar = [0i64; 401];
    ybar[175] = 1_000_000;
    ObserverData { ybar: Spectrum(ybar), lumconst: 683_000_000 }
}

#[test]
fn set_luminance_rescales_every_sample() {
    // the luminance is 683 * 2 = 1366, so the factor is 100 / 1366
    let s = Stimulus(flat(2_000_000)).set_luminance(&photometer(), 100_000_000).unwrap();
    assert_eq!(s.0 .0, [146_412; 401]);
    // and to the luminance that it has, it stays as it is
    let s = Stimulus(flat(2_000_000)).set_luminance(&photometer(), 1_366_000_000).unwrap();
    assert_eq!(s.0 .0, [2_000_000; 401]);
}

#[test]
fn set_luminance_weighs_with_the_observer() {
    let mut ybar = [0i64; 401];
    ybar[100] = 500_000;
    ybar[200] = 250_000;
    let obs = ObserverData { ybar: Spectrum(ybar), lumconst: 2_000_000 };
    let mut v = [0i64; 401];
    v[100] = 4_000_000;
    v[200] = 8_000_000;
    v[300] = 6_000_000;
    // the luminance is 2 * (0.5 * 4 + 0.25 * 8) = 8
    let s = Stimulus(Spectrum(v)).set_luminance(&obs, 4_000_000).unwrap();
    assert_eq!(s.0 .0[100], 2_000_000);
    assert_eq!(s.0 .0[200], 4_000_000);
    assert_eq!(s.0 .0[300], 3_000_000);
    assert_eq!(s.0 .0[0], 0);
}

#[test]
fn set_luminance_of_darkness_is_absent() {
    assert!(Stimulus(flat(0)).set_luminance(&photometer(), 100_000_000).is_none());
    let blind = ObserverData { ybar: flat(0), lumconst: 683_000_000 };
    assert!(Stimulus(flat(2_000_000)).set_luminance(&blind, 100_000_000).is_none());
}

#[test]
fn set_luminance_beyond_the_format_is_absent() {
    // the luminance is 0.000001, so the factor would be 10^6 * (2^63 - 1)
    let mut ybar = [0i64; 401];
    ybar[175] = 1;
    let dim = ObserverData { ybar: Spectrum(ybar), lumconst: 500_000 };
    assert!(Stimulus(flat(2_000_000)).set_luminance(&dim, i64::MAX).is_none());
    assert!(Stimulus(flat(2_000_000)).set_luminance(&dim, 1_000_000).is_some());
    let keen = ObserverData { ybar: flat(i64::MAX), lumconst: i64::MAX };
    assert!(Stimulus(flat(i64::MAX)).set_luminance(&keen, 1).is_none());
}
