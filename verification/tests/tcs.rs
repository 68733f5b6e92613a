use colorimetry::cri::N_TCS;
use colorimetry::spectrum::{Spectrum, N_SAMPLES};
use colorimetry::tcs::{tcs, TCS5};

#[test]
fn tcs_test() {
    let samples = tcs();
    for (i, s) in samples.iter().enumerate() {
        let at_555: i64 = s.0 .0[175];
        println!("{:2} ({:3})", i + 1, at_555);
    }

    let _labs = [
        [50.1, 38.3, 14.1], [51.6, -21.6, 24.7], [51.2, -20.7, 16.1], [52.4, -7.9, 21.4],
        [51.5, -27.8, -8.2], [51.0, -18.7, -24.4], [51.2, 7.4, -30.7], [51.5, 28.1, -8.4],
        [40.2, 53.3, 25.5], [56.5, -10.5, 58.1], [40.9, -46.6, 17.6], [25.3, 9.2, -43.5],
        [60.0, 14.3, 12.3], [49.8, -18.6, 28.8], [66.9, 18.8, 14.5]
    ];
}

#[test]
fn there_are_fourteen_samples_on_the_working_grid() {
    let samples = tcs();
    assert_eq!(samples.len(), N_TCS);
    assert_eq!(N_TCS, 14);
    assert_eq!(N_SAMPLES, 401);
    for s in samples.iter() {
        assert_eq!(s.0 .0.len(), N_SAMPLES);
    }
}

#[test]
fn tabulated_values_are_kept() {
    let samples = tcs();
    for i in 0..14 {
        for k in 0..81 {
            assert_eq!(samples[i].0 .0[5 * k], 1000 * TCS5[i][k] as i64);
        }
    }
    assert_eq!(samples[0].0 .0[0], 219_000);
    assert_eq!(samples[0].0 .0[5], 239_000);
    assert_eq!(samples[0].0 .0[400], 467_000);
    assert_eq!(samples[8].0 .0[0], 66_000);
    assert_eq!(samples[8].0 .0[400], 839_000);
    assert_eq!(samples[13].0 .0[400], 399_000);
}

#[test]
fn values_in_between_are_interpolated() {
    let samples = tcs();
    // 0.219 and 0.239 at 380 nm and 385 nm
    assert_eq!(samples[0].0 .0[1], 223_000);
    assert_eq!(samples[0].0 .0[2], 227_000);
    assert_eq!(samples[0].0 .0[3], 231_000);
    assert_eq!(samples[0].0 .0[4], 235_000);
    // 0.103 and 0.090 at 385 nm and 390 nm
    assert_eq!(samples[11].0 .0[7], 97_800);
    // 0.066 and 0.062 at 380 nm and 385 nm
    assert_eq!(samples[8].0 .0[1], 65_200);
}

#[test]
fn the_samples_are_the_same_every_time() {
    let first = tcs();
    let second = tcs();
    for i in 0..14 {
        assert_eq!(first[i].0 .0, second[i].0 .0);
    }
}

#[test]
fn interpolation_needs_two_values() {
    assert!(Spectrum::linear_interpolate(&[]).is_none());
    assert!(Spectrum::linear_interpolate(&[1_000_000]).is_none());
    assert!(Spectrum::linear_interpolate(&[1_000_000, 1_000_000]).is_some());
}

#[test]
fn interpolation_between_two_values_is_a_ramp() {
    let s = Spectrum::linear_interpolate(&[0, 4_000_000]).unwrap();
    for j in 0..401 {
        assert_eq!(s.0[j], 10_000 * j as i64);
    }
    let s = Spectrum::linear_interpolate(&[4_000_000, 0]).unwrap();
    for j in 0..401 {
        assert_eq!(s.0[j], 4_000_000 - 10_000 * j as i64);
    }
}

#[test]
fn interpolation_rounds_down() {
    // 1 * j / 400 and -1 * j / 400
    let s = Spectrum::linear_interpolate(&[0, 1]).unwrap();
    assert_eq!(s.0[0], 0);
    assert_eq!(s.0[399], 0);
    assert_eq!(s.0[400], 1);
    let s = Spectrum::linear_interpolate(&[0, -1]).unwrap();
    assert_eq!(s.0[0], 0);
    assert_eq!(s.0[1], -1);
    assert_eq!(s.0[400], -1);
}

#[test]
fn interpolation_of_as_many_values_as_samples_keeps_them() {
    let data: Vec<i64> = (0..401).map(|j| (j * j) as i64 - 7).collect();
    let s = Spectrum::linear_interpolate(&data).unwrap();
    for j in 0..401 {
        assert_eq!(s.0[j], data[j]);
    }
}

#[test]
fn interpolation_of_more_values_than_samples_picks_among_them() {
    let data: Vec<i64> = (0..801).map(|j| 3 * j as i64).collect();
    let s = Spectrum::linear_interpolate(&data).unwrap();
    for j in 0..401 {
        assert_eq!(s.0[j], 6 * j as i64);
    }
}

#[test]
fn interpolation_holds_the_extremes() {
    let s = Spectrum::linear_interpolate(&[i64::MAX, i64::MIN, i64::MAX]).unwrap();
    assert_eq!(s.0[0], i64::MAX);
    assert_eq!(s.0[200], i64::MIN);
    assert_eq!(s.0[400], i64::MAX);
    assert_eq!(s.0[100], -1);
}
