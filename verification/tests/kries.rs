use colorimetry::error::CmtError;
use colorimetry::kries::{cd, uv_kries};

#[test]
fn coefficients_of_daylight() {
    // c = (4 - 0.197839 - 3.12224) / 0.312224, d = (1.708 * 0.312224 - 1.481 * 0.197839 + 0.404) / 0.312224
    assert_eq!(cd([197_839, 312_224]), Ok([2_177_670, 2_063_515]));
}

#[test]
fn coefficients_can_be_negative() {
    // c = (4 - 0.6 - 1) / 0.1 = 24, d = (0.1708 - 0.8886 + 0.404) / 0.1 = -3.138
    assert_eq!(cd([600_000, 100_000]), Ok([24_000_000, -3_138_000]));
}

#[test]
fn coefficients_without_v_are_degenerate() {
    assert_eq!(cd([200_000, 0]), Err(CmtError::NumericDegeneracy));
    assert_eq!(cd([0, 0]), Err(CmtError::NumericDegeneracy));
}

#[test]
fn coefficients_beyond_the_format_are_degenerate() {
    // c = 4 * 10^12 - ... and d = 404 * 10^12 / 1000 fit; with u at its least they do not
    assert_eq!(cd([i64::MIN, 1]), Err(CmtError::NumericDegeneracy));
    assert_eq!(cd([0, 1]), Ok([3_999_990_000_000, 404_001_708_000]));
}

#[test]
fn adaptation_from_incandescent_light_to_daylight() {
    let cdt = [711_704, 1_779_263];
    let cdr = [2_177_670, 2_063_515];
    let cdti = [1_142_857, 1_782_000];
    assert_eq!(uv_kries(cdt, cdr, cdti), Ok([204_684, 281_198]));
}

#[test]
fn adaptation_to_the_same_white_returns_the_chromaticity() {
    let white = [2_177_670, 2_063_515];
    let sample = cd([256_000, 336_000]).unwrap();
    let uv = uv_kries(white, white, sample).unwrap();
    assert_eq!(uv, [255_999, 336_000]);
}

#[test]
fn adaptation_is_not_the_identity_between_different_whites() {
    let cdt = [711_704, 1_779_263];
    let cdr = [2_177_670, 2_063_515];
    let sample = cd([256_000, 336_000]).unwrap();
    let uv = uv_kries(cdt, cdr, sample).unwrap();
    assert_ne!(uv, [256_000, 336_000]);
    assert_ne!(uv, [sample[0], sample[1]]);
}

#[test]
fn adaptation_from_a_white_without_coefficient_is_degenerate() {
    assert_eq!(
        uv_kries([0, 1_779_263], [2_177_670, 2_063_515], [1_142_857, 1_782_000]),
        Err(CmtError::NumericDegeneracy)
    );
    assert_eq!(
        uv_kries([711_704, 0], [2_177_670, 2_063_515], [1_142_857, 1_782_000]),
        Err(CmtError::NumericDegeneracy)
    );
}

#[test]
fn adaptation_with_a_vanishing_denominator_is_degenerate() {
    // 16.518 + 1.481 * 0 - 16.518 = 0
    assert_eq!(
        uv_kries([1_000_000, 1_000_000], [1_000_000, 1_000_000], [0, 16_518_000]),
        Err(CmtError::NumericDegeneracy)
    );
}

#[test]
fn adaptation_beyond_the_format_is_degenerate() {
    assert_eq!(
        uv_kries([1, 1], [i64::MAX, 1], [i64::MAX, 1]),
        Err(CmtError::NumericDegeneracy)
    );
}
