use colorimetry::error::CmtError;
use colorimetry::xyz::{uvw64_at, XYZ};

const D65: XYZ = XYZ { x: 95_047_000, y: 100_000_000, z: 108_883_000 };

#[test]
fn chromaticity_of_daylight() {
    // u = 4 * 95.047 / 1921.696 = 0.197839..., v = 600 / 1921.696 = 0.312224...
    assert_eq!(D65.uv60(), Ok([197_839, 312_224]));
}

#[test]
fn chromaticity_of_the_equal_energy_white() {
    // u = 4 / 19, v = 6 / 19
    let e = XYZ { x: 1_000_000, y: 1_000_000, z: 1_000_000 };
    assert_eq!(e.uv60(), Ok([210_526, 315_789]));
}

#[test]
fn chromaticity_of_black_is_degenerate() {
    let black = XYZ { x: 0, y: 0, z: 0 };
    assert_eq!(black.uv60(), Err(CmtError::NumericDegeneracy));
    // x + 15y + 3z = 0 without any component being zero
    let odd = XYZ { x: -3_000_000, y: 1_000_000, z: -4_000_000 };
    assert_eq!(odd.uv60(), Err(CmtError::NumericDegeneracy));
}

#[test]
fn chromaticity_beyond_the_format_is_degenerate() {
    // the sum is 1, so u would be 4 * (2^63 - 1) * 10^6
    let d = XYZ { x: i64::MAX, y: 0, z: -(i64::MAX / 3) };
    assert_eq!(d.x as i128 + 3 * d.z as i128, 1);
    assert_eq!(d.uv60(), Err(CmtError::NumericDegeneracy));
}

#[test]
fn tristimulus_from_chromaticity_and_luminance() {
    assert_eq!(
        XYZ::try_from_luv60(197_839, 312_224, 100_000_000),
        Ok(XYZ { x: 95_046_665, y: 100_000_000, z: 108_883_525 })
    );
    assert_eq!(
        XYZ::try_from_luv60(197_830, 312_210, 50_000_000),
        Ok(XYZ { x: 47_523_301, y: 50_000_000, z: 54_456_135 })
    );
}

#[test]
fn tristimulus_and_chromaticity_are_inverse() {
    let c = XYZ::try_from_luv60(256_000, 336_000, 35_000_000).unwrap();
    let uv = c.uv60().unwrap();
    assert!((uv[0] - 256_000).abs() <= 1);
    assert!((uv[1] - 336_000).abs() <= 1);
    assert_eq!(c.y, 35_000_000);
}

#[test]
fn tristimulus_without_v_is_degenerate() {
    assert_eq!(XYZ::try_from_luv60(200_000, 0, 50_000_000), Err(CmtError::NumericDegeneracy));
}

#[test]
fn tristimulus_beyond_the_format_is_degenerate() {
    assert_eq!(XYZ::try_from_luv60(4_000_000, 1, i64::MAX), Err(CmtError::NumericDegeneracy));
    assert_eq!(XYZ::try_from_luv60(i64::MAX, 1, i64::MAX), Err(CmtError::NumericDegeneracy));
    assert_eq!(XYZ::try_from_luv60(i64::MIN, i64::MAX, i64::MIN), Err(CmtError::NumericDegeneracy));
    assert_eq!(XYZ::try_from_luv60(0, i64::MIN, i64::MAX), Err(CmtError::NumericDegeneracy));
}

#[test]
fn uniform_space_of_the_white_point() {
    // W* = 25 * 100^(1/3) - 17 = 99.0397...
    assert_eq!(D65.uvw64(D65), Ok([0, 0, 99_039_700]));
}

#[test]
fn uniform_space_of_a_colour() {
    let c = XYZ { x: 40_000_000, y: 35_000_000, z: 20_000_000 };
    assert_eq!(c.uvw64(D65), Ok([48_977_171, 20_021_685, 64_776_650]));
}

#[test]
fn lightness_of_unit_luminance_is_eight() {
    assert_eq!(uvw64_at([0, 0], 1_000_000, [0, 0]), Ok([0, 0, 8_000_000]));
    assert_eq!(uvw64_at([0, 0], 0, [0, 0]), Ok([0, 0, -17_000_000]));
    assert_eq!(uvw64_at([7, 9], 50_000_000, [7, 9]), Ok([0, 0, 75_100_775]));
    assert_eq!(uvw64_at([0, 0], i64::MAX, [0, 0]), Ok([0, 0, 524_270_999_975]));
}

#[test]
fn uniform_space_scales_the_chromaticity_difference() {
    // W* = 8, so U* = 13 * 8 * 0.01 = 1.04 and V* = 13 * 8 * -0.02 = -2.08
    assert_eq!(
        uvw64_at([210_000, 300_000], 1_000_000, [200_000, 320_000]),
        Ok([1_040_000, -2_080_000, 8_000_000])
    );
}

#[test]
fn uniform_space_of_a_negative_luminance_is_degenerate() {
    assert_eq!(uvw64_at([0, 0], -1, [0, 0]), Err(CmtError::NumericDegeneracy));
    let c = XYZ { x: 40_000_000, y: -35_000_000, z: 20_000_000_000 };
    assert_eq!(c.uvw64(D65), Err(CmtError::NumericDegeneracy));
}

#[test]
fn uniform_space_without_chromaticity_is_degenerate() {
    let black = XYZ { x: 0, y: 0, z: 0 };
    assert_eq!(black.uvw64(D65), Err(CmtError::NumericDegeneracy));
    assert_eq!(D65.uvw64(black), Err(CmtError::NumericDegeneracy));
}

#[test]
fn uniform_space_beyond_the_format_is_degenerate() {
    assert_eq!(
        uvw64_at([i64::MAX, 0], i64::MAX, [i64::MIN, 0]),
        Err(CmtError::NumericDegeneracy)
    );
}
