use ta_core::series::Series;
use ta_core::smoothing::SmoothKind;

fn bits(values: &[f32]) -> Vec<u32> {
    values.iter().map(|v| v.to_bits()).collect()
}

fn series(values: &[f32]) -> Series<u32> {
    Series::from_values(bits(values))
}

fn opt_bits(values: &[Option<f32>]) -> Vec<Option<u32>> {
    values.iter().map(|v| v.map(|x| x.to_bits())).collect()
}

#[test]
fn test_ma() {
    let source = series(&[1.0, 2.0, 3.0, 4.0, 5.0]);
    let expected = opt_bits(&[None, None, Some(2.0), Some(3.0), Some(4.0)]);

    let result = source.ma(3);

    assert_eq!(result.to_options(), expected);
}

#[test]
fn test_ema() {
    let source = series(&[1.0, 2.0, 3.0, 4.0, 5.0]);
    let expected = opt_bits(&[Some(1.0), Some(1.5), Some(2.25), Some(3.125), Some(4.0625)]);

    let result = source.ema(3);

    assert_eq!(result.to_options(), expected);
}

#[test]
fn test_smma() {
    let source = series(&[1.0, 2.0, 3.0, 4.0, 5.0]);
    let expected = opt_bits(&[None, None, Some(2.0), Some(2.6666665), Some(3.4444442)]);

    let result = source.smma(3);

    assert_eq!(result.to_options(), expected);
}

#[test]
fn test_wma() {
    let source = series(&[1.0, 2.0, 3.0, 4.0, 5.0]);
    let expected = opt_bits(&[
        None,
        None,
        Some(2.3333333),
        Some(3.3333333),
        Some(4.3333335),
    ]);

    let result = source.wma(3);

    assert_eq!(result.to_options(), expected);
}

#[test]
fn test_swma() {
    let source = series(&[1.0, 2.0, 3.0, 4.0, 5.0]);
    let expected = opt_bits(&[None, None, None, Some(2.5), Some(3.5)]);

    let result = source.swma();

    assert_eq!(result.to_options(), expected);
}

#[test]
fn test_linreg() {
    let source = series(&[
        7.1135, 7.088, 7.112, 7.1205, 7.1195, 7.136, 7.1405, 7.112, 7.1095, 7.1220, 7.1310,
        7.1550, 7.1480, 7.1435, 7.1405, 7.1440, 7.1495, 7.1515, 7.1415, 7.1445, 7.1525, 7.1440,
        7.1370, 7.1305, 7.1375, 7.1250, 7.1190, 7.1135, 7.1280, 7.1220, 7.1230, 7.1225, 7.1180,
        7.1250, 7.1230, 7.1130, 7.1210, 7.13, 7.134, 7.132, 7.116, 7.1235, 7.1645, 7.1565,
        7.1560,
    ]);

    let expected = opt_bits(&[
        None,
        None,
        Some(7.10375),
        Some(7.1230836),
        Some(7.121082),
        Some(7.133084),
        Some(7.1425056),
        Some(7.117501),
        Some(7.1051655),
        Some(7.1194954),
        Some(7.13158),
        Some(7.152491),
        Some(7.1531696),
        Some(7.143088),
        Some(7.140269),
        Some(7.142896),
        Some(7.1491756),
        Some(7.1520867),
        Some(7.1434836),
        Some(7.1423316),
        Some(7.15166),
        Some(7.146748),
        Some(7.136764),
        Some(7.1304145),
        Some(7.1352515),
        Some(7.1282535),
        Some(7.117897),
        Some(7.113399),
        Some(7.124653),
        Some(7.125424),
        Some(7.121816),
        Some(7.122751),
        Some(7.118672),
        Some(7.1230693),
        Some(7.124495),
        Some(7.114359),
        Some(7.1180387),
        Some(7.1298475),
        Some(7.1348333),
        Some(7.133007),
        Some(7.1183147),
        Some(7.1196218),
        Some(7.15893),
        Some(7.164693),
        Some(7.1547427),
    ]);

    let result = source.linreg(3);

    assert_eq!(result.to_options(), expected);
}

#[test]
fn smma_test_smma() {
    let source = series(&[1.0, 2.0, 3.0, 4.0, 5.0]);
    let expected = [2.0, 2.6666665, 3.4444442];
    let epsilon = 0.001;

    let result = source.smma(3).to_options();

    assert_eq!(result[0], None);
    assert_eq!(result[1], None);
    for i in 0..expected.len() {
        let got = f32::from_bits(result[i + 2].unwrap());
        assert!(
            (got - expected[i]).abs() < epsilon,
            "at position {}: {} != {}",
            i + 2,
            got,
            expected[i]
        )
    }
}

#[test]
fn test_hma() {
    let source = series(&[1.0, 2.0, 3.0, 4.0, 5.0]);
    let expected = opt_bits(&[None, None, Some(3.0000002), Some(4.0), Some(4.9999995)]);

    let result = source.hma(3);

    assert_eq!(result.to_options(), expected);
}

#[test]
fn test_ew_bootstrap_reset() {
    // A null in the source interrupts the recurrence; the next element
    // falls back to the seed (here the source itself), and the blend
    // resumes from there.
    let source = Series::from_options(opt_bits(&[
        Some(1.0),
        Some(2.0),
        None,
        Some(4.0),
        Some(5.0),
    ]));
    let expected = opt_bits(&[Some(1.0), Some(1.5), None, Some(4.0), Some(4.5)]);

    let result = source.ema(3);

    assert_eq!(result.to_options(), expected);
}

#[test]
fn test_ma_divides_by_nominal_width() {
    // A window that contains a null still divides by the full nominal
    // width, not by the count of present values actually summed.
    let source = Series::from_options(opt_bits(&[
        None,
        Some(1.0),
        Some(2.0),
        Some(3.0),
        Some(4.0),
    ]));
    let expected = opt_bits(&[None, None, Some(1.0), Some(2.0), Some(3.0)]);

    let result = source.ma(3);

    assert_eq!(result.to_options(), expected);
}

#[test]
fn test_wma_of_constant_is_constant() {
    // The weighted average of a constant is the constant, everywhere the
    // result is non-null.
    for c in [7.1135f32, 0.1, 2.0, 42.5] {
        let source = series(&[c, c, c, c, c]);
        let expected = opt_bits(&[None, None, Some(c), Some(c), Some(c)]);

        let result = source.wma(3);

        assert_eq!(result.to_options(), expected);
    }
}

#[test]
fn test_repeated_evaluation_is_bit_identical() {
    let values = [7.1135, 7.088, 7.112, 7.1205, 7.1195, 7.136, 7.1405];
    let first = series(&values);
    let second = series(&values);

    assert_eq!(first.ma(3).to_options(), second.ma(3).to_options());
    assert_eq!(first.ema(3).to_options(), second.ema(3).to_options());
    assert_eq!(first.smma(3).to_options(), second.smma(3).to_options());
    assert_eq!(first.wma(3).to_options(), second.wma(3).to_options());
    assert_eq!(first.swma().to_options(), second.swma().to_options());
    assert_eq!(first.hma(3).to_options(), second.hma(3).to_options());
    assert_eq!(first.linreg(3).to_options(), second.linreg(3).to_options());
}

#[test]
fn test_smooth_dispatch_matches_named_transforms() {
    let s = series(&[1.0, 2.0, 3.0, 4.0, 5.0]);
    assert_eq!(
        s.smooth(SmoothKind::Simple, 3).to_options(),
        s.ma(3).to_options()
    );
    assert_eq!(
        s.smooth(SmoothKind::Exponential, 3).to_options(),
        s.ema(3).to_options()
    );
    assert_eq!(
        s.smooth(SmoothKind::Smoothed, 3).to_options(),
        s.smma(3).to_options()
    );
    assert_eq!(
        s.smooth(SmoothKind::Weighted, 3).to_options(),
        s.wma(3).to_options()
    );
    assert_eq!(
        s.smooth(SmoothKind::Hull, 3).to_options(),
        s.hma(3).to_options()
    );
}

#[test]
fn test_isqrt() {
    assert_eq!(ta_core::smoothing::isqrt(0), 0);
    assert_eq!(ta_core::smoothing::isqrt(1), 1);
    assert_eq!(ta_core::smoothing::isqrt(3), 1);
    assert_eq!(ta_core::smoothing::isqrt(4), 2);
    assert_eq!(ta_core::smoothing::isqrt(8), 2);
    assert_eq!(ta_core::smoothing::isqrt(9), 3);
    assert_eq!(ta_core::smoothing::isqrt(144), 12);
    assert_eq!(ta_core::smoothing::isqrt(145), 12);
}
