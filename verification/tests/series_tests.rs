use ta_core::series::Series;

fn bits(values: &[f32]) -> Vec<u32> {
    values.iter().map(|v| v.to_bits()).collect()
}

fn series(values: &[f32]) -> Series<u32> {
    Series::from_values(bits(values))
}

fn opt_bits(values: &[Option<f32>]) -> Vec<Option<u32>> {
    values.iter().map(|v| v.map(|x| x.to_bits())).collect()
}

#[test]
fn test_from_values_wraps_everything_present() {
    let s = series(&[1.0, 2.0, 3.0]);
    assert_eq!(s.len(), 3);
    assert_eq!(
        s.to_options(),
        opt_bits(&[Some(1.0), Some(2.0), Some(3.0)])
    );
}

#[test]
fn test_fill_zero_empty_constructors() {
    let filled = Series::fill(2.5f32.to_bits(), 4);
    assert_eq!(
        filled.to_options(),
        opt_bits(&[Some(2.5), Some(2.5), Some(2.5), Some(2.5)])
    );

    let zero = Series::zero(3);
    assert_eq!(zero.to_options(), opt_bits(&[Some(0.0), Some(0.0), Some(0.0)]));

    let empty: Series<u32> = Series::empty(2);
    assert_eq!(empty.to_options(), vec![None, None]);
}

#[test]
fn test_shift_lags_and_nulls_prefix() {
    let s = series(&[1.0, 2.0, 3.0, 4.0, 5.0]);
    let shifted = s.shift(2);
    assert_eq!(
        shifted.to_options(),
        opt_bits(&[None, None, Some(1.0), Some(2.0), Some(3.0)])
    );
}

#[test]
fn test_shift_zero_is_identity() {
    let s = series(&[1.0, 2.0, 3.0]);
    assert_eq!(s.shift(0).to_options(), s.to_options());
}

#[test]
fn test_shift_past_end_is_all_null() {
    let s = series(&[1.0, 2.0, 3.0]);
    assert_eq!(s.shift(7).to_options(), vec![None, None, None]);
}

#[test]
fn test_na_marks_nulls() {
    let s = Series::from_options(opt_bits(&[Some(1.0), None, Some(3.0)]));
    assert_eq!(
        s.na().to_options(),
        vec![Some(false), Some(true), Some(false)]
    );
}

#[test]
fn test_nz_substitutes_default() {
    let s = Series::from_options(opt_bits(&[Some(1.0), None, Some(3.0)]));
    assert_eq!(
        s.nz(Some(0.0f32.to_bits())).to_options(),
        opt_bits(&[Some(1.0), Some(0.0), Some(3.0)])
    );
    assert_eq!(
        s.nz(None).to_options(),
        opt_bits(&[Some(1.0), None, Some(3.0)])
    );
}

#[test]
fn test_zip_with_combines_elementwise() {
    let a = series(&[1.0, 2.0, 3.0]);
    let b = series(&[10.0, 20.0, 30.0]);
    let picked = a.zip_with(&b, |x: Option<u32>, y: Option<u32>| if x.is_some() { x } else { y });
    assert_eq!(
        picked.to_options(),
        opt_bits(&[Some(1.0), Some(2.0), Some(3.0)])
    );
}

#[test]
fn test_fmap_preserves_nulls() {
    let s = Series::from_options(opt_bits(&[Some(1.0), None]));
    let mapped = s.fmap(|x: Option<u32>| x);
    assert_eq!(mapped.to_options(), opt_bits(&[Some(1.0), None]));
}

#[test]
fn test_sliding_map_warmup_prefix_is_null() {
    let s = series(&[1.0, 2.0, 3.0, 4.0, 5.0]);
    // A reduction that always answers, even over nulls: the warm-up
    // prefix must still be null, regardless of the function.
    let r = s.sliding_map(3, |_w: Vec<Option<u32>>, _size: usize, _i: usize| {
        Some(9.0f32.to_bits())
    });
    assert_eq!(
        r.to_options(),
        opt_bits(&[None, None, Some(9.0), Some(9.0), Some(9.0)])
    );
}

#[test]
fn test_sliding_map_window_contents() {
    let s = series(&[1.0, 2.0, 3.0, 4.0, 5.0]);
    // Hand back the oldest value of each full window.
    let r = s.sliding_map(3, |w: Vec<Option<u32>>, _size: usize, _i: usize| w[0]);
    assert_eq!(
        r.to_options(),
        opt_bits(&[None, None, Some(1.0), Some(2.0), Some(3.0)])
    );
}

#[test]
fn test_to_values_substitutes_default() {
    let s = Series::from_options(opt_bits(&[Some(1.5), None, Some(3.0)]));
    assert_eq!(s.to_values(0.0f32.to_bits()), bits(&[1.5, 0.0, 3.0]));
}

#[test]
fn test_at_reads_one_position() {
    let s = series(&[1.5, 2.5]);
    assert_eq!(s.at(0), Some(1.5f32.to_bits()));
    assert_eq!(s.at(1), Some(2.5f32.to_bits()));
}
