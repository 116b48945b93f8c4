use ta_core::series::Series;

fn bits(values: &[f32]) -> Vec<u32> {
    values.iter().map(|v| v.to_bits()).collect()
}

fn series(values: &[f32]) -> Series<u32> {
    Series::from_values(bits(values))
}

fn opt_bits(values: &[Option<f32>]) -> Vec<Option<u32>> {
    values.iter().map(|v| v.map(|x| x.to_bits())).collect()
}

fn gapped(values: &[Option<f32>]) -> Series<u32> {
    Series::from_options(opt_bits(values))
}

#[test]
fn test_add_series_propagates_nulls() {
    let a = gapped(&[Some(1.0), None, Some(3.0)]);
    let b = gapped(&[Some(10.0), Some(20.0), None]);
    assert_eq!(
        a.add_series(&b).to_options(),
        opt_bits(&[Some(11.0), None, None])
    );
}

#[test]
fn test_sub_series() {
    let a = series(&[5.0, 7.0]);
    let b = series(&[1.0, 2.5]);
    assert_eq!(
        a.sub_series(&b).to_options(),
        opt_bits(&[Some(4.0), Some(4.5)])
    );
}

#[test]
fn test_mul_series() {
    let a = series(&[1.5, 2.0]);
    let b = series(&[2.0, 3.0]);
    assert_eq!(
        a.mul_series(&b).to_options(),
        opt_bits(&[Some(3.0), Some(6.0)])
    );
}

#[test]
fn test_div_series_guards_zero_divisor() {
    let a = gapped(&[Some(6.0), Some(1.0), None, Some(8.0)]);
    let b = gapped(&[Some(2.0), Some(0.0), Some(5.0), Some(-0.0)]);
    // Null exactly where an operand is null or the divisor is zero —
    // either zero: the two IEEE zeros compare equal.
    assert_eq!(
        a.div_series(&b).to_options(),
        opt_bits(&[Some(3.0), None, None, None])
    );
}

#[test]
fn test_neg_flips_sign() {
    let a = gapped(&[Some(1.5), None, Some(-2.0)]);
    assert_eq!(
        a.neg().to_options(),
        opt_bits(&[Some(-1.5), None, Some(2.0)])
    );
}

#[test]
fn test_scalar_ops_broadcast() {
    let a = gapped(&[Some(1.0), None, Some(3.0)]);
    assert_eq!(
        a.add_scalar(10.0f32.to_bits()).to_options(),
        opt_bits(&[Some(11.0), None, Some(13.0)])
    );
    assert_eq!(
        a.mul_scalar(2.0f32.to_bits()).to_options(),
        opt_bits(&[Some(2.0), None, Some(6.0)])
    );
    assert_eq!(
        a.sub_scalar(1.0f32.to_bits()).to_options(),
        opt_bits(&[Some(0.0), None, Some(2.0)])
    );
    assert_eq!(
        a.div_scalar(2.0f32.to_bits()).to_options(),
        opt_bits(&[Some(0.5), None, Some(1.5)])
    );
}

#[test]
fn test_div_scalar_zero_divisor_yields_zero() {
    // The deliberate asymmetry: dividing by an exactly-zero scalar gives
    // 0.0, not null.
    let a = gapped(&[Some(1.0), None, Some(3.0)]);
    assert_eq!(
        a.div_scalar(0.0f32.to_bits()).to_options(),
        opt_bits(&[Some(0.0), None, Some(0.0)])
    );
}

#[test]
fn test_scalar_sub_is_negate_then_offset() {
    let a = series(&[1.0, 4.0]);
    // 10 - series
    assert_eq!(
        a.scalar_sub(10.0f32.to_bits()).to_options(),
        opt_bits(&[Some(9.0), Some(6.0)])
    );
}

#[test]
fn test_scalar_div_is_fill_then_divide() {
    let a = gapped(&[Some(2.0), Some(0.0), None]);
    // 10 / series: the series/series zero-divisor guard applies.
    assert_eq!(
        a.scalar_div(10.0f32.to_bits()).to_options(),
        opt_bits(&[Some(5.0), None, None])
    );
}

#[test]
fn test_mask_multiply_selects() {
    let mask = Series::from_options(vec![Some(true), Some(false), None, Some(true)]);
    let vals = gapped(&[Some(1.5), Some(2.5), Some(3.5), None]);
    assert_eq!(
        mask.mul_series(&vals).to_options(),
        opt_bits(&[Some(1.5), Some(0.0), None, None])
    );
}

#[test]
fn test_bitand_bitor_propagate_nulls() {
    let a = Series::from_options(vec![Some(true), Some(true), None, Some(false)]);
    let b = Series::from_options(vec![Some(true), Some(false), Some(true), None]);
    assert_eq!(
        a.bitand(&b).to_options(),
        vec![Some(true), Some(false), None, None]
    );
    assert_eq!(
        a.bitor(&b).to_options(),
        vec![Some(true), Some(true), None, None]
    );
}

#[test]
fn test_logical_op_custom_operation() {
    let a = Series::from_options(vec![Some(true), Some(false)]);
    let b = Series::from_options(vec![Some(false), Some(false)]);
    let xor = a.logical_op(&b, |x: bool, y: bool| x != y);
    assert_eq!(xor.to_options(), vec![Some(true), Some(false)]);
}

#[test]
fn test_plain_comparators_propagate_nulls() {
    let a = gapped(&[Some(2.0), None, Some(1.0)]);
    let b = gapped(&[Some(1.0), Some(5.0), Some(1.0)]);
    assert_eq!(
        a.gt(&b).to_options(),
        vec![Some(true), None, Some(false)]
    );
    assert_eq!(
        a.lt(&b).to_options(),
        vec![Some(false), None, Some(false)]
    );
}

#[test]
fn test_safe_comparators_resolve_nulls_to_false() {
    let a = gapped(&[Some(2.0), None, Some(1.0)]);
    let b = gapped(&[Some(1.0), Some(5.0), Some(1.0)]);
    assert_eq!(
        a.sgt(&b).to_options(),
        vec![Some(true), Some(false), Some(false)]
    );
    assert_eq!(
        a.sge(&b).to_options(),
        vec![Some(true), Some(false), Some(true)]
    );
    assert_eq!(
        a.slt(&b).to_options(),
        vec![Some(false), Some(false), Some(false)]
    );
    assert_eq!(
        a.sle(&b).to_options(),
        vec![Some(false), Some(false), Some(true)]
    );
    assert_eq!(
        a.s_eq(&b).to_options(),
        vec![Some(false), Some(false), Some(true)]
    );
}

#[test]
fn test_safe_scalar_comparators() {
    let a = gapped(&[Some(0.0), Some(-0.0), None, Some(2.0)]);
    assert_eq!(
        a.s_eq_scalar(0.0f32.to_bits()).to_options(),
        vec![Some(true), Some(true), Some(false), Some(false)]
    );
    assert_eq!(
        a.sgt_scalar(1.0f32.to_bits()).to_options(),
        vec![Some(false), Some(false), Some(false), Some(true)]
    );
    assert_eq!(
        a.slt_scalar(1.0f32.to_bits()).to_options(),
        vec![Some(true), Some(true), Some(false), Some(false)]
    );
}

#[test]
fn test_safe_comparator_chains_stay_total() {
    // A long AND-chain over safe comparators never leaks a null, even
    // when the lags null out early positions.
    let s = series(&[1.0, 3.0, 2.0, 5.0, 4.0]);
    let chained = s
        .sgt(&s.shift(1))
        .bitand(&s.sgt(&s.shift(2)))
        .bitand(&s.sgt(&s.shift(3)));
    assert_eq!(
        chained.to_options(),
        vec![Some(false), Some(false), Some(false), Some(true), Some(false)]
    );
}
