use symphonia_dsp::silk::macros::{
    silk_add_sat32, silk_clz32, silk_div32_varq, silk_limit, silk_rand, silk_ror32, silk_rshift_round,
    silk_sat16, silk_smulbb, silk_smulwb, silk_sqrt_approx, silk_sub_sat32, SILK_INT16_MAX, SILK_INT16_MIN,
};

#[test]
fn smulwb_matches_reference() {
    assert_eq!(silk_smulwb(1 << 16, 3), 3);
    assert_eq!(silk_smulwb(-(1 << 16), 3), -3);
    assert_eq!(silk_smulwb(1000, 70000), silk_smulwb(1000, (70000i32 as i16) as i32));
}

#[test]
fn smulbb_truncates_to_i16() {
    assert_eq!(silk_smulbb(0x1_0005, 0x1_0007), 5 * 7);
}

#[test]
fn sat16_clamps() {
    assert_eq!(silk_sat16(40000), SILK_INT16_MAX);
    assert_eq!(silk_sat16(-40000), SILK_INT16_MIN);
    assert_eq!(silk_sat16(100), 100);
}

#[test]
fn rshift_round_matches_reference() {
    assert_eq!(silk_rshift_round(5, 1), 3);
    assert_eq!(silk_rshift_round(-5, 1), -2);
    assert_eq!(silk_rshift_round(9, 2), 2);
}

#[test]
fn clz32_matches_reference() {
    assert_eq!(silk_clz32(0), 32);
    assert_eq!(silk_clz32(1), 31);
    assert_eq!(silk_clz32(-1), 0);
    assert_eq!(silk_clz32(0x0000_00FF), 24);
}

#[test]
fn ror32_matches_reference() {
    assert_eq!(silk_ror32(1, 1), i32::MIN);
    assert_eq!(silk_ror32(1, 0), 1);
    assert_eq!(silk_ror32(2, -1), 4);
}

#[test]
fn sqrt_approx_reasonable() {
    let y = silk_sqrt_approx(10000);
    assert!((90..=110).contains(&y), "sqrt_approx(10000) = {y}");
}

#[test]
fn div32_varq_matches_plain_division() {
    let r = silk_div32_varq(100, 4, 8);
    assert!((6300..=6500).contains(&r), "div32_varq = {r}");
}

#[test]
fn rand_lcg_is_stable() {
    let s0 = 12345i32;
    let s1 = silk_rand(s0);
    let s2 = silk_rand(s1);
    assert_ne!(s1, s2);
    assert_eq!(silk_rand(s0), s1);
}

#[test]
fn add_sat32_saturates() {
    assert_eq!(silk_add_sat32(i32::MAX, 1), i32::MAX);
    assert_eq!(silk_sub_sat32(i32::MIN, 1), i32::MIN);
    assert_eq!(silk_add_sat32(1, 1), 2);
}

#[test]
fn limit_matches_reference() {
    assert_eq!(silk_limit(5, 0, 10), 5);
    assert_eq!(silk_limit(-5, 0, 10), 0);
    assert_eq!(silk_limit(15, 0, 10), 10);
}

#[test]
fn rshift_round_by_full_width() {
    assert_eq!(symphonia_dsp::silk::macros::silk_rshift_round(i32::MAX, 32), 0);
    assert_eq!(symphonia_dsp::silk::macros::silk_rshift_round(i32::MIN, 32), 0);
    assert_eq!(symphonia_dsp::silk::macros::silk_rshift_round64(i64::MAX, 64), 0);
    assert_eq!(symphonia_dsp::silk::macros::silk_rshift_round(5, 1), 3);
}
