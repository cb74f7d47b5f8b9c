use symphonia_dsp::silk::lpc_inv_pred_gain::silk_lpc_inverse_pred_gain;
use symphonia_dsp::silk::nlsf2a::silk_nlsf2a;
use symphonia_dsp::silk::nlsf_stabilize::silk_nlsf_stabilize;

#[test]
fn ten_order_uniform_nlsf_is_stable() {
    // Uniformly spaced NLSFs (as at reset) should produce a stable, non-trivial filter.
    let mut nlsf = [0i16; 10];
    let step = 32767 / 11;
    let mut acc = 0i32;
    for n in nlsf.iter_mut() {
        acc += step;
        *n = acc as i16;
    }
    let mut a_q12 = [0i16; 10];
    silk_nlsf2a(&mut a_q12, &nlsf, 10);
    assert!(silk_lpc_inverse_pred_gain(&a_q12, 10) > 0);
}

#[test]
fn sixteen_order_uniform_nlsf_is_stable() {
    let mut nlsf = [0i16; 16];
    let step = 32767 / 17;
    let mut acc = 0i32;
    for n in nlsf.iter_mut() {
        acc += step;
        *n = acc as i16;
    }
    let mut a_q12 = [0i16; 16];
    silk_nlsf2a(&mut a_q12, &nlsf, 16);
    assert!(silk_lpc_inverse_pred_gain(&a_q12, 16) > 0);
}

#[test]
fn already_stable_is_unchanged() {
    let delta = [100i16; 11];
    let mut nlsf: Vec<i16> = (1..=10).map(|k| k as i16 * 3000).collect();
    let before = nlsf.clone();
    silk_nlsf_stabilize(&mut nlsf, &delta, 10);
    assert_eq!(nlsf, before);
}

#[test]
fn collapsed_values_are_separated() {
    let delta = [10i16; 11];
    let mut nlsf = [1000i16; 10];
    silk_nlsf_stabilize(&mut nlsf, &delta, 10);
    for i in 1..10 {
        assert!(nlsf[i] as i32 - nlsf[i - 1] as i32 >= delta[i] as i32 - 1);
    }
    assert!(nlsf[0] >= 0);
    assert!((nlsf[9] as i32) <= 32767);
}

#[test]
fn nlsf2a_keeps_entries_past_the_order() {
    let nlsf: Vec<i16> = (1..=10).map(|k| (k * 2978) as i16).collect();
    let mut a_q12 = [7i16; 12];
    silk_nlsf2a(&mut a_q12, &nlsf, 10);
    assert_eq!(a_q12[10], 7);
    assert_eq!(a_q12[11], 7);
    assert!(a_q12[..10].iter().any(|&c| c != 0));
}

#[test]
fn nlsf2a_output_is_deterministic() {
    let nlsf: Vec<i16> = (1..=16).map(|k| (k * 1927) as i16).collect();
    let mut a = [0i16; 16];
    let mut b = [0i16; 16];
    silk_nlsf2a(&mut a, &nlsf, 16);
    silk_nlsf2a(&mut b, &nlsf, 16);
    assert_eq!(a, b);
}

#[test]
fn stabilize_pushes_first_value_off_zero() {
    // Only the lower border is violated: one widening step moves the first value to its minimum.
    let delta = [200i16; 11];
    let mut nlsf: Vec<i16> = vec![50, 3000, 6000, 9000, 12000, 15000, 18000, 21000, 24000, 27000];
    silk_nlsf_stabilize(&mut nlsf, &delta, 10);
    assert_eq!(nlsf, vec![200, 3000, 6000, 9000, 12000, 15000, 18000, 21000, 24000, 27000]);
}

#[test]
fn stabilize_pulls_last_value_below_one() {
    let delta = [100i16; 11];
    let mut nlsf: Vec<i16> = vec![3000, 6000, 9000, 12000, 15000, 18000, 21000, 24000, 27000, 32700];
    silk_nlsf_stabilize(&mut nlsf, &delta, 10);
    assert_eq!(nlsf[9], 32668);
    assert_eq!(nlsf[8], 27000);
}

#[test]
fn stabilize_separates_a_close_pair_around_its_center() {
    let delta = [100i16; 11];
    let mut nlsf: Vec<i16> = vec![3000, 6000, 9000, 12000, 15000, 15040, 21000, 24000, 27000, 30000];
    silk_nlsf_stabilize(&mut nlsf, &delta, 10);
    // center (15000 + 15040 + 1) >> 1 = 15020; the pair becomes 15020 - 50, 15020 + 50
    assert_eq!(nlsf[4], 14970);
    assert_eq!(nlsf[5], 15070);
    assert_eq!(nlsf[3], 12000);
    assert_eq!(nlsf[6], 21000);
}
