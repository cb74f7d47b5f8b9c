use symphonia_dsp::silk::bwexpander::{silk_bwexpander, silk_bwexpander_32};
use symphonia_dsp::silk::lpc_analysis_filter::silk_lpc_analysis_filter;
use symphonia_dsp::silk::lpc_inv_pred_gain::silk_lpc_inverse_pred_gain;
use symphonia_dsp::silk::sort::silk_insertion_sort_increasing_all_values_int16;
use symphonia_dsp::silk::stereo_ms_to_lr::{silk_stereo_ms_to_lr, StereoDecState};
use symphonia_dsp::silk::sum_sqr_shift::silk_sum_sqr_shift;

#[test]
fn bwexpander_shrinks_magnitude() {
    let mut ar = [1000i16, -2000, 3000, -4000, 500, 600, 700, 800, 900, 1000];
    let before: i32 = ar.iter().map(|&x| (x as i32).abs()).sum();
    silk_bwexpander(&mut ar, 10, 60000);
    let after: i32 = ar.iter().map(|&x| (x as i32).abs()).sum();
    assert!(after <= before);
}

#[test]
fn bwexpander_32_identity_at_full_chirp() {
    let mut ar = [100_000i32, -200_000, 300_000];
    silk_bwexpander_32(&mut ar, 3, 65536);
    assert_eq!(ar, [100_000, -200_000, 300_000]);
}

#[test]
fn bwexpander_first_coefficient_scaled_by_chirp() {
    // round(32768 * 1000 / 65536) = 500; chirp^2 = 32768 + round(32768 * -32768 / 65536) = 16384.
    let mut ar = [1000i16, 1000, 7];
    silk_bwexpander(&mut ar, 2, 32768);
    assert_eq!(ar, [500, 250, 7]);
}

#[test]
fn zero_input_gives_zero_output() {
    let input = [0i16; 40];
    let b = [100i16; 10];
    let mut out = [0i16; 40];
    silk_lpc_analysis_filter(&mut out, &input, &b, 40, 10);
    assert!(out.iter().all(|&x| x == 0));
}

#[test]
fn leading_d_samples_are_zeroed() {
    let input = [1000i16; 40];
    let b = [50i16; 10];
    let mut out = [123i16; 40];
    silk_lpc_analysis_filter(&mut out, &input, &b, 40, 10);
    assert!(out[..10].iter().all(|&x| x == 0));
}

#[test]
fn analysis_filter_exact_residual() {
    // Predictor 1.0 (Q12) on the previous sample: residual = x[n] - x[n-1].
    let mut input = [0i16; 12];
    for (i, v) in input.iter_mut().enumerate() {
        *v = (i as i16) * 3;
    }
    let mut b = [0i16; 6];
    b[0] = 4096;
    let mut out = [9i16; 14];
    silk_lpc_analysis_filter(&mut out, &input, &b, 12, 6);
    assert_eq!(&out[..6], &[0, 0, 0, 0, 0, 0]);
    assert!(out[6..12].iter().all(|&x| x == 3));
    assert_eq!(&out[12..], &[9, 9]);
}

#[test]
fn zero_signal_has_zero_energy() {
    let x = [0i16; 40];
    let (energy, _shift) = silk_sum_sqr_shift(&x);
    assert_eq!(energy, 0);
}

#[test]
fn nonzero_signal_has_positive_energy() {
    let x = [1000i16, -2000, 3000, -1500, 500];
    let (energy, shift) = silk_sum_sqr_shift(&x);
    assert!(energy > 0);
    assert!(shift >= 0);
}

#[test]
fn sum_sqr_shift_exact_small_signal() {
    // len 4: first pass shift 2, energy 4 + (1+4)/4 + (9+16)/4 = 11, clz 28 -> final shift 0.
    let x = [1i16, 2, 3, 4];
    assert_eq!(silk_sum_sqr_shift(&x), (30, 0));
    let empty: [i16; 0] = [];
    assert_eq!(silk_sum_sqr_shift(&empty), (0, 0));
}

#[test]
fn silence_in_silence_out() {
    let mut state = StereoDecState::default();
    let frame_length = 80usize;
    let fs_khz = 8i32;
    let mut x1 = vec![0i16; frame_length + 2];
    let mut x2 = vec![0i16; frame_length + 2];
    let pred_q13 = [0i32, 0i32];

    silk_stereo_ms_to_lr(&mut state, &mut x1, &mut x2, &pred_q13, fs_khz, frame_length);

    assert!(x1.iter().all(|&v| v == 0));
    assert!(x2.iter().all(|&v| v == 0));
    assert_eq!(state.pred_prev_q13, [0, 0]);
    assert_eq!(state.s_mid, [0, 0]);
    assert_eq!(state.s_side, [0, 0]);
}

#[test]
fn stereo_mid_only_duplicates_channel() {
    // Zero side and zero predictors: left == right == mid.
    let mut state = StereoDecState::default();
    state.s_mid = [7, 8];
    let frame_length = 70usize;
    let mut x1 = vec![100i16; frame_length + 2];
    let mut x2 = vec![0i16; frame_length + 2];
    silk_stereo_ms_to_lr(&mut state, &mut x1, &mut x2, &[0, 0], 8, frame_length);
    assert_eq!(x1[0], 7);
    assert_eq!(x1[1], 8);
    assert_eq!(x2[1], 8);
    assert!(x1[2..=frame_length].iter().all(|&v| v == 100));
    assert!(x2[2..=frame_length].iter().all(|&v| v == 100));
    assert_eq!(state.s_mid, [100, 100]);
}

#[test]
fn zero_coefficients_are_maximally_stable() {
    let a_q12 = [0i16; 16];
    let gain = silk_lpc_inverse_pred_gain(&a_q12, 16);
    assert_eq!(gain, 1 << 30);
}

#[test]
fn dc_unstable_returns_zero() {
    let a_q12 = [4096i16; 10];
    let gain = silk_lpc_inverse_pred_gain(&a_q12, 10);
    assert_eq!(gain, 0);
}

#[test]
fn single_reflection_gain() {
    // One coefficient of 0.5 (Q12 2048): inverse gain 1 - 0.25 = 0.75 in Q30.
    let a_q12 = [2048i16];
    assert_eq!(silk_lpc_inverse_pred_gain(&a_q12, 1), 805_306_368);
}

#[test]
fn sorts_ascending() {
    let mut a = [5i16, 3, -1, 42, 0, 0, 7];
    silk_insertion_sort_increasing_all_values_int16(&mut a);
    assert_eq!(a, [-1, 0, 0, 3, 5, 7, 42]);
}

#[test]
fn already_sorted_is_noop() {
    let mut a = [1i16, 2, 3, 4];
    silk_insertion_sort_increasing_all_values_int16(&mut a);
    assert_eq!(a, [1, 2, 3, 4]);
}

use symphonia_dsp::silk::decode_pitch::silk_decode_pitch;
use symphonia_dsp::silk::gain_quant::silk_gains_dequant;
use symphonia_dsp::silk::lpc_fit::silk_lpc_fit;

#[test]
fn wb_20ms_lag_within_bounds() {
    let mut lags = [0i32; 4];
    silk_decode_pitch(50, 5, &mut lags, 16, 4);
    for &l in lags.iter() {
        assert!(l >= 2 * 16 && l <= 18 * 16);
    }
}

#[test]
fn nb_10ms_lag_within_bounds() {
    let mut lags = [0i32; 4];
    silk_decode_pitch(20, 1, &mut lags, 8, 2);
    for &l in lags[..2].iter() {
        assert!(l >= 2 * 8 && l <= 18 * 8);
    }
}

#[test]
fn decode_pitch_exact_lags() {
    // 16 kHz, 20 ms, contour 5: deltas [1, 0, 0, 0]; base lag 32 + 50.
    let mut lags = [-1i32; 4];
    silk_decode_pitch(50, 5, &mut lags, 16, 4);
    assert_eq!(lags, [83, 82, 82, 82]);
    // A lag index beyond the range is limited to 18 ms.
    let mut lags = [-1i32; 4];
    silk_decode_pitch(300, 0, &mut lags, 8, 2);
    assert_eq!(lags, [144, 144, -1, -1]);
}

#[test]
fn dequant_independent_first_subframe() {
    let mut gains = [0i32; 4];
    let ind = [32i8, 0, 0, 0];
    let mut prev = 0i8;
    silk_gains_dequant(&mut gains, &ind, &mut prev, false, 1);
    assert_eq!(prev, 32);
    assert!(gains[0] > 0);
}

#[test]
fn dequant_delta_coded_subframes() {
    // Delta indices: index - 4 added to the previous index, limited to 0..=63.
    let mut gains = [0i32; 4];
    let ind = [10i8, 6, 0, 40];
    let mut prev = 20i8;
    silk_gains_dequant(&mut gains, &ind, &mut prev, true, 4);
    // 20 + 6 = 26, 26 + 2 = 28, 28 - 4 = 24, then 24 + 36 > threshold 32: 24 + 72 - 32 = 64 -> 63.
    assert_eq!(prev, 63);
    assert!(gains[0] < gains[1] && gains[2] < gains[1] && gains[3] > gains[1]);
}

#[test]
fn passthrough_small_values() {
    let mut a_qin = [1000i32, -2000, 500, 0, 0, 0, 0, 0, 0, 0];
    let mut a_qout = [0i16; 10];
    silk_lpc_fit(&mut a_qout, &mut a_qin, 12, 17, 10);
    assert_eq!(a_qout[0], (1000i32 >> 5) as i16);
}

#[test]
fn lpc_fit_rounds_to_output_domain() {
    let mut a_qin = [1000i32, -2000, 48, -48, 0, 0];
    let mut a_qout = [7i16; 8];
    silk_lpc_fit(&mut a_qout, &mut a_qin, 12, 17, 6);
    assert_eq!(a_qout, [31, -62, 2, -1, 0, 0, 7, 7]);
    assert_eq!(a_qin, [1000, -2000, 48, -48, 0, 0]);
}
