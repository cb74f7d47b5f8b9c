use symphonia_dsp::silk::tables::{silk_nlsf_cb_nb_mb, SILK_NLSF_DELTA_MIN_NB_MB_Q15};
use symphonia_dsp::silk_decoder::lpc::{
    inverse32_varq, silk_bwexpander_32, silk_lpc_fit, silk_lpc_inverse_pred_gain, silk_nlsf2a,
};
use symphonia_dsp::silk_decoder::nlsf::{
    silk_nlsf_decode, silk_nlsf_residual_dequant, silk_nlsf_stabilize, silk_nlsf_unpack,
};

#[test]
fn test_nlsf_unpack() {
    let cb = &silk_nlsf_cb_nb_mb();
    let mut ec_ix = [0i16; 10];
    let mut pred_q8 = [0u8; 10];

    silk_nlsf_unpack(&mut ec_ix, &mut pred_q8, cb, 0);

    for i in 0..10 {
        assert!(ec_ix[i] >= 0);
        assert!(ec_ix[i] < 72);
    }

    let mut has_nonzero = false;
    for i in 0..10 {
        if pred_q8[i] != 0 {
            has_nonzero = true;
        }
    }
    assert!(has_nonzero, "Predictor should have some non-zero values");
}

#[test]
fn test_nlsf_decode_simple() {
    let cb = &silk_nlsf_cb_nb_mb();
    let mut nlsf_q15 = [0i16; 10];
    let indices: [i8; 11] = [0, 0, 0, 0, 0, 0, 0, 0, 0, 0, 0];

    silk_nlsf_decode(&mut nlsf_q15, &indices, cb);

    for i in 1..10 {
        assert!(nlsf_q15[i] >= nlsf_q15[i - 1], "NLSFs should be in ascending order");
    }
    for i in 0..10 {
        assert!(nlsf_q15[i] >= 0, "NLSF should be >= 0");
        assert!(nlsf_q15[i] <= 32767, "NLSF should be <= 32767");
    }
}

#[test]
fn test_nlsf_stabilize() {
    let mut nlsf_q15: [i16; 10] = [1000, 2000, 3000, 4000, 5000, 6000, 7000, 8000, 9000, 10000];
    let delta_min = &SILK_NLSF_DELTA_MIN_NB_MB_Q15;

    silk_nlsf_stabilize(&mut nlsf_q15, delta_min, 10);

    assert!(nlsf_q15[0] >= delta_min[0], "First NLSF should be >= delta_min[0]");
    for i in 1..10 {
        let diff = nlsf_q15[i] - nlsf_q15[i - 1];
        assert!(diff >= delta_min[i], "NLSF difference should be >= delta_min");
    }
    let last_gap = 32768 - nlsf_q15[9] as i32;
    assert!(last_gap >= delta_min[10] as i32, "Last gap should be >= delta_min[10]");
}

#[test]
fn test_nlsf2a_order10() {
    let nlsf_q15: [i16; 10] = [3277, 6554, 9830, 13107, 16384, 19661, 22938, 26214, 29491, 31768];
    let mut a_q12 = [0i16; 10];

    silk_nlsf2a(&mut a_q12, &nlsf_q15, 10);

    let mut has_nonzero = false;
    for i in 0..10 {
        if a_q12[i] != 0 {
            has_nonzero = true;
        }
    }
    assert!(has_nonzero, "LPC coefficients should have some non-zero values");
    for i in 0..10 {
        assert!(a_q12[i] > -8192 && a_q12[i] < 8192, "LPC coef {} out of range: {}", i, a_q12[i]);
    }
}

#[test]
fn test_nlsf2a_order16() {
    let nlsf_q15: [i16; 16] = [
        2048, 4096, 6144, 8192, 10240, 12288, 14336, 16384, 18432, 20480, 22528, 24576, 26624, 28672, 30720, 31744,
    ];
    let mut a_q12 = [0i16; 16];

    silk_nlsf2a(&mut a_q12, &nlsf_q15, 16);

    let mut has_nonzero = false;
    for i in 0..16 {
        if a_q12[i] != 0 {
            has_nonzero = true;
        }
    }
    assert!(has_nonzero, "LPC coefficients should have some non-zero values");
}

#[test]
fn unpack_reads_selector_nibbles() {
    let cb = &silk_nlsf_cb_nb_mb();
    let mut ec_ix = [-1i16; 12];
    let mut pred_q8 = [7u8; 12];
    silk_nlsf_unpack(&mut ec_ix, &mut pred_q8, cb, 5);
    assert_eq!(&ec_ix[..10], &[0, 45, 27, 27, 18, 18, 18, 18, 9, 9]);
    assert_eq!(&pred_q8[..10], &[179, 67, 140, 148, 151, 149, 153, 151, 163, 116]);
    assert_eq!(&ec_ix[10..], &[-1, -1]);
    assert_eq!(&pred_q8[10..], &[7, 7]);
}

#[test]
fn residual_dequant_predicts_backward() {
    let mut x = [0i16; 10];
    let indices: [i8; 10] = [1, -2, 3, 0, 0, 0, 0, 0, 0, 5];
    let pred: [u8; 10] = [100, 50, 200, 0, 0, 0, 0, 0, 0, 0];
    silk_nlsf_residual_dequant(&mut x, &indices, &pred, 11796, 10);
    assert_eq!(x, [68, -247, 534, 0, 0, 0, 0, 0, 0, 903]);
}

#[test]
fn residual_dequant_of_zero_indices_is_zero() {
    let mut x = [5i16; 10];
    silk_nlsf_residual_dequant(&mut x, &[0i8; 10], &[200u8; 10], 11796, 10);
    assert_eq!(x, [0i16; 10]);
}

#[test]
fn decode_zero_indices_gives_first_stage_vector() {
    let cb = &silk_nlsf_cb_nb_mb();
    let mut nlsf_q15 = [0i16; 10];
    silk_nlsf_decode(&mut nlsf_q15, &[0i8; 11], cb);
    assert_eq!(nlsf_q15, [1536, 4480, 7680, 10624, 13824, 16896, 20096, 23040, 26368, 29184]);
}

#[test]
fn decode_with_residuals_is_stabilized() {
    let cb = &silk_nlsf_cb_nb_mb();
    let mut nlsf_q15 = [0i16; 10];
    let indices: [i8; 11] = [7, 1, -1, 2, 0, 0, -3, 0, 1, 0, 0];
    silk_nlsf_decode(&mut nlsf_q15, &indices, cb);
    assert_eq!(nlsf_q15, [2764, 2767, 9743, 9746, 10893, 11841, 19013, 22633, 24320, 27392]);
}

#[test]
fn stabilize_falls_back_on_collapsed_values() {
    let mut nlsf_q15 = [5000i16; 10];
    silk_nlsf_stabilize(&mut nlsf_q15, &SILK_NLSF_DELTA_MIN_NB_MB_Q15, 10);
    assert_eq!(nlsf_q15, [4998, 5001, 5007, 5010, 5013, 5016, 5020, 5023, 5026, 5029]);
}

#[test]
fn lpc_fit_rounds_coefficients_that_fit() {
    let mut out = [9i16; 4];
    let mut a = [32 * 1000, -32 * 2000, 32 * 3, 77];
    silk_lpc_fit(&mut out, &mut a, 12, 17, 3);
    assert_eq!(out, [1000, -2000, 3, 9]);
    assert_eq!(a, [32000, -64000, 96, 77]);
}

#[test]
fn lpc_fit_expands_then_saturates() {
    let mut out = [0i16; 3];
    let mut a = [32 * 40000, -32 * 10000, 32 * 5];
    silk_lpc_fit(&mut out, &mut a, 12, 17, 3);
    assert_eq!(out, [32767, -6710, 3]);
    assert_eq!(a, [1048535, -214732, 87]);
}

#[test]
fn bwexpander_32_scales_by_chirp_powers() {
    let mut a = [100000, -100000, 50000];
    silk_bwexpander_32(&mut a, 3, 60000);
    assert_eq!(a, [91552, -83820, 38369]);
}

#[test]
fn zero_predictor_has_unit_inverse_gain() {
    assert_eq!(silk_lpc_inverse_pred_gain(&[0i16; 10], 10), 1 << 30);
    assert_eq!(silk_lpc_inverse_pred_gain(&[0i16; 16], 16), 1 << 30);
}

#[test]
fn unstable_dc_response_has_zero_gain() {
    let mut a = [0i16; 10];
    a[0] = 4096;
    assert_eq!(silk_lpc_inverse_pred_gain(&a, 10), 0);
}

#[test]
fn inverse32_varq_values() {
    assert_eq!(inverse32_varq(3, 10), 341);
    assert_eq!(inverse32_varq(-3, 10), -341);
    assert_eq!(inverse32_varq(0, 5), i32::MAX);
    assert_eq!(inverse32_varq(1, 0), 1);
    assert_eq!(inverse32_varq(3, 0), 0);
    assert_eq!(inverse32_varq(1 << 30, 61), i32::MIN);
}
