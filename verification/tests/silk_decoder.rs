use symphonia_dsp::silk::tables::{
    silk_nlsf_cb_nb_mb, silk_nlsf_cb_wb, LTP_ORDER, MAX_NB_SUBFR, PITCH_LAG_MAX_NB, PITCH_LAG_MAX_WB,
    PITCH_LAG_MIN_NB, PITCH_LAG_MIN_WB, SILK_CB_LAGS_STAGE3, SILK_CB_LAGS_STAGE3_10_MS, SILK_LSF_COS_TAB_FIX_Q12,
    SILK_LTP_GAIN_ICDF_0, SILK_LTP_GAIN_ICDF_1, SILK_LTP_GAIN_ICDF_2, SILK_LTP_VQ_Q7_0, SILK_LTP_VQ_Q7_1,
    SILK_LTP_VQ_Q7_2, SILK_LTP_VQ_SIZES,
};
use symphonia_dsp::silk_decoder::{decode_pitch, rshift_round, rshift_round64, smmul, smulww, SilkDecoder};

#[test]
fn test_nlsf_codebook_nb_mb_structure() {
    let cb = &silk_nlsf_cb_nb_mb();
    assert_eq!(cb.n_vectors, 32);
    assert_eq!(cb.order, 10);
    assert_eq!(cb.cb1_nlsf_q8.len(), 320);
    assert_eq!(cb.cb1_wght_q9.len(), 320);
    assert_eq!(cb.cb1_icdf.len(), 64);
    assert_eq!(cb.pred_q8.len(), 18);
    assert_eq!(cb.ec_sel.len(), 160);
    assert_eq!(cb.ec_icdf.len(), 72);
    assert_eq!(cb.delta_min_q15.len(), 11);
}

#[test]
fn test_nlsf_codebook_wb_structure() {
    let cb = &silk_nlsf_cb_wb();
    assert_eq!(cb.n_vectors, 32);
    assert_eq!(cb.order, 16);
    assert_eq!(cb.cb1_nlsf_q8.len(), 512);
    assert_eq!(cb.cb1_wght_q9.len(), 512);
    assert_eq!(cb.cb1_icdf.len(), 64);
    assert_eq!(cb.pred_q8.len(), 30);
    assert_eq!(cb.ec_sel.len(), 256);
    assert_eq!(cb.ec_icdf.len(), 72);
    assert_eq!(cb.delta_min_q15.len(), 17);
}

#[test]
fn test_lsf_cos_table() {
    assert_eq!(SILK_LSF_COS_TAB_FIX_Q12[0], 8192);
    assert_eq!(SILK_LSF_COS_TAB_FIX_Q12[64], 0);
    assert_eq!(SILK_LSF_COS_TAB_FIX_Q12[128], -8192);
}

#[test]
fn test_silk_decoder_creation() {
    let decoder_8k = SilkDecoder::new(8000);
    assert_eq!(decoder_8k.fs_khz, 8);
    assert_eq!(decoder_8k.lpc_order, 10);
    assert_eq!(decoder_8k.nb_subfr, 2);
    assert_eq!(decoder_8k.nlsf_cb.order, 10);

    let decoder_12k = SilkDecoder::new(12000);
    assert_eq!(decoder_12k.fs_khz, 12);
    assert_eq!(decoder_12k.lpc_order, 10);
    assert_eq!(decoder_12k.nb_subfr, 4);
    assert_eq!(decoder_12k.nlsf_cb.order, 10);

    let decoder_16k = SilkDecoder::new(16000);
    assert_eq!(decoder_16k.fs_khz, 16);
    assert_eq!(decoder_16k.lpc_order, 16);
    assert_eq!(decoder_16k.nb_subfr, 4);
    assert_eq!(decoder_16k.nlsf_cb.order, 16);
}

#[test]
fn test_fixed_point_helpers() {
    assert_eq!(rshift_round(100, 0), 100);
    assert_eq!(rshift_round(100, 1), 50);
    assert_eq!(rshift_round(101, 1), 51);
    assert_eq!(rshift_round(-100, 1), -50);

    assert_eq!(rshift_round64(100, 0), 100);
    assert_eq!(rshift_round64(100, 1), 50);
    assert_eq!(rshift_round64(0x100000000i64, 32), 1);

    assert_eq!(smulww(65536, 65536), 65536);

    assert_eq!(smmul(0x40000000, 0x40000000), 0x10000000);
}

#[test]
fn test_ltp_vq_codebooks() {
    assert_eq!(SILK_LTP_VQ_Q7_0.len(), 8);
    assert_eq!(SILK_LTP_VQ_Q7_1.len(), 16);
    assert_eq!(SILK_LTP_VQ_Q7_2.len(), 32);
    for entry in &SILK_LTP_VQ_Q7_0 {
        assert_eq!(entry.len(), LTP_ORDER);
    }
    for entry in &SILK_LTP_VQ_Q7_1 {
        assert_eq!(entry.len(), LTP_ORDER);
    }
    for entry in &SILK_LTP_VQ_Q7_2 {
        assert_eq!(entry.len(), LTP_ORDER);
    }
    assert_eq!(SILK_LTP_VQ_SIZES[0], SILK_LTP_VQ_Q7_0.len());
    assert_eq!(SILK_LTP_VQ_SIZES[1], SILK_LTP_VQ_Q7_1.len());
    assert_eq!(SILK_LTP_VQ_SIZES[2], SILK_LTP_VQ_Q7_2.len());
}

#[test]
fn test_ltp_gain_icdf() {
    assert_eq!(SILK_LTP_GAIN_ICDF_0.len(), 8);
    assert_eq!(SILK_LTP_GAIN_ICDF_1.len(), 16);
    assert_eq!(SILK_LTP_GAIN_ICDF_2.len(), 32);
    assert_eq!(SILK_LTP_GAIN_ICDF_0[7], 0);
    assert_eq!(SILK_LTP_GAIN_ICDF_1[15], 0);
    assert_eq!(SILK_LTP_GAIN_ICDF_2[31], 0);
}

#[test]
fn test_decode_pitch() {
    let mut pitch_lags = [0i32; MAX_NB_SUBFR];

    decode_pitch(0, 0, &mut pitch_lags, 8, 2);
    assert!(pitch_lags[0] >= PITCH_LAG_MIN_NB);
    assert!(pitch_lags[0] <= PITCH_LAG_MAX_NB);
    assert!(pitch_lags[1] >= PITCH_LAG_MIN_NB);
    assert!(pitch_lags[1] <= PITCH_LAG_MAX_NB);

    decode_pitch(50, 5, &mut pitch_lags, 16, 4);
    for k in 0..4 {
        assert!(pitch_lags[k] >= PITCH_LAG_MIN_WB);
        assert!(pitch_lags[k] <= PITCH_LAG_MAX_WB);
    }
}

#[test]
fn legacy_decode_pitch_exact_lags() {
    let mut pitch_lags = [7i32; 4];
    decode_pitch(10, 3, &mut pitch_lags, 8, 2);
    // Base lag 16 + 10, 10 ms contour 3: [-1, 1].
    assert_eq!(pitch_lags, [25, 27, 7, 7]);
    decode_pitch(-100, 0, &mut pitch_lags, 12, 4);
    assert_eq!(pitch_lags, [24, 24, 24, 24]);
}

#[test]
fn test_pitch_contour_tables() {
    assert_eq!(SILK_CB_LAGS_STAGE3.len(), 4);
    assert_eq!(SILK_CB_LAGS_STAGE3[0].len(), 34);
    assert_eq!(SILK_CB_LAGS_STAGE3_10_MS.len(), 2);
    assert_eq!(SILK_CB_LAGS_STAGE3_10_MS[0].len(), 12);
    assert_eq!(SILK_CB_LAGS_STAGE3[0][0], 0);
    assert_eq!(SILK_CB_LAGS_STAGE3[1][0], 0);
    assert_eq!(SILK_CB_LAGS_STAGE3_10_MS[0][0], 0);
    assert_eq!(SILK_CB_LAGS_STAGE3_10_MS[1][0], 0);
}

#[test]
fn test_ltp_coef_q7_to_q14_conversion() {
    let coef_q7: i8 = 64;
    let coef_q14 = (coef_q7 as i16) << 7;
    assert_eq!(coef_q14, 8192);
    let coef_q7_neg: i8 = -64;
    let coef_q14_neg = (coef_q7_neg as i16) << 7;
    assert_eq!(coef_q14_neg, -8192);
}

#[test]
fn test_silk_decoder_ltp_buffer() {
    let decoder = SilkDecoder::new(16000);
    let expected_ltp_len = decoder.ltp_mem_length + decoder.frame_length;
    assert_eq!(decoder.s_ltp_q15.len(), expected_ltp_len);
    assert_eq!(decoder.s_ltp_buf_idx, decoder.ltp_mem_length);
}

#[test]
fn test_silk_decoder_reset_clears_ltp() {
    let mut decoder = SilkDecoder::new(16000);
    decoder.s_ltp_q15[0] = 12345;
    decoder.s_ltp_buf_idx = 100;
    decoder.reset();
    assert_eq!(decoder.s_ltp_q15[0], 0);
    assert_eq!(decoder.s_ltp_buf_idx, decoder.ltp_mem_length);
}

#[test]
fn reset_restores_flat_nlsfs() {
    let mut decoder = SilkDecoder::new(8000);
    decoder.prev_nlsf_q15[3] = -5;
    decoder.reset();
    // (2 * 3 + 1) * 16384 / 10
    assert_eq!(decoder.prev_nlsf_q15[3], 11468);
    assert_eq!(decoder.prev_nlsf_q15[12], 0);
}
