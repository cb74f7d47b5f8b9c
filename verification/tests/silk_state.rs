use symphonia_dsp::silk::cng;
use symphonia_dsp::silk::plc::{plc_update, reset};
use symphonia_dsp::silk::structs::{SilkDecoderControl, SilkDecoderState, CNG_RAND_SEED_INIT, TYPE_NO_VOICE_ACTIVITY};

#[test]
fn reset_sets_pitch_and_gains() {
    let mut dec = SilkDecoderState::new();
    dec.frame_length = 320;
    reset(&mut dec);
    assert_eq!(dec.s_plc.pitch_l_q8, 320 << 7);
    assert_eq!(dec.s_plc.prev_gain_q16[0], 1 << 16);
    assert_eq!(dec.s_plc.subfr_length, 20);
    assert_eq!(dec.s_plc.nb_subfr, 2);
}

#[test]
fn new_state_is_reset() {
    let dec = SilkDecoderState::new();
    assert_eq!(dec.prev_gain_q16, 65536);
    assert!(dec.first_frame_after_reset);
    assert_eq!(dec.prev_signal_type, TYPE_NO_VOICE_ACTIVITY);
    assert_eq!(dec.s_cng.rand_seed, CNG_RAND_SEED_INIT);
    assert_eq!(dec.s_plc.prev_gain_q16, [65536, 65536]);
    assert_eq!(dec.s_plc.pitch_l_q8, 0);
    assert_eq!(dec.ps_nlsf_cb.order, 10);
    assert_eq!(dec.pitch_lag_low_bits_icdf.len(), 8);
    assert_eq!(dec.pitch_contour_icdf.len(), 11);
}

#[test]
fn reset_clears_decoding_state() {
    let mut dec = SilkDecoderState::new();
    dec.exc_q14[7] = 99;
    dec.out_buf[400] = -5;
    dec.loss_cnt = 3;
    dec.fs_khz = 16;
    dec.lpc_order = 16;
    dec.reset();
    assert_eq!(dec.exc_q14[7], 0);
    assert_eq!(dec.out_buf[400], 0);
    assert_eq!(dec.loss_cnt, 0);
    assert_eq!(dec.fs_khz, 0);
    assert_eq!(dec.lpc_order, 0);
}

#[test]
fn cng_reset_spaces_nlsfs_evenly() {
    let mut dec = SilkDecoderState::new();
    dec.lpc_order = 10;
    dec.s_cng.cng_smth_gain_q16 = 77;
    cng::reset(&mut dec);
    let step = 32767 / 11;
    for i in 0..10 {
        assert_eq!(dec.s_cng.cng_smth_nlsf_q15[i] as i32, (i as i32 + 1) * step);
    }
    assert_eq!(dec.s_cng.cng_smth_nlsf_q15[10], 0);
    assert_eq!(dec.s_cng.cng_smth_gain_q16, 0);
    assert_eq!(dec.s_cng.rand_seed, 3_176_576);
}

#[test]
fn plc_update_unvoiced_keeps_gains_and_lpc() {
    let mut dec = SilkDecoderState::new();
    dec.nb_subfr = 4;
    dec.subfr_length = 80;
    dec.lpc_order = 16;
    dec.fs_khz = 16;
    dec.indices.signal_type = 1;
    let mut ctrl = SilkDecoderControl::default();
    ctrl.gains_q16 = [10, 20, 30, 40];
    ctrl.pred_coef_q12[1][3] = 123;
    ctrl.ltp_scale_q14 = 15565;
    plc_update(&mut dec, &mut ctrl);
    assert_eq!(dec.prev_signal_type, 1);
    assert_eq!(dec.s_plc.pitch_l_q8, (16 * 18) << 8);
    assert_eq!(dec.s_plc.ltp_coef_q14, [0; 5]);
    assert_eq!(dec.s_plc.prev_lpc_q12[3], 123);
    assert_eq!(dec.s_plc.prev_gain_q16, [30, 40]);
    assert_eq!(dec.s_plc.prev_ltp_scale_q14, 15565);
    assert_eq!(dec.s_plc.subfr_length, 80);
    assert_eq!(dec.s_plc.nb_subfr, 4);
}

#[test]
fn plc_update_voiced_picks_strongest_subframe() {
    let mut dec = SilkDecoderState::new();
    dec.nb_subfr = 4;
    dec.subfr_length = 40;
    dec.lpc_order = 10;
    dec.fs_khz = 8;
    dec.indices.signal_type = 2;
    let mut ctrl = SilkDecoderControl::default();
    ctrl.pitch_l = [100, 100, 100, 100];
    // Subframe 3 (checked first) has gain 2000, subframe 2 has 12000, subframe 1 has 13000.
    ctrl.ltp_coef_q14[15] = 2000;
    ctrl.ltp_coef_q14[12] = 12000;
    ctrl.ltp_coef_q14[7] = 13000;
    ctrl.pitch_l[1] = 90;
    plc_update(&mut dec, &mut ctrl);
    // Subframes 3, 2 and 1 cover the lag of 100 (0, 40, 80 < 100); 13000 lies within the limits.
    assert_eq!(dec.s_plc.ltp_coef_q14, [0, 0, 13000, 0, 0]);
    assert_eq!(dec.s_plc.pitch_l_q8, 90 << 8);
}

#[test]
fn plc_update_voiced_scales_weak_gain_up() {
    let mut dec = SilkDecoderState::new();
    dec.nb_subfr = 2;
    dec.subfr_length = 40;
    dec.lpc_order = 10;
    dec.indices.signal_type = 2;
    let mut ctrl = SilkDecoderControl::default();
    ctrl.pitch_l = [50, 50, 0, 0];
    ctrl.ltp_coef_q14[5] = 1000;
    plc_update(&mut dec, &mut ctrl);
    let scale = (11469 << 10) / 1000;
    assert_eq!(dec.s_plc.ltp_coef_q14[2] as i32, ((1000 * (scale as i16 as i32)) >> 10) as i16 as i32);
    assert_eq!(dec.s_plc.pitch_l_q8, 50 << 8);
}
