use symphonia_dsp::silk::nlsf_stabilize::silk_nlsf_stabilize;
use symphonia_dsp::silk::macros::{silk_lin2log, silk_log2lin};
use symphonia_dsp::silk::plc::{silk_plc, silk_plc_glue_frames};
use symphonia_dsp::silk::structs::{SilkDecoderControl, SilkDecoderState};
use symphonia_dsp::silk::sum_sqr_shift::silk_sum_sqr_shift;
use symphonia_dsp::wavpack::block::{fixup_samples, Int32Info};
use symphonia_dsp::wavpack::words::INT32_DATA;

#[test]
fn reset_clears_resampler_noise_and_concealment() {
    let mut dec = SilkDecoderState::new();
    dec.resampler_state.s_iir[0] = 5;
    dec.resampler_state.fs_in_khz = 16;
    dec.s_cng.cng_exc_buf_q14[3] = 7;
    dec.s_cng.cng_smth_nlsf_q15[0] = 9;
    dec.s_cng.fs_khz = 16;
    dec.s_plc.prev_lpc_q12[0] = 3;
    dec.s_plc.ltp_coef_q14[2] = 100;
    dec.s_plc.fs_khz = 16;
    dec.s_plc.last_frame_lost = true;
    dec.reset();
    assert_eq!(dec.resampler_state.s_iir[0], 0);
    assert_eq!(dec.resampler_state.fs_in_khz, 0);
    assert_eq!(dec.s_cng.cng_exc_buf_q14[3], 0);
    assert_eq!(dec.s_cng.cng_smth_nlsf_q15[0], 0);
    assert_eq!(dec.s_cng.fs_khz, 0);
    assert_eq!(dec.s_plc.prev_lpc_q12[0], 0);
    assert_eq!(dec.s_plc.ltp_coef_q14[2], 0);
    assert_eq!(dec.s_plc.fs_khz, 0);
    assert!(!dec.s_plc.last_frame_lost);
    assert_eq!(dec.s_plc.prev_gain_q16, [65536, 65536]);
}

#[test]
fn glue_saves_energy_while_lost() {
    let mut dec = SilkDecoderState::new();
    dec.loss_cnt = 1;
    let mut frame = [1000i16, -2000, 3000, 0, 77];
    let (e, s) = silk_sum_sqr_shift(&frame[..4]);
    silk_plc_glue_frames(&mut dec, &mut frame, 4);
    assert_eq!(dec.s_plc.conc_energy, e);
    assert_eq!(dec.s_plc.conc_energy_shift, s);
    assert!(dec.s_plc.last_frame_lost);
    assert_eq!(frame, [1000, -2000, 3000, 0, 77]);
}

#[test]
fn glue_fades_in_after_silent_concealment() {
    let mut dec = SilkDecoderState::new();
    dec.s_plc.last_frame_lost = true;
    dec.s_plc.conc_energy = 0;
    dec.s_plc.conc_energy_shift = 0;
    let mut frame = [1000i16, 1000, 1000, 1000, 5];
    silk_plc_glue_frames(&mut dec, &mut frame, 4);
    // Start gain 0, step 1.0 per sample: the ramp stops once it passes unity.
    assert_eq!(frame, [0, 1000, 1000, 1000, 5]);
    assert_eq!(dec.s_plc.conc_energy, 0);
    assert!(!dec.s_plc.last_frame_lost);
}

#[test]
fn glue_keeps_quieter_frame() {
    let mut dec = SilkDecoderState::new();
    dec.s_plc.last_frame_lost = true;
    dec.s_plc.conc_energy = 0x3fff_ffff;
    dec.s_plc.conc_energy_shift = 0;
    let mut frame = [10i16, -10, 10, -10];
    let (_, s) = silk_sum_sqr_shift(&frame[..]);
    silk_plc_glue_frames(&mut dec, &mut frame, 4);
    assert_eq!(frame, [10, -10, 10, -10]);
    assert_eq!(dec.s_plc.conc_energy, 0x3fff_ffff >> s);
    assert!(!dec.s_plc.last_frame_lost);
}

#[test]
fn glue_good_frame_after_good_frame_changes_nothing() {
    let mut dec = SilkDecoderState::new();
    let mut frame = [10i16, -10, 10, -10];
    silk_plc_glue_frames(&mut dec, &mut frame, 4);
    assert_eq!(frame, [10, -10, 10, -10]);
    assert!(!dec.s_plc.last_frame_lost);
    assert_eq!(dec.s_plc.conc_energy, 0);
}

#[test]
fn plc_conceals_silence_as_silence() {
    let mut dec = SilkDecoderState::new();
    dec.fs_khz = 8;
    dec.frame_length = 160;
    dec.nb_subfr = 2;
    dec.subfr_length = 80;
    dec.ltp_mem_length = 160;
    dec.lpc_order = 10;
    let mut ctrl = SilkDecoderControl::default();
    let mut frame = [1i16; 170];
    silk_plc(&mut dec, &mut ctrl, &mut frame, true);
    assert!(frame[..160].iter().all(|&x| x == 0));
    assert!(frame[160..].iter().all(|&x| x == 1));
    assert_eq!(dec.loss_cnt, 1);
    assert_eq!(dec.s_plc.fs_khz, 8);
    assert!(ctrl.pitch_l.iter().all(|&l| l == ctrl.pitch_l[0]));
}

#[test]
fn plc_update_on_good_frame_keeps_frame() {
    let mut dec = SilkDecoderState::new();
    dec.fs_khz = 8;
    dec.frame_length = 160;
    dec.nb_subfr = 2;
    dec.subfr_length = 80;
    dec.lpc_order = 10;
    let mut ctrl = SilkDecoderControl::default();
    ctrl.gains_q16[0] = 1000;
    ctrl.gains_q16[1] = 2000;
    let mut frame = [3i16; 10];
    silk_plc(&mut dec, &mut ctrl, &mut frame, false);
    assert_eq!(frame, [3; 10]);
    assert_eq!(dec.s_plc.prev_gain_q16, [1000, 2000]);
    assert_eq!(dec.s_plc.fs_khz, 8);
    assert_eq!(dec.s_plc.pitch_l_q8, (8 * 18) << 8);
}

#[test]
fn log_and_exp_invert_on_powers_of_two() {
    for k in 0..=30 {
        assert_eq!(silk_lin2log(1 << k), 128 * k);
        assert_eq!(silk_log2lin(128 * k), 1 << k);
    }
    assert_eq!(silk_log2lin(-5), 0);
    assert_eq!(silk_log2lin(3967), i32::MAX);
}

#[test]
fn fixup_wraps_oversized_extra_bit_counts() {
    let info = Int32Info { sent_bits: 0, zeros: 40, ones: 31, dups: 0 };
    let mut buf = [1i32];
    fixup_samples(&mut buf, INT32_DATA, &info);
    // 71 extra bits shift by 7; the run of 31 ones wraps to i32::MAX, shifted by 8.
    assert_eq!(buf, [-128]);
}

#[test]
fn stabilize_spaces_collapsed_values_in_longer_slice() {
    let delta = [10i16; 11];
    let mut nlsf = [1000i16; 12];
    nlsf[10] = 5;
    nlsf[11] = 3;
    silk_nlsf_stabilize(&mut nlsf, &delta, 10);
    assert!(nlsf[0] >= delta[0]);
    for i in 1..10 {
        assert!(nlsf[i] as i32 - nlsf[i - 1] as i32 >= delta[i] as i32);
    }
    assert!(32768 - nlsf[9] as i32 >= delta[10] as i32);
    assert_eq!(nlsf[10], 5);
    assert_eq!(nlsf[11], 3);
}

#[test]
fn reset_restores_layout_and_tables() {
    let mut dec = SilkDecoderState::new();
    dec.nb_subfr = 4;
    dec.arch = 3;
    dec.reset();
    assert_eq!(dec.nb_subfr, 0);
    assert_eq!(dec.arch, 0);
    assert_eq!(dec.ps_nlsf_cb.order, 10);
    assert_eq!(dec.pitch_lag_low_bits_icdf.len(), 8);
}
