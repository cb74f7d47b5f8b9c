use symphonia_dsp::silk::cng::silk_cng;
use symphonia_dsp::silk::structs::{SilkDecoderControl, SilkDecoderState, CNG_RAND_SEED_INIT};

#[test]
fn cng_update_smooths_estimate() {
    let mut dec = SilkDecoderState::new();
    dec.fs_khz = 8;
    dec.lpc_order = 10;
    dec.nb_subfr = 2;
    dec.subfr_length = 4;
    for i in 0..8 {
        dec.exc_q14[i] = i as i32 + 1;
    }
    dec.s_cng.cng_synth_state[0] = 9;
    let mut ctrl = SilkDecoderControl::default();
    ctrl.gains_q16[0] = 100;
    ctrl.gains_q16[1] = 300;
    let mut frame = [5i16; 8];
    silk_cng(&mut dec, &ctrl, &mut frame, 8);
    assert_eq!(frame, [5; 8]);
    assert_eq!(dec.s_cng.fs_khz, 8);
    // Restarted at 2978 * (i + 1), then moved toward zero by floor(-n * 16348 / 65536).
    assert_eq!(dec.s_cng.cng_smth_nlsf_q15[0], 2235);
    assert_eq!(&dec.s_cng.cng_exc_buf_q14[..8], &[5, 6, 7, 8, 0, 0, 0, 0]);
    assert_eq!(dec.s_cng.cng_smth_gain_q16, 27);
    assert_eq!(dec.s_cng.cng_synth_state[0], 0);
    assert_eq!(dec.s_cng.rand_seed, CNG_RAND_SEED_INIT);
}

#[test]
fn cng_silent_estimate_adds_silence_when_lost() {
    let mut dec = SilkDecoderState::new();
    dec.fs_khz = 8;
    dec.lpc_order = 10;
    dec.loss_cnt = 1;
    let ctrl = SilkDecoderControl::default();
    let mut frame = [7i16; 12];
    silk_cng(&mut dec, &ctrl, &mut frame, 10);
    assert_eq!(frame, [7; 12]);
    assert_ne!(dec.s_cng.rand_seed, CNG_RAND_SEED_INIT);
    assert_eq!(dec.s_cng.cng_smth_gain_q16, 0);
}

#[test]
fn cng_voiced_good_frame_clears_filter_state() {
    let mut dec = SilkDecoderState::new();
    dec.lpc_order = 10;
    dec.prev_signal_type = 2;
    dec.s_cng.cng_synth_state[3] = 11;
    dec.s_cng.cng_synth_state[12] = 13;
    let ctrl = SilkDecoderControl::default();
    let mut frame = [1i16; 4];
    silk_cng(&mut dec, &ctrl, &mut frame, 4);
    assert_eq!(dec.s_cng.cng_synth_state[3], 0);
    assert_eq!(dec.s_cng.cng_synth_state[12], 13);
    assert_eq!(frame, [1; 4]);
}
