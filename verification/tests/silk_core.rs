use symphonia_dsp::silk::decode_core::silk_decode_core;
use symphonia_dsp::silk::structs::{SilkDecoderControl, SilkDecoderState};

fn unvoiced_state() -> (SilkDecoderState, SilkDecoderControl) {
    let mut dec = SilkDecoderState::new();
    dec.nb_subfr = 2;
    dec.subfr_length = 40;
    dec.frame_length = 80;
    dec.ltp_mem_length = 160;
    dec.lpc_order = 10;
    dec.fs_khz = 8;
    dec.indices.signal_type = 1;
    dec.indices.quant_offset_type = 0;
    dec.indices.seed = 3;
    let mut ctrl = SilkDecoderControl::default();
    ctrl.gains_q16 = [65536; 4];
    let a: [i16; 10] = [4000, -2000, 1000, 0, 0, 0, 0, 0, 0, 500];
    ctrl.pred_coef_q12[0][..10].copy_from_slice(&a);
    (dec, ctrl)
}

#[test]
fn unvoiced_frame_is_synthesized_from_the_pulses() {
    let (mut dec, ctrl) = unvoiced_state();
    let mut pulses = [0i16; 80];
    pulses[3] = 5;
    pulses[10] = -3;
    pulses[45] = 7;
    let mut xq = [0i16; 80];
    silk_decode_core(&mut dec, &ctrl, &mut xq, &pulses);
    assert_eq!(&dec.exc_q14[..12], &[1600, -1600, 1600, 82240, 1600, -1600, 1600, 1600, 1600, 1600, 46272, 1600]);
    let expected: [i16; 80] = [
        0, 0, 0, 5, 5, 2, 1, 1, 1, 1, 4, 3, 2, 2, 2, 2, 2, 1, 1, 1, 1, 1, 1, 1, 1, 1, 1, 1, 1, 1, 1, 0, 1, 1, 1, 1, 1, 0,
        1, 1, 1, 1, 0, 0, 0, -7, -7, -3, -1, -1, -1, -1, 0, 0, 0, -1, -2, -2, -1, -1, -1, -1, -1, 0, 0, 0, 0, 0, 0, 0, 0,
        -1, -1, 0, 0, 0, 0, 0, 0, 0,
    ];
    assert_eq!(xq, expected);
    assert_eq!(
        dec.s_lpc_q14_buf,
        [-5456, -5584, -5728, -5696, -4832, -3792, -6032, -8384, -8784, -4880, -1520, -3488, -6096, -3680, -400, 1104]
    );
    assert_eq!(dec.prev_gain_q16, 65536);
}

#[test]
fn decode_core_keeps_the_last_gain() {
    let (mut dec, mut ctrl) = unvoiced_state();
    ctrl.gains_q16 = [65536, 131072, 0, 0];
    let pulses = [0i16; 80];
    let mut xq = [0i16; 80];
    silk_decode_core(&mut dec, &ctrl, &mut xq, &pulses);
    assert_eq!(dec.prev_gain_q16, 131072);
}

#[test]
fn voiced_frame_with_zero_lag_decodes() {
    let (mut dec, mut ctrl) = unvoiced_state();
    dec.indices.signal_type = 2;
    ctrl.pitch_l = [0; 4];
    ctrl.ltp_coef_q14 = [0; 20];
    let pulses = [0i16; 80];
    let mut xq = [9i16; 80];
    silk_decode_core(&mut dec, &ctrl, &mut xq, &pulses);
    // Voiced excitation: offset 32 (Q10) signed by the generator.
    assert_eq!(dec.exc_q14[0].abs(), 32 * 16);
    assert_eq!(dec.prev_gain_q16, 65536);
}
