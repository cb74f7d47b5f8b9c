use symphonia_dsp::silk_decoder::{SilkDecoder, SilkDecoderControl};

#[test]
fn decode_core_unvoiced_silence_with_unit_gain() {
    let mut dec = SilkDecoder::new(8000);
    let mut ctrl = SilkDecoderControl::default();
    ctrl.gains_q16 = [65536; 4];
    let pulses = [0i16; 160];
    let mut output = [7i16; 170];
    assert!(dec.decode_core(&ctrl, &mut output, &pulses).is_ok());
    // Excitation: the offset 100 (Q10) signed by the generator; LPC adds its bias of 5 << 4.
    assert_eq!(&dec.exc_q14[..6], &[1600, -1600, -1600, -1600, 1600, 1600]);
    assert_eq!(&output[..6], &[26, -24, -24, -24, 26, 26]);
    assert_eq!(&output[160..], &[7; 10]);
    assert_eq!(dec.s_ltp_buf_idx, 320);
    assert_eq!(dec.s_ltp_q15.len(), 320);
    // The history holds the doubled excitation, moved down by one frame.
    assert_eq!(dec.s_ltp_q15[0], 3200);
    assert_eq!(dec.s_ltp_q15[1], -3200);
}

#[test]
fn decode_core_zero_gain_gives_silence() {
    let mut dec = SilkDecoder::new(16000);
    let ctrl = SilkDecoderControl::default();
    let pulses = [3i16; 320];
    let mut output = [1i16; 320];
    assert!(dec.decode_core(&ctrl, &mut output, &pulses).is_ok());
    assert!(output.iter().all(|&x| x == 0));
}
