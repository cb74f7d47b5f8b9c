use symphonia_dsp::silk::resampler::{silk_resampler, silk_resampler_init, ResamplerFn, SilkResamplerState};

fn run_resample(fs_in: i32, fs_out: i32, total_in: usize) -> Vec<i16> {
    let mut state = SilkResamplerState::default();
    assert_eq!(silk_resampler_init(&mut state, fs_in, fs_out, false), 0);
    let input: Vec<i16> = (0..total_in).map(|i| ((i % 2000) as i16) - 1000).collect();
    let fs_in_khz = (fs_in / 1000) as usize;
    // silk_resampler requires inLen >= Fs_in_kHz per call; feed it 20 ms at a time, like a
    // real 20 ms SILK frame.
    let step = fs_in_khz * 20;
    let mut out = vec![0i16; total_in * 8]; // generous upper bound
    let mut in_pos = 0usize;
    let mut out_pos = 0usize;
    while in_pos + step <= total_in {
        let n = silk_resampler(&mut state, &mut out[out_pos..], &input[in_pos..in_pos + step], step as i32);
        out_pos += n as usize;
        in_pos += step;
    }
    out.truncate(out_pos);
    out
}

#[test]
fn resample_8k_to_48k_produces_output_and_no_panic() {
    let out = run_resample(8000, 48000, 8 * 200);
    assert!(!out.is_empty());
    // 8 kHz -> 48 kHz is a 6x ratio: each 20 ms/8kHz step (160 in) should yield ~960 out.
    assert!(out.len() >= 900 * (out.len() / 960).max(1));
}

#[test]
fn resample_12k_to_48k_produces_output_and_no_panic() {
    let out = run_resample(12000, 48000, 12 * 200);
    assert!(!out.is_empty());
}

#[test]
fn resample_16k_to_48k_produces_output_and_no_panic() {
    let out = run_resample(16000, 48000, 16 * 200);
    assert!(!out.is_empty());
}

#[test]
fn identity_rate_is_copy() {
    let mut state = SilkResamplerState::default();
    assert_eq!(silk_resampler_init(&mut state, 16000, 16000, false), 0);
    assert_eq!(state.resampler_function, ResamplerFn::Copy);
    let input = [100i16; 320];
    let mut out = [0i16; 340];
    let n = silk_resampler(&mut state, &mut out, &input, 320);
    assert_eq!(n, 320);
    // The "copy" path still applies `inputDelay` samples of latency (to equalize delay
    // across resampling modes), so only the tail is guaranteed to already be steady-state.
    assert!(out[320 - 32..320].iter().all(|&x| x == 100));
}

#[test]
fn downsample_16k_to_8k_no_panic() {
    let out = run_resample(16000, 8000, 16 * 200);
    assert!(!out.is_empty());
}

#[test]
fn init_rejects_rates_outside_the_decoder_range() {
    let mut state = SilkResamplerState::default();
    assert_eq!(silk_resampler_init(&mut state, 44100, 48000, false), -1);
    assert_eq!(state.resampler_function, ResamplerFn::Copy);
    assert_eq!(state.fs_in_khz, 0);
    assert_eq!(silk_resampler_init(&mut state, 24000, 48000, false), -1);
    assert_eq!(silk_resampler_init(&mut state, 16000, 44100, false), -1);
    // The encoder direction takes 24 kHz in but not 24 kHz out.
    assert_eq!(silk_resampler_init(&mut state, 24000, 16000, true), 0);
    assert_eq!(silk_resampler_init(&mut state, 16000, 24000, true), -1);
}

#[test]
fn init_picks_the_filter_for_the_ratio() {
    let mut state = SilkResamplerState::default();
    assert_eq!(silk_resampler_init(&mut state, 8000, 16000, false), 0);
    assert_eq!(state.resampler_function, ResamplerFn::Up2HqWrapper);
    assert_eq!(state.input_delay, 2);
    assert_eq!(silk_resampler_init(&mut state, 8000, 48000, false), 0);
    assert_eq!(state.resampler_function, ResamplerFn::IirFir);
    assert_eq!(state.batch_size, 80);
    assert_eq!(silk_resampler_init(&mut state, 16000, 12000, false), 0);
    assert_eq!(state.resampler_function, ResamplerFn::DownFir);
    assert_eq!(state.fir_fracs, 3);
    assert_eq!(state.fir_order, 18);
    assert_eq!(state.coefs.len(), 29);
    assert_eq!(silk_resampler_init(&mut state, 16000, 8000, false), 0);
    assert_eq!(state.fir_order, 24);
    assert_eq!(state.input_delay, 0);
}

#[test]
fn init_rounds_the_step_up() {
    let mut state = SilkResamplerState::default();
    assert_eq!(silk_resampler_init(&mut state, 16000, 8000, false), 0);
    // 2.0 in Q16 exactly: (131072 * 8000) >> 16 == 16000.
    assert_eq!(state.inv_ratio_q16, 131072);
    assert_eq!(silk_resampler_init(&mut state, 12000, 16000, false), 0);
    // Up-sampling through the 2x stage: the step is (12000 << 17) / 16000 = 98304 in Q16.
    assert_eq!(state.inv_ratio_q16, 98304);
}

#[test]
fn copy_path_delays_by_the_input_delay() {
    let mut state = SilkResamplerState::default();
    assert_eq!(silk_resampler_init(&mut state, 12000, 12000, false), 0);
    let delay = state.input_delay as usize;
    assert_eq!(delay, 9);
    let input: Vec<i16> = (1..=240).map(|i| i as i16).collect();
    let mut out = [0i16; 240];
    let n = silk_resampler(&mut state, &mut out, &input, 240);
    assert_eq!(n, 240);
    // The first `delay` outputs come from the (zero) delay buffer, then the input follows.
    assert!(out[..delay].iter().all(|&x| x == 0));
    assert_eq!(out[delay], 1);
    assert_eq!(out[239], (240 - delay) as i16);
    // The delay buffer now holds the last `delay` inputs.
    assert_eq!(&state.delay_buf[..delay], &input[240 - delay..]);
}

#[test]
fn upsampling_2x_of_silence_is_silence() {
    let mut state = SilkResamplerState::default();
    assert_eq!(silk_resampler_init(&mut state, 8000, 16000, false), 0);
    let input = [0i16; 160];
    let mut out = [5i16; 320];
    let n = silk_resampler(&mut state, &mut out, &input, 160);
    assert_eq!(n, 320);
    assert!(out.iter().all(|&x| x == 0));
}
