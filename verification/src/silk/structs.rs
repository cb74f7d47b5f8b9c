//! Decoder-side state of the SILK decoder: limits and constants, the side
//! information of a frame, the per-frame control parameters, and the
//! per-channel state with its packet-loss-concealment and comfort-noise parts.

use vstd::prelude::*;
use crate::arith::wrap32;
use crate::silk::macros::{fx_shl32, silk_lshift};
use crate::silk::resampler::{resampler_zeroed, SilkResamplerState};
use crate::silk::tables::{is_nb_mb_codebook, nlsf_cb_wf, silk_nlsf_cb_nb_mb, NlsfCodebook, SILK_PITCH_CONTOUR_NB_ICDF, SILK_UNIFORM8_ICDF};
use crate::silk_decoder::{all_zero_i16, all_zero_i32, all_zero_i8};

verus! {

pub const MAX_FRAMES_PER_PACKET: usize = 3;
pub const DECODER_NUM_CHANNELS: usize = 2;
pub const MAX_FS_KHZ: i32 = 16;
pub const SUB_FRAME_LENGTH_MS: i32 = 5;
pub const MAX_NB_SUBFR: usize = 4;
/// `SUB_FRAME_LENGTH_MS * MAX_FS_KHZ`.
pub const MAX_SUB_FRAME_LENGTH: usize = 80;
/// `SUB_FRAME_LENGTH_MS * MAX_NB_SUBFR`.
pub const MAX_FRAME_LENGTH_MS: i32 = 20;
/// `MAX_FRAME_LENGTH_MS * MAX_FS_KHZ`.
pub const MAX_FRAME_LENGTH: usize = 320;
pub const LTP_MEM_LENGTH_MS: i32 = 20;
/// `LTP_MEM_LENGTH_MS * MAX_FS_KHZ`: the largest `ltp_mem_length` (16 kHz).
pub const MAX_LTP_MEM_LENGTH: usize = 320;
pub const MAX_LPC_ORDER: usize = 16;
pub const MIN_LPC_ORDER: usize = 10;
pub const LTP_ORDER: usize = 5;
pub const NB_LTP_CBKS: usize = 3;
pub const SHELL_CODEC_FRAME_LENGTH: usize = 16;
pub const LOG2_SHELL_CODEC_FRAME_LENGTH: i32 = 4;
/// `MAX_FRAME_LENGTH / SHELL_CODEC_FRAME_LENGTH`.
pub const MAX_NB_SHELL_BLOCKS: usize = 20;
pub const N_RATE_LEVELS: usize = 10;
pub const SILK_MAX_PULSES: i32 = 16;
pub const NSQ_LPC_BUF_LENGTH: usize = 16;
pub const N_LEVELS_QGAIN: i32 = 64;
pub const MIN_QGAIN_DB: i32 = 2;
pub const MAX_QGAIN_DB: i32 = 88;
pub const MAX_DELTA_GAIN_QUANT: i32 = 36;
pub const MIN_DELTA_GAIN_QUANT: i32 = -4;
pub const QUANT_LEVEL_ADJUST_Q10: i32 = 80;
pub const NLSF_QUANT_MAX_AMPLITUDE: i32 = 4;
pub const TYPE_NO_VOICE_ACTIVITY: i32 = 0;
pub const TYPE_UNVOICED: i32 = 1;
pub const TYPE_VOICED: i32 = 2;
pub const CODE_INDEPENDENTLY: i32 = 0;
pub const CODE_INDEPENDENTLY_NO_LTP_SCALING: i32 = 1;
pub const CODE_CONDITIONALLY: i32 = 2;
pub const STEREO_INTERP_LEN_MS: i32 = 8;
pub const BWE_AFTER_LOSS_Q16: i32 = 63570;
pub const CNG_BUF_MASK_MAX: i32 = 255;
pub const CNG_GAIN_SMTH_Q16: i32 = 4634;
pub const CNG_GAIN_SMTH_THRESHOLD_Q16: i32 = 46396;
pub const CNG_NLSF_SMTH_Q16: i32 = 16348;
/// The seed of the comfort-noise generator after a reset.
pub const CNG_RAND_SEED_INIT: i32 = 3_176_576;

/// The layout of an NLSF codebook with its rate table.
pub struct NlsfCbStruct {
    pub n_vectors: i16,
    pub order: i16,
    pub quant_step_size_q16: i16,
    pub inv_quant_step_size_q6: i16,
    pub cb1_nlsf_q8: &'static [u8],
    pub cb1_wght_q9: &'static [i16],
    pub cb1_icdf: &'static [u8],
    pub pred_q8: &'static [u8],
    pub ec_sel: &'static [u8],
    pub ec_icdf: &'static [u8],
    pub ec_rates_q5: &'static [u8],
    pub delta_min_q15: &'static [i16],
}

/// Side information indices of one frame.
#[derive(Clone, Copy)]
pub struct SideInfoIndices {
    pub gains_indices: [i8; 4],
    pub ltp_index: [i8; 4],
    pub nlsf_indices: [i8; 17],
    pub lag_index: i16,
    pub contour_index: i8,
    pub signal_type: i8,
    pub quant_offset_type: i8,
    pub nlsf_interp_coef_q2: i8,
    pub per_index: i8,
    pub ltp_scale_index: i8,
    pub seed: i8,
}

/// Every index is zero.
pub open spec fn indices_zeroed(r: SideInfoIndices) -> bool {
    &&& all_zero_i8(r.gains_indices@)
    &&& all_zero_i8(r.ltp_index@)
    &&& all_zero_i8(r.nlsf_indices@)
    &&& r.lag_index == 0
    &&& r.contour_index == 0
    &&& r.signal_type == 0
    &&& r.quant_offset_type == 0
    &&& r.nlsf_interp_coef_q2 == 0
    &&& r.per_index == 0
    &&& r.ltp_scale_index == 0
    &&& r.seed == 0
}

impl Default for SideInfoIndices {
    fn default() -> (r: Self)
        ensures
            indices_zeroed(r),
    {
        let r = SideInfoIndices {
            gains_indices: [0; 4],
            ltp_index: [0; 4],
            nlsf_indices: [0; 17],
            lag_index: 0,
            contour_index: 0,
            signal_type: 0,
            quant_offset_type: 0,
            nlsf_interp_coef_q2: 0,
            per_index: 0,
            ltp_scale_index: 0,
            seed: 0,
        };
        assert(all_zero_i8(r.gains_indices@));
        assert(all_zero_i8(r.ltp_index@));
        assert(all_zero_i8(r.nlsf_indices@));
        r
    }
}

/// Per-frame decoder parameters: pitch lags, gains, LPC and LTP coefficients.
#[derive(Clone)]
pub struct SilkDecoderControl {
    pub pitch_l: [i32; 4],
    pub gains_q16: [i32; 4],
    pub pred_coef_q12: [[i16; 16]; 2],
    pub ltp_coef_q14: [i16; 20],
    pub ltp_scale_q14: i32,
}

impl Default for SilkDecoderControl {
    fn default() -> (r: Self)
        ensures
            all_zero_i32(r.pitch_l@),
            all_zero_i32(r.gains_q16@),
            all_zero_i16(r.pred_coef_q12@[0]@),
            all_zero_i16(r.pred_coef_q12@[1]@),
            all_zero_i16(r.ltp_coef_q14@),
            r.ltp_scale_q14 == 0,
    {
        let r = SilkDecoderControl {
            pitch_l: [0; 4],
            gains_q16: [0; 4],
            pred_coef_q12: [[0; 16]; 2],
            ltp_coef_q14: [0; 20],
            ltp_scale_q14: 0,
        };
        assert(all_zero_i32(r.pitch_l@));
        assert(all_zero_i32(r.gains_q16@));
        assert(all_zero_i16(r.pred_coef_q12@[0]@));
        assert(all_zero_i16(r.pred_coef_q12@[1]@));
        assert(all_zero_i16(r.ltp_coef_q14@));
        r
    }
}

/// The stereo predictor state of the decoder.
#[derive(Clone, Copy)]
pub struct StereoDecState {
    pub pred_prev_q13: [i32; 2],
    pub s_mid: [i16; 2],
    pub s_side: [i16; 2],
}

impl Default for StereoDecState {
    fn default() -> (r: Self)
        ensures
            all_zero_i32(r.pred_prev_q13@),
            all_zero_i16(r.s_mid@),
            all_zero_i16(r.s_side@),
    {
        let r = StereoDecState { pred_prev_q13: [0; 2], s_mid: [0; 2], s_side: [0; 2] };
        assert(all_zero_i32(r.pred_prev_q13@));
        assert(all_zero_i16(r.s_mid@));
        assert(all_zero_i16(r.s_side@));
        r
    }
}

/// The packet-loss-concealment state.
#[derive(Clone)]
pub struct SilkPlcState {
    pub pitch_l_q8: i32,
    pub ltp_coef_q14: [i16; 5],
    pub prev_lpc_q12: [i16; 16],
    pub rand_seed: i32,
    pub rand_scale_q14: i16,
    pub conc_energy: i32,
    pub conc_energy_shift: i32,
    pub prev_ltp_scale_q14: i16,
    pub prev_gain_q16: [i32; 2],
    pub fs_khz: i32,
    pub nb_subfr: i32,
    pub subfr_length: i32,
    pub last_frame_lost: bool,
}

/// Every field of the concealment state is zero (or false).
pub open spec fn plc_zeroed(r: SilkPlcState) -> bool {
    &&& r.pitch_l_q8 == 0
    &&& all_zero_i16(r.ltp_coef_q14@)
    &&& all_zero_i16(r.prev_lpc_q12@)
    &&& r.rand_seed == 0
    &&& r.rand_scale_q14 == 0
    &&& r.conc_energy == 0
    &&& r.conc_energy_shift == 0
    &&& r.prev_ltp_scale_q14 == 0
    &&& all_zero_i32(r.prev_gain_q16@)
    &&& r.fs_khz == 0
    &&& r.nb_subfr == 0
    &&& r.subfr_length == 0
    &&& !r.last_frame_lost
}

impl Default for SilkPlcState {
    fn default() -> (r: Self)
        ensures
            plc_zeroed(r),
    {
        let r = SilkPlcState {
            pitch_l_q8: 0,
            ltp_coef_q14: [0; 5],
            prev_lpc_q12: [0; 16],
            rand_seed: 0,
            rand_scale_q14: 0,
            conc_energy: 0,
            conc_energy_shift: 0,
            prev_ltp_scale_q14: 0,
            prev_gain_q16: [0; 2],
            fs_khz: 0,
            nb_subfr: 0,
            subfr_length: 0,
            last_frame_lost: false,
        };
        assert(all_zero_i16(r.ltp_coef_q14@));
        assert(all_zero_i16(r.prev_lpc_q12@));
        assert(all_zero_i32(r.prev_gain_q16@));
        r
    }
}

/// The comfort-noise-generation state.
#[derive(Clone)]
pub struct SilkCngState {
    pub cng_exc_buf_q14: [i32; 320],
    pub cng_smth_nlsf_q15: [i16; 16],
    pub cng_synth_state: [i32; 16],
    pub cng_smth_gain_q16: i32,
    pub rand_seed: i32,
    pub fs_khz: i32,
}

/// Every field of the comfort-noise state is zero.
pub open spec fn cng_zeroed(r: SilkCngState) -> bool {
    &&& all_zero_i32(r.cng_exc_buf_q14@)
    &&& all_zero_i16(r.cng_smth_nlsf_q15@)
    &&& all_zero_i32(r.cng_synth_state@)
    &&& r.cng_smth_gain_q16 == 0
    &&& r.rand_seed == 0
    &&& r.fs_khz == 0
}

impl Default for SilkCngState {
    fn default() -> (r: Self)
        ensures
            cng_zeroed(r),
    {
        let r = SilkCngState {
            cng_exc_buf_q14: [0; 320],
            cng_smth_nlsf_q15: [0; 16],
            cng_synth_state: [0; 16],
            cng_smth_gain_q16: 0,
            rand_seed: 0,
            fs_khz: 0,
        };
        assert(all_zero_i32(r.cng_exc_buf_q14@));
        assert(all_zero_i16(r.cng_smth_nlsf_q15@));
        assert(all_zero_i32(r.cng_synth_state@));
        r
    }
}

/// The decoder state of one channel.
#[derive(Clone)]
pub struct SilkDecoderState {
    pub prev_gain_q16: i32,
    pub exc_q14: [i32; 320],
    pub s_lpc_q14_buf: [i32; 16],
    pub out_buf: [i16; 480],
    pub lag_prev: i32,
    pub last_gain_index: i8,
    pub fs_khz: i32,
    pub fs_api_hz: i32,
    pub nb_subfr: i32,
    pub frame_length: i32,
    pub subfr_length: i32,
    pub ltp_mem_length: i32,
    pub lpc_order: i32,
    pub prev_nlsf_q15: [i16; 16],
    pub first_frame_after_reset: bool,
    pub pitch_lag_low_bits_icdf: &'static [u8],
    pub pitch_contour_icdf: &'static [u8],
    pub n_frames_decoded: i32,
    pub n_frames_per_packet: i32,
    pub ec_prev_signal_type: i32,
    pub ec_prev_lag_index: i16,
    pub vad_flags: [bool; 3],
    pub lbrr_flag: bool,
    pub lbrr_flags: [bool; 3],
    pub resampler_state: SilkResamplerState,
    pub ps_nlsf_cb: NlsfCodebook,
    pub indices: SideInfoIndices,
    pub s_cng: SilkCngState,
    pub loss_cnt: i32,
    pub prev_signal_type: i32,
    pub arch: i32,
    pub s_plc: SilkPlcState,
}

/// The fields `SilkDecoderState::reset` sets, with the comfort-noise and
/// concealment resets for `lpc_order == 0` and `frame_length == 0`.
pub open spec fn state_reset(s: SilkDecoderState) -> bool {
    &&& s.prev_gain_q16 == 65536
    &&& all_zero_i32(s.exc_q14@)
    &&& all_zero_i32(s.s_lpc_q14_buf@)
    &&& forall|i: int| 0 <= i < 480 ==> #[trigger] s.out_buf@[i] == 0
    &&& s.lag_prev == 0
    &&& s.last_gain_index == 0
    &&& s.fs_khz == 0
    &&& s.fs_api_hz == 0
    &&& s.lpc_order == 0
    &&& s.frame_length == 0
    &&& s.subfr_length == 0
    &&& s.ltp_mem_length == 0
    &&& all_zero_i16(s.prev_nlsf_q15@)
    &&& s.first_frame_after_reset
    &&& s.n_frames_decoded == 0
    &&& s.n_frames_per_packet == 0
    &&& s.ec_prev_signal_type == 0
    &&& s.ec_prev_lag_index == 0
    &&& forall|i: int| 0 <= i < 3 ==> !(#[trigger] s.vad_flags@[i])
    &&& !s.lbrr_flag
    &&& forall|i: int| 0 <= i < 3 ==> !(#[trigger] s.lbrr_flags@[i])
    &&& indices_zeroed(s.indices)
    &&& s.loss_cnt == 0
    &&& s.prev_signal_type == TYPE_NO_VOICE_ACTIVITY
    &&& s.s_cng.cng_smth_gain_q16 == 0
    &&& s.s_cng.rand_seed == CNG_RAND_SEED_INIT
    &&& s.s_plc.pitch_l_q8 == 0
    &&& s.s_plc.prev_gain_q16@[0] == 65536
    &&& s.s_plc.prev_gain_q16@[1] == 65536
    &&& s.s_plc.subfr_length == 20
    &&& s.s_plc.nb_subfr == 2
    &&& resampler_zeroed(s.resampler_state)
    &&& cng_zeroed(SilkCngState { rand_seed: 0, ..s.s_cng })
    &&& plc_zeroed(SilkPlcState { prev_gain_q16: [0i32, 0i32], subfr_length: 0, nb_subfr: 0, ..s.s_plc })
    &&& s.nb_subfr == 0
    &&& s.arch == 0
    &&& s.pitch_lag_low_bits_icdf@ == SILK_UNIFORM8_ICDF@
    &&& s.pitch_contour_icdf@ == SILK_PITCH_CONTOUR_NB_ICDF@
    &&& nlsf_cb_wf(s.ps_nlsf_cb)
    &&& is_nb_mb_codebook(s.ps_nlsf_cb)
}

impl SilkDecoderState {
    /// A zeroed state (narrowband tables, the
    /// order-10 NLSF codebook, an idle resampler) that is then reset.
    pub fn new() -> (s: Self)
        ensures
            state_reset(s),
            s.pitch_lag_low_bits_icdf@ == SILK_UNIFORM8_ICDF@,
            s.pitch_contour_icdf@ == SILK_PITCH_CONTOUR_NB_ICDF@,
            nlsf_cb_wf(s.ps_nlsf_cb),
            s.ps_nlsf_cb.order == 10,
            resampler_zeroed(s.resampler_state),
            s.arch == 0,
            s.nb_subfr == 0,
            all_zero_i16(s.s_cng.cng_smth_nlsf_q15@),
            all_zero_i32(s.s_cng.cng_exc_buf_q14@),
            all_zero_i32(s.s_cng.cng_synth_state@),
            s.s_cng.fs_khz == 0,
            s.s_plc.fs_khz == 0,
            !s.s_plc.last_frame_lost,
    {
        let mut s = SilkDecoderState {
            prev_gain_q16: 0,
            exc_q14: [0; 320],
            s_lpc_q14_buf: [0; 16],
            out_buf: [0; 480],
            lag_prev: 0,
            last_gain_index: 0,
            fs_khz: 0,
            fs_api_hz: 0,
            nb_subfr: 0,
            frame_length: 0,
            subfr_length: 0,
            ltp_mem_length: 0,
            lpc_order: 0,
            prev_nlsf_q15: [0; 16],
            first_frame_after_reset: false,
            pitch_lag_low_bits_icdf: &SILK_UNIFORM8_ICDF,
            pitch_contour_icdf: &SILK_PITCH_CONTOUR_NB_ICDF,
            n_frames_decoded: 0,
            n_frames_per_packet: 0,
            ec_prev_signal_type: 0,
            ec_prev_lag_index: 0,
            vad_flags: [false; 3],
            lbrr_flag: false,
            lbrr_flags: [false; 3],
            resampler_state: SilkResamplerState::default(),
            ps_nlsf_cb: silk_nlsf_cb_nb_mb(),
            indices: SideInfoIndices::default(),
            s_cng: SilkCngState::default(),
            loss_cnt: 0,
            prev_signal_type: TYPE_NO_VOICE_ACTIVITY,
            arch: 0,
            s_plc: SilkPlcState::default(),
        };
        s.reset();
        s
    }

    /// Returns every field to the value [`SilkDecoderState::new`] gives
    /// ([`state_reset`]): the decoding state (sampling rate and frame layout
    /// included), the narrowband tables and codebook, the resampler, the
    /// comfort noise and the concealment state, the last two then set to
    /// their starting values.
    pub fn reset(&mut self)
        ensures
            state_reset(*final(self)),
    {
        self.prev_gain_q16 = 65536;
        self.nb_subfr = 0;
        self.arch = 0;
        self.pitch_lag_low_bits_icdf = &SILK_UNIFORM8_ICDF;
        self.pitch_contour_icdf = &SILK_PITCH_CONTOUR_NB_ICDF;
        self.ps_nlsf_cb = silk_nlsf_cb_nb_mb();
        self.exc_q14 = [0; 320];
        self.s_lpc_q14_buf = [0; 16];
        self.out_buf = [0; 480];
        self.lag_prev = 0;
        self.last_gain_index = 0;
        self.fs_khz = 0;
        self.fs_api_hz = 0;
        self.lpc_order = 0;
        self.frame_length = 0;
        self.subfr_length = 0;
        self.ltp_mem_length = 0;
        self.prev_nlsf_q15 = [0; 16];
        self.first_frame_after_reset = true;
        self.n_frames_decoded = 0;
        self.n_frames_per_packet = 0;
        self.ec_prev_signal_type = 0;
        self.ec_prev_lag_index = 0;
        self.vad_flags = [false; 3];
        self.lbrr_flag = false;
        self.lbrr_flags = [false; 3];
        self.indices = SideInfoIndices::default();
        self.loss_cnt = 0;
        self.prev_signal_type = TYPE_NO_VOICE_ACTIVITY;
        self.resampler_state = SilkResamplerState::default();
        self.s_cng = SilkCngState::default();
        self.s_plc = SilkPlcState::default();
        assert(all_zero_i32(self.exc_q14@));
        assert(all_zero_i32(self.s_lpc_q14_buf@));
        assert(all_zero_i16(self.prev_nlsf_q15@));
        crate::silk::cng::reset(self);
        crate::silk::plc::reset(self);
        proof {
            vstd::arithmetic::power2::lemma2_to64();
            crate::arith::lemma_wrap_id(0, 0x8000_0000);
            assert(all_zero_i32([0i32, 0i32]@));
        }
    }
}

impl Default for SilkDecoderState {
    fn default() -> (s: Self)
        ensures
            state_reset(s),
    {
        Self::new()
    }
}

} // verus!
