//! A compact standalone SILK decoder state with its own fixed-point helpers,
//! NLSF processing and pitch decoding.

pub mod synthesis;
pub mod fixed;
pub mod lpc;
pub mod nlsf;
pub mod pitch;

pub use fixed::{clz32, mul32_frac_q, rshift_round, rshift_round64, rshift_round64_raw, silk_rand, smmul, smulww};
pub use pitch::decode_pitch;

use vstd::prelude::*;
use crate::silk::tables::{
    NlsfCodebook, nlsf_cb_wf, silk_nlsf_cb_nb_mb, silk_nlsf_cb_wb, TYPE_NO_VOICE_ACTIVITY,
};

verus! {

/// Every element is zero.
pub open spec fn all_zero_i8(s: Seq<i8>) -> bool {
    forall|i: int| 0 <= i < s.len() ==> #[trigger] s[i] == 0
}

/// Every element is zero.
pub open spec fn all_zero_i16(s: Seq<i16>) -> bool {
    forall|i: int| 0 <= i < s.len() ==> #[trigger] s[i] == 0
}

/// Every element is zero.
pub open spec fn all_zero_i32(s: Seq<i32>) -> bool {
    forall|i: int| 0 <= i < s.len() ==> #[trigger] s[i] == 0
}

/// Side information indices of one frame.
#[derive(Clone)]
pub struct SideInfoIndices {
    pub gains_indices: [i8; 4],
    pub ltp_index: [i8; 4],
    pub nlsf_indices: [i8; 17],
    pub lag_index: i16,
    pub contour_index: i8,
    pub signal_type: i8,
    pub quant_offset_type: i8,
    pub nlsf_interp_coef_q2: i8,
    pub per_index: i8,
    pub ltp_scale_index: i8,
    pub seed: i8,
}

impl Default for SideInfoIndices {
    fn default() -> (r: Self)
        ensures
            all_zero_i8(r.gains_indices@),
            all_zero_i8(r.ltp_index@),
            all_zero_i8(r.nlsf_indices@),
            r.lag_index == 0,
            r.contour_index == 0,
            r.signal_type == 0,
            r.quant_offset_type == 0,
            r.nlsf_interp_coef_q2 == 0,
            r.per_index == 0,
            r.ltp_scale_index == 0,
            r.seed == 0,
    {
        let r = SideInfoIndices {
            gains_indices: [0; 4],
            ltp_index: [0; 4],
            nlsf_indices: [0; 17],
            lag_index: 0,
            contour_index: 0,
            signal_type: 0,
            quant_offset_type: 0,
            nlsf_interp_coef_q2: 0,
            per_index: 0,
            ltp_scale_index: 0,
            seed: 0,
        };
        assert(all_zero_i8(r.gains_indices@));
        assert(all_zero_i8(r.ltp_index@));
        assert(all_zero_i8(r.nlsf_indices@));
        r
    }
}

/// Per-frame decoder parameters: pitch lags, gains, LPC and LTP coefficients.
pub struct SilkDecoderControl {
    pub pitch_l: [i32; 4],
    pub gains_q16: [i32; 4],
    pub pred_coef_q12: [[i16; 16]; 2],
    pub ltp_coef_q14: [i16; 20],
    pub ltp_scale_q14: i32,
}

impl Default for SilkDecoderControl {
    fn default() -> (r: Self)
        ensures
            all_zero_i32(r.pitch_l@),
            all_zero_i32(r.gains_q16@),
            all_zero_i16(r.pred_coef_q12@[0]@),
            all_zero_i16(r.pred_coef_q12@[1]@),
            all_zero_i16(r.ltp_coef_q14@),
            r.ltp_scale_q14 == 0,
    {
        let r = SilkDecoderControl {
            pitch_l: [0; 4],
            gains_q16: [0; 4],
            pred_coef_q12: [[0; 16]; 2],
            ltp_coef_q14: [0; 20],
            ltp_scale_q14: 0,
        };
        assert(all_zero_i32(r.pitch_l@));
        assert(all_zero_i32(r.gains_q16@));
        assert(all_zero_i16(r.pred_coef_q12@[0]@));
        assert(all_zero_i16(r.pred_coef_q12@[1]@));
        assert(all_zero_i16(r.ltp_coef_q14@));
        r
    }
}

pub const LTP_MEM_LENGTH_MS: usize = 20;

/// The decoder state of one channel.
pub struct SilkDecoder {
    pub prev_gain_q16: i32,
    pub exc_q14: [i32; 320],
    pub slpc_q14_buf: [i32; 16],
    pub out_buf: [i16; 480],
    pub lag_prev: i32,
    pub last_gain_index: i8,
    /// Long-term prediction state (Q15), `ltp_mem_length + frame_length` long.
    pub s_ltp_q15: Vec<i32>,
    pub s_ltp_buf_idx: usize,
    pub fs_khz: i32,
    pub fs_api_hz: i32,
    pub nb_subfr: usize,
    pub frame_length: usize,
    pub subfr_length: usize,
    pub ltp_mem_length: usize,
    pub lpc_order: usize,
    pub prev_nlsf_q15: [i16; 16],
    pub first_frame_after_reset: bool,
    pub n_frames_decoded: i32,
    pub n_frames_per_packet: i32,
    pub ec_prev_signal_type: i32,
    pub ec_prev_lag_index: i16,
    pub loss_cnt: i32,
    pub prev_signal_type: i8,
    pub indices: SideInfoIndices,
    pub nlsf_cb: NlsfCodebook,
}

/// The NLSFs of a flat spectrum: `(2i + 1) / (2 * order)` in Q15.
pub open spec fn linear_nlsf(i: int, order: int) -> int {
    ((2 * i + 1) * 16384) / order
}

/// The configuration a sampling rate implies.
pub open spec fn silk_config_ok(d: &SilkDecoder, sample_rate: u32) -> bool {
    let fs = sample_rate as int / 1000;
    &&& d.fs_khz == fs
    &&& d.fs_api_hz == sample_rate as i32
    &&& d.nb_subfr == (if fs == 8 { 2int } else { 4int })
    &&& d.frame_length == fs * 20
    &&& d.subfr_length as int == d.frame_length as int / (d.nb_subfr as int)
    &&& d.ltp_mem_length == fs * 20
    &&& d.lpc_order == (if fs <= 12 { 10int } else { 16int })
    &&& d.nlsf_cb.order == d.lpc_order
    &&& nlsf_cb_wf(d.nlsf_cb)
}

/// The state right after a reset: unit gain, zero filter and excitation
/// memories, a zero LTP state with its index at the end of the memory, and
/// flat-spectrum NLSFs.
pub open spec fn silk_reset_state(d: &SilkDecoder) -> bool {
    &&& d.prev_gain_q16 == 65536
    &&& all_zero_i32(d.exc_q14@)
    &&& all_zero_i32(d.slpc_q14_buf@)
    &&& all_zero_i16(d.out_buf@)
    &&& d.lag_prev == 0
    &&& d.first_frame_after_reset
    &&& d.loss_cnt == 0
    &&& forall|i: int| 0 <= i < d.s_ltp_q15@.len() ==> #[trigger] d.s_ltp_q15@[i] == 0
    &&& d.s_ltp_buf_idx == d.ltp_mem_length
    &&& forall|i: int| 0 <= i < d.lpc_order ==> #[trigger] d.prev_nlsf_q15@[i] == linear_nlsf(i, d.lpc_order as int)
}

/// Flat-spectrum NLSFs for `order` coefficients, zero beyond.
fn linear_nlsfs(order: usize) -> (r: [i16; 16])
    requires
        order == 10 || order == 16,
    ensures
        forall|i: int| 0 <= i < order ==> #[trigger] r@[i] == linear_nlsf(i, order as int),
        forall|i: int| order <= i < 16 ==> #[trigger] r@[i] == 0,
{
    let mut r = [0i16; 16];
    let mut i: usize = 0;
    while i < order
        invariant
            i <= order,
            order == 10 || order == 16,
            forall|j: int| 0 <= j < i ==> #[trigger] r@[j] == linear_nlsf(j, order as int),
            forall|j: int| order <= j < 16 ==> #[trigger] r@[j] == 0,
        decreases order - i,
    {
        let odd = i as i32 * 2 + 1;
        let num = odd << 14u32;
        proof {
            assert((odd << 14u32) == odd * 16384) by {
                crate::arith::lemma_i32_shl_is_mul(odd, 14);
                vstd::arithmetic::power2::lemma2_to64();
                crate::arith::lemma_wrap_id(odd * 16384, 0x8000_0000);
            }
            assert(0 <= (2 * i + 1) * 16384 / (order as int) < 32768) by (nonlinear_arith)
                requires 0 <= i < order, order == 10 || order == 16;
        }
        r[i] = (num / (order as i32)) as i16;
        i += 1;
    }
    r
}

impl SilkDecoder {
    /// Creates a decoder for `sample_rate` Hz: 20 ms frames, two subframes at
    /// 8 kHz and four otherwise, LPC order 10 up to 12 kHz and 16 above.
    pub fn new(sample_rate: u32) -> (r: Self)
        ensures
            silk_config_ok(&r, sample_rate),
            silk_reset_state(&r),
            r.s_ltp_q15@.len() == r.ltp_mem_length + r.frame_length,
            r.last_gain_index == 0,
            r.n_frames_decoded == 0,
            r.n_frames_per_packet == 1,
            r.ec_prev_signal_type == 0,
            r.ec_prev_lag_index == 0,
            r.prev_signal_type == TYPE_NO_VOICE_ACTIVITY,
    {
        let fs_khz = (sample_rate / 1000) as i32;
        let nb_subfr: usize = if fs_khz == 8 { 2 } else { 4 };
        let frame_length = (fs_khz as usize) * 20;
        let subfr_length = frame_length / nb_subfr;
        let ltp_mem_length = (fs_khz as usize) * LTP_MEM_LENGTH_MS;
        let lpc_order: usize = if fs_khz <= 12 { 10 } else { 16 };
        let nlsf_cb = if fs_khz <= 12 { silk_nlsf_cb_nb_mb() } else { silk_nlsf_cb_wb() };
        let prev_nlsf_q15 = linear_nlsfs(lpc_order);
        let ltp_buf_size = ltp_mem_length + frame_length;
        let s_ltp_q15 = vec_of_zeros(ltp_buf_size);
        let r = SilkDecoder {
            prev_gain_q16: 65536,
            exc_q14: [0; 320],
            slpc_q14_buf: [0; 16],
            out_buf: [0; 480],
            lag_prev: 0,
            last_gain_index: 0,
            s_ltp_q15,
            s_ltp_buf_idx: ltp_mem_length,
            fs_khz,
            fs_api_hz: sample_rate as i32,
            nb_subfr,
            frame_length,
            subfr_length,
            ltp_mem_length,
            lpc_order,
            prev_nlsf_q15,
            first_frame_after_reset: true,
            n_frames_decoded: 0,
            n_frames_per_packet: 1,
            ec_prev_signal_type: 0,
            ec_prev_lag_index: 0,
            loss_cnt: 0,
            prev_signal_type: TYPE_NO_VOICE_ACTIVITY,
            indices: SideInfoIndices::default(),
            nlsf_cb,
        };
        assert(all_zero_i32(r.exc_q14@));
        assert(all_zero_i32(r.slpc_q14_buf@));
        assert(all_zero_i16(r.out_buf@));
        r
    }

    /// Returns the decoder to its initial state (configuration unchanged).
    pub fn reset(&mut self)
        requires
            old(self).lpc_order == 10 || old(self).lpc_order == 16,
        ensures
            silk_reset_state(final(self)),
            final(self).s_ltp_q15@.len() == old(self).s_ltp_q15@.len(),
            final(self).fs_khz == old(self).fs_khz,
            final(self).nb_subfr == old(self).nb_subfr,
            final(self).frame_length == old(self).frame_length,
            final(self).subfr_length == old(self).subfr_length,
            final(self).ltp_mem_length == old(self).ltp_mem_length,
            final(self).lpc_order == old(self).lpc_order,
            final(self).nlsf_cb == old(self).nlsf_cb,
            forall|i: int| old(self).lpc_order <= i < 16 ==> #[trigger] final(self).prev_nlsf_q15@[i] == old(self).prev_nlsf_q15@[i],
    {
        self.prev_gain_q16 = 65536;
        self.exc_q14 = [0; 320];
        self.slpc_q14_buf = [0; 16];
        self.out_buf = [0; 480];
        self.lag_prev = 0;
        self.first_frame_after_reset = true;
        self.loss_cnt = 0;
        let mut ltp: Vec<i32> = Vec::new();
        std::mem::swap(&mut ltp, &mut self.s_ltp_q15);
        let n = ltp.len();
        let mut k: usize = 0;
        while k < n
            invariant
                k <= n,
                n == ltp@.len(),
                forall|j: int| 0 <= j < k ==> #[trigger] ltp@[j] == 0,
            decreases n - k,
        {
            ltp.set(k, 0);
            k += 1;
        }
        self.s_ltp_q15 = ltp;
        self.s_ltp_buf_idx = self.ltp_mem_length;
        let order = self.lpc_order;
        let fresh = linear_nlsfs(order);
        let mut nlsf = self.prev_nlsf_q15;
        let mut i: usize = 0;
        while i < order
            invariant
                i <= order,
                order == 10 || order == 16,
                forall|j: int| 0 <= j < order ==> #[trigger] fresh@[j] == linear_nlsf(j, order as int),
                forall|j: int| 0 <= j < i ==> #[trigger] nlsf@[j] == linear_nlsf(j, order as int),
                forall|j: int| i <= j < 16 ==> #[trigger] nlsf@[j] == old(self).prev_nlsf_q15@[j],
            decreases order - i,
        {
            nlsf[i] = fresh[i];
            i += 1;
        }
        self.prev_nlsf_q15 = nlsf;
        assert(all_zero_i32(self.exc_q14@));
        assert(all_zero_i32(self.slpc_q14_buf@));
        assert(all_zero_i16(self.out_buf@));
    }
}

/// A vector of `n` zeros.
fn vec_of_zeros(n: usize) -> (v: Vec<i32>)
    ensures
        v@.len() == n,
        forall|i: int| 0 <= i < n ==> #[trigger] v@[i] == 0,
{
    let mut v: Vec<i32> = Vec::new();
    let mut k: usize = 0;
    while k < n
        invariant
            k <= n,
            v@.len() == k,
            forall|i: int| 0 <= i < k ==> #[trigger] v@[i] == 0,
        decreases n - k,
    {
        v.push(0);
        k += 1;
    }
    v
}

} // verus!
