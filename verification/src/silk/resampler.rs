//! Sample-rate conversion from the SILK decoding rate (8/12/16 kHz) to the
//! output rate: state set-up for a pair of rates, and the per-frame driver
//! that runs the chosen filter (2x up-sampler, up-sampler with fractional
//! interpolation, AR + FIR down-sampler, or a plain copy) with a fixed delay.

use vstd::prelude::*;
use crate::arith::wrap32;
use crate::silk::macros::{fx_div32, fx_shl32, silk_div32, silk_lshift, silk_min};
use crate::silk::resampler_filters::{
    ar2, ar2_run, down_fir_interpol, down_interp, iir_fir_interpol, iir_interp, splice, up2_hq, up2_run,
    MAX_BATCH_SIZE_IN, MAX_FIR_ORDER, ORDER_FIR_12,
};

verus! {

pub const MAX_BATCH_SIZE_MS: i32 = 10;
pub const DOWN_ORDER_FIR0: usize = 18;
pub const DOWN_ORDER_FIR1: usize = 24;
pub const DOWN_ORDER_FIR2: usize = 36;

/// AR2 coefficients, then the 3 phases of the 18-tap FIR, for 3/4.
pub const RESAMPLER_3_4_COEFS: [i16; 29] = [
    -20694, -13867, -49, 64, 17, -157, 353, -496, 163, 11047, 22205, -39, 6, 91, -170, 186, 23, -896, 6336, 19928,
    -19, -36, 102, -89, -24, 328, -951, 2568, 15909,
];
/// AR2 coefficients, then the 2 phases of the 18-tap FIR, for 2/3.
pub const RESAMPLER_2_3_COEFS: [i16; 20] = [
    -14457, -14019, 64, 128, -122, 36, 310, -768, 584, 9267, 17733, 12, 128, 18, -142, 288, -117, -865, 4123, 14459,
];
/// AR2 coefficients, then half of the symmetric 24-tap FIR, for 1/2.
pub const RESAMPLER_1_2_COEFS: [i16; 14] = [616, -14323, -10, 39, 58, -46, -84, 120, 184, -315, -541, 1284, 5380, 9024];
/// AR2 coefficients, then half of the symmetric 36-tap FIR, for 1/3.
pub const RESAMPLER_1_3_COEFS: [i16; 20] = [
    16102, -15162, -13, 0, 20, 26, 5, -31, -43, -4, 65, 90, 7, -157, -248, -44, 593, 1583, 2612, 3271,
];
/// AR2 coefficients, then half of the symmetric 36-tap FIR, for 1/4.
pub const RESAMPLER_1_4_COEFS: [i16; 20] = [
    22500, -15099, 3, -14, -20, -15, 2, 25, 37, 25, -16, -71, -107, -79, 50, 292, 623, 982, 1288, 1464,
];
/// AR2 coefficients, then half of the symmetric 36-tap FIR, for 1/6.
pub const RESAMPLER_1_6_COEFS: [i16; 20] = [
    27540, -15257, 17, 12, 8, 1, -10, -22, -30, -32, -22, 3, 44, 100, 168, 243, 317, 381, 429, 455,
];
/// No coefficients.
pub const NO_COEFS: [i16; 0] = [];

/// Row-major; input rate by output rate.
pub const DELAY_MATRIX_ENC: [i8; 15] = [6, 0, 3, 0, 7, 3, 0, 1, 10, 0, 2, 6, 18, 10, 12];
/// Row-major; input rate by output rate.
pub const DELAY_MATRIX_DEC: [i8; 15] = [4, 0, 2, 0, 0, 0, 9, 4, 7, 4, 0, 3, 12, 7, 7];

/// Which filter a resampler runs.
#[derive(Clone, Copy, PartialEq, Eq, Structural, Debug)]
pub enum ResamplerFn {
    Copy,
    Up2HqWrapper,
    IirFir,
    DownFir,
}

#[derive(Clone)]
pub struct SilkResamplerState {
    /// All-pass states of the up-sampler; the first two are the AR2 states when down-sampling.
    pub s_iir: [i32; 6],
    /// FIR history of the down-sampler.
    pub s_fir_i32: [i32; 36],
    /// FIR history of the fractional interpolator.
    pub s_fir_i16: [i16; 36],
    pub delay_buf: [i16; 48],
    pub resampler_function: ResamplerFn,
    pub batch_size: i32,
    pub inv_ratio_q16: i32,
    pub fir_order: usize,
    pub fir_fracs: i32,
    pub fs_in_khz: i32,
    pub fs_out_khz: i32,
    pub input_delay: i32,
    pub coefs: &'static [i16],
}

/// Every field of the state is zero (the state `Default` gives).
pub open spec fn resampler_zeroed(s: SilkResamplerState) -> bool {
    &&& forall|i: int| 0 <= i < 6 ==> #[trigger] s.s_iir@[i] == 0
    &&& forall|i: int| 0 <= i < 36 ==> #[trigger] s.s_fir_i32@[i] == 0
    &&& forall|i: int| 0 <= i < 36 ==> #[trigger] s.s_fir_i16@[i] == 0
    &&& forall|i: int| 0 <= i < 48 ==> #[trigger] s.delay_buf@[i] == 0
    &&& s.resampler_function == ResamplerFn::Copy
    &&& s.batch_size == 0 && s.inv_ratio_q16 == 0 && s.fir_order == 0 && s.fir_fracs == 0
    &&& s.fs_in_khz == 0 && s.fs_out_khz == 0 && s.input_delay == 0
    &&& s.coefs@.len() == 0
}

fn no_coefs() -> (r: &'static [i16])
    ensures
        r@.len() == 0,
{
    &NO_COEFS
}

impl Default for SilkResamplerState {
    fn default() -> (r: Self)
        ensures
            resampler_zeroed(r),
    {
        SilkResamplerState {
            s_iir: [0; 6],
            s_fir_i32: [0; 36],
            s_fir_i16: [0; 36],
            delay_buf: [0; 48],
            resampler_function: ResamplerFn::Copy,
            batch_size: 0,
            inv_ratio_q16: 0,
            fir_order: 0,
            fir_fracs: 0,
            fs_in_khz: 0,
            fs_out_khz: 0,
            input_delay: 0,
            coefs: no_coefs(),
        }
    }
}

/// `rateID`: the index of 8, 12, 16, 24 and 48 kHz among those rates.
pub open spec fn rate_index(r: int) -> int {
    if r == 8000 { 0 } else if r == 12000 { 1 } else if r == 16000 { 2 } else if r == 24000 { 3 } else { 4 }
}

/// The decoder's input rates.
pub open spec fn is_decoder_rate(r: int) -> bool {
    r == 8000 || r == 12000 || r == 16000
}

/// The API rates (the decoder's output rates, the encoder's input rates).
pub open spec fn is_api_rate(r: int) -> bool {
    r == 8000 || r == 12000 || r == 16000 || r == 24000 || r == 48000
}

fn rate_id(r: i32) -> (id: usize)
    requires
        is_api_rate(r as int),
    ensures
        id == rate_index(r as int),
{
    let a = r / 4096;
    let b = a - if r > 16000 { 1 } else { 0 };
    let c = if r > 24000 { b / 2 } else { b };
    (c - 1) as usize
}

/// The set-up of a down-sampler for a ratio: FIR phases, order and coefficient set
/// (`None` for a ratio without filter).
pub open spec fn down_setup(fs_in: int, fs_out: int) -> Option<(int, int, Seq<i16>)> {
    if fs_out * 4 == fs_in * 3 {
        Some((3, 18, RESAMPLER_3_4_COEFS@))
    } else if fs_out * 3 == fs_in * 2 {
        Some((2, 18, RESAMPLER_2_3_COEFS@))
    } else if fs_out * 2 == fs_in {
        Some((1, 24, RESAMPLER_1_2_COEFS@))
    } else if fs_out * 3 == fs_in {
        Some((1, 36, RESAMPLER_1_3_COEFS@))
    } else if fs_out * 4 == fs_in {
        Some((1, 36, RESAMPLER_1_4_COEFS@))
    } else if fs_out * 6 == fs_in {
        Some((1, 36, RESAMPLER_1_6_COEFS@))
    } else {
        None
    }
}

/// `(v * fs_out) >> 16` reaches the input rate (doubled for the fractional
/// up-sampler): the step `v` (Q16) does not overshoot the input.
pub open spec fn ratio_covers(v: int, fs_in: int, fs_out: int, up2x: int) -> bool {
    wrap32((v * fs_out) / 0x1_0000) >= fx_shl32(fs_in, up2x)
}

/// The first estimate of the input step per output sample (Q16).
pub open spec fn ratio_estimate(fs_in: int, fs_out: int, up2x: int) -> int {
    fx_shl32(fx_div32(fx_shl32(fs_in, 14 + up2x), fs_out), 2)
}

/// The state `silk_resampler_init` sets up for a valid pair of rates.
pub open spec fn resampler_set_up(s: SilkResamplerState, fs_in: int, fs_out: int, for_enc: bool) -> bool {
    let up2x: int = if fs_out > fs_in && fs_out != 2 * fs_in { 1 } else { 0 };
    &&& s.input_delay == (if for_enc {
        DELAY_MATRIX_ENC@[3 * rate_index(fs_in) + rate_index(fs_out)]
    } else {
        DELAY_MATRIX_DEC@[5 * rate_index(fs_in) + rate_index(fs_out)]
    })
    &&& s.fs_in_khz == fs_in / 1000 && s.fs_out_khz == fs_out / 1000
    &&& s.batch_size == (fs_in / 1000) * 10
    &&& s.resampler_function == (if fs_out > fs_in {
        if fs_out == 2 * fs_in { ResamplerFn::Up2HqWrapper } else { ResamplerFn::IirFir }
    } else if fs_out < fs_in {
        ResamplerFn::DownFir
    } else {
        ResamplerFn::Copy
    })
    &&& fs_out < fs_in ==> (down_setup(fs_in, fs_out) matches Some((f, o, c)) && s.fir_fracs == f && s.fir_order == o
        && s.coefs@ == c)
    &&& fs_out >= fs_in ==> s.fir_fracs == 0 && s.fir_order == 0 && s.coefs@.len() == 0
    &&& s.inv_ratio_q16 >= ratio_estimate(fs_in, fs_out, up2x)
    &&& ratio_covers(s.inv_ratio_q16 as int, fs_in, fs_out, up2x)
    &&& forall|v: int| ratio_estimate(fs_in, fs_out, up2x) <= v < s.inv_ratio_q16 ==> !#[trigger] ratio_covers(v, fs_in, fs_out, up2x)
    &&& forall|i: int| 0 <= i < 6 ==> #[trigger] s.s_iir@[i] == 0
    &&& forall|i: int| 0 <= i < 36 ==> #[trigger] s.s_fir_i32@[i] == 0
    &&& forall|i: int| 0 <= i < 36 ==> #[trigger] s.s_fir_i16@[i] == 0
    &&& forall|i: int| 0 <= i < 48 ==> #[trigger] s.delay_buf@[i] == 0
}

/// `(a * b) >> 16` on 64 bits, truncated to 32.
fn silk_smulww_i64(a: i32, b: i32) -> (r: i32)
    ensures
        r == wrap32((a * b) / 0x1_0000),
{
    proof { crate::arith::lemma_mul_bound_32_32(a as int, b as int); }
    let p = (a as i64) * (b as i64);
    proof {
        crate::arith::lemma_i64_shr_is_div(p, 16);
        vstd::arithmetic::power2::lemma2_to64();
        crate::arith::lemma_i64_as_i32_any(p >> 16u64);
    }
    (p >> 16u64) as i32
}

fn coefs_3_4() -> (r: &'static [i16])
    ensures
        r@ == RESAMPLER_3_4_COEFS@,
{
    &RESAMPLER_3_4_COEFS
}

fn coefs_2_3() -> (r: &'static [i16])
    ensures
        r@ == RESAMPLER_2_3_COEFS@,
{
    &RESAMPLER_2_3_COEFS
}

fn coefs_1_2() -> (r: &'static [i16])
    ensures
        r@ == RESAMPLER_1_2_COEFS@,
{
    &RESAMPLER_1_2_COEFS
}

fn coefs_1_3() -> (r: &'static [i16])
    ensures
        r@ == RESAMPLER_1_3_COEFS@,
{
    &RESAMPLER_1_3_COEFS
}

fn coefs_1_4() -> (r: &'static [i16])
    ensures
        r@ == RESAMPLER_1_4_COEFS@,
{
    &RESAMPLER_1_4_COEFS
}

fn coefs_1_6() -> (r: &'static [i16])
    ensures
        r@ == RESAMPLER_1_6_COEFS@,
{
    &RESAMPLER_1_6_COEFS
}

/// Sets `s` up for converting `fs_hz_in` to
/// `fs_hz_out` ([`resampler_set_up`]) and returns 0; returns -1, with `s`
/// cleared, for rates outside the decoder's (or with `for_enc`, the encoder's) range.
pub fn silk_resampler_init(s: &mut SilkResamplerState, fs_hz_in: i32, fs_hz_out: i32, for_enc: bool) -> (r: i32)
    ensures
        ({
            let valid = if for_enc {
                is_api_rate(fs_hz_in as int) && is_decoder_rate(fs_hz_out as int)
            } else {
                is_decoder_rate(fs_hz_in as int) && is_api_rate(fs_hz_out as int)
            };
            &&& valid ==> r == 0 && resampler_set_up(*final(s), fs_hz_in as int, fs_hz_out as int, for_enc)
            &&& !valid ==> r == -1 && resampler_zeroed(*final(s))
        }),
{
    *s = SilkResamplerState::default();
    if for_enc {
        if !(fs_hz_in == 8000 || fs_hz_in == 12000 || fs_hz_in == 16000 || fs_hz_in == 24000 || fs_hz_in == 48000)
            || !(fs_hz_out == 8000 || fs_hz_out == 12000 || fs_hz_out == 16000) {
            return -1;
        }
        s.input_delay = DELAY_MATRIX_ENC[3 * rate_id(fs_hz_in) + rate_id(fs_hz_out)] as i32;
    } else {
        if !(fs_hz_in == 8000 || fs_hz_in == 12000 || fs_hz_in == 16000)
            || !(fs_hz_out == 8000 || fs_hz_out == 12000 || fs_hz_out == 16000 || fs_hz_out == 24000 || fs_hz_out == 48000) {
            return -1;
        }
        s.input_delay = DELAY_MATRIX_DEC[5 * rate_id(fs_hz_in) + rate_id(fs_hz_out)] as i32;
    }
    s.fs_in_khz = fs_hz_in / 1000;
    s.fs_out_khz = fs_hz_out / 1000;
    s.batch_size = s.fs_in_khz * MAX_BATCH_SIZE_MS;
    let mut up2x: i32 = 0;
    if fs_hz_out > fs_hz_in {
        if fs_hz_out == fs_hz_in * 2 {
            s.resampler_function = ResamplerFn::Up2HqWrapper;
        } else {
            s.resampler_function = ResamplerFn::IirFir;
            up2x = 1;
        }
    } else if fs_hz_out < fs_hz_in {
        s.resampler_function = ResamplerFn::DownFir;
        if fs_hz_out * 4 == fs_hz_in * 3 {
            s.fir_fracs = 3;
            s.fir_order = DOWN_ORDER_FIR0;
            s.coefs = coefs_3_4();
        } else if fs_hz_out * 3 == fs_hz_in * 2 {
            s.fir_fracs = 2;
            s.fir_order = DOWN_ORDER_FIR0;
            s.coefs = coefs_2_3();
        } else if fs_hz_out * 2 == fs_hz_in {
            s.fir_fracs = 1;
            s.fir_order = DOWN_ORDER_FIR1;
            s.coefs = coefs_1_2();
        } else if fs_hz_out * 3 == fs_hz_in {
            s.fir_fracs = 1;
            s.fir_order = DOWN_ORDER_FIR2;
            s.coefs = coefs_1_3();
        } else if fs_hz_out * 4 == fs_hz_in {
            s.fir_fracs = 1;
            s.fir_order = DOWN_ORDER_FIR2;
            s.coefs = coefs_1_4();
        } else if fs_hz_out * 6 == fs_hz_in {
            s.fir_fracs = 1;
            s.fir_order = DOWN_ORDER_FIR2;
            s.coefs = coefs_1_6();
        } else {
            proof {
                assert(false);
            }
            return -1;
        }
    } else {
        s.resampler_function = ResamplerFn::Copy;
    }
    let ghost fin = fs_hz_in as int;
    let ghost fout = fs_hz_out as int;
    proof {
        vstd::arithmetic::power2::lemma2_to64();
        lemma_ratio_bounds(fin, fout, up2x as int);
    }
    let a = silk_lshift(fs_hz_in, 14 + up2x);
    let q = silk_div32(a, fs_hz_out);
    let r0 = silk_lshift(q, 2);
    let target = silk_lshift(fs_hz_in, up2x);
    let ghost limit = r0 as int + 4;
    let mut inv = r0;
    while silk_smulww_i64(inv, fs_hz_out) < target
        invariant
            r0 as int == ratio_estimate(fin, fout, up2x as int),
            target as int == fx_shl32(fin, up2x as int),
            fout == fs_hz_out,
            r0 <= inv <= limit,
            limit == r0 + 4,
            ratio_covers(limit, fin, fout, up2x as int),
            limit < 0x7fff_ffff,
            forall|v: int| r0 <= v < inv ==> !#[trigger] ratio_covers(v, fin, fout, up2x as int),
        decreases limit - inv,
    {
        inv = inv + 1;
    }
    s.inv_ratio_q16 = inv;
    proof {
        let up2 = if fout > fin && fout != 2 * fin { 1int } else { 0int };
        assert(up2 == up2x);
        assert(s.input_delay == (if for_enc {
            DELAY_MATRIX_ENC@[3 * rate_index(fin) + rate_index(fout)]
        } else {
            DELAY_MATRIX_DEC@[5 * rate_index(fin) + rate_index(fout)]
        }));
        assert(s.fs_in_khz == fin / 1000 && s.fs_out_khz == fout / 1000);
        assert(s.batch_size == (fin / 1000) * 10);
        assert(s.inv_ratio_q16 >= ratio_estimate(fin, fout, up2));
        assert(ratio_covers(s.inv_ratio_q16 as int, fin, fout, up2));
        assert(forall|i: int| 0 <= i < 6 ==> #[trigger] s.s_iir@[i] == 0);
        assert(forall|i: int| 0 <= i < 48 ==> #[trigger] s.delay_buf@[i] == 0);
    }
    0
}

/// The first estimate of the step is at most four below a covering step, and both fit.
proof fn lemma_ratio_bounds(fs_in: int, fs_out: int, up2x: int)
    requires
        is_api_rate(fs_in),
        is_api_rate(fs_out),
        0 <= up2x <= 1,
    ensures
        ({
            let a = fs_in * vstd::arithmetic::power2::pow2((14 + up2x) as nat);
            let q = a / fs_out;
            &&& 0 < a < 0x8000_0000
            &&& fx_shl32(fs_in, 14 + up2x) == a
            &&& fx_div32(a, fs_out) == q
            &&& 0 <= 4 * q < 0x7fff_fff0
            &&& ratio_estimate(fs_in, fs_out, up2x) == 4 * q
            &&& ratio_covers(4 * q + 4, fs_in, fs_out, up2x)
            &&& fx_shl32(fs_in, up2x) == fs_in * (if up2x == 1 { 2int } else { 1int })
        }),
{
    vstd::arithmetic::power2::lemma2_to64();
    let p = vstd::arithmetic::power2::pow2((14 + up2x) as nat);
    assert(p == 16384 || p == 32768);
    let a = fs_in * p;
    if p == 16384 {
        assert(a == fs_in * 16384);
    } else {
        assert(a == fs_in * 32768);
    }
    assert(0 < a < 0x8000_0000);
    crate::arith::lemma_wrap_id(a, 0x8000_0000);
    let q = a / fs_out;
    vstd::arithmetic::div_mod::lemma_fundamental_div_mod(a, fs_out);
    vstd::arithmetic::div_mod::lemma_mod_bound(a, fs_out);
    assert(0 <= q <= a / 8000) by {
        vstd::arithmetic::div_mod::lemma_div_is_ordered_by_denominator(a, 8000, fs_out);
        vstd::arithmetic::div_mod::lemma_div_pos_is_pos(a, fs_out);
    }
    assert(crate::arith::tdiv(a, fs_out) == q);
    crate::arith::lemma_wrap_id(q, 0x8000_0000);
    crate::arith::lemma_wrap_id(4 * q, 0x8000_0000);
    crate::arith::lemma_wrap_id(fs_in * (if up2x == 1 { 2int } else { 1int }), 0x8000_0000);
    let v = 4 * q + 4;
    assert(v * fs_out > 4 * a) by (nonlinear_arith)
        requires a == fs_out * q + a % fs_out, a % fs_out < fs_out, v == 4 * q + 4, fs_out > 0;
    assert(v * fs_out < 0x8000_0000 * 0x1_0000) by (nonlinear_arith)
        requires a == fs_out * q + a % fs_out, a % fs_out >= 0, v == 4 * q + 4, 0 < fs_out <= 48000, a < 0x8000_0000;
    assert(4 * a == fs_in * (if up2x == 1 { 2int } else { 1int }) * 0x1_0000);
    vstd::arithmetic::div_mod::lemma_div_is_ordered(4 * a, v * fs_out, 0x1_0000);
    vstd::arithmetic::div_mod::lemma_div_pos_is_pos(v * fs_out, 0x1_0000);
    crate::arith::lemma_wrap_id((v * fs_out) / 0x1_0000, 0x8000_0000);
    assert(fx_shl32(fs_in, 14 + up2x) == a);
    assert(fx_div32(a, fs_out) == q);
    assert(0 <= 4 * q < 0x7fff_fff0);
    assert(q * vstd::arithmetic::power2::pow2(2) == 4 * q) by (nonlinear_arith)
        requires vstd::arithmetic::power2::pow2(2) == 4;
    assert(ratio_estimate(fs_in, fs_out, up2x) == 4 * q);
    assert(ratio_covers(4 * q + 4, fs_in, fs_out, up2x));
    assert(fx_shl32(fs_in, up2x) == fs_in * (if up2x == 1 { 2int } else { 1int }));
}

/// The up-sampler with fractional interpolation over `input` in batches of
/// at most `batch` samples: final all-pass states, final FIR history (8
/// values) and the outputs. Each batch is up-sampled 2x behind the history,
/// interpolated with step `inc`, and its last 8 values become the history.
pub open spec fn iir_batches(st: Seq<i32>, fir: Seq<i16>, input: Seq<i16>, batch: int, inc: int) -> (Seq<i32>, Seq<i16>, Seq<i16>)
    decreases input.len(),
{
    let n = if input.len() < batch { input.len() as int } else { batch };
    let up = up2_run(st, input.subrange(0, n), n as nat);
    let buf = fir + up.1;
    let outs = iir_interp(buf, n * 0x2_0000, inc);
    let fir2 = buf.subrange(2 * n, 2 * n + 8);
    if n > 0 && input.len() > n {
        let r = iir_batches(up.0, fir2, input.subrange(n, input.len() as int), batch, inc);
        (r.0, r.1, outs + r.2)
    } else {
        (up.0, fir2, outs)
    }
}

/// The down-sampler over `input` in batches of at most `batch` samples: final
/// AR2 states, final FIR history (`order` values) and the outputs. Each batch
/// goes through the AR2 filter behind the history and is interpolated with
/// step `inc`; a single remaining input sample is left unused.
pub open spec fn down_batches(
    s0: int,
    s1: int,
    fir: Seq<i32>,
    input: Seq<i16>,
    batch: int,
    inc: int,
    coefs: Seq<i16>,
    order: int,
    fracs: int,
) -> (int, int, Seq<i32>, Seq<i16>)
    decreases input.len(),
{
    let n = if input.len() < batch { input.len() as int } else { batch };
    let ar = ar2_run(s0, s1, input.subrange(0, n), coefs[0] as int, coefs[1] as int, n as nat);
    let buf = fir + ar.2;
    let outs = down_interp(buf, coefs.subrange(2, coefs.len() as int), order, fracs, n * 0x1_0000, inc);
    let fir2 = buf.subrange(n, n + order);
    if n > 0 && input.len() - n > 1 {
        let r = down_batches(ar.0, ar.1, fir2, input.subrange(n, input.len() as int), batch, inc, coefs, order, fracs);
        (r.0, r.1, r.2, outs + r.3)
    } else {
        (ar.0, ar.1, fir2, outs)
    }
}

proof fn lemma_iir_batches_fir_len(st: Seq<i32>, fir: Seq<i16>, input: Seq<i16>, batch: int, inc: int)
    requires
        fir.len() == 8,
        batch >= 1,
    ensures
        iir_batches(st, fir, input, batch, inc).1.len() == 8,
    decreases input.len(),
{
    let n = if input.len() < batch { input.len() as int } else { batch };
    let up = up2_run(st, input.subrange(0, n), n as nat);
    crate::silk::resampler_filters::lemma_up2_run_len_pub(st, input.subrange(0, n), n as nat);
    let fir2 = (fir + up.1).subrange(2 * n, 2 * n + 8);
    if n > 0 && input.len() > n {
        lemma_iir_batches_fir_len(up.0, fir2, input.subrange(n, input.len() as int), batch, inc);
    }
}

proof fn lemma_down_batches_fir_len(s0: int, s1: int, fir: Seq<i32>, input: Seq<i16>, batch: int, inc: int, coefs: Seq<i16>, order: int, fracs: int)
    requires
        fir.len() == order,
        order >= 0,
        batch >= 1,
    ensures
        down_batches(s0, s1, fir, input, batch, inc, coefs, order, fracs).2.len() == order,
    decreases input.len(),
{
    let n = if input.len() < batch { input.len() as int } else { batch };
    let ar = ar2_run(s0, s1, input.subrange(0, n), coefs[0] as int, coefs[1] as int, n as nat);
    crate::silk::resampler_filters::lemma_ar2_run_len_pub(s0, s1, input.subrange(0, n), coefs[0] as int, coefs[1] as int, n as nat);
    let fir2 = (fir + ar.2).subrange(n, n + order);
    if n > 0 && input.len() - n > 1 {
        lemma_down_batches_fir_len(ar.0, ar.1, fir2, input.subrange(n, input.len() as int), batch, inc, coefs, order, fracs);
    }
}

proof fn lemma_down_batches_range(s0: int, s1: int, fir: Seq<i32>, input: Seq<i16>, batch: int, inc: int, coefs: Seq<i16>, order: int, fracs: int)
    requires
        -0x8000_0000 <= s0 < 0x8000_0000,
        -0x8000_0000 <= s1 < 0x8000_0000,
        batch >= 1,
    ensures
        -0x8000_0000 <= down_batches(s0, s1, fir, input, batch, inc, coefs, order, fracs).0 < 0x8000_0000,
        -0x8000_0000 <= down_batches(s0, s1, fir, input, batch, inc, coefs, order, fracs).1 < 0x8000_0000,
    decreases input.len(),
{
    let n = if input.len() < batch { input.len() as int } else { batch };
    let ar = ar2_run(s0, s1, input.subrange(0, n), coefs[0] as int, coefs[1] as int, n as nat);
    crate::silk::resampler_filters::lemma_ar2_run_range(s0, s1, input.subrange(0, n), coefs[0] as int, coefs[1] as int, n as nat);
    let fir2 = (fir + ar.2).subrange(n, n + order);
    if n > 0 && input.len() - n > 1 {
        lemma_down_batches_range(ar.0, ar.1, fir2, input.subrange(n, input.len() as int), batch, inc, coefs, order, fracs);
    }
}

proof fn lemma_iir_batches_outs(st: Seq<i32>, fir: Seq<i16>, input: Seq<i16>, batch: int, inc: int)
    ensures
        ({
            let n = if input.len() < batch { input.len() as int } else { batch };
            let up = up2_run(st, input.subrange(0, n), n as nat);
            iir_interp(fir + up.1, n * 0x2_0000, inc).len() <= iir_batches(st, fir, input, batch, inc).2.len()
        }),
{
}

proof fn lemma_down_batches_outs(s0: int, s1: int, fir: Seq<i32>, input: Seq<i16>, batch: int, inc: int, coefs: Seq<i16>, order: int, fracs: int)
    ensures
        ({
            let n = if input.len() < batch { input.len() as int } else { batch };
            let ar = ar2_run(s0, s1, input.subrange(0, n), coefs[0] as int, coefs[1] as int, n as nat);
            down_interp(fir + ar.2, coefs.subrange(2, coefs.len() as int), order, fracs, n * 0x1_0000, inc).len()
                <= down_batches(s0, s1, fir, input, batch, inc, coefs, order, fracs).3.len()
        }),
{
}

/// The fields other than the filter memories agree.
pub open spec fn same_setup(a: SilkResamplerState, b: SilkResamplerState) -> bool {
    &&& a.resampler_function == b.resampler_function
    &&& a.batch_size == b.batch_size && a.inv_ratio_q16 == b.inv_ratio_q16
    &&& a.fir_order == b.fir_order && a.fir_fracs == b.fir_fracs
    &&& a.fs_in_khz == b.fs_in_khz && a.fs_out_khz == b.fs_out_khz && a.input_delay == b.input_delay
    &&& a.coefs@ == b.coefs@
}

/// Runs [`iir_batches`] on
/// `input` from the state's memories, writing the outputs from `out[off]` on.
fn iir_fir(s: &mut SilkResamplerState, out: &mut [i16], off: usize, input: &[i16])
    requires
        1 <= old(s).batch_size <= 480,
        0 < old(s).inv_ratio_q16 <= 0x40_0000,
        off + iir_batches(old(s).s_iir@, old(s).s_fir_i16@.subrange(0, 8), input@, old(s).batch_size as int,
            old(s).inv_ratio_q16 as int).2.len() <= old(out)@.len(),
    ensures
        ({
            let r = iir_batches(old(s).s_iir@, old(s).s_fir_i16@.subrange(0, 8), input@, old(s).batch_size as int,
                old(s).inv_ratio_q16 as int);
            &&& final(s).s_iir@ == r.0
            &&& final(s).s_fir_i16@ == splice(old(s).s_fir_i16@, 0, r.1)
            &&& final(s).s_fir_i32 == old(s).s_fir_i32
            &&& final(s).delay_buf == old(s).delay_buf
            &&& same_setup(*final(s), *old(s))
            &&& final(out)@ == splice(old(out)@, off as int, r.2)
        }),
{
    let ghost s0 = *s;
    let ghost o0 = out@;
    let ghost batch = s.batch_size as int;
    let ghost inc = s.inv_ratio_q16 as int;
    let ghost total = iir_batches(s.s_iir@, s.s_fir_i16@.subrange(0, 8), input@, batch, inc);
    let mut buf = [0i16; 968];
    let mut j: usize = 0;
    while j < ORDER_FIR_12
        invariant
            j <= 8,
            s.s_fir_i16 == s0.s_fir_i16,
            forall|i: int| 0 <= i < j ==> #[trigger] buf@[i] == s0.s_fir_i16@[i],
        decreases 8 - j,
    {
        buf[j] = s.s_fir_i16[j];
        j += 1;
    }
    assert(buf@.subrange(0, 8) =~= s0.s_fir_i16@.subrange(0, 8));
    let index_increment_q16 = s.inv_ratio_q16;
    let in_len = input.len();
    let olen = out.len();
    let mut pos: usize = 0;
    let mut w: usize = 0;
    let mut n_samples_in: usize;
    assert(input@.subrange(0, in_len as int) =~= input@);
    assert(total.2 =~= total.2.subrange(0, 0) + total.2);
    loop
        invariant_except_break
            pos < in_len || (pos == 0 && in_len == 0),
            ({
                let rem = iir_batches(s.s_iir@, buf@.subrange(0, 8), input@.subrange(pos as int, in_len as int), batch, inc);
                &&& rem.0 == total.0
                &&& rem.1 == total.1
                &&& total.2 == total.2.subrange(0, w as int) + rem.2
            }),
        invariant
            olen == o0.len(),
            in_len == input@.len(),
            pos <= in_len,
            index_increment_q16 == inc,
            1 <= batch <= 480,
            0 < inc <= 0x40_0000,
            s.batch_size == batch,
            s.inv_ratio_q16 == inc,
            s.s_fir_i16 == s0.s_fir_i16,
            s.s_fir_i32 == s0.s_fir_i32,
            s.delay_buf == s0.delay_buf,
            same_setup(*s, s0),
            out@.len() == o0.len(),
            off + total.2.len() <= o0.len(),
            w <= total.2.len(),
            out@ == splice(o0, off as int, total.2.subrange(0, w as int)),
        ensures
            pos <= in_len,
            s.s_iir@ == total.0,
            n_samples_in <= 480,
            buf@.subrange(2 * n_samples_in as int, 2 * n_samples_in + 8) == total.1,
            out@ == splice(o0, off as int, total.2),
            s.s_fir_i16 == s0.s_fir_i16,
            s.s_fir_i32 == s0.s_fir_i32,
            s.delay_buf == s0.delay_buf,
            same_setup(*s, s0),
        decreases in_len - pos,
    {
        let rest = in_len - pos;
        n_samples_in = if rest < s.batch_size as usize { rest } else { s.batch_size as usize };
        let ghost rem_in = input@.subrange(pos as int, in_len as int);
        let ghost fir = buf@.subrange(0, 8);
        let ghost st = s.s_iir@;
        let ghost rem = iir_batches(st, fir, rem_in, batch, inc);
        let ghost nn = n_samples_in as int;
        let ghost up = up2_run(st, rem_in.subrange(0, nn), nn as nat);
        let ghost outs = iir_interp(fir + up.1, nn * 0x2_0000, inc);
        let ghost fir2 = (fir + up.1).subrange(2 * nn, 2 * nn + 8);
        proof {
            lemma_iir_batches_outs(st, fir, rem_in, batch, inc);
            assert(rem == (if nn > 0 && rem_in.len() > nn {
                let r = iir_batches(up.0, fir2, rem_in.subrange(nn, rem_in.len() as int), batch, inc);
                (r.0, r.1, outs + r.2)
            } else {
                (up.0, fir2, outs)
            }));
        }
        let chunk = vstd::slice::slice_subrange(input, pos, pos + n_samples_in);
        assert(chunk@ == rem_in.subrange(0, n_samples_in as int));
        up2_hq(&mut s.s_iir, &mut buf, 8, chunk);
        let view = vstd::slice::slice_subrange(&buf, 0, 8 + 2 * n_samples_in);
        proof {
            crate::silk::resampler_filters::lemma_up2_run_len_pub(st, chunk@, n_samples_in as nat);
            assert(view@ =~= fir + up2_run(st, chunk@, n_samples_in as nat).1);
            vstd::arithmetic::power2::lemma2_to64();
            crate::arith::lemma_wrap_id(n_samples_in as int * 0x2_0000, 0x8000_0000);
        }
        let max_index_q16 = silk_lshift(n_samples_in as i32, 17);
        let n = iir_fir_interpol(out, off + w, view, max_index_q16, index_increment_q16);
        proof {
            assert(view@ == fir + up.1);
            assert(total.2.subrange(0, w as int + n as int) =~= total.2.subrange(0, w as int) + outs);
            assert(out@ =~= splice(o0, off as int, total.2.subrange(0, w as int + n as int)));
        }
        w = w + n;
        pos = pos + n_samples_in;
        if pos < in_len {
            let ghost bb = buf@;
            let src = n_samples_in * 2;
            let mut j: usize = 0;
            while j < ORDER_FIR_12
                invariant
                    j <= 8,
                    src == 2 * n_samples_in,
                    n_samples_in <= 480,
                    buf@.len() == 968,
                    forall|i: int| j <= i < 968 ==> #[trigger] buf@[i] == bb[i],
                    forall|i: int| 0 <= i < j ==> #[trigger] buf@[i] == bb[src + i],
                decreases 8 - j,
            {
                buf[j] = buf[src + j];
                j += 1;
            }
            proof {
                assert(buf@.subrange(0, 8) =~= bb.subrange(2 * n_samples_in as int, 2 * n_samples_in + 8));
                assert(bb.subrange(2 * nn, 2 * nn + 8) =~= fir2);
                assert(input@.subrange(pos as int, in_len as int) =~= rem_in.subrange(n_samples_in as int, rem_in.len() as int));
                let r = iir_batches(up.0, fir2, rem_in.subrange(nn, rem_in.len() as int), batch, inc);
                assert(total.2 =~= total.2.subrange(0, w as int) + r.2);
            }
        } else {
            proof {
                assert(buf@.subrange(2 * nn, 2 * nn + 8) =~= fir2);
                assert(total.2 =~= total.2.subrange(0, w as int));
            }
            break;
        }
    }
    let src = n_samples_in * 2;
    let mut j: usize = 0;
    while j < ORDER_FIR_12
        invariant
            j <= 8,
            src == 2 * n_samples_in,
            n_samples_in <= 480,
            s.s_iir@ == total.0,
            s.s_fir_i32 == s0.s_fir_i32,
            s.delay_buf == s0.delay_buf,
            same_setup(*s, s0),
            buf@.subrange(src as int, src + 8) == total.1,
            forall|i: int| 8 <= i < 36 ==> #[trigger] s.s_fir_i16@[i] == s0.s_fir_i16@[i],
            forall|i: int| 0 <= i < j ==> #[trigger] s.s_fir_i16@[i] == total.1[i],
        decreases 8 - j,
    {
        s.s_fir_i16[j] = buf[src + j];
        j += 1;
    }
    assert(s.s_fir_i16@ =~= splice(s0.s_fir_i16@, 0, total.1));
}

/// The coefficient set fits the FIR order and phases.
pub open spec fn down_coefs_ok(coefs: Seq<i16>, order: int, fracs: int) -> bool {
    &&& order == 18 || order == 24 || order == 36
    &&& order == 18 ==> 1 <= fracs <= 3 && 2 + 9 * fracs <= coefs.len()
    &&& order != 18 ==> 2 + order / 2 <= coefs.len()
}

/// Runs [`down_batches`] on
/// `input` from the state's memories, writing the outputs from `out[off]` on.
#[verifier::spinoff_prover]
#[verifier::rlimit(40)]
fn down_fir(s: &mut SilkResamplerState, out: &mut [i16], off: usize, input: &[i16])
    requires
        1 <= old(s).batch_size <= 480,
        0 < old(s).inv_ratio_q16 <= 0x40_0000,
        down_coefs_ok(old(s).coefs@, old(s).fir_order as int, old(s).fir_fracs as int),
        off + down_batches(old(s).s_iir@[0] as int, old(s).s_iir@[1] as int,
            old(s).s_fir_i32@.subrange(0, old(s).fir_order as int), input@, old(s).batch_size as int,
            old(s).inv_ratio_q16 as int, old(s).coefs@, old(s).fir_order as int, old(s).fir_fracs as int).3.len()
            <= old(out)@.len(),
    ensures
        ({
            let r = down_batches(old(s).s_iir@[0] as int, old(s).s_iir@[1] as int,
                old(s).s_fir_i32@.subrange(0, old(s).fir_order as int), input@, old(s).batch_size as int,
                old(s).inv_ratio_q16 as int, old(s).coefs@, old(s).fir_order as int, old(s).fir_fracs as int);
            &&& final(s).s_iir@ == old(s).s_iir@.update(0, r.0 as i32).update(1, r.1 as i32)
            &&& final(s).s_fir_i32@ == splice(old(s).s_fir_i32@, 0, r.2)
            &&& final(s).s_fir_i16 == old(s).s_fir_i16
            &&& final(s).delay_buf == old(s).delay_buf
            &&& same_setup(*final(s), *old(s))
            &&& final(out)@ == splice(old(out)@, off as int, r.3)
        }),
{
    let ghost s0 = *s;
    let ghost o0 = out@;
    let ghost batch = s.batch_size as int;
    let ghost inc = s.inv_ratio_q16 as int;
    let ghost coefs = s.coefs@;
    let fir_order = s.fir_order;
    let ghost order = fir_order as int;
    let ghost fracs = s.fir_fracs as int;
    let ghost total = down_batches(s.s_iir@[0] as int, s.s_iir@[1] as int, s.s_fir_i32@.subrange(0, order), input@,
        batch, inc, coefs, order, fracs);
    let mut buf = [0i32; 516];
    let mut j: usize = 0;
    while j < fir_order
        invariant
            j <= fir_order <= 36,
            s.s_fir_i32 == s0.s_fir_i32,
            forall|i: int| 0 <= i < j ==> #[trigger] buf@[i] == s0.s_fir_i32@[i],
        decreases fir_order - j,
    {
        buf[j] = s.s_fir_i32[j];
        j += 1;
    }
    assert(buf@.subrange(0, order) =~= s0.s_fir_i32@.subrange(0, order));
    let fir_coefs = vstd::slice::slice_subrange(s.coefs, 2, s.coefs.len());
    let a0 = s.coefs[0];
    let a1 = s.coefs[1];
    let fir_fracs = s.fir_fracs;
    let index_increment_q16 = s.inv_ratio_q16;
    let in_len = input.len();
    let olen = out.len();
    let mut pos: usize = 0;
    let mut w: usize = 0;
    let mut n_samples_in: usize;
    assert(input@.subrange(0, in_len as int) =~= input@);
    assert(total.3 =~= total.3.subrange(0, 0) + total.3);
    loop
        invariant_except_break
            pos < in_len || (pos == 0 && in_len == 0),
            ({
                let rem = down_batches(s.s_iir@[0] as int, s.s_iir@[1] as int, buf@.subrange(0, order),
                    input@.subrange(pos as int, in_len as int), batch, inc, coefs, order, fracs);
                &&& rem.0 == total.0
                &&& rem.1 == total.1
                &&& rem.2 == total.2
                &&& total.3 == total.3.subrange(0, w as int) + rem.3
            }),
        invariant
            olen == o0.len(),
            in_len == input@.len(),
            pos <= in_len,
            index_increment_q16 == inc,
            fir_order == order,
            fir_fracs == fracs,
            a0 == coefs[0] && a1 == coefs[1],
            fir_coefs@ == coefs.subrange(2, coefs.len() as int),
            down_coefs_ok(coefs, order, fracs),
            1 <= batch <= 480,
            0 < inc <= 0x40_0000,
            s.batch_size == batch,
            s.inv_ratio_q16 == inc,
            s.s_fir_i16 == s0.s_fir_i16,
            s.s_fir_i32 == s0.s_fir_i32,
            s.delay_buf == s0.delay_buf,
            forall|i: int| 2 <= i < 6 ==> #[trigger] s.s_iir@[i] == s0.s_iir@[i],
            same_setup(*s, s0),
            out@.len() == o0.len(),
            off + total.3.len() <= o0.len(),
            w <= total.3.len(),
            out@ == splice(o0, off as int, total.3.subrange(0, w as int)),
        ensures
            pos <= in_len,
            s.s_iir@[0] == total.0 && s.s_iir@[1] == total.1,
            forall|i: int| 2 <= i < 6 ==> #[trigger] s.s_iir@[i] == s0.s_iir@[i],
            n_samples_in <= 480,
            buf@.subrange(n_samples_in as int, n_samples_in + order) == total.2,
            out@ == splice(o0, off as int, total.3),
            s.s_fir_i16 == s0.s_fir_i16,
            s.s_fir_i32 == s0.s_fir_i32,
            s.delay_buf == s0.delay_buf,
            same_setup(*s, s0),
        decreases in_len - pos,
    {
        let rest = in_len - pos;
        n_samples_in = if rest < s.batch_size as usize { rest } else { s.batch_size as usize };
        let ghost rem_in = input@.subrange(pos as int, in_len as int);
        let ghost fir = buf@.subrange(0, order);
        let ghost t0 = s.s_iir@[0] as int;
        let ghost t1 = s.s_iir@[1] as int;
        let ghost sv = s.s_iir@;
        let ghost nn = n_samples_in as int;
        let ghost ar = ar2_run(t0, t1, rem_in.subrange(0, nn), coefs[0] as int, coefs[1] as int, nn as nat);
        let ghost outs = down_interp(fir + ar.2, coefs.subrange(2, coefs.len() as int), order, fracs, nn * 0x1_0000, inc);
        let ghost fir2 = (fir + ar.2).subrange(nn, nn + order);
        let ghost rem = down_batches(t0, t1, fir, rem_in, batch, inc, coefs, order, fracs);
        proof {
            lemma_down_batches_outs(t0, t1, fir, rem_in, batch, inc, coefs, order, fracs);
            assert(rem == (if nn > 0 && rem_in.len() - nn > 1 {
                let r = down_batches(ar.0, ar.1, fir2, rem_in.subrange(nn, rem_in.len() as int), batch, inc, coefs,
                    order, fracs);
                (r.0, r.1, r.2, outs + r.3)
            } else {
                (ar.0, ar.1, fir2, outs)
            }));
        }
        let chunk = vstd::slice::slice_subrange(input, pos, pos + n_samples_in);
        assert(chunk@ == rem_in.subrange(0, n_samples_in as int));
        ar2(&mut s.s_iir, &mut buf, fir_order, chunk, a0, a1);
        let view = vstd::slice::slice_subrange(&buf, 0, fir_order + n_samples_in);
        proof {
            crate::silk::resampler_filters::lemma_ar2_run_len_pub(t0, t1, chunk@, coefs[0] as int, coefs[1] as int, nn as nat);
            crate::silk::resampler_filters::lemma_ar2_run_range(t0, t1, chunk@, coefs[0] as int, coefs[1] as int, nn as nat);
            assert(s.s_iir@[0] as int == ar.0 && s.s_iir@[1] as int == ar.1);
            assert(view@ =~= fir + ar.2);
            vstd::arithmetic::power2::lemma2_to64();
            crate::arith::lemma_wrap_id(nn * 0x1_0000, 0x8000_0000);
        }
        let max_index_q16 = silk_lshift(n_samples_in as i32, 16);
        let n = down_fir_interpol(out, off + w, view, fir_coefs, fir_order, fir_fracs, max_index_q16, index_increment_q16);
        proof {
            assert(total.3.subrange(0, w as int + n as int) =~= total.3.subrange(0, w as int) + outs);
            assert(out@ =~= splice(o0, off as int, total.3.subrange(0, w as int + n as int)));
        }
        w = w + n;
        pos = pos + n_samples_in;
        if in_len - pos > 1 {
            let ghost bb = buf@;
            let src = n_samples_in;
            let mut j: usize = 0;
            while j < fir_order
                invariant
                    j <= fir_order <= 36,
                    src == n_samples_in,
                    n_samples_in <= 480,
                    buf@.len() == 516,
                    forall|i: int| j <= i < 516 ==> #[trigger] buf@[i] == bb[i],
                    forall|i: int| 0 <= i < j ==> #[trigger] buf@[i] == bb[src + i],
                decreases fir_order - j,
            {
                buf[j] = buf[src + j];
                j += 1;
            }
            proof {
                assert(buf@.subrange(0, order) =~= bb.subrange(nn, nn + order));
                assert(bb.subrange(nn, nn + order) =~= fir2);
                assert(input@.subrange(pos as int, in_len as int) =~= rem_in.subrange(nn, rem_in.len() as int));
                let r = down_batches(ar.0, ar.1, fir2, rem_in.subrange(nn, rem_in.len() as int), batch, inc, coefs,
                    order, fracs);
                assert(total.3 =~= total.3.subrange(0, w as int) + r.3);
            }
        } else {
            proof {
                assert(buf@.subrange(nn, nn + order) =~= fir2);
                assert(total.3 =~= total.3.subrange(0, w as int));
            }
            break;
        }
    }
    let src = n_samples_in;
    let mut j: usize = 0;
    while j < fir_order
        invariant
            j <= fir_order <= 36,
            fir_order == order,
            src == n_samples_in,
            n_samples_in <= 480,
            s.s_iir@[0] == total.0 && s.s_iir@[1] == total.1,
            forall|i: int| 2 <= i < 6 ==> #[trigger] s.s_iir@[i] == s0.s_iir@[i],
            s.s_fir_i16 == s0.s_fir_i16,
            s.delay_buf == s0.delay_buf,
            same_setup(*s, s0),
            buf@.subrange(src as int, src + order) == total.2,
            forall|i: int| order <= i < 36 ==> #[trigger] s.s_fir_i32@[i] == s0.s_fir_i32@[i],
            forall|i: int| 0 <= i < j ==> #[trigger] s.s_fir_i32@[i] == total.2[i],
        decreases fir_order - j,
    {
        s.s_fir_i32[j] = buf[src + j];
        j += 1;
    }
    assert(s.s_fir_i32@ =~= splice(s0.s_fir_i32@, 0, total.2));
    assert(s.s_iir@ =~= s0.s_iir@.update(0, total.0 as i32).update(1, total.1 as i32));
}

/// A state ready to run (as `silk_resampler_init` leaves it for valid rates).
pub open spec fn resampler_ready(s: SilkResamplerState) -> bool {
    &&& 1 <= s.fs_in_khz <= 48 && 1 <= s.fs_out_khz <= 48
    &&& 0 <= s.input_delay <= s.fs_in_khz
    &&& 1 <= s.batch_size <= 480
    &&& 0 < s.inv_ratio_q16 <= 0x40_0000
    &&& s.resampler_function == ResamplerFn::DownFir ==> down_coefs_ok(s.coefs@, s.fir_order as int, s.fir_fracs as int)
}

/// The delay buffer after the new input is appended behind the delayed samples.
pub open spec fn delay_filled(s: SilkResamplerState, input: Seq<i16>) -> Seq<i16> {
    splice(s.delay_buf@, s.input_delay as int, input.subrange(0, s.fs_in_khz - s.input_delay))
}

/// The filter's work on one frame: the first `fs_in_khz` delayed samples and
/// then the rest of the input, each through the filter of the state, with the
/// filter memories carried over. Returns the up-sampler states, the two FIR
/// histories and the outputs of the two parts.
pub open spec fn resample_parts(s: SilkResamplerState, input: Seq<i16>, in_len: int) -> (Seq<i32>, Seq<i16>, Seq<i32>, Seq<i16>, Seq<i16>) {
    let fin = s.fs_in_khz as int;
    let n = fin - s.input_delay;
    filter_parts(s, delay_filled(s, input).subrange(0, fin), input.subrange(n, n + (in_len - fin)))
}

/// The filter of the state run on `first` and then `second`, memories
/// carried over: up-sampler states, the two FIR histories, the two outputs.
pub open spec fn filter_parts(s: SilkResamplerState, first: Seq<i16>, second: Seq<i16>) -> (Seq<i32>, Seq<i16>, Seq<i32>, Seq<i16>, Seq<i16>) {
    let batch = s.batch_size as int;
    let inc = s.inv_ratio_q16 as int;
    match s.resampler_function {
        ResamplerFn::Up2HqWrapper => {
            let r1 = up2_run(s.s_iir@, first, first.len());
            let r2 = up2_run(r1.0, second, second.len());
            (r2.0, s.s_fir_i16@, s.s_fir_i32@, r1.1, r2.1)
        },
        ResamplerFn::IirFir => {
            let r1 = iir_batches(s.s_iir@, s.s_fir_i16@.subrange(0, 8), first, batch, inc);
            let r2 = iir_batches(r1.0, r1.1, second, batch, inc);
            (r2.0, splice(s.s_fir_i16@, 0, r2.1), s.s_fir_i32@, r1.2, r2.2)
        },
        ResamplerFn::DownFir => {
            let order = s.fir_order as int;
            let fracs = s.fir_fracs as int;
            let r1 = down_batches(s.s_iir@[0] as int, s.s_iir@[1] as int, s.s_fir_i32@.subrange(0, order), first, batch,
                inc, s.coefs@, order, fracs);
            let r2 = down_batches(r1.0, r1.1, r1.2, second, batch, inc, s.coefs@, order, fracs);
            (s.s_iir@.update(0, r2.0 as i32).update(1, r2.1 as i32), s.s_fir_i16@, splice(s.s_fir_i32@, 0, r2.2), r1.3, r2.3)
        },
        ResamplerFn::Copy => {
            (s.s_iir@, s.s_fir_i16@, s.s_fir_i32@, first, second)
        },
    }
}

/// Runs the filter of the state on `first` (outputs from `out[0]`) and
/// `second` (outputs from `out[fs_out_khz]`), see [`filter_parts`].
#[verifier::spinoff_prover]
#[verifier::rlimit(40)]
fn run_filter(s: &mut SilkResamplerState, out: &mut [i16], first: &[i16], second: &[i16])
    requires
        resampler_ready(*old(s)),
        first@.len() == old(s).fs_in_khz,
        filter_parts(*old(s), first@, second@).3.len() <= old(out)@.len(),
        old(s).fs_out_khz + filter_parts(*old(s), first@, second@).4.len() <= old(out)@.len(),
    ensures
        ({
            let parts = filter_parts(*old(s), first@, second@);
            &&& final(out)@ == splice(splice(old(out)@, 0, parts.3), old(s).fs_out_khz as int, parts.4)
            &&& final(s).s_iir@ == parts.0
            &&& final(s).s_fir_i16@ == parts.1
            &&& final(s).s_fir_i32@ == parts.2
            &&& final(s).delay_buf == old(s).delay_buf
            &&& same_setup(*final(s), *old(s))
        }),
{
    let ghost s0 = *s;
    let ghost o0 = out@;
    let ghost parts = filter_parts(s0, first@, second@);
    let fs_in_khz = s.fs_in_khz as usize;
    let fs_out_khz = s.fs_out_khz as usize;
    let second_len = second.len();
    match s.resampler_function {
        ResamplerFn::Up2HqWrapper => {
            proof {
                crate::silk::resampler_filters::lemma_up2_run_len_pub(s0.s_iir@, first@, first@.len());
                crate::silk::resampler_filters::lemma_up2_run_len_pub(
                    up2_run(s0.s_iir@, first@, first@.len()).0, second@, second@.len());
            }
            up2_hq(&mut s.s_iir, out, 0, first);
            up2_hq(&mut s.s_iir, out, fs_out_khz, second);
        },
        ResamplerFn::IirFir => {
            let ghost r1 = iir_batches(s0.s_iir@, s0.s_fir_i16@.subrange(0, 8), first@, s0.batch_size as int,
                s0.inv_ratio_q16 as int);
            iir_fir(s, out, 0, first);
            proof {
                lemma_iir_batches_fir_len(s0.s_iir@, s0.s_fir_i16@.subrange(0, 8), first@, s0.batch_size as int,
                    s0.inv_ratio_q16 as int);
                lemma_iir_batches_fir_len(r1.0, r1.1, second@, s0.batch_size as int, s0.inv_ratio_q16 as int);
                assert(s.s_fir_i16@.subrange(0, 8) =~= r1.1);
            }
            iir_fir(s, out, fs_out_khz, second);
            proof {
                assert(s.s_fir_i16@ =~= parts.1);
            }
        },
        ResamplerFn::DownFir => {
            let ghost order = s0.fir_order as int;
            let ghost r1 = down_batches(s0.s_iir@[0] as int, s0.s_iir@[1] as int, s0.s_fir_i32@.subrange(0, order), first@,
                s0.batch_size as int, s0.inv_ratio_q16 as int, s0.coefs@, order, s0.fir_fracs as int);
            down_fir(s, out, 0, first);
            proof {
                lemma_down_batches_fir_len(s0.s_iir@[0] as int, s0.s_iir@[1] as int, s0.s_fir_i32@.subrange(0, order),
                    first@, s0.batch_size as int, s0.inv_ratio_q16 as int, s0.coefs@, order, s0.fir_fracs as int);
                lemma_down_batches_range(s0.s_iir@[0] as int, s0.s_iir@[1] as int, s0.s_fir_i32@.subrange(0, order),
                    first@, s0.batch_size as int, s0.inv_ratio_q16 as int, s0.coefs@, order, s0.fir_fracs as int);
                lemma_down_batches_fir_len(r1.0, r1.1, r1.2, second@, s0.batch_size as int, s0.inv_ratio_q16 as int,
                    s0.coefs@, order, s0.fir_fracs as int);
                assert(s.s_fir_i32@.subrange(0, order) =~= r1.2);
            }
            down_fir(s, out, fs_out_khz, second);
            proof {
                assert(s.s_fir_i32@ =~= parts.2);
                assert(s.s_iir@ =~= parts.0);
            }
        },
        ResamplerFn::Copy => {
            let mut j: usize = 0;
            while j < fs_in_khz
                invariant
                    j <= fs_in_khz,
                    first@.len() == fs_in_khz,
                    fs_in_khz <= out@.len(),
                    out@.len() == o0.len(),
                    out@ == splice(o0, 0, first@.subrange(0, j as int)),
                decreases fs_in_khz - j,
            {
                out[j] = first[j];
                j += 1;
                proof { assert(out@ =~= splice(o0, 0, first@.subrange(0, j as int))); }
            }
            let ghost o1 = out@;
            let olen = out.len();
            let mut j: usize = 0;
            while j < second_len
                invariant
                    olen == o0.len(),
                    j <= second_len,
                    second@.len() == second_len,
                    fs_out_khz + second_len <= out@.len(),
                    out@.len() == o0.len(),
                    out@ == splice(o1, fs_out_khz as int, second@.subrange(0, j as int)),
                decreases second_len - j,
            {
                out[fs_out_khz + j] = second[j];
                j += 1;
                proof { assert(out@ =~= splice(o1, fs_out_khz as int, second@.subrange(0, j as int))); }
            }
            proof {
                assert(first@.subrange(0, fs_in_khz as int) =~= first@);
                assert(second@.subrange(0, second_len as int) =~= second@);
            }
        },
    }
}

/// Converts one frame of `in_len >= fs_in_khz` samples.
/// The first `fs_in_khz` samples (the delayed tail of the previous frame and
/// the start of this one) are written from `out[0]`, the rest from
/// `out[fs_out_khz]` ([`resample_parts`]); the last `input_delay` inputs are
/// kept for the next frame. Returns `in_len * fs_out_khz / fs_in_khz`.
pub fn silk_resampler(s: &mut SilkResamplerState, out: &mut [i16], input: &[i16], in_len: i32) -> (r: i32)
    requires
        resampler_ready(*old(s)),
        old(s).fs_in_khz <= in_len <= input@.len(),
        in_len * old(s).fs_out_khz <= i32::MAX,
        resample_parts(*old(s), input@, in_len as int).3.len() <= old(out)@.len(),
        old(s).fs_out_khz + resample_parts(*old(s), input@, in_len as int).4.len() <= old(out)@.len(),
    ensures
        ({
            let parts = resample_parts(*old(s), input@, in_len as int);
            let d = old(s).input_delay as int;
            &&& r == (in_len * old(s).fs_out_khz) / (old(s).fs_in_khz as int)
            &&& final(out)@ == splice(splice(old(out)@, 0, parts.3), old(s).fs_out_khz as int, parts.4)
            &&& final(s).s_iir@ == parts.0
            &&& final(s).s_fir_i16@ == parts.1
            &&& final(s).s_fir_i32@ == parts.2
            &&& final(s).delay_buf@ == splice(delay_filled(*old(s), input@), 0, input@.subrange(in_len - d, in_len as int))
            &&& same_setup(*final(s), *old(s))
        }),
{
    let ghost s0 = *s;
    let ghost o0 = out@;
    let delay = s.input_delay as usize;
    let fs_in_khz = s.fs_in_khz as usize;
    let fs_out_khz = s.fs_out_khz as usize;
    let n_samples = fs_in_khz - delay;
    let mut k: usize = 0;
    while k < n_samples
        invariant
            k <= n_samples,
            n_samples == s0.fs_in_khz - s0.input_delay,
            delay == s0.input_delay,
            delay + n_samples <= 48,
            n_samples <= input@.len(),
            s.s_iir == s0.s_iir && s.s_fir_i16 == s0.s_fir_i16 && s.s_fir_i32 == s0.s_fir_i32,
            same_setup(*s, s0),
            forall|i: int| 0 <= i < 48 ==> #[trigger] s.delay_buf@[i] == (if delay <= i < delay + k {
                input@[i - delay]
            } else {
                s0.delay_buf@[i]
            }),
        decreases n_samples - k,
    {
        s.delay_buf[delay + k] = input[k];
        k += 1;
    }
    assert(s.delay_buf@ =~= delay_filled(s0, input@));
    let delay_buf = s.delay_buf;
    let second_len = in_len as usize - fs_in_khz;
    let first = vstd::slice::slice_subrange(&delay_buf, 0, fs_in_khz);
    let second = vstd::slice::slice_subrange(input, n_samples, n_samples + second_len);
    let ghost parts = resample_parts(s0, input@, in_len as int);
    run_filter(s, out, first, second);
    let ghost filled = s.delay_buf@;
    let tail_start = in_len as usize - delay;
    let mut j: usize = 0;
    while j < delay
        invariant
            j <= delay <= 48,
            same_setup(*s, s0),
            s.s_iir@ == parts.0 && s.s_fir_i16@ == parts.1 && s.s_fir_i32@ == parts.2,
            resampler_ready(s0),
            in_len * s0.fs_out_khz <= i32::MAX,
            tail_start + delay == in_len,
            in_len <= input@.len(),
            s.delay_buf@.len() == 48,
            forall|i: int| 0 <= i < 48 ==> #[trigger] s.delay_buf@[i] == (if i < j { input@[tail_start + i] } else { filled[i] }),
        decreases delay - j,
    {
        s.delay_buf[j] = input[tail_start + j];
        j += 1;
    }
    proof {
        assert(s.delay_buf@ =~= splice(filled, 0, input@.subrange(tail_start as int, in_len as int)));
    }
    silk_div32(in_len * s.fs_out_khz, s.fs_in_khz)
}

} // verus!
