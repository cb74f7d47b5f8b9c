//! Entropy decoding of a block's residuals ("words"): the adaptive-median
//! Golomb-like code with zero runs, for lossless blocks.

use vstd::prelude::*;
use crate::wavpack::bits::{Bits, bit_at, lemma_bit_range};
use crate::wavpack::logs::{exp2s, log2_spec, wp_exp2s, wp_log2};
use crate::wavpack::codes::{
    code_val, count_ones_lim, dec_med, dec_med_spec, get_med, get_med_spec, inc_med, median_interval,
    ones_code, read_code, read_zero_run, zero_run, lemma_interval_width,
};

use crate::arith::{lemma_bv_i32, lemma_bv_u32};

verus! {

/// The low bit of a word is its parity; the rest is half of it.
proof fn lemma_low_bit(x: u32)
    ensures
        (x & 1u32) == x % 2,
        (x & 1u32) <= 1,
        (x >> 1u32) <= 0x7fff_ffff,
{
    lemma_bv_u32(x, 0);
}

/// Flags of a block header that the entropy decoder reads.
pub const MONO_FLAG: u32 = 0x0000_0004;
pub const HYBRID_FLAG: u32 = 0x0000_0008;
pub const JOINT_STEREO: u32 = 0x0000_0010;
pub const HYBRID_SHAPE: u32 = 0x0000_0040;
pub const FLOAT_DATA: u32 = 0x0000_0080;
pub const INT32_DATA: u32 = 0x0000_0100;
pub const HYBRID_BITRATE: u32 = 0x0000_0200;
pub const HYBRID_BALANCE: u32 = 0x0000_0400;
pub const SHIFT_LSB: u32 = 13;
pub const SHIFT_MASK: u32 = 0x3_e000;
pub const FALSE_STEREO: u32 = 0x4000_0000;
pub const MONO_DATA: u32 = 0x4000_0004;

/// The adaptive state of one channel's entropy decoder.
#[derive(Clone, Copy)]
pub struct EntropyChannel {
    pub median: [u32; 3],
    /// Hybrid mode: running estimate of the residual magnitude (log domain).
    pub slow_level: u32,
    /// Hybrid mode: half-width of the range the bitstream still narrows (0: exact).
    pub error_limit: u32,
}

impl Default for EntropyChannel {
    fn default() -> (r: Self)
        ensures
            r@ == (ChanModel { m0: 0, m1: 0, m2: 0, slow_level: 0, error_limit: 0 }),
    {
        EntropyChannel { median: [0; 3], slow_level: 0, error_limit: 0 }
    }
}

/// The state of the entropy decoder carried across samples.
#[derive(Clone, Copy)]
pub struct WordsState {
    pub c: [EntropyChannel; 2],
    pub holding_one: u32,
    pub holding_zero: i32,
    pub zeros_acc: u32,
    /// Hybrid mode: bitrate accumulator and per-sample delta (per channel).
    pub bitrate_acc: [u32; 2],
    pub bitrate_delta: [u32; 2],
}

impl Default for WordsState {
    fn default() -> (r: Self)
        ensures
            r@ == words_zero(),
    {
        WordsState {
            c: [EntropyChannel::default(), EntropyChannel::default()],
            holding_one: 0,
            holding_zero: 0,
            zeros_acc: 0,
            bitrate_acc: [0; 2],
            bitrate_delta: [0; 2],
        }
    }
}

/// The abstract state of one channel.
pub struct ChanModel {
    pub m0: u32,
    pub m1: u32,
    pub m2: u32,
    pub slow_level: u32,
    pub error_limit: u32,
}

/// The abstract state of the entropy decoder.
pub struct WordsModel {
    pub c0: ChanModel,
    pub c1: ChanModel,
    pub holding_one: u32,
    pub holding_zero: i32,
    pub zeros_acc: u32,
    pub acc0: u32,
    pub acc1: u32,
    pub delta0: u32,
    pub delta1: u32,
}

impl View for EntropyChannel {
    type V = ChanModel;

    open spec fn view(&self) -> ChanModel {
        ChanModel {
            m0: self.median@[0],
            m1: self.median@[1],
            m2: self.median@[2],
            slow_level: self.slow_level,
            error_limit: self.error_limit,
        }
    }
}

impl View for WordsState {
    type V = WordsModel;

    open spec fn view(&self) -> WordsModel {
        WordsModel {
            c0: self.c@[0]@,
            c1: self.c@[1]@,
            holding_one: self.holding_one,
            holding_zero: self.holding_zero,
            zeros_acc: self.zeros_acc,
            acc0: self.bitrate_acc@[0],
            acc1: self.bitrate_acc@[1],
            delta0: self.bitrate_delta@[0],
            delta1: self.bitrate_delta@[1],
        }
    }
}

/// The all-zero state.
pub open spec fn words_zero() -> WordsModel {
    let z = ChanModel { m0: 0, m1: 0, m2: 0, slow_level: 0, error_limit: 0 };
    WordsModel {
        c0: z,
        c1: z,
        holding_one: 0,
        holding_zero: 0,
        zeros_acc: 0,
        acc0: 0,
        acc1: 0,
        delta0: 0,
        delta1: 0,
    }
}

/// Channel `k` (0 or 1) of the state.
pub open spec fn chan_of(m: WordsModel, k: int) -> ChanModel {
    if k == 0 { m.c0 } else { m.c1 }
}

/// The state with channel `k` replaced.
pub open spec fn with_chan(m: WordsModel, k: int, c: ChanModel) -> WordsModel {
    if k == 0 { WordsModel { c0: c, ..m } } else { WordsModel { c1: c, ..m } }
}

/// A decoded magnitude with its sign bit: negative values are stored as
/// their one's complement.
pub open spec fn signed_value(v: u32, sign: int) -> i32 {
    if sign != 0 { !(v as i32) } else { v as i32 }
}

/// Decoding of one residual after the zero-run handling, from the ones count
/// onward. `off` bits have already been read from `p`.
pub open spec fn lossless_tail(m: WordsModel, d: Seq<u8>, p: int, off: int, chan: int) -> (WordsModel, int, Option<i32>) {
    let (ones, n1) = ones_code(d, p + off);
    if ones is None {
        (m, off + n1, None)
    } else {
        let raw = ones->0;
        let ones_count = vstd::wrapping::u32_specs::wrapping_add(raw >> 1u32, m.holding_one);
        let c = chan_of(m, chan);
        let (low, high, n0, nm1, nm2) = median_interval(c.m0, c.m1, c.m2, ones_count);
        let q = p + off + n1;
        let (v, n2) = code_val(d, q, high.wrapping_sub(low));
        let value = low.wrapping_add(v as u32);
        let sign = bit_at(d, q + n2);
        let c2 = ChanModel { m0: n0, m1: nm1, m2: nm2, ..c };
        let m2 = WordsModel {
            holding_one: raw & 1u32,
            holding_zero: (!raw & 1u32) as i32,
            ..with_chan(m, chan, c2)
        };
        (m2, off + n1 + n2 + 1, Some(signed_value(value, sign)))
    }
}

/// Decoding of one residual of a lossless block for channel `chan`: the new
/// state, the number of bits read, and the residual (`None`: end of stream).
pub open spec fn lossless_step(m: WordsModel, d: Seq<u8>, p: int, chan: int, is_mono: bool) -> (WordsModel, int, Option<i32>) {
    if m.holding_zero != 0 {
        let c = chan_of(m, chan);
        let (low, n1) = code_val(d, p, get_med_spec(c.m0).saturating_sub(1));
        let sign = bit_at(d, p + n1);
        let c2 = ChanModel { m0: dec_med_spec(c.m0, 128), ..c };
        (WordsModel { holding_zero: 0, ..with_chan(m, chan, c2) }, n1 + 1, Some(signed_value(low as u32, sign)))
    } else if m.c0.m0 < 2 && m.holding_one == 0 && (is_mono || m.c1.m0 < 2) {
        if m.zeros_acc != 0 {
            if m.zeros_acc - 1 != 0 {
                (WordsModel { zeros_acc: (m.zeros_acc - 1) as u32, ..m }, 0, Some(0i32))
            } else {
                lossless_tail(WordsModel { zeros_acc: 0, ..m }, d, p, 0, chan)
            }
        } else {
            let (run, n) = zero_run(d, p);
            if run is None {
                (m, n, None)
            } else if run->0 != 0 {
                let z = ChanModel { m0: 0, m1: 0, m2: 0, ..m.c0 };
                let z1 = ChanModel { m0: 0, m1: 0, m2: 0, ..m.c1 };
                (WordsModel { zeros_acc: run->0 as u32, c0: z, c1: z1, ..m }, n, Some(0i32))
            } else {
                lossless_tail(m, d, p, n, chan)
            }
        }
    } else {
        lossless_tail(m, d, p, 0, chan)
    }
}

/// The channel of sample `k`: alternating for stereo.
pub open spec fn sample_chan(k: int, is_mono: bool) -> int {
    if is_mono { 0 } else { k % 2 }
}

/// The decoder after `k` steps from `m0` at bit `p0`: the state, the bit
/// position, the residuals decoded, and whether the end of the stream stopped it.
pub open spec fn lossless_prefix(m0: WordsModel, d: Seq<u8>, p0: int, k: nat, is_mono: bool) -> (WordsModel, int, Seq<i32>, bool)
    decreases k,
{
    if k == 0 {
        (m0, p0, Seq::empty(), false)
    } else {
        let (m, p, out, stopped) = lossless_prefix(m0, d, p0, (k - 1) as nat, is_mono);
        if stopped {
            (m, p, out, true)
        } else {
            let (m2, n, s) = lossless_step(m, d, p, sample_chan(k - 1, is_mono), is_mono);
            if s is None {
                (m2, p + n, out, true)
            } else {
                (m2, p + n, out.push(s->0), false)
            }
        }
    }
}

/// A run that has stopped stays stopped.
pub proof fn lemma_prefix_stopped(m0: WordsModel, d: Seq<u8>, p0: int, k: nat, j: nat, is_mono: bool)
    requires
        k <= j,
        lossless_prefix(m0, d, p0, k, is_mono).3,
    ensures
        lossless_prefix(m0, d, p0, j, is_mono) == lossless_prefix(m0, d, p0, k, is_mono),
    decreases j - k,
{
    if j > k {
        lemma_prefix_stopped(m0, d, p0, k, (j - 1) as nat, is_mono);
    }
}

/// Before stopping, step `k` decodes residual `k`.
pub proof fn lemma_prefix_len(m0: WordsModel, d: Seq<u8>, p0: int, k: nat, is_mono: bool)
    ensures
        !lossless_prefix(m0, d, p0, k, is_mono).3 ==> lossless_prefix(m0, d, p0, k, is_mono).2.len() == k,
        lossless_prefix(m0, d, p0, k, is_mono).2.len() <= k,
    decreases k,
{
    if k > 0 {
        lemma_prefix_len(m0, d, p0, (k - 1) as nat, is_mono);
    }
}

/// The interval selected by `ones` for a channel; its medians adapt.
fn median_interval_exec(c: &mut EntropyChannel, ones: u32) -> (r: (u32, u32))
    ensures
        ({
            let t = median_interval(old(c)@.m0, old(c)@.m1, old(c)@.m2, ones);
            &&& r.0 == t.0
            &&& r.1 == t.1
            &&& final(c)@ == ChanModel { m0: t.2, m1: t.3, m2: t.4, ..old(c)@ }
        }),
{
    if ones == 0 {
        let h = get_med(c.median[0]).saturating_sub(1);
        c.median[0] = dec_med(c.median[0], 128);
        (0, h)
    } else {
        let l = get_med(c.median[0]);
        c.median[0] = inc_med(c.median[0], 128);
        if ones == 1 {
            let h = l.wrapping_add(get_med(c.median[1])).saturating_sub(1);
            c.median[1] = dec_med(c.median[1], 64);
            (l, h)
        } else {
            let l2 = l.wrapping_add(get_med(c.median[1]));
            c.median[1] = inc_med(c.median[1], 64);
            if ones == 2 {
                let h = l2.wrapping_add(get_med(c.median[2])).saturating_sub(1);
                c.median[2] = dec_med(c.median[2], 32);
                (l2, h)
            } else {
                let add = (ones - 2).wrapping_mul(get_med(c.median[2]));
                let l3 = l2.wrapping_add(add);
                let h = l3.wrapping_add(get_med(c.median[2])).saturating_sub(1);
                c.median[2] = inc_med(c.median[2], 32);
                (l3, h)
            }
        }
    }
}

/// The ones count, interval and code of one residual: the part of a lossless
/// step after the zero-run handling (`off` bits already read from `p`).
fn lossless_residual(bs: &mut Bits, ws: &mut WordsState, off: Ghost<int>, p: Ghost<int>, chan: usize) -> (r: Option<i32>)
    requires
        old(bs).wf(),
        chan < 2,
        old(bs).position() == p@ + off@,
    ensures
        final(bs).wf(),
        final(bs).stream() == old(bs).stream(),
        ({
            let t = lossless_tail(old(ws)@, old(bs).stream(), p@, off@, chan as int);
            &&& final(ws)@ == t.0
            &&& final(bs).position() == p@ + t.1
            &&& r == t.2
        }),
{
    let ghost d = bs.stream();
    let ghost m = ws@;
    let ones_raw = match count_ones_lim(bs) {
        Some(v) => v,
        None => {
            return None;
        },
    };
    let low_hold = ws.holding_one;
    proof { lemma_low_bit(ones_raw); }
    ws.holding_one = ones_raw & 1;
    ws.holding_zero = (!ones_raw & 1) as i32;
    let ones_count = (ones_raw >> 1u32).wrapping_add(low_hold);
    let mut c = ws.c[chan];
    let (low, high) = median_interval_exec(&mut c, ones_count);
    ws.c[chan] = c;
    proof {
        let cm = chan_of(m, chan as int);
        lemma_interval_width(cm.m0, cm.m1, cm.m2, ones_count);
        assert(ws@ == WordsModel {
            holding_one: ones_raw & 1u32,
            holding_zero: (!ones_raw & 1u32) as i32,
            ..with_chan(m, chan as int, ChanModel {
                m0: median_interval(cm.m0, cm.m1, cm.m2, ones_count).2,
                m1: median_interval(cm.m0, cm.m1, cm.m2, ones_count).3,
                m2: median_interval(cm.m0, cm.m1, cm.m2, ones_count).4,
                ..cm
            })
        });
    }
    let v = read_code(bs, high.wrapping_sub(low));
    let value = low.wrapping_add(v);
    let sign = bs.getbit();
    proof { lemma_bit_range(d, bs.position() - 1); }
    let samp = if sign != 0 { !(value as i32) } else { value as i32 };
    Some(samp)
}

/// One residual of a lossless block for channel `chan` (see [`lossless_step`]).
fn lossless_sample(bs: &mut Bits, ws: &mut WordsState, chan: usize, is_mono: bool) -> (r: Option<i32>)
    requires
        old(bs).wf(),
        chan < 2,
    ensures
        final(bs).wf(),
        final(bs).stream() == old(bs).stream(),
        ({
            let t = lossless_step(old(ws)@, old(bs).stream(), old(bs).position(), chan as int, is_mono);
            &&& final(ws)@ == t.0
            &&& final(bs).position() == old(bs).position() + t.1
            &&& r == t.2
        }),
{
    let ghost d = bs.stream();
    let ghost p = bs.position();
    let ghost m = ws@;
    if ws.holding_zero != 0 {
        ws.holding_zero = 0;
        let med0 = ws.c[chan].median[0];
        let low = read_code(bs, get_med(med0).saturating_sub(1));
        let mut c = ws.c[chan];
        c.median[0] = dec_med(c.median[0], 128);
        ws.c[chan] = c;
        let sign = bs.getbit();
        proof {
            lemma_bit_range(d, bs.position() - 1);
            let cm = chan_of(m, chan as int);
            assert(ws@ == WordsModel {
                holding_zero: 0,
                ..with_chan(m, chan as int, ChanModel { m0: dec_med_spec(cm.m0, 128), ..cm })
            });
        }
        let samp = if sign != 0 { !(low as i32) } else { low as i32 };
        return Some(samp);
    }
    let c0_med = ws.c[0].median[0];
    let c1_med = ws.c[1].median[0];
    if c0_med < 2 && ws.holding_one == 0 && (is_mono || c1_med < 2) {
        if ws.zeros_acc != 0 {
            ws.zeros_acc -= 1;
            if ws.zeros_acc != 0 {
                return Some(0);
            }
            return lossless_residual(bs, ws, Ghost(0), Ghost(p), chan);
        } else {
            let run = read_zero_run(bs);
            match run {
                None => {
                    return None;
                },
                Some(z) => {
                    ws.zeros_acc = z;
                    if z != 0 {
                        ws.c[0].median = [0; 3];
                        ws.c[1].median = [0; 3];
                        return Some(0);
                    }
                    let ghost off = bs.position() - p;
                    return lossless_residual(bs, ws, Ghost(off), Ghost(p), chan);
                },
            }
        }
    }
    lossless_residual(bs, ws, Ghost(0), Ghost(p), chan)
}

/// The number of residuals of a block: one per frame for mono data, two
/// (interleaved) for stereo, saturating at `u32::MAX`.
pub open spec fn block_residuals(flags: u32, block_samples: u32) -> nat {
    if flags & MONO_DATA != 0 {
        block_samples as nat
    } else if 2 * block_samples > u32::MAX {
        u32::MAX as nat
    } else {
        (2 * block_samples) as nat
    }
}

/// The number of residuals of a block (see [`block_residuals`]).
pub fn residual_count(flags: u32, block_samples: u32) -> (r: u32)
    ensures
        r == block_residuals(flags, block_samples),
{
    if (flags & MONO_DATA) != 0 {
        block_samples
    } else if block_samples > u32::MAX / 2 {
        u32::MAX
    } else {
        block_samples * 2
    }
}

/// Entropy-decodes the residuals of a lossless block
/// (interleaved left/right for stereo). Decoding stops early at an
/// end-of-stream marker; residuals not reached stay 0.
#[verifier::spinoff_prover]
#[verifier::rlimit(40)]
pub fn get_words_lossless(bs: &mut Bits, ws: &mut WordsState, flags: u32, block_samples: u32) -> (r: Option<Vec<i32>>)
    requires
        old(bs).wf(),
    ensures
        final(bs).wf(),
        final(bs).stream() == old(bs).stream(),
        r.is_some(),
        ({
            let n = block_residuals(flags, block_samples);
            let run = lossless_prefix(old(ws)@, old(bs).stream(), old(bs).position(), n, flags & MONO_DATA != 0);
            let out = r.unwrap()@;
            &&& out.len() == n
            &&& out.subrange(0, run.2.len() as int) == run.2
            &&& forall|i: int| run.2.len() <= i < n ==> #[trigger] out[i] == 0
            &&& final(ws)@ == run.0
            &&& final(bs).position() == run.1
        }),
{
    let is_mono = (flags & MONO_DATA) != 0;
    let nsamples = residual_count(flags, block_samples);
    let ghost d = bs.stream();
    let ghost p0 = bs.position();
    let ghost m0 = ws@;
    let mut buffer = vec![0i32; nsamples as usize];
    let mut csamples: u32 = 0;
    proof { lemma_prefix_len(m0, d, p0, 0, is_mono); }
    while csamples < nsamples
        invariant_except_break
            !lossless_prefix(m0, d, p0, csamples as nat, is_mono).3,
        invariant
            bs.wf(),
            bs.stream() == d,
            csamples <= nsamples,
            nsamples == block_residuals(flags, block_samples),
            is_mono == (flags & MONO_DATA != 0),
            buffer@.len() == nsamples,
            ({
                let run = lossless_prefix(m0, d, p0, csamples as nat, is_mono);
                &&& ws@ == run.0
                &&& bs.position() == run.1
                &&& run.2.len() <= csamples
                &&& buffer@.subrange(0, run.2.len() as int) == run.2
                &&& forall|i: int| run.2.len() <= i < nsamples ==> #[trigger] buffer@[i] == 0
            }),
        ensures
            csamples <= nsamples,
            (csamples == nsamples && !lossless_prefix(m0, d, p0, csamples as nat, is_mono).3)
                || lossless_prefix(m0, d, p0, csamples as nat, is_mono).3,
            ({
                let run = lossless_prefix(m0, d, p0, csamples as nat, is_mono);
                &&& ws@ == run.0
                &&& bs.position() == run.1
                &&& run.2.len() <= csamples
                &&& buffer@.subrange(0, run.2.len() as int) == run.2
                &&& forall|i: int| run.2.len() <= i < nsamples ==> #[trigger] buffer@[i] == 0
            }),
        decreases nsamples - csamples,
    {
        let chan: usize = if is_mono { 0 } else { (csamples & 1) as usize };
        proof {
            lemma_low_bit(csamples);
            lemma_prefix_len(m0, d, p0, csamples as nat, is_mono);
        }
        let s = lossless_sample(bs, ws, chan, is_mono);
        match s {
            None => {
                proof {
                    assert(lossless_prefix(m0, d, p0, (csamples + 1) as nat, is_mono).3);
                }
                csamples += 1;
                break;
            },
            Some(v) => {
                let ghost before = buffer@;
                buffer.set(csamples as usize, v);
                proof {
                    let run = lossless_prefix(m0, d, p0, csamples as nat, is_mono);
                    assert(run.2.len() == csamples);
                    assert(buffer@.subrange(0, csamples + 1) =~= run.2.push(v));
                }
                csamples += 1;
            },
        }
    }
    proof {
        if lossless_prefix(m0, d, p0, csamples as nat, is_mono).3 {
            lemma_prefix_stopped(m0, d, p0, csamples as nat, nsamples as nat, is_mono);
        }
    }
    Some(buffer)
}

// ---------------------------------------------------------------------------
// Hybrid (lossy) blocks
// ---------------------------------------------------------------------------

/// Scale and rounding of the slow level.
pub const SLS: u32 = 8;
pub const SLO: u32 = 128;

/// The slow level in the log domain (8 fractional bits dropped, rounded).
pub open spec fn slow_log(sl: u32) -> int {
    (sl.wrapping_add(SLO) >> SLS) as int
}

/// The error limit from a slow-level log and a bitrate: `2^((slow - bitrate) / 256 + 1)`,
/// or 0 when the bitrate exceeds the level by a full octave or more.
pub open spec fn error_from(slow: int, bitrate: int) -> u32 {
    if slow - bitrate > -0x100 { exp2s(slow - bitrate + 0x100) as u32 } else { 0 }
}

/// Advances the bitrate accumulators and derives the
/// error limits (balanced between the channels when `HYBRID_BALANCE` is set).
pub open spec fn error_limit_update(m: WordsModel, flags: u32) -> WordsModel {
    let hb = flags & HYBRID_BITRATE != 0;
    let acc0 = m.acc0.wrapping_add(m.delta0);
    let b0 = (acc0 >> 16u32) as int;
    if flags & MONO_DATA != 0 {
        let e0 = if hb { error_from(slow_log(m.c0.slow_level), b0) } else { exp2s(b0) as u32 };
        WordsModel { acc0: acc0, c0: ChanModel { error_limit: e0, ..m.c0 }, ..m }
    } else {
        let acc1 = m.acc1.wrapping_add(m.delta1);
        let b1 = (acc1 >> 16u32) as int;
        let (e0, e1) = if hb {
            let s0 = slow_log(m.c0.slow_level);
            let s1 = slow_log(m.c1.slow_level);
            let (r0, r1) = if flags & HYBRID_BALANCE != 0 {
                let balance = (s1 - s0 + b1 + 1) / 2;
                if balance > b0 {
                    (0, b0 * 2)
                } else if -balance > b0 {
                    (b0 * 2, 0)
                } else {
                    (b0 - balance, b0 + balance)
                }
            } else {
                (b0, b1)
            };
            (error_from(s0, r0), error_from(s1, r1))
        } else {
            (exp2s(b0) as u32, exp2s(b1) as u32)
        };
        WordsModel {
            acc0: acc0,
            acc1: acc1,
            c0: ChanModel { error_limit: e0, ..m.c0 },
            c1: ChanModel { error_limit: e1, ..m.c1 },
            ..m
        }
    }
}

/// The error limit of a slow-level log and a bitrate.
fn error_limit_of(slow: i32, bitrate: i32) -> (r: u32)
    requires
        0 <= slow <= 0x100_0000,
        -0x2_0000 <= bitrate <= 0x2_0000,
    ensures
        r == error_from(slow as int, bitrate as int),
{
    if slow - bitrate > -0x100 {
        wp_exp2s(slow - bitrate + 0x100) as u32
    } else {
        0
    }
}

pub fn update_error_limit(ws: &mut WordsState, flags: u32)
    ensures
        final(ws)@ == error_limit_update(old(ws)@, flags),
{
    let is_mono = (flags & MONO_DATA) != 0;
    let hybrid_bitrate = (flags & HYBRID_BITRATE) != 0;
    ws.bitrate_acc[0] = ws.bitrate_acc[0].wrapping_add(ws.bitrate_delta[0]);
    let acc0 = ws.bitrate_acc[0];
    assert((acc0 >> 16u32) <= 0xffff) by { lemma_bv_u32(acc0, 0); }
    let bitrate_0 = (acc0 >> 16u32) as i32;
    if is_mono {
        let sl = ws.c[0].slow_level.wrapping_add(SLO);
        assert((sl >> SLS) <= 0xff_ffff) by { lemma_bv_u32(sl, 0); }
        let e = if hybrid_bitrate {
            let slow_log_0 = (sl >> SLS) as i32;
            error_limit_of(slow_log_0, bitrate_0)
        } else {
            wp_exp2s(bitrate_0) as u32
        };
        let mut c = ws.c[0];
        c.error_limit = e;
        ws.c[0] = c;
    } else {
        ws.bitrate_acc[1] = ws.bitrate_acc[1].wrapping_add(ws.bitrate_delta[1]);
        let acc1 = ws.bitrate_acc[1];
        assert((acc1 >> 16u32) <= 0xffff) by { lemma_bv_u32(acc1, 0); }
        let mut bitrate_1 = (acc1 >> 16u32) as i32;
        let mut bitrate_0 = bitrate_0;
        let (e0, e1) = if hybrid_bitrate {
            let sl0 = ws.c[0].slow_level.wrapping_add(SLO);
            let sl1 = ws.c[1].slow_level.wrapping_add(SLO);
            assert((sl0 >> SLS) <= 0xff_ffff && (sl1 >> SLS) <= 0xff_ffff) by {
                lemma_bv_u32(sl0, 0);
                lemma_bv_u32(sl1, 0);
            }
            let slow_log_0 = (sl0 >> SLS) as i32;
            let slow_log_1 = (sl1 >> SLS) as i32;
            if (flags & HYBRID_BALANCE) != 0 {
                let t = slow_log_1 - slow_log_0 + bitrate_1 + 1;
                assert((t >> 1u32) == t / 2) by { lemma_bv_i32(t, 0, 0); }
                let balance = t >> 1u32;
                if balance > bitrate_0 {
                    bitrate_1 = bitrate_0 * 2;
                    bitrate_0 = 0;
                } else if -balance > bitrate_0 {
                    bitrate_0 *= 2;
                    bitrate_1 = 0;
                } else {
                    bitrate_1 = bitrate_0 + balance;
                    bitrate_0 -= balance;
                }
            }
            (error_limit_of(slow_log_0, bitrate_0), error_limit_of(slow_log_1, bitrate_1))
        } else {
            (wp_exp2s(bitrate_0) as u32, wp_exp2s(bitrate_1) as u32)
        };
        let mut c0 = ws.c[0];
        c0.error_limit = e0;
        ws.c[0] = c0;
        let mut c1 = ws.c[1];
        c1.error_limit = e1;
        ws.c[1] = c1;
    }
}

/// The slow level after one sample's decay.
pub open spec fn slow_decay(sl: u32) -> u32 {
    sl.wrapping_sub(sl.wrapping_add(SLO) >> SLS)
}

/// Decays the slow level of channel `chan` when the bitrate is hybrid-controlled.
pub open spec fn decay_chan(m: WordsModel, chan: int, flags: u32) -> WordsModel {
    if flags & HYBRID_BITRATE != 0 {
        let c = chan_of(m, chan);
        with_chan(m, chan, ChanModel { slow_level: slow_decay(c.slow_level), ..c })
    } else {
        m
    }
}

/// Narrowing of `[lo, hi]` by one bit per halving until it is no wider than
/// `el`: the midpoint reached and the number of bits read.
pub open spec fn narrow(d: Seq<u8>, p: int, lo: int, hi: int, el: int) -> (int, int)
    decreases hi - lo,
{
    let m = (hi + lo + 1) / 2;
    if hi - lo <= el || el <= 0 || hi <= lo {
        (m, 0)
    } else if bit_at(d, p) != 0 {
        let (r, n) = narrow(d, p + 1, m, hi, el);
        (r, n + 1)
    } else {
        let (r, n) = narrow(d, p + 1, lo, m - 1, el);
        (r, n + 1)
    }
}

/// The rest of a hybrid step once the ones count is known (`off` bits read
/// from `p`): error limit update (channel 0), interval, narrowing or exact
/// code, sign, and slow-level tracking.
pub open spec fn hybrid_tail(m: WordsModel, d: Seq<u8>, p: int, off: int, chan: int, flags: u32, ones: u32) -> (WordsModel, int, Option<i32>) {
    let m1 = if chan == 0 { error_limit_update(m, flags) } else { m };
    let c = chan_of(m1, chan);
    let (low0, high0, n0, nm1, nm2) = median_interval(c.m0, c.m1, c.m2, ones);
    let low = low0 & 0x7fff_ffffu32;
    let high1 = high0 & 0x7fff_ffffu32;
    let high = if low > high1 { low } else { high1 };
    let q = p + off;
    let (mid, n2) = if c.error_limit == 0 {
        let (v, k) = code_val(d, q, (high - low) as u32);
        (v + low, k)
    } else {
        narrow(d, q, low as int, high as int, c.error_limit as int)
    };
    let sign = bit_at(d, q + n2);
    let c2 = ChanModel { m0: n0, m1: nm1, m2: nm2, ..c };
    let c3 = if flags & HYBRID_BITRATE != 0 {
        ChanModel { slow_level: slow_decay(c2.slow_level).wrapping_add(log2_spec(mid as u32) as u32), ..c2 }
    } else {
        c2
    };
    (with_chan(m1, chan, c3), off + n2 + 1, Some(signed_value(mid as u32, sign)))
}

/// The ones count of a hybrid step (`off` bits read from `p`), then the rest.
pub open spec fn hybrid_ones(m: WordsModel, d: Seq<u8>, p: int, off: int, chan: int, flags: u32) -> (WordsModel, int, Option<i32>) {
    let (ones, n1) = ones_code(d, p + off);
    if ones is None {
        (m, off + n1, None)
    } else {
        let raw = ones->0;
        let m2 = WordsModel { holding_one: raw & 1u32, holding_zero: (!raw & 1u32) as i32, ..m };
        hybrid_tail(m2, d, p, off + n1, chan, flags, vstd::wrapping::u32_specs::wrapping_add(raw >> 1u32, m.holding_one))
    }
}

/// Decoding of one residual of a hybrid block for channel `chan`: without a
/// correction stream the value is the midpoint of the interval narrowed down
/// to the error limit.
pub open spec fn hybrid_step(m: WordsModel, d: Seq<u8>, p: int, chan: int, flags: u32) -> (WordsModel, int, Option<i32>) {
    let is_mono = flags & MONO_DATA != 0;
    if m.holding_zero != 0 {
        hybrid_tail(WordsModel { holding_zero: 0, ..m }, d, p, 0, chan, flags, 0)
    } else if m.c0.m0 < 2 && m.holding_one == 0 && (is_mono || m.c1.m0 < 2) {
        if m.zeros_acc != 0 {
            if m.zeros_acc - 1 != 0 {
                (decay_chan(WordsModel { zeros_acc: (m.zeros_acc - 1) as u32, ..m }, chan, flags), 0, Some(0i32))
            } else {
                hybrid_ones(WordsModel { zeros_acc: 0, ..m }, d, p, 0, chan, flags)
            }
        } else {
            let (run, n) = zero_run(d, p);
            if run is None {
                (m, n, None)
            } else if run->0 != 0 {
                let m2 = decay_chan(WordsModel { zeros_acc: run->0 as u32, ..m }, chan, flags);
                let z = ChanModel { m0: 0, m1: 0, m2: 0, ..m2.c0 };
                let z1 = ChanModel { m0: 0, m1: 0, m2: 0, ..m2.c1 };
                (WordsModel { c0: z, c1: z1, ..m2 }, n, Some(0i32))
            } else {
                hybrid_ones(WordsModel { zeros_acc: 0, ..m }, d, p, n, chan, flags)
            }
        }
    } else {
        hybrid_ones(m, d, p, 0, chan, flags)
    }
}

/// The hybrid decoder after `k` steps (see [`lossless_prefix`]).
pub open spec fn hybrid_prefix(m0: WordsModel, d: Seq<u8>, p0: int, k: nat, flags: u32) -> (WordsModel, int, Seq<i32>, bool)
    decreases k,
{
    if k == 0 {
        (m0, p0, Seq::empty(), false)
    } else {
        let (m, p, out, stopped) = hybrid_prefix(m0, d, p0, (k - 1) as nat, flags);
        if stopped {
            (m, p, out, true)
        } else {
            let (m2, n, s) = hybrid_step(m, d, p, sample_chan(k - 1, flags & MONO_DATA != 0), flags);
            if s is None {
                (m2, p + n, out, true)
            } else {
                (m2, p + n, out.push(s->0), false)
            }
        }
    }
}

/// A hybrid run that has stopped stays stopped.
pub proof fn lemma_hybrid_stopped(m0: WordsModel, d: Seq<u8>, p0: int, k: nat, j: nat, flags: u32)
    requires
        k <= j,
        hybrid_prefix(m0, d, p0, k, flags).3,
    ensures
        hybrid_prefix(m0, d, p0, j, flags) == hybrid_prefix(m0, d, p0, k, flags),
    decreases j - k,
{
    if j > k {
        lemma_hybrid_stopped(m0, d, p0, k, (j - 1) as nat, flags);
    }
}

/// Before stopping, hybrid step `k` decodes residual `k`.
pub proof fn lemma_hybrid_len(m0: WordsModel, d: Seq<u8>, p0: int, k: nat, flags: u32)
    ensures
        !hybrid_prefix(m0, d, p0, k, flags).3 ==> hybrid_prefix(m0, d, p0, k, flags).2.len() == k,
        hybrid_prefix(m0, d, p0, k, flags).2.len() <= k,
    decreases k,
{
    if k > 0 {
        lemma_hybrid_len(m0, d, p0, (k - 1) as nat, flags);
    }
}

/// Narrows `[low, high]` to the error limit (see [`narrow`]).
fn narrow_exec(bs: &mut Bits, low: u32, high: u32, error_limit: u32) -> (r: u32)
    requires
        old(bs).wf(),
        low <= high < 0x8000_0000,
        error_limit > 0,
    ensures
        final(bs).wf(),
        final(bs).stream() == old(bs).stream(),
        r as int == narrow(old(bs).stream(), old(bs).position(), low as int, high as int, error_limit as int).0,
        final(bs).position() == old(bs).position()
            + narrow(old(bs).stream(), old(bs).position(), low as int, high as int, error_limit as int).1,
        r <= high,
{
    let ghost d = bs.stream();
    let ghost p0 = bs.position();
    let mut lo = low;
    let mut hi = high;
    let mut m = (hi + lo + 1) >> 1u32;
    assert(((hi + lo + 1) as u32 >> 1u32) == (hi + lo + 1) / 2) by { lemma_bv_u32((hi + lo + 1) as u32, 0); }
    while hi - lo > error_limit
        invariant
            bs.wf(),
            bs.stream() == d,
            lo <= hi < 0x8000_0000,
            low <= lo,
            hi <= high,
            error_limit > 0,
            m as int == (hi + lo + 1) / 2,
            narrow(d, p0, low as int, high as int, error_limit as int)
                == ({
                    let t = narrow(d, bs.position(), lo as int, hi as int, error_limit as int);
                    (t.0, t.1 + (bs.position() - p0))
                }),
        decreases hi - lo,
    {
        let b = bs.getbit();
        if b != 0 {
            lo = m;
        } else {
            hi = m - 1;
        }
        assert(((hi + lo + 1) as u32 >> 1u32) == (hi + lo + 1) / 2) by { lemma_bv_u32((hi + lo + 1) as u32, 0); }
        m = (hi + lo + 1) >> 1u32;
    }
    m
}

/// The rest of a hybrid step once the ones count is known (see [`hybrid_tail`]).
fn hybrid_residual(
    bs: &mut Bits,
    ws: &mut WordsState,
    off: Ghost<int>,
    p: Ghost<int>,
    chan: usize,
    flags: u32,
    ones_count: u32,
) -> (r: Option<i32>)
    requires
        old(bs).wf(),
        chan < 2,
        old(bs).position() == p@ + off@,
    ensures
        final(bs).wf(),
        final(bs).stream() == old(bs).stream(),
        ({
            let t = hybrid_tail(old(ws)@, old(bs).stream(), p@, off@, chan as int, flags, ones_count);
            &&& final(ws)@ == t.0
            &&& final(bs).position() == p@ + t.1
            &&& r == t.2
        }),
{
    let ghost d = bs.stream();
    if chan == 0 {
        update_error_limit(ws, flags);
    }
    let ghost m1 = ws@;
    let mut c = ws.c[chan];
    let (low0, high0) = median_interval_exec(&mut c, ones_count);
    let mut low = low0 & 0x7fff_ffff;
    let mut high = high0 & 0x7fff_ffff;
    assert((low0 & 0x7fff_ffffu32) < 0x8000_0000 && (high0 & 0x7fff_ffffu32) < 0x8000_0000) by {
        lemma_bv_u32(low0, 0);
        lemma_bv_u32(high0, 0);
    }
    if low > high {
        high = low;
    }
    let error_limit = c.error_limit;
    let mid = if error_limit == 0 {
        read_code(bs, high - low) + low
    } else {
        narrow_exec(bs, low, high, error_limit)
    };
    let sign = bs.getbit();
    proof { lemma_bit_range(d, bs.position() - 1); }
    if (flags & HYBRID_BITRATE) != 0 {
        c.slow_level = c.slow_level.wrapping_sub(c.slow_level.wrapping_add(SLO) >> SLS);
        c.slow_level = c.slow_level.wrapping_add(wp_log2(mid) as u32);
    }
    ws.c[chan] = c;
    let samp = if sign != 0 { !(mid as i32) } else { mid as i32 };
    Some(samp)
}

/// One residual of a hybrid block for channel `chan` (see [`hybrid_step`]).
fn hybrid_sample(bs: &mut Bits, ws: &mut WordsState, chan: usize, flags: u32) -> (r: Option<i32>)
    requires
        old(bs).wf(),
        chan < 2,
    ensures
        final(bs).wf(),
        final(bs).stream() == old(bs).stream(),
        ({
            let t = hybrid_step(old(ws)@, old(bs).stream(), old(bs).position(), chan as int, flags);
            &&& final(ws)@ == t.0
            &&& final(bs).position() == old(bs).position() + t.1
            &&& r == t.2
        }),
{
    let ghost d = bs.stream();
    let ghost p = bs.position();
    let ghost m = ws@;
    let is_mono = (flags & MONO_DATA) != 0;
    if ws.holding_zero != 0 {
        ws.holding_zero = 0;
        return hybrid_residual(bs, ws, Ghost(0), Ghost(p), chan, flags, 0);
    }
    let c0_med = ws.c[0].median[0];
    let c1_med = ws.c[1].median[0];
    let mut off: u32 = 0;
    if c0_med < 2 && ws.holding_one == 0 && (is_mono || c1_med < 2) {
        if ws.zeros_acc != 0 {
            ws.zeros_acc -= 1;
            if ws.zeros_acc != 0 {
                if (flags & HYBRID_BITRATE) != 0 {
                    let mut c = ws.c[chan];
                    c.slow_level = c.slow_level.wrapping_sub(c.slow_level.wrapping_add(SLO) >> SLS);
                    ws.c[chan] = c;
                }
                return Some(0);
            }
        } else {
            let run = read_zero_run(bs);
            match run {
                None => {
                    return None;
                },
                Some(z) => {
                    ws.zeros_acc = z;
                    if z != 0 {
                        if (flags & HYBRID_BITRATE) != 0 {
                            let mut c = ws.c[chan];
                            c.slow_level = c.slow_level.wrapping_sub(c.slow_level.wrapping_add(SLO) >> SLS);
                            ws.c[chan] = c;
                        }
                        ws.c[0].median = [0; 3];
                        ws.c[1].median = [0; 3];
                        return Some(0);
                    }
                },
            }
        }
    }
    let ghost off = bs.position() - p;
    hybrid_ones_exec(bs, ws, Ghost(off), Ghost(p), chan, flags)
}

/// The ones count of a hybrid step, then the rest (see [`hybrid_ones`]).
fn hybrid_ones_exec(bs: &mut Bits, ws: &mut WordsState, off: Ghost<int>, p: Ghost<int>, chan: usize, flags: u32) -> (r: Option<i32>)
    requires
        old(bs).wf(),
        chan < 2,
        old(bs).position() == p@ + off@,
    ensures
        final(bs).wf(),
        final(bs).stream() == old(bs).stream(),
        ({
            let t = hybrid_ones(old(ws)@, old(bs).stream(), p@, off@, chan as int, flags);
            &&& final(ws)@ == t.0
            &&& final(bs).position() == p@ + t.1
            &&& r == t.2
        }),
{
    let ones_raw = match count_ones_lim(bs) {
        Some(v) => v,
        None => {
            return None;
        },
    };
    let low_hold = ws.holding_one;
    proof { lemma_low_bit(ones_raw); }
    ws.holding_one = ones_raw & 1;
    ws.holding_zero = (!ones_raw & 1) as i32;
    let ones_count = (ones_raw >> 1u32).wrapping_add(low_hold);
    let ghost off2 = bs.position() - p@;
    hybrid_residual(bs, ws, Ghost(off2), p, chan, flags, ones_count)
}

/// Decodes the words of hybrid blocks without a correction stream: entropy-decodes
/// the residuals of a block, each the midpoint of its interval narrowed to the
/// error limit. Decoding stops early at an end-of-stream marker; residuals not
/// reached stay 0.
#[verifier::spinoff_prover]
#[verifier::rlimit(40)]
pub fn get_words_hybrid(bs: &mut Bits, ws: &mut WordsState, flags: u32, block_samples: u32) -> (r: Option<Vec<i32>>)
    requires
        old(bs).wf(),
    ensures
        final(bs).wf(),
        final(bs).stream() == old(bs).stream(),
        r.is_some(),
        ({
            let n = block_residuals(flags, block_samples);
            let run = hybrid_prefix(old(ws)@, old(bs).stream(), old(bs).position(), n, flags);
            let out = r.unwrap()@;
            &&& out.len() == n
            &&& out.subrange(0, run.2.len() as int) == run.2
            &&& forall|i: int| run.2.len() <= i < n ==> #[trigger] out[i] == 0
            &&& final(ws)@ == run.0
            &&& final(bs).position() == run.1
        }),
{
    let is_mono = (flags & MONO_DATA) != 0;
    let nsamples = residual_count(flags, block_samples);
    let ghost d = bs.stream();
    let ghost p0 = bs.position();
    let ghost m0 = ws@;
    let mut buffer = vec![0i32; nsamples as usize];
    let mut csamples: u32 = 0;
    proof { lemma_hybrid_len(m0, d, p0, 0, flags); }
    while csamples < nsamples
        invariant_except_break
            !hybrid_prefix(m0, d, p0, csamples as nat, flags).3,
        invariant
            bs.wf(),
            bs.stream() == d,
            csamples <= nsamples,
            nsamples == block_residuals(flags, block_samples),
            is_mono == (flags & MONO_DATA != 0),
            buffer@.len() == nsamples,
            ({
                let run = hybrid_prefix(m0, d, p0, csamples as nat, flags);
                &&& ws@ == run.0
                &&& bs.position() == run.1
                &&& run.2.len() <= csamples
                &&& buffer@.subrange(0, run.2.len() as int) == run.2
                &&& forall|i: int| run.2.len() <= i < nsamples ==> #[trigger] buffer@[i] == 0
            }),
        ensures
            csamples <= nsamples,
            (csamples == nsamples && !hybrid_prefix(m0, d, p0, csamples as nat, flags).3)
                || hybrid_prefix(m0, d, p0, csamples as nat, flags).3,
            ({
                let run = hybrid_prefix(m0, d, p0, csamples as nat, flags);
                &&& ws@ == run.0
                &&& bs.position() == run.1
                &&& run.2.len() <= csamples
                &&& buffer@.subrange(0, run.2.len() as int) == run.2
                &&& forall|i: int| run.2.len() <= i < nsamples ==> #[trigger] buffer@[i] == 0
            }),
        decreases nsamples - csamples,
    {
        let chan: usize = if is_mono { 0 } else { (csamples & 1) as usize };
        proof {
            lemma_low_bit(csamples);
            lemma_hybrid_len(m0, d, p0, csamples as nat, flags);
        }
        let s = hybrid_sample(bs, ws, chan, flags);
        match s {
            None => {
                proof {
                    assert(hybrid_prefix(m0, d, p0, (csamples + 1) as nat, flags).3);
                }
                csamples += 1;
                break;
            },
            Some(v) => {
                buffer.set(csamples as usize, v);
                proof {
                    let run = hybrid_prefix(m0, d, p0, csamples as nat, flags);
                    assert(run.2.len() == csamples);
                    assert(buffer@.subrange(0, csamples + 1) =~= run.2.push(v));
                }
                csamples += 1;
            },
        }
    }
    proof {
        if hybrid_prefix(m0, d, p0, csamples as nat, flags).3 {
            lemma_hybrid_stopped(m0, d, p0, csamples as nat, nsamples as nat, flags);
        }
    }
    Some(buffer)
}

} // verus!
