//! One stream block of a v4/v5 packet: a 44-byte header (flags, sample count
//! and the lengths of eight sub-blocks), the sub-blocks, then the audio
//! bitstream. The sub-blocks are parsed into decorrelation passes, entropy
//! state and fix-up information, and the block is unpacked.

use vstd::prelude::*;
use crate::wavpack::block::{
    delta_of, medians_from, parse_decorr_terms, parse_decorr_weights, parse_entropy_vars, parse_hybrid_profile,
    parse_int32_info, restore_weight_spec, term_of, unjoined, weight_present, hybrid_profile, Int32Info, MAX_NTERMS,
};
use crate::wavpack::decorr::DecorrPass;
use crate::wavpack::floats::{parse_float_info, FloatInfo};
use crate::wavpack::history::{history_ptr, history_restored, parse_decorr_samples};
use crate::wavpack::unpack::{block_words, finished, passes_applied, unpack_samples_v4v5, MAX_BLOCK_SAMPLES};
use crate::wavpack::words::{words_zero, WordsModel, WordsState, FLOAT_DATA, HYBRID_FLAG, MONO_DATA, MONO_FLAG};

verus! {

/// The size of a stream block's header.
pub const STREAM_HDR: usize = 44;

/// Why a stream block could not be decoded.
#[derive(Debug, Clone, Copy, PartialEq, Eq)]
pub enum StreamError {
    /// Shorter than its header.
    TooShort,
    /// More samples than a block may hold.
    Unsupported,
    /// Samples announced but none decoded.
    NoSamples,
    /// A packet shorter than its 8-byte header.
    PacketTooShort,
}

/// A decoded stream block.
pub struct StreamDecode {
    /// Interleaved samples: `block_samples` for mono data, twice that otherwise.
    pub samples: Vec<i32>,
    /// The output channels of the stream (two for false stereo).
    pub channel_count: usize,
    /// One decoded channel that stands for both output channels.
    pub is_false_stereo: bool,
    pub block_samples: u32,
}

/// The little-endian 32-bit value at `off`.
pub open spec fn le_u32(d: Seq<u8>, off: int) -> int {
    d[off] as int + d[off + 1] as int * 0x100 + d[off + 2] as int * 0x1_0000 + d[off + 3] as int * 0x100_0000
}

/// The declared length of sub-block `k` (0..8).
pub open spec fn field_len(d: Seq<u8>, k: int) -> int {
    le_u32(d, 12 + 4 * k)
}

/// Where sub-block `k` starts: after the header and the declared lengths of
/// the sub-blocks before it.
pub open spec fn field_pos(d: Seq<u8>, k: nat) -> int
    decreases k,
{
    if k == 0 { STREAM_HDR as int } else { field_pos(d, (k - 1) as nat) + field_len(d, k - 1) }
}

/// Sub-block `k`: its declared bytes, cut at the end of the block.
pub open spec fn field(d: Seq<u8>, k: nat) -> Seq<u8> {
    let p = field_pos(d, k);
    let e = p + field_len(d, k as int);
    d.subrange(p, if e < d.len() { e } else { d.len() as int })
}

/// The audio bitstream after the eight sub-blocks.
pub open spec fn audio_field(d: Seq<u8>) -> Seq<u8> {
    let p = field_pos(d, 8);
    d.subrange(if p < d.len() { p } else { d.len() as int }, d.len() as int)
}

/// The declared lengths stay within the block for every sub-block but the
/// last one, whose end may run past it (a later sub-block starting past the
/// end of the block cannot be cut out).
pub open spec fn fields_fit(d: Seq<u8>) -> bool {
    &&& forall|k: nat| 1 <= k <= 7 ==> #[trigger] field_pos(d, k) <= d.len()
    &&& field_pos(d, 8) <= usize::MAX
}

/// The passes parsed from the term bytes `t`.
#[verifier::opaque]
pub open spec fn terms_parsed(t: Seq<u8>, p: Seq<DecorrPass>) -> bool {
    let num = if t.len() < MAX_NTERMS { t.len() as int } else { MAX_NTERMS as int };
    &&& p.len() == num
    &&& forall|j: int| 0 <= j < num ==> {
        let q = #[trigger] p[j];
        &&& q.term == term_of(t[num - 1 - j])
        &&& q.delta == delta_of(t[num - 1 - j])
        &&& q.weight_a == 0 && q.weight_b == 0
        &&& forall|k: int| 0 <= k < 8 ==> q.samples_a@[k] == 0 && q.samples_b@[k] == 0
    }
}

/// The passes `p` after reading the weight bytes `w` into `q`.
#[verifier::opaque]
pub open spec fn weights_parsed(w: Seq<u8>, q: Seq<DecorrPass>, p: Seq<DecorrPass>, is_mono: bool) -> bool {
    let n = q.len();
    let stride: int = if is_mono { 1 } else { 2 };
    &&& p.len() == n
    &&& forall|j: int| 0 <= j < n ==> {
        let a = #[trigger] p[n - 1 - j];
        let b = q[n - 1 - j];
        &&& a.term == b.term && a.delta == b.delta
        &&& a.samples_a == b.samples_a && a.samples_b == b.samples_b
        &&& if weight_present(j, stride, w.len() as int) {
            &&& a.weight_a == restore_weight_spec(w[j * stride] as i8)
            &&& a.weight_b == (if is_mono { b.weight_b } else { restore_weight_spec(w[j * stride + 1] as i8) })
        } else {
            a.weight_a == b.weight_a && a.weight_b == b.weight_b
        }
    }
}

/// The passes `p` after restoring the histories of `q` from the bytes `s`.
#[verifier::opaque]
pub open spec fn samples_parsed(s: Seq<u8>, q: Seq<DecorrPass>, p: Seq<DecorrPass>, is_mono: bool) -> bool {
    &&& p.len() == q.len()
    &&& forall|j: int| 0 <= j < q.len() ==> {
        let ptr = history_ptr(q, is_mono, j);
        if j == 0 || ptr <= s.len() {
            history_restored(#[trigger] p[q.len() - 1 - j], q[q.len() - 1 - j], s, ptr, is_mono)
        } else {
            p[q.len() - 1 - j] == q[q.len() - 1 - j]
        }
    }
}

/// Whether the flags mark mono data.
pub open spec fn mono_data(flags: u32) -> bool {
    flags & MONO_DATA != 0
}

/// The decorrelation passes of a block: parsed from its term, weight and
/// history sub-blocks in turn.
pub open spec fn passes_parsed(d: Seq<u8>, p: Seq<DecorrPass>, is_mono: bool) -> bool {
    exists|p1: Seq<DecorrPass>, p2: Seq<DecorrPass>|
        #![trigger terms_parsed(field(d, 0), p1), samples_parsed(field(d, 2), p2, p, is_mono)]
        terms_parsed(field(d, 0), p1) && weights_parsed(field(d, 1), p1, p2, is_mono)
            && samples_parsed(field(d, 2), p2, p, is_mono)
}

/// The entropy state of a block: medians from the entropy sub-block and,
/// for hybrid blocks, the hybrid profile.
pub open spec fn words_parsed(d: Seq<u8>, flags: u32) -> WordsModel {
    let is_mono = flags & MONO_DATA != 0;
    let z = words_zero();
    let m = WordsModel {
        c0: medians_from(z.c0, field(d, 3), 0),
        c1: if is_mono { z.c1 } else { medians_from(z.c1, field(d, 3), 6) },
        ..z
    };
    if flags & HYBRID_FLAG != 0 { hybrid_profile(m, field(d, 4), is_mono, flags) } else { m }
}

/// The extra-bit counts of a block (zero unless its sub-block holds four bytes).
pub open spec fn int32_parsed(d: Seq<u8>) -> Int32Info {
    let f = field(d, 6);
    if f.len() < 4 {
        Int32Info { sent_bits: 0, zeros: 0, ones: 0, dups: 0 }
    } else {
        Int32Info { sent_bits: f[0], zeros: f[1], ones: f[2], dups: f[3] }
    }
}

/// The float information of a float block whose sub-block holds four bytes.
pub open spec fn float_parsed(d: Seq<u8>, flags: u32) -> Option<FloatInfo> {
    let f = field(d, 5);
    if flags & FLOAT_DATA != 0 && f.len() == 4 {
        Some(FloatInfo { flags: f[0], shift: f[1], max_exp: f[2], norm_exp: f[3] })
    } else {
        None
    }
}

/// The samples of a block with at most [`MAX_BLOCK_SAMPLES`] samples from
/// the passes `p`: the entropy-decoded words through the passes, joint
/// stereo undone and the samples finished.
pub open spec fn stream_samples(d: Seq<u8>, p: Seq<DecorrPass>) -> Seq<i32> {
    let flags = le_u32(d, 0) as u32;
    let bs = le_u32(d, 4) as u32;
    let is_mono = flags & MONO_DATA != 0;
    let words = block_words(words_parsed(d, flags), audio_field(d), flags, bs);
    let fi = float_parsed(d, flags);
    finished(unjoined(passes_applied(p, words.1, is_mono, p.len()), flags), flags, int32_parsed(d),
        match fi { Some(x) => Some(&x), None => None }, field(d, 7))
}


/// The little-endian 32-bit value at `off` ([`le_u32`]).
fn read_le_u32(d: &[u8], off: usize) -> (r: u32)
    requires
        off + 4 <= d@.len(),
    ensures
        r == le_u32(d@, off as int),
{
    d[off] as u32 + d[off + 1] as u32 * 0x100 + d[off + 2] as u32 * 0x1_0000 + d[off + 3] as u32 * 0x100_0000
}

/// Sub-block `k` ([`field`]) and where the next one starts.
fn take_field(d: &[u8], pos: usize, k: usize) -> (r: (&[u8], usize))
    requires
        d@.len() >= STREAM_HDR,
        k < 8,
        pos == field_pos(d@, k as nat),
        pos <= d@.len(),
        field_pos(d@, (k + 1) as nat) <= usize::MAX,
    ensures
        r.0@ == field(d@, k as nat),
        r.1 == field_pos(d@, (k + 1) as nat),
{
    let len = read_le_u32(d, 12 + 4 * k) as usize;
    let end = d.len();
    let e = if len > end - pos { end } else { pos + len };
    (vstd::slice::slice_subrange(d, pos, e), pos + len)
}

/// The later sub-blocks start no earlier than the earlier ones.
proof fn lemma_field_pos_mono(d: Seq<u8>, j: nat, k: nat)
    requires
        j <= k,
        d.len() >= STREAM_HDR,
    ensures
        field_pos(d, j) <= field_pos(d, k),
    decreases k - j,
{
    if j < k {
        lemma_field_pos_mono(d, j, (k - 1) as nat);
        assert(field_len(d, k - 1) >= 0);
    }
}

/// Both parse stages of the decorrelation passes give [`passes_parsed`].
proof fn lemma_passes_parsed(d: Seq<u8>, p1: Seq<DecorrPass>, p2: Seq<DecorrPass>, p3: Seq<DecorrPass>, is_mono: bool)
    requires
        terms_parsed(field(d, 0), p1),
        weights_parsed(field(d, 1), p1, p2, is_mono),
        samples_parsed(field(d, 2), p2, p3, is_mono),
    ensures
        passes_parsed(d, p3, is_mono),
{
}

/// The sub-blocks of a stream block parsed: the passes, the entropy state,
/// the extra-bit counts, the float information, the extension stream and
/// the audio bitstream.
#[verifier::rlimit(40)]
fn parse_sub_blocks(stream_data: &[u8], flags: u32) -> (r: (Vec<DecorrPass>, WordsState, Int32Info, Option<FloatInfo>, &[u8], &[u8]))
    requires
        stream_data@.len() <= isize::MAX,
        stream_data@.len() >= STREAM_HDR,
        fields_fit(stream_data@),
    ensures
        passes_parsed(stream_data@, r.0@, mono_data(flags)),
        r.1@ == words_parsed(stream_data@, flags),
        r.2 == int32_parsed(stream_data@),
        r.3 == float_parsed(stream_data@, flags),
        r.4@ == field(stream_data@, 7),
        r.5@ == audio_field(stream_data@),
{
    let ghost d = stream_data@;
    proof {
        lemma_field_pos_mono(d, 1, 8);
        lemma_field_pos_mono(d, 2, 8);
        lemma_field_pos_mono(d, 3, 8);
        lemma_field_pos_mono(d, 4, 8);
        lemma_field_pos_mono(d, 5, 8);
        lemma_field_pos_mono(d, 6, 8);
        lemma_field_pos_mono(d, 7, 8);
        assert(field_pos(d, 1) <= d.len());
        assert(field_pos(d, 2) <= d.len());
        assert(field_pos(d, 3) <= d.len());
        assert(field_pos(d, 4) <= d.len());
        assert(field_pos(d, 5) <= d.len());
        assert(field_pos(d, 6) <= d.len());
        assert(field_pos(d, 7) <= d.len());
    }
    let (terms_raw, pos) = take_field(stream_data, STREAM_HDR, 0);
    let (weights_raw, pos) = take_field(stream_data, pos, 1);
    let (samples_raw, pos) = take_field(stream_data, pos, 2);
    let (entropy_raw, pos) = take_field(stream_data, pos, 3);
    let (hybrid_raw, pos) = take_field(stream_data, pos, 4);
    let (float_raw, pos) = take_field(stream_data, pos, 5);
    let (int32_raw, pos) = take_field(stream_data, pos, 6);
    let (wvx_raw, pos) = take_field(stream_data, pos, 7);
    let end = stream_data.len();
    let audio = vstd::slice::slice_subrange(stream_data, if pos < end { pos } else { end }, end);

    let is_mono = (flags & MONO_DATA) != 0;
    let is_float = (flags & FLOAT_DATA) != 0;

    let mut decorr: Vec<DecorrPass> = Vec::new();
    let mut words = WordsState::default();
    parse_decorr_terms(terms_raw, &mut decorr);
    let ghost p1 = decorr@;
    parse_decorr_weights(weights_raw, decorr.as_mut_slice(), is_mono);
    let ghost p2 = decorr@;
    parse_decorr_samples(samples_raw, decorr.as_mut_slice(), is_mono);
    let ghost p3 = decorr@;
    proof {
        reveal(terms_parsed);
        reveal(weights_parsed);
        reveal(samples_parsed);
        assert(terms_parsed(field(d, 0), p1));
        assert(weights_parsed(field(d, 1), p1, p2, is_mono));
        assert(samples_parsed(field(d, 2), p2, p3, is_mono));
        lemma_passes_parsed(d, p1, p2, p3, is_mono);
    }
    parse_entropy_vars(entropy_raw, &mut words, is_mono);
    if (flags & HYBRID_FLAG) != 0 {
        parse_hybrid_profile(hybrid_raw, &mut words, is_mono, flags);
    }
    assert(words@ == words_parsed(d, flags));
    let i32info = parse_int32_info(int32_raw);
    assert(i32info == int32_parsed(d));
    let float_info = if is_float { parse_float_info(float_raw) } else { None };
    assert(float_info == float_parsed(d, flags));

    (decorr, words, i32info, float_info, wvx_raw, audio)
}

/// What decoding the stream block `d0` gives ([`decode_v4v5_stream`]).
pub open spec fn stream_result(d0: Seq<u8>, r: Result<StreamDecode, StreamError>) -> bool {
    &&& (d0.len() < STREAM_HDR ==> r == Err::<StreamDecode, StreamError>(StreamError::TooShort))
    &&& (d0.len() >= STREAM_HDR ==> {
            let d = d0;
            let flags = le_u32(d, 0) as u32;
            let bs = le_u32(d, 4) as u32;
            &&& bs > MAX_BLOCK_SAMPLES ==> r == Err::<StreamDecode, StreamError>(StreamError::Unsupported)
            &&& bs == 0 ==> (r matches Ok(sd) && {
                &&& sd.block_samples == bs
                &&& sd.channel_count == (if flags & MONO_FLAG != 0 { 1usize } else { 2usize })
                &&& sd.is_false_stereo == (flags & MONO_DATA != 0 && flags & MONO_FLAG == 0)
                &&& sd.samples@.len() == 0
            })
            &&& 0 < bs <= MAX_BLOCK_SAMPLES ==> exists|p: Seq<DecorrPass>| #[trigger] passes_parsed(d, p, mono_data(flags)) && {
                if stream_samples(d, p).len() == 0 {
                    r == Err::<StreamDecode, StreamError>(StreamError::NoSamples)
                } else {
                    r matches Ok(sd) && {
                        &&& sd.block_samples == bs
                        &&& sd.channel_count == (if flags & MONO_FLAG != 0 { 1usize } else { 2usize })
                        &&& sd.is_false_stereo == (flags & MONO_DATA != 0 && flags & MONO_FLAG == 0)
                        &&& sd.samples@ == stream_samples(d, p)
                    }
                }
            }
        })
}

/// Decodes one stream block: a block shorter than its header is refused; a
/// block announcing no samples gives none; one announcing more than
/// [`MAX_BLOCK_SAMPLES`] is unsupported; otherwise the samples are those of
/// the parsed passes and entropy state ([`stream_samples`]).
#[verifier::rlimit(40)]
pub fn decode_v4v5_stream(stream_data: &[u8]) -> (r: Result<StreamDecode, StreamError>)
    requires
        stream_data@.len() <= isize::MAX,
        stream_data@.len() >= STREAM_HDR ==> fields_fit(stream_data@),
    ensures
        stream_result(stream_data@, r),
{
    if stream_data.len() < STREAM_HDR {
        return Err(StreamError::TooShort);
    }
    let flags = read_le_u32(stream_data, 0);
    let block_samples = read_le_u32(stream_data, 4);
    let is_true_mono = (flags & MONO_FLAG) != 0;
    let is_false_stereo = (flags & MONO_DATA) != 0 && !is_true_mono;
    let (mut decorr, mut words, i32info, float_info, wvx_raw, audio) = parse_sub_blocks(stream_data, flags);
    let ghost p = decorr@;
    let samples = if block_samples == 0 {
        Vec::new()
    } else {
        match unpack_samples_v4v5(flags, block_samples, decorr.as_mut_slice(), &mut words, &i32info,
            float_info.as_ref(), wvx_raw, audio) {
            Some(v) => v,
            None => {
                return Err(StreamError::Unsupported);
            },
        }
    };
    assert(block_samples > 0 ==> samples@ == stream_samples(stream_data@, p));
    if samples.len() == 0 && block_samples > 0 {
        return Err(StreamError::NoSamples);
    }
    Ok(StreamDecode {
        samples,
        channel_count: if is_true_mono { 1 } else { 2 },
        is_false_stereo,
        block_samples,
    })
}


/// A decoded packet: `frames` frames of `channels` interleaved samples.
pub struct PacketDecode {
    pub frames: usize,
    pub channels: usize,
    pub samples: Vec<i32>,
}

/// The stream blocks of a packet after `k` of its declared streams: each is
/// a 4-byte length and that many bytes (cut at the end of the packet); the
/// split stops for good when fewer than 4 bytes remain. Also gives where
/// the next stream starts and whether the split stopped.
pub open spec fn packet_split(d: Seq<u8>, k: nat) -> (Seq<Seq<u8>>, int, bool)
    decreases k,
{
    if k == 0 {
        (Seq::empty(), 8, false)
    } else {
        let (ss, pos, stop) = packet_split(d, (k - 1) as nat);
        if stop || pos + 4 > d.len() {
            (ss, pos, true)
        } else {
            let e0 = pos + 4 + le_u32(d, pos);
            let e = if e0 < d.len() { e0 } else { d.len() as int };
            (ss.push(d.subrange(pos + 4, e)), e, false)
        }
    }
}

/// The stream blocks of a packet.
pub open spec fn packet_streams(d: Seq<u8>) -> Seq<Seq<u8>> {
    packet_split(d, le_u32(d, 4) as nat).0
}

/// `rs` are the decoded first `rs.len()` stream blocks `ss`.
pub open spec fn streams_ok(ss: Seq<Seq<u8>>, rs: Seq<StreamDecode>) -> bool {
    &&& rs.len() <= ss.len()
    &&& forall|j: int| 0 <= j < rs.len() ==> stream_result(ss[j], Ok(#[trigger] rs[j]))
}

/// The output channels of the streams, in order: each stream gives its
/// first data channel, and a stereo stream a second one (its first again
/// for false stereo).
pub open spec fn planes(rs: Seq<StreamDecode>) -> Seq<(int, int)>
    decreases rs.len(),
{
    if rs.len() == 0 {
        Seq::empty()
    } else {
        let i = rs.len() - 1;
        let p = planes(rs.drop_last()).push((i, 0));
        if rs[i].channel_count == 2 { p.push((i, if rs[i].is_false_stereo { 0 } else { 1 })) } else { p }
    }
}

/// Frame `f` of data channel `ch` of stream `si`, or 0 past its samples.
pub open spec fn sample_at(rs: Seq<StreamDecode>, si: int, ch: int, f: int) -> i32 {
    let s = rs[si].samples@;
    let idx = if rs[si].channel_count == 1 { f } else { f * 2 + ch };
    if idx < s.len() { s[idx] } else { 0 }
}

/// The packet assembled from its decoded streams: nothing when there are
/// none or the first is empty; otherwise the first stream's frame count,
/// with each output channel ([`planes`]) read from its stream.
pub open spec fn packet_of(rs: Seq<StreamDecode>, pd: PacketDecode) -> bool {
    if rs.len() == 0 || rs[0].block_samples == 0 {
        pd.frames == 0 && pd.channels == 0 && pd.samples@.len() == 0
    } else {
        let ps = planes(rs);
        &&& pd.frames == rs[0].block_samples
        &&& pd.channels == ps.len()
        &&& pd.samples@.len() == pd.frames * pd.channels
        &&& forall|f: int, c: int| 0 <= f < pd.frames && 0 <= c < pd.channels ==>
            #[trigger] pd.samples@[f * pd.channels + c] == sample_at(rs, ps[c].0, ps[c].1, f)
    }
}

/// The stream blocks a packet may hold: each that fills its header declares
/// sub-blocks that start within it.
pub open spec fn packet_streams_fit(d: Seq<u8>) -> bool {
    forall|i: int| 0 <= i < packet_streams(d).len() ==> {
        &&& #[trigger] packet_streams(d)[i].len() >= STREAM_HDR ==> fields_fit(packet_streams(d)[i])
    }
}

/// Splitting further only appends stream blocks.
proof fn lemma_split_prefix(d: Seq<u8>, k: nat, m: nat)
    requires
        k <= m,
    ensures
        packet_split(d, k).0.len() <= packet_split(d, m).0.len(),
        forall|j: int| 0 <= j < packet_split(d, k).0.len() ==> #[trigger] packet_split(d, m).0[j] == packet_split(d, k).0[j],
        packet_split(d, k).2 ==> packet_split(d, m) == packet_split(d, k),
    decreases m - k,
{
    if k < m {
        lemma_split_prefix(d, k, (m - 1) as nat);
    }
}

/// Positions stay within the packet once past its header.
proof fn lemma_split_pos(d: Seq<u8>, k: nat)
    requires
        d.len() >= 8,
    ensures
        8 <= packet_split(d, k).1 <= d.len(),
    decreases k,
{
    if k > 0 {
        lemma_split_pos(d, (k - 1) as nat);
    }
}

/// The packet assembled from its decoded streams ([`packet_of`]).
fn assemble(streams: &Vec<StreamDecode>) -> (r: PacketDecode)
    requires
        streams@.len() > 0 ==> streams@[0].block_samples <= MAX_BLOCK_SAMPLES,
    ensures
        packet_of(streams@, r),
{
    let ghost rs = streams@;
    if streams.len() == 0 || streams[0].block_samples == 0 {
        return PacketDecode { frames: 0, channels: 0, samples: Vec::new() };
    }
    let mut ps: Vec<(usize, usize)> = Vec::new();
    let mut i: usize = 0;
    while i < streams.len()
        invariant
            i <= rs.len(),
            streams@ == rs,
            ps@.len() == planes(rs.subrange(0, i as int)).len(),
            forall|c: int| 0 <= c < ps@.len() ==> (#[trigger] ps@[c]).0 as int == planes(rs.subrange(0, i as int))[c].0
                && ps@[c].1 as int == planes(rs.subrange(0, i as int))[c].1,
            forall|c: int| 0 <= c < ps@.len() ==> (#[trigger] ps@[c]).0 < i && ps@[c].1 <= 1,
            ps@.len() <= 2 * i,
        decreases rs.len() - i,
    {
        proof {
            assert(rs.subrange(0, i + 1).drop_last() =~= rs.subrange(0, i as int));
        }
        ps.push((i, 0));
        if streams[i].channel_count == 2 {
            ps.push((i, if streams[i].is_false_stereo { 0 } else { 1 }));
        }
        i += 1;
    }
    assert(rs.subrange(0, rs.len() as int) =~= rs);
    let frames = streams[0].block_samples as usize;
    let channels = ps.len();
    let mut out: Vec<i32> = Vec::new();
    let mut f: usize = 0;
    while f < frames
        invariant
            f <= frames,
            streams@ == rs,
            channels == ps@.len(),
            channels == planes(rs).len(),
            forall|c: int| 0 <= c < ps@.len() ==> (#[trigger] ps@[c]).0 as int == planes(rs)[c].0
                && ps@[c].1 as int == planes(rs)[c].1,
            forall|c: int| 0 <= c < ps@.len() ==> (#[trigger] ps@[c]).0 < rs.len() && ps@[c].1 <= 1,
            frames <= 0x10_0000,
            out@.len() == f * channels,
            forall|g: int, c: int| 0 <= g < f && 0 <= c < channels ==>
                #[trigger] out@[g * channels + c] == sample_at(rs, planes(rs)[c].0, planes(rs)[c].1, g),
        decreases frames - f,
    {
        let mut c: usize = 0;
        while c < channels
            invariant
                c <= channels,
                f < frames <= 0x10_0000,
                streams@ == rs,
                channels == ps@.len(),
                forall|c2: int| 0 <= c2 < ps@.len() ==> (#[trigger] ps@[c2]).0 as int == planes(rs)[c2].0
                    && ps@[c2].1 as int == planes(rs)[c2].1,
                forall|c2: int| 0 <= c2 < ps@.len() ==> (#[trigger] ps@[c2]).0 < rs.len() && ps@[c2].1 <= 1,
                out@.len() == f * channels + c,
                forall|g: int, c2: int| 0 <= g < f && 0 <= c2 < channels ==>
                    #[trigger] out@[g * channels + c2] == sample_at(rs, planes(rs)[c2].0, planes(rs)[c2].1, g),
                forall|c2: int| 0 <= c2 < c ==>
                    #[trigger] out@[f * channels + c2] == sample_at(rs, planes(rs)[c2].0, planes(rs)[c2].1, f as int),
            decreases channels - c,
        {
            let (si, ch) = ps[c];
            let s = &streams[si];
            let idx = if s.channel_count == 1 { f } else { f * 2 + ch };
            let v = if idx < s.samples.len() { s.samples[idx] } else { 0 };
            let ghost old_out = out@;
            out.push(v);
            proof {
                assert forall|g: int, c2: int| 0 <= g < f && 0 <= c2 < channels implies
                    #[trigger] out@[g * channels + c2] == sample_at(rs, planes(rs)[c2].0, planes(rs)[c2].1, g) by {
                    assert(g * channels + c2 < f * channels) by (nonlinear_arith)
                        requires 0 <= g < f, 0 <= c2 < channels;
                    assert(out@[g * channels + c2] == old_out[g * channels + c2]);
                }
            }
            c += 1;
        }
        proof {
            assert((f + 1) * channels == f * channels + channels) by (nonlinear_arith);
            assert forall|g: int, c2: int| 0 <= g < f + 1 && 0 <= c2 < channels implies
                #[trigger] out@[g * channels + c2] == sample_at(rs, planes(rs)[c2].0, planes(rs)[c2].1, g) by {
                if g == f {
                    assert(out@[f * channels + c2] == sample_at(rs, planes(rs)[c2].0, planes(rs)[c2].1, f as int));
                }
            }
        }
        f += 1;
    }
    PacketDecode { frames, channels, samples: out }
}

/// Decodes a packet: an 8-byte header with the stream count at offset 4,
/// then the streams ([`packet_split`]). The first stream that fails makes the
/// packet fail with its error; otherwise the output channels of all streams
/// are interleaved over the first stream's frames ([`packet_of`]).
pub fn decode_packet_v4v5(data: &[u8]) -> (r: Result<PacketDecode, StreamError>)
    requires
        data@.len() <= isize::MAX,
        data@.len() >= 8 ==> packet_streams_fit(data@),
    ensures
        data@.len() < 8 ==> r == Err::<PacketDecode, StreamError>(StreamError::PacketTooShort),
        data@.len() >= 8 ==> {
            let ss = packet_streams(data@);
            &&& (r matches Ok(pd) ==> exists|rs: Seq<StreamDecode>| #[trigger] streams_ok(ss, rs) && rs.len() == ss.len()
                && packet_of(rs, pd))
            &&& (r matches Err(e) ==> exists|rs: Seq<StreamDecode>| #[trigger] streams_ok(ss, rs) && rs.len() < ss.len()
                && stream_result(ss[rs.len() as int], Err(e)))
        },
{
    if data.len() < 8 {
        return Err(StreamError::PacketTooShort);
    }
    let ghost d = data@;
    let count = read_le_u32(data, 4);
    let end = data.len();
    let mut pos: usize = 8;
    let mut stopped = false;
    let mut streams: Vec<StreamDecode> = Vec::new();
    let mut k: u32 = 0;
    while k < count && !stopped
        invariant
            d == data@,
            end == d.len(),
            d.len() >= 8,
            d.len() <= isize::MAX,
            count == le_u32(d, 4),
            k <= count,
            packet_streams_fit(d),
            packet_split(d, k as nat) == (packet_split(d, k as nat).0, pos as int, stopped),
            streams@.len() == packet_split(d, k as nat).0.len(),
            streams_ok(packet_split(d, k as nat).0, streams@),
        decreases count - k, (if stopped { 0int } else { 1int }),
    {
        proof { lemma_split_pos(d, k as nat); }
        if pos + 4 > end {
            stopped = true;
        } else {
            let slen = read_le_u32(data, pos) as usize;
            let start = pos + 4;
            let e = if slen > end - start { end } else { start + slen };
            let block = vstd::slice::slice_subrange(data, start, e);
            proof {
                lemma_split_prefix(d, (k + 1) as nat, count as nat);
                let j = packet_split(d, k as nat).0.len() as int;
                assert(packet_split(d, (k + 1) as nat).0[j] == block@);
                assert(packet_streams(d)[j] == block@);
            }
            match decode_v4v5_stream(block) {
                Ok(sd) => {
                    streams.push(sd);
                },
                Err(err) => {
                    proof {
                        let ss = packet_streams(d);
                        lemma_split_prefix(d, k as nat, count as nat);
                        assert(streams_ok(ss, streams@));
                    }
                    return Err(err);
                },
            }
            pos = e;
        }
        k += 1;
    }
    proof {
        lemma_split_prefix(d, k as nat, count as nat);
        assert(packet_split(d, count as nat) == packet_split(d, k as nat));
    }
    proof {
        assert(streams_ok(packet_streams(d), streams@));
    }
    Ok(assemble(&streams))
}

} // verus!
