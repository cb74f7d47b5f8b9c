//! Decoding of one v4/v5 block's samples: entropy decoding, the decorrelation
//! passes, joint stereo, and the final integer or float restoration.

use vstd::prelude::*;
use crate::wavpack::bits::Bits;
use crate::wavpack::block::{fixup_samples, fixup_value, undo_joint_stereo, unjoined, Int32Info};
use crate::wavpack::decorr::{
    decorr_mono_pass, decorr_stereo_pass, mono_run, pass_state, stereo_run, DecorrPass, PassState,
};
use crate::wavpack::floats::{float_values, nowvx_value, wvx_run, FloatInfo};
use crate::wavpack::words::{
    block_residuals, get_words_hybrid, get_words_lossless, hybrid_prefix, lemma_hybrid_len, lemma_prefix_len,
    lossless_prefix, WordsModel, WordsState, FLOAT_DATA, HYBRID_FLAG, INT32_DATA, MONO_DATA,
};

verus! {

/// Blocks announcing more samples than this are refused (encoders never
/// write more than 131072 per block).
pub const MAX_BLOCK_SAMPLES: u32 = 0x10_0000;

/// `s` extended with zeros to length `n`.
pub open spec fn padded(s: Seq<i32>, n: nat) -> Seq<i32> {
    Seq::new(n, |i: int| if i < s.len() { s[i] } else { 0 })
}

/// The entropy decoder's state after a block and the block's residuals
/// (decoding stops early at an end marker; the rest are zero).
pub open spec fn block_words(ws: WordsModel, audio: Seq<u8>, flags: u32, block_samples: u32) -> (WordsModel, Seq<i32>) {
    let n = block_residuals(flags, block_samples);
    if flags & HYBRID_FLAG != 0 {
        let run = hybrid_prefix(ws, audio, 0, n, flags);
        (run.0, padded(run.2, n))
    } else {
        let run = lossless_prefix(ws, audio, 0, n, flags & MONO_DATA != 0);
        (run.0, padded(run.2, n))
    }
}

/// One decorrelation pass over a buffer: its final state and the buffer after
/// it (stereo passes leave an odd trailing value alone).
pub open spec fn pass_applied(p: DecorrPass, buf: Seq<i32>, is_mono: bool) -> (PassState, Seq<i32>) {
    if is_mono {
        mono_run(p.term as int, p.delta as int, pass_state(p), buf, buf.len())
    } else {
        let n = buf.len() / 2;
        let run = stereo_run(p.term as int, p.delta as int, pass_state(p), buf, n);
        (run.0, run.1 + buf.subrange(2 * n as int, buf.len() as int))
    }
}

/// The buffer after the first `k` passes, in order.
pub open spec fn passes_applied(ps: Seq<DecorrPass>, buf: Seq<i32>, is_mono: bool, k: nat) -> Seq<i32>
    decreases k,
{
    if k == 0 {
        buf
    } else {
        pass_applied(ps[k - 1], passes_applied(ps, buf, is_mono, (k - 1) as nat), is_mono).1
    }
}

/// The float info to use: the parsed one, or all zero.
pub open spec fn float_info_or_zero(fi: Option<&FloatInfo>) -> FloatInfo {
    match fi {
        Some(f) => *f,
        None => FloatInfo { flags: 0, shift: 0, max_exp: 0, norm_exp: 0 },
    }
}

/// The final restoration of decorrelated samples: float bit patterns for
/// float data (with the extension stream after its 4-byte prefix, when it is
/// longer than that), the integer fixups otherwise.
pub open spec fn finished(buf: Seq<i32>, flags: u32, info: Int32Info, fi: Option<&FloatInfo>, wvx: Seq<u8>) -> Seq<i32> {
    if flags & FLOAT_DATA != 0 {
        let f = float_info_or_zero(fi);
        if wvx.len() > 4 {
            wvx_run(buf, f, wvx.subrange(4, wvx.len() as int), 0, buf.len()).0
        } else {
            Seq::new(buf.len(), |i: int| nowvx_value(buf[i], f))
        }
    } else {
        Seq::new(buf.len(), |i: int| fixup_value(buf[i], flags, info))
    }
}

proof fn lemma_padded_words(out: Seq<i32>, run: Seq<i32>, n: nat)
    requires
        run.len() <= n,
        out.len() == n,
        out.subrange(0, run.len() as int) == run,
        forall|i: int| run.len() <= i < n ==> #[trigger] out[i] == 0,
    ensures
        out == padded(run, n),
{
    assert forall|i: int| 0 <= i < n implies #[trigger] out[i] == padded(run, n)[i] by {
        if i < run.len() {
            assert(out.subrange(0, run.len() as int)[i] == out[i]);
        }
    }
    assert(out =~= padded(run, n));
}

/// The samples of one block, interleaved for stereo.
/// `None` when the block announces more than [`MAX_BLOCK_SAMPLES`] samples
/// (nothing is changed then); otherwise the residuals of the audio bitstream
/// ([`block_words`]) go through every decorrelation pass in order
/// ([`passes_applied`]), joint stereo is undone ([`unjoined`]) and the samples
/// are restored ([`finished`]). Each pass is left in its final state.
pub fn unpack_samples_v4v5(
    flags: u32,
    block_samples: u32,
    passes: &mut [DecorrPass],
    ws: &mut WordsState,
    i32info: &Int32Info,
    float_info: Option<&FloatInfo>,
    wvx: &[u8],
    audio: &[u8],
) -> (r: Option<Vec<i32>>)
    ensures
        block_samples > MAX_BLOCK_SAMPLES ==> r is None && final(passes)@ == old(passes)@ && final(ws)@ == old(ws)@,
        block_samples <= MAX_BLOCK_SAMPLES ==> {
            let is_mono = flags & MONO_DATA != 0;
            let words = block_words(old(ws)@, audio@, flags, block_samples);
            let decorrelated = passes_applied(old(passes)@, words.1, is_mono, old(passes)@.len());
            &&& r matches Some(out) && out@ == finished(unjoined(decorrelated, flags), flags, *i32info, float_info, wvx@)
            &&& final(ws)@ == words.0
            &&& final(passes)@.len() == old(passes)@.len()
            &&& forall|k: int| 0 <= k < old(passes)@.len() ==> {
                let q = old(passes)@[k];
                let p = #[trigger] final(passes)@[k];
                &&& p.term == q.term && p.delta == q.delta
                &&& pass_state(p) == pass_applied(q, passes_applied(old(passes)@, words.1, is_mono, k as nat), is_mono).0
            }
        },
{
    if block_samples > MAX_BLOCK_SAMPLES {
        return None;
    }
    let is_mono = (flags & MONO_DATA) != 0;
    let mut bs = Bits::new(audio);
    let ghost n = block_residuals(flags, block_samples);
    let ghost ws0 = ws@;
    let words = if (flags & HYBRID_FLAG) != 0 {
        get_words_hybrid(&mut bs, ws, flags, block_samples)
    } else {
        get_words_lossless(&mut bs, ws, flags, block_samples)
    };
    let mut buf = match words {
        Some(b) => b,
        None => {
            return None;
        },
    };
    proof {
        if flags & HYBRID_FLAG != 0 {
            lemma_hybrid_len(ws0, audio@, 0, n, flags);
            lemma_padded_words(buf@, hybrid_prefix(ws0, audio@, 0, n, flags).2, n);
        } else {
            lemma_prefix_len(ws0, audio@, 0, n, is_mono);
            lemma_padded_words(buf@, lossless_prefix(ws0, audio@, 0, n, is_mono).2, n);
        }
        assert(buf@ == block_words(ws0, audio@, flags, block_samples).1);
        assert(buf@.len() <= 0x20_0000);
    }
    let ghost w = buf@;
    let ghost p0 = passes@;
    let np = passes.len();
    let mut k: usize = 0;
    while k < np
        invariant
            k <= np,
            np == p0.len(),
            passes@.len() == np,
            buf@.len() == w.len(),
            w.len() <= 0x20_0000,
            buf@ == passes_applied(p0, w, is_mono, k as nat),
            forall|t: int| k <= t < np ==> #[trigger] passes@[t] == p0[t],
            forall|t: int| 0 <= t < k ==> {
                let q = p0[t];
                let p = #[trigger] passes@[t];
                &&& p.term == q.term && p.delta == q.delta
                &&& pass_state(p) == pass_applied(q, passes_applied(p0, w, is_mono, t as nat), is_mono).0
            },
        decreases np - k,
    {
        let ghost before = buf@;
        let ghost pbefore = passes@;
        let mut p = passes[k];
        if is_mono {
            decorr_mono_pass(&mut p, buf.as_mut_slice());
        } else {
            decorr_stereo_pass(&mut p, buf.as_mut_slice());
            proof {
                let h = before.len() / 2;
                assert(buf@ =~= buf@.subrange(0, 2 * h as int) + before.subrange(2 * h as int, before.len() as int));
            }
        }
        passes[k] = p;
        assert(forall|t: int| 0 <= t < np && t != k ==> passes@[t] == pbefore[t]);
        k += 1;
    }
    undo_joint_stereo(buf.as_mut_slice(), flags);
    if (flags & FLOAT_DATA) != 0 {
        let info = match float_info {
            Some(f) => *f,
            None => FloatInfo { flags: 0, shift: 0, max_exp: 0, norm_exp: 0 },
        };
        if wvx.len() > 4 {
            let ext = vstd::slice::slice_subrange(wvx, 4, wvx.len());
            let mut wvx_bits = Bits::new(ext);
            float_values(buf.as_mut_slice(), &info, Some(&mut wvx_bits));
        } else {
            float_values(buf.as_mut_slice(), &info, None);
        }
    } else {
        fixup_samples(buf.as_mut_slice(), flags, i32info);
    }
    Some(buf)
}

} // verus!
