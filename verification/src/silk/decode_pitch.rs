//! Pitch lags of the subframes from the decoded lag and contour indices.

use vstd::prelude::*;
use crate::arith::{clamp, lo16};
use crate::silk::macros::{silk_limit, silk_smulbb};
use crate::silk::tables::{
    MAX_NB_SUBFR, SILK_CB_LAGS_STAGE2, SILK_CB_LAGS_STAGE2_10_MS, SILK_CB_LAGS_STAGE3,
    SILK_CB_LAGS_STAGE3_10_MS,
};

verus! {

pub const PE_MIN_LAG_MS: i32 = 2;
pub const PE_MAX_LAG_MS: i32 = 18;

/// Number of contour vectors of the codebook used for a sampling rate and frame size.
pub open spec fn contour_count(fs_khz: int, nb_subfr: int) -> int {
    if fs_khz == 8 {
        if nb_subfr == 4 { 11 } else { 3 }
    } else if nb_subfr == 4 {
        34
    } else {
        12
    }
}

/// The lag offset of subframe `k` under contour `ci` (8 kHz uses the coarse
/// codebooks, the other rates the fine ones; 2 subframes use the 10 ms ones).
pub open spec fn contour_delta(fs_khz: int, nb_subfr: int, k: int, ci: int) -> int {
    if fs_khz == 8 {
        if nb_subfr == 4 { SILK_CB_LAGS_STAGE2@[k]@[ci] as int } else { SILK_CB_LAGS_STAGE2_10_MS@[k]@[ci] as int }
    } else if nb_subfr == 4 {
        SILK_CB_LAGS_STAGE3@[k]@[ci] as int
    } else {
        SILK_CB_LAGS_STAGE3_10_MS@[k]@[ci] as int
    }
}

/// The smallest and largest lag for a sampling rate (2 ms and 18 ms).
pub open spec fn pitch_min_lag(fs_khz: i32) -> int {
    2 * lo16(fs_khz)
}

/// See [`pitch_min_lag`].
pub open spec fn pitch_max_lag(fs_khz: i32) -> int {
    18 * lo16(fs_khz)
}

/// `pitch_lags[k] = clamp(min_lag + lag_index + delta_k, min_lag, max_lag)`
/// for the first `nb_subfr` subframes.
pub fn silk_decode_pitch(
    lag_index: i16,
    contour_index: i8,
    pitch_lags: &mut [i32; 4],
    fs_khz: i32,
    nb_subfr: usize,
)
    requires
        nb_subfr == 2 || nb_subfr == MAX_NB_SUBFR,
        0 <= contour_index < contour_count(fs_khz as int, nb_subfr as int),
    ensures
        forall|k: int| 0 <= k < nb_subfr ==> #[trigger] final(pitch_lags)@[k] == (
            if pitch_min_lag(fs_khz) > pitch_max_lag(fs_khz) {
                clamp(pitch_min_lag(fs_khz) + lag_index + contour_delta(fs_khz as int, nb_subfr as int, k, contour_index as int),
                    pitch_max_lag(fs_khz), pitch_min_lag(fs_khz))
            } else {
                clamp(pitch_min_lag(fs_khz) + lag_index + contour_delta(fs_khz as int, nb_subfr as int, k, contour_index as int),
                    pitch_min_lag(fs_khz), pitch_max_lag(fs_khz))
            }),
        forall|k: int| nb_subfr <= k < 4 ==> #[trigger] final(pitch_lags)@[k] == old(pitch_lags)@[k],
{
    let ci = contour_index as usize;
    let min_lag = silk_smulbb(PE_MIN_LAG_MS, fs_khz);
    let max_lag = silk_smulbb(PE_MAX_LAG_MS, fs_khz);
    proof {
        crate::arith::lemma_wrap16_small(2);
        crate::arith::lemma_wrap16_small(18);
        crate::arith::lemma_wrap_bounds(fs_khz as int, 0x8000);
        assert(lo16(PE_MIN_LAG_MS) == 2);
        assert(lo16(PE_MAX_LAG_MS) == 18);
        assert(-0x8000 <= lo16(fs_khz) < 0x8000);
        assert(min_lag == 2 * lo16(fs_khz));
    }
    let lag = min_lag + lag_index as i32;
    let ghost p0 = pitch_lags@;
    let mut k: usize = 0;
    while k < nb_subfr
        invariant
            k <= nb_subfr,
            nb_subfr == 2 || nb_subfr == 4,
            ci == contour_index,
            0 <= ci < contour_count(fs_khz as int, nb_subfr as int),
            min_lag == pitch_min_lag(fs_khz),
            max_lag == pitch_max_lag(fs_khz),
            lag == min_lag + lag_index,
            -0x1_0000 <= min_lag <= 0x1_0000,
            pitch_lags@.len() == 4,
            forall|j: int| 0 <= j < k ==> #[trigger] pitch_lags@[j] == (
                if pitch_min_lag(fs_khz) > pitch_max_lag(fs_khz) {
                    clamp(lag + contour_delta(fs_khz as int, nb_subfr as int, j, ci as int), max_lag as int, min_lag as int)
                } else {
                    clamp(lag + contour_delta(fs_khz as int, nb_subfr as int, j, ci as int), min_lag as int, max_lag as int)
                }),
            forall|j: int| k <= j < 4 ==> #[trigger] pitch_lags@[j] == p0[j],
        decreases nb_subfr - k,
    {
        let delta = if fs_khz == 8 {
            if nb_subfr == MAX_NB_SUBFR {
                SILK_CB_LAGS_STAGE2[k][ci] as i32
            } else {
                SILK_CB_LAGS_STAGE2_10_MS[k][ci] as i32
            }
        } else if nb_subfr == MAX_NB_SUBFR {
            SILK_CB_LAGS_STAGE3[k][ci] as i32
        } else {
            SILK_CB_LAGS_STAGE3_10_MS[k][ci] as i32
        };
        pitch_lags[k] = silk_limit(lag + delta, min_lag, max_lag);
        k += 1;
    }
}

/// Whatever the indices, every decoded lag lies between the smallest and the
/// largest lag of the sampling rate.
pub proof fn lemma_pitch_lag_in_range(x: int, fs_khz: i32)
    requires
        pitch_min_lag(fs_khz) <= pitch_max_lag(fs_khz),
    ensures
        pitch_min_lag(fs_khz) <= clamp(x, pitch_min_lag(fs_khz), pitch_max_lag(fs_khz)) <= pitch_max_lag(fs_khz),
{
}

} // verus!
