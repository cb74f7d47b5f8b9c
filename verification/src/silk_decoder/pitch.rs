//! Pitch lags of the standalone decoder.

use vstd::prelude::*;
use crate::arith::clamp;
use crate::silk::tables::{
    PITCH_LAG_MAX_MB, PITCH_LAG_MAX_NB, PITCH_LAG_MAX_WB, PITCH_LAG_MIN_MB, PITCH_LAG_MIN_NB,
    PITCH_LAG_MIN_WB, SILK_CB_LAGS_STAGE3, SILK_CB_LAGS_STAGE3_10_MS,
};

verus! {

// ---------------------------------------------------------------------------
// Pitch
// ---------------------------------------------------------------------------

/// The smallest pitch lag of a sampling rate (8, 12, and everything else as 16 kHz).
pub open spec fn legacy_min_lag(fs_khz: int) -> int {
    if fs_khz == 8 { PITCH_LAG_MIN_NB as int } else if fs_khz == 12 { PITCH_LAG_MIN_MB as int } else { PITCH_LAG_MIN_WB as int }
}

/// The largest pitch lag of a sampling rate.
pub open spec fn legacy_max_lag(fs_khz: int) -> int {
    if fs_khz == 8 { PITCH_LAG_MAX_NB as int } else if fs_khz == 12 { PITCH_LAG_MAX_MB as int } else { PITCH_LAG_MAX_WB as int }
}

/// The contour offset of subframe `k`: 10 ms tables for two subframes, 20 ms
/// tables otherwise, with the contour index limited to the table.
pub open spec fn legacy_contour(nb_subfr: int, k: int, contour_index: int) -> int {
    let ci = if contour_index > 0 { contour_index } else { 0 };
    if nb_subfr == 2 {
        SILK_CB_LAGS_STAGE3_10_MS@[k]@[if ci < 11 { ci } else { 11 }] as int
    } else {
        SILK_CB_LAGS_STAGE3@[k]@[if ci < 33 { ci } else { 33 }] as int
    }
}

/// Pitch lags of the subframes: base lag plus contour offset; the first
/// `nb_subfr` are limited to the rate's lag range. With two subframes only
/// those two are written, otherwise all four.
pub fn decode_pitch(lag_index: i16, contour_index: i8, pitch_lags: &mut [i32; 4], fs_khz: i32, nb_subfr: usize)
    requires
        nb_subfr <= 4,
    ensures
        forall|k: int| 0 <= k < nb_subfr ==> #[trigger] final(pitch_lags)@[k] == clamp(
            legacy_min_lag(fs_khz as int) + lag_index + legacy_contour(nb_subfr as int, k, contour_index as int),
            legacy_min_lag(fs_khz as int), legacy_max_lag(fs_khz as int)),
        nb_subfr != 2 ==> forall|k: int| nb_subfr <= k < 4 ==> #[trigger] final(pitch_lags)@[k]
            == legacy_min_lag(fs_khz as int) + lag_index + legacy_contour(nb_subfr as int, k, contour_index as int),
        nb_subfr == 2 ==> final(pitch_lags)@[2] == old(pitch_lags)@[2] && final(pitch_lags)@[3] == old(pitch_lags)@[3],
{
    let min_lag = if fs_khz == 8 { PITCH_LAG_MIN_NB } else if fs_khz == 12 { PITCH_LAG_MIN_MB } else { PITCH_LAG_MIN_WB };
    let lag = min_lag + (lag_index as i32);
    let contour_idx: usize = if contour_index > 0 { contour_index as usize } else { 0 };
    if nb_subfr == 2 {
        let ci = if contour_idx < 11 { contour_idx } else { 11 };
        let mut k: usize = 0;
        while k < 2
            invariant
                k <= 2,
                ci == (if contour_idx < 11 { contour_idx } else { 11 }),
                contour_idx == (if contour_index > 0 { contour_index as int } else { 0 }),
                lag == legacy_min_lag(fs_khz as int) + lag_index,
                forall|j: int| 0 <= j < k ==> #[trigger] pitch_lags@[j] == lag + legacy_contour(2, j, contour_index as int),
                forall|j: int| k <= j < 4 ==> #[trigger] pitch_lags@[j] == old(pitch_lags)@[j],
            decreases 2 - k,
        {
            pitch_lags[k] = lag + (SILK_CB_LAGS_STAGE3_10_MS[k][ci] as i32);
            k += 1;
        }
    } else {
        let ci = if contour_idx < 33 { contour_idx } else { 33 };
        let mut k: usize = 0;
        while k < 4
            invariant
                k <= 4,
                nb_subfr != 2,
                ci == (if contour_idx < 33 { contour_idx } else { 33 }),
                contour_idx == (if contour_index > 0 { contour_index as int } else { 0 }),
                lag == legacy_min_lag(fs_khz as int) + lag_index,
                forall|j: int| 0 <= j < k ==> #[trigger] pitch_lags@[j] == lag + legacy_contour(nb_subfr as int, j, contour_index as int),
            decreases 4 - k,
        {
            pitch_lags[k] = lag + (SILK_CB_LAGS_STAGE3[k][ci] as i32);
            k += 1;
        }
    }
    let max_lag = if fs_khz == 8 { PITCH_LAG_MAX_NB } else if fs_khz == 12 { PITCH_LAG_MAX_MB } else { PITCH_LAG_MAX_WB };
    let ghost written = pitch_lags@;
    let mut k: usize = 0;
    while k < nb_subfr
        invariant
            k <= nb_subfr <= 4,
            min_lag == legacy_min_lag(fs_khz as int),
            max_lag == legacy_max_lag(fs_khz as int),
            written.len() == 4,
            forall|j: int| 0 <= j < k ==> #[trigger] pitch_lags@[j] == clamp(written[j] as int, min_lag as int, max_lag as int),
            forall|j: int| k <= j < 4 ==> #[trigger] pitch_lags@[j] == written[j],
        decreases nb_subfr - k,
    {
        let v = pitch_lags[k];
        pitch_lags[k] = if v < min_lag { min_lag } else if v > max_lag { max_lag } else { v };
        k += 1;
    }
}

} // verus!
