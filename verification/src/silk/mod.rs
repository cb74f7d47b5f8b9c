//! Building blocks of the SILK speech decoder (fixed-point arithmetic,
//! linear-prediction and line-spectral-frequency processing, stereo
//! reconstruction, resampling).

pub mod macros;
pub mod sort;
pub mod bwexpander;
pub mod lpc_analysis_filter;
pub mod sum_sqr_shift;
pub mod stereo_ms_to_lr;
pub mod lpc_inv_pred_gain;
pub mod tables;
pub mod decode_pitch;
pub mod gain_quant;
pub mod lpc_fit;
pub mod nlsf_stabilize;
pub mod nlsf2a;
pub mod resampler_filters;
pub mod resampler;
pub mod structs;
pub mod cng;
pub mod plc;
pub mod decode_core;
