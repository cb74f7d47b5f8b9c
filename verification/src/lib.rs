//! Verified integer kernels of an audio decoding toolkit: the SILK fixed-point
//! speech decoder building blocks and the WavPack v4/v5 lossless/hybrid block
//! decoder.

pub mod arith;

pub mod silk;

pub mod silk_decoder;

pub mod wavpack;
