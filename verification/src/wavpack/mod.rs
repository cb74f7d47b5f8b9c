//! WavPack v4/v5 block decoding: bit reader, entropy decoder, decorrelation
//! passes, sample fixup and IEEE float restoration.

pub mod bits;
pub mod codes;
pub mod words;
pub mod logs;
pub mod decorr;
pub mod block;
pub mod history;
pub mod floats;
pub mod unpack;
pub mod stream;
