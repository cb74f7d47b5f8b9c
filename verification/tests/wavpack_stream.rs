use symphonia_dsp::wavpack::stream::{decode_packet_v4v5, decode_v4v5_stream, StreamError};

fn mono_block(block_samples: u32) -> Vec<u8> {
    let mut b = vec![0u8; 44];
    b[0..4].copy_from_slice(&0x4000_0004u32.to_le_bytes());
    b[4..8].copy_from_slice(&block_samples.to_le_bytes());
    b
}

#[test]
fn short_stream_block_is_refused() {
    assert!(matches!(decode_v4v5_stream(&[0u8; 43]), Err(StreamError::TooShort)));
}

#[test]
fn empty_mono_block_decodes_to_nothing() {
    let sd = decode_v4v5_stream(&mono_block(0)).ok().unwrap();
    assert_eq!(sd.samples.len(), 0);
    assert_eq!(sd.channel_count, 1);
    assert!(!sd.is_false_stereo);
    assert_eq!(sd.block_samples, 0);
}

#[test]
fn oversized_block_is_unsupported() {
    assert!(matches!(decode_v4v5_stream(&mono_block(0x10_0001)), Err(StreamError::Unsupported)));
}

#[test]
fn mono_block_gives_its_samples() {
    let sd = decode_v4v5_stream(&mono_block(4)).ok().unwrap();
    assert_eq!(sd.samples.len(), 4);
}

#[test]
fn packet_of_one_mono_stream() {
    let block = mono_block(4);
    let mut p = vec![0u8; 8];
    p[4..8].copy_from_slice(&1u32.to_le_bytes());
    p.extend_from_slice(&(block.len() as u32).to_le_bytes());
    p.extend_from_slice(&block);
    let pd = decode_packet_v4v5(&p).ok().unwrap();
    assert_eq!(pd.frames, 4);
    assert_eq!(pd.channels, 1);
    assert_eq!(pd.samples.len(), 4);
}

#[test]
fn short_packet_is_refused() {
    assert!(matches!(decode_packet_v4v5(&[0u8; 7]), Err(StreamError::PacketTooShort)));
}

#[test]
fn packet_with_a_failing_stream_fails() {
    let block = mono_block(0x10_0001);
    let mut p = vec![0u8; 8];
    p[4..8].copy_from_slice(&1u32.to_le_bytes());
    p.extend_from_slice(&(block.len() as u32).to_le_bytes());
    p.extend_from_slice(&block);
    assert!(matches!(decode_packet_v4v5(&p), Err(StreamError::Unsupported)));
}

#[test]
fn truncated_packet_keeps_complete_streams() {
    let mut p = vec![0u8; 8];
    p[4..8].copy_from_slice(&5u32.to_le_bytes());
    let pd = decode_packet_v4v5(&p).ok().unwrap();
    assert_eq!(pd.frames, 0);
    assert_eq!(pd.samples.len(), 0);
}
