use crustagent::wav::decode;

fn wav(fmt_tag: u16, fmt_body: &[u8], data: &[u8]) -> Vec<u8> {
    let mut v = Vec::new();
    v.extend_from_slice(b"RIFF");
    v.extend_from_slice(&0u32.to_le_bytes()); // riff size (unused by decoder)
    v.extend_from_slice(b"WAVE");
    v.extend_from_slice(b"fmt ");
    v.extend_from_slice(&(fmt_body.len() as u32).to_le_bytes());
    v.extend_from_slice(fmt_body);
    let _ = fmt_tag;
    v.extend_from_slice(b"data");
    v.extend_from_slice(&(data.len() as u32).to_le_bytes());
    v.extend_from_slice(data);
    v
}

fn pcm_fmt(channels: u16, bits: u16) -> Vec<u8> {
    let mut fmt = Vec::new();
    fmt.extend_from_slice(&1u16.to_le_bytes());
    fmt.extend_from_slice(&channels.to_le_bytes());
    fmt.extend_from_slice(&8000u32.to_le_bytes());
    fmt.extend_from_slice(&16000u32.to_le_bytes());
    fmt.extend_from_slice(&2u16.to_le_bytes());
    fmt.extend_from_slice(&bits.to_le_bytes());
    fmt
}

fn adpcm_fmt(channels: u16, block_align: u16) -> Vec<u8> {
    let mut fmt = Vec::new();
    fmt.extend_from_slice(&2u16.to_le_bytes()); // tag ADPCM
    fmt.extend_from_slice(&channels.to_le_bytes());
    fmt.extend_from_slice(&8000u32.to_le_bytes());
    fmt.extend_from_slice(&8000u32.to_le_bytes());
    fmt.extend_from_slice(&block_align.to_le_bytes());
    fmt.extend_from_slice(&4u16.to_le_bytes()); // bits
    fmt.extend_from_slice(&4u16.to_le_bytes()); // cbSize
    fmt.extend_from_slice(&2u16.to_le_bytes()); // samplesPerBlock
    fmt.extend_from_slice(&0u16.to_le_bytes()); // numCoef 0 -> defaults
    fmt
}

#[test]
fn decodes_pcm16() {
    // fmt: tag1, 1ch, 8000Hz, avg, blockalign2, 16bit
    let mut fmt = Vec::new();
    fmt.extend_from_slice(&1u16.to_le_bytes());
    fmt.extend_from_slice(&1u16.to_le_bytes());
    fmt.extend_from_slice(&8000u32.to_le_bytes());
    fmt.extend_from_slice(&16000u32.to_le_bytes());
    fmt.extend_from_slice(&2u16.to_le_bytes());
    fmt.extend_from_slice(&16u16.to_le_bytes());
    let data: Vec<u8> = [1i16, -1, 1000, -1000]
        .iter()
        .flat_map(|s| s.to_le_bytes())
        .collect();
    let pcm = decode(&wav(1, &fmt, &data)).expect("decode");
    assert_eq!(pcm.channels, 1);
    assert_eq!(pcm.sample_rate, 8000);
    assert_eq!(pcm.samples, vec![1, -1, 1000, -1000]);
}

#[test]
fn decodes_ms_adpcm_priming() {
    // Minimal MS-ADPCM: fmt with default coef table + a single 7-byte block (header
    // only), so output is just the two priming samples [samp2, samp1].
    let mut fmt = Vec::new();
    fmt.extend_from_slice(&2u16.to_le_bytes()); // tag ADPCM
    fmt.extend_from_slice(&1u16.to_le_bytes()); // channels
    fmt.extend_from_slice(&8000u32.to_le_bytes());
    fmt.extend_from_slice(&8000u32.to_le_bytes());
    fmt.extend_from_slice(&7u16.to_le_bytes()); // block align = 7 (header only)
    fmt.extend_from_slice(&4u16.to_le_bytes()); // bits
    fmt.extend_from_slice(&4u16.to_le_bytes()); // cbSize
    fmt.extend_from_slice(&2u16.to_le_bytes()); // samplesPerBlock
    fmt.extend_from_slice(&0u16.to_le_bytes()); // numCoef 0 -> defaults
    let mut data = Vec::new();
    data.push(0u8); // predictor index 0
    data.extend_from_slice(&16i16.to_le_bytes()); // delta
    data.extend_from_slice(&100i16.to_le_bytes()); // samp1
    data.extend_from_slice(&200i16.to_le_bytes()); // samp2
    let pcm = decode(&wav(2, &fmt, &data)).expect("decode");
    assert_eq!(pcm.samples, vec![200, 100]); // samp2 then samp1
}

#[test]
fn decodes_pcm8_centred() {
    let pcm = decode(&wav(1, &pcm_fmt(1, 8), &[0, 128, 255])).expect("decode");
    assert_eq!(pcm.samples, vec![-32768, 0, 127 << 8]);
}

#[test]
fn rejects_what_it_cannot_play() {
    assert!(decode(b"RIFF").is_none());
    assert!(decode(&wav(1, &pcm_fmt(1, 12), &[0, 0])).is_none());
    assert!(decode(&wav(1, &pcm_fmt(0, 16), &[0, 0])).is_none());
    let mut bad = wav(1, &pcm_fmt(1, 16), &[0, 0]);
    bad[8] = b'X';
    assert!(decode(&bad).is_none());
    // a/mu-law and other tags stay silent
    let mut alaw = pcm_fmt(1, 8);
    alaw[0] = 6;
    assert!(decode(&wav(6, &alaw, &[1, 2])).is_none());
}

#[test]
fn adpcm_nibbles_follow_the_predictor() {
    let mut data = vec![0u8];
    data.extend_from_slice(&16i16.to_le_bytes());
    data.extend_from_slice(&100i16.to_le_bytes());
    data.extend_from_slice(&200i16.to_le_bytes());
    data.push(0x10); // high nibble 1, low nibble 0
    let pcm = decode(&wav(2, &adpcm_fmt(1, 8), &data)).expect("decode");
    assert_eq!(pcm.samples, vec![200, 100, 116, 116]);
}

#[test]
fn adpcm_stereo_interleaves_channels() {
    // two 14-byte headers' worth: indices, deltas, samp1s, samp2s per channel
    let mut data = vec![0u8, 0u8];
    for v in [16i16, 16, 10, 20, 30, 40] {
        data.extend_from_slice(&v.to_le_bytes());
    }
    let pcm = decode(&wav(2, &adpcm_fmt(2, 14), &data)).expect("decode");
    assert_eq!(pcm.channels, 2);
    assert_eq!(pcm.samples, vec![30, 40, 10, 20]);
}

#[test]
fn a_short_trailing_block_ends_decoding() {
    let mut data = vec![0u8];
    data.extend_from_slice(&16i16.to_le_bytes());
    data.extend_from_slice(&1i16.to_le_bytes());
    data.extend_from_slice(&2i16.to_le_bytes());
    data.extend_from_slice(&[0, 0, 0]); // too short for a header
    let pcm = decode(&wav(2, &adpcm_fmt(1, 7), &data)).expect("decode");
    assert_eq!(pcm.samples, vec![2, 1]);
}
