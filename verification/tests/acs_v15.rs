use std::io::Write;

use crustagent::acs_v15::{
    inflate_animation, inflate_stream, parse_v15, read_animation_stream, read_definition, read_stream_body,
    AnimationRef, MediaPool, ACS_V15_HEADER_SIGNATURE,
};
use crustagent::error::Error;
use crustagent::model::{Frame, MouthOverlay, ReturnKind};

/// A compound document holding `streams` at its root.
fn container(streams: &[(&str, Vec<u8>)]) -> Vec<u8> {
    let mut comp = cfb::CompoundFile::create(std::io::Cursor::new(Vec::new())).unwrap();
    for (name, bytes) in streams {
        let mut s = comp.create_stream(name).unwrap();
        s.write_all(bytes).unwrap();
    }
    comp.flush().unwrap();
    comp.into_inner().into_inner()
}

fn wstr(s: &str) -> Vec<u8> {
    let units: Vec<u16> = s.encode_utf16().collect();
    let mut v = (units.len() as u32).to_le_bytes().to_vec();
    for u in units {
        v.extend_from_slice(&u.to_le_bytes());
    }
    v
}

fn astr(s: &str) -> Vec<u8> {
    let mut v = (s.len() as u32).to_le_bytes().to_vec();
    v.extend_from_slice(s.as_bytes());
    v
}

fn envelope(inflated: u32, payload: &[u8]) -> Vec<u8> {
    let mut v = ACS_V15_HEADER_SIGNATURE.to_le_bytes().to_vec();
    v.extend_from_slice(&inflated.to_le_bytes());
    v.extend_from_slice(&(payload.len() as u32).to_le_bytes());
    v.extend_from_slice(payload);
    v
}

/// A definition whose name and descriptions are spelled by `ident`.
fn definition(ident: fn(&str) -> Vec<u8>) -> Vec<u8> {
    let mut d = 0x0001_0002u32.to_le_bytes().to_vec();
    d.extend_from_slice(&1u16.to_le_bytes());
    d.extend(wstr("Wave"));
    d.extend(wstr("Wave0"));
    d.extend(wstr(""));
    d.extend_from_slice(&[0xAB; 16]);
    d.extend(ident("merlin"));
    d.extend(ident("A wizard"));
    d.extend(ident(""));
    d.extend_from_slice(&128u16.to_le_bytes());
    d.extend_from_slice(&96u16.to_le_bytes());
    d.push(5);
    d.extend_from_slice(&0u32.to_le_bytes());
    d.extend_from_slice(&1u32.to_le_bytes());
    d.extend_from_slice(&[1, 2, 3, 0]);
    d.extend_from_slice(&0u16.to_le_bytes());
    d
}

#[test]
fn bytes_that_are_no_compound_document_are_invalid_data() {
    assert!(matches!(parse_v15(vec![0u8; 64]), Err(Error::InvalidData(_))));
}

#[test]
fn a_container_without_a_definition_is_invalid_data() {
    let c = container(&[("other", vec![1, 2, 3])]);
    assert!(matches!(parse_v15(c), Err(Error::InvalidData(_))));
}

#[test]
fn a_definition_with_the_wrong_signature_is_refused() {
    let c = container(&[("char.acf", vec![1, 0, 0, 0, 0, 0, 0, 0, 0, 0, 0, 0])]);
    assert!(matches!(parse_v15(c), Err(Error::BadSignature { found: 1 })));
}

#[test]
fn a_compressed_definition_does_not_decode() {
    let c = container(&[("char.acf", envelope(40, &[0, 1, 2, 3]))]);
    assert!(matches!(parse_v15(c), Err(Error::DecodeFailed { got: 0, expected: 40 })));
}

#[test]
fn an_empty_definition_is_cut_short() {
    let c = container(&[("char.acf", envelope(0, &[]))]);
    assert!(matches!(parse_v15(c), Err(Error::UnexpectedEof { .. })));
}

#[test]
fn inflate_stream_checks_signature_and_sizes() {
    assert!(matches!(inflate_stream(&[1, 2]), Err(Error::UnexpectedEof { .. })));
    assert!(matches!(inflate_stream(&[1, 0, 0, 0]), Err(Error::BadSignature { found: 1 })));
    let mut short = envelope(0, &[9, 9, 9]);
    short.truncate(14);
    assert!(matches!(inflate_stream(&short), Err(Error::UnexpectedEof { .. })));
    assert_eq!(inflate_stream(&envelope(0, &[9, 9, 9])).unwrap(), Vec::<u8>::new());
}

#[test]
fn an_ansi_definition_reads_exactly() {
    let d = definition(astr);
    let def = read_definition(&d).unwrap();
    assert_eq!(def.consumed, d.len());
    assert_eq!(def.version, 0x0001_0002);
    assert_eq!(def.names.len(), 1);
    assert_eq!(def.names[0].name, "Merlin");
    assert_eq!(def.names[0].desc1, "A wizard");
    assert_eq!(def.names[0].language, 0);
    assert_eq!(def.header.image_size, (128, 96));
    assert_eq!(def.header.transparency, 5);
    assert_eq!(def.header.palette.len(), 1);
    assert_eq!(def.header.palette[0].r, 3);
    assert_eq!(def.animations.len(), 1);
    assert_eq!(def.animations[0].name, "Wave");
    assert_eq!(def.animations[0].stream, "Wave0");
    assert!(def.tts.is_none() && def.balloon.is_none());
}

#[test]
fn a_utf16_definition_is_recognized_by_reading_exactly() {
    let d = definition(wstr);
    let def = read_definition(&d).unwrap();
    assert_eq!(def.consumed, d.len());
    assert_eq!(def.names[0].name, "Merlin");
    assert_eq!(def.names[0].desc1, "A wizard");
}

#[test]
fn an_unknown_definition_version_is_invalid_data() {
    let mut d = definition(astr);
    d[..4].copy_from_slice(&0x0005_0000u32.to_le_bytes());
    assert!(matches!(read_definition(&d), Err(Error::InvalidData(_))));
}

#[test]
fn inflate_animation_unwraps_stored_bodies_and_refuses_compressed_ones() {
    let mut raw = vec![0u8];
    raw.extend_from_slice(&3u32.to_le_bytes());
    raw.extend_from_slice(&0u32.to_le_bytes());
    raw.extend_from_slice(&[7, 8, 9, 10]);
    assert_eq!(inflate_animation(&raw, 0x0001_0002).unwrap(), vec![7, 8, 9]);
    let mut with_ids = vec![0u8; 8];
    with_ids.extend_from_slice(&raw);
    assert_eq!(inflate_animation(&with_ids, 0x0001_001D).unwrap(), vec![7, 8, 9]);
    raw[0] = 1;
    assert!(matches!(inflate_animation(&raw, 0x0001_0002), Err(Error::DecodeFailed { got: 0, expected: 3 })));
    assert!(matches!(inflate_animation(&[0, 1], 0x0001_0002), Err(Error::UnexpectedEof { .. })));
}

/// One sound, a placeholder and a 5-byte raster, then one frame with a branch, an empty
/// mouth slot and a 2-byte mouth image.
fn body() -> Vec<u8> {
    let mut b = Vec::new();
    b.extend_from_slice(&1u16.to_le_bytes());
    b.extend_from_slice(&2u32.to_le_bytes());
    b.extend_from_slice(&[0x52, 0x49]);
    b.extend_from_slice(&2u16.to_le_bytes());
    b.extend_from_slice(&0u32.to_le_bytes());
    b.extend_from_slice(&5u32.to_le_bytes());
    b.push(0);
    b.extend_from_slice(&[1, 2, 3, 4, 5]);
    b.extend_from_slice(&0u32.to_le_bytes());
    b.extend_from_slice(&1u16.to_le_bytes());
    b.extend_from_slice(&1u16.to_le_bytes()); // image
    b.extend_from_slice(&0i16.to_le_bytes()); // sound
    b.extend_from_slice(&10u16.to_le_bytes()); // duration
    b.extend_from_slice(&2i16.to_le_bytes());
    b.extend_from_slice(&3i16.to_le_bytes());
    b.push(1);
    b.extend_from_slice(&0i16.to_le_bytes());
    b.extend_from_slice(&50u16.to_le_bytes());
    b.push(2);
    b.push(1);
    b.extend_from_slice(&0u32.to_le_bytes());
    b.push(2);
    b.extend_from_slice(&2u32.to_le_bytes());
    b.push(0);
    b.extend_from_slice(&1i16.to_le_bytes());
    b.extend_from_slice(&2i16.to_le_bytes());
    b.extend_from_slice(&1u16.to_le_bytes());
    b.extend_from_slice(&2u16.to_le_bytes());
    b.extend_from_slice(&[7, 8]);
    b
}

#[test]
fn a_stream_body_fills_the_pool_and_rebases_indices() {
    let mut pool = MediaPool::new((4, 4), 9);
    pool.sounds.push(vec![1]);
    let mut frames: Vec<Frame> = Vec::new();
    assert!(read_stream_body(&body(), &mut pool, &mut frames).is_ok());
    assert_eq!(pool.sounds, vec![vec![1], vec![0x52, 0x49]]);
    assert_eq!(pool.images.len(), 3);
    assert_eq!((pool.images[0].width, pool.images[0].height), (0, 0));
    assert!(pool.images[0].bits.is_empty());
    assert_eq!((pool.images[1].index, pool.images[1].width, pool.images[1].height), (1, 4, 2));
    assert_eq!(pool.images[1].bits, vec![1, 2, 3, 4, 5, 9, 9, 9]);
    assert_eq!((pool.images[2].width, pool.images[2].height), (1, 2));
    assert_eq!(pool.images[2].bits, vec![7, 8, 9, 9, 9, 9, 9, 9]);
    assert_eq!(frames.len(), 1);
    let f = &frames[0];
    assert_eq!((f.duration, f.sound_ndx, f.exit_frame), (10, 1, -1));
    assert_eq!(f.images.len(), 1);
    assert_eq!((f.images[0].image_ndx, f.images[0].offset), (1, (2, 3)));
    assert_eq!(f.branching.len(), 1);
    assert_eq!((f.branching[0].frame_ndx, f.branching[0].probability), (0, 50));
    assert_eq!(f.overlays.len(), 1);
    assert_eq!(f.overlays[0].overlay_type, MouthOverlay::Wide2);
    assert_eq!((f.overlays[0].image_ndx, f.overlays[0].replace, f.overlays[0].offset), (2, false, (1, 2)));
}

#[test]
fn a_body_cut_short_keeps_what_it_read() {
    let mut b = body();
    b.truncate(b.len() - 1);
    let mut pool = MediaPool::new((4, 4), 9);
    let mut frames: Vec<Frame> = Vec::new();
    assert!(matches!(read_stream_body(&b, &mut pool, &mut frames), Err(Error::UnexpectedEof { .. })));
    assert!(frames.is_empty());
    assert_eq!(pool.sounds.len(), 1);
    assert_eq!(pool.images.len(), 2);
}

#[test]
fn an_animation_stream_keeps_its_frames_even_when_its_body_is_short() {
    let mut b = body();
    let full = b.len() as u32;
    b.truncate(b.len() - 1);
    let mut raw = vec![0u8];
    raw.extend_from_slice(&full.to_le_bytes());
    raw.extend_from_slice(&0u32.to_le_bytes());
    raw.extend_from_slice(&b);
    raw.push(0); // the stored body is the full length again, last byte zeroed
    let entry = AnimationRef { name: "Wave".to_string(), stream: "Wave0".to_string(), return_name: String::new() };
    let mut pool = MediaPool::new((4, 4), 9);
    let a = read_animation_stream(&raw, &entry, 0x0001_0002, &mut pool).unwrap();
    assert_eq!(a.name, "Wave");
    assert_eq!(a.return_kind, ReturnKind::NoReturn);
    assert_eq!(a.frames.len(), 1);
    assert_eq!(a.frames[0].overlays.len(), 1);

    let named = AnimationRef { return_name: "Rest".to_string(), ..entry };
    let mut raw_short = vec![0u8];
    raw_short.extend_from_slice(&(b.len() as u32).to_le_bytes());
    raw_short.extend_from_slice(&0u32.to_le_bytes());
    raw_short.extend_from_slice(&b);
    let mut pool = MediaPool::new((4, 4), 9);
    let a = read_animation_stream(&raw_short, &named, 0x0001_0002, &mut pool).unwrap();
    assert_eq!(a.return_kind, ReturnKind::Named);
    assert_eq!(a.return_name, "Rest");
    assert!(a.frames.is_empty());
    assert_eq!(pool.images.len(), 2);
}
