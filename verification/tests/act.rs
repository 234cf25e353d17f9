use crustagent::act::{action_name, extract_wave_streams, find_subslice, ActFile, Branch, CelFormat};
use crustagent::error::Error;
use crustagent::model::Rgba;

#[test]
fn find_subslice_basic() {
    assert_eq!(find_subslice(b"abcdef", b"cd"), Some(2));
    assert_eq!(find_subslice(b"abcdef", b"xy"), None);
}

#[test]
fn extracts_wave_streams() {
    let mut buf = vec![0u8; 4];
    // one 16-byte RIFF/WAVE (size = 8 covering "WAVE" + 4 bytes)
    buf.extend_from_slice(b"RIFF");
    buf.extend_from_slice(&8u32.to_le_bytes());
    buf.extend_from_slice(b"WAVE");
    buf.extend_from_slice(&[1, 2, 3, 4]);
    buf.extend_from_slice(&[0u8; 3]);
    let waves = extract_wave_streams(&buf);
    assert_eq!(waves.len(), 1);
    assert_eq!(&waves[0][0..4], b"RIFF");
    assert_eq!(waves[0].len(), 16);
}

#[test]
fn find_subslice_edges() {
    assert_eq!(find_subslice(b"abc", b""), None);
    assert_eq!(find_subslice(b"ab", b"abc"), None);
    assert_eq!(find_subslice(b"abab", b"ab"), Some(0));
    assert_eq!(find_subslice(b"xxab", b"ab"), Some(2));
}

#[test]
fn truncated_wave_streams_are_skipped() {
    let mut buf = Vec::new();
    buf.extend_from_slice(b"RIFF");
    buf.extend_from_slice(&100u32.to_le_bytes());
    buf.extend_from_slice(b"WAVE");
    assert!(extract_wave_streams(&buf).is_empty());
}

#[test]
fn action_names_follow_the_office_table() {
    assert_eq!(action_name(1), Some("Idle"));
    assert_eq!(action_name(24), Some("Thinking"));
    assert_eq!(action_name(116), Some("EmptyTrash"));
    assert_eq!(action_name(7), None);
}

#[test]
fn short_files_are_rejected() {
    match ActFile::parse(vec![0u8; 10]) {
        Err(Error::UnexpectedEof { context, offset, needed, available }) => {
            assert_eq!(context, "act header");
            assert_eq!((offset, needed, available), (0, 24, 10));
        }
        _ => panic!("expected an end-of-file error"),
    }
}

#[test]
fn unknown_signatures_are_rejected() {
    let mut data = vec![0u8; 64];
    data[0] = b'X';
    data[1] = b'Y';
    match ActFile::parse(data) {
        Err(Error::BadSignature { found }) => assert_eq!(found, u32::from_le_bytes([b'X', b'Y', 0, 0])),
        _ => panic!("expected a bad signature"),
    }
}

#[test]
fn a_file_without_a_section_table_is_invalid() {
    let mut data = vec![0u8; 64];
    data[0] = b'L';
    data[1] = b'P';
    match ActFile::parse(data) {
        Err(Error::InvalidData(m)) => assert_eq!(m, "could not locate the actor section table"),
        _ => panic!("expected invalid data"),
    }
}

/// A little-endian actor file with a section table at 0x20, no artwork and one sound.
fn tiny_actor() -> Vec<u8> {
    let total = 0x2000usize;
    let mut d = vec![0u8; total];
    d[0] = b'L';
    d[1] = b'P';
    d[2] = 2;
    d[4] = 1;
    d[0x12..0x16].copy_from_slice(b"Bob\0");
    // frame size 120 x 90 right before the 2083,2083 marker
    d[0x40..0x42].copy_from_slice(&120u16.to_le_bytes());
    d[0x42..0x44].copy_from_slice(&90u16.to_le_bytes());
    d[0x44..0x46].copy_from_slice(&2083u16.to_le_bytes());
    d[0x46..0x48].copy_from_slice(&2083u16.to_le_bytes());
    let secs: [u32; 7] = [0x1100, 0x1200, 0x1300, 0x1400, 0x1500, 0x1600, 0x1F00];
    for (k, v) in secs.iter().enumerate() {
        d[0x20 + 4 * k..0x24 + 4 * k].copy_from_slice(&v.to_le_bytes());
    }
    // palette: two entries
    d[0x3C..0x40].copy_from_slice(&2u32.to_le_bytes());
    // a sound well past the header
    let at = 0x1800;
    d[at..at + 4].copy_from_slice(b"RIFF");
    d[at + 4..at + 8].copy_from_slice(&8u32.to_le_bytes());
    d[at + 8..at + 12].copy_from_slice(b"WAVE");
    d
}

#[test]
fn parses_a_minimal_actor_header() {
    let act = ActFile::parse(tiny_actor()).expect("parses");
    assert!(!act.big_endian);
    assert_eq!(act.version, (2, 1));
    assert_eq!(act.name, "Bob");
    assert_eq!(act.image_size, (120, 90));
    assert_eq!(act.sections[0], 0x1100);
    assert_eq!(act.palette.len(), 2);
    assert!(act.cels.is_empty());
    assert_eq!(act.image_format, CelFormat::Bitmap);
    assert!(act.poses.is_empty() && act.frames.is_empty() && act.actions.is_empty());
    assert_eq!(act.sounds.len(), 1);
    assert_eq!(act.sounds[0].len(), 16);
    assert!(act.cel_bytes(0).is_none());
    assert!(act.decompress_cel(0).is_none());
    assert!(act.action("idle").is_none());
    // an object past every pose renders blank at the default size
    let blank = act.render_object(0xFFFF, &[]).expect("frame size known");
    assert_eq!((blank.width, blank.height), (120, 90));
    assert!(blank.is_fully_transparent());
    assert!(act.render_pose(0, &[]).is_none());
}

#[test]
fn mnak_blocks_become_bitmap_cels() {
    let mut d = tiny_actor();
    d[0x200..0x204].copy_from_slice(b"MNAK");
    d[0x300..0x304].copy_from_slice(b"MNAK");
    let act = ActFile::parse(d).expect("parses");
    assert_eq!(act.cels.len(), 2);
    assert_eq!(act.image_format, CelFormat::Bitmap);
    assert_eq!((act.cels[0].offset, act.cels[0].len), (0x200, 0x100));
    assert_eq!((act.cels[1].offset, act.cels[1].len), (0x300, 0x1100 - 0x300));
    assert_eq!(&act.cel_bytes(1).unwrap()[0..4], b"MNAK");
    // a zero uncompressed size decodes to nothing; no decoder is available for more
    assert_eq!(act.decompress_cel(0), Some(Vec::new()));
    let mut d2 = tiny_actor();
    d2[0x200..0x204].copy_from_slice(b"MNAK");
    d2[0x204] = 10;
    let act2 = ActFile::parse(d2).expect("parses");
    assert_eq!(act2.decompress_cel(0), None);
}

#[test]
fn branch_variants_compare_by_value() {
    assert_eq!(Branch::Jump(3), Branch::Jump(3));
    assert_ne!(Branch::Next, Branch::Probable { target: 1, weight: 50 });
}

fn put16(d: &mut [u8], at: usize, v: u16) {
    d[at..at + 2].copy_from_slice(&v.to_le_bytes());
}

fn put32(d: &mut [u8], at: usize, v: u32) {
    d[at..at + 4].copy_from_slice(&v.to_le_bytes());
}

/// A little-endian metafile actor: three cels, one pose of two parts, a small frame
/// graph and two actions.
fn vector_actor() -> Vec<u8> {
    let mut d = tiny_actor();
    d.resize(0x3000, 0);
    let secs: [u32; 7] = [0x1100, 0x1200, 0x1300, 0x1400, 0x1500, 0x1600, 0x2F00];
    for (k, v) in secs.iter().enumerate() {
        put32(&mut d, 0x20 + 4 * k, *v);
    }
    d[0x1800..0x1810].fill(0); // drop the sound of the small file
    for at in [0x1000usize, 0x1020, 0x1040] {
        put32(&mut d, at, 0x9AC6_CDD7);
        put16(&mut d, at + 6, 1);
        put16(&mut d, at + 8, 2);
        put16(&mut d, at + 10, 30);
        put16(&mut d, at + 12, 40);
    }
    // object directory: cel ends 0x20, 0x40, 0x60, then the pose's end 0x80
    for (k, v) in [0x20u32, 0x40, 0x60, 0x80].iter().enumerate() {
        put32(&mut d, 0x1100 + 4 * k, *v);
    }
    // pose 0 at 0x1060: two parts
    put16(&mut d, 0x1062, 2);
    put16(&mut d, 0x1064, 0);
    put16(&mut d, 0x1066, 30);
    put16(&mut d, 0x1068, 45);
    put16(&mut d, 0x106E, 1);
    put16(&mut d, 0x1070, (-15i16) as u16);
    put16(&mut d, 0x1072, 0);
    // frame stream: end-of-list marker, then the frames
    put16(&mut d, 0x1400, 0x0100);
    let frames: [(u16, u16, u16, u16, u16); 4] = [
        (3, 100, 0, 0, 0),
        (3, 0, 1, 3, 0),
        (0xFFFF, 50, 0, 0, 0),
        (3, 20, 2, 0, 50),
    ];
    let mut p = 0x1406;
    for (obj, dur, bt, a, b) in frames {
        put16(&mut d, p, obj);
        put16(&mut d, p + 2, dur);
        put16(&mut d, p + 4, bt);
        p += 6;
        if bt != 0 {
            put16(&mut d, p, a);
            put16(&mut d, p + 2, b);
            p += 6;
        }
    }
    // actions: Greeting from frame 0, Thinking from frame 2
    for (k, (id, first)) in [(2u16, 0u16), (24, 2)].iter().enumerate() {
        put16(&mut d, 0x1500 + 6 * k, *id);
        put16(&mut d, 0x1502 + 6 * k, 1);
        put16(&mut d, 0x1504 + 6 * k, *first);
    }
    d
}

#[test]
fn decodes_poses_frames_and_actions() {
    let act = ActFile::parse(vector_actor()).expect("parses");
    assert_eq!(act.image_format, CelFormat::Wmf);
    assert_eq!(act.cels.len(), 3);
    assert_eq!(act.cels[1].offset, 0x1020);
    assert_eq!(act.cels[1].len, 0x20);
    assert_eq!(act.cels[2].len, 0x1100 - 0x1040);
    assert_eq!(act.cels[0].bounds, Some((1, 2, 30, 40)));
    assert_eq!(act.poses.len(), 1);
    let parts = &act.poses[0].parts;
    assert_eq!(parts.len(), 2);
    assert_eq!(parts[0].image, 0);
    assert_eq!(parts[0].rect, (30, 45, 0, 0));
    assert_eq!(parts[1].rect.0, -15);
    assert_eq!(act.frames[0].object, 3);
    assert_eq!(act.frames[0].duration_ms, 100);
    assert_eq!(act.frames[1].branch, Branch::Jump(3));
    assert_eq!(act.frames[3].branch, Branch::Probable { target: 0, weight: 50 });
    assert_eq!(act.actions.len(), 2);
    assert_eq!(act.actions[0].name, "Greeting");
    assert_eq!(act.actions[1].name, "Thinking");
    assert_eq!(act.action("THINKING").map(|a| a.first_frame), Some(2));
    assert!(act.action("Wave").is_none());
    assert!(act.sounds.is_empty());
}

#[test]
fn action_sequences_walk_the_frame_graph() {
    let act = ActFile::parse(vector_actor()).expect("parses");
    let greeting = act.action("greeting").unwrap();
    let seq = act.action_sequence(greeting, 100);
    assert_eq!(seq, vec![(3, 100), (3, 20), (3, 100), (3, 20), (3, 100), (3, 20)]);
    assert_eq!(act.action_sequence(greeting, 3), vec![(3, 100), (3, 20), (3, 100)]);
    let thinking = act.action("Thinking").unwrap();
    assert_eq!(
        act.action_sequence(thinking, 100),
        vec![(0xFFFF, 50), (3, 20), (3, 100), (3, 20), (3, 100), (3, 20), (3, 100)]
    );
}

#[test]
fn poses_composite_their_rendered_cels() {
    let act = ActFile::parse(vector_actor()).expect("parses");
    let red = Rgba { width: 2, height: 2, pixels: [255u8, 0, 0, 255].repeat(4) };
    let clear = Rgba { width: 1, height: 1, pixels: vec![9, 9, 9, 0] };
    let rendered = vec![Some(red), Some(clear), None];
    let frame = act.render_pose(0, &rendered).expect("renders");
    assert_eq!((frame.width, frame.height), (120, 90));
    for y in 0..90u32 {
        for x in 0..120u32 {
            let o = ((y * 120 + x) * 4) as usize;
            let inside = (2..4).contains(&x) && (3..5).contains(&y);
            let want: [u8; 4] = if inside { [255, 0, 0, 255] } else { [0, 0, 0, 0] };
            assert_eq!(&frame.pixels[o..o + 4], &want, "pixel {x},{y}");
        }
    }
    let same = act.render_object(3, &rendered).unwrap();
    assert_eq!(same.pixels, frame.pixels);
    assert!(act.render_object(0, &rendered).unwrap().is_fully_transparent());
}
