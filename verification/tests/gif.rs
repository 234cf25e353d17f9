use crustagent::gif::{lzw_encode, GifBuilder};

/// A conforming GIF LZW decoder, used only to verify the encoder.
fn lzw_decode(bytes: &[u8], min_code_size: u8) -> Result<Vec<u8>, String> {
    let clear = 1u32 << min_code_size;
    let end = clear + 1;
    let mut code_size = min_code_size as u32 + 1;
    let mut table: Vec<Vec<u8>> = Vec::new();
    let reset = |t: &mut Vec<Vec<u8>>| {
        t.clear();
        for i in 0..clear {
            t.push(vec![i as u8]);
        }
        t.push(vec![]); // clear
        t.push(vec![]); // end
    };
    reset(&mut table);

    let mut out = Vec::new();
    let mut bitpos = 0usize;
    let mut read = |size: u32| -> Option<u32> {
        let mut v = 0u32;
        for i in 0..size {
            let byte = bitpos / 8;
            let bit = bitpos % 8;
            if byte >= bytes.len() {
                return None;
            }
            v |= (((bytes[byte] >> bit) & 1) as u32) << i;
            bitpos += 1;
        }
        Some(v)
    };

    let mut old: Option<u32> = None;
    while let Some(code) = read(code_size) {
        if code == clear {
            reset(&mut table);
            code_size = min_code_size as u32 + 1;
            old = None;
            continue;
        }
        if code == end {
            break;
        }
        let entry = if (code as usize) < table.len() {
            table[code as usize].clone()
        } else if code as usize == table.len() {
            let o = old.ok_or("first code out of range")? as usize;
            let mut e = table[o].clone();
            e.push(table[o][0]);
            e
        } else {
            return Err(format!("invalid code {code} (table {})", table.len()));
        };
        out.extend_from_slice(&entry);
        if let Some(o) = old {
            let mut ne = table[o as usize].clone();
            ne.push(entry[0]);
            table.push(ne);
            if table.len() == (1 << code_size) as usize && code_size < 12 {
                code_size += 1;
            }
        }
        old = Some(code);
    }
    Ok(out)
}

fn roundtrip(data: &[u8]) {
    let enc = lzw_encode(data, 8);
    let dec = lzw_decode(&enc, 8).expect("decode");
    assert_eq!(dec, data, "round-trip mismatch (len {})", data.len());
}

#[test]
fn empty_and_tiny() {
    roundtrip(&[]);
    roundtrip(&[0]);
    roundtrip(&[5, 5, 5, 5]);
}

#[test]
fn crosses_code_width_boundaries() {
    // Enough distinct sequences to push code width from 9 up through 12 and force a
    // table clear. This is the case the off-by-one used to corrupt.
    let mut data = Vec::new();
    let mut x = 12345u32;
    for _ in 0..20_000 {
        x = x.wrapping_mul(1_103_515_245).wrapping_add(12345);
        let v = ((x >> 16) % 256) as u8;
        let run = ((x >> 8) % 30) as usize;
        data.extend(std::iter::repeat(v).take(run));
    }
    roundtrip(&data);
}

#[test]
fn builds_valid_container() {
    let palette = vec![[10u8, 20, 30]; 256];
    let mut gif = GifBuilder::new(4, 2, &palette, 0);
    gif.add_frame(&[1, 2, 3, 4, 5, 6, 7, 8], 10);
    let bytes = gif.finish();
    assert_eq!(&bytes[0..6], b"GIF89a");
    assert_eq!(*bytes.last().unwrap(), 0x3B);
}

#[test]
fn empty_input_is_a_clear_then_an_end_code() {
    // clear (256) then end (257), 9 bits each, packed low bits first
    assert_eq!(lzw_encode(&[], 8), vec![0x00, 0x03, 0x02]);
}

#[test]
fn header_layout_and_short_palettes() {
    let gif = GifBuilder::new(300, 2, &[[1, 2, 3]], 7);
    let bytes = gif.finish();
    assert_eq!(&bytes[6..13], &[44, 1, 2, 0, 0xF7, 7, 0]);
    assert_eq!(&bytes[13..16], &[1, 2, 3]);
    assert_eq!(&bytes[16..19], &[0, 0, 0]);
    assert_eq!(&bytes[13 + 768..13 + 768 + 3], &[0x21, 0xFF, 0x0B]);
    assert_eq!(&bytes[13 + 768 + 3..13 + 768 + 14], b"NETSCAPE2.0");
    assert_eq!(bytes.len(), 13 + 768 + 19 + 1);
}

#[test]
fn frames_carry_their_delay_and_sub_blocks() {
    let palette = vec![[0u8, 0, 0]; 4];
    let mut gif = GifBuilder::new(2, 1, &palette, 3);
    let before = 13 + 768 + 19;
    gif.add_frame(&[0, 1], 25);
    let bytes = gif.finish();
    let f = &bytes[before..];
    assert_eq!(&f[0..8], &[0x21, 0xF9, 0x04, 0x09, 25, 0, 3, 0]);
    assert_eq!(&f[8..18], &[0x2C, 0, 0, 0, 0, 2, 0, 1, 0, 0]);
    assert_eq!(f[18], 8);
    let lzw = lzw_encode(&[0, 1], 8);
    assert_eq!(f[19] as usize, lzw.len());
    assert_eq!(&f[20..20 + lzw.len()], &lzw[..]);
    assert_eq!(f[20 + lzw.len()], 0);
    assert_eq!(lzw_decode(&lzw, 8).unwrap(), vec![0, 1]);
}

#[test]
fn long_frames_split_into_255_byte_blocks() {
    let w = 200u16;
    let h = 50u16;
    let mut px = Vec::new();
    let mut x = 7u32;
    for _ in 0..(w as usize * h as usize) {
        x = x.wrapping_mul(1_103_515_245).wrapping_add(12345);
        px.push((x >> 16) as u8);
    }
    let palette = vec![[0u8, 0, 0]; 256];
    let mut gif = GifBuilder::new(w, h, &palette, 0);
    gif.add_frame(&px, 4);
    let bytes = gif.finish();
    let mut p = 13 + 768 + 19 + 19;
    let mut data = Vec::new();
    loop {
        let n = bytes[p] as usize;
        p += 1;
        if n == 0 {
            break;
        }
        assert!(n <= 255);
        data.extend_from_slice(&bytes[p..p + n]);
        p += n;
    }
    assert_eq!(bytes[p], 0x3B);
    assert_eq!(lzw_decode(&data, 8).unwrap(), px);
}

#[test]
fn small_root_widths_round_trip() {
    for min in [2u8, 3, 4] {
        let limit = 1u32 << min;
        let data: Vec<u8> = (0..5000u32).map(|i| ((i * 7 + i / 13) % limit) as u8).collect();
        let enc = lzw_encode(&data, min);
        assert_eq!(lzw_decode(&enc, min).expect("decode"), data, "min code size {min}");
    }
}
