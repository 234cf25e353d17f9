use crustagent::wmf::{interpret, PLACEABLE_KEY};

struct Meta {
    be: bool,
    bytes: Vec<u8>,
}

impl Meta {
    fn new(be: bool, right: i16, bottom: i16) -> Meta {
        let mut m = Meta { be, bytes: Vec::new() };
        m.u32(PLACEABLE_KEY);
        m.u16(0);
        for v in [0i16, 0, right, bottom] {
            m.u16(v as u16);
        }
        m.u16(1440);
        m.u32(0);
        m.u16(0);
        // Standard header: type, header size in words (9), then the rest.
        m.u16(1);
        m.u16(9);
        m.bytes.extend_from_slice(&[0u8; 14]);
        m
    }
    fn u16(&mut self, v: u16) {
        let b = if self.be { v.to_be_bytes() } else { v.to_le_bytes() };
        self.bytes.extend_from_slice(&b);
    }
    fn u32(&mut self, v: u32) {
        let b = if self.be { v.to_be_bytes() } else { v.to_le_bytes() };
        self.bytes.extend_from_slice(&b);
    }
    fn record(&mut self, func: u16, params: &[u16]) {
        self.u32(3 + params.len() as u32);
        self.u16(func);
        for &p in params {
            self.u16(p);
        }
    }
    fn brush(&mut self, style: u16, rgb: [u8; 3]) {
        self.u32(7);
        self.u16(0x02FC);
        self.u16(style);
        self.bytes.extend_from_slice(&[rgb[0], rgb[1], rgb[2], 0]);
        self.u16(0);
    }
    fn eof(mut self) -> Vec<u8> {
        self.record(0, &[]);
        self.bytes
    }
}

fn triangle(m: &mut Meta, pts: [(i16, i16); 3]) {
    let mut params = vec![3u16];
    for (x, y) in pts {
        params.push(x as u16);
        params.push(y as u16);
    }
    m.record(0x0324, &params);
}

#[test]
fn a_selected_brush_fills_a_polygon_on_the_cels_bitmap() {
    let mut m = Meta::new(false, 9, 4);
    m.brush(0, [10, 20, 30]);
    m.record(0x012D, &[0]);
    triangle(&mut m, [(0, 0), (9, 0), (0, 4)]);
    let pic = interpret(&m.eof(), false).unwrap();
    assert_eq!((pic.width, pic.height), (10, 5));
    assert_eq!(pic.polygons.len(), 1);
    assert_eq!(pic.polygons[0].points, vec![(0, 0), (9, 0), (0, 4)]);
    assert_eq!(pic.polygons[0].color, [10, 20, 30]);
    assert!(!pic.polygons[0].winding);
}

#[test]
fn the_default_brush_is_black_and_a_null_brush_paints_nothing() {
    let mut m = Meta::new(false, 9, 9);
    triangle(&mut m, [(0, 0), (5, 0), (0, 5)]);
    m.brush(1, [1, 2, 3]);
    m.record(0x012D, &[0]);
    triangle(&mut m, [(0, 0), (5, 0), (0, 5)]);
    let pic = interpret(&m.eof(), false).unwrap();
    assert_eq!(pic.polygons.len(), 1);
    assert_eq!(pic.polygons[0].color, [0, 0, 0]);
}

#[test]
fn the_window_maps_onto_the_bitmap_rounding_toward_zero() {
    let mut m = Meta::new(true, 9, 9);
    m.record(0x020B, &[(-5i16) as u16, 10]); // origin (x 10, y -5): stored y then x
    m.record(0x020C, &[40, 20]); // extent (x 20, y 40)
    m.record(0x0106, &[2]);
    triangle(&mut m, [(13, -5), (10, 35), (8, 3)]);
    let pic = interpret(&m.eof(), true).unwrap();
    // x: (lx * 10) / 20, y: (ly * 10) / 40
    assert_eq!(pic.polygons[0].points, vec![(1, 0), (0, 10), (-1, 2)]);
    assert!(pic.polygons[0].winding);
}

#[test]
fn deleted_slots_are_reused_and_pens_take_slots() {
    let mut m = Meta::new(false, 3, 3);
    m.record(0x02FA, &[0, 0, 0, 0, 0]); // pen -> slot 0
    m.brush(0, [9, 9, 9]); // slot 1
    m.record(0x01F0, &[0]); // delete the pen
    m.brush(0, [7, 7, 7]); // reuses slot 0
    m.record(0x012D, &[0]);
    triangle(&mut m, [(0, 0), (1, 0), (0, 1)]);
    m.record(0x012D, &[1]);
    triangle(&mut m, [(0, 0), (1, 0), (0, 1)]);
    let pic = interpret(&m.eof(), false).unwrap();
    assert_eq!(pic.polygons.len(), 2);
    assert_eq!(pic.polygons[0].color, [7, 7, 7]);
    assert_eq!(pic.polygons[1].color, [9, 9, 9]);
}

#[test]
fn a_poly_polygon_adds_each_polygon() {
    let mut m = Meta::new(false, 9, 9);
    m.record(0x0538, &[2, 1, 2, 5, 6, 1, 1, 2, 2]);
    let pic = interpret(&m.eof(), false).unwrap();
    assert_eq!(pic.polygons.len(), 2);
    assert_eq!(pic.polygons[0].points, vec![(5, 6)]);
    assert_eq!(pic.polygons[1].points, vec![(1, 1), (2, 2)]);
}

#[test]
fn non_metafiles_and_huge_cels_are_refused() {
    assert!(interpret(&[0u8; 40], false).is_none());
    let m = Meta::new(false, 5000, 3);
    assert!(interpret(&m.eof(), false).is_none());
    let m = Meta::new(false, 4095, 0);
    assert_eq!(interpret(&m.eof(), false).unwrap().width, 4096);
}

#[test]
fn records_stop_at_the_end_of_the_bytes() {
    let mut m = Meta::new(false, 9, 9);
    triangle(&mut m, [(0, 0), (5, 0), (0, 5)]);
    let mut bytes = m.bytes.clone();
    bytes.truncate(bytes.len() - 5);
    let pic = interpret(&bytes, false).unwrap();
    // The cut polygon still reads (missing words read as zero).
    assert_eq!(pic.polygons.len(), 1);
    assert_eq!(pic.polygons[0].points, vec![(0, 0), (5, 0), (0, 0)]);
}
