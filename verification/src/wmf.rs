//! The Windows Metafile subset that Microsoft Actor's vector cels use: window mapping,
//! indirect pen and brush objects, object selection and deletion, the polygon fill mode,
//! and filled polygons. Interpreting a cel gives the polygons to fill, already mapped from
//! the metafile's logical window onto the cel's bitmap; rasterizing them is left to the
//! caller. Enough to draw the characters, not a general metafile engine.

use vstd::prelude::*;

verus! {

/// The key that opens a placeable metafile.
pub const PLACEABLE_KEY: u32 = 0x9AC6_CDD7;

/// Record function numbers.
pub const META_EOF: u16 = 0x0000;
pub const META_SETWINDOWORG: u16 = 0x020B;
pub const META_SETWINDOWEXT: u16 = 0x020C;
pub const META_SETPOLYFILLMODE: u16 = 0x0106;
pub const META_CREATEPENINDIRECT: u16 = 0x02FA;
pub const META_CREATEBRUSHINDIRECT: u16 = 0x02FC;
pub const META_SELECTOBJECT: u16 = 0x012D;
pub const META_DELETEOBJECT: u16 = 0x01F0;
pub const META_POLYGON: u16 = 0x0324;
pub const META_POLYPOLYGON: u16 = 0x0538;

/// The brush style that paints nothing.
pub const BS_NULL: u16 = 1;

/// The largest cel side drawn, in pixels.
pub const MAX_CEL_SIDE: usize = 4096;

/// The `u16` at `p` in the file's byte order, or zero past the end.
pub open spec fn wu16(b: Seq<u8>, be: bool, p: int) -> u16 {
    if 0 <= p && p + 2 <= b.len() {
        if be {
            (b[p] * 256 + b[p + 1]) as u16
        } else {
            (b[p] + 256 * b[p + 1]) as u16
        }
    } else {
        0
    }
}

/// The `u32` at `p` in the file's byte order, or zero past the end.
pub open spec fn wu32(b: Seq<u8>, be: bool, p: int) -> u32 {
    if 0 <= p && p + 4 <= b.len() {
        if be {
            (b[p] * 16777216 + b[p + 1] * 65536 + b[p + 2] * 256 + b[p + 3]) as u32
        } else {
            (b[p] + 256 * b[p + 1] + 65536 * b[p + 2] + 16777216 * b[p + 3]) as u32
        }
    } else {
        0
    }
}

/// The byte at `p`, or zero past the end.
pub open spec fn wbyte(b: Seq<u8>, p: int) -> u8 {
    if 0 <= p < b.len() {
        b[p]
    } else {
        0
    }
}

fn read_u16(b: &[u8], be: bool, p: u128) -> (r: u16)
    ensures
        r == wu16(b@, be, p as int),
{
    let n = b.len() as u128;
    if n < 2 || p > n - 2 {
        return 0;
    }
    let i = p as usize;
    if be {
        b[i] as u16 * 256 + b[i + 1] as u16
    } else {
        b[i] as u16 + 256 * (b[i + 1] as u16)
    }
}

fn read_u32(b: &[u8], be: bool, p: u128) -> (r: u32)
    ensures
        r == wu32(b@, be, p as int),
{
    let n = b.len() as u128;
    if n < 4 || p > n - 4 {
        return 0;
    }
    let i = p as usize;
    if be {
        b[i] as u32 * 16777216 + b[i + 1] as u32 * 65536 + b[i + 2] as u32 * 256 + b[i + 3] as u32
    } else {
        b[i] as u32 + 256 * (b[i + 1] as u32) + 65536 * (b[i + 2] as u32) + 16777216 * (b[i + 3] as u32)
    }
}

fn read_byte(b: &[u8], p: u128) -> (r: u8)
    ensures
        r == wbyte(b@, p as int),
{
    if p < b.len() as u128 {
        b[p as usize]
    } else {
        0
    }
}

/// An entry of the metafile's handle table. Pens are never stroked (fills carry the
/// shapes) but still take a slot: pens and brushes share the table, so selection by slot
/// depends on counting them.
#[derive(Clone, Copy, Debug)]
pub enum WmfObject {
    Pen,
    Brush { style: u16, color: [u8; 3] },
}

/// A polygon to fill: its points on the cel's bitmap, its color, and whether it fills by
/// the nonzero winding rule (else even-odd).
#[derive(Clone, Debug)]
pub struct WmfPolygon {
    pub points: Vec<(i32, i32)>,
    pub color: [u8; 3],
    pub winding: bool,
}

/// A polygon as plain values.
pub struct PolygonView {
    pub points: Seq<(i32, i32)>,
    pub color: [u8; 3],
    pub winding: bool,
}

impl View for WmfPolygon {
    type V = PolygonView;

    open spec fn view(&self) -> PolygonView {
        PolygonView { points: self.points@, color: self.color, winding: self.winding }
    }
}

/// The views of a list of polygons.
pub open spec fn polygons_view(v: Seq<WmfPolygon>) -> Seq<PolygonView> {
    Seq::new(v.len(), |i: int| v[i]@)
}

/// An interpreted cel: its bitmap size and the polygons to fill on it, in order.
#[derive(Clone, Debug)]
pub struct WmfPicture {
    pub width: u32,
    pub height: u32,
    pub polygons: Vec<WmfPolygon>,
}

/// An interpreted cel as plain values.
pub struct PictureView {
    pub width: u32,
    pub height: u32,
    pub polygons: Seq<PolygonView>,
}

impl View for WmfPicture {
    type V = PictureView;

    open spec fn view(&self) -> PictureView {
        PictureView { width: self.width, height: self.height, polygons: polygons_view(self.polygons@) }
    }
}

/// The first free slot of the handle table, if any.
pub open spec fn first_free(objects: Seq<Option<WmfObject>>, n: nat) -> Option<int>
    decreases n,
{
    if n == 0 {
        None
    } else {
        match first_free(objects, (n - 1) as nat) {
            Some(i) => Some(i),
            None => if objects[n - 1] is None {
                Some(n - 1)
            } else {
                None
            },
        }
    }
}

/// The handle table with a new object in its first free slot (or at its end).
pub open spec fn inserted(objects: Seq<Option<WmfObject>>, obj: WmfObject) -> Seq<Option<WmfObject>> {
    match first_free(objects, objects.len()) {
        Some(i) => objects.update(i, Some(obj)),
        None => objects.push(Some(obj)),
    }
}

proof fn lemma_first_free_bound(objects: Seq<Option<WmfObject>>, n: nat)
    requires
        n <= objects.len(),
    ensures
        first_free(objects, n) matches Some(i) ==> 0 <= i < n && objects[i] is None,
        first_free(objects, n) is None ==> forall|j: int| 0 <= j < n ==> objects[j] is Some,
    decreases n,
{
    if n > 0 {
        lemma_first_free_bound(objects, (n - 1) as nat);
    }
}

/// Add an object to the handle table's first free slot.
fn insert_object(objects: &mut Vec<Option<WmfObject>>, obj: WmfObject)
    ensures
        final(objects)@ == inserted(old(objects)@, obj),
{
    let n = objects.len();
    let mut i: usize = 0;
    while i < n
        invariant
            n == objects@.len(),
            objects@ == old(objects)@,
            0 <= i <= n,
            first_free(objects@, i as nat) is None,
        decreases n - i,
    {
        if objects[i].is_none() {
            proof {
                lemma_first_free_bound(objects@, objects@.len());
                lemma_first_free_prefix(objects@, (i + 1) as nat, objects@.len());
            }
            objects.set(i, Some(obj));
            return;
        }
        i += 1;
    }
    objects.push(Some(obj));
}

/// Once a prefix has a free slot, every longer prefix finds the same one.
proof fn lemma_first_free_prefix(objects: Seq<Option<WmfObject>>, i: nat, n: nat)
    requires
        first_free(objects, i) is Some,
        i <= n,
    ensures
        first_free(objects, n) == first_free(objects, i),
    decreases n - i,
{
    if i < n {
        lemma_first_free_prefix(objects, i, (n - 1) as nat);
    }
}

/// `a / d` rounded toward zero.
pub open spec fn tdiv(a: int, d: int) -> int {
    let q = (if a < 0 { -a } else { a }) / (if d < 0 { -d } else { d });
    if (a < 0) != (d < 0) {
        -q
    } else {
        q
    }
}

/// A logical coordinate `l` mapped from a window `ext` long onto `size` pixels (left as is
/// for an empty window).
pub open spec fn map_coord(l: int, ext: int, size: int) -> int {
    if ext != 0 {
        tdiv(l * size, ext)
    } else {
        l
    }
}

/// The point at `at`, mapped from the window at `org` of extent `ext` onto a `w` by `h`
/// bitmap.
pub open spec fn wmf_point(b: Seq<u8>, be: bool, at: int, org: (i32, i32), ext: (i32, i32), w: int, h: int) -> (i32, i32) {
    let lx = wu16(b, be, at) as i16 - org.0;
    let ly = wu16(b, be, at + 2) as i16 - org.1;
    (map_coord(lx, ext.0 as int, w) as i32, map_coord(ly, ext.1 as int, h) as i32)
}

/// `n` points from `at`, four bytes apart.
pub open spec fn wmf_points(b: Seq<u8>, be: bool, at: int, n: nat, org: (i32, i32), ext: (i32, i32), w: int, h: int) -> Seq<(i32, i32)> {
    Seq::new(n, |k: int| wmf_point(b, be, at + 4 * k, org, ext, w, h))
}

/// The interpreter's state after some records: where the next record starts, the handle
/// table, the selected brush's color (`None` for a null brush), the fill mode, the window,
/// and the polygons so far.
pub struct WmfState {
    pub p: int,
    pub objects: Seq<Option<WmfObject>>,
    pub brush: Option<[u8; 3]>,
    pub winding: bool,
    pub org: (i32, i32),
    pub ext: (i32, i32),
    pub polygons: Seq<PolygonView>,
}

/// The first `k` of a poly-polygon's `count` polygons, whose point counts follow its count
/// word at `params`; and where the next polygon's points start.
pub open spec fn poly_polygons(
    b: Seq<u8>,
    be: bool,
    params: int,
    count: int,
    k: nat,
    org: (i32, i32),
    ext: (i32, i32),
    winding: bool,
    color: [u8; 3],
    w: int,
    h: int,
) -> (Seq<PolygonView>, int)
    decreases k,
{
    if k == 0 {
        (Seq::empty(), params + 2 + count * 2)
    } else {
        let (prev, pp) = poly_polygons(b, be, params, count, (k - 1) as nat, org, ext, winding, color, w, h);
        let c = wu16(b, be, params + 2 + (k - 1) * 2);
        (
            prev.push(PolygonView { points: wmf_points(b, be, pp, c as nat, org, ext, w, h), color, winding }),
            pp + c * 4,
        )
    }
}

/// What record `func` with parameters at `params` does to the state.
pub open spec fn wmf_record(b: Seq<u8>, be: bool, func: u16, params: int, s: WmfState, w: int, h: int) -> WmfState {
    if func == META_SETWINDOWORG {
        WmfState { org: (wu16(b, be, params + 2) as i16 as i32, wu16(b, be, params) as i16 as i32), ..s }
    } else if func == META_SETWINDOWEXT {
        WmfState { ext: (wu16(b, be, params + 2) as i16 as i32, wu16(b, be, params) as i16 as i32), ..s }
    } else if func == META_SETPOLYFILLMODE {
        WmfState { winding: wu16(b, be, params) == 2, ..s }
    } else if func == META_CREATEPENINDIRECT {
        WmfState { objects: inserted(s.objects, WmfObject::Pen), ..s }
    } else if func == META_CREATEBRUSHINDIRECT {
        let obj = WmfObject::Brush {
            style: wu16(b, be, params),
            color: [wbyte(b, params + 2), wbyte(b, params + 3), wbyte(b, params + 4)],
        };
        WmfState { objects: inserted(s.objects, obj), ..s }
    } else if func == META_SELECTOBJECT {
        let idx = wu16(b, be, params) as int;
        if idx < s.objects.len() {
            match s.objects[idx] {
                Some(WmfObject::Brush { style, color }) => WmfState {
                    brush: if style == BS_NULL {
                        None
                    } else {
                        Some(color)
                    },
                    ..s
                },
                _ => s,
            }
        } else {
            s
        }
    } else if func == META_DELETEOBJECT {
        let idx = wu16(b, be, params) as int;
        if idx < s.objects.len() {
            WmfState { objects: s.objects.update(idx, None), ..s }
        } else {
            s
        }
    } else if func == META_POLYGON {
        match s.brush {
            None => s,
            Some(color) => WmfState {
                polygons: s.polygons.push(
                    PolygonView {
                        points: wmf_points(b, be, params + 2, wu16(b, be, params) as nat, s.org, s.ext, w, h),
                        color,
                        winding: s.winding,
                    },
                ),
                ..s
            },
        }
    } else if func == META_POLYPOLYGON {
        match s.brush {
            None => s,
            Some(color) => {
                let count = wu16(b, be, params) as int;
                WmfState {
                    polygons: s.polygons + poly_polygons(b, be, params, count, count as nat, s.org, s.ext, s.winding, color, w, h).0,
                    ..s
                }
            },
        }
    } else {
        s
    }
}

/// Whether the record at `s.p` ends the metafile: it does not fit, is the end record, or
/// claims fewer than three words.
pub open spec fn wmf_done(b: Seq<u8>, be: bool, s: WmfState) -> bool {
    s.p + 6 > b.len() || wu16(b, be, s.p + 4) == META_EOF || wu32(b, be, s.p) < 3
}

/// The state after at most `fuel` more records.
pub open spec fn wmf_run(b: Seq<u8>, be: bool, s: WmfState, w: int, h: int, fuel: nat) -> WmfState
    decreases fuel,
{
    if fuel == 0 || wmf_done(b, be, s) {
        s
    } else {
        let next = wmf_record(b, be, wu16(b, be, s.p + 4), s.p + 6, s, w, h);
        wmf_run(b, be, WmfState { p: s.p + wu32(b, be, s.p) * 2, ..next }, w, h, (fuel - 1) as nat)
    }
}

/// A cel side from two bounding coordinates: their 16-bit difference's magnitude plus one.
pub open spec fn cel_side(lo: u16, hi: u16) -> int {
    let d = (hi as i16 - lo as i16) as i16 as int;
    (if d < 0 { -d } else { d }) + 1
}

/// The picture a placeable metafile draws: `None` without the placeable key or for a cel
/// over `MAX_CEL_SIDE` pixels a side. The bounding box sizes the bitmap; the records after
/// the standard header are interpreted from a black brush, even-odd filling and a window
/// the size of the bitmap.
pub open spec fn spec_picture(b: Seq<u8>, be: bool) -> Option<PictureView> {
    if wu32(b, be, 0) != PLACEABLE_KEY {
        None
    } else {
        let w = cel_side(wu16(b, be, 6), wu16(b, be, 10));
        let h = cel_side(wu16(b, be, 8), wu16(b, be, 12));
        if w > MAX_CEL_SIDE || h > MAX_CEL_SIDE {
            None
        } else {
            let s0 = WmfState {
                p: 22 + wu16(b, be, 24) * 2,
                objects: Seq::empty(),
                brush: Some([0u8, 0, 0]),
                winding: false,
                org: (0, 0),
                ext: (w as i32, h as i32),
                polygons: Seq::empty(),
            };
            Some(PictureView { width: w as u32, height: h as u32, polygons: wmf_run(b, be, s0, w, h, b.len()).polygons })
        }
    }
}

/// `a / d` rounded toward zero, for the small values the window mapping produces.
fn trunc_div(a: i64, d: i64) -> (q: i64)
    requires
        d != 0,
        -0x1_0000_0000_0000 <= a <= 0x1_0000_0000_0000,
        -0x1_0000_0000_0000 <= d <= 0x1_0000_0000_0000,
    ensures
        q == tdiv(a as int, d as int),
{
    let ua = if a < 0 { -a } else { a };
    let ud = if d < 0 { -d } else { d };
    let m = ua / ud;
    if (a < 0) != (d < 0) {
        -m
    } else {
        m
    }
}

proof fn lemma_tdiv_bound(a: int, d: int)
    requires
        d != 0,
    ensures
        -(if a < 0 { -a } else { a }) <= tdiv(a, d) <= (if a < 0 { -a } else { a }),
{
    let ua = if a < 0 { -a } else { a };
    let ud = if d < 0 { -d } else { d };
    assert(ua / ud <= ua) by (nonlinear_arith)
        requires
            ua >= 0,
            ud >= 1,
    ;
    assert(ua / ud >= 0) by (nonlinear_arith)
        requires
            ua >= 0,
            ud >= 1,
    ;
}

/// Read `n` points from `at`, mapped from the window onto the `w` by `h` bitmap.
fn read_points(b: &[u8], be: bool, at: u128, n: u16, org: (i32, i32), ext: (i32, i32), w: u32, h: u32) -> (pts: Vec<(i32, i32)>)
    requires
        at <= 0x1_0000_0000_0000_0000_0000,
        -0x8000 <= org.0 <= 0x7FFF,
        -0x8000 <= org.1 <= 0x7FFF,
        -0x8000 <= ext.0 <= 0x7FFF,
        -0x8000 <= ext.1 <= 0x7FFF,
        1 <= w <= 4096,
        1 <= h <= 4096,
    ensures
        pts@ == wmf_points(b@, be, at as int, n as nat, org, ext, w as int, h as int),
{
    let mut pts: Vec<(i32, i32)> = Vec::new();
    let mut k: u16 = 0;
    while k < n
        invariant
            0 <= k <= n,
            at <= 0x1_0000_0000_0000_0000_0000,
            -0x8000 <= org.0 <= 0x7FFF,
            -0x8000 <= org.1 <= 0x7FFF,
            -0x8000 <= ext.0 <= 0x7FFF,
            -0x8000 <= ext.1 <= 0x7FFF,
            1 <= w <= 4096,
            1 <= h <= 4096,
            pts@ == wmf_points(b@, be, at as int, k as nat, org, ext, w as int, h as int),
        decreases n - k,
    {
        let p = at + 4 * (k as u128);
        let lx = read_u16(b, be, p) as i16 as i64 - org.0 as i64;
        let ly = read_u16(b, be, p + 2) as i16 as i64 - org.1 as i64;
        assert(-0x1_0000 * 4096 <= lx * w <= 0x1_0000 * 4096) by (nonlinear_arith)
            requires
                -0x1_0000 <= lx <= 0x1_0000,
                1 <= w <= 4096,
        ;
        assert(-0x1_0000 * 4096 <= ly * h <= 0x1_0000 * 4096) by (nonlinear_arith)
            requires
                -0x1_0000 <= ly <= 0x1_0000,
                1 <= h <= 4096,
        ;
        let x: i64 = if ext.0 != 0 {
            trunc_div(lx * (w as i64), ext.0 as i64)
        } else {
            lx
        };
        let y: i64 = if ext.1 != 0 {
            trunc_div(ly * (h as i64), ext.1 as i64)
        } else {
            ly
        };
        proof {
            if ext.0 != 0 {
                lemma_tdiv_bound(lx * w, ext.0 as int);
            }
            if ext.1 != 0 {
                lemma_tdiv_bound(ly * h, ext.1 as int);
            }
        }
        let ghost prev = pts@;
        pts.push((x as i32, y as i32));
        k += 1;
        assert(pts@ =~= wmf_points(b@, be, at as int, k as nat, org, ext, w as int, h as int)) by {
            assert(pts@ =~= prev.push(wmf_point(b@, be, at + 4 * (k - 1), org, ext, w as int, h as int)));
        }
    }
    pts
}

/// The interpreter's working state.
struct Interp {
    objects: Vec<Option<WmfObject>>,
    brush: Option<[u8; 3]>,
    winding: bool,
    org: (i32, i32),
    ext: (i32, i32),
    polygons: Vec<WmfPolygon>,
}

impl Interp {
    spec fn state(&self, p: int) -> WmfState {
        WmfState {
            p,
            objects: self.objects@,
            brush: self.brush,
            winding: self.winding,
            org: self.org,
            ext: self.ext,
            polygons: polygons_view(self.polygons@),
        }
    }

    spec fn small(&self) -> bool {
        &&& -0x8000 <= self.org.0 <= 0x7FFF
        &&& -0x8000 <= self.org.1 <= 0x7FFF
        &&& -0x8000 <= self.ext.0 <= 0x7FFF
        &&& -0x8000 <= self.ext.1 <= 0x7FFF
    }
}

/// Add the polygons of a poly-polygon record.
fn poly_polygon(b: &[u8], be: bool, params: u128, color: [u8; 3], st: &mut Interp, w: u32, h: u32)
    requires
        params <= 0x1_0000_0000_0000_0000,
        old(st).small(),
        1 <= w <= 4096,
        1 <= h <= 4096,
    ensures
        final(st).small(),
        final(st).state(0) == (WmfState {
            polygons: old(st).state(0).polygons + poly_polygons(
                b@,
                be,
                params as int,
                wu16(b@, be, params as int) as int,
                wu16(b@, be, params as int) as nat,
                old(st).org,
                old(st).ext,
                old(st).winding,
                color,
                w as int,
                h as int,
            ).0,
            ..old(st).state(0)
        }),
{
    let ghost s = old(st).state(0);
    let count = read_u16(b, be, params);
    let mut pp: u128 = params + 2 + 2 * (count as u128);
    let mut k: u16 = 0;
    assert(polygons_view(st.polygons@) =~= s.polygons + poly_polygons(b@, be, params as int, count as int, 0, s.org, s.ext, s.winding, color, w as int, h as int).0);
    while k < count
        invariant
            0 <= k <= count,
            count == wu16(b@, be, params as int),
            params <= 0x1_0000_0000_0000_0000,
            1 <= w <= 4096,
            1 <= h <= 4096,
            st.small(),
            st.org == s.org,
            st.ext == s.ext,
            st.winding == s.winding,
            st.objects@ == s.objects,
            st.brush == s.brush,
            pp as int == poly_polygons(b@, be, params as int, count as int, k as nat, s.org, s.ext, s.winding, color, w as int, h as int).1,
            pp as int <= params as int + 2 + 2 * (count as int) + 0x4_0000 * (k as int),
            polygons_view(st.polygons@) == s.polygons + poly_polygons(b@, be, params as int, count as int, k as nat, s.org, s.ext, s.winding, color, w as int, h as int).0,
        decreases count - k,
    {
        let c = read_u16(b, be, params + 2 + 2 * (k as u128));
        assert(pp as int <= 0x1_0000_0000_0000_0000 + 2 + 2 * 0xFFFF + 0x4_0000 * 0xFFFF) by (nonlinear_arith)
            requires
                pp as int <= params as int + 2 + 2 * (count as int) + 0x4_0000 * (k as int),
                params <= 0x1_0000_0000_0000_0000,
                count <= 0xFFFF,
                k <= 0xFFFF,
        ;
        let points = read_points(b, be, pp, c, st.org, st.ext, w, h);
        let ghost before = polygons_view(st.polygons@);
        let poly = WmfPolygon { points, color, winding: st.winding };
        let ghost pv = poly@;
        st.polygons.push(poly);
        assert(polygons_view(st.polygons@) =~= before.push(pv));
        pp = pp + 4 * (c as u128);
        k += 1;
        assert(polygons_view(st.polygons@) =~= s.polygons + poly_polygons(b@, be, params as int, count as int, k as nat, s.org, s.ext, s.winding, color, w as int, h as int).0);
    }
}

/// Apply record `func` with parameters at `params`.
#[verifier::rlimit(40)]
fn apply_record(b: &[u8], be: bool, func: u16, params: u128, st: &mut Interp, w: u32, h: u32)
    requires
        params <= 0x1_0000_0000_0000_0000,
        old(st).small(),
        1 <= w <= 4096,
        1 <= h <= 4096,
    ensures
        final(st).small(),
        final(st).state(0) == wmf_record(b@, be, func, params as int, old(st).state(0), w as int, h as int),
{
    if func == META_SETWINDOWORG {
        st.org = (read_u16(b, be, params + 2) as i16 as i32, read_u16(b, be, params) as i16 as i32);
    } else if func == META_SETWINDOWEXT {
        st.ext = (read_u16(b, be, params + 2) as i16 as i32, read_u16(b, be, params) as i16 as i32);
    } else if func == META_SETPOLYFILLMODE {
        st.winding = read_u16(b, be, params) == 2;
    } else if func == META_CREATEPENINDIRECT {
        insert_object(&mut st.objects, WmfObject::Pen);
    } else if func == META_CREATEBRUSHINDIRECT {
        let style = read_u16(b, be, params);
        let color = [read_byte(b, params + 2), read_byte(b, params + 3), read_byte(b, params + 4)];
        insert_object(&mut st.objects, WmfObject::Brush { style, color });
    } else if func == META_SELECTOBJECT {
        let idx = read_u16(b, be, params) as usize;
        if idx < st.objects.len() {
            match st.objects[idx] {
                Some(WmfObject::Brush { style, color }) => {
                    st.brush = if style == BS_NULL {
                        None
                    } else {
                        Some(color)
                    };
                },
                _ => {},
            }
        }
    } else if func == META_DELETEOBJECT {
        let idx = read_u16(b, be, params) as usize;
        if idx < st.objects.len() {
            st.objects.set(idx, None);
        }
    } else if func == META_POLYGON {
        if let Some(color) = st.brush {
            let n = read_u16(b, be, params);
            let points = read_points(b, be, params + 2, n, st.org, st.ext, w, h);
            let ghost before = polygons_view(st.polygons@);
            let poly = WmfPolygon { points, color, winding: st.winding };
            let ghost pv = poly@;
            st.polygons.push(poly);
            assert(polygons_view(st.polygons@) =~= before.push(pv));
        }
    } else if func == META_POLYPOLYGON {
        if let Some(color) = st.brush {
            poly_polygon(b, be, params, color, st, w, h);
        }
    }
}

/// A record leaves the position where it was.
proof fn lemma_record_keeps_position(b: Seq<u8>, be: bool, func: u16, params: int, s: WmfState, w: int, h: int)
    ensures
        wmf_record(b, be, func, params, s, w, h) == (WmfState {
            p: s.p,
            ..wmf_record(b, be, func, params, WmfState { p: 0, ..s }, w, h)
        }),
{
}

/// Interpret a placeable metafile cel (in the file's byte order): the bitmap size its
/// bounding box gives and the polygons its records fill, mapped onto that bitmap. `None`
/// without the placeable key or for a cel over `MAX_CEL_SIDE` pixels a side.
#[verifier::rlimit(40)]
pub fn interpret(bytes: &[u8], big_endian: bool) -> (r: Option<WmfPicture>)
    ensures
        match spec_picture(bytes@, big_endian) {
            None => r is None,
            Some(v) => r matches Some(pic) && pic@ == v,
        },
{
    let ghost b = bytes@;
    let be = big_endian;
    if read_u32(bytes, be, 0) != PLACEABLE_KEY {
        return None;
    }
    let left = read_u16(bytes, be, 6) as i16;
    let top = read_u16(bytes, be, 8) as i16;
    let right = read_u16(bytes, be, 10) as i16;
    let bottom = read_u16(bytes, be, 12) as i16;
    let dx = (right as i32 - left as i32) as i16 as i32;
    let dy = (bottom as i32 - top as i32) as i16 as i32;
    let w = (if dx < 0 { -dx } else { dx }) + 1;
    let h = (if dy < 0 { -dy } else { dy }) + 1;
    if w > 4096 || h > 4096 {
        return None;
    }
    let w = w as u32;
    let h = h as u32;
    let mut p: u128 = 22 + read_u16(bytes, be, 24) as u128 * 2;
    let mut st = Interp {
        objects: Vec::new(),
        brush: Some([0, 0, 0]),
        winding: false,
        org: (0, 0),
        ext: (w as i32, h as i32),
        polygons: Vec::new(),
    };
    assert(st.objects@ =~= Seq::<Option<WmfObject>>::empty());
    assert(polygons_view(st.polygons@) =~= Seq::<PolygonView>::empty());
    let ghost s0 = st.state(p as int);
    assert(s0 == (WmfState {
        p: 22 + wu16(b, be, 24) * 2,
        objects: Seq::empty(),
        brush: Some([0u8, 0, 0]),
        winding: false,
        org: (0, 0),
        ext: (w as i32, h as i32),
        polygons: Seq::empty(),
    }));
    let ghost target = wmf_run(b, be, s0, w as int, h as int, b.len());
    let n = bytes.len() as u128;
    let ghost mut steps: nat = 0;
    loop
        invariant
            b == bytes@,
            n == b.len(),
            n <= 0xFFFF_FFFF_FFFF_FFFF,
            1 <= w <= 4096,
            1 <= h <= 4096,
            st.small(),
            steps <= b.len(),
            p >= 6 * steps,
            p <= n + 0x2_0000_0000,
            wmf_run(b, be, st.state(p as int), w as int, h as int, (b.len() - steps) as nat) == target,
        ensures
            st.state(p as int) == target,
        decreases n + 0x2_0000_0001 - p,
    {
        if p + 6 > n {
            assert(wmf_done(b, be, st.state(p as int)));
            break;
        }
        let size = read_u32(bytes, be, p);
        let func = read_u16(bytes, be, p + 4);
        if func == META_EOF || size < 3 {
            assert(wmf_done(b, be, st.state(p as int)));
            break;
        }
        assert(b.len() - steps >= 1);
        let ghost before = st.state(p as int);
        apply_record(bytes, be, func, p + 6, &mut st, w, h);
        proof {
            lemma_record_keeps_position(b, be, func, p + 6, before, w as int, h as int);
            assert(st.state(p as int) == wmf_record(b, be, func, p + 6, before, w as int, h as int));
        }
        p = p + size as u128 * 2;
        proof {
            steps = steps + 1;
        }
    }
    let pic = WmfPicture { width: w, height: h, polygons: st.polygons };
    Some(pic)
}

} // verus!
