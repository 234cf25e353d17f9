//! Parser for the Actor Character Table (`.act`) format: the character files of Microsoft
//! Actor, the predecessor of Microsoft Agent that powered the Office 97/98 Assistant.
//!
//! An ACT file is a small header (identity, palette, default frame size) followed by a
//! table of seven sections (artwork directory, sounds, animation and frame tables,
//! strings) and a pool of artwork cels. The signature is `"LP"` for little-endian PC
//! files and `"PL"` for big-endian classic-Mac files, whose whole structure is byte-swapped.
//!
//! The common PC artwork form is an Aldus Placeable Windows Metafile per cel (a vector
//! drawing); newer PC characters store `MNAK`-tagged compressed blocks instead. Parsing
//! locates the cels and decodes the poses, the frame graph and the named actions of the
//! metafile characters; rasterizing a metafile is the renderer's business, so the pose
//! and object compositors here take the rasterized cels as input.

use crate::error::Error;
use crate::model::{Color, Rgba};
use crate::textutil::{eq_ignore_case, str_eq_ignore_case, string_from_utf8_lossy, utf8_lossy};
use vstd::prelude::*;
use vstd::slice::slice_subrange;

verus! {

/// Signature bytes of a little-endian (PC) actor file.
pub const ACT_SIGNATURE_LE: [u8; 2] = [0x4C, 0x50];

/// Signature bytes of a big-endian (classic-Mac) actor file.
pub const ACT_SIGNATURE_BE: [u8; 2] = [0x50, 0x4C];

/// The Aldus Placeable Metafile magic key that begins each metafile cel.
pub const PLACEABLE_KEY: u32 = 0x9AC6_CDD7;

/// How a cel's artwork is encoded.
#[derive(Clone, Copy, PartialEq, Eq, Debug, Structural)]
pub enum CelFormat {
    /// Aldus Placeable Windows Metafile (vector).
    Wmf,
    /// Compressed bitmap form used by some newer PC characters (not yet decoded).
    Bitmap,
    /// The classic-Mac artwork codec (not yet decoded).
    MacBitmap,
}

/// One artwork cel: a slice of the file plus, for metafile cels, its placeable bounding
/// box `(left, top, right, bottom)` in the cels' shared logical space.
#[derive(Clone, Copy, Debug)]
pub struct Cel {
    pub format: CelFormat,
    /// Byte offset of the cel within the file.
    pub offset: usize,
    /// Byte length of the cel.
    pub len: usize,
    pub bounds: Option<(i16, i16, i16, i16)>,
}

/// One layered part of a pose: an image cel placed at a destination rectangle
/// `(left, top, right, bottom)` in twips (1/1440 inch), signed.
#[derive(Clone, Copy, Debug)]
pub struct Part {
    /// Index into the cels.
    pub image: u16,
    pub rect: (i16, i16, i16, i16),
}

/// A pose: a complete character image built by layering image parts.
#[derive(Clone, Debug, Default)]
pub struct Pose {
    pub parts: Vec<Part>,
}

/// How an animation frame proceeds after its pose is shown.
#[derive(Clone, Copy, Debug, PartialEq, Eq, Structural)]
pub enum Branch {
    /// Advance to the next frame in order.
    Next,
    /// Unconditional jump to another frame index.
    Jump(u16),
    /// Branch to a frame with a probability weight.
    Probable { target: u16, weight: u16 },
}

/// One animation frame: show an object for a duration, then follow its branch. An object
/// below the cel count is a bare cel; otherwise it names pose `object - cels`.
#[derive(Clone, Copy, Debug)]
pub struct AnimFrame {
    pub object: u16,
    /// On-screen time in milliseconds.
    pub duration_ms: u16,
    pub branch: Branch,
}

/// A named animation, referenced by its Microsoft Actor action id; `first_frame`
/// indexes the frame graph.
#[derive(Clone, Debug)]
pub struct Action {
    /// Microsoft Actor action id (1 = Idle, 2 = Greeting, 24 = Thinking, ...).
    pub id: u16,
    /// The Office name for `id`.
    pub name: String,
    /// Number of consecutive frame-list entries (usually 1).
    pub count: u16,
    /// Starting index into the frame graph.
    pub first_frame: u16,
}

/// A big- or little-endian `u16` at `p`, 0 past the end.
pub open spec fn rd16(b: Seq<u8>, be: bool, p: int) -> u16 {
    if 0 <= p && p + 2 <= b.len() {
        if be {
            (b[p] * 256 + b[p + 1]) as u16
        } else {
            (b[p] + b[p + 1] * 256) as u16
        }
    } else {
        0
    }
}

/// A big- or little-endian `u32` at `p`, 0 past the end.
pub open spec fn rd32(b: Seq<u8>, be: bool, p: int) -> u32 {
    if 0 <= p && p + 4 <= b.len() {
        if be {
            (b[p] * 16777216 + b[p + 1] * 65536 + b[p + 2] * 256 + b[p + 3]) as u32
        } else {
            (b[p] + b[p + 1] * 256 + b[p + 2] * 65536 + b[p + 3] * 16777216) as u32
        }
    } else {
        0
    }
}

/// An endian-aware view over the file bytes.
struct Rdr<'a> {
    b: &'a [u8],
    be: bool,
}

impl<'a> Rdr<'a> {
    fn u16(&self, p: u64) -> (v: u16)
        ensures
            v == rd16(self.b@, self.be, p as int),
    {
        let len = self.b.len() as u64;
        if len < 2 || p > len - 2 {
            return 0;
        }
        let q = p as usize;
        if self.be {
            self.b[q] as u16 * 256 + self.b[q + 1] as u16
        } else {
            self.b[q] as u16 + self.b[q + 1] as u16 * 256
        }
    }

    fn i16(&self, p: u64) -> (v: i16)
        ensures
            v == rd16(self.b@, self.be, p as int) as i16,
    {
        self.u16(p) as i16
    }

    fn u32(&self, p: u64) -> (v: u32)
        ensures
            v == rd32(self.b@, self.be, p as int),
    {
        let len = self.b.len() as u64;
        if len < 4 || p > len - 4 {
            return 0;
        }
        let q = p as usize;
        let (a, b, c, d) = (self.b[q] as u32, self.b[q + 1] as u32, self.b[q + 2] as u32, self.b[q + 3] as u32);
        if self.be {
            a * 16777216 + b * 65536 + c * 256 + d
        } else {
            a + b * 256 + c * 65536 + d * 16777216
        }
    }
}

/// Whether `needle` occurs in `hay` at `i`.
pub open spec fn matches_at(hay: Seq<u8>, needle: Seq<u8>, i: int) -> bool {
    0 <= i && i + needle.len() <= hay.len() && hay.subrange(i, i + needle.len()) == needle
}

/// The first occurrence of `needle` in `hay` at or after `i`.
pub open spec fn first_match_from(hay: Seq<u8>, needle: Seq<u8>, i: int) -> Option<int>
    decreases hay.len() - i,
{
    if i < 0 || i >= hay.len() || i + needle.len() > hay.len() {
        None
    } else if matches_at(hay, needle, i) {
        Some(i)
    } else {
        first_match_from(hay, needle, i + 1)
    }
}

/// The first occurrence of a non-empty `needle` in `hay`.
pub open spec fn first_match(hay: Seq<u8>, needle: Seq<u8>) -> Option<int> {
    if needle.len() == 0 {
        None
    } else {
        first_match_from(hay, needle, 0)
    }
}

/// Find the first occurrence of `needle` in `hay`.
pub fn find_subslice(hay: &[u8], needle: &[u8]) -> (r: Option<usize>)
    ensures
        match first_match(hay@, needle@) {
            Some(i) => r == Some(i as usize),
            None => r is None,
        },
{
    let n = needle.len();
    if n == 0 || hay.len() < n {
        proof {
            if n > 0 {
                assert(first_match_from(hay@, needle@, 0) is None);
            }
        }
        return None;
    }
    let mut i: usize = 0;
    let hl = hay.len();
    while i <= hay.len() - n
        invariant
            hl == hay@.len(),
            n == needle@.len(),
            n > 0,
            n <= hay@.len(),
            0 <= i <= hay@.len() - n + 1,
            first_match(hay@, needle@) == first_match_from(hay@, needle@, i as int),
        decreases hay@.len() - n + 1 - i,
    {
        let mut k: usize = 0;
        let mut same = true;
        while k < n
            invariant
                n == needle@.len(),
                i + n <= hay@.len(),
                hay@.len() <= usize::MAX,
                0 <= k <= n,
                same == (forall|j: int| 0 <= j < k ==> hay@[i + j] == needle@[j]),
            decreases n - k,
        {
            if hay[i + k] != needle[k] {
                same = false;
            }
            k += 1;
        }
        if same {
            assert(hay@.subrange(i as int, i + n) =~= needle@);
            return Some(i);
        }
        assert(!(hay@.subrange(i as int, i + n) =~= needle@) ==> !matches_at(hay@, needle@, i as int));
        proof {
            if matches_at(hay@, needle@, i as int) {
                let k2 = choose|j: int| 0 <= j < n && hay@[i + j] != needle@[j];
                assert(hay@.subrange(i as int, i + n)[k2] == hay@[i + k2]);
            }
        }
        i += 1;
    }
    None
}

/// The `RIFF`/`WAVE` streams of `b` scanning from `i`: at each position where a complete
/// stream starts (the chunk size plus 8 bytes, at least 12, within the buffer) take it and
/// continue after it; otherwise move one byte on.
pub open spec fn wave_streams(b: Seq<u8>, i: int) -> Seq<Seq<u8>>
    decreases b.len() - i,
{
    if i < 0 || i + 12 > b.len() {
        Seq::empty()
    } else {
        let total = rd32(b, false, i + 4) + 8;
        if b.subrange(i, i + 4) == seq![0x52u8, 0x49, 0x46, 0x46] && b.subrange(i + 8, i + 12) == seq![
            0x57u8,
            0x41,
            0x56,
            0x45,
        ] && total >= 12 && i + total <= b.len() {
            seq![b.subrange(i, i + total)] + wave_streams(b, i + total)
        } else {
            wave_streams(b, i + 1)
        }
    }
}

/// Every complete `RIFF`/`WAVE` stream in a buffer, in order.
pub fn extract_wave_streams(data: &[u8]) -> (out: Vec<Vec<u8>>)
    ensures
        Seq::new(out@.len(), |k: int| out@[k]@) == wave_streams(data@, 0),
{
    let mut out: Vec<Vec<u8>> = Vec::new();
    let mut i: usize = 0;
    let riff: [u8; 4] = [0x52, 0x49, 0x46, 0x46];
    let wave: [u8; 4] = [0x57, 0x41, 0x56, 0x45];
    let r = Rdr { b: data, be: false };
    while data.len() >= 12 && i <= data.len() - 12
        invariant
            r.b == data,
            !r.be,
            0 <= i <= data@.len(),
            riff@ == seq![0x52u8, 0x49, 0x46, 0x46],
            wave@ == seq![0x57u8, 0x41, 0x56, 0x45],
            Seq::new(out@.len(), |k: int| out@[k]@) + wave_streams(data@, i as int) == wave_streams(data@, 0),
        decreases data@.len() - i,
    {
        let head = slice_subrange(data, i, i + 4);
        let tag = slice_subrange(data, i + 8, i + 12);
        let is_riff = head[0] == riff[0] && head[1] == riff[1] && head[2] == riff[2] && head[3] == riff[3];
        let is_wave = tag[0] == wave[0] && tag[1] == wave[1] && tag[2] == wave[2] && tag[3] == wave[3];
        assert(is_riff == (data@.subrange(i as int, i + 4) =~= seq![0x52u8, 0x49, 0x46, 0x46]));
        assert(is_wave == (data@.subrange(i + 8, i + 12) =~= seq![0x57u8, 0x41, 0x56, 0x45]));
        let total = r.u32(i as u64 + 4) as u64 + 8;
        if is_riff && is_wave && total >= 12 && total <= (data.len() - i) as u64 {
            let t = total as usize;
            let ghost before = Seq::new(out@.len(), |k: int| out@[k]@);
            out.push(vstd::slice::slice_to_vec(slice_subrange(data, i, i + t)));
            assert(Seq::new(out@.len(), |k: int| out@[k]@) =~= before.push(data@.subrange(i as int, i + t)));
            assert(before.push(data@.subrange(i as int, i + t)) + wave_streams(data@, i + t) =~= before + (seq![data@.subrange(i as int, i + t)] + wave_streams(data@, i + t)));
            i += t;
        } else {
            i += 1;
        }
    }
    assert(wave_streams(data@, i as int) =~= Seq::<Seq<u8>>::empty());
    assert(Seq::new(out@.len(), |k: int| out@[k]@) + Seq::<Seq<u8>>::empty() =~= Seq::new(out@.len(), |k: int| out@[k]@));
    out
}


/// The section table at `q`: seven ascending offsets inside the file, the first past the
/// small header counts, the last near the end of the file.
pub open spec fn table_at(b: Seq<u8>, be: bool, q: int) -> bool {
    let o0 = rd32(b, be, q);
    let o1 = rd32(b, be, q + 4);
    let o2 = rd32(b, be, q + 8);
    let o3 = rd32(b, be, q + 12);
    let o4 = rd32(b, be, q + 16);
    let o5 = rd32(b, be, q + 20);
    let o6 = rd32(b, be, q + 24);
    &&& o0 > 0x1000
    &&& o0 < o1 && o1 < o2 && o2 < o3 && o3 < o4 && o4 < o5 && o5 < o6
    &&& o6 < b.len()
    &&& o6 > b.len() * 85 / 100
}

/// The first section table position in `[q, end)`.
pub open spec fn first_table(b: Seq<u8>, be: bool, q: int, end: int) -> Option<int>
    decreases end - q,
{
    if q >= end {
        None
    } else if table_at(b, be, q) {
        Some(q)
    } else {
        first_table(b, be, q + 1, end)
    }
}

/// Where the section table is searched: from `0x12` to 28 bytes before the end of the
/// file, within the first `0x200` bytes.
pub open spec fn table_scan_end(len: int) -> int {
    let e = if len >= 28 { len - 28 } else { 0 };
    if e < 0x200 { e } else { 0x200 }
}

/// The seven section offsets at `q`.
pub open spec fn sections_at(b: Seq<u8>, be: bool, q: int) -> Seq<u32> {
    seq![
        rd32(b, be, q),
        rd32(b, be, q + 4),
        rd32(b, be, q + 8),
        rd32(b, be, q + 12),
        rd32(b, be, q + 16),
        rd32(b, be, q + 20),
        rd32(b, be, q + 24),
    ]
}

/// Locate the section table.
fn find_table(r: &Rdr) -> (t: Option<usize>)
    ensures
        match first_table(r.b@, r.be, 0x12, table_scan_end(r.b@.len() as int)) {
            Some(q) => t == Some(q as usize),
            None => t is None,
        },
{
    let len = r.b.len();
    let scan_end = if len >= 28 { len - 28 } else { 0 };
    let end = if scan_end < 0x200 { scan_end } else { 0x200 };
    let mut q: usize = 0x12;
    while q < end
        invariant
            len == r.b@.len(),
            end == table_scan_end(len as int),
            0x12 <= q,
            first_table(r.b@, r.be, 0x12, end as int) == first_table(r.b@, r.be, q as int, end as int),
        decreases end - q,
    {
        let qq = q as u64;
        let o0 = r.u32(qq);
        let o1 = r.u32(qq + 4);
        let o2 = r.u32(qq + 8);
        let o3 = r.u32(qq + 12);
        let o4 = r.u32(qq + 16);
        let o5 = r.u32(qq + 20);
        let o6 = r.u32(qq + 24);
        let ascending = o0 < o1 && o1 < o2 && o2 < o3 && o3 < o4 && o4 < o5 && o5 < o6;
        if o0 > 0x1000 && ascending && (o6 as usize) < len && (o6 as u128) * 100 > (len as u128) * 85 {
            proof {
                assert((o6 as int) * 100 > (len as int) * 85 <==> o6 > (len as int) * 85 / 100);
            }
            return Some(q);
        }
        proof {
            assert((o6 as int) * 100 > (len as int) * 85 <==> o6 > (len as int) * 85 / 100);
        }
        q += 1;
    }
    None
}

/// The palette after the section table at `tp`: a `u32` count (palettes over 256 are
/// ignored), then that many `B, G, R, pad` entries, as many as the file holds.
pub open spec fn act_palette(b: Seq<u8>, be: bool, tp: int) -> Seq<Color> {
    let pc = rd32(b, be, tp + 28) as int;
    let base = tp + 32;
    let avail = if b.len() >= base { (b.len() - base) / 4 } else { 0 };
    let n = if pc > 256 { 0 } else if pc < avail { pc } else { avail };
    Seq::new(n as nat, |i: int| Color { b: b[base + 4 * i], g: b[base + 4 * i + 1], r: b[base + 4 * i + 2] })
}

/// Read the palette after the section table.
fn read_palette(r: &Rdr, tp: usize) -> (pal: Vec<Color>)
    requires
        tp < 0x200,
    ensures
        pal@ == act_palette(r.b@, r.be, tp as int),
{
    let pc = r.u32(tp as u64 + 28) as usize;
    let mut pal: Vec<Color> = Vec::new();
    if pc > 256 {
        assert(pal@ =~= act_palette(r.b@, r.be, tp as int));
        return pal;
    }
    let base = tp + 32;
    let mut i: usize = 0;
    while i < pc
        invariant
            pc <= 256,
            base == tp + 32,
            tp < 0x200,
            0 <= i <= pc,
            pal@ == Seq::new(i as nat, |k: int| Color { b: r.b@[base + 4 * k], g: r.b@[base + 4 * k + 1], r: r.b@[base + 4 * k + 2] }),
            i == 0 || base + 4 * i <= r.b@.len(),
        ensures
            i < pc ==> base + 4 * i + 4 > r.b@.len(),
            0 <= i <= pc,
            i == 0 || base + 4 * i <= r.b@.len(),
            pal@ == Seq::new(i as nat, |k: int| Color { b: r.b@[base + 4 * k], g: r.b@[base + 4 * k + 1], r: r.b@[base + 4 * k + 2] }),
        decreases pc - i,
    {
        let o = base + i * 4;
        if o + 4 > r.b.len() {
            break;
        }
        pal.push(Color { b: r.b[o], g: r.b[o + 1], r: r.b[o + 2] });
        i += 1;
        assert(pal@ =~= Seq::new(i as nat, |k: int| Color { b: r.b@[base + 4 * k], g: r.b@[base + 4 * k + 1], r: r.b@[base + 4 * k + 2] }));
    }
    proof {
        let avail = if r.b@.len() >= base { (r.b@.len() - base) / 4 } else { 0int };
        if i < pc {
            assert(base + 4 * i + 4 > r.b@.len());
            assert(i == avail);
        } else {
            assert(i <= avail);
        }
        assert(pal@ =~= act_palette(r.b@, r.be, tp as int));
    }
    pal
}

/// The magic key as it appears in the file's byte order.
pub open spec fn key_bytes(be: bool) -> Seq<u8> {
    if be {
        seq![0x9Au8, 0xC6, 0xCD, 0xD7]
    } else {
        seq![0xD7u8, 0xCD, 0xC6, 0x9A]
    }
}

/// The metafile cel starts from `p` on: while the key is at `p`, record it and jump to
/// the next occurrence of the key after it, within `[0, end)`.
pub open spec fn key_walk(b: Seq<u8>, be: bool, p: int, end: int) -> Seq<int>
    decreases end - p,
{
    if p < 0 || p + 4 > end || end > b.len() || rd32(b, be, p) != PLACEABLE_KEY {
        Seq::empty()
    } else {
        match first_match(b.subrange(p + 4, end), key_bytes(be)) {
            Some(rel) => if rel >= 0 && p + 4 + rel <= end {
                seq![p] + key_walk(b, be, p + 4 + rel, end)
            } else {
                seq![p]
            },
            None => seq![p],
        }
    }
}

/// The start of every metafile cel in the artwork pool `[0, art_end)`.
pub open spec fn wmf_positions(b: Seq<u8>, be: bool, art_end: int) -> Seq<int> {
    let lim = if art_end < b.len() { art_end } else { b.len() as int };
    match first_match(b.subrange(0, lim), key_bytes(be)) {
        Some(f) => key_walk(b, be, f, art_end),
        None => Seq::empty(),
    }
}

/// The `MNAK` block starts from `from` on, within `[0, end)`.
pub open spec fn mnak_walk(b: Seq<u8>, from: int, end: int) -> Seq<int>
    decreases end - from,
{
    if from < 0 || from > end || end > b.len() {
        Seq::empty()
    } else {
        match first_match(b.subrange(from, end), seq![0x4Du8, 0x4E, 0x41, 0x4B]) {
            Some(rel) => if rel >= 0 && from + rel + 4 <= end {
                seq![from + rel] + mnak_walk(b, from + rel + 4, end)
            } else {
                Seq::empty()
            },
            None => Seq::empty(),
        }
    }
}

/// The cels at `starts`, each running to the next start (the last to `art_end`).
pub open spec fn cels_at(b: Seq<u8>, be: bool, starts: Seq<int>, art_end: int, wmf: bool) -> Seq<Cel> {
    Seq::new(
        starts.len(),
        |i: int|
            {
                let start = starts[i];
                let end = if i + 1 < starts.len() { starts[i + 1] } else { art_end };
                Cel {
                    format: if wmf { CelFormat::Wmf } else { CelFormat::Bitmap },
                    offset: start as usize,
                    len: (end - start) as usize,
                    bounds: if wmf {
                        Some(
                            (
                                rd16(b, be, start + 6) as i16,
                                rd16(b, be, start + 8) as i16,
                                rd16(b, be, start + 10) as i16,
                                rd16(b, be, start + 12) as i16,
                            ),
                        )
                    } else {
                        None
                    },
                }
            },
    )
}

/// A match found by [`first_match_from`] lies inside the haystack at or after `i`.
pub proof fn lemma_first_match_from_bound(hay: Seq<u8>, needle: Seq<u8>, i: int)
    ensures
        first_match_from(hay, needle, i) matches Some(k) ==> i <= k && k + needle.len() <= hay.len()
            && matches_at(hay, needle, k),
    decreases hay.len() - i,
{
    if !(i < 0 || i >= hay.len() || i + needle.len() > hay.len()) && !matches_at(hay, needle, i) {
        lemma_first_match_from_bound(hay, needle, i + 1);
    }
}

/// The magic key in the file's byte order.
fn key_of(be: bool) -> (k: [u8; 4])
    ensures
        k@ == key_bytes(be),
{
    if be {
        let k: [u8; 4] = [0x9A, 0xC6, 0xCD, 0xD7];
        assert(k@ =~= key_bytes(be));
        k
    } else {
        let k: [u8; 4] = [0xD7, 0xCD, 0xC6, 0x9A];
        assert(k@ =~= key_bytes(be));
        k
    }
}

/// Strictly increasing starts, each leaving room for a 4-byte tag before `end`.
pub open spec fn starts_ok(s: Seq<int>, end: int) -> bool {
    &&& forall|i: int, j: int| 0 <= i < j < s.len() ==> s[i] < s[j]
    &&& forall|i: int| 0 <= i < s.len() ==> 0 <= #[trigger] s[i] && s[i] + 4 <= end
}

/// The positions as integers.
pub open spec fn as_ints(v: Seq<usize>) -> Seq<int> {
    v.map_values(|p: usize| p as int)
}

/// Walk the metafile cels of the artwork pool `[0, art_end)`.
fn wmf_cel_starts(r: &Rdr, art_end: usize) -> (out: Vec<usize>)
    requires
        art_end < r.b@.len(),
    ensures
        as_ints(out@) == wmf_positions(r.b@, r.be, art_end as int),
        starts_ok(as_ints(out@), art_end as int),
{
    let key = key_of(r.be);
    let mut out: Vec<usize> = Vec::new();
    let ghost b = r.b@;
    let ghost be = r.be;
    let first = find_subslice(slice_subrange(r.b, 0, art_end), &key);
    proof {
        lemma_first_match_from_bound(b.subrange(0, art_end as int), key_bytes(be), 0);
    }
    let mut p: usize = match first {
        Some(f) => f,
        None => {
            assert(as_ints(out@) =~= wmf_positions(b, be, art_end as int));
            return out;
        },
    };
    assert(as_ints(out@) + key_walk(b, be, p as int, art_end as int) =~= wmf_positions(b, be, art_end as int));
    loop
        invariant_except_break
            b == r.b@,
            be == r.be,
            art_end < b.len(),
            key@ == key_bytes(be),
            p + 4 <= art_end,
            as_ints(out@) + key_walk(b, be, p as int, art_end as int) == wmf_positions(b, be, art_end as int),
            starts_ok(as_ints(out@), art_end as int),
            forall|i: int| 0 <= i < out@.len() ==> out@[i] < p,
        ensures
            as_ints(out@) == wmf_positions(b, be, art_end as int),
            starts_ok(as_ints(out@), art_end as int),
        decreases art_end - p,
    {
        if r.u32(p as u64) != PLACEABLE_KEY {
            assert(key_walk(b, be, p as int, art_end as int) =~= Seq::<int>::empty());
            assert(as_ints(out@) + Seq::<int>::empty() =~= as_ints(out@));
            break;
        }
        let ghost before = out@;
        out.push(p);
        assert(as_ints(out@) =~= as_ints(before).push(p as int));
        let next = find_subslice(slice_subrange(r.b, p + 4, art_end), &key);
        proof {
            lemma_first_match_from_bound(b.subrange(p + 4, art_end as int), key_bytes(be), 0);
        }
        match next {
            Some(rel) => {
                assert(as_ints(before) + key_walk(b, be, p as int, art_end as int) =~= as_ints(out@) + key_walk(b, be, p + 4 + rel, art_end as int));
                p = p + 4 + rel;
            },
            None => {
                assert(as_ints(before) + key_walk(b, be, p as int, art_end as int) =~= as_ints(out@));
                break;
            },
        }
    }
    out
}

/// Walk the `MNAK` blocks of the artwork pool `[0, art_end)`.
fn mnak_starts(b: &[u8], art_end: usize) -> (out: Vec<usize>)
    requires
        art_end <= b@.len(),
    ensures
        as_ints(out@) == mnak_walk(b@, 0, art_end as int),
        starts_ok(as_ints(out@), art_end as int),
{
    let tag: [u8; 4] = [0x4D, 0x4E, 0x41, 0x4B];
    assert(tag@ =~= seq![0x4Du8, 0x4E, 0x41, 0x4B]);
    let mut out: Vec<usize> = Vec::new();
    let mut from: usize = 0;
    assert(as_ints(out@) + mnak_walk(b@, 0, art_end as int) =~= mnak_walk(b@, 0, art_end as int));
    loop
        invariant_except_break
            art_end <= b@.len(),
            tag@ == seq![0x4Du8, 0x4E, 0x41, 0x4B],
            from <= art_end,
            as_ints(out@) + mnak_walk(b@, from as int, art_end as int) == mnak_walk(b@, 0, art_end as int),
            starts_ok(as_ints(out@), art_end as int),
            forall|i: int| 0 <= i < out@.len() ==> out@[i] < from,
        ensures
            as_ints(out@) == mnak_walk(b@, 0, art_end as int),
            starts_ok(as_ints(out@), art_end as int),
        decreases art_end - from,
    {
        let found = find_subslice(slice_subrange(b, from, art_end), &tag);
        proof {
            lemma_first_match_from_bound(b@.subrange(from as int, art_end as int), tag@, 0);
        }
        match found {
            Some(rel) => {
                let ghost before = out@;
                out.push(from + rel);
                assert(as_ints(out@) =~= as_ints(before).push(from + rel));
                assert(as_ints(before) + mnak_walk(b@, from as int, art_end as int) =~= as_ints(out@) + mnak_walk(b@, from + rel + 4, art_end as int));
                from = from + rel + 4;
            },
            None => {
                assert(mnak_walk(b@, from as int, art_end as int) =~= Seq::<int>::empty());
                assert(as_ints(out@) + Seq::<int>::empty() =~= as_ints(out@));
                break;
            },
        }
    }
    out
}

/// The cels at `starts`.
fn cels_from(r: &Rdr, starts: &Vec<usize>, art_end: usize, wmf: bool) -> (cels: Vec<Cel>)
    requires
        starts_ok(as_ints(starts@), art_end as int),
        art_end <= u32::MAX,
    ensures
        cels@ == cels_at(r.b@, r.be, as_ints(starts@), art_end as int, wmf),
{
    let mut cels: Vec<Cel> = Vec::new();
    let n = starts.len();
    let mut i: usize = 0;
    while i < n
        invariant
            n == starts@.len(),
            0 <= i <= n,
            starts_ok(as_ints(starts@), art_end as int),
            art_end <= u32::MAX,
            cels@ == cels_at(r.b@, r.be, as_ints(starts@), art_end as int, wmf).subrange(0, i as int),
        decreases n - i,
    {
        let start = starts[i];
        let end = if i + 1 < n { starts[i + 1] } else { art_end };
        assert(as_ints(starts@)[i as int] == start);
        proof {
            if i + 1 < n {
                assert(as_ints(starts@)[i + 1] == end);
                assert(as_ints(starts@)[i as int] < as_ints(starts@)[i + 1]);
            }
        }
        let bounds = if wmf {
            let s = start as u64;
            Some((r.i16(s + 6), r.i16(s + 8), r.i16(s + 10), r.i16(s + 12)))
        } else {
            None
        };
        let format = if wmf { CelFormat::Wmf } else { CelFormat::Bitmap };
        cels.push(Cel { format, offset: start, len: end - start, bounds });
        i += 1;
        assert(cels@ =~= cels_at(r.b@, r.be, as_ints(starts@), art_end as int, wmf).subrange(0, i as int));
    }
    assert(cels@ =~= cels_at(r.b@, r.be, as_ints(starts@), art_end as int, wmf));
    cels
}

/// The first position in `[q, end)` holding `want0` then `want1`.
pub open spec fn dir_search(b: Seq<u8>, be: bool, q: int, end: int, want0: u32, want1: u32) -> Option<int>
    decreases end - q,
{
    if q >= end {
        None
    } else if rd32(b, be, q) == want0 && rd32(b, be, q + 4) == want1 {
        Some(q)
    } else {
        dir_search(b, be, q + 1, end, want0, want1)
    }
}

/// The object end offsets from `q` on: each below `lim` and above the one before.
pub open spec fn read_ends(b: Seq<u8>, be: bool, q: int, lim: u32, last: Option<u32>) -> Seq<u32>
    decreases b.len() - q,
{
    if q < 0 || q + 4 > b.len() {
        Seq::empty()
    } else {
        let v = rd32(b, be, q);
        if v >= lim || (last matches Some(l) && v <= l) {
            Seq::empty()
        } else {
            seq![v] + read_ends(b, be, q + 4, lim, Some(v))
        }
    }
}

/// The part record at `po`: a cel index and its destination rectangle.
pub open spec fn part_at(b: Seq<u8>, be: bool, po: int) -> Part {
    Part {
        image: rd16(b, be, po),
        rect: (
            rd16(b, be, po + 2) as i16,
            rd16(b, be, po + 4) as i16,
            rd16(b, be, po + 6) as i16,
            rd16(b, be, po + 8) as i16,
        ),
    }
}

/// How many of the `count` ten-byte part records after the four-byte head at `s` fit
/// before `e`.
pub open spec fn parts_room(s: int, e: int) -> int {
    if e - s >= 4 {
        (e - s - 4) / 10
    } else {
        0
    }
}

/// The parts of the pose object spanning `[s, e)`: its declared count of part records,
/// as many as fit in the object.
pub open spec fn pose_parts(b: Seq<u8>, be: bool, s: int, e: int) -> Seq<Part> {
    let count = rd16(b, be, s + 2) as int;
    let room = parts_room(s, e);
    let n = if count < room { count } else { room };
    Seq::new(n as nat, |k: int| part_at(b, be, s + 4 + 10 * k))
}

/// The poses: objects `ncel..` of the directory, object `o` spanning
/// `[base + ends[o - 1], base + ends[o])`.
pub open spec fn anim_poses(b: Seq<u8>, be: bool, base: int, ends: Seq<u32>, ncel: int) -> Seq<Seq<Part>> {
    Seq::new(
        (ends.len() - ncel) as nat,
        |k: int| pose_parts(b, be, base + ends[ncel + k - 1], base + ends[ncel + k]),
    )
}

/// The part lists of some poses.
pub open spec fn poses_view(p: Seq<Pose>) -> Seq<Seq<Part>> {
    p.map_values(|x: Pose| x.parts@)
}

/// The frame stream from `p` to `end`: six-byte `(object, duration, branch type)` records,
/// a jump or probable branch carrying six more bytes, type `0x0100` closing a list (and
/// skipping a count); any other type means this is not the frame stream.
pub open spec fn frame_walk(b: Seq<u8>, be: bool, p: int, end: int) -> Option<Seq<AnimFrame>>
    decreases end + 16 - p,
{
    if p < 0 || p + 6 > end {
        Some(Seq::empty())
    } else {
        let bt = rd16(b, be, p + 4);
        if bt == 0x0100 {
            frame_walk(b, be, p + 10, end)
        } else if bt > 2 {
            None
        } else {
            let branch = if bt == 1 {
                Branch::Jump(rd16(b, be, p + 6))
            } else if bt == 2 {
                Branch::Probable { target: rd16(b, be, p + 6), weight: rd16(b, be, p + 8) }
            } else {
                Branch::Next
            };
            let f = AnimFrame { object: rd16(b, be, p), duration_ms: rd16(b, be, p + 2), branch };
            let next = if bt != 0 { p + 12 } else { p + 6 };
            match frame_walk(b, be, next, end) {
                Some(rest) => Some(seq![f] + rest),
                None => None,
            }
        }
    }
}

/// The frame graph: the first candidate start, past an end-of-list marker at an even
/// offset in `[p, stop)`, that shows the first pose (`obj0`) and whose walk to `end`
/// succeeds with at least one frame.
pub open spec fn first_frames(b: Seq<u8>, be: bool, p: int, stop: int, end: int, obj0: u16) -> Option<Seq<AnimFrame>>
    decreases stop + 2 - p,
{
    if p >= stop {
        None
    } else if rd16(b, be, p) == 0x0100 && rd16(b, be, p + 6) == obj0 && (frame_walk(b, be, p + 6, end) matches Some(fr) && fr.len() > 0) {
        frame_walk(b, be, p + 6, end)
    } else {
        first_frames(b, be, p + 2, stop, end, obj0)
    }
}

/// The Office name of a Microsoft Actor action id (the `MsoAnimationType` values).
pub open spec fn action_label(id: u16) -> Option<Seq<char>> {
    match id {
        1 => Some("Idle"@),
        2 => Some("Greeting"@),
        3 => Some("Goodbye"@),
        4 => Some("BeginSpeaking"@),
        5 => Some("RestPose"@),
        6 => Some("CharacterSuccessMajor"@),
        11 => Some("GetAttentionMajor"@),
        12 => Some("GetAttentionMinor"@),
        13 => Some("Searching"@),
        18 => Some("Printing"@),
        19 => Some("GestureRight"@),
        22 => Some("WritingNotingSomething"@),
        23 => Some("WorkingAtSomething"@),
        24 => Some("Thinking"@),
        25 => Some("SendingMail"@),
        26 => Some("ListensToComputer"@),
        31 => Some("Disappear"@),
        32 => Some("Appear"@),
        100 => Some("GetArtsy"@),
        101 => Some("GetTechy"@),
        102 => Some("GetWizardy"@),
        103 => Some("CheckingSomething"@),
        104 => Some("LookDown"@),
        105 => Some("LookDownLeft"@),
        106 => Some("LookDownRight"@),
        107 => Some("LookLeft"@),
        108 => Some("LookRight"@),
        109 => Some("LookUp"@),
        110 => Some("LookUpLeft"@),
        111 => Some("LookUpRight"@),
        112 => Some("Saving"@),
        113 => Some("GestureDown"@),
        114 => Some("GestureLeft"@),
        115 => Some("GestureUp"@),
        116 => Some("EmptyTrash"@),
        _ => None,
    }
}

/// The Office name of an action id, if Microsoft published one.
pub fn action_name(id: u16) -> (r: Option<&'static str>)
    ensures
        r is Some <==> action_label(id) is Some,
        r matches Some(s) ==> action_label(id) == Some(s@),
{
    match id {
        1 => Some("Idle"),
        2 => Some("Greeting"),
        3 => Some("Goodbye"),
        4 => Some("BeginSpeaking"),
        5 => Some("RestPose"),
        6 => Some("CharacterSuccessMajor"),
        11 => Some("GetAttentionMajor"),
        12 => Some("GetAttentionMinor"),
        13 => Some("Searching"),
        18 => Some("Printing"),
        19 => Some("GestureRight"),
        22 => Some("WritingNotingSomething"),
        23 => Some("WorkingAtSomething"),
        24 => Some("Thinking"),
        25 => Some("SendingMail"),
        26 => Some("ListensToComputer"),
        31 => Some("Disappear"),
        32 => Some("Appear"),
        100 => Some("GetArtsy"),
        101 => Some("GetTechy"),
        102 => Some("GetWizardy"),
        103 => Some("CheckingSomething"),
        104 => Some("LookDown"),
        105 => Some("LookDownLeft"),
        106 => Some("LookDownRight"),
        107 => Some("LookLeft"),
        108 => Some("LookRight"),
        109 => Some("LookUp"),
        110 => Some("LookUpLeft"),
        111 => Some("LookUpRight"),
        112 => Some("Saving"),
        113 => Some("GestureDown"),
        114 => Some("GestureLeft"),
        115 => Some("GestureUp"),
        116 => Some("EmptyTrash"),
        _ => None,
    }
}

/// The `(id, count, first_frame)` triples of some actions.
pub open spec fn action_triples(a: Seq<Action>) -> Seq<(u16, u16, u16)> {
    a.map_values(|x: Action| (x.id, x.count, x.first_frame))
}

/// Every action carries the Office name of its id.
pub open spec fn names_ok(a: Seq<Action>) -> bool {
    forall|i: int| 0 <= i < a.len() ==> action_label(#[trigger] a[i].id) == Some(a[i].name@)
}

/// The run of action triples from `p`: it stops at the end or at the first triple with
/// an unnamed id, a count outside `1..=64` or a first frame outside the `nf` frames.
pub open spec fn action_run(b: Seq<u8>, be: bool, p: int, end: int, nf: u16) -> Seq<(u16, u16, u16)>
    decreases end - p,
{
    if p < 0 || p + 6 > end {
        Seq::empty()
    } else {
        let id = rd16(b, be, p);
        let count = rd16(b, be, p + 2);
        let first = rd16(b, be, p + 4);
        if action_label(id) is None || count == 0 || count > 64 || first >= nf {
            Seq::empty()
        } else {
            seq![(id, count, first)] + action_run(b, be, p + 6, end, nf)
        }
    }
}

/// The longest run starting at an even offset from `start` (the earliest among equals),
/// against the best so far.
pub open spec fn best_run(b: Seq<u8>, be: bool, start: int, end: int, nf: u16, best: Seq<(u16, u16, u16)>) -> Seq<(u16, u16, u16)>
    decreases end - start,
{
    if start < 0 || start + 6 > end {
        best
    } else {
        let acts = action_run(b, be, start, end, nf);
        best_run(b, be, start + 2, end, nf, if acts.len() > best.len() { acts } else { best })
    }
}

/// `a - k` clamped at zero.
pub open spec fn sat_sub(a: int, k: int) -> int {
    if a >= k { a - k } else { 0 }
}

/// The animation tables of a metafile character with cels at `pos`: the poses, the frame
/// graph and the action triples; each later part is empty when an earlier one fails.
pub open spec fn anim_tables(b: Seq<u8>, be: bool, pos: Seq<int>, art_end: int, sec: Seq<u32>) -> (
    Seq<Seq<Part>>,
    Seq<AnimFrame>,
    Seq<(u16, u16, u16)>,
) {
    let none = (Seq::<Seq<Part>>::empty(), Seq::<AnimFrame>::empty(), Seq::<(u16, u16, u16)>::empty());
    let ncel = pos.len() as int;
    if ncel < 3 {
        none
    } else {
        let base = pos[0];
        let sec0 = sec[0] as int;
        let lim = (art_end - base) as u32;
        let want0 = (pos[1] - base) as u32;
        let want1 = (pos[2] - base) as u32;
        let dend = if sec0 + 64 < sat_sub(b.len() as int, 8) { sec0 + 64 } else { sat_sub(b.len() as int, 8) };
        match dir_search(b, be, sec0, dend, want0, want1) {
            None => none,
            Some(q) => {
                let ends = read_ends(b, be, q, lim, None);
                if ends.len() <= ncel {
                    none
                } else {
                    let poses = anim_poses(b, be, base, ends, ncel);
                    let s3_end = sec[4] as int;
                    match first_frames(b, be, sec[3] as int, sat_sub(s3_end, 6), s3_end, ncel as u16) {
                        None => (poses, Seq::empty(), Seq::empty()),
                        Some(frames) => (
                            poses,
                            frames,
                            best_run(b, be, sec[4] as int, sec[5] as int, frames.len() as u16, Seq::empty()),
                        ),
                    }
                }
            },
        }
    }
}

/// Every triple names an action, plays `1..=64` frames, and starts at one of `nf` frames.
pub open spec fn triples_ok(t: Seq<(u16, u16, u16)>, nf: u16) -> bool {
    forall|i: int|
        0 <= i < t.len() ==> action_label((#[trigger] t[i]).0) is Some && 1 <= t[i].1 <= 64 && t[i].2
            < nf
}

proof fn lemma_action_run_ok(b: Seq<u8>, be: bool, p: int, end: int, nf: u16)
    ensures
        triples_ok(action_run(b, be, p, end, nf), nf),
    decreases end - p,
{
    if p >= 0 && p + 6 <= end {
        lemma_action_run_ok(b, be, p + 6, end, nf);
        let id = rd16(b, be, p);
        let count = rd16(b, be, p + 2);
        let first = rd16(b, be, p + 4);
        if !(action_label(id) is None || count == 0 || count > 64 || first >= nf) {
            let t = action_run(b, be, p, end, nf);
            let rest = action_run(b, be, p + 6, end, nf);
            assert forall|i: int| 0 <= i < t.len() implies action_label((#[trigger] t[i]).0) is Some
                && 1 <= t[i].1 <= 64 && t[i].2 < nf by {
                if i > 0 {
                    assert(t[i] == rest[i - 1]);
                }
            }
        }
    }
}

proof fn lemma_best_run_ok(b: Seq<u8>, be: bool, start: int, end: int, nf: u16, best: Seq<(u16, u16, u16)>)
    requires
        triples_ok(best, nf),
    ensures
        triples_ok(best_run(b, be, start, end, nf, best), nf),
    decreases end - start,
{
    if start >= 0 && start + 6 <= end {
        lemma_action_run_ok(b, be, start, end, nf);
        let acts = action_run(b, be, start, end, nf);
        lemma_best_run_ok(b, be, start + 2, end, nf, if acts.len() > best.len() { acts } else { best });
    }
}

/// The animation tables hold together: with fewer than three cels there are none; with
/// no frames there are no actions; every action names an Office action, plays 1 to 64
/// frames and starts at one of the frames.
pub proof fn lemma_anim_tables_sound(b: Seq<u8>, be: bool, pos: Seq<int>, art_end: int, sec: Seq<u32>)
    ensures
        pos.len() < 3 ==> anim_tables(b, be, pos, art_end, sec).0.len() == 0
            && anim_tables(b, be, pos, art_end, sec).1.len() == 0
            && anim_tables(b, be, pos, art_end, sec).2.len() == 0,
        anim_tables(b, be, pos, art_end, sec).1.len() == 0 ==> anim_tables(b, be, pos, art_end, sec).2.len() == 0,
        anim_tables(b, be, pos, art_end, sec).1.len() <= u16::MAX ==> triples_ok(
            anim_tables(b, be, pos, art_end, sec).2,
            anim_tables(b, be, pos, art_end, sec).1.len() as u16,
        ),
{
    let t = anim_tables(b, be, pos, art_end, sec);
    if pos.len() >= 3 {
        let sec0 = sec[0] as int;
        let dend = if sec0 + 64 < sat_sub(b.len() as int, 8) { sec0 + 64 } else { sat_sub(b.len() as int, 8) };
        let base = pos[0];
        let want0 = (pos[1] - base) as u32;
        let want1 = (pos[2] - base) as u32;
        match dir_search(b, be, sec0, dend, want0, want1) {
            None => {},
            Some(q) => {
                let lim = (art_end - base) as u32;
                let ends = read_ends(b, be, q, lim, None);
                if ends.len() > pos.len() {
                    let s3_end = sec[4] as int;
                    match first_frames(b, be, sec[3] as int, sat_sub(s3_end, 6), s3_end, pos.len() as u16) {
                        None => {},
                        Some(frames) => {
                            lemma_best_run_ok(b, be, sec[4] as int, sec[5] as int, frames.len() as u16, Seq::empty());
                            if frames.len() == 0 {
                                if t.2.len() > 0 {
                                    assert(t.2[0].2 < 0u16);
                                }
                            }
                        },
                    }
                }
            },
        }
    }
}

/// Search `[q0, end)` for the object directory.
fn find_dir(r: &Rdr, q0: u64, end: u64, want0: u32, want1: u32) -> (res: Option<u64>)
    requires
        end <= u32::MAX + 64,
    ensures
        dir_search(r.b@, r.be, q0 as int, end as int, want0, want1) == match res {
            Some(q) => Some(q as int),
            None => None::<int>,
        },
{
    let mut q = q0;
    while q < end
        invariant
            end <= u32::MAX + 64,
            dir_search(r.b@, r.be, q0 as int, end as int, want0, want1) == dir_search(r.b@, r.be, q as int, end as int, want0, want1),
        decreases end - q,
    {
        if r.u32(q) == want0 && r.u32(q + 4) == want1 {
            return Some(q);
        }
        q += 1;
    }
    None
}

/// Read the object end offsets from `q0`.
fn read_end_offsets(r: &Rdr, q0: u64, lim: u32) -> (ends: Vec<u32>)
    ensures
        ends@ == read_ends(r.b@, r.be, q0 as int, lim, None),
        forall|i: int, j: int| 0 <= i < j < ends@.len() ==> ends@[i] < ends@[j],
        forall|i: int| 0 <= i < ends@.len() ==> #[trigger] ends@[i] < lim,
{
    let len = r.b.len() as u64;
    let mut ends: Vec<u32> = Vec::new();
    let mut q = q0;
    let mut last: Option<u32> = None;
    assert(ends@ + read_ends(r.b@, r.be, q as int, lim, last) =~= read_ends(r.b@, r.be, q0 as int, lim, None));
    while len >= 4 && q <= len - 4
        invariant
            len == r.b@.len(),
            ends@ + read_ends(r.b@, r.be, q as int, lim, last) == read_ends(r.b@, r.be, q0 as int, lim, None),
            last == (if ends@.len() == 0 { None } else { Some(ends@.last()) }),
            forall|i: int, j: int| 0 <= i < j < ends@.len() ==> ends@[i] < ends@[j],
            forall|i: int| 0 <= i < ends@.len() ==> #[trigger] ends@[i] < lim,
        decreases len - q,
    {
        let v = r.u32(q);
        let stop = match last {
            Some(l) => v <= l,
            None => false,
        };
        if v >= lim || stop {
            assert(read_ends(r.b@, r.be, q as int, lim, last) =~= Seq::<u32>::empty());
            assert(ends@ + Seq::<u32>::empty() =~= ends@);
            return ends;
        }
        let ghost before = ends@;
        ends.push(v);
        assert(before + read_ends(r.b@, r.be, q as int, lim, last) =~= ends@ + read_ends(r.b@, r.be, q + 4, lim, Some(v)));
        last = Some(v);
        q += 4;
    }
    assert(read_ends(r.b@, r.be, q as int, lim, last) =~= Seq::<u32>::empty());
    assert(ends@ + Seq::<u32>::empty() =~= ends@);
    ends
}

/// Read the parts of the pose object spanning `[s, e)`.
fn read_pose_parts(r: &Rdr, s: u64, e: u64) -> (parts: Vec<Part>)
    requires
        s < e,
        e <= 0x4_0000_0000,
    ensures
        parts@ == pose_parts(r.b@, r.be, s as int, e as int),
{
    let count = r.u16(s + 2) as u64;
    let ghost room = parts_room(s as int, e as int);
    let mut parts: Vec<Part> = Vec::new();
    let mut k: u64 = 0;
    while k < count
        invariant
            s < e <= 0x4_0000_0000,
            count == rd16(r.b@, r.be, s + 2),
            room == parts_room(s as int, e as int),
            0 <= k <= count,
            k <= room,
            parts@ == Seq::new(k as nat, |j: int| part_at(r.b@, r.be, s + 4 + 10 * j)),
        ensures
            k == count || k == room,
            k <= count,
            k <= room,
            parts@ == Seq::new(k as nat, |j: int| part_at(r.b@, r.be, s + 4 + 10 * j)),
        decreases count - k,
    {
        let po = s + 4 + k * 10;
        if po + 10 > e {
            proof {
                if e - s >= 4 {
                    assert(k >= (e - s - 4) / 10) by (nonlinear_arith)
                        requires
                            s + 4 + k * 10 + 10 > e,
                            e - s >= 4,
                    ;
                }
            }
            break;
        }
        proof {
            assert(e - s >= 4);
            assert(k + 1 <= (e - s - 4) / 10) by (nonlinear_arith)
                requires
                    s + 4 + k * 10 + 10 <= e,
                    e - s >= 4,
            ;
        }
        parts.push(Part { image: r.u16(po), rect: (r.i16(po + 2), r.i16(po + 4), r.i16(po + 6), r.i16(po + 8)) });
        k += 1;
        assert(parts@ =~= Seq::new(k as nat, |j: int| part_at(r.b@, r.be, s + 4 + 10 * j)));
    }
    assert(parts@ =~= pose_parts(r.b@, r.be, s as int, e as int));
    parts
}

/// Walk the frame stream from `start` to `end`.
fn walk_frames(r: &Rdr, start: u64, end: u64) -> (res: Option<Vec<AnimFrame>>)
    requires
        start <= u32::MAX + 16,
        end <= u32::MAX,
    ensures
        match frame_walk(r.b@, r.be, start as int, end as int) {
            Some(fs) => res matches Some(v) && v@ == fs,
            None => res is None,
        },
{
    let mut fr: Vec<AnimFrame> = Vec::new();
    let mut p = start;
    assert(frame_walk(r.b@, r.be, start as int, end as int) == match frame_walk(r.b@, r.be, p as int, end as int) {
        Some(rest) => Some(fr@ + rest),
        None => None,
    }) by {
        match frame_walk(r.b@, r.be, p as int, end as int) {
            Some(rest) => assert(fr@ + rest =~= rest),
            None => {},
        }
    }
    while p + 6 <= end
        invariant
            end <= u32::MAX,
            p <= u32::MAX + 16,
            frame_walk(r.b@, r.be, start as int, end as int) == match frame_walk(r.b@, r.be, p as int, end as int) {
                Some(rest) => Some(fr@ + rest),
                None => None,
            },
        decreases end + 16 - p,
    {
        let object = r.u16(p);
        let duration_ms = r.u16(p + 2);
        let bt = r.u16(p + 4);
        if bt == 0x0100 {
            p = p + 10;
        } else if bt > 2 {
            return None;
        } else {
            let branch = if bt == 1 {
                Branch::Jump(r.u16(p + 6))
            } else if bt == 2 {
                Branch::Probable { target: r.u16(p + 6), weight: r.u16(p + 8) }
            } else {
                Branch::Next
            };
            let f = AnimFrame { object, duration_ms, branch };
            let next = if bt != 0 { p + 12 } else { p + 6 };
            let ghost before = fr@;
            fr.push(f);
            proof {
                match frame_walk(r.b@, r.be, next as int, end as int) {
                    Some(rest) => {
                        assert(before + (seq![f] + rest) =~= fr@ + rest);
                    },
                    None => {},
                }
            }
            p = next;
        }
    }
    assert(fr@ + Seq::<AnimFrame>::empty() =~= fr@);
    Some(fr)
}

/// Find the frame graph in `[p0, stop)`.
fn find_frames(r: &Rdr, p0: u64, stop: u64, end: u64, obj0: u16) -> (res: Option<Vec<AnimFrame>>)
    requires
        p0 <= u32::MAX,
        stop <= end,
        end <= u32::MAX,
    ensures
        match first_frames(r.b@, r.be, p0 as int, stop as int, end as int, obj0) {
            Some(fs) => res matches Some(v) && v@ == fs,
            None => res is None,
        },
{
    let mut p = p0;
    while p < stop
        invariant
            stop <= end <= u32::MAX,
            p <= u32::MAX + 1,
            first_frames(r.b@, r.be, p0 as int, stop as int, end as int, obj0) == first_frames(r.b@, r.be, p as int, stop as int, end as int, obj0),
        decreases stop + 2 - p,
    {
        if r.u16(p) == 0x0100 && r.u16(p + 6) == obj0 {
            let walked = walk_frames(r, p + 6, end);
            match walked {
                Some(fr) => {
                    if fr.len() > 0 {
                        return Some(fr);
                    }
                },
                None => {},
            }
        }
        p += 2;
    }
    None
}

/// Read the run of action triples from `start`.
fn read_action_run(r: &Rdr, start: u64, end: u64, nf: u16) -> (acts: Vec<Action>)
    requires
        end <= u32::MAX,
    ensures
        action_triples(acts@) == action_run(r.b@, r.be, start as int, end as int, nf),
        names_ok(acts@),
{
    let mut acts: Vec<Action> = Vec::new();
    let mut p = start;
    assert(action_triples(acts@) + action_run(r.b@, r.be, p as int, end as int, nf) =~= action_run(r.b@, r.be, start as int, end as int, nf));
    while p <= end && end - p >= 6
        invariant
            end <= u32::MAX,
            action_triples(acts@) + action_run(r.b@, r.be, p as int, end as int, nf) == action_run(r.b@, r.be, start as int, end as int, nf),
            names_ok(acts@),
        ensures
            action_triples(acts@) + action_run(r.b@, r.be, p as int, end as int, nf) == action_run(r.b@, r.be, start as int, end as int, nf),
            names_ok(acts@),
            action_run(r.b@, r.be, p as int, end as int, nf) == Seq::<(u16, u16, u16)>::empty(),
        decreases end - p,
    {
        let id = r.u16(p);
        let count = r.u16(p + 2);
        let first = r.u16(p + 4);
        let label = action_name(id);
        match label {
            Some(text) => {
                if count == 0 || count > 64 || first >= nf {
                    break;
                }
                let ghost before = acts@;
                acts.push(Action { id, name: crate::textutil::string_from_str(text), count, first_frame: first });
                assert(action_triples(acts@) =~= action_triples(before).push((id, count, first)));
                assert(action_triples(before) + action_run(r.b@, r.be, p as int, end as int, nf) =~= action_triples(acts@) + action_run(r.b@, r.be, p + 6, end as int, nf));
                p += 6;
            },
            None => {
                break;
            },
        }
    }
    proof {
        assert(action_run(r.b@, r.be, p as int, end as int, nf) =~= Seq::<(u16, u16, u16)>::empty());
        assert(action_triples(acts@) + Seq::<(u16, u16, u16)>::empty() =~= action_triples(acts@));
    }
    acts
}

/// Decode the poses, the frame graph and the named actions of a metafile character whose
/// cels start at `pos`.
fn parse_anim_tables(r: &Rdr, pos: &Vec<usize>, art_end: usize, sections: &[u32; 7]) -> (res: (Vec<Pose>, Vec<AnimFrame>, Vec<Action>))
    requires
        starts_ok(as_ints(pos@), art_end as int),
        art_end == sections@[0],
        art_end < r.b@.len(),
    ensures
        poses_view(res.0@) == anim_tables(r.b@, r.be, as_ints(pos@), art_end as int, sections@).0,
        res.1@ == anim_tables(r.b@, r.be, as_ints(pos@), art_end as int, sections@).1,
        action_triples(res.2@) == anim_tables(r.b@, r.be, as_ints(pos@), art_end as int, sections@).2,
        names_ok(res.2@),
{
    let ghost b = r.b@;
    let ghost be = r.be;
    let ghost sec = sections@;
    let ghost ip = as_ints(pos@);
    let ghost spec_res = anim_tables(b, be, ip, art_end as int, sec);
    let ncel = pos.len();
    if ncel < 3 {
        let res = (Vec::new(), Vec::new(), Vec::new());
        assert(poses_view(res.0@) =~= Seq::<Seq<Part>>::empty());
        assert(action_triples(res.2@) =~= Seq::<(u16, u16, u16)>::empty());
        return res;
    }
    assert(ip[0] == pos@[0] && ip[1] == pos@[1] && ip[2] == pos@[2]);
    let base = pos[0];
    let sec0 = sections[0] as u64;
    let lim = (art_end - base) as u32;
    let want0 = (pos[1] - base) as u32;
    let want1 = (pos[2] - base) as u32;
    let len = r.b.len() as u64;
    let lsub = if len >= 8 { len - 8 } else { 0 };
    let dend = if sec0 + 64 < lsub { sec0 + 64 } else { lsub };
    let dir = find_dir(r, sec0, dend, want0, want1);
    let q = match dir {
        Some(q) => q,
        None => {
            let res = (Vec::new(), Vec::new(), Vec::new());
            assert(poses_view(res.0@) =~= Seq::<Seq<Part>>::empty());
            assert(action_triples(res.2@) =~= Seq::<(u16, u16, u16)>::empty());
            return res;
        },
    };
    let ends = read_end_offsets(r, q, lim);
    let nobj = ends.len();
    if nobj <= ncel {
        let res = (Vec::new(), Vec::new(), Vec::new());
        assert(poses_view(res.0@) =~= Seq::<Seq<Part>>::empty());
        assert(action_triples(res.2@) =~= Seq::<(u16, u16, u16)>::empty());
        return res;
    }
    let ghost want_poses = anim_poses(b, be, base as int, ends@, ncel as int);
    let mut poses: Vec<Pose> = Vec::new();
    let mut o = ncel;
    while o < nobj
        invariant
            b == r.b@,
            be == r.be,
            3 <= ncel <= o <= nobj,
            nobj == ends@.len(),
            base <= art_end <= u32::MAX,
            forall|i: int, j: int| 0 <= i < j < ends@.len() ==> ends@[i] < ends@[j],
            want_poses == anim_poses(b, be, base as int, ends@, ncel as int),
            poses_view(poses@) == want_poses.subrange(0, o - ncel),
        decreases nobj - o,
    {
        let s = base as u64 + ends[o - 1] as u64;
        let e = base as u64 + ends[o] as u64;
        let parts = read_pose_parts(r, s, e);
        let ghost before = poses@;
        let ghost pv = parts@;
        assert(pv == want_poses[o - ncel]);
        poses.push(Pose { parts });
        o += 1;
        assert(poses_view(poses@) =~= poses_view(before).push(pv));
        assert(poses_view(poses@) =~= want_poses.subrange(0, o - ncel));
    }
    assert(poses_view(poses@) =~= want_poses);
    assert(ip.len() == ncel);
    assert(dir_search(b, be, sec[0] as int, dend as int, want0, want1) == Some(q as int));
    assert(lim == (art_end - ip[0]) as u32);
    assert(want0 == (ip[1] - ip[0]) as u32);
    assert(want1 == (ip[2] - ip[0]) as u32);
    assert(read_ends(b, be, q as int, lim, None) == ends@);
    assert(spec_res.0 == want_poses);
    let s3 = sections[3] as u64;
    let s3_end = sections[4] as u64;
    let stop = if s3_end >= 6 { s3_end - 6 } else { 0 };
    let found = find_frames(r, s3, stop, s3_end, ncel as u16);
    let frames = match found {
        Some(f) => f,
        None => {
            let res = (poses, Vec::new(), Vec::new());
            assert(action_triples(res.2@) =~= Seq::<(u16, u16, u16)>::empty());
            return res;
        },
    };
    let nf = frames.len() as u16;
    let s4 = sections[4] as u64;
    let s4_end = sections[5] as u64;
    let mut best: Vec<Action> = Vec::new();
    let mut start = s4;
    assert(action_triples(best@) =~= Seq::<(u16, u16, u16)>::empty());
    while start <= s4_end && s4_end - start >= 6
        invariant
            s4_end <= u32::MAX,
            best_run(b, be, s4 as int, s4_end as int, nf, Seq::empty()) == best_run(b, be, start as int, s4_end as int, nf, action_triples(best@)),
            names_ok(best@),
            b == r.b@,
            be == r.be,
        decreases s4_end - start,
    {
        let acts = read_action_run(r, start, s4_end, nf);
        if acts.len() > best.len() {
            best = acts;
        }
        start += 2;
    }
    (poses, frames, best)
}

/// A table found by [`first_table`] is a table, inside the searched range.
pub proof fn lemma_first_table_bound(b: Seq<u8>, be: bool, q: int, end: int)
    ensures
        first_table(b, be, q, end) matches Some(t) ==> q <= t < end && table_at(b, be, t),
    decreases end - q,
{
    if q < end && !table_at(b, be, q) {
        lemma_first_table_bound(b, be, q + 1, end);
    }
}

/// The end of the NUL-terminated string at `p`: its first NUL byte, or the end of the data.
pub open spec fn nul_end(b: Seq<u8>, p: int) -> int
    decreases b.len() - p,
{
    if p < 0 || p >= b.len() || b[p] == 0 {
        p
    } else {
        nul_end(b, p + 1)
    }
}

/// The character name: the NUL-terminated bytes at `0x12`, decoded leniently as UTF-8.
pub open spec fn act_name(b: Seq<u8>) -> Seq<char> {
    utf8_lossy(b.subrange(0x12, nul_end(b, 0x12)))
}

/// The constant `2083, 2083` header marker in the file's byte order.
pub open spec fn size_marker(be: bool) -> Seq<u8> {
    if be {
        seq![0x08u8, 0x23, 0x08, 0x23]
    } else {
        seq![0x23u8, 0x08, 0x23, 0x08]
    }
}

/// The default frame size: the two words just before the first `2083, 2083` marker in
/// the first `0x200` bytes, or `(0, 0)` when the marker is missing or too early.
pub open spec fn act_image_size(b: Seq<u8>, be: bool) -> (u16, u16) {
    let lim = if b.len() < 0x200 { b.len() as int } else { 0x200 };
    match first_match(b.subrange(0, lim), size_marker(be)) {
        Some(pos) => if pos >= 4 {
            (rd16(b, be, pos - 4), rd16(b, be, pos - 2))
        } else {
            (0, 0)
        },
        None => (0, 0),
    }
}

/// The byte order a signature announces: `"LP"` little-endian, `"PL"` big-endian.
pub open spec fn act_signature(b: Seq<u8>) -> Option<bool> {
    if b[0] == 0x4C && b[1] == 0x50 {
        Some(false)
    } else if b[0] == 0x50 && b[1] == 0x4C {
        Some(true)
    } else {
        None
    }
}

/// The identity fields of the header: version, name and default frame size.
fn read_identity(r: &Rdr) -> (res: ((u16, u16), String, (u16, u16)))
    requires
        r.b@.len() >= 24,
    ensures
        res.0 == (rd16(r.b@, r.be, 2), rd16(r.b@, r.be, 4)),
        res.1@ == act_name(r.b@),
        res.2 == act_image_size(r.b@, r.be),
{
    let ghost b = r.b@;
    let len = r.b.len();
    let version = (r.u16(2), r.u16(4));
    let mut p: usize = 0x12;
    while p < len && r.b[p] != 0
        invariant
            len == b.len(),
            b == r.b@,
            0x12 <= p <= len,
            nul_end(b, 0x12) == nul_end(b, p as int),
        decreases len - p,
    {
        p += 1;
    }
    let name = string_from_utf8_lossy(slice_subrange(r.b, 0x12, p));
    let marker: [u8; 4] = if r.be { [0x08, 0x23, 0x08, 0x23] } else { [0x23, 0x08, 0x23, 0x08] };
    assert(marker@ =~= size_marker(r.be));
    let lim = if len < 0x200 { len } else { 0x200 };
    proof {
        lemma_first_match_from_bound(b.subrange(0, lim as int), size_marker(r.be), 0);
    }
    let image_size = match find_subslice(slice_subrange(r.b, 0, lim), &marker) {
        Some(pos) => if pos >= 4 {
            (r.u16(pos as u64 - 4), r.u16(pos as u64 - 2))
        } else {
            (0, 0)
        },
        None => (0, 0),
    };
    (version, name, image_size)
}

/// The cels of the artwork pool `[0, art_end)` and the encoding they show: the metafile
/// cels, or else (little-endian files only) the `MNAK` blocks.
fn read_artwork(r: &Rdr, art_end: usize) -> (res: (Vec<usize>, Vec<Cel>, CelFormat))
    requires
        art_end < r.b@.len(),
        art_end <= u32::MAX,
    ensures
        as_ints(res.0@) == wmf_positions(r.b@, r.be, art_end as int),
        starts_ok(as_ints(res.0@), art_end as int),
        res.1@ == (if res.0@.len() == 0 && !r.be {
            cels_at(r.b@, r.be, mnak_walk(r.b@, 0, art_end as int), art_end as int, false)
        } else {
            cels_at(r.b@, r.be, wmf_positions(r.b@, r.be, art_end as int), art_end as int, true)
        }),
        res.2 == (if res.1@.len() > 0 {
            res.1@[0].format
        } else if r.be {
            CelFormat::MacBitmap
        } else {
            CelFormat::Bitmap
        }),
{
    let positions = wmf_cel_starts(r, art_end);
    let cels = if positions.len() == 0 && !r.be {
        let starts = mnak_starts(r.b, art_end);
        cels_from(r, &starts, art_end, false)
    } else {
        cels_from(r, &positions, art_end, true)
    };
    let image_format = if cels.len() > 0 {
        cels[0].format
    } else if r.be {
        CelFormat::MacBitmap
    } else {
        CelFormat::Bitmap
    };
    (positions, cels, image_format)
}

/// A parsed Actor Character Table.
pub struct ActFile {
    /// `true` for the big-endian classic-Mac dialect (`"PL"` signature).
    pub big_endian: bool,
    /// `(major, minor)`: Actor 1.0 files report `(1, 0)`, Actor 2.0 `(2, x)`.
    pub version: (u16, u16),
    /// Character name (e.g. `"Clippit"`).
    pub name: String,
    /// Default frame size in pixels `(width, height)`.
    pub image_size: (u16, u16),
    /// Optional color palette (used by the bitmap artwork forms).
    pub palette: Vec<Color>,
    /// The artwork encoding this file uses.
    pub image_format: CelFormat,
    /// Artwork cels, in file order.
    pub cels: Vec<Cel>,
    /// Poses (layered image parts). Empty unless the artwork is metafile vector art.
    pub poses: Vec<Pose>,
    /// Animation frames: a global graph that actions index into.
    pub frames: Vec<AnimFrame>,
    /// Named animations.
    pub actions: Vec<Action>,
    /// Embedded sound effects, each a complete `RIFF`/`WAVE` byte stream.
    pub sounds: Vec<Vec<u8>>,
    /// The seven section offsets from the header.
    pub sections: [u32; 7],
    data: Vec<u8>,
}

/// The bytes of some byte vectors.
pub open spec fn byte_seqs(v: Seq<Vec<u8>>) -> Seq<Seq<u8>> {
    Seq::new(v.len(), |k: int| v[k]@)
}

/// An actor table as plain values.
pub struct ActView {
    pub bytes: Seq<u8>,
    pub big_endian: bool,
    pub version: (u16, u16),
    pub name: Seq<char>,
    pub image_size: (u16, u16),
    pub palette: Seq<Color>,
    pub image_format: CelFormat,
    pub cels: Seq<Cel>,
    pub poses: Seq<Seq<Part>>,
    pub frames: Seq<AnimFrame>,
    pub actions: Seq<Action>,
    pub sounds: Seq<Seq<u8>>,
    pub sections: Seq<u32>,
}

impl View for ActFile {
    type V = ActView;

    closed spec fn view(&self) -> ActView {
        ActView {
            bytes: self.data@,
            big_endian: self.big_endian,
            version: self.version,
            name: self.name@,
            image_size: self.image_size,
            palette: self.palette@,
            image_format: self.image_format,
            cels: self.cels@,
            poses: poses_view(self.poses@),
            frames: self.frames@,
            actions: self.actions@,
            sounds: byte_seqs(self.sounds@),
            sections: self.sections@,
        }
    }
}

/// Everything `parse` reads from bytes `b` of a file in byte order `be` whose section
/// table sits at `tp`.
pub open spec fn act_parsed(v: ActView, b: Seq<u8>, be: bool, tp: int) -> bool {
    let sec = sections_at(b, be, tp);
    let art_end = sec[0] as int;
    let wpos = wmf_positions(b, be, art_end);
    let cels = if wpos.len() == 0 && !be {
        cels_at(b, be, mnak_walk(b, 0, art_end), art_end, false)
    } else {
        cels_at(b, be, wpos, art_end, true)
    };
    let format = if cels.len() > 0 {
        cels[0].format
    } else if be {
        CelFormat::MacBitmap
    } else {
        CelFormat::Bitmap
    };
    let tables = if format == CelFormat::Wmf {
        anim_tables(b, be, wpos, art_end, sec)
    } else {
        (Seq::empty(), Seq::empty(), Seq::empty())
    };
    &&& v.bytes == b
    &&& v.big_endian == be
    &&& v.version == (rd16(b, be, 2), rd16(b, be, 4))
    &&& v.name == act_name(b)
    &&& v.image_size == act_image_size(b, be)
    &&& v.sections == sec
    &&& v.palette == act_palette(b, be, tp)
    &&& v.cels == cels
    &&& v.image_format == format
    &&& v.poses == tables.0
    &&& v.frames == tables.1
    &&& action_triples(v.actions) == tables.2
    &&& names_ok(v.actions)
    &&& v.sounds == if be { Seq::empty() } else { wave_streams(b, 0) }
}

impl ActFile {
    /// Parse an in-memory `.act` byte buffer.
    #[verifier::spinoff_prover]
    #[verifier::rlimit(60)]
    pub fn parse(data: Vec<u8>) -> (r: Result<ActFile, Error>)
        ensures
            data@.len() < 24 ==> (r matches Err(Error::UnexpectedEof { context, offset, needed, available })
                && context@ == "act header"@ && offset == 0 && needed == 24 && available == data@.len()),
            data@.len() >= 24 && act_signature(data@) is None ==> r == Err::<ActFile, Error>(
                Error::BadSignature { found: (data@[0] + data@[1] * 256) as u32 },
            ),
            data@.len() >= 24 ==> (act_signature(data@) matches Some(be) ==> match first_table(
                data@,
                be,
                0x12,
                table_scan_end(data@.len() as int),
            ) {
                None => (r matches Err(Error::InvalidData(m)) && m@ == "could not locate the actor section table"@),
                Some(tp) => (r matches Ok(f) && act_parsed(f@, data@, be, tp)),
            }),
    {
        let len = data.len();
        if len < 24 {
            return Err(Error::UnexpectedEof { context: "act header", offset: 0, needed: 24, available: len });
        }
        let big_endian = if data[0] == 0x4C && data[1] == 0x50 {
            false
        } else if data[0] == 0x50 && data[1] == 0x4C {
            true
        } else {
            return Err(Error::BadSignature { found: data[0] as u32 + data[1] as u32 * 256 });
        };
        let ghost b = data@;
        let r = Rdr { b: data.as_slice(), be: big_endian };
        let (version, name, image_size) = read_identity(&r);
        let table = find_table(&r);
        proof {
            lemma_first_table_bound(b, big_endian, 0x12, table_scan_end(len as int));
        }
        let tp = match table {
            Some(tp) => tp,
            None => {
                return Err(Error::InvalidData(crate::textutil::string_from_str("could not locate the actor section table")));
            },
        };
        let t = tp as u64;
        let sections: [u32; 7] = [r.u32(t), r.u32(t + 4), r.u32(t + 8), r.u32(t + 12), r.u32(t + 16), r.u32(t + 20), r.u32(t + 24)];
        assert(sections@ =~= sections_at(b, big_endian, tp as int));
        let palette = read_palette(&r, tp);

        let art_end = sections[0] as usize;
        proof {
            assert(table_at(b, big_endian, tp as int));
        }
        let (positions, cels, image_format) = read_artwork(&r, art_end);
        let (poses, frames, actions) = if image_format == CelFormat::Wmf {
            parse_anim_tables(&r, &positions, art_end, &sections)
        } else {
            let none: (Vec<Pose>, Vec<AnimFrame>, Vec<Action>) = (Vec::new(), Vec::new(), Vec::new());
            assert(poses_view(none.0@) =~= Seq::<Seq<Part>>::empty());
            assert(action_triples(none.2@) =~= Seq::<(u16, u16, u16)>::empty());
            none
        };
        let sounds = if big_endian {
            let none: Vec<Vec<u8>> = Vec::new();
            assert(byte_seqs(none@) =~= Seq::<Seq<u8>>::empty());
            none
        } else {
            extract_wave_streams(data.as_slice())
        };
        let f = ActFile {
            big_endian,
            version,
            name,
            image_size,
            palette,
            image_format,
            cels,
            poses,
            frames,
            actions,
            sounds,
            sections,
            data,
        };
        assert(act_parsed(f@, b, big_endian, tp as int));
        Ok(f)
    }
}

/// Byte `q` of an RGBA canvas `cw` pixels wide after copying the opaque pixels of `src`
/// with its top-left at `(ox, oy)`.
pub open spec fn copy_over_byte(canvas: Seq<u8>, cw: int, src: Rgba, ox: int, oy: int, q: int) -> u8 {
    let p = q / 4;
    let x = p % cw - ox;
    let y = p / cw - oy;
    if 0 <= x < src.width && 0 <= y < src.height && src.pixels@[(y * src.width + x) * 4 + 3] != 0 {
        src.pixels@[(y * src.width + x) * 4 + q % 4]
    } else {
        canvas[q]
    }
}

/// An RGBA canvas `cw` pixels wide after copying the opaque pixels of `src` onto it.
pub open spec fn copied_over(canvas: Seq<u8>, cw: int, src: Rgba, ox: int, oy: int) -> Seq<u8> {
    Seq::new(canvas.len(), |q: int| copy_over_byte(canvas, cw, src, ox, oy, q))
}

/// Copy the opaque pixels of `src` onto `dst` with its top-left at pixel `(ox, oy)`.
fn blit_over(dst: &mut Rgba, src: &Rgba, ox: i32, oy: i32)
    requires
        old(dst).wf(),
        src.wf(),
    ensures
        final(dst).width == old(dst).width,
        final(dst).height == old(dst).height,
        final(dst).pixels@ == copied_over(old(dst).pixels@, old(dst).width as int, *src, ox as int, oy as int),
{
    let ghost orig = dst.pixels@;
    let cw = dst.width as u64;
    let sw = src.width as i64;
    let sh = src.height as i64;
    let n = dst.pixels.len();
    let np = n / 4;
    let mut p: usize = 0;
    while p < np
        invariant
            n == orig.len(),
            n == dst.width * dst.height * 4,
            np == n / 4,
            cw == dst.width,
            dst.width == old(dst).width,
            dst.height == old(dst).height,
            orig == old(dst).pixels@,
            src.wf(),
            sw == src.width,
            sh == src.height,
            0 <= p <= np,
            dst.pixels@.len() == n,
            forall|q: int| 0 <= q < n ==> #[trigger] dst.pixels@[q] == (if q < 4 * p {
                copy_over_byte(orig, cw as int, *src, ox as int, oy as int, q)
            } else {
                orig[q]
            }),
        decreases np - p,
    {
        proof {
            if cw == 0 {
                assert(n == 0) by (nonlinear_arith)
                    requires
                        n == cw * dst.height * 4,
                        cw == 0,
                ;
            }
        }
        let x = (p as u64 % cw) as i64;
        let y = (p as u64 / cw) as i64;
        let sx = x - ox as i64;
        let sy = y - oy as i64;
        let ghost before = dst.pixels@;
        if 0 <= sx && sx < sw && 0 <= sy && sy < sh {
            assert((sy * sw + sx) * 4 + 3 < sw * sh * 4) by (nonlinear_arith)
                requires
                    0 <= sx < sw,
                    0 <= sy < sh,
            ;
            let ghost at: int = (sy * sw + sx) * 4;
            assert(at + 3 < src.pixels@.len());
            let slen = src.pixels.len();
            let syu = sy as usize;
            let swu = sw as usize;
            let sxu = sx as usize;
            assert(syu == sy && swu == sw && sxu == sx);
            assert(syu * swu == sy * sw);
            let si = (syu * swu + sxu) * 4;
            assert(si == at);
            if src.pixels[si + 3] != 0 {
                let b0 = src.pixels[si];
                let b1 = src.pixels[si + 1];
                let b2 = src.pixels[si + 2];
                let b3 = src.pixels[si + 3];
                dst.pixels.set(4 * p, b0);
                dst.pixels.set(4 * p + 1, b1);
                dst.pixels.set(4 * p + 2, b2);
                dst.pixels.set(4 * p + 3, b3);
            }
            proof {
                assert forall|q: int| 4 * p <= q < 4 * p + 4 implies #[trigger] dst.pixels@[q] == copy_over_byte(orig, cw as int, *src, ox as int, oy as int, q) by {
                    assert(q / 4 == p);
                    assert(q % 4 == q - 4 * p);
                    assert(orig[q] == before[q]);
                }
            }
        } else {
            proof {
                assert forall|q: int| 4 * p <= q < 4 * p + 4 implies #[trigger] dst.pixels@[q] == copy_over_byte(orig, cw as int, *src, ox as int, oy as int, q) by {
                    assert(q / 4 == p);
                }
            }
        }
        p += 1;
    }
    proof {
        assert(4 * np == n) by {
            assert(n % 4 == 0) by (nonlinear_arith)
                requires
                    n == cw * dst.height * 4,
            ;
        }
    }
    assert(dst.pixels@ =~= copied_over(orig, cw as int, *src, ox as int, oy as int));
}

/// A twips coordinate in pixels (divided by 15, rounding toward zero).
pub open spec fn twips_to_px(v: i16) -> int {
    if v >= 0 {
        v / 15
    } else {
        -((-v) / 15)
    }
}

/// `twips_to_px`.
fn twips_px(v: i16) -> (r: i32)
    ensures
        r == twips_to_px(v),
{
    let w = v as i32;
    if w >= 0 {
        w / 15
    } else {
        -((-w) / 15)
    }
}

/// A canvas `cw` pixels wide after drawing the first `k` parts of a pose in order, each
/// rasterized cel (when `rendered` has it) placed at its destination.
pub open spec fn pose_layers(canvas: Seq<u8>, cw: int, parts: Seq<Part>, rendered: Seq<Option<Rgba>>, k: nat) -> Seq<u8>
    decreases k,
{
    if k == 0 || k > parts.len() {
        canvas
    } else {
        let prev = pose_layers(canvas, cw, parts, rendered, (k - 1) as nat);
        let part = parts[k - 1];
        if (part.image as int) < rendered.len() && rendered[part.image as int] is Some {
            copied_over(prev, cw, rendered[part.image as int]->0, twips_to_px(part.rect.0), twips_to_px(part.rect.1))
        } else {
            prev
        }
    }
}

/// Whether a `w` by `h` RGBA frame fits in memory.
pub open spec fn frame_fits(w: u16, h: u16) -> bool {
    w * h * 4 <= usize::MAX
}

/// The frame of pose `index`: the parts drawn in order over a transparent frame of the
/// default size.
pub open spec fn pose_frame(v: ActView, index: int, rendered: Seq<Option<Rgba>>) -> Seq<u8> {
    let (w, h) = v.image_size;
    pose_layers(Seq::new((w * h * 4) as nat, |i: int| 0u8), w as int, v.poses[index], rendered, v.poses[index].len())
}

/// The first action whose name equals `name` ignoring ASCII case.
pub open spec fn action_named(actions: Seq<Action>, name: Seq<char>, i: int) -> Option<int>
    decreases actions.len() - i,
{
    if i < 0 || i >= actions.len() {
        None
    } else if eq_ignore_case(actions[i].name@, name) {
        Some(i)
    } else {
        action_named(actions, name, i + 1)
    }
}

/// The steps of a walk through the frame graph from frame `i`: each frame shown at most
/// three times (a fourth visit ends the walk), zero-duration frames passed through
/// without a step, and the walk ends at `max` steps or on leaving the graph. `fuel`
/// bounds the number of visits left.
pub open spec fn walk_steps(frames: Seq<AnimFrame>, i: int, visits: Seq<u32>, out: Seq<(u16, u16)>, max: int, fuel: nat) -> Seq<(u16, u16)>
    decreases fuel,
{
    if fuel == 0 || out.len() >= max || !(0 <= i < frames.len()) || visits[i] >= 3 {
        out
    } else {
        let f = frames[i];
        let out2 = if f.duration_ms > 0 { out.push((f.object, f.duration_ms)) } else { out };
        let next = match f.branch {
            Branch::Next => i + 1,
            Branch::Jump(t) => t as int,
            Branch::Probable { target, .. } => target as int,
        };
        walk_steps(frames, next, visits.update(i, (visits[i] + 1) as u32), out2, max, (fuel - 1) as nat)
    }
}

/// The steps of an action: the walk from its first frame with no frame visited yet.
pub open spec fn action_steps(frames: Seq<AnimFrame>, first: u16, max: int) -> Seq<(u16, u16)> {
    walk_steps(frames, first as int, Seq::new(frames.len(), |k: int| 0u32), Seq::empty(), max, (3 * frames.len() + 1) as nat)
}

/// The sum of some visit counts.
pub open spec fn visits_sum(v: Seq<u32>) -> int
    decreases v.len(),
{
    if v.len() == 0 {
        0
    } else {
        visits_sum(v.drop_last()) + v.last()
    }
}

/// Counts of at most three sum to at most three per entry.
proof fn lemma_visits_bound(v: Seq<u32>)
    requires
        forall|k: int| 0 <= k < v.len() ==> #[trigger] v[k] <= 3,
    ensures
        0 <= visits_sum(v) <= 3 * v.len(),
    decreases v.len(),
{
    if v.len() > 0 {
        lemma_visits_bound(v.drop_last());
    }
}

/// Raising one count raises the sum by one.
proof fn lemma_visits_bump(v: Seq<u32>, i: int)
    requires
        0 <= i < v.len(),
        v[i] < u32::MAX,
    ensures
        visits_sum(v.update(i, (v[i] + 1) as u32)) == visits_sum(v) + 1,
    decreases v.len(),
{
    let w = v.update(i, (v[i] + 1) as u32);
    if i == v.len() - 1 {
        assert(w.drop_last() =~= v.drop_last());
    } else {
        assert(w.drop_last() =~= v.drop_last().update(i, (v[i] + 1) as u32));
        lemma_visits_bump(v.drop_last(), i);
    }
}

impl ActFile {
    /// Raw bytes of cel `index` (the placeable metafile for metafile cels, the `MNAK`
    /// block for compressed bitmap cels).
    pub fn cel_bytes(&self, index: usize) -> (r: Option<&[u8]>)
        ensures
            r is Some <==> (index < self@.cels.len() && self@.cels[index as int].offset
                + self@.cels[index as int].len <= self@.bytes.len()),
            r matches Some(s) ==> s@ == self@.bytes.subrange(
                self@.cels[index as int].offset as int,
                self@.cels[index as int].offset + self@.cels[index as int].len,
            ),
    {
        if index >= self.cels.len() {
            return None;
        }
        let cel = self.cels[index];
        if cel.offset > self.data.len() || cel.len > self.data.len() - cel.offset {
            return None;
        }
        Some(slice_subrange(self.data.as_slice(), cel.offset, cel.offset + cel.len))
    }

    /// Decompress a compressed-bitmap (`MNAK`) cel: after the tag, a little-endian `u32`
    /// uncompressed size and four more header words, the rest is the compressed stream.
    /// `None` for other cels, for blocks too short or not tagged, or when decompression
    /// fails.
    pub fn decompress_cel(&self, index: usize) -> (r: Option<Vec<u8>>)
        ensures
            r is Some <==> ({
                &&& index < self@.cels.len()
                &&& self@.cels[index as int].format == CelFormat::Bitmap
                &&& self@.cels[index as int].offset + self@.cels[index as int].len <= self@.bytes.len()
                &&& self@.cels[index as int].len >= 24
                &&& self@.bytes.subrange(
                    self@.cels[index as int].offset as int,
                    self@.cels[index as int].offset + 4,
                ) == seq![0x4Du8, 0x4E, 0x41, 0x4B]
                &&& rd32(self@.bytes, false, self@.cels[index as int].offset + 4) == 0
            }),
            r matches Some(v) ==> v@.len() == 0,
    {
        if index >= self.cels.len() {
            return None;
        }
        let cel = self.cels[index];
        if cel.format != CelFormat::Bitmap {
            return None;
        }
        let block = match self.cel_bytes(index) {
            Some(b) => b,
            None => return None,
        };
        if block.len() < 24 || block[0] != 0x4D || block[1] != 0x4E || block[2] != 0x41 || block[3] != 0x4B {
            proof {
                if block@.len() >= 24 {
                    assert(block@.subrange(0, 4) == self@.bytes.subrange(cel.offset as int, cel.offset + 4));
                }
            }
            return None;
        }
        assert(block@.subrange(0, 4) == self@.bytes.subrange(cel.offset as int, cel.offset + 4));
        assert(block@.subrange(0, 4) =~= seq![0x4Du8, 0x4E, 0x41, 0x4B]);
        let size = block[4] as u32 + block[5] as u32 * 256 + block[6] as u32 * 65536 + block[7] as u32 * 16777216;
        assert(size == rd32(self@.bytes, false, cel.offset + 4));
        match crate::decode::decode_data(slice_subrange(block, 24, block.len()), size as usize) {
            Ok(v) => Some(v),
            Err(_) => None,
        }
    }

    /// Composite pose `index` into a full character frame of the default size: its parts
    /// drawn in order, each rasterized cel (`rendered[image]`, when present) placed at its
    /// destination, twips divided by 15. `None` for an unknown pose, an unknown frame size,
    /// or a frame too large to allocate.
    pub fn render_pose(&self, index: usize, rendered: &[Option<Rgba>]) -> (r: Option<Rgba>)
        requires
            forall|i: int| 0 <= i < rendered@.len() ==> (#[trigger] rendered@[i] matches Some(img) ==> img.wf()),
        ensures
            r is Some <==> (index < self@.poses.len() && self@.image_size.0 != 0 && self@.image_size.1 != 0
                && frame_fits(self@.image_size.0, self@.image_size.1)),
            r matches Some(img) ==> img.width == self@.image_size.0 && img.height == self@.image_size.1
                && img.pixels@ == pose_frame(self@, index as int, rendered@),
    {
        if index >= self.poses.len() {
            return None;
        }
        let (w, h) = self.image_size;
        if w == 0 || h == 0 {
            return None;
        }
        let cw = w as u32;
        let ch = h as u32;
        assert((cw as u64) * (ch as u64) <= 0xFFFF * 0xFFFF) by (nonlinear_arith)
            requires
                cw <= 0xFFFF,
                ch <= 0xFFFF,
        ;
        if (cw as u64) * (ch as u64) * 4 > usize::MAX as u64 {
            return None;
        }
        let mut canvas = Rgba::transparent(cw, ch);
        let ghost start = canvas.pixels@;
        let parts = &self.poses[index].parts;
        assert(parts@ == self@.poses[index as int]);
        let mut k: usize = 0;
        while k < parts.len()
            invariant
                0 <= k <= parts@.len(),
                canvas.width == cw,
                canvas.height == ch,
                canvas.wf(),
                forall|i: int| 0 <= i < rendered@.len() ==> (#[trigger] rendered@[i] matches Some(img) ==> img.wf()),
                canvas.pixels@ == pose_layers(start, cw as int, parts@, rendered@, k as nat),
            decreases parts@.len() - k,
        {
            let part = parts[k];
            let img = part.image as usize;
            if img < rendered.len() {
                match &rendered[img] {
                    Some(cel) => {
                        let ox = twips_px(part.rect.0);
                        let oy = twips_px(part.rect.1);
                        blit_over(&mut canvas, cel, ox, oy);
                    },
                    None => {},
                }
            }
            k += 1;
        }
        Some(canvas)
    }

    /// Render an animation frame's object to a full character frame: an object past the
    /// cels names a pose, composited by [`ActFile::render_pose`]; any other object (a bare
    /// cel index, a hidden-frame sentinel, or out of range) is a fully transparent frame.
    /// `None` when the frame size is unknown (or the frame too large to allocate).
    pub fn render_object(&self, object: usize, rendered: &[Option<Rgba>]) -> (r: Option<Rgba>)
        requires
            forall|i: int| 0 <= i < rendered@.len() ==> (#[trigger] rendered@[i] matches Some(img) ==> img.wf()),
        ensures
            r is Some <==> (self@.image_size.0 != 0 && self@.image_size.1 != 0 && frame_fits(
                self@.image_size.0,
                self@.image_size.1,
            )),
            r matches Some(img) ==> img.width == self@.image_size.0 && img.height == self@.image_size.1
                && img.pixels@ == if object >= self@.cels.len() && object - self@.cels.len() < self@.poses.len() {
                pose_frame(self@, object - self@.cels.len(), rendered@)
            } else {
                Seq::new((self@.image_size.0 * self@.image_size.1 * 4) as nat, |i: int| 0u8)
            },
    {
        let nc = self.cels.len();
        if object >= nc && object - nc < self.poses.len() {
            return self.render_pose(object - nc, rendered);
        }
        let (w, h) = self.image_size;
        assert((w as u64) * (h as u64) <= 0xFFFF * 0xFFFF) by (nonlinear_arith)
            requires
                w <= 0xFFFF,
                h <= 0xFFFF,
        ;
        if w == 0 || h == 0 || (w as u64) * (h as u64) * 4 > usize::MAX as u64 {
            return None;
        }
        Some(Rgba::transparent(w as u32, h as u32))
    }

    /// Find an action by name, ignoring ASCII case (e.g. `"Greeting"`, `"thinking"`).
    pub fn action(&self, name: &str) -> (r: Option<&Action>)
        ensures
            match action_named(self@.actions, name@, 0) {
                Some(i) => r == Some(&self@.actions[i]),
                None => r is None,
            },
    {
        let mut i: usize = 0;
        while i < self.actions.len()
            invariant
                self.actions@ == self@.actions,
                0 <= i <= self.actions@.len(),
                action_named(self@.actions, name@, 0) == action_named(self@.actions, name@, i as int),
            decreases self.actions@.len() - i,
        {
            if str_eq_ignore_case(self.actions[i].name.as_str(), name) {
                return Some(&self.actions[i]);
            }
            i += 1;
        }
        None
    }

    /// Resolve an action to a linear list of `(object, duration_ms)` steps by walking the
    /// frame graph from its first frame (advancing, jumping, or taking branches), with a
    /// visit cap so loops end.
    pub fn action_sequence(&self, action: &Action, max_steps: usize) -> (out: Vec<(u16, u16)>)
        ensures
            out@ == action_steps(self@.frames, action.first_frame, max_steps as int),
    {
        let frames = &self.frames;
        let ghost fs = frames@;
        let n = frames.len();
        let mut visits: Vec<u32> = crate::model::vec_filled(0u32, n);
        let mut out: Vec<(u16, u16)> = Vec::new();
        let mut i: usize = action.first_frame as usize;
        let ghost mut fuel: nat = (3 * n + 1) as nat;
        proof {
            assert(visits@ =~= Seq::new(fs.len(), |k: int| 0u32));
            lemma_visits_zero(visits@);
        }
        while out.len() < max_steps && i < n && visits[i] < 3
            invariant
                fs == frames@,
                fs == self@.frames,
                n == fs.len(),
                visits@.len() == n,
                forall|k: int| 0 <= k < n ==> #[trigger] visits@[k] <= 3,
                fuel == 3 * n + 1 - visits_sum(visits@),
                fuel >= 1,
                walk_steps(fs, i as int, visits@, out@, max_steps as int, fuel) == action_steps(fs, action.first_frame, max_steps as int),
            decreases fuel,
        {
            let f = frames[i];
            if f.duration_ms > 0 {
                out.push((f.object, f.duration_ms));
            }
            let ghost old_visits = visits@;
            let v = visits[i];
            visits.set(i, v + 1);
            proof {
                lemma_visits_bump(old_visits, i as int);
                lemma_visits_bound(visits@);
                fuel = (fuel - 1) as nat;
            }
            i = match f.branch {
                Branch::Next => i + 1,
                Branch::Jump(t) => t as usize,
                Branch::Probable { target, .. } => target as usize,
            };
        }
        out
    }
}

/// No visits sum to nothing.
proof fn lemma_visits_zero(v: Seq<u32>)
    requires
        forall|k: int| 0 <= k < v.len() ==> #[trigger] v[k] == 0,
    ensures
        visits_sum(v) == 0,
    decreases v.len(),
{
    if v.len() > 0 {
        lemma_visits_zero(v.drop_last());
    }
}

} // verus!
