//! A minimal animated GIF89a encoder for palette-indexed frames.
//!
//! Microsoft Agent characters are 8-bpp palettized with a single transparent color key
//! (GIF's global color table and transparent index), and their frame durations are in
//! centiseconds (GIF's delay unit).
//!
//! The image data is standard GIF variable-width LZW. The string table is kept as GIF
//! defines it: each entry after the single bytes is a pair of a prefix code and one more
//! byte. The code width grows when the next code to assign reaches one past the current
//! width's range, because the encoder's table runs one entry ahead of the decoder's;
//! widening at the naive point desyncs every conforming decoder.

use vstd::prelude::*;

verus! {

/// The little-endian bytes of a `u16`.
pub open spec fn le16(v: u16) -> Seq<u8> {
    seq![(v % 256) as u8, (v / 256) as u8]
}

/// Palette entry `i`, black past the end.
pub open spec fn palette_entry(palette: Seq<[u8; 3]>, i: int) -> Seq<u8> {
    if 0 <= i < palette.len() {
        palette[i]@
    } else {
        seq![0u8, 0, 0]
    }
}

/// The global color table: exactly 256 RGB triples from the palette.
pub open spec fn color_table(palette: Seq<[u8; 3]>) -> Seq<u8> {
    Seq::new(768, |j: int| palette_entry(palette, j / 3)[j % 3])
}

/// `"NETSCAPE2.0"` application extension: loop forever.
pub open spec fn loop_forever() -> Seq<u8> {
    seq![0x21u8, 0xFF, 0x0B, 0x4E, 0x45, 0x54, 0x53, 0x43, 0x41, 0x50, 0x45, 0x32, 0x2E, 0x30, 0x03, 0x01, 0x00, 0x00, 0x00]
}

/// The bytes before the first frame: signature, logical screen descriptor (global color
/// table of 256 entries, background = the transparent index), color table, loop forever.
pub open spec fn gif_header(width: u16, height: u16, palette: Seq<[u8; 3]>, transparent: u8) -> Seq<u8> {
    seq![0x47u8, 0x49, 0x46, 0x38, 0x39, 0x61] + le16(width) + le16(height) + seq![0xF7u8, transparent, 0]
        + color_table(palette) + loop_forever()
}

/// Data split into sub-blocks of at most 255 bytes, each led by its length.
pub open spec fn sub_blocks(s: Seq<u8>) -> Seq<u8>
    decreases s.len(),
{
    if s.len() == 0 {
        Seq::empty()
    } else {
        let n = if s.len() < 255 { s.len() as int } else { 255 };
        seq![n as u8] + s.take(n) + sub_blocks(s.skip(n))
    }
}

/// One frame: graphic control extension (restore-to-background disposal, transparency
/// on), full-frame image descriptor, and the LZW data in sub-blocks.
pub open spec fn frame_bytes(width: u16, height: u16, transparent: u8, delay_cs: u16, lzw: Seq<u8>) -> Seq<u8> {
    seq![0x21u8, 0xF9, 0x04, 0x09] + le16(delay_cs) + seq![transparent, 0x00, 0x2C, 0, 0, 0, 0] + le16(width)
        + le16(height) + seq![0x00u8, 8] + sub_blocks(lzw) + seq![0x00u8]
}

/// Bit packing state: pending bits `acc` (`nbits` of them) and the bytes written.
pub struct BitState {
    pub acc: u32,
    pub nbits: u32,
    pub bytes: Seq<u8>,
}

/// Move whole bytes of pending bits out, low bits first.
pub open spec fn bits_flush(s: BitState) -> BitState
    decreases s.nbits,
{
    if s.nbits >= 8 {
        bits_flush(BitState { acc: s.acc >> 8, nbits: (s.nbits - 8) as u32, bytes: s.bytes.push((s.acc & 0xFF) as u8) })
    } else {
        s
    }
}

/// Append a `size`-bit code above the pending bits, then flush.
pub open spec fn bits_write(s: BitState, code: u32, size: u32) -> BitState {
    bits_flush(BitState { acc: s.acc | (code << s.nbits), nbits: (s.nbits + size) as u32, bytes: s.bytes })
}

/// Write a sequence of `(code, size)` pairs.
pub open spec fn bits_write_all(s: BitState, codes: Seq<(u32, u32)>) -> BitState
    decreases codes.len(),
{
    if codes.len() == 0 {
        s
    } else {
        bits_write_all(bits_write(s, codes[0].0, codes[0].1), codes.skip(1))
    }
}

/// The packed bytes of a code sequence, the last partial byte padded with zeros.
pub open spec fn pack_codes(codes: Seq<(u32, u32)>) -> Seq<u8> {
    let s = bits_write_all(BitState { acc: 0, nbits: 0, bytes: Seq::empty() }, codes);
    if s.nbits > 0 {
        s.bytes.push((s.acc & 0xFF) as u8)
    } else {
        s.bytes
    }
}

/// The LZW encoder's state: the string table beyond the single bytes (prefix code and
/// byte to code), the code of the pending string, the next code to assign, the code
/// width and the codes emitted so far.
pub struct LzwState {
    pub table: Map<(u32, u8), u32>,
    pub cur: u32,
    pub next: u32,
    pub size: u32,
    pub out: Seq<(u32, u32)>,
}

/// Feed one byte: extend the pending string when the table has it, otherwise emit the
/// pending string's code, add the extended string (or, with the table full, emit a clear
/// code and start over), and continue from the byte alone.
pub open spec fn lzw_step(s: LzwState, k: u8, min_size: u32) -> LzwState {
    let clear = (1u32 << min_size) as u32;
    let end = (clear + 1) as u32;
    if s.table.contains_key((s.cur, k)) {
        LzwState { cur: s.table[(s.cur, k)], ..s }
    } else {
        let out = s.out.push((s.cur, s.size));
        if s.next < 4096 {
            let next = (s.next + 1) as u32;
            let size = if next == (1u32 << s.size) + 1 && s.size < 12 { (s.size + 1) as u32 } else { s.size };
            LzwState { table: s.table.insert((s.cur, k), s.next), cur: k as u32, next, size, out }
        } else {
            LzwState {
                table: Map::empty(),
                cur: k as u32,
                next: (end + 1) as u32,
                size: (min_size + 1) as u32,
                out: out.push((clear, s.size)),
            }
        }
    }
}

/// Feed the bytes `data[i..]`.
pub open spec fn lzw_run(data: Seq<u8>, i: int, s: LzwState, min_size: u32) -> LzwState
    decreases data.len() - i,
{
    if i < 0 || i >= data.len() {
        s
    } else {
        lzw_run(data, i + 1, lzw_step(s, data[i], min_size), min_size)
    }
}

/// The `(code, width)` sequence GIF LZW emits for `data`: a clear code, the codes of the
/// table's strings covering the data, the last pending string and the end code.
pub open spec fn lzw_codes(data: Seq<u8>, min_size: u32) -> Seq<(u32, u32)> {
    let clear = (1u32 << min_size) as u32;
    let end = (clear + 1) as u32;
    let size0 = (min_size + 1) as u32;
    if data.len() == 0 {
        seq![(clear, size0), (end, size0)]
    } else {
        let s0 = LzwState { table: Map::empty(), cur: data[0] as u32, next: (end + 1) as u32, size: size0, out: seq![(clear, size0)] };
        let s = lzw_run(data, 1, s0, min_size);
        s.out.push((s.cur, s.size)).push((end, s.size))
    }
}

/// The encoded bytes of `data`.
pub open spec fn lzw_bytes(data: Seq<u8>, min_size: u32) -> Seq<u8> {
    pack_codes(lzw_codes(data, min_size))
}

/// Packs codes into bytes, low bits first.
struct BitWriter {
    acc: u32,
    nbits: u32,
    bytes: Vec<u8>,
}

impl BitWriter {
    spec fn state(&self) -> BitState {
        BitState { acc: self.acc, nbits: self.nbits, bytes: self.bytes@ }
    }

    fn write(&mut self, code: u32, size: u32)
        requires
            old(self).nbits < 8,
            size <= 12,
        ensures
            final(self).state() == bits_write(old(self).state(), code, size),
            final(self).nbits < 8,
    {
        self.acc = self.acc | (code << self.nbits);
        self.nbits = self.nbits + size;
        while self.nbits >= 8
            invariant
                self.nbits <= 20,
                bits_flush(self.state()) == bits_write(old(self).state(), code, size),
            decreases self.nbits,
        {
            self.bytes.push((self.acc & 0xFF) as u8);
            self.acc = self.acc >> 8;
            self.nbits = self.nbits - 8;
        }
    }

    fn finish(self) -> (v: Vec<u8>)
        ensures
            v@ == (if self.nbits > 0 { self.bytes@.push((self.acc & 0xFF) as u8) } else { self.bytes@ }),
    {
        let mut bytes = self.bytes;
        if self.nbits > 0 {
            bytes.push((self.acc & 0xFF) as u8);
        }
        bytes
    }
}

/// The trie slot of the table entry for prefix code `c` and byte `k`.
pub open spec fn slot(c: int, k: int) -> int {
    c * 256 + k
}

/// The trie `child` holds exactly the table: each slot the code of its entry, or 0.
pub open spec fn trie_matches(child: Seq<u16>, table: Map<(u32, u8), u32>) -> bool {
    &&& child.len() == 4096 * 256
    &&& forall|c: u32, k: u8| c < 4096 ==> #[trigger] child[slot(c as int, k as int)] == (if table.contains_key((c, k)) {
        table[(c, k)] as u16
    } else {
        0u16
    })
}

/// The table's entries have prefix codes and codes below `next`, codes past `end`.
pub open spec fn table_ok(table: Map<(u32, u8), u32>, end: u32, next: u32) -> bool {
    forall|key: (u32, u8)| #[trigger] table.contains_key(key) ==> key.0 < 4096 && end < table[key] < next
}

/// Standard GIF variable-width LZW encoding of `data` with `min_code_size`-bit roots.
pub fn lzw_encode(data: &[u8], min_code_size: u8) -> (out: Vec<u8>)
    requires
        1 <= min_code_size <= 8,
        forall|i: int| 0 <= i < data@.len() ==> (data@[i] as int) < (1u32 << min_code_size),
    ensures
        out@ == lzw_bytes(data@, min_code_size as u32),
{
    let ghost ms = min_code_size as u32;
    let clear: u32 = 1u32 << min_code_size;
    assert(clear <= 256) by (bit_vector)
        requires
            1 <= min_code_size <= 8,
            clear == 1u32 << min_code_size,
    ;
    assert(clear >= 2) by (bit_vector)
        requires
            1 <= min_code_size <= 8,
            clear == 1u32 << min_code_size,
    ;
    let end = clear + 1;
    let mut bits = BitWriter { acc: 0, nbits: 0, bytes: Vec::new() };
    let size0 = min_code_size as u32 + 1;
    let mut code_size = size0;
    bits.write(clear, code_size);
    if data.len() == 0 {
        bits.write(end, code_size);
        proof {
            let st0 = BitState { acc: 0, nbits: 0, bytes: Seq::empty() };
            lemma_write_all_push(Seq::empty(), clear, size0);
            lemma_write_all_push(seq![(clear, size0)], end, size0);
            assert(Seq::<(u32, u32)>::empty().push((clear, size0)) =~= seq![(clear, size0)]);
            assert(seq![(clear, size0)].push((end, size0)) =~= seq![(clear, size0), (end, size0)]);
            assert(lzw_codes(data@, ms) == seq![(clear, size0), (end, size0)]);
        }
        return bits.finish();
    }
    let mut child: Vec<u16> = crate::model::vec_filled(0u16, 4096 * 256);
    let ghost mut table: Map<(u32, u8), u32> = Map::empty();
    let mut next_code: u32 = end + 1;
    let mut cur: u32 = data[0] as u32;
    let ghost mut out: Seq<(u32, u32)> = seq![(clear, size0)];
    proof {
        assert(trie_matches(child@, table));
        lemma_write_all_push(Seq::empty(), clear, size0);
        assert(Seq::<(u32, u32)>::empty().push((clear, size0)) =~= out);
    }
    let mut i: usize = 1;
    while i < data.len()
        invariant
            1 <= i <= data@.len(),
            ms == min_code_size,
            1 <= min_code_size <= 8,
            clear == 1u32 << min_code_size,
            2 <= clear <= 256,
            end == clear + 1,
            size0 == ms + 1,
            forall|j: int| 0 <= j < data@.len() ==> (data@[j] as int) < clear,
            trie_matches(child@, table),
            table_ok(table, end, next_code),
            end < next_code <= 4096,
            cur < next_code,
            cur < 4096,
            ms + 1 <= code_size <= 12,
            bits.nbits < 8,
            bits_write_all(BitState { acc: 0, nbits: 0, bytes: Seq::empty() }, out) == bits.state(),
            lzw_run(data@, 1, LzwState { table: Map::empty(), cur: data@[0] as u32, next: (end + 1) as u32, size: size0, out: seq![(clear, size0)] }, ms)
                == lzw_run(data@, i as int, LzwState { table, cur, next: next_code, size: code_size, out }, ms),
        decreases data@.len() - i,
    {
        let k = data[i];
        let idx = cur as usize * 256 + k as usize;
        let hit = child[idx];
        assert(child@[slot(cur as int, k as int)] == hit);
        let ghost s = LzwState { table, cur, next: next_code, size: code_size, out };
        if hit != 0 {
            assert(table.contains_key((cur, k)));
            proof {
                assert(lzw_step(s, k, ms) == LzwState { cur: hit as u32, ..s });
            }
            cur = hit as u32;
        } else {
            assert(!table.contains_key((cur, k)));
            bits.write(cur, code_size);
            proof {
                lemma_write_all_push(out, cur, code_size);
                out = out.push((cur, code_size));
            }
            if next_code < 4096 {
                child.set(idx, next_code as u16);
                proof {
                    table = table.insert((cur, k), next_code);
                    assert forall|c: u32, kk: u8| c < 4096 implies #[trigger] child@[slot(c as int, kk as int)] == (if table.contains_key((c, kk)) {
                        table[(c, kk)] as u16
                    } else {
                        0u16
                    }) by {
                        if (c, kk) != (cur, k) {
                            assert(slot(c as int, kk as int) != slot(cur as int, k as int)) by (nonlinear_arith)
                                requires
                                    (c, kk) != (cur, k),
                                    c < 4096,
                                    cur < 4096,
                            ;
                        }
                    }
                }
                next_code = next_code + 1;
                assert((1u32 << code_size) <= 4096) by (bit_vector)
                    requires
                        code_size <= 12,
                ;
                let bump = (1u32 << code_size) + 1;
                if next_code == bump && code_size < 12 {
                    code_size = code_size + 1;
                }
            } else {
                bits.write(clear, code_size);
                proof {
                    lemma_write_all_push(out, clear, code_size);
                    out = out.push((clear, code_size));
                    table = Map::empty();
                }
                child = crate::model::vec_filled(0u16, 4096 * 256);
                code_size = size0;
                next_code = end + 1;
            }
            cur = k as u32;
        }
        i += 1;
    }
    bits.write(cur, code_size);
    proof {
        lemma_write_all_push(out, cur, code_size);
        out = out.push((cur, code_size));
    }
    bits.write(end, code_size);
    proof {
        lemma_write_all_push(out, end, code_size);
        out = out.push((end, code_size));
    }
    bits.finish()
}

/// Writing one more code extends the written state by that code.
proof fn lemma_write_all_push(codes: Seq<(u32, u32)>, code: u32, size: u32)
    ensures
        bits_write_all(BitState { acc: 0, nbits: 0, bytes: Seq::empty() }, codes.push((code, size)))
            == bits_write(bits_write_all(BitState { acc: 0, nbits: 0, bytes: Seq::empty() }, codes), code, size),
{
    lemma_write_all_split(BitState { acc: 0, nbits: 0, bytes: Seq::empty() }, codes, code, size);
}

proof fn lemma_write_all_split(s: BitState, codes: Seq<(u32, u32)>, code: u32, size: u32)
    ensures
        bits_write_all(s, codes.push((code, size))) == bits_write(bits_write_all(s, codes), code, size),
    decreases codes.len(),
{
    if codes.len() == 0 {
        let one = codes.push((code, size));
        assert(one.skip(1) =~= Seq::<(u32, u32)>::empty());
        assert(one[0] == (code, size));
        assert(bits_write_all(bits_write(s, code, size), one.skip(1)) == bits_write(s, code, size));
    } else {
        let longer = codes.push((code, size));
        assert(longer.skip(1) =~= codes.skip(1).push((code, size)));
        assert(longer[0] == codes[0]);
        lemma_write_all_split(bits_write(s, codes[0].0, codes[0].1), codes.skip(1), code, size);
    }
}

/// Builds an animated GIF from full-frame palette-indexed images sharing one palette.
pub struct GifBuilder {
    out: Vec<u8>,
    width: u16,
    height: u16,
    transparent: u8,
}

/// A GIF under construction as plain values: the bytes so far and the frame geometry.
pub struct GifView {
    pub bytes: Seq<u8>,
    pub width: u16,
    pub height: u16,
    pub transparent: u8,
}

impl View for GifBuilder {
    type V = GifView;

    closed spec fn view(&self) -> GifView {
        GifView { bytes: self.out@, width: self.width, height: self.height, transparent: self.transparent }
    }
}

/// Append `s` to `v`.
fn push_all(v: &mut Vec<u8>, s: &[u8])
    ensures
        final(v)@ == old(v)@ + s@,
{
    let mut i: usize = 0;
    while i < s.len()
        invariant
            0 <= i <= s@.len(),
            v@ == old(v)@ + s@.take(i as int),
        decreases s@.len() - i,
    {
        v.push(s[i]);
        i += 1;
        assert(v@ =~= old(v)@ + s@.take(i as int));
    }
    assert(s@.take(s@.len() as int) =~= s@);
}

/// Append a little-endian `u16`.
fn push_le16(v: &mut Vec<u8>, x: u16)
    ensures
        final(v)@ == old(v)@ + le16(x),
{
    v.push((x % 256) as u8);
    v.push((x / 256) as u8);
    assert(v@ =~= old(v)@ + le16(x));
}

impl GifBuilder {
    /// Start a GIF `width` by `height` with a global `palette` (up to 256 `[r, g, b]`
    /// entries, black past its end) and a `transparent` palette index. Loops forever.
    pub fn new(width: u16, height: u16, palette: &[[u8; 3]], transparent: u8) -> (g: GifBuilder)
        ensures
            g@.bytes == gif_header(width, height, palette@, transparent),
            g@.width == width,
            g@.height == height,
            g@.transparent == transparent,
    {
        let mut out: Vec<u8> = Vec::new();
        let sig: [u8; 6] = [0x47, 0x49, 0x46, 0x38, 0x39, 0x61];
        push_all(&mut out, &sig);
        push_le16(&mut out, width);
        push_le16(&mut out, height);
        out.push(0xF7);
        out.push(transparent);
        out.push(0);
        let ghost head = out@;
        let mut i: usize = 0;
        while i < 256
            invariant
                0 <= i <= 256,
                out@ == head + color_table(palette@).take(3 * i),
            decreases 256 - i,
        {
            let c: [u8; 3] = if i < palette.len() { palette[i] } else { [0, 0, 0] };
            assert(c@ =~= palette_entry(palette@, i as int));
            out.push(c[0]);
            out.push(c[1]);
            out.push(c[2]);
            i += 1;
            proof {
                assert forall|j: int| 3 * (i - 1) <= j < 3 * i implies color_table(palette@)[j] == palette_entry(palette@, i - 1)[j - 3 * (i - 1)] by {
                    assert(j / 3 == i - 1);
                }
            }
            assert(out@ =~= head + color_table(palette@).take(3 * i));
        }
        assert(color_table(palette@).take(768) =~= color_table(palette@));
        let ext: [u8; 19] = [0x21, 0xFF, 0x0B, 0x4E, 0x45, 0x54, 0x53, 0x43, 0x41, 0x50, 0x45, 0x32, 0x2E, 0x30, 0x03, 0x01, 0x00, 0x00, 0x00];
        push_all(&mut out, &ext);
        assert(ext@ =~= loop_forever());
        assert(sig@ =~= seq![0x47u8, 0x49, 0x46, 0x38, 0x39, 0x61]);
        assert(out@ =~= gif_header(width, height, palette@, transparent));
        GifBuilder { out, width, height, transparent }
    }

    /// Append one full-frame image (`width * height` palette indices, top-down) shown for
    /// `delay_cs` centiseconds, with restore-to-background disposal so the transparent key
    /// shows between frames.
    pub fn add_frame(&mut self, indices: &[u8], delay_cs: u16)
        requires
            indices@.len() == old(self)@.width * old(self)@.height,
        ensures
            final(self)@.bytes == old(self)@.bytes + frame_bytes(
                old(self)@.width,
                old(self)@.height,
                old(self)@.transparent,
                delay_cs,
                lzw_bytes(indices@, 8),
            ),
            final(self)@.width == old(self)@.width,
            final(self)@.height == old(self)@.height,
            final(self)@.transparent == old(self)@.transparent,
    {
        let ghost start = self.out@;
        let gce: [u8; 4] = [0x21, 0xF9, 0x04, 0x09];
        push_all(&mut self.out, &gce);
        push_le16(&mut self.out, delay_cs);
        self.out.push(self.transparent);
        self.out.push(0x00);
        self.out.push(0x2C);
        push_le16(&mut self.out, 0);
        push_le16(&mut self.out, 0);
        push_le16(&mut self.out, self.width);
        push_le16(&mut self.out, self.height);
        self.out.push(0x00);
        self.out.push(8);
        let ghost mid = self.out@;
        assert(mid =~= start + (seq![0x21u8, 0xF9, 0x04, 0x09] + le16(delay_cs) + seq![self.transparent, 0x00, 0x2C, 0, 0, 0, 0]
            + le16(self.width) + le16(self.height) + seq![0x00u8, 8]));
        proof {
            assert forall|i: int| 0 <= i < indices@.len() implies (indices@[i] as int) < (1u32 << 8u8) by {
                assert((1u32 << 8u8) == 256) by (bit_vector);
            }
        }
        let lzw = lzw_encode(indices, 8);
        let n = lzw.len();
        let mut p: usize = 0;
        assert(lzw@.skip(0) =~= lzw@);
        while p < n
            invariant
                n == lzw@.len(),
                0 <= p <= n,
                self.width == old(self).width,
                self.height == old(self).height,
                self.transparent == old(self).transparent,
                mid + sub_blocks(lzw@) == self.out@ + sub_blocks(lzw@.skip(p as int)),
            decreases n - p,
        {
            let m = if n - p < 255 { n - p } else { 255 };
            let ghost rest = lzw@.skip(p as int);
            self.out.push(m as u8);
            let ghost before_chunk = self.out@;
            let mut j: usize = 0;
            while j < m
                invariant
                    p + m <= n,
                    n == lzw@.len(),
                    self.width == old(self).width,
                    self.height == old(self).height,
                    self.transparent == old(self).transparent,
                    0 <= j <= m,
                    self.out@ == before_chunk + lzw@.subrange(p as int, p + j),
                decreases m - j,
            {
                self.out.push(lzw[p + j]);
                j += 1;
                assert(self.out@ =~= before_chunk + lzw@.subrange(p as int, p + j));
            }
            assert(rest.take(m as int) =~= lzw@.subrange(p as int, p + m));
            assert(rest.skip(m as int) =~= lzw@.skip(p + m));
            assert(sub_blocks(rest) == seq![m as u8] + rest.take(m as int) + sub_blocks(rest.skip(m as int)));
            p += m;
        }
        assert(lzw@.skip(n as int) =~= Seq::<u8>::empty());
        self.out.push(0x00);
        proof {
            assert(sub_blocks(lzw@.skip(n as int)) == Seq::<u8>::empty());
            assert(self.out@ == mid + sub_blocks(lzw@) + seq![0x00u8]);
            assert(gce@ =~= seq![0x21u8, 0xF9, 0x04, 0x09]);
            assert(self.out@ =~= start + frame_bytes(self.width, self.height, self.transparent, delay_cs, lzw@));
        }
    }

    /// Finish and return the GIF bytes (the trailer appended).
    pub fn finish(self) -> (bytes: Vec<u8>)
        ensures
            bytes@ == self@.bytes.push(0x3B),
    {
        let mut out = self.out;
        out.push(0x3B);
        out
    }
}


/// A GIF LZW decoder's state: its string table beyond the single bytes (code to string),
/// the previous code's string (none right after a clear), the next code it will assign,
/// the width it reads the next code at, the bytes decoded, and whether it has met the end
/// code or a code it cannot resolve.
pub struct LzwDecoder {
    pub dict: Map<u32, Seq<u8>>,
    pub prev: Option<Seq<u8>>,
    pub next: u32,
    pub size: u32,
    pub out: Seq<u8>,
    pub done: bool,
    pub failed: bool,
}

/// The string code `code` stands for: a single byte below the clear code, a table entry,
/// or (the code about to be assigned) the previous string plus its own first byte.
pub open spec fn dec_entry(d: LzwDecoder, code: u32, clear: u32) -> Option<Seq<u8>> {
    if code < clear {
        Some(seq![code as u8])
    } else if d.dict.contains_key(code) {
        Some(d.dict[code])
    } else if code == d.next && d.prev is Some {
        Some(d.prev.unwrap().push(d.prev.unwrap()[0]))
    } else {
        None
    }
}

/// Read one code: a clear code empties the table (and resets the width), the end code
/// stops, any other code outputs its string and (after the first since a clear, while the
/// table has room) assigns the next code to the previous string plus that string's first
/// byte, widening the codes by a bit when the next code no longer fits (up to 12 bits).
pub open spec fn dec_step(d: LzwDecoder, code: u32, min_size: u32) -> LzwDecoder {
    let clear = (1u32 << min_size) as u32;
    let end = (clear + 1) as u32;
    if d.done || d.failed {
        d
    } else if code == clear {
        LzwDecoder { dict: Map::empty(), prev: None, next: (end + 1) as u32, size: (min_size + 1) as u32, ..d }
    } else if code == end {
        LzwDecoder { done: true, ..d }
    } else {
        match dec_entry(d, code, clear) {
            None => LzwDecoder { failed: true, ..d },
            Some(e) => match d.prev {
                Some(p) => if d.next < 4096 {
                    LzwDecoder {
                        dict: d.dict.insert(d.next, p.push(e[0])),
                        prev: Some(e),
                        next: (d.next + 1) as u32,
                        size: if d.next + 1 == (1u32 << d.size) as u32 && d.size < 12 {
                            (d.size + 1) as u32
                        } else {
                            d.size
                        },
                        out: d.out + e,
                        ..d
                    }
                } else {
                    LzwDecoder { prev: Some(e), out: d.out + e, ..d }
                },
                None => LzwDecoder { prev: Some(e), out: d.out + e, ..d },
            },
        }
    }
}

/// Decode a sequence of codes.
pub open spec fn dec_run(codes: Seq<u32>, min_size: u32) -> LzwDecoder
    decreases codes.len(),
{
    if codes.len() == 0 {
        LzwDecoder {
            dict: Map::empty(),
            prev: None,
            next: 0,
            size: (min_size + 1) as u32,
            out: Seq::empty(),
            done: false,
            failed: false,
        }
    } else {
        dec_step(dec_run(codes.drop_last(), min_size), codes.last(), min_size)
    }
}

/// The codes of a `(code, width)` sequence.
pub open spec fn code_values(codes: Seq<(u32, u32)>) -> Seq<u32> {
    Seq::new(codes.len(), |i: int| codes[i].0)
}

/// The bytes a GIF LZW decoder gives back for a `(code, width)` sequence.
pub open spec fn lzw_decoded(codes: Seq<(u32, u32)>, min_size: u32) -> Seq<u8> {
    dec_run(code_values(codes), min_size).out
}

/// The string an encoder code stands for: the byte itself below the clear code, else the
/// entry recorded for it.
pub open spec fn code_str(strs: Map<u32, Seq<u8>>, c: u32, clear: u32) -> Seq<u8> {
    if c < clear {
        seq![c as u8]
    } else {
        strs[c]
    }
}

/// What ties an encoder that has read `data[..i]` (with `strs` the strings of its codes) to
/// a decoder that has read the codes it emitted: the decoder's output followed by the
/// pending string is the data read; the encoder's table only extends strings it knows; and
/// the decoder knows every code but the newest, which it will work out from the next code.
pub open spec fn coder_inv(data: Seq<u8>, i: int, s: LzwState, strs: Map<u32, Seq<u8>>, min_size: u32) -> bool {
    let clear = (1u32 << min_size) as u32;
    let end = clear + 1;
    let d = dec_run(code_values(s.out), min_size);
    let valid = |c: u32| c < clear || (end < c < s.next);
    &&& 1 <= i <= data.len()
    &&& 2 <= clear <= 256
    &&& end < s.next <= 4096
    &&& !d.done && !d.failed
    &&& valid(s.cur)
    &&& forall|c: u32| end < c < s.next ==> #[trigger] strs.contains_key(c) && strs[c].len() >= 1
    &&& d.out + code_str(strs, s.cur, clear) == data.take(i)
    &&& forall|key: (u32, u8)| #[trigger] s.table.contains_key(key) ==> {
        &&& (key.0 < clear || (end < key.0 < s.next))
        &&& end < s.table[key] < s.next
        &&& code_str(strs, s.table[key], clear) == code_str(strs, key.0, clear).push(key.1)
    }
    &&& forall|v: u32| #[trigger] d.dict.contains_key(v) ==> end < v < d.next && d.dict[v] == strs[v]
    &&& match d.prev {
        None => s.next == end + 1 && d.next == end + 1 && s.table == Map::<(u32, u8), u32>::empty(),
        Some(p) => {
            &&& d.next + 1 == s.next
            &&& end < d.next
            &&& p.len() >= 1
            &&& forall|v: u32| end < v < d.next ==> #[trigger] d.dict.contains_key(v)
            &&& strs[(s.next - 1) as u32] == p.push(code_str(strs, s.cur, clear)[0])
        },
    }
}


/// Reading one more code is one more decoder step.
proof fn lemma_dec_push(out: Seq<(u32, u32)>, c: (u32, u32), min_size: u32)
    ensures
        dec_run(code_values(out.push(c)), min_size) == dec_step(dec_run(code_values(out), min_size), c.0, min_size),
{
    assert(code_values(out.push(c)).drop_last() =~= code_values(out));
    assert(code_values(out.push(c)).last() == c.0);
}

/// The strings the encoder's codes stand for after it reads byte `k`: a new table entry
/// stands for the pending string plus `k`.
pub open spec fn strs_step(s: LzwState, strs: Map<u32, Seq<u8>>, k: u8, min_size: u32) -> Map<u32, Seq<u8>> {
    let clear = (1u32 << min_size) as u32;
    if !s.table.contains_key((s.cur, k)) && s.next < 4096 {
        strs.insert(s.next, code_str(strs, s.cur, clear).push(k))
    } else {
        strs
    }
}

/// The decoder reading the encoder's pending code outputs the pending string and learns the
/// newest entry.
proof fn lemma_emit(data: Seq<u8>, i: int, s: LzwState, strs: Map<u32, Seq<u8>>, min_size: u32)
    requires
        coder_inv(data, i, s, strs, min_size),
    ensures
        ({
            let clear = (1u32 << min_size) as u32;
            let d = dec_run(code_values(s.out), min_size);
            let d2 = dec_step(d, s.cur, min_size);
            let e = code_str(strs, s.cur, clear);
            &&& e.len() >= 1
            &&& !d2.done && !d2.failed
            &&& d2.out == d.out + e
            &&& d2.prev == Some(e)
            &&& match d.prev {
                None => d2.next == d.next && d2.dict == d.dict && d2.size == d.size,
                Some(p) => if d.next < 4096 {
                    &&& d2.next == d.next + 1
                    &&& d2.dict == d.dict.insert(d.next, strs[(s.next - 1) as u32])
                    &&& d2.size == (if d.next + 1 == (1u32 << d.size) as u32 && d.size < 12 {
                        (d.size + 1) as u32
                    } else {
                        d.size
                    })
                } else {
                    d2.next == d.next && d2.dict == d.dict && d2.size == d.size
                },
            }
        }),
{
    let clear = (1u32 << min_size) as u32;
    let end = clear + 1;
    let d = dec_run(code_values(s.out), min_size);
    let e = code_str(strs, s.cur, clear);
    if s.cur < clear {
        assert(dec_entry(d, s.cur, clear) == Some(e));
    } else {
        assert(strs.contains_key(s.cur));
        match d.prev {
            None => {},
            Some(p) => {
                if s.cur < d.next {
                    assert(d.dict.contains_key(s.cur));
                    assert(dec_entry(d, s.cur, clear) == Some(e));
                } else {
                    assert(s.cur == d.next);
                    assert(!d.dict.contains_key(s.cur));
                    assert(e == p.push(e[0]));
                    assert(e[0] == p[0]);
                    assert(dec_entry(d, s.cur, clear) == Some(e));
                }
            },
        }
    }
}


/// A byte that extends the pending string changes only the pending code.
#[verifier::rlimit(60)]
#[verifier::spinoff_prover]
proof fn lemma_step_hit(data: Seq<u8>, i: int, s: LzwState, strs: Map<u32, Seq<u8>>, min_size: u32)
    requires
        coder_inv(data, i, s, strs, min_size),
        i < data.len(),
        (data[i] as int) < (1u32 << min_size) as u32,
        s.table.contains_key((s.cur, data[i])),
    ensures
        coder_inv(data, i + 1, lzw_step(s, data[i], min_size), strs_step(s, strs, data[i], min_size), min_size),
{
    let clear = (1u32 << min_size) as u32;
    let end = (clear + 1) as u32;
    let k = data[i];
    let d = dec_run(code_values(s.out), min_size);
    let s2 = lzw_step(s, k, min_size);
    let strs2 = strs_step(s, strs, k, min_size);
    let cs = code_str(strs, s.cur, clear);
    if s.cur >= clear {
        assert(strs.contains_key(s.cur));
    }
    assert(cs.len() >= 1);
    assert(data.take(i + 1) =~= data.take(i).push(k));
    let v = s.table[(s.cur, k)];
    assert(s2 == LzwState { cur: v, ..s });
    assert(strs2 == strs);
    assert(code_str(strs, v, clear) == cs.push(k));
    assert(d.out + code_str(strs, v, clear) =~= (d.out + cs).push(k));
    assert(code_str(strs, v, clear)[0] == cs[0]);
    assert(s2.out == s.out && s2.table == s.table && s2.next == s.next);
    assert(dec_run(code_values(s2.out), min_size) == d);
    match d.prev {
        None => {},
        Some(p) => {
            assert(strs2[(s2.next - 1) as u32] == p.push(code_str(strs2, s2.cur, clear)[0]));
        },
    }
}

/// A byte that ends the pending string emits its code and adds a table entry.
#[verifier::rlimit(60)]
#[verifier::spinoff_prover]
proof fn lemma_step_add(data: Seq<u8>, i: int, s: LzwState, strs: Map<u32, Seq<u8>>, min_size: u32)
    requires
        coder_inv(data, i, s, strs, min_size),
        i < data.len(),
        (data[i] as int) < (1u32 << min_size) as u32,
        !s.table.contains_key((s.cur, data[i])) && s.next < 4096,
    ensures
        coder_inv(data, i + 1, lzw_step(s, data[i], min_size), strs_step(s, strs, data[i], min_size), min_size),
{
    let clear = (1u32 << min_size) as u32;
    let end = (clear + 1) as u32;
    let k = data[i];
    let d = dec_run(code_values(s.out), min_size);
    let s2 = lzw_step(s, k, min_size);
    let strs2 = strs_step(s, strs, k, min_size);
    let cs = code_str(strs, s.cur, clear);
    if s.cur >= clear {
        assert(strs.contains_key(s.cur));
    }
    assert(cs.len() >= 1);
    assert(data.take(i + 1) =~= data.take(i).push(k));
    lemma_emit(data, i, s, strs, min_size);
    lemma_dec_push(s.out, (s.cur, s.size), min_size);
    let d2 = dec_step(d, s.cur, min_size);
    assert(strs2 == strs.insert(s.next, cs.push(k)));
    assert(s2.out == s.out.push((s.cur, s.size)));
    assert(dec_run(code_values(s2.out), min_size) == d2);
    assert(d2.out + code_str(strs2, k as u32, clear) =~= (d.out + cs).push(k));
    assert forall|c: u32| end < c < s2.next implies #[trigger] strs2.contains_key(c) && strs2[c].len() >= 1 by {
        if c != s.next {
            assert(strs.contains_key(c));
        }
    }
    assert forall|key: (u32, u8)| #[trigger] s2.table.contains_key(key) implies {
        &&& (key.0 < clear || (end < key.0 < s2.next))
        &&& end < s2.table[key] < s2.next
        &&& code_str(strs2, s2.table[key], clear) == code_str(strs2, key.0, clear).push(key.1)
    } by {
        if key != (s.cur, k) {
            assert(s.table.contains_key(key));
            assert(code_str(strs2, s.table[key], clear) == code_str(strs, s.table[key], clear));
            assert(code_str(strs2, key.0, clear) == code_str(strs, key.0, clear));
        } else {
            assert(code_str(strs2, s.cur, clear) == cs);
        }
    }
    match d.prev {
        None => {
            assert(d2.dict == d.dict && d2.next == d.next);
            assert(d.next == end + 1);
            assert forall|v: u32| #[trigger] d2.dict.contains_key(v) implies end < v < d2.next && d2.dict[v] == strs2[v] by {
                assert(d.dict.contains_key(v));
                assert(end < v < d.next);
            }
            assert(strs2[(s2.next - 1) as u32] == cs.push(k));
            assert(code_str(strs2, k as u32, clear)[0] == k);
        },
        Some(p) => {
            assert(d.next < 4096);
            assert forall|v: u32| #[trigger] d2.dict.contains_key(v) implies end < v < d2.next && d2.dict[v] == strs2[v] by {
                if v != d.next {
                    assert(d.dict.contains_key(v));
                }
            }
            assert forall|v: u32| end < v < d2.next implies #[trigger] d2.dict.contains_key(v) by {
                if v != d.next {
                    assert(d.dict.contains_key(v));
                }
            }
            assert(strs2[(s2.next - 1) as u32] == cs.push(k));
            assert(code_str(strs2, k as u32, clear)[0] == k);
        },
    }
}

/// With the table full, the pending code goes out followed by a clear code.
#[verifier::rlimit(60)]
#[verifier::spinoff_prover]
proof fn lemma_step_full(data: Seq<u8>, i: int, s: LzwState, strs: Map<u32, Seq<u8>>, min_size: u32)
    requires
        coder_inv(data, i, s, strs, min_size),
        i < data.len(),
        (data[i] as int) < (1u32 << min_size) as u32,
        !s.table.contains_key((s.cur, data[i])) && s.next >= 4096,
    ensures
        coder_inv(data, i + 1, lzw_step(s, data[i], min_size), strs_step(s, strs, data[i], min_size), min_size),
{
    let clear = (1u32 << min_size) as u32;
    let end = (clear + 1) as u32;
    let k = data[i];
    let d = dec_run(code_values(s.out), min_size);
    let s2 = lzw_step(s, k, min_size);
    let strs2 = strs_step(s, strs, k, min_size);
    let cs = code_str(strs, s.cur, clear);
    if s.cur >= clear {
        assert(strs.contains_key(s.cur));
    }
    assert(cs.len() >= 1);
    assert(data.take(i + 1) =~= data.take(i).push(k));
    lemma_emit(data, i, s, strs, min_size);
    lemma_dec_push(s.out, (s.cur, s.size), min_size);
    let d2 = dec_step(d, s.cur, min_size);
    assert(strs2 == strs);
    assert(s2.out == s.out.push((s.cur, s.size)).push((clear, s.size)));
    lemma_dec_push(s.out.push((s.cur, s.size)), (clear, s.size), min_size);
    let d3 = dec_step(d2, clear, min_size);
    assert(dec_run(code_values(s2.out), min_size) == d3);
    assert(d3.out + code_str(strs2, k as u32, clear) =~= (d.out + cs).push(k));
    assert forall|v: u32| #[trigger] d3.dict.contains_key(v) implies end < v < d3.next && d3.dict[v] == strs2[v] by {
    }
}

/// Reading one more byte keeps the encoder and the decoder of its codes in step.
proof fn lemma_coder_step(data: Seq<u8>, i: int, s: LzwState, strs: Map<u32, Seq<u8>>, min_size: u32)
    requires
        coder_inv(data, i, s, strs, min_size),
        i < data.len(),
        (data[i] as int) < (1u32 << min_size) as u32,
    ensures
        coder_inv(data, i + 1, lzw_step(s, data[i], min_size), strs_step(s, strs, data[i], min_size), min_size),
{
    if s.table.contains_key((s.cur, data[i])) {
        lemma_step_hit(data, i, s, strs, min_size);
    } else if s.next < 4096 {
        lemma_step_add(data, i, s, strs, min_size);
    } else {
        lemma_step_full(data, i, s, strs, min_size);
    }
}

/// The encoder's state after its first byte: a clear code out, that byte pending.
pub open spec fn lzw_start(data: Seq<u8>, min_size: u32) -> LzwState {
    let clear = (1u32 << min_size) as u32;
    let end = (clear + 1) as u32;
    let size0 = (min_size + 1) as u32;
    LzwState { table: Map::empty(), cur: data[0] as u32, next: (end + 1) as u32, size: size0, out: seq![(clear, size0)] }
}

/// The encoder and the decoder start in step.
proof fn lemma_coder_start(data: Seq<u8>, min_size: u32)
    requires
        1 <= min_size <= 8,
        data.len() >= 1,
        (data[0] as int) < (1u32 << min_size) as u32,
    ensures
        coder_inv(data, 1, lzw_start(data, min_size), Map::empty(), min_size),
{
    let clear = (1u32 << min_size) as u32;
    assert(2 <= clear <= 256) by (bit_vector)
        requires
            1 <= min_size <= 8,
            clear == (1u32 << min_size) as u32,
    ;
    let s0 = lzw_start(data, min_size);
    lemma_dec_push(Seq::empty(), s0.out[0], min_size);
    assert(Seq::<(u32, u32)>::empty().push(s0.out[0]) =~= s0.out);
    assert(code_values(Seq::<(u32, u32)>::empty()) =~= Seq::<u32>::empty());
    let d = dec_run(code_values(s0.out), min_size);
    assert(d.out == Seq::<u8>::empty());
    assert(d.out + code_str(Map::empty(), s0.cur, clear) =~= data.take(1));
}

/// Reading the rest of the data keeps them in step to the end.
proof fn lemma_coder_run(data: Seq<u8>, i: int, s: LzwState, strs: Map<u32, Seq<u8>>, min_size: u32) -> (strs_end: Map<
    u32,
    Seq<u8>,
>)
    requires
        coder_inv(data, i, s, strs, min_size),
        forall|j: int| 0 <= j < data.len() ==> (data[j] as int) < (1u32 << min_size) as u32,
    ensures
        coder_inv(data, data.len() as int, lzw_run(data, i, s, min_size), strs_end, min_size),
    decreases data.len() - i,
{
    if i >= data.len() {
        strs
    } else {
        lemma_coder_step(data, i, s, strs, min_size);
        lemma_coder_run(
            data,
            i + 1,
            lzw_step(s, data[i], min_size),
            strs_step(s, strs, data[i], min_size),
            min_size,
        )
    }
}

/// Decoding what the encoder emits gives the data back: the GIF LZW decoder, reading the
/// codes `lzw_codes` produces for any data of `min_size`-bit values, outputs that data.
pub proof fn lemma_lzw_round_trip(data: Seq<u8>, min_size: u32)
    requires
        1 <= min_size <= 8,
        forall|j: int| 0 <= j < data.len() ==> (data[j] as int) < (1u32 << min_size) as u32,
    ensures
        lzw_decoded(lzw_codes(data, min_size), min_size) == data,
{
    let clear = (1u32 << min_size) as u32;
    let end = (clear + 1) as u32;
    let size0 = (min_size + 1) as u32;
    assert(2 <= clear <= 256) by (bit_vector)
        requires
            1 <= min_size <= 8,
            clear == (1u32 << min_size) as u32,
    ;
    if data.len() == 0 {
        let codes = seq![(clear, size0), (end, size0)];
        assert(lzw_codes(data, min_size) == codes);
        lemma_dec_push(Seq::empty(), (clear, size0), min_size);
        assert(Seq::<(u32, u32)>::empty().push((clear, size0)) =~= seq![(clear, size0)]);
        lemma_dec_push(seq![(clear, size0)], (end, size0), min_size);
        assert(seq![(clear, size0)].push((end, size0)) =~= codes);
        assert(code_values(Seq::<(u32, u32)>::empty()) =~= Seq::<u32>::empty());
        assert(lzw_decoded(codes, min_size) =~= data);
    } else {
        lemma_coder_start(data, min_size);
        let s0 = lzw_start(data, min_size);
        let f = lzw_run(data, 1, s0, min_size);
        let strs = lemma_coder_run(data, 1, s0, Map::empty(), min_size);
        assert(lzw_codes(data, min_size) == f.out.push((f.cur, f.size)).push((end, f.size)));
        lemma_emit(data, data.len() as int, f, strs, min_size);
        lemma_dec_push(f.out, (f.cur, f.size), min_size);
        lemma_dec_push(f.out.push((f.cur, f.size)), (end, f.size), min_size);
        assert(data.take(data.len() as int) =~= data);
    }
}


/// `2` to the power `w`, as a `u32` shift.
pub open spec fn pw(w: u32) -> int {
    (1u32 << w) as int
}

proof fn lemma_pw(w: u32)
    requires
        w <= 12,
    ensures
        pw((w + 1) as u32) == 2 * pw(w),
        pw(w) >= 1,
        w < 12 ==> pw(w) <= 2048,
        w == 12 ==> pw(w) == 4096,
        w >= 2 ==> pw(w) >= 4,
{
    assert((1u32 << ((w + 1) as u32)) == 2 * (1u32 << w)) by (bit_vector)
        requires
            w <= 12,
    ;
    assert(1u32 << w >= 1) by (bit_vector)
        requires
            w <= 12,
    ;
    assert(w < 12 ==> (1u32 << w) <= 2048) by (bit_vector)
        requires
            w <= 12,
    ;
    assert(w == 12 ==> (1u32 << w) == 4096) by (bit_vector);
    assert(w >= 2 ==> (1u32 << w) >= 4) by (bit_vector)
        requires
            w <= 12,
    ;
}

/// Whether the first `n` codes of a `(code, width)` sequence are each written at the width
/// a GIF decoder reads it at, having read the codes before it.
pub open spec fn widths_agree(codes: Seq<(u32, u32)>, min_size: u32, n: int) -> bool {
    forall|j: int| 0 <= j < n ==> #[trigger] codes[j].1 == dec_run(code_values(codes.take(j)), min_size).size
}

/// What keeps the encoder's code width in step with the decoder's: the decoder reads at
/// the encoder's width, the next code fits that width, every code so far went out at the
/// decoder's width, and right after a clear the width is the initial one.
pub open spec fn width_inv(s: LzwState, min_size: u32) -> bool {
    let d = dec_run(code_values(s.out), min_size);
    &&& d.size == s.size
    &&& min_size + 1 <= s.size <= 12
    &&& s.next <= pw(s.size)
    &&& widths_agree(s.out, min_size, s.out.len() as int)
    &&& d.prev is None ==> s.size == min_size + 1
}

proof fn lemma_widths_push(codes: Seq<(u32, u32)>, c: (u32, u32), min_size: u32)
    requires
        widths_agree(codes, min_size, codes.len() as int),
        c.1 == dec_run(code_values(codes), min_size).size,
    ensures
        widths_agree(codes.push(c), min_size, codes.len() as int + 1),
{
    assert forall|j: int| 0 <= j < codes.len() + 1 implies #[trigger] codes.push(c)[j].1 == dec_run(
        code_values(codes.push(c).take(j)),
        min_size,
    ).size by {
        if j < codes.len() {
            assert(codes.push(c).take(j) =~= codes.take(j));
            assert(codes[j].1 == dec_run(code_values(codes.take(j)), min_size).size);
        } else {
            assert(codes.push(c).take(j) =~= codes);
        }
    }
}

/// Reading one more byte keeps the widths in step (for roots of two bits or more).
#[verifier::rlimit(60)]
#[verifier::spinoff_prover]
proof fn lemma_width_step(data: Seq<u8>, i: int, s: LzwState, strs: Map<u32, Seq<u8>>, min_size: u32)
    requires
        2 <= min_size <= 8,
        coder_inv(data, i, s, strs, min_size),
        width_inv(s, min_size),
        i < data.len(),
    ensures
        width_inv(lzw_step(s, data[i], min_size), min_size),
{
    let clear = (1u32 << min_size) as u32;
    let end = (clear + 1) as u32;
    let k = data[i];
    let d = dec_run(code_values(s.out), min_size);
    let s2 = lzw_step(s, k, min_size);
    assert(clear == pw(min_size));
    lemma_pw(min_size);
    lemma_pw(s.size);
    if s.table.contains_key((s.cur, k)) {
        assert(s2.out == s.out && s2.size == s.size && s2.next == s.next);
    } else {
        lemma_emit(data, i, s, strs, min_size);
        lemma_dec_push(s.out, (s.cur, s.size), min_size);
        let d2 = dec_step(d, s.cur, min_size);
        lemma_widths_push(s.out, (s.cur, s.size), min_size);
        if s.next < 4096 {
            assert(s2.out == s.out.push((s.cur, s.size)));
            assert(dec_run(code_values(s2.out), min_size) == d2);
            match d.prev {
                None => {
                    assert(s.size == min_size + 1);
                    assert(pw(s.size) == 2 * clear);
                    assert(s2.size == s.size);
                },
                Some(p) => {},
            }
        } else {
            assert(s.size == 12);
            assert(s2.out == s.out.push((s.cur, s.size)).push((clear, s.size)));
            lemma_dec_push(s.out.push((s.cur, s.size)), (clear, s.size), min_size);
            lemma_widths_push(s.out.push((s.cur, s.size)), (clear, s.size), min_size);
            assert(dec_run(code_values(s2.out), min_size) == dec_step(d2, clear, min_size));
        }
    }
}

/// Every code but the final end code is written at the width a GIF decoder reads it at,
/// for roots of two bits or more (the smallest the GIF format allows): the decoder, widening
/// when its next code stops fitting, stays in step with the encoder's widening.
pub proof fn lemma_lzw_widths(data: Seq<u8>, min_size: u32)
    requires
        2 <= min_size <= 8,
        forall|j: int| 0 <= j < data.len() ==> (data[j] as int) < (1u32 << min_size) as u32,
    ensures
        widths_agree(lzw_codes(data, min_size), min_size, lzw_codes(data, min_size).len() - 1),
{
    let clear = (1u32 << min_size) as u32;
    let end = (clear + 1) as u32;
    let size0 = (min_size + 1) as u32;
    lemma_pw(min_size);
    assert(clear == pw(min_size));
    let c0 = seq![(clear, size0)];
    assert(Seq::<(u32, u32)>::empty().push((clear, size0)) =~= c0);
    assert(code_values(Seq::<(u32, u32)>::empty()) =~= Seq::<u32>::empty());
    lemma_widths_push(Seq::empty(), (clear, size0), min_size);
    if data.len() == 0 {
        assert(lzw_codes(data, min_size) == c0.push((end, size0)));
    } else {
        lemma_coder_start(data, min_size);
        lemma_dec_push(Seq::empty(), (clear, size0), min_size);
        let s0 = lzw_start(data, min_size);
        assert(width_inv(s0, min_size));
        let _strs = lemma_width_run(data, 1, s0, Map::empty(), min_size);
        let f = lzw_run(data, 1, s0, min_size);
        lemma_widths_push(f.out, (f.cur, f.size), min_size);
        let codes = lzw_codes(data, min_size);
        assert(codes == f.out.push((f.cur, f.size)).push((end, f.size)));
        assert forall|j: int| 0 <= j < codes.len() - 1 implies #[trigger] codes[j].1 == dec_run(code_values(codes.take(j)), min_size).size by {
            assert(codes.take(j) =~= f.out.push((f.cur, f.size)).take(j));
            assert(codes[j] == f.out.push((f.cur, f.size))[j]);
        }
    }
}

/// Reading the rest of the data keeps the codes and the widths in step.
proof fn lemma_width_run(data: Seq<u8>, i: int, s: LzwState, strs: Map<u32, Seq<u8>>, min_size: u32) -> (strs_end: Map<
    u32,
    Seq<u8>,
>)
    requires
        2 <= min_size <= 8,
        coder_inv(data, i, s, strs, min_size),
        width_inv(s, min_size),
        forall|j: int| 0 <= j < data.len() ==> (data[j] as int) < (1u32 << min_size) as u32,
    ensures
        coder_inv(data, data.len() as int, lzw_run(data, i, s, min_size), strs_end, min_size),
        width_inv(lzw_run(data, i, s, min_size), min_size),
    decreases data.len() - i,
{
    if i >= data.len() {
        strs
    } else {
        lemma_coder_step(data, i, s, strs, min_size);
        lemma_width_step(data, i, s, strs, min_size);
        lemma_width_run(data, i + 1, lzw_step(s, data[i], min_size), strs_step(s, strs, data[i], min_size), min_size)
    }
}

} // verus!
