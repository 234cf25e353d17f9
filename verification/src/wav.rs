//! A small WAV decoder for the formats Microsoft Agent characters use: 8- and 16-bit PCM
//! and MS-ADPCM (`WAVE_FORMAT_ADPCM`), which most Agent sound effects are stored as and
//! stock audio decoders do not handle. Samples come out interleaved as `i16`, so a player
//! can treat everything as PCM.
//!
//! The ADPCM predictor works in 32-bit arithmetic that wraps on overflow, as an optimized
//! build of the classic decoder does.

use vstd::prelude::*;

verus! {

/// A decoded clip: channel count, sample rate (Hz), and interleaved `i16` samples.
pub struct Pcm {
    pub channels: u16,
    pub sample_rate: u32,
    pub samples: Vec<i16>,
}

/// A little-endian `u16` at `o`, 0 past the end.
pub open spec fn le_u16(b: Seq<u8>, o: int) -> u16 {
    if 0 <= o && o + 2 <= b.len() {
        (b[o] + b[o + 1] * 256) as u16
    } else {
        0
    }
}

/// A little-endian `u32` at `o`, 0 past the end.
pub open spec fn le_u32(b: Seq<u8>, o: int) -> u32 {
    if 0 <= o && o + 4 <= b.len() {
        (b[o] + b[o + 1] * 256 + b[o + 2] * 65536 + b[o + 3] * 16777216) as u32
    } else {
        0
    }
}

/// A little-endian `i16` at `o`, widened.
pub open spec fn le_i16(b: Seq<u8>, o: int) -> i32 {
    le_u16(b, o) as i16 as i32
}

fn u16le(b: &[u8], o: usize) -> (v: u16)
    requires
        o + 2 <= b@.len(),
    ensures
        v == le_u16(b@, o as int),
{
    b[o] as u16 + b[o + 1] as u16 * 256
}

fn u32le(b: &[u8], o: usize) -> (v: u32)
    requires
        o + 4 <= b@.len(),
    ensures
        v == le_u32(b@, o as int),
{
    b[o] as u32 + b[o + 1] as u32 * 256 + b[o + 2] as u32 * 65536 + b[o + 3] as u32 * 16777216
}

fn i16le(b: &[u8], o: usize) -> (v: i32)
    requires
        o + 2 <= b@.len(),
    ensures
        v == le_i16(b@, o as int),
{
    u16le(b, o) as i16 as i32
}

/// The `fmt ` chunk fields the decoder uses.
pub struct FmtView {
    pub tag: u16,
    pub channels: u16,
    pub sample_rate: u32,
    pub block_align: u16,
    pub bits: u16,
    pub coef: Seq<(i32, i32)>,
}

struct Fmt {
    tag: u16,
    channels: u16,
    sample_rate: u32,
    block_align: u16,
    bits: u16,
    coef: Vec<(i32, i32)>,
}

impl View for Fmt {
    type V = FmtView;

    closed spec fn view(&self) -> FmtView {
        FmtView {
            tag: self.tag,
            channels: self.channels,
            sample_rate: self.sample_rate,
            block_align: self.block_align,
            bits: self.bits,
            coef: self.coef@,
        }
    }
}

/// The standard MS-ADPCM coefficient pairs, used when the file gives none.
pub open spec fn default_coef() -> Seq<(i32, i32)> {
    seq![(256i32, 0i32), (512i32, -256i32), (0i32, 0i32), (192i32, 64i32), (240i32, 0i32), (460i32, -208i32), (392i32, -232i32)]
}

/// The coefficient pairs an ADPCM `fmt ` chunk lists after its count at 20, as many as
/// the chunk holds.
pub open spec fn listed_coef(b: Seq<u8>) -> Seq<(i32, i32)> {
    let n = le_u16(b, 20) as int;
    let fit = if b.len() >= 22 { (b.len() - 22) / 4 } else { 0 };
    let k = if n < fit { n } else { fit };
    Seq::new(k as nat, |i: int| (le_i16(b, 22 + 4 * i), le_i16(b, 24 + 4 * i)))
}

/// The `fmt ` chunk `b`, when it holds the 16 bytes of a wave format.
pub open spec fn fmt_of(b: Seq<u8>) -> Option<FmtView> {
    if b.len() < 16 {
        None
    } else {
        let tag = le_u16(b, 0);
        let listed = if tag == 2 && b.len() >= 20 { listed_coef(b) } else { Seq::empty() };
        Some(FmtView {
            tag,
            channels: le_u16(b, 2),
            sample_rate: le_u32(b, 4),
            block_align: le_u16(b, 12),
            bits: le_u16(b, 14),
            coef: if listed.len() == 0 { default_coef() } else { listed },
        })
    }
}

fn parse_fmt(b: &[u8]) -> (f: Option<Fmt>)
    ensures
        match fmt_of(b@) {
            Some(v) => f matches Some(x) && x@ == v,
            None => f is None,
        },
{
    if b.len() < 16 {
        return None;
    }
    let tag = u16le(b, 0);
    let mut coef: Vec<(i32, i32)> = Vec::new();
    if tag == 2 && b.len() >= 20 {
        let num_coef = if b.len() >= 22 { u16le(b, 20) as usize } else { 0 };
        let mut o: usize = 22;
        let mut i: usize = 0;
        while i < num_coef
            invariant
                b@.len() >= 20,
                num_coef == le_u16(b@, 20),
                0 <= i <= num_coef,
                o == 22 + 4 * i,
                i == 0 || o <= b@.len(),
                coef@ == Seq::new(i as nat, |j: int| (le_i16(b@, 22 + 4 * j), le_i16(b@, 24 + 4 * j))),
            ensures
                0 <= i <= num_coef,
                i < num_coef ==> o + 4 > b@.len(),
                i == 0 || o <= b@.len(),
                o == 22 + 4 * i,
                coef@ == Seq::new(i as nat, |j: int| (le_i16(b@, 22 + 4 * j), le_i16(b@, 24 + 4 * j))),
            decreases num_coef - i,
        {
            if o + 4 > b.len() {
                break;
            }
            coef.push((i16le(b, o), i16le(b, o + 2)));
            o += 4;
            i += 1;
            assert(coef@ =~= Seq::new(i as nat, |j: int| (le_i16(b@, 22 + 4 * j), le_i16(b@, 24 + 4 * j))));
        }
        proof {
            let fit = if b@.len() >= 22 { (b@.len() - 22) / 4 } else { 0int };
            if i < num_coef {
                assert(i == fit);
            } else {
                assert(i <= fit);
            }
            assert(coef@ =~= listed_coef(b@));
        }
    }
    if coef.len() == 0 {
        coef = vec![(256, 0), (512, -256), (0, 0), (192, 64), (240, 0), (460, -208), (392, -232)];
        assert(coef@ =~= default_coef());
    }
    Some(Fmt {
        tag,
        channels: u16le(b, 2),
        sample_rate: u32le(b, 4),
        block_align: u16le(b, 12),
        bits: u16le(b, 14),
        coef,
    })
}

/// The last `fmt ` and `data` chunk bodies from `pos` on, given those seen before it.
/// Each chunk is an id, a little-endian size and its body (cut at the end of the file);
/// chunks are word-aligned.
pub open spec fn chunk_walk(b: Seq<u8>, pos: int, fmt: Option<Seq<u8>>, data: Option<Seq<u8>>) -> (
    Option<Seq<u8>>,
    Option<Seq<u8>>,
)
    decreases b.len() + 1 - pos,
{
    if pos < 0 || pos + 8 > b.len() {
        (fmt, data)
    } else {
        let size = le_u32(b, pos + 4) as int;
        let body_start = pos + 8;
        let body_end = if body_start + size < b.len() { body_start + size } else { b.len() as int };
        let body = b.subrange(body_start, body_end);
        let id = b.subrange(pos, pos + 4);
        let fmt2 = if id == seq![0x66u8, 0x6D, 0x74, 0x20] { Some(body) } else { fmt };
        let data2 = if id == seq![0x64u8, 0x61, 0x74, 0x61] { Some(body) } else { data };
        chunk_walk(b, body_end + size % 2, fmt2, data2)
    }
}

/// The PCM samples of `data` at `bits` per sample: 16-bit little-endian pairs (a trailing
/// odd byte dropped), or 8-bit unsigned bytes centred and scaled to 16 bits.
pub open spec fn pcm_samples(data: Seq<u8>, bits: u16) -> Option<Seq<i16>> {
    if bits == 16 {
        Some(Seq::new(data.len() / 2, |i: int| le_u16(data, 2 * i) as i16))
    } else if bits == 8 {
        Some(Seq::new(data.len(), |i: int| ((data[i] - 128) * 256) as i16))
    } else {
        None
    }
}

proof fn lemma_u16_as_i16(v: u16)
    ensures
        (v as i16) as int == if v >= 32768 { v - 65536 } else { v as int },
{
    assert((v as i16) as int == if v >= 32768 { v - 65536 } else { v as int }) by (bit_vector);
}

/// PCM decodes sample by sample: 8-bit data is unsigned, centred on 128 and scaled by 256,
/// so louder bytes give louder samples in the same order; 16-bit data is little-endian
/// two's complement, low byte first, an odd trailing byte dropped. Other widths are not
/// PCM this decoder reads.
pub proof fn lemma_pcm_samples(data: Seq<u8>, bits: u16)
    ensures
        bits == 8 ==> (pcm_samples(data, bits) matches Some(s) && s.len() == data.len() && forall|i: int|
            0 <= i < data.len() ==> #[trigger] s[i] as int == (data[i] as int - 128) * 256),
        bits == 16 ==> (pcm_samples(data, bits) matches Some(s) && s.len() == data.len() / 2 && forall|i: int|
            0 <= i < s.len() ==> #[trigger] s[i] as int == {
                let u = data[2 * i] as int + 256 * data[2 * i + 1] as int;
                if u >= 32768 { u - 65536 } else { u }
            }),
        bits != 8 && bits != 16 ==> pcm_samples(data, bits) is None,
{
    if bits == 16 {
        let s = pcm_samples(data, bits).get_Some_0();
        assert forall|i: int| 0 <= i < s.len() implies #[trigger] s[i] as int == {
            let u = data[2 * i] as int + 256 * data[2 * i + 1] as int;
            if u >= 32768 { u - 65536 } else { u }
        } by {
            lemma_u16_as_i16(le_u16(data, 2 * i));
        }
    }
}

fn decode_pcm(data: &[u8], bits: u16) -> (r: Option<Vec<i16>>)
    ensures
        match pcm_samples(data@, bits) {
            Some(s) => r matches Some(v) && v@ == s,
            None => r is None,
        },
{
    if bits == 16 {
        let dl = data.len();
        let n = dl / 2;
        let mut out: Vec<i16> = Vec::new();
        let mut i: usize = 0;
        while i < n
            invariant
                dl == data@.len(),
                n == data@.len() / 2,
                0 <= i <= n,
                out@ == Seq::new(i as nat, |j: int| le_u16(data@, 2 * j) as i16),
            decreases n - i,
        {
            assert(2 * i + 2 <= data@.len());
            out.push(u16le(data, 2 * i) as i16);
            i += 1;
            assert(out@ =~= Seq::new(i as nat, |j: int| le_u16(data@, 2 * j) as i16));
        }
        Some(out)
    } else if bits == 8 {
        let mut out: Vec<i16> = Vec::new();
        let mut i: usize = 0;
        while i < data.len()
            invariant
                0 <= i <= data@.len(),
                out@ == Seq::new(i as nat, |j: int| ((data@[j] - 128) * 256) as i16),
            decreases data@.len() - i,
        {
            out.push(((data[i] as i32 - 128) * 256) as i16);
            i += 1;
            assert(out@ =~= Seq::new(i as nat, |j: int| ((data@[j] - 128) * 256) as i16));
        }
        Some(out)
    } else {
        None
    }
}

/// The MS-ADPCM step-size adaptation factor for a nibble.
pub open spec fn adapt(nib: u8) -> i32 {
    if nib < 4 || nib >= 13 {
        230
    } else if nib == 4 || nib == 12 {
        307
    } else if nib == 5 || nib == 11 {
        409
    } else if nib == 6 || nib == 10 {
        512
    } else if nib == 7 || nib == 9 {
        614
    } else {
        768
    }
}

fn adapt_of(nib: u8) -> (a: i32)
    ensures
        a == adapt(nib),
{
    if nib < 4 || nib >= 13 {
        230
    } else if nib == 4 || nib == 12 {
        307
    } else if nib == 5 || nib == 11 {
        409
    } else if nib == 6 || nib == 10 {
        512
    } else if nib == 7 || nib == 9 {
        614
    } else {
        768
    }
}

/// One channel's predictor: step size and the last two samples.
#[derive(Clone, Copy)]
pub struct Predictor {
    pub delta: i32,
    pub s1: i32,
    pub s2: i32,
}

/// `v` clamped to the `i16` range.
pub open spec fn clamp16(v: i32) -> i32 {
    if v < -32768 {
        -32768i32
    } else if v > 32767 {
        32767
    } else {
        v
    }
}

/// The sample a 4-bit nibble decodes to: the two-tap prediction plus the signed nibble
/// times the step, clamped.
pub open spec fn nibble_sample(nib: u8, c1: i32, c2: i32, p: Predictor) -> i32 {
    let signed: i32 = if nib >= 8 { (nib - 16) as i32 } else { nib as i32 };
    let pred = p.s1.wrapping_mul(c1).wrapping_add(p.s2.wrapping_mul(c2)) >> 8;
    clamp16(pred.wrapping_add(signed.wrapping_mul(p.delta)))
}

/// `v` held within the range of a 16-bit sample.
pub open spec fn sample_range(v: int) -> int {
    if v < -32768 {
        -32768
    } else if v > 32767 {
        32767
    } else {
        v
    }
}

/// A 4-bit nibble read as a signed two's-complement value in `-8..=7`.
pub open spec fn nibble_signed(nib: u8) -> int {
    if nib >= 8 {
        nib - 16
    } else {
        nib as int
    }
}

proof fn lemma_i32_mul_exact(x: i32, y: i32)
    requires
        i32::MIN <= x * y <= i32::MAX,
    ensures
        x.wrapping_mul(y) == x * y,
{
    let v = x * y;
    let r = 0x1_0000_0000int;
    if v >= 0 {
        vstd::arithmetic::div_mod::lemma_small_mod(v as nat, r as nat);
    } else {
        vstd::arithmetic::div_mod::lemma_mod_add_multiples_vanish(v, r);
        vstd::arithmetic::div_mod::lemma_small_mod((v + r) as nat, r as nat);
    }
}

proof fn lemma_i32_add_exact(x: i32, y: i32)
    requires
        i32::MIN <= x + y <= i32::MAX,
    ensures
        x.wrapping_add(y) == x + y,
{
}

proof fn lemma_shr8_floor(x: i32)
    ensures
        (x >> 8u32) as int == (x as int) / 256,
{
    assert((x >> 8u32) as int == (x as int) / 256) by (bit_vector);
}

/// A nibble decodes by the two-tap predictor: the last two samples weighted by the
/// block's coefficient pair (`(s1 * c1 + s2 * c2) / 256`, rounded down), plus the signed
/// nibble times the step, held within the 16-bit range. (Stated for 16-bit samples and
/// coefficients whose weighted sum fits 32 bits, and a step below 2^24.)
pub proof fn lemma_nibble_two_tap(nib: u8, c1: i32, c2: i32, p: Predictor)
    requires
        nib < 16,
        -32768 <= p.s1 <= 32767,
        -32768 <= p.s2 <= 32767,
        -32768 <= c1 <= 32767,
        -32768 <= c2 <= 32767,
        i32::MIN <= p.s1 * c1 + p.s2 * c2 <= i32::MAX,
        0 <= p.delta <= 0x100_0000,
    ensures
        nibble_sample(nib, c1, c2, p) as int == sample_range(
            (p.s1 * c1 + p.s2 * c2) / 256 + nibble_signed(nib) * p.delta,
        ),
{
    assert(-0x4000_0000 <= p.s1 * c1 <= 0x4000_0000) by (nonlinear_arith)
        requires
            -32768 <= p.s1 <= 32767,
            -32768 <= c1 <= 32767,
    ;
    assert(-0x4000_0000 <= p.s2 * c2 <= 0x4000_0000) by (nonlinear_arith)
        requires
            -32768 <= p.s2 <= 32767,
            -32768 <= c2 <= 32767,
    ;
    lemma_i32_mul_exact(p.s1, c1);
    lemma_i32_mul_exact(p.s2, c2);
    let a = p.s1.wrapping_mul(c1);
    let b = p.s2.wrapping_mul(c2);
    lemma_i32_add_exact(a, b);
    let sum = a.wrapping_add(b);
    lemma_shr8_floor(sum);
    let pred = sum >> 8u32;
    assert(-0x80_0000 <= pred <= 0x80_0000);
    let signed: i32 = if nib >= 8 { (nib - 16) as i32 } else { nib as i32 };
    assert(signed as int == nibble_signed(nib));
    assert(-0x800_0000 <= signed * p.delta <= 0x800_0000) by (nonlinear_arith)
        requires
            -8 <= signed <= 7,
            0 <= p.delta <= 0x100_0000,
    ;
    lemma_i32_mul_exact(signed, p.delta);
    lemma_i32_add_exact(pred, signed.wrapping_mul(p.delta));
}

/// After a nibble the step adapts by the standard MS-ADPCM factor for that nibble (out of
/// 256: 230 for 0 to 3 and 13 to 15, then 307, 409, 512, 614, 768 rising to 8 and falling
/// back symmetrically), rounded down and never below 16; the sample just decoded becomes
/// the latest and the previous latest the one before. (Stated for a step below 2^21,
/// where the scaled step fits 32 bits.)
pub proof fn lemma_nibble_adapts(nib: u8, c1: i32, c2: i32, p: Predictor)
    requires
        nib < 16,
        0 <= p.delta <= 0x20_0000,
    ensures
        ({
            let factor = seq![230int, 230, 230, 230, 307, 409, 512, 614, 768, 614, 512, 409, 307, 230, 230, 230][nib as int];
            let scaled = factor * p.delta / 256;
            &&& nibble_next(nib, c1, c2, p).delta as int == if scaled < 16 { 16 } else { scaled }
            &&& nibble_next(nib, c1, c2, p).s1 == nibble_sample(nib, c1, c2, p)
            &&& nibble_next(nib, c1, c2, p).s2 == p.s1
        }),
{
    let a = adapt(nib);
    assert(230 <= a <= 768);
    assert(0 <= a * p.delta <= 768 * 0x20_0000) by (nonlinear_arith)
        requires
            230 <= a <= 768,
            0 <= p.delta <= 0x20_0000,
    ;
    lemma_i32_mul_exact(a, p.delta);
    let m = a.wrapping_mul(p.delta);
    lemma_shr8_floor(m);
    assert(seq![230int, 230, 230, 230, 307, 409, 512, 614, 768, 614, 512, 409, 307, 230, 230, 230][nib as int]
        == a as int);
}

/// The predictor after decoding a nibble: the step adapted (at least 16) and the samples
/// shifted.
pub open spec fn nibble_next(nib: u8, c1: i32, c2: i32, p: Predictor) -> Predictor {
    let d = adapt(nib).wrapping_mul(p.delta) >> 8;
    Predictor { delta: if d < 16 { 16 } else { d }, s1: nibble_sample(nib, c1, c2, p), s2: p.s1 }
}

fn adpcm_nibble(nib: u8, c1: i32, c2: i32, p: &mut Predictor) -> (v: i16)
    requires
        nib < 16,
    ensures
        v == nibble_sample(nib, c1, c2, *old(p)) as i16,
        *final(p) == nibble_next(nib, c1, c2, *old(p)),
{
    let signed: i32 = if nib >= 8 { nib as i32 - 16 } else { nib as i32 };
    let pred = p.s1.wrapping_mul(c1).wrapping_add(p.s2.wrapping_mul(c2)) >> 8;
    let raw = pred.wrapping_add(signed.wrapping_mul(p.delta));
    let val = if raw < -32768 {
        -32768
    } else if raw > 32767 {
        32767
    } else {
        raw
    };
    let d = adapt_of(nib).wrapping_mul(p.delta) >> 8;
    p.delta = if d < 16 { 16 } else { d };
    p.s2 = p.s1;
    p.s1 = val;
    val as i16
}

/// A coefficient pair by predictor index, `(256, 0)` past the table.
pub open spec fn coef_at(coef: Seq<(i32, i32)>, i: int) -> (i32, i32) {
    if 0 <= i < coef.len() {
        coef[i]
    } else {
        (256, 0)
    }
}

/// The predictor of channel `c` from a block header of `ch` channels.
pub open spec fn header_predictor(block: Seq<u8>, ch: int, c: int) -> Predictor {
    Predictor { delta: le_i16(block, ch + 2 * c), s1: le_i16(block, 3 * ch + 2 * c), s2: le_i16(block, 5 * ch + 2 * c) }
}

/// The two samples of one nibble byte and the predictors after it: the high nibble
/// first; mono decodes both on channel 0, stereo the high on the left and the low on the
/// right.
pub open spec fn byte_step(byte: u8, stereo: bool, k0: (i32, i32), k1: (i32, i32), p0: Predictor, p1: Predictor) -> (
    Seq<i16>,
    Predictor,
    Predictor,
) {
    let hi = byte / 16;
    let lo = byte % 16;
    let a = nibble_sample(hi, k0.0, k0.1, p0) as i16;
    let q0 = nibble_next(hi, k0.0, k0.1, p0);
    if stereo {
        (seq![a, nibble_sample(lo, k1.0, k1.1, p1) as i16], q0, nibble_next(lo, k1.0, k1.1, p1))
    } else {
        (seq![a, nibble_sample(lo, k0.0, k0.1, q0) as i16], nibble_next(lo, k0.0, k0.1, q0), p1)
    }
}

/// The samples of the nibble bytes `block[j..]`.
pub open spec fn nibble_run(
    block: Seq<u8>,
    j: int,
    stereo: bool,
    k0: (i32, i32),
    k1: (i32, i32),
    p0: Predictor,
    p1: Predictor,
) -> Seq<i16>
    decreases block.len() - j,
{
    if j < 0 || j >= block.len() {
        Seq::empty()
    } else {
        let (s, q0, q1) = byte_step(block[j], stereo, k0, k1, p0, p1);
        s + nibble_run(block, j + 1, stereo, k0, k1, q0, q1)
    }
}

fn decode_byte(byte: u8, stereo: bool, k0: (i32, i32), k1: (i32, i32), p0: &mut Predictor, p1: &mut Predictor, out: &mut Vec<i16>)
    ensures
        final(out)@ == old(out)@ + byte_step(byte, stereo, k0, k1, *old(p0), *old(p1)).0,
        *final(p0) == byte_step(byte, stereo, k0, k1, *old(p0), *old(p1)).1,
        *final(p1) == byte_step(byte, stereo, k0, k1, *old(p0), *old(p1)).2,
{
    let hi = byte / 16;
    let lo = byte % 16;
    let a = adpcm_nibble(hi, k0.0, k0.1, p0);
    out.push(a);
    if stereo {
        let b = adpcm_nibble(lo, k1.0, k1.1, p1);
        out.push(b);
    } else {
        let b = adpcm_nibble(lo, k0.0, k0.1, p0);
        out.push(b);
    }
    assert(out@ =~= old(out)@ + byte_step(byte, stereo, k0, k1, *old(p0), *old(p1)).0);
}

/// The samples of one ADPCM block of `ch` (1 or 2) channels: the header's predictor
/// indices, steps and two priming samples per channel, the priming samples oldest first,
/// then the nibbles.
pub open spec fn adpcm_block(block: Seq<u8>, ch: int, coef: Seq<(i32, i32)>) -> Seq<i16> {
    let k0 = coef_at(coef, block[0] as int);
    let k1 = if ch == 2 { coef_at(coef, block[1] as int) } else { (0i32, 0i32) };
    let p0 = header_predictor(block, ch, 0);
    let p1 = if ch == 2 { header_predictor(block, ch, 1) } else { Predictor { delta: 0, s1: 0, s2: 0 } };
    let priming = if ch == 2 {
        seq![p0.s2 as i16, p1.s2 as i16, p0.s1 as i16, p1.s1 as i16]
    } else {
        seq![p0.s2 as i16, p0.s1 as i16]
    };
    priming + nibble_run(block, 7 * ch, ch == 2, k0, k1, p0, p1)
}

/// A mono ADPCM block starts with its two priming samples, the older (second in the
/// header) first; the next sample is the high nibble of the first data byte, decoded by
/// the two-tap predictor with the block's coefficient pair (the table entry its header
/// names, `(256, 0)` past the table) and its initial step. (Stated for a non-negative
/// step below 2^24 and 16-bit coefficients whose weighted sum fits 32 bits.)
pub proof fn lemma_mono_block_start(block: Seq<u8>, coef: Seq<(i32, i32)>)
    requires
        block.len() >= 8,
        0 <= le_i16(block, 1) <= 0x100_0000,
        -32768 <= coef_at(coef, block[0] as int).0 <= 32767,
        -32768 <= coef_at(coef, block[0] as int).1 <= 32767,
        i32::MIN <= le_i16(block, 3) * coef_at(coef, block[0] as int).0 + le_i16(block, 5) * coef_at(
            coef,
            block[0] as int,
        ).1 <= i32::MAX,
    ensures
        adpcm_block(block, 1, coef).len() >= 3,
        adpcm_block(block, 1, coef)[0] as int == le_i16(block, 5),
        adpcm_block(block, 1, coef)[1] as int == le_i16(block, 3),
        adpcm_block(block, 1, coef)[2] as int == sample_range(
            (le_i16(block, 3) * coef_at(coef, block[0] as int).0 + le_i16(block, 5) * coef_at(
                coef,
                block[0] as int,
            ).1) / 256 + nibble_signed(block[7] / 16) * le_i16(block, 1),
        ),
{
    let k0 = coef_at(coef, block[0] as int);
    let p0 = header_predictor(block, 1, 0);
    let p1 = Predictor { delta: 0, s1: 0, s2: 0 };
    assert(-32768 <= le_i16(block, 3) <= 32767 && -32768 <= le_i16(block, 5) <= 32767);
    lemma_nibble_two_tap(block[7] / 16, k0.0, k0.1, p0);
    let run = nibble_run(block, 7, false, k0, (0i32, 0i32), p0, p1);
    assert(run.len() >= 2);
    let out = adpcm_block(block, 1, coef);
    assert(out =~= seq![p0.s2 as i16, p0.s1 as i16] + run);
    assert(out[2] == run[0]);
}

/// The samples of the blocks of `data` from `start`, `ba` bytes each (the last may be
/// short); decoding stops at a block too short for its header.
pub open spec fn adpcm_blocks(data: Seq<u8>, start: int, ba: int, ch: int, coef: Seq<(i32, i32)>) -> Seq<i16>
    decreases data.len() + ba - start,
{
    if start < 0 || start >= data.len() || ba <= 0 {
        Seq::empty()
    } else {
        let end = if start + ba < data.len() { start + ba } else { data.len() as int };
        let block = data.subrange(start, end);
        if block.len() < 7 * ch {
            Seq::empty()
        } else {
            adpcm_block(block, ch, coef) + adpcm_blocks(data, start + ba, ba, ch, coef)
        }
    }
}

/// The MS-ADPCM samples of `data` under format `f` (at most two channels decoded; blocks
/// at least as long as their headers).
pub open spec fn adpcm_samples(data: Seq<u8>, f: FmtView) -> Seq<i16> {
    let ch = if f.channels < 2 { f.channels as int } else { 2 };
    let ba = if f.block_align as int > 7 * ch { f.block_align as int } else { 7 * ch };
    adpcm_blocks(data, 0, ba, ch, f.coef)
}

#[verifier::spinoff_prover]
#[verifier::rlimit(50)]
fn decode_block(block: &[u8], ch: usize, coef: &Vec<(i32, i32)>, out: &mut Vec<i16>)
    requires
        ch == 1 || ch == 2,
        block@.len() >= 7 * ch,
    ensures
        final(out)@ == old(out)@ + adpcm_block(block@, ch as int, coef@),
{
    let i0 = block[0] as usize;
    let (a0, b0) = if i0 < coef.len() { coef[i0] } else { (256, 0) };
    let (a1, b1) = if ch == 2 {
        let i1 = block[1] as usize;
        if i1 < coef.len() { coef[i1] } else { (256, 0) }
    } else {
        (0, 0)
    };
    let mut p0 = Predictor { delta: i16le(block, ch), s1: i16le(block, 3 * ch), s2: i16le(block, 5 * ch) };
    let mut p1 = if ch == 2 {
        Predictor { delta: i16le(block, ch + 2), s1: i16le(block, 3 * ch + 2), s2: i16le(block, 5 * ch + 2) }
    } else {
        Predictor { delta: 0, s1: 0, s2: 0 }
    };
    let ghost k0 = (a0, b0);
    let ghost k1 = (a1, b1);
    assert(k0 == coef_at(coef@, block@[0] as int));
    assert(p0 == header_predictor(block@, ch as int, 0));
    let ghost start = out@;
    out.push(p0.s2 as i16);
    if ch == 2 {
        out.push(p1.s2 as i16);
    }
    out.push(p0.s1 as i16);
    if ch == 2 {
        out.push(p1.s1 as i16);
    }
    let ghost primed = out@;
    let stereo = ch == 2;
    let mut j: usize = 7 * ch;
    assert(adpcm_block(block@, ch as int, coef@) == (primed.skip(start.len() as int)) + nibble_run(block@, j as int, stereo, k0, k1, p0, p1)) by {
        assert(primed.skip(start.len() as int) =~= if ch == 2 {
            seq![p0.s2 as i16, p1.s2 as i16, p0.s1 as i16, p1.s1 as i16]
        } else {
            seq![p0.s2 as i16, p0.s1 as i16]
        });
    }
    assert(primed =~= start + primed.skip(start.len() as int));
    while j < block.len()
        invariant
            7 * ch <= j <= block@.len(),
            stereo == (ch == 2),
            k0 == (a0, b0),
            k1 == (a1, b1),
            out@ + nibble_run(block@, j as int, stereo, k0, k1, p0, p1) == start + adpcm_block(block@, ch as int, coef@),
        decreases block@.len() - j,
    {
        let ghost (q0, q1) = (p0, p1);
        let ghost before = out@;
        decode_byte(block[j], stereo, (a0, b0), (a1, b1), &mut p0, &mut p1, out);
        j += 1;
        assert(before + nibble_run(block@, j - 1, stereo, k0, k1, q0, q1) =~= out@ + nibble_run(block@, j as int, stereo, k0, k1, p0, p1));
    }
    assert(out@ + Seq::<i16>::empty() =~= out@);
}

fn decode_ms_adpcm(data: &[u8], fmt: &Fmt) -> (out: Vec<i16>)
    requires
        fmt.channels >= 1,
    ensures
        out@ == adpcm_samples(data@, fmt@),
{
    let ch: usize = if fmt.channels < 2 { fmt.channels as usize } else { 2 };
    let ba: usize = if fmt.block_align as usize > 7 * ch { fmt.block_align as usize } else { 7 * ch };
    let mut out: Vec<i16> = Vec::new();
    let mut start: usize = 0;
    assert(out@ + adpcm_blocks(data@, 0, ba as int, ch as int, fmt.coef@) =~= adpcm_samples(data@, fmt@));
    while start < data.len()
        invariant
            ch == 1 || ch == 2,
            ba >= 7,
            ba <= 0xFFFF,
            out@ + adpcm_blocks(data@, start as int, ba as int, ch as int, fmt.coef@) == adpcm_samples(data@, fmt@),
        decreases data@.len() - start,
    {
        let end = if ba < data.len() - start { start + ba } else { data.len() };
        let block = vstd::slice::slice_subrange(data, start, end);
        if block.len() < 7 * ch {
            assert(out@ + Seq::<i16>::empty() =~= out@);
            return out;
        }
        let ghost before = out@;
        decode_block(block, ch, &fmt.coef, &mut out);
        assert(before + (adpcm_block(block@, ch as int, fmt.coef@) + adpcm_blocks(data@, start + ba, ba as int, ch as int, fmt.coef@))
            =~= out@ + adpcm_blocks(data@, start + ba, ba as int, ch as int, fmt.coef@));
        if ba >= data.len() - start {
            assert(adpcm_blocks(data@, start + ba, ba as int, ch as int, fmt.coef@) == Seq::<i16>::empty());
            assert(out@ + Seq::<i16>::empty() =~= out@);
            return out;
        }
        start = start + ba;
    }
    assert(out@ + Seq::<i16>::empty() =~= out@);
    out
}

/// What a RIFF/WAVE clip decodes to: the last `fmt ` and `data` chunks, a format with a
/// channel and a rate, and PCM (8/16-bit) or MS-ADPCM samples; `None` otherwise.
pub open spec fn wav_decoded(b: Seq<u8>) -> Option<(u16, u32, Seq<i16>)> {
    if b.len() < 12 || b.subrange(0, 4) != seq![0x52u8, 0x49, 0x46, 0x46] || b.subrange(8, 12) != seq![0x57u8, 0x41, 0x56, 0x45] {
        None
    } else {
        let (fmt, data) = chunk_walk(b, 12, None, None);
        match (fmt, data) {
            (Some(fb), Some(d)) => match fmt_of(fb) {
                Some(f) => if f.channels == 0 || f.sample_rate == 0 {
                    None
                } else if f.tag == 1 {
                    match pcm_samples(d, f.bits) {
                        Some(s) => Some((f.channels, f.sample_rate, s)),
                        None => None,
                    }
                } else if f.tag == 2 {
                    Some((f.channels, f.sample_rate, adpcm_samples(d, f)))
                } else {
                    None
                },
                None => None,
            },
            _ => None,
        }
    }
}

/// Decode a RIFF/WAVE clip. `None` if it isn't a WAV this decoder understands.
pub fn decode(bytes: &[u8]) -> (r: Option<Pcm>)
    ensures
        match wav_decoded(bytes@) {
            Some((channels, rate, samples)) => r matches Some(p) && p.channels == channels && p.sample_rate == rate
                && p.samples@ == samples,
            None => r is None,
        },
{
    let len = bytes.len();
    if len < 12 || bytes[0] != 0x52 || bytes[1] != 0x49 || bytes[2] != 0x46 || bytes[3] != 0x46 || bytes[8] != 0x57
        || bytes[9] != 0x41 || bytes[10] != 0x56 || bytes[11] != 0x45 {
        proof {
            if len >= 12 {
                if bytes@.subrange(0, 4) == seq![0x52u8, 0x49, 0x46, 0x46] {
                    assert(bytes@.subrange(0, 4)[0] == bytes@[0]);
                    assert(bytes@.subrange(0, 4)[1] == bytes@[1]);
                    assert(bytes@.subrange(0, 4)[2] == bytes@[2]);
                    assert(bytes@.subrange(0, 4)[3] == bytes@[3]);
                }
                if bytes@.subrange(8, 12) == seq![0x57u8, 0x41, 0x56, 0x45] {
                    assert(bytes@.subrange(8, 12)[0] == bytes@[8]);
                    assert(bytes@.subrange(8, 12)[1] == bytes@[9]);
                    assert(bytes@.subrange(8, 12)[2] == bytes@[10]);
                    assert(bytes@.subrange(8, 12)[3] == bytes@[11]);
                }
            }
        }
        return None;
    }
    assert(bytes@.subrange(0, 4) =~= seq![0x52u8, 0x49, 0x46, 0x46]);
    assert(bytes@.subrange(8, 12) =~= seq![0x57u8, 0x41, 0x56, 0x45]);
    let mut fmt_body: Option<&[u8]> = None;
    let mut data: Option<&[u8]> = None;
    let mut pos: usize = 12;
    while pos < len && len - pos >= 8
        invariant
            len == bytes@.len(),
            chunk_walk(bytes@, 12, None, None) == chunk_walk(
                bytes@,
                pos as int,
                match fmt_body {
                    Some(s) => Some(s@),
                    None => None,
                },
                match data {
                    Some(s) => Some(s@),
                    None => None,
                },
            ),
        decreases len - pos,
    {
        let size = u32le(bytes, pos + 4) as usize;
        let body_start = pos + 8;
        let body_end = if size < len - body_start { body_start + size } else { len };
        let body = vstd::slice::slice_subrange(bytes, body_start, body_end);
        let is_fmt = bytes[pos] == 0x66 && bytes[pos + 1] == 0x6D && bytes[pos + 2] == 0x74 && bytes[pos + 3] == 0x20;
        let is_data = bytes[pos] == 0x64 && bytes[pos + 1] == 0x61 && bytes[pos + 2] == 0x74 && bytes[pos + 3] == 0x61;
        let ghost id = bytes@.subrange(pos as int, pos + 4);
        assert(is_fmt == (id =~= seq![0x66u8, 0x6D, 0x74, 0x20]));
        assert(is_data == (id =~= seq![0x64u8, 0x61, 0x74, 0x61]));
        if is_fmt {
            fmt_body = Some(body);
        }
        if is_data {
            data = Some(body);
        }
        if body_end == len {
            proof {
                assert(chunk_walk(bytes@, body_end + size % 2, match fmt_body {
                    Some(s) => Some(s@),
                    None => None,
                }, match data {
                    Some(s) => Some(s@),
                    None => None,
                }) == (match fmt_body {
                    Some(s) => Some(s@),
                    None => None::<Seq<u8>>,
                }, match data {
                    Some(s) => Some(s@),
                    None => None::<Seq<u8>>,
                }));
            }
            pos = len;
        } else {
            pos = body_end + size % 2;
        }
    }
    let fb = match fmt_body {
        Some(b) => b,
        None => return None,
    };
    let d = match data {
        Some(b) => b,
        None => return None,
    };
    let fmt = match parse_fmt(fb) {
        Some(f) => f,
        None => return None,
    };
    if fmt.channels == 0 || fmt.sample_rate == 0 {
        return None;
    }
    let samples = if fmt.tag == 1 {
        match decode_pcm(d, fmt.bits) {
            Some(s) => s,
            None => return None,
        }
    } else if fmt.tag == 2 {
        decode_ms_adpcm(d, &fmt)
    } else {
        return None;
    };
    Some(Pcm { channels: fmt.channels, sample_rate: fmt.sample_rate, samples })
}

} // verus!
