//! Portable, engine-agnostic data model for an Agent character.
//!
//! These types are the parsed, in-memory representation shared by all file formats
//! (ACS 2.0/1.5, ACF). They intentionally carry no rendering/runtime state.

use vstd::prelude::*;

verus! {

/// A Windows `GUID`, stored as its on-disk 16 bytes.
///
/// On disk: `u32 Data1` (LE), `u16 Data2` (LE), `u16 Data3` (LE), `[u8; 8] Data4`.
#[derive(Clone, Copy, PartialEq, Eq, Hash, Debug)]
pub struct Guid(pub [u8; 16]);

impl Guid {
    /// True if this is the nil (all-zero) GUID.
    pub fn is_nil(&self) -> (r: bool)
        ensures
            r == (forall|i: int| 0 <= i < 16 ==> self.0@[i] == 0),
    {
        let mut i: usize = 0;
        while i < 16
            invariant
                0 <= i <= 16,
                self.0@.len() == 16,
                forall|j: int| 0 <= j < i ==> self.0@[j] == 0,
            decreases 16 - i,
        {
            if self.0[i] != 0 {
                return false;
            }
            i += 1;
        }
        true
    }
}

/// The all-zero GUID.
pub fn nil_guid() -> (g: Guid)
    ensures
        forall|i: int| 0 <= i < 16 ==> g.0@[i] == 0,
{
    Guid([0u8; 16])
}

/// An opaque 24-bit RGB color (the alpha of the character comes from the transparency
/// palette index, handled at composite time, not here).
#[derive(Clone, Copy, PartialEq, Eq, Debug, Default, Structural)]
pub struct Color {
    pub r: u8,
    pub g: u8,
    pub b: u8,
}

/// Character style flag: the character has a TTS voice block.
pub const STYLE_TTS: u32 = 0x0000_0020;
/// Character style flag: the character has a word-balloon block.
pub const STYLE_BALLOON: u32 = 0x0000_0200;
/// Character style flag: the balloon grows to fit the text.
pub const STYLE_SIZE_TO_TEXT: u32 = 0x0001_0000;
/// Character style flag: the balloon does not hide by itself.
pub const STYLE_NO_AUTO_HIDE: u32 = 0x0002_0000;
/// Character style flag: the balloon shows all words at once.
pub const STYLE_NO_AUTO_PACE: u32 = 0x0004_0000;
/// Character style flag: a standard character.
pub const STYLE_STANDARD: u32 = 0x0010_0000;

/// Which mouth image an overlay supplies, for lip-sync.
#[derive(Clone, Copy, PartialEq, Eq, Debug, Structural)]
pub enum MouthOverlay {
    Closed,
    Wide1,
    Wide2,
    Wide3,
    Wide4,
    Medium,
    Narrow,
}

/// The on-disk overlay-type byte of each mouth shape.
pub open spec fn mouth_code(m: MouthOverlay) -> u8 {
    match m {
        MouthOverlay::Closed => 0,
        MouthOverlay::Wide1 => 1,
        MouthOverlay::Wide2 => 2,
        MouthOverlay::Wide3 => 3,
        MouthOverlay::Wide4 => 4,
        MouthOverlay::Medium => 5,
        MouthOverlay::Narrow => 6,
    }
}

/// The mouth shape an on-disk overlay-type byte names; unknown values are `Closed`.
pub open spec fn spec_mouth(v: u8) -> MouthOverlay {
    if v == 1 {
        MouthOverlay::Wide1
    } else if v == 2 {
        MouthOverlay::Wide2
    } else if v == 3 {
        MouthOverlay::Wide3
    } else if v == 4 {
        MouthOverlay::Wide4
    } else if v == 5 {
        MouthOverlay::Medium
    } else if v == 6 {
        MouthOverlay::Narrow
    } else {
        MouthOverlay::Closed
    }
}

impl MouthOverlay {
    /// Map a raw on-disk overlay-type byte to a [`MouthOverlay`]. Unknown values
    /// clamp to `Closed` (the tolerant behavior of the engine's loader).
    pub fn from_u8(v: u8) -> (m: MouthOverlay)
        ensures
            m == spec_mouth(v),
            v <= 6 ==> mouth_code(m) == v,
            v > 6 ==> m == MouthOverlay::Closed,
    {
        match v {
            1 => MouthOverlay::Wide1,
            2 => MouthOverlay::Wide2,
            3 => MouthOverlay::Wide3,
            4 => MouthOverlay::Wide4,
            5 => MouthOverlay::Medium,
            6 => MouthOverlay::Narrow,
            _ => MouthOverlay::Closed,
        }
    }

    /// The on-disk overlay-type byte.
    pub fn code(self) -> (v: u8)
        ensures
            v == mouth_code(self),
    {
        match self {
            MouthOverlay::Closed => 0,
            MouthOverlay::Wide1 => 1,
            MouthOverlay::Wide2 => 2,
            MouthOverlay::Wide3 => 3,
            MouthOverlay::Wide4 => 4,
            MouthOverlay::Medium => 5,
            MouthOverlay::Narrow => 6,
        }
    }
}

/// General character information (the fixed header + palette + transparency).
#[derive(Debug)]
pub struct FileHeader {
    pub version_major: u16,
    pub version_minor: u16,
    pub guid: Guid,
    /// Default character frame size, in pixels (width, height).
    pub image_size: (u16, u16),
    /// Palette index treated as transparent when compositing.
    pub transparency: u8,
    pub style: u32,
    /// Up to 256 palette entries.
    pub palette: Vec<Color>,
}

impl Clone for FileHeader {
    fn clone(&self) -> (h: Self)
        ensures
            h.version_major == self.version_major,
            h.version_minor == self.version_minor,
            h.guid == self.guid,
            h.image_size == self.image_size,
            h.transparency == self.transparency,
            h.style == self.style,
            h.palette@ == self.palette@,
    {
        FileHeader {
            version_major: self.version_major,
            version_minor: self.version_minor,
            guid: self.guid,
            image_size: (self.image_size.0, self.image_size.1),
            transparency: self.transparency,
            style: self.style,
            palette: self.palette.clone(),
        }
    }
}

/// The kind of voice a character asks for.
#[derive(Clone, Copy, PartialEq, Eq, Debug, Default, Structural)]
pub enum Gender {
    #[default]
    Unspecified,
    Female,
    Male,
}

/// The character's default text-to-speech voice.
#[derive(Clone, Debug)]
pub struct Tts {
    pub engine: Guid,
    pub mode: Guid,
    pub speed: i32,
    pub pitch: i16,
    /// Present only when the file carries the extended TTS block.
    pub language: Option<u16>,
    /// SAPI gender code: 1 female, 2 male, anything else unspecified.
    pub gender: u16,
    pub age: u16,
    pub style: String,
}

/// The Lernout & Hauspie TruVoice voice modes and their genders, as `(GUID bytes, female)`.
/// The eight TruVoice American English modes share all bytes but the first.
pub open spec fn truvoice_gender(mode: Seq<u8>) -> Gender {
    if mode.len() == 16 && mode.subrange(1, 16) == truvoice_tail() {
        if 0xD0 <= mode[0] <= 0xD3 {
            Gender::Female
        } else if 0xD4 <= mode[0] <= 0xD7 {
            Gender::Male
        } else {
            Gender::Unspecified
        }
    } else {
        Gender::Unspecified
    }
}

/// The bytes after the first shared by the TruVoice American English voice modes
/// (`{CA141FDx-AC7F-11D1-97A3-006008273008}`).
pub open spec fn truvoice_tail() -> Seq<u8> {
    seq![
        0x1Fu8, 0x14, 0xCA, 0x7F, 0xAC, 0xD1, 0x11, 0x97, 0xA3, 0x00, 0x60, 0x08, 0x27, 0x30,
        0x08,
    ]
}

/// The gender a voice block asks for: the explicit SAPI code when present, else the one
/// implied by a known voice mode.
pub open spec fn spec_resolved_gender(gender: u16, mode: Seq<u8>) -> Gender {
    if gender == 1 {
        Gender::Female
    } else if gender == 2 {
        Gender::Male
    } else {
        truvoice_gender(mode)
    }
}

impl Tts {
    /// The voice gender the character asks for: the explicit code from the extended voice
    /// block when it carries one, else the gender of its voice mode when that mode is a
    /// known one.
    pub fn resolved_gender(&self) -> (g: Gender)
        ensures
            g == spec_resolved_gender(self.gender, self.mode.0@),
    {
        if self.gender == 1 {
            return Gender::Female;
        }
        if self.gender == 2 {
            return Gender::Male;
        }
        let m = self.mode.0;
        assert(m@ == self.mode.0@);
        let tail: [u8; 15] = [
            0x1F, 0x14, 0xCA, 0x7F, 0xAC, 0xD1, 0x11, 0x97, 0xA3, 0x00, 0x60, 0x08, 0x27, 0x30,
            0x08,
        ];
        assert(tail@ =~= truvoice_tail());
        let mut i: usize = 1;
        while i < 16
            invariant
                1 <= i <= 16,
                m@.len() == 16,
                m@ == self.mode.0@,
                self.gender != 1 && self.gender != 2,
                tail@.len() == 15,
                tail@ == truvoice_tail(),
                forall|j: int| 1 <= j < i ==> m@[j] == tail@[j - 1],
            decreases 16 - i,
        {
            if m[i] != tail[i - 1] {
                assert(self.mode.0@.subrange(1, 16)[i - 1] != truvoice_tail()[i - 1]);
                assert(self.mode.0@.subrange(1, 16) != truvoice_tail());
                assert(truvoice_gender(self.mode.0@) == Gender::Unspecified);
                return Gender::Unspecified;
            }
            i += 1;
        }
        assert(m@.subrange(1, 16) =~= tail@);
        if 0xD0 <= m[0] && m[0] <= 0xD3 {
            Gender::Female
        } else if 0xD4 <= m[0] && m[0] <= 0xD7 {
            Gender::Male
        } else {
            Gender::Unspecified
        }
    }
}

/// Default word-balloon appearance.
#[derive(Clone, Debug)]
pub struct Balloon {
    pub lines: u8,
    pub per_line: u8,
    pub fg_color: Color,
    pub bg_color: Color,
    pub border_color: Color,
    pub font_name: String,
    /// `LOGFONT.lfHeight` (signed; negative = character height in device units).
    pub font_height: i32,
    pub bold: bool,
    pub strikeout: bool,
    pub italic: bool,
}

/// A localized character name + optional descriptions.
#[derive(Clone, Debug)]
pub struct Name {
    /// Windows `LANGID`.
    pub language: u16,
    pub name: String,
    pub desc1: String,
    pub desc2: String,
}

/// A named state → the ordered list of animation names the engine plays for it
/// (e.g. `"SPEAKING"` → `["Speak", "Explain"]`).
#[derive(Clone, Debug)]
pub struct State {
    pub name: String,
    pub animations: Vec<String>,
}

/// One branch target within a frame.
#[derive(Clone, Copy, Debug)]
pub struct Branch {
    pub frame_ndx: i16,
    /// Cumulative-percentage weight (1..=100).
    pub probability: u16,
}

/// One base-image layer within a frame.
#[derive(Clone, Copy, Debug)]
pub struct FrameImage {
    /// Index into the file's image table.
    pub image_ndx: u32,
    pub offset: (i16, i16),
}

/// One mouth-overlay layer within a frame.
#[derive(Clone, Copy, Debug)]
pub struct FrameOverlay {
    pub overlay_type: MouthOverlay,
    pub image_ndx: u16,
    /// When set, the overlay replaces the frame's base image (index 0).
    pub replace: bool,
    pub offset: (i16, i16),
}

/// A single animation frame.
#[derive(Clone, Debug)]
pub struct Frame {
    /// On-screen time, in centiseconds (1/100 s).
    pub duration: u16,
    /// Index into the sound table, or `-1` for none.
    pub sound_ndx: i16,
    pub exit_frame: i16,
    /// Up to 3 probabilistic branch targets.
    pub branching: Vec<Branch>,
    pub images: Vec<FrameImage>,
    pub overlays: Vec<FrameOverlay>,
}

/// How an animation returns to the neutral pose when it ends or is interrupted.
#[derive(Clone, Copy, PartialEq, Eq, Debug, Structural)]
pub enum ReturnKind {
    /// Follow the frames' exit branching.
    ExitBranching,
    /// No return.
    NoReturn,
    /// Play the named return animation.
    Named,
}

impl ReturnKind {
    /// Interpret the raw `returnType` byte.
    pub fn from_u8(v: u8) -> (k: ReturnKind)
        ensures
            k == (if v == 1 {
                ReturnKind::ExitBranching
            } else if v == 2 {
                ReturnKind::NoReturn
            } else {
                ReturnKind::Named
            }),
    {
        match v {
            1 => ReturnKind::ExitBranching,
            2 => ReturnKind::NoReturn,
            _ => ReturnKind::Named,
        }
    }
}

/// The return kind a raw `returnType` byte names.
pub open spec fn spec_return_kind(v: u8) -> ReturnKind {
    if v == 1 {
        ReturnKind::ExitBranching
    } else if v == 2 {
        ReturnKind::NoReturn
    } else {
        ReturnKind::Named
    }
}

/// A named animation clip (a "gesture").
#[derive(Clone, Debug)]
pub struct Animation {
    pub name: String,
    pub return_kind: ReturnKind,
    /// Return animation name (meaningful when `return_kind == Named`).
    pub return_name: String,
    pub frames: Vec<Frame>,
}

/// A top-down, non-premultiplied RGBA8 image (row 0 is the top).
#[derive(Clone, Debug)]
pub struct Rgba {
    pub width: u32,
    pub height: u32,
    /// `width * height * 4` bytes, row-major, top-down, `[r, g, b, a]` per pixel.
    pub pixels: Vec<u8>,
}

impl Rgba {
    /// Whether the pixel buffer matches the dimensions.
    pub open spec fn wf(&self) -> bool {
        self.pixels@.len() == self.width * self.height * 4
    }

    /// Allocate a fully-transparent image.
    pub fn transparent(width: u32, height: u32) -> (img: Rgba)
        requires
            width * height * 4 <= usize::MAX,
        ensures
            img.width == width,
            img.height == height,
            img.pixels@ == Seq::new((width * height * 4) as nat, |i: int| 0u8),
            img.wf(),
    {
        proof {
            vstd::arithmetic::mul::lemma_mul_nonnegative(width as int, height as int);
        }
        let n = (width as usize) * (height as usize) * 4;
        let pixels = vec_filled(0u8, n);
        assert(pixels@ =~= Seq::new((width * height * 4) as nat, |i: int| 0u8));
        Rgba { width, height, pixels }
    }

    /// True if every pixel is fully transparent: every alpha byte (offsets 3, 7, 11, …)
    /// is zero.
    pub fn is_fully_transparent(&self) -> (r: bool)
        ensures
            r == (forall|k: int|
                0 <= k && 4 * k + 3 < self.pixels@.len() ==> #[trigger] alpha_at(self.pixels@, k)
                    == 0),
    {
        let n = self.pixels.len();
        let mut k: usize = 0;
        while k < n / 4 + 1
            invariant
                n == self.pixels@.len(),
                0 <= k <= n / 4 + 1,
                forall|j: int| 0 <= j < k && 4 * j + 3 < n ==> #[trigger] alpha_at(self.pixels@, j) == 0,
            decreases n / 4 + 1 - k,
        {
            if 4 * k + 3 < n {
                if self.pixels[4 * k + 3] != 0 {
                    assert(alpha_at(self.pixels@, k as int) != 0);
                    return false;
                }
            }
            k += 1;
        }
        assert forall|j: int| 0 <= j && 4 * j + 3 < n implies #[trigger] alpha_at(self.pixels@, j) == 0 by {
            assert(j < k);
        }
        true
    }
}

/// The alpha byte of pixel `k`.
pub open spec fn alpha_at(px: Seq<u8>, k: int) -> u8 {
    px[4 * k + 3]
}

/// A vector of `n` copies of `v`.
pub fn vec_filled<T: Copy>(v: T, n: usize) -> (r: Vec<T>)
    ensures
        r@ == Seq::new(n as nat, |i: int| v),
{
    let mut r: Vec<T> = Vec::with_capacity(n);
    let mut i: usize = 0;
    while i < n
        invariant
            0 <= i <= n,
            r@ == Seq::new(i as nat, |j: int| v),
        decreases n - i,
    {
        r.push(v);
        i += 1;
        assert(r@ =~= Seq::new(i as nat, |j: int| v));
    }
    r
}

/// A top-down, palette-indexed composited frame (row 0 is the top). Pixels equal to
/// `transparent` are the transparent color key.
#[derive(Clone, Debug)]
pub struct Indexed {
    pub width: u32,
    pub height: u32,
    /// `width * height` palette indices, row-major, top-down.
    pub indices: Vec<u8>,
    /// The palette index that means "transparent".
    pub transparent: u8,
}

/// The RGBA channel `k` of a palette-indexed pixel `idx`: the transparent key maps to all
/// zero, an index past the palette's end to opaque black.
pub open spec fn indexed_channel(palette: Seq<Color>, transparent: u8, idx: u8, k: int) -> u8 {
    if idx == transparent {
        0
    } else if k == 3 {
        255
    } else {
        let c = if (idx as int) < palette.len() {
            palette[idx as int]
        } else {
            Color { r: 0, g: 0, b: 0 }
        };
        if k == 0 {
            c.r
        } else if k == 1 {
            c.g
        } else {
            c.b
        }
    }
}

/// Push the four channels of one palette-indexed pixel.
fn push_indexed_pixel(out: &mut Vec<u8>, palette: &[Color], transparent: u8, idx: u8)
    ensures
        final(out)@ == old(out)@ + seq![
            indexed_channel(palette@, transparent, idx, 0),
            indexed_channel(palette@, transparent, idx, 1),
            indexed_channel(palette@, transparent, idx, 2),
            indexed_channel(palette@, transparent, idx, 3),
        ],
{
    let ghost before = out@;
    if idx == transparent {
        out.push(0);
        out.push(0);
        out.push(0);
        out.push(0);
    } else {
        let c = if (idx as usize) < palette.len() {
            palette[idx as usize]
        } else {
            Color { r: 0, g: 0, b: 0 }
        };
        out.push(c.r);
        out.push(c.g);
        out.push(c.b);
        out.push(255);
    }
    assert(out@ =~= before + seq![
        indexed_channel(palette@, transparent, idx, 0),
        indexed_channel(palette@, transparent, idx, 1),
        indexed_channel(palette@, transparent, idx, 2),
        indexed_channel(palette@, transparent, idx, 3),
    ]);
}

impl Indexed {
    /// Allocate a fully-transparent (filled with the transparent index) canvas.
    pub fn filled(width: u32, height: u32, transparent: u8) -> (img: Indexed)
        requires
            width * height <= usize::MAX,
        ensures
            img.width == width,
            img.height == height,
            img.transparent == transparent,
            img.indices@ == Seq::new((width * height) as nat, |i: int| transparent),
    {
        proof {
            vstd::arithmetic::mul::lemma_mul_nonnegative(width as int, height as int);
        }
        let n = (width as usize) * (height as usize);
        Indexed { width, height, indices: vec_filled(transparent, n), transparent }
    }

    /// Map to top-down RGBA8 using `palette` (transparent index → transparent pixel,
    /// an index past the palette → opaque black).
    pub fn to_rgba(&self, palette: &[Color]) -> (img: Rgba)
        requires
            self.indices@.len() * 4 <= usize::MAX,
        ensures
            img.width == self.width,
            img.height == self.height,
            img.pixels@.len() == 4 * self.indices@.len(),
            forall|p: int, k: int|
                0 <= p < self.indices@.len() && 0 <= k < 4 ==> img.pixels@[4 * p + k]
                    == #[trigger] indexed_channel(palette@, self.transparent, self.indices@[p], k),
    {
        let n = self.indices.len();
        let mut px: Vec<u8> = Vec::with_capacity(n * 4);
        let mut i: usize = 0;
        while i < n
            invariant
                n == self.indices@.len(),
                0 <= i <= n,
                px@.len() == 4 * i,
                forall|p: int, k: int|
                    0 <= p < i && 0 <= k < 4 ==> px@[4 * p + k] == #[trigger] indexed_channel(
                        palette@,
                        self.transparent,
                        self.indices@[p],
                        k,
                    ),
            decreases n - i,
        {
            push_indexed_pixel(&mut px, palette, self.transparent, self.indices[i]);
            i += 1;
        }
        Rgba { width: self.width, height: self.height, pixels: px }
    }
}

/// A decoded image: 8-bpp palette indices in a bottom-up DIB with 4-byte-aligned rows.
#[derive(Debug)]
pub struct Image {
    /// Zero-based index in the file's image table.
    pub index: usize,
    pub width: u16,
    pub height: u16,
    /// Palette-index bytes. Row stride is `((width + 3) / 4) * 4`; rows are bottom-up.
    pub bits: Vec<u8>,
}

impl Clone for Image {
    fn clone(&self) -> (img: Self)
        ensures
            img.index == self.index,
            img.width == self.width,
            img.height == self.height,
            img.bits@ == self.bits@,
    {
        Image { index: self.index, width: self.width, height: self.height, bits: self.bits.clone() }
    }
}

/// Row stride in bytes (4-byte aligned) of a `width`-pixel row.
pub open spec fn spec_stride(width: int) -> int {
    (width + 3) / 4 * 4
}

/// The source index of visual pixel `(x, y)` of a bottom-up image: missing bytes read as
/// the transparency index.
pub open spec fn image_index_at(
    bits: Seq<u8>,
    width: int,
    height: int,
    x: int,
    y: int,
    transparency: u8,
) -> u8 {
    let at = (height - 1 - y) * spec_stride(width) + x;
    if at < bits.len() {
        bits[at]
    } else {
        transparency
    }
}

impl Image {
    /// Row stride in bytes (4-byte aligned).
    pub fn stride(&self) -> (s: usize)
        ensures
            s == spec_stride(self.width as int),
    {
        (self.width as usize + 3) / 4 * 4
    }

    /// Expected size of `bits` for the given dimensions.
    pub fn expected_len(width: u16, height: u16) -> (n: usize)
        ensures
            n == spec_stride(width as int) * height,
    {
        proof {
            vstd::arithmetic::mul::lemma_mul_upper_bound(
                spec_stride(width as int),
                65536,
                height as int,
                65535,
            );
        }
        (width as usize + 3) / 4 * 4 * (height as usize)
    }

    /// Convert this single image to top-down RGBA8 using `palette`, mapping the
    /// `transparency` palette index to a fully transparent pixel. Output pixel `p` is the
    /// visual pixel at column `p % width`, row `p / width`.
    pub fn to_rgba(&self, palette: &[Color], transparency: u8) -> (out: Vec<u8>)
        requires
            self.width * self.height * 4 <= usize::MAX,
        ensures
            out@.len() == 4 * (self.width * self.height),
            forall|p: int, k: int|
                0 <= p < self.width * self.height && 0 <= k < 4 ==> out@[4 * p + k]
                    == #[trigger] indexed_channel(
                    palette@,
                    transparency,
                    image_index_at(
                        self.bits@,
                        self.width as int,
                        self.height as int,
                        p % (self.width as int),
                        p / (self.width as int),
                        transparency,
                    ),
                    k,
                ),
    {
        let w = self.width as usize;
        let h = self.height as usize;
        let stride = self.stride();
        let mut out: Vec<u8> = Vec::with_capacity(w * h * 4);
        let mut y: usize = 0;
        while y < h
            invariant
                w == self.width,
                h == self.height,
                stride == spec_stride(w as int),
                w * h * 4 <= usize::MAX,
                0 <= y <= h,
                out@.len() == 4 * (y * w),
                forall|p: int, k: int|
                    0 <= p < y * w && 0 <= k < 4 ==> out@[4 * p + k] == #[trigger] indexed_channel(
                        palette@,
                        transparency,
                        image_index_at(self.bits@, w as int, h as int, p % (w as int), p / (w as int), transparency),
                        k,
                    ),
            decreases h - y,
        {
            proof {
                vstd::arithmetic::mul::lemma_mul_upper_bound((y + 1) as int, h as int, w as int, w as int);
                assert((y + 1) * w == y * w + w) by (nonlinear_arith);
                assert(h * w == w * h) by (nonlinear_arith);
                vstd::arithmetic::mul::lemma_mul_upper_bound(
                    (h - 1 - y) as int,
                    h as int,
                    stride as int,
                    stride as int,
                );
                vstd::arithmetic::mul::lemma_mul_upper_bound(h as int, 65535, stride as int, 65536);
            }
            let src_row = (h - 1 - y) * stride;
            let mut x: usize = 0;
            while x < w
                invariant
                    w == self.width,
                    h == self.height,
                    stride == spec_stride(w as int),
                    0 <= y < h,
                    w * h * 4 <= usize::MAX,
                    y * w + w <= w * h,
                    src_row == (h - 1 - y) * stride,
                    src_row <= 65535 * 65536,
                    0 <= x <= w,
                    out@.len() == 4 * (y * w + x),
                    forall|p: int, k: int|
                        0 <= p < y * w + x && 0 <= k < 4 ==> out@[4 * p + k] == #[trigger] indexed_channel(
                            palette@,
                            transparency,
                            image_index_at(self.bits@, w as int, h as int, p % (w as int), p / (w as int), transparency),
                            k,
                        ),
                decreases w - x,
            {
                let at = src_row + x;
                let idx = if at < self.bits.len() {
                    self.bits[at]
                } else {
                    transparency
                };
                proof {
                    vstd::arithmetic::div_mod::lemma_fundamental_div_mod_converse(
                        (y * w + x) as int,
                        w as int,
                        y as int,
                        x as int,
                    );
                }
                assert(idx == image_index_at(
                    self.bits@,
                    w as int,
                    h as int,
                    (y * w + x) as int % (w as int),
                    (y * w + x) as int / (w as int),
                    transparency,
                ));
                push_indexed_pixel(&mut out, palette, transparency, idx);
                x += 1;
            }
            y += 1;
        }
        assert(h * w == w * h) by (nonlinear_arith);
        out
    }
}

} // verus!
