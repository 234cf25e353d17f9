//! Parser for the Microsoft Agent 2.0 compiled binary format (`.acs`), the in-memory
//! constructors, and lookups over a parsed character.
//!
//! Layout: the signature, then four `{u32 offset, u32 length}` block descriptors (header,
//! gestures, images, sounds). The header block holds the version, the location of the
//! localized names, identity, frame size, transparency index, style flags, the optional
//! voice and balloon blocks, the palette, the tray icon and the states. The gesture block
//! lists each animation's name and the location of its record; the image and sound
//! blocks list `{offset, size, checksum}` entries.

use crate::acs_records::{read_animation, spec_animation, animations_view, AnimationView};
use crate::blocks::{
    block_read, names_view, read_balloon, read_names, read_states, read_tts, skip_icon,
    spec_balloon, spec_icon, spec_names, spec_palette, spec_states, spec_tts, states_view,
    BalloonView, NameView, StateView, TtsView,
};
use crate::decode::decode_run;
use crate::error::Error;
use crate::acs_records::FrameView;
use crate::model::{
    indexed_channel, Animation, Balloon, Color, FileHeader, Frame, FrameImage, FrameOverlay,
    Image, Indexed, MouthOverlay, Name, Rgba, State, Tts, image_index_at, spec_stride, STYLE_BALLOON,
    STYLE_TTS,
};
use crate::reader::{
    is_eof, lemma_list_fail, lemma_offset_nonneg, le_u32, sp_bytes, sp_text, sp_u16,
    sp_u32, sp_u8, spec_list, Cursor, StringForm,
};
use crate::textutil::{eq_ignore_case, str_eq_ignore_case};
use vstd::prelude::*;

verus! {

broadcast use lemma_offset_nonneg;

/// First DWORD of an ACS 2.0 file.
pub const ACS_SIGNATURE: u32 = 0xABCD_ABC3;

/// First 4 bytes of an OLE2 compound document (`D0 CF 11 E0` little-endian), the
/// container of the older ACS 1.5 characters.
pub const OLE2_SIGNATURE: u32 = 0xE011_CFD0;

/// The leading signature DWORD, if the buffer holds four bytes.
pub open spec fn spec_signature(b: Seq<u8>) -> Option<u32> {
    if b.len() >= 4 {
        Some(le_u32(b, 0))
    } else {
        None
    }
}

/// Return the leading signature DWORD, or `None` if the buffer is too short.
pub fn signature(bytes: &[u8]) -> (r: Option<u32>)
    ensures
        r == spec_signature(bytes@),
{
    if bytes.len() >= 4 {
        Some(
            bytes[0] as u32 + 256 * (bytes[1] as u32) + 65536 * (bytes[2] as u32) + 16777216 * (
            bytes[3] as u32),
        )
    } else {
        None
    }
}

/// Whether a `major.minor` character definition is one this reader understands
/// (Microsoft Agent 1.x and 2.x).
pub open spec fn version_ok(version: u32) -> bool {
    0x0001_0000 <= version < 0x0003_0000
}

/// Reject character definitions from an unknown generation of the format.
pub fn check_header_version(version: u32) -> (r: Result<(), Error>)
    ensures
        r is Ok <==> version_ok(version),
        r matches Err(e) ==> e is InvalidData,
{
    if 0x0001_0000 <= version && version < 0x0003_0000 {
        Ok(())
    } else {
        Err(Error::InvalidData(String::new()))
    }
}

/// The header fields as plain values.
pub struct HeaderView {
    pub version_major: u16,
    pub version_minor: u16,
    pub guid: Seq<u8>,
    pub image_size: (u16, u16),
    pub transparency: u8,
    pub style: u32,
    pub palette: Seq<Color>,
}

impl View for FileHeader {
    type V = HeaderView;

    open spec fn view(&self) -> HeaderView {
        HeaderView {
            version_major: self.version_major,
            version_minor: self.version_minor,
            guid: self.guid.0@,
            image_size: self.image_size,
            transparency: self.transparency,
            style: self.style,
            palette: self.palette@,
        }
    }
}

/// A decoded image as plain values.
pub struct ImageView {
    pub index: usize,
    pub width: u16,
    pub height: u16,
    pub bits: Seq<u8>,
}

impl View for Image {
    type V = ImageView;

    open spec fn view(&self) -> ImageView {
        ImageView { index: self.index, width: self.width, height: self.height, bits: self.bits@ }
    }
}

/// The views of a list of images.
pub open spec fn images_view(v: Seq<Image>) -> Seq<ImageView> {
    Seq::new(v.len(), |i: int| v[i]@)
}

/// The bytes of each sound.
pub open spec fn sounds_view(v: Seq<Vec<u8>>) -> Seq<Seq<u8>> {
    Seq::new(v.len(), |i: int| v[i]@)
}

/// The characters of each string.
pub open spec fn texts_view(v: Seq<String>) -> Seq<Seq<char>> {
    Seq::new(v.len(), |i: int| v[i]@)
}

/// `s` cut or padded with `fill` to exactly `n` bytes (`Vec::resize`).
pub open spec fn resized(s: Seq<u8>, n: nat, fill: u8) -> Seq<u8> {
    if s.len() >= n {
        s.subrange(0, n as int)
    } else {
        s + Seq::new((n - s.len()) as nat, |i: int| fill)
    }
}

/// Resize a byte vector to `n` bytes, filling with `fill`.
pub fn resize_bytes(v: &mut Vec<u8>, n: usize, fill: u8)
    ensures
        final(v)@ == resized(old(v)@, n as nat, fill),
{
    v.resize(n, fill);
    assert(v@ =~= resized(old(v)@, n as nat, fill));
}

/// The parsed header block (everything but the names, which live elsewhere).
pub struct HeaderPart {
    pub header: HeaderView,
    pub names_offset: u32,
    pub tts: Option<TtsView>,
    pub balloon: Option<BalloonView>,
    pub states: Seq<StateView>,
}

/// The voice block when the style says there is one.
pub open spec fn spec_opt_tts(b: Seq<u8>, at: int, style: u32, form: StringForm) -> Option<
    (Option<TtsView>, int),
> {
    if style & STYLE_TTS != 0 {
        match spec_tts(b, at, form) {
            None => None,
            Some((t, p)) => Some((Some(t), p)),
        }
    } else {
        Some((None, at))
    }
}

/// The balloon block when the style says there is one.
pub open spec fn spec_opt_balloon(
    b: Seq<u8>,
    at: int,
    style: u32,
    form: StringForm,
    style_byte: bool,
) -> Option<(Option<BalloonView>, int)> {
    if style & STYLE_BALLOON != 0 {
        match spec_balloon(b, at, form, style_byte) {
            None => None,
            Some((t, p)) => Some((Some(t), p)),
        }
    } else {
        Some((None, at))
    }
}

/// The header block after its identity: the optional voice and balloon blocks, palette,
/// icon and states.
pub open spec fn spec_header_tail(b: Seq<u8>, at: int, style: u32) -> Option<
    (Option<TtsView>, Option<BalloonView>, Seq<Color>, Seq<StateView>),
> {
    match spec_opt_tts(b, at, style, StringForm::Utf16Terminated) {
        None => None,
        Some((tts, p1)) => match spec_opt_balloon(b, p1, style, StringForm::Utf16Terminated, false) {
            None => None,
            Some((balloon, p2)) => match spec_palette(b, p2) {
                None => None,
                Some((palette, p3)) => match spec_icon(b, p3) {
                    None => None,
                    Some((_i, p4)) => match spec_states(b, p4, StringForm::Utf16Terminated) {
                        None => None,
                        Some((states, _p5)) => Some((tts, balloon, palette, states)),
                    },
                },
            },
        },
    }
}

/// The header block at `at`. `None` when it is cut short or its version is unknown.
pub open spec fn spec_header(b: Seq<u8>, at: int) -> Option<HeaderPart> {
    match sp_u16(b, at) {
        None => None,
        Some((minor, p1)) => match sp_u16(b, p1) {
            None => None,
            Some((major, p2)) => if !version_ok((major * 65536 + minor) as u32) {
                None
            } else {
                match sp_u32(b, p2) {
                    None => None,
                    Some((names_offset, p3)) => match sp_u32(b, p3) {
                        None => None,
                        Some((_names_size, p4)) => match sp_bytes(b, p4, 16) {
                            None => None,
                            Some((guid, p5)) => match sp_u16(b, p5) {
                                None => None,
                                Some((w, p6)) => match sp_u16(b, p6) {
                                    None => None,
                                    Some((h, p7)) => match sp_u8(b, p7) {
                                        None => None,
                                        Some((t, p8)) => match sp_u32(b, p8) {
                                            None => None,
                                            Some((style, p9)) => match sp_u32(b, p9) {
                                                None => None,
                                                Some((_unknown, p10)) => match spec_header_tail(b, p10, style) {
                                                    None => None,
                                                    Some((tts, balloon, palette, states)) => Some(
                                                        HeaderPart {
                                                            header: HeaderView {
                                                                version_major: major,
                                                                version_minor: minor,
                                                                guid,
                                                                image_size: (w, h),
                                                                transparency: t,
                                                                style,
                                                                palette,
                                                            },
                                                            names_offset,
                                                            tts,
                                                            balloon,
                                                            states,
                                                        },
                                                    ),
                                                },
                                            },
                                        },
                                    },
                                },
                            },
                        },
                    },
                }
            },
        },
    }
}

/// One gesture entry: its name and the animation record found where the entry points.
pub open spec fn spec_gesture(b: Seq<u8>, at: int) -> Option<((Seq<char>, AnimationView), int)> {
    match sp_text(b, at, StringForm::Utf16Terminated) {
        None => None,
        Some((name, p1)) => match sp_u32(b, p1) {
            None => None,
            Some((off, p2)) => match sp_u32(b, p2) {
                None => None,
                Some((_size, p3)) => match spec_animation(b, off as int) {
                    None => None,
                    Some((anim, _q)) => Some(((name, anim), p3)),
                },
            },
        },
    }
}

/// The gesture block at `at`: a `u32` count, then the entries.
pub open spec fn spec_gestures(b: Seq<u8>, at: int) -> Option<Seq<(Seq<char>, AnimationView)>> {
    match sp_u32(b, at) {
        None => None,
        Some((n, p)) => match spec_list(b, p, n as nat, |b: Seq<u8>, at: int| spec_gesture(b, at)) {
            None => None,
            Some((gs, _q)) => Some(gs),
        },
    }
}

/// The image record at `at`, padded or cut to the image's dimensions with the
/// transparency index. A compressed record's bits come from [`decode_run`].
pub open spec fn spec_image_record(b: Seq<u8>, at: int, index: int, transparency: u8) -> Option<
    ImageView,
> {
    match sp_u8(b, at) {
        None => None,
        Some((_first, p1)) => match sp_u16(b, p1) {
            None => None,
            Some((w, p2)) => match sp_u16(b, p2) {
                None => None,
                Some((h, p3)) => match sp_u8(b, p3) {
                    None => None,
                    Some((compressed, p4)) => match sp_u32(b, p4) {
                        None => None,
                        Some((n, p5)) => match sp_bytes(b, p5, n as int) {
                            None => None,
                            Some((raw, _p6)) => Some(
                                ImageView {
                                    index: index as usize,
                                    width: w,
                                    height: h,
                                    bits: resized(
                                        if compressed != 0 {
                                            Seq::empty()
                                        } else {
                                            raw
                                        },
                                        (spec_stride(w as int) * h) as nat,
                                        transparency,
                                    ),
                                },
                            ),
                        },
                    },
                },
            },
        },
    }
}

/// One `{u32 offset, u32 size, u32 checksum}` entry of the image or sound index.
pub open spec fn spec_entry(b: Seq<u8>, at: int) -> Option<((u32, u32), int)> {
    match sp_u32(b, at) {
        None => None,
        Some((off, p1)) => match sp_u32(b, p1) {
            None => None,
            Some((size, p2)) => match sp_u32(b, p2) {
                None => None,
                Some((_sum, p3)) => Some(((off, size), p3)),
            },
        },
    }
}

/// The entries of an index block at `at`.
pub open spec fn spec_entries(b: Seq<u8>, at: int) -> Option<Seq<(u32, u32)>> {
    match sp_u32(b, at) {
        None => None,
        Some((n, p)) => match spec_list(b, p, n as nat, |b: Seq<u8>, at: int| spec_entry(b, at)) {
            None => None,
            Some((es, _q)) => Some(es),
        },
    }
}

/// Every image the index lists, decoded, or `None` if any is unreadable.
pub open spec fn spec_images(b: Seq<u8>, entries: Seq<(u32, u32)>, transparency: u8, n: nat) -> Option<
    Seq<ImageView>,
>
    decreases n,
{
    if n == 0 {
        Some(Seq::empty())
    } else {
        match spec_images(b, entries, transparency, (n - 1) as nat) {
            None => None,
            Some(imgs) => match spec_image_record(
                b,
                entries[n - 1].0 as int,
                n - 1,
                transparency,
            ) {
                None => None,
                Some(img) => Some(imgs.push(img)),
            },
        }
    }
}

/// Every sound the index lists, or `None` if any runs past the end of the file.
pub open spec fn spec_sounds(b: Seq<u8>, entries: Seq<(u32, u32)>, n: nat) -> Option<Seq<Seq<u8>>>
    decreases n,
{
    if n == 0 {
        Some(Seq::empty())
    } else {
        match spec_sounds(b, entries, (n - 1) as nat) {
            None => None,
            Some(ss) => match sp_bytes(b, entries[n - 1].0 as int, entries[n - 1].1 as int) {
                None => None,
                Some((s, _p)) => Some(ss.push(s)),
            },
        }
    }
}

/// A parsed character as plain values.
pub struct AcsView {
    pub header: HeaderView,
    pub tts: Option<TtsView>,
    pub balloon: Option<BalloonView>,
    pub names: Seq<NameView>,
    pub states: Seq<StateView>,
    pub gesture_names: Seq<Seq<char>>,
    pub animations: Seq<AnimationView>,
    pub images: Option<Seq<ImageView>>,
    pub sounds: Option<Seq<Seq<u8>>>,
    pub rgba_images: Option<Seq<Rgba>>,
}

/// An ACS 2.0 file as plain values, or `None` if any part is cut short or the version is
/// unknown.
pub open spec fn spec_acs2(b: Seq<u8>) -> Option<AcsView> {
    if b.len() < 36 {
        None
    } else {
        let ho = le_u32(b, 4) as int;
        let go = le_u32(b, 12) as int;
        let io = le_u32(b, 20) as int;
        let so = le_u32(b, 28) as int;
        match spec_header(b, ho) {
            None => None,
            Some(hp) => match spec_names(b, hp.names_offset as int, StringForm::Utf16Terminated) {
                None => None,
                Some((names, _p)) => match spec_gestures(b, go) {
                    None => None,
                    Some(gs) => match spec_entries(b, io) {
                        None => None,
                        Some(ies) => match spec_images(b, ies, hp.header.transparency, ies.len()) {
                            None => None,
                            Some(images) => match spec_entries(b, so) {
                                None => None,
                                Some(ses) => match spec_sounds(b, ses, ses.len()) {
                                    None => None,
                                    Some(sounds) => Some(
                                        AcsView {
                                            header: hp.header,
                                            tts: hp.tts,
                                            balloon: hp.balloon,
                                            names,
                                            states: hp.states,
                                            gesture_names: Seq::new(gs.len(), |i: int| gs[i].0),
                                            animations: Seq::new(gs.len(), |i: int| gs[i].1),
                                            images: Some(images),
                                            sounds: Some(sounds),
                                            rgba_images: None,
                                        },
                                    ),
                                },
                            },
                        },
                    },
                },
            },
        }
    }
}

/// A parsed ACS character file (or one assembled in memory from decoded parts).
pub struct AcsFile {
    pub header: FileHeader,
    pub tts: Option<Tts>,
    pub balloon: Option<Balloon>,
    pub names: Vec<Name>,
    pub states: Vec<State>,
    /// Animation names in file order (parallel to `animations`).
    pub gesture_names: Vec<String>,
    pub animations: Vec<Animation>,
    /// Pre-decoded 8-bpp image and WAV sound pools.
    images: Option<Vec<Image>>,
    sounds: Option<Vec<Vec<u8>>>,
    /// A pre-decoded RGBA image pool for characters built from already-RGBA art (see
    /// [`AcsFile::from_parts_rgba`]). When present, compositing alpha-blits these directly.
    rgba_images: Option<Vec<Rgba>>,
}

/// The optional voice block's view.
pub open spec fn opt_tts_view(t: Option<Tts>) -> Option<TtsView> {
    match t {
        Some(v) => Some(v@),
        None => None,
    }
}

/// The optional balloon block's view.
pub open spec fn opt_balloon_view(t: Option<Balloon>) -> Option<BalloonView> {
    match t {
        Some(v) => Some(v@),
        None => None,
    }
}

impl View for AcsFile {
    type V = AcsView;

    closed spec fn view(&self) -> AcsView {
        AcsView {
            header: self.header@,
            tts: opt_tts_view(self.tts),
            balloon: opt_balloon_view(self.balloon),
            names: names_view(self.names@),
            states: states_view(self.states@),
            gesture_names: texts_view(self.gesture_names@),
            animations: animations_view(self.animations@),
            images: match self.images {
                Some(v) => Some(images_view(v@)),
                None => None,
            },
            sounds: match self.sounds {
                Some(v) => Some(sounds_view(v@)),
                None => None,
            },
            rgba_images: match self.rgba_images {
                Some(v) => Some(v@),
                None => None,
            },
        }
    }
}

/// The header block as read from the file.
struct HeaderBlock {
    header: FileHeader,
    names_offset: u32,
    tts: Option<Tts>,
    balloon: Option<Balloon>,
    states: Vec<State>,
}

/// The plain values of a header block.
spec fn header_part(h: HeaderBlock) -> HeaderPart {
    HeaderPart {
        header: h.header@,
        names_offset: h.names_offset,
        tts: opt_tts_view(h.tts),
        balloon: opt_balloon_view(h.balloon),
        states: states_view(h.states@),
    }
}

/// Read the header block after its identity fields.
#[verifier::rlimit(40)]
fn read_header_tail(c: &mut Cursor, style: u32) -> (r: Result<
    (Option<Tts>, Option<Balloon>, Vec<Color>, Vec<State>),
    Error,
>)
    ensures
        final(c).data() == old(c).data(),
        r is Ok <==> spec_header_tail(old(c).data(), old(c).offset(), style) is Some,
        r matches Ok(t) ==> (opt_tts_view(t.0), opt_balloon_view(t.1), t.2@, states_view(t.3@))
            == spec_header_tail(old(c).data(), old(c).offset(), style).unwrap(),
        r matches Err(e) ==> is_eof(e),
{
    let tts = if style & STYLE_TTS != 0 {
        Some(read_tts(c, StringForm::Utf16Terminated)?)
    } else {
        None
    };
    let balloon = if style & STYLE_BALLOON != 0 {
        Some(read_balloon(c, StringForm::Utf16Terminated, false)?)
    } else {
        None
    };
    let pal = crate::blocks::palette(c)?;
    skip_icon(c)?;
    let states = read_states(c, StringForm::Utf16Terminated)?;
    Ok((tts, balloon, pal, states))
}

/// Read the header block: identity, version (checked), frame size, transparency, style,
/// then the rest of the block.
#[verifier::rlimit(60)]
fn read_header(c: &mut Cursor) -> (r: Result<HeaderBlock, Error>)
    ensures
        final(c).data() == old(c).data(),
        r is Ok <==> spec_header(old(c).data(), old(c).offset()) is Some,
        r matches Ok(h) ==> header_part(h) == spec_header(old(c).data(), old(c).offset()).unwrap(),
        r matches Err(e) ==> is_eof(e) || e is InvalidData,
{
    let minor = c.u16()?;
    let major = c.u16()?;
    check_header_version(major as u32 * 65536 + minor as u32)?;
    let names_offset = c.u32()?;
    let _names_size = c.u32()?;
    let guid = c.guid()?;
    let width = c.u16()?;
    let height = c.u16()?;
    let transparency = c.u8()?;
    let style = c.u32()?;
    let _unknown = c.u32()?;
    let (tts, balloon, palette, states) = read_header_tail(c, style)?;
    Ok(
        HeaderBlock {
            header: FileHeader {
                version_major: major,
                version_minor: minor,
                guid,
                image_size: (width, height),
                transparency,
                style,
                palette,
            },
            names_offset,
            tts,
            balloon,
            states,
        },
    )
}

/// Read one gesture entry and the animation record it points at.
fn read_gesture(c: &mut Cursor, bytes: &[u8]) -> (r: Result<(String, Animation), Error>)
    requires
        old(c).data() == bytes@,
    ensures
        block_read(
            r,
            old(c),
            final(c),
            spec_gesture(bytes@, old(c).offset()),
            |g: (String, Animation)| (g.0@, g.1@),
        ),
{
    let name = c.string(true)?;
    let off = c.u32()?;
    let _size = c.u32()?;
    let mut ac = Cursor::at(bytes, off as usize);
    let anim = read_animation(&mut ac)?;
    Ok((name, anim))
}

/// Read the gesture block: a `u32` count, then the entries and their animations.
#[verifier::rlimit(50)]
fn read_gestures(c: &mut Cursor, bytes: &[u8]) -> (r: Result<(Vec<String>, Vec<Animation>), Error>)
    requires
        old(c).data() == bytes@,
    ensures
        r is Ok <==> spec_gestures(bytes@, old(c).offset()) is Some,
        r matches Ok(g) ==> {
            let gs = spec_gestures(bytes@, old(c).offset()).unwrap();
            &&& texts_view(g.0@) == Seq::new(gs.len(), |i: int| gs[i].0)
            &&& animations_view(g.1@) == Seq::new(gs.len(), |i: int| gs[i].1)
        },
        r matches Err(e) ==> is_eof(e),
{
    let ghost b = bytes@;
    let n = c.u32()?;
    let ghost start = c.offset();
    let ghost item = |b: Seq<u8>, at: int| spec_gesture(b, at);
    let ghost mut gs: Seq<(Seq<char>, AnimationView)> = Seq::empty();
    let mut names: Vec<String> = Vec::new();
    let mut anims: Vec<Animation> = Vec::new();
    let mut i: u32 = 0;
    while i < n
        invariant
            c.data() == b,
            b == bytes@,
            0 <= i <= n,
            gs.len() == i,
            sp_u32(b, old(c).offset()) == Some((n, start)),
            item == (|b: Seq<u8>, at: int| spec_gesture(b, at)),
            spec_list(b, start, i as nat, item) == Some((gs, c.offset())),
            names@.len() == i,
            anims@.len() == i,
            forall|j: int| 0 <= j < i ==> (#[trigger] names@[j])@ == gs[j].0,
            forall|j: int| 0 <= j < i ==> (#[trigger] anims@[j])@ == gs[j].1,
        decreases n - i,
    {
        let ghost here = c.offset();
        match read_gesture(c, bytes) {
            Ok((name, anim)) => {
                proof {
                    gs = gs.push((name@, anim@));
                }
                names.push(name);
                anims.push(anim);
            },
            Err(e) => {
                proof {
                    assert(spec_list(b, start, (i + 1) as nat, item) is None);
                    lemma_list_fail(b, start, (i + 1) as nat, n as nat, item);
                }
                return Err(e);
            },
        }
        i += 1;
    }
    assert(texts_view(names@) =~= Seq::new(gs.len(), |j: int| gs[j].0));
    assert(animations_view(anims@) =~= Seq::new(gs.len(), |j: int| gs[j].1));
    Ok((names, anims))
}

/// Read one `{offset, size, checksum}` index entry.
fn read_entry(c: &mut Cursor) -> (r: Result<(u32, u32), Error>)
    ensures
        block_read(r, old(c), final(c), spec_entry(old(c).data(), old(c).offset()), |e: (u32, u32)| e),
{
    let off = c.u32()?;
    let size = c.u32()?;
    let _checksum = c.u32()?;
    Ok((off, size))
}

/// Read an index block: a `u32` count, then the entries.
#[verifier::loop_isolation(false)]
fn read_entries(c: &mut Cursor) -> (r: Result<Vec<(u32, u32)>, Error>)
    ensures
        r is Ok <==> spec_entries(old(c).data(), old(c).offset()) is Some,
        r matches Ok(v) ==> v@ == spec_entries(old(c).data(), old(c).offset()).unwrap(),
        r matches Err(e) ==> is_eof(e),
{
    let ghost b = c.data();
    let n = c.u32()?;
    let ghost start = c.offset();
    let ghost item = |b: Seq<u8>, at: int| spec_entry(b, at);
    let mut out: Vec<(u32, u32)> = Vec::new();
    let mut i: u32 = 0;
    while i < n
        invariant
            c.data() == b,
            0 <= i <= n,
            spec_list(b, start, i as nat, item) is Some,
            c.offset() == spec_list(b, start, i as nat, item).unwrap().1,
            out@ == spec_list(b, start, i as nat, item).unwrap().0,
        decreases n - i,
    {
        match read_entry(c) {
            Ok(e) => out.push(e),
            Err(e) => {
                proof {
                    assert(spec_list(b, start, (i + 1) as nat, item) is None);
                    lemma_list_fail(b, start, (i + 1) as nat, n as nat, item);
                }
                return Err(e);
            },
        }
        i += 1;
    }
    Ok(out)
}

/// Read the image record at `at`.
fn read_image_record(bytes: &[u8], at: u32, index: usize, transparency: u8) -> (r: Result<
    Image,
    Error,
>)
    ensures
        r is Ok <==> spec_image_record(bytes@, at as int, index as int, transparency) is Some,
        r matches Ok(img) ==> img@ == spec_image_record(bytes@, at as int, index as int, transparency).unwrap(),
        r matches Err(e) ==> is_eof(e),
{
    let mut c = Cursor::at(bytes, at as usize);
    let _first = c.u8()?;
    let width = c.u16()?;
    let height = c.u16()?;
    let compressed = c.u8()?;
    let n = c.u32()?;
    let raw = c.bytes(n as usize)?;
    let expected = Image::expected_len(width, height);
    let mut bits = if compressed != 0 {
        decode_run(raw, expected)
    } else {
        vstd::slice::slice_to_vec(raw)
    };
    resize_bytes(&mut bits, expected, transparency);
    Ok(Image { index, width, height, bits })
}

proof fn lemma_images_fail(b: Seq<u8>, es: Seq<(u32, u32)>, t: u8, i: nat, n: nat)
    requires
        spec_images(b, es, t, i) is None,
        i <= n,
    ensures
        spec_images(b, es, t, n) is None,
    decreases n - i,
{
    if i < n {
        lemma_images_fail(b, es, t, i, (n - 1) as nat);
    }
}

/// Read every image the index lists.
fn read_images(bytes: &[u8], entries: &Vec<(u32, u32)>, transparency: u8) -> (r: Result<
    Vec<Image>,
    Error,
>)
    ensures
        r is Ok <==> spec_images(bytes@, entries@, transparency, entries@.len()) is Some,
        r matches Ok(v) ==> images_view(v@) == spec_images(bytes@, entries@, transparency, entries@.len()).unwrap(),
        r matches Err(e) ==> is_eof(e),
{
    let mut out: Vec<Image> = Vec::new();
    let mut i: usize = 0;
    while i < entries.len()
        invariant
            0 <= i <= entries@.len(),
            spec_images(bytes@, entries@, transparency, i as nat) is Some,
            images_view(out@) == spec_images(bytes@, entries@, transparency, i as nat).unwrap(),
        decreases entries@.len() - i,
    {
        match read_image_record(bytes, entries[i].0, i, transparency) {
            Ok(img) => out.push(img),
            Err(e) => {
                proof {
                    assert(spec_images(bytes@, entries@, transparency, (i + 1) as nat) is None);
                    lemma_images_fail(bytes@, entries@, transparency, (i + 1) as nat, entries@.len());
                }
                return Err(e);
            },
        }
        i += 1;
        assert(images_view(out@) =~= spec_images(bytes@, entries@, transparency, i as nat).unwrap());
    }
    Ok(out)
}

proof fn lemma_sounds_fail(b: Seq<u8>, es: Seq<(u32, u32)>, i: nat, n: nat)
    requires
        spec_sounds(b, es, i) is None,
        i <= n,
    ensures
        spec_sounds(b, es, n) is None,
    decreases n - i,
{
    if i < n {
        lemma_sounds_fail(b, es, i, (n - 1) as nat);
    }
}

/// Read every sound the index lists.
fn read_sounds(bytes: &[u8], entries: &Vec<(u32, u32)>) -> (r: Result<Vec<Vec<u8>>, Error>)
    ensures
        r is Ok <==> spec_sounds(bytes@, entries@, entries@.len()) is Some,
        r matches Ok(v) ==> sounds_view(v@) == spec_sounds(bytes@, entries@, entries@.len()).unwrap(),
        r matches Err(e) ==> is_eof(e),
{
    let mut out: Vec<Vec<u8>> = Vec::new();
    let mut i: usize = 0;
    while i < entries.len()
        invariant
            0 <= i <= entries@.len(),
            spec_sounds(bytes@, entries@, i as nat) is Some,
            sounds_view(out@) == spec_sounds(bytes@, entries@, i as nat).unwrap(),
        decreases entries@.len() - i,
    {
        let mut c = Cursor::at(bytes, entries[i].0 as usize);
        match c.bytes(entries[i].1 as usize) {
            Ok(s) => out.push(vstd::slice::slice_to_vec(s)),
            Err(e) => {
                proof {
                    assert(spec_sounds(bytes@, entries@, (i + 1) as nat) is None);
                    lemma_sounds_fail(bytes@, entries@, (i + 1) as nat, entries@.len());
                }
                return Err(e);
            },
        }
        i += 1;
        assert(sounds_view(out@) =~= spec_sounds(bytes@, entries@, i as nat).unwrap());
    }
    Ok(out)
}

/// Read an ACS 2.0 file whose signature has been checked.
#[verifier::rlimit(60)]
fn parse_acs2(bytes: &[u8]) -> (r: Result<AcsFile, Error>)
    ensures
        r is Ok <==> spec_acs2(bytes@) is Some,
        r matches Ok(f) ==> f@ == spec_acs2(bytes@).unwrap(),
        r matches Err(e) ==> is_eof(e) || e is InvalidData,
{
    let mut dir = Cursor::at(bytes, 4);
    let header_off = dir.u32()?;
    let _header_len = dir.u32()?;
    let gestures_off = dir.u32()?;
    let _gestures_len = dir.u32()?;
    let images_off = dir.u32()?;
    let _images_len = dir.u32()?;
    let sounds_off = dir.u32()?;
    let _sounds_len = dir.u32()?;
    let mut hc = Cursor::at(bytes, header_off as usize);
    let hb = read_header(&mut hc)?;
    let mut nc = Cursor::at(bytes, hb.names_offset as usize);
    let names = read_names(&mut nc, StringForm::Utf16Terminated)?;
    let mut gc = Cursor::at(bytes, gestures_off as usize);
    let (gesture_names, animations) = read_gestures(&mut gc, bytes)?;
    let mut ic = Cursor::at(bytes, images_off as usize);
    let image_entries = read_entries(&mut ic)?;
    let images = read_images(bytes, &image_entries, hb.header.transparency)?;
    let mut sc = Cursor::at(bytes, sounds_off as usize);
    let sound_entries = read_entries(&mut sc)?;
    let sounds = read_sounds(bytes, &sound_entries)?;
    let f = AcsFile {
        header: hb.header,
        tts: hb.tts,
        balloon: hb.balloon,
        names,
        states: hb.states,
        gesture_names,
        animations,
        images: Some(images),
        sounds: Some(sounds),
        rgba_images: None,
    };
    assert(f@ == spec_acs2(bytes@).unwrap());
    Ok(f)
}

/// The error a buffer too short to hold a signature gets.
pub open spec fn short_signature(len: nat) -> Error {
    Error::UnexpectedEof { context: "signature", offset: 0, needed: 4, available: len as usize }
}

impl AcsFile {
    /// Parse an in-memory `.acs` byte buffer.
    ///
    /// A buffer under four bytes is cut short; an ACS 2.0 signature is parsed in full; an
    /// OLE2 compound document (ACS 1.5) is refused here and read by
    /// [`crate::acs_v15::parse_v15`]; anything else is a bad signature.
    pub fn parse(data: Vec<u8>) -> (r: Result<AcsFile, Error>)
        ensures
            data@.len() < 4 ==> r == Err::<AcsFile, Error>(short_signature(data@.len())),
            data@.len() >= 4 && le_u32(data@, 0) == ACS_SIGNATURE ==> {
                &&& (r is Ok <==> spec_acs2(data@) is Some)
                &&& r matches Ok(f) ==> f@ == spec_acs2(data@).unwrap()
                &&& r matches Err(e) ==> is_eof(e) || e is InvalidData
            },
            data@.len() >= 4 && le_u32(data@, 0) == OLE2_SIGNATURE ==> r matches Err(
                Error::Unsupported(_),
            ),
            data@.len() >= 4 && le_u32(data@, 0) != ACS_SIGNATURE && le_u32(data@, 0)
                != OLE2_SIGNATURE ==> r == Err::<AcsFile, Error>(
                Error::BadSignature { found: le_u32(data@, 0) },
            ),
    {
        let sig = match signature(data.as_slice()) {
            Some(s) => s,
            None => {
                return Err(
                    Error::UnexpectedEof {
                        context: "signature",
                        offset: 0,
                        needed: 4,
                        available: data.len(),
                    },
                );
            },
        };
        if sig == ACS_SIGNATURE {
            parse_acs2(data.as_slice())
        } else if sig == OLE2_SIGNATURE {
            Err(Error::Unsupported("ACS 1.5 characters are read with parse_v15"))
        } else {
            Err(Error::BadSignature { found: sig })
        }
    }
}


/// The index of the first name in `langs[..n]` whose language is exactly `langid`.
pub open spec fn first_exact(langs: Seq<u16>, langid: u16, n: nat) -> Option<int>
    decreases n,
{
    if n == 0 {
        None
    } else {
        match first_exact(langs, langid, (n - 1) as nat) {
            Some(i) => Some(i),
            None => if langs[n - 1] == langid {
                Some(n - 1)
            } else {
                None
            },
        }
    }
}

/// The primary language of a Windows `LANGID` (its low 10 bits).
pub open spec fn primary_language(langid: u16) -> u16 {
    langid & 0x03FF
}

/// The index of the first name in `langs[..n]` sharing `langid`'s primary language.
pub open spec fn first_primary(langs: Seq<u16>, langid: u16, n: nat) -> Option<int>
    decreases n,
{
    if n == 0 {
        None
    } else {
        match first_primary(langs, langid, (n - 1) as nat) {
            Some(i) => Some(i),
            None => if primary_language(langs[n - 1]) == primary_language(langid) {
                Some(n - 1)
            } else {
                None
            },
        }
    }
}

/// Which stored name serves `langid`: an exact match, else one of the same primary
/// language, else the first; `None` only when there are no names.
pub open spec fn name_pick(langs: Seq<u16>, langid: u16) -> Option<int> {
    match first_exact(langs, langid, langs.len()) {
        Some(i) => Some(i),
        None => match first_primary(langs, langid, langs.len()) {
            Some(i) => Some(i),
            None => if langs.len() > 0 {
                Some(0)
            } else {
                None
            },
        },
    }
}

/// The languages of a list of names.
pub open spec fn languages(names: Seq<NameView>) -> Seq<u16> {
    Seq::new(names.len(), |i: int| names[i].language)
}

/// The index of the first name in `names[..n]` equal to `name` up to ASCII case.
pub open spec fn first_named(names: Seq<Seq<char>>, name: Seq<char>, n: nat) -> Option<int>
    decreases n,
{
    if n == 0 {
        None
    } else {
        match first_named(names, name, (n - 1) as nat) {
            Some(i) => Some(i),
            None => if eq_ignore_case(names[n - 1], name) {
                Some(n - 1)
            } else {
                None
            },
        }
    }
}

proof fn lemma_first_exact_bound(langs: Seq<u16>, langid: u16, n: nat)
    ensures
        first_exact(langs, langid, n) matches Some(i) ==> 0 <= i < n,
    decreases n,
{
    if n > 0 {
        lemma_first_exact_bound(langs, langid, (n - 1) as nat);
    }
}

proof fn lemma_first_primary_bound(langs: Seq<u16>, langid: u16, n: nat)
    ensures
        first_primary(langs, langid, n) matches Some(i) ==> 0 <= i < n,
    decreases n,
{
    if n > 0 {
        lemma_first_primary_bound(langs, langid, (n - 1) as nat);
    }
}

proof fn lemma_first_exact_stable(langs: Seq<u16>, langid: u16, i: nat, n: nat)
    requires
        first_exact(langs, langid, i) is Some,
        i <= n,
    ensures
        first_exact(langs, langid, n) == first_exact(langs, langid, i),
    decreases n - i,
{
    if i < n {
        lemma_first_exact_stable(langs, langid, i, (n - 1) as nat);
    }
}

proof fn lemma_first_primary_stable(langs: Seq<u16>, langid: u16, i: nat, n: nat)
    requires
        first_primary(langs, langid, i) is Some,
        i <= n,
    ensures
        first_primary(langs, langid, n) == first_primary(langs, langid, i),
    decreases n - i,
{
    if i < n {
        lemma_first_primary_stable(langs, langid, i, (n - 1) as nat);
    }
}

/// A name search finds an index within the searched prefix.
pub proof fn lemma_first_named_bound(names: Seq<Seq<char>>, name: Seq<char>, n: nat)
    ensures
        first_named(names, name, n) matches Some(i) ==> 0 <= i < n,
    decreases n,
{
    if n > 0 {
        lemma_first_named_bound(names, name, (n - 1) as nat);
    }
}

proof fn lemma_first_named_stable(names: Seq<Seq<char>>, name: Seq<char>, i: nat, n: nat)
    requires
        first_named(names, name, i) is Some,
        i <= n,
    ensures
        first_named(names, name, n) == first_named(names, name, i),
    decreases n - i,
{
    if i < n {
        lemma_first_named_stable(names, name, i, (n - 1) as nat);
    }
}

impl AcsFile {
    /// Assemble an `AcsFile` from already-decoded parts with an 8-bpp palette-indexed
    /// image pool: the in-memory equivalent of a parsed file.
    pub fn from_parts(
        header: FileHeader,
        tts: Option<Tts>,
        balloon: Option<Balloon>,
        names: Vec<Name>,
        states: Vec<State>,
        gesture_names: Vec<String>,
        animations: Vec<Animation>,
        images: Vec<Image>,
        sounds: Vec<Vec<u8>>,
    ) -> (f: AcsFile)
        ensures
            f@ == (AcsView {
                header: header@,
                tts: opt_tts_view(tts),
                balloon: opt_balloon_view(balloon),
                names: names_view(names@),
                states: states_view(states@),
                gesture_names: texts_view(gesture_names@),
                animations: animations_view(animations@),
                images: Some(images_view(images@)),
                sounds: Some(sounds_view(sounds@)),
                rgba_images: None,
            }),
    {
        AcsFile::from_v15(header, tts, balloon, names, states, gesture_names, animations, images, sounds)
    }

    /// Assemble an `AcsFile` from the parts an ACS 1.5 reading decoded: the image and sound
    /// pools it synthesized from the per-animation streams.
    pub(crate) fn from_v15(
        header: FileHeader,
        tts: Option<Tts>,
        balloon: Option<Balloon>,
        names: Vec<Name>,
        states: Vec<State>,
        gesture_names: Vec<String>,
        animations: Vec<Animation>,
        images: Vec<Image>,
        sounds: Vec<Vec<u8>>,
    ) -> (f: AcsFile)
        ensures
            f@ == (AcsView {
                header: header@,
                tts: opt_tts_view(tts),
                balloon: opt_balloon_view(balloon),
                names: names_view(names@),
                states: states_view(states@),
                gesture_names: texts_view(gesture_names@),
                animations: animations_view(animations@),
                images: Some(images_view(images@)),
                sounds: Some(sounds_view(sounds@)),
                rgba_images: None,
            }),
    {
        AcsFile {
            header,
            tts,
            balloon,
            names,
            states,
            gesture_names,
            animations,
            images: Some(images),
            sounds: Some(sounds),
            rgba_images: None,
        }
    }

    /// Assemble an `AcsFile` from already-decoded parts with an RGBA image pool: each
    /// frame image index then names an entry of `images`, composited by alpha blending.
    /// The palette-indexed helpers (`image`, `composite_frame_indexed`) are not available
    /// on a file built this way.
    pub fn from_parts_rgba(
        header: FileHeader,
        tts: Option<Tts>,
        balloon: Option<Balloon>,
        names: Vec<Name>,
        states: Vec<State>,
        gesture_names: Vec<String>,
        animations: Vec<Animation>,
        images: Vec<Rgba>,
        sounds: Vec<Vec<u8>>,
    ) -> (f: AcsFile)
        ensures
            f@ == (AcsView {
                header: header@,
                tts: opt_tts_view(tts),
                balloon: opt_balloon_view(balloon),
                names: names_view(names@),
                states: states_view(states@),
                gesture_names: texts_view(gesture_names@),
                animations: animations_view(animations@),
                images: None,
                sounds: Some(sounds_view(sounds@)),
                rgba_images: Some(images@),
            }),
    {
        AcsFile {
            header,
            tts,
            balloon,
            names,
            states,
            gesture_names,
            animations,
            images: None,
            sounds: Some(sounds),
            rgba_images: Some(images),
        }
    }

    /// The character name for a Windows `LANGID`: an exact match, else one sharing the
    /// primary language (low 10 bits), else the first name in the file.
    pub fn name(&self, langid: u16) -> (r: Option<&Name>)
        ensures
            r is None <==> name_pick(languages(self@.names), langid) is None,
            r matches Some(n) ==> n@ == self@.names[name_pick(languages(self@.names), langid).unwrap()],
    {
        let ghost langs = languages(self@.names);
        let mut i: usize = 0;
        while i < self.names.len()
            invariant
                0 <= i <= self.names@.len(),
                langs == languages(names_view(self.names@)),
                first_exact(langs, langid, i as nat) is None,
            decreases self.names@.len() - i,
        {
            if self.names[i].language == langid {
                proof {
                    assert(langs[i as int] == self.names@[i as int].language);
                    lemma_first_exact_stable(langs, langid, (i + 1) as nat, langs.len());
                }
                return Some(&self.names[i]);
            }
            i += 1;
        }
        let primary = langid & 0x03FF;
        let mut j: usize = 0;
        while j < self.names.len()
            invariant
                0 <= j <= self.names@.len(),
                langs == languages(names_view(self.names@)),
                primary == primary_language(langid),
                first_exact(langs, langid, langs.len()) is None,
                first_primary(langs, langid, j as nat) is None,
            decreases self.names@.len() - j,
        {
            if self.names[j].language & 0x03FF == primary {
                proof {
                    assert(langs[j as int] == self.names@[j as int].language);
                    lemma_first_primary_stable(langs, langid, (j + 1) as nat, langs.len());
                }
                return Some(&self.names[j]);
            }
            j += 1;
        }
        if self.names.len() > 0 {
            Some(&self.names[0])
        } else {
            None
        }
    }

    /// The default character name: US English (`0x0409`) by the rules of [`AcsFile::name`].
    pub fn default_name(&self) -> (r: Option<&Name>)
        ensures
            r is None <==> name_pick(languages(self@.names), 0x0409) is None,
            r matches Some(n) ==> n@ == self@.names[name_pick(languages(self@.names), 0x0409).unwrap()],
    {
        self.name(0x0409)
    }

    /// Number of images in the image table (the RGBA pool when there is one).
    pub fn image_count(&self) -> (n: usize)
        ensures
            n == match self@.rgba_images {
                Some(v) => v.len(),
                None => match self@.images {
                    Some(v) => v.len(),
                    None => 0,
                },
            },
    {
        match &self.rgba_images {
            Some(rgba) => rgba.len(),
            None => match &self.images {
                Some(imgs) => imgs.len(),
                None => 0,
            },
        }
    }

    /// Fetch image `index` from the 8-bpp pool.
    pub fn image(&self, index: usize) -> (r: Result<Image, Error>)
        ensures
            match pick_image(self@, index as int) {
                Ok(iv) => r matches Ok(img) && img@ == iv,
                Err(e) => r == Err::<Image, Error>(e),
            },
    {
        match &self.images {
            Some(imgs) => if index < imgs.len() {
                let img = imgs[index].clone();
                Ok(img)
            } else {
                Err(Error::BadImage { index })
            },
            None => Err(Error::Unsupported(RGBA_ONLY)),
        }
    }

    /// Number of sounds in the sound table.
    pub fn sound_count(&self) -> (n: usize)
        ensures
            n == match self@.sounds {
                Some(v) => v.len(),
                None => 0,
            },
    {
        match &self.sounds {
            Some(s) => s.len(),
            None => 0,
        }
    }

    /// The bytes of sound `index` (a complete standalone WAV file).
    pub fn sound(&self, index: usize) -> (r: Option<&[u8]>)
        ensures
            match self@.sounds {
                Some(v) => if index < v.len() {
                    r matches Some(s) && s@ == v[index as int]
                } else {
                    r is None
                },
                None => r is None,
            },
    {
        match &self.sounds {
            Some(s) => if index < s.len() {
                Some(s[index].as_slice())
            } else {
                None
            },
            None => None,
        }
    }

    /// Find an animation by name, ignoring ASCII case: the first animation whose name
    /// matches. `None` when no name matches (or the name has no animation record).
    pub fn animation(&self, name: &str) -> (r: Option<&Animation>)
        ensures
            match first_named(self@.gesture_names, name@, self@.gesture_names.len()) {
                Some(i) => if i < self@.animations.len() {
                    r matches Some(a) && a@ == self@.animations[i]
                } else {
                    r is None
                },
                None => r is None,
            },
    {
        let ghost names = texts_view(self.gesture_names@);
        let mut i: usize = 0;
        while i < self.gesture_names.len()
            invariant
                0 <= i <= self.gesture_names@.len(),
                names == texts_view(self.gesture_names@),
                first_named(names, name@, i as nat) is None,
            decreases self.gesture_names@.len() - i,
        {
            if str_eq_ignore_case(self.gesture_names[i].as_str(), name) {
                proof {
                    assert(names[i as int] == self.gesture_names@[i as int]@);
                    lemma_first_named_stable(names, name@, (i + 1) as nat, names.len());
                }
                if i < self.animations.len() {
                    return Some(&self.animations[i]);
                } else {
                    return None;
                }
            }
            i += 1;
        }
        None
    }
}


impl AcsFile {
    /// The states, for readers outside this module.
    pub(crate) fn states_list(&self) -> (s: &Vec<State>)
        ensures
            states_view(s@) == self@.states,
    {
        &self.states
    }

    /// The header, for readers outside this module.
    pub(crate) fn file_header(&self) -> (h: &FileHeader)
        ensures
            h@ == self@.header,
    {
        &self.header
    }

    /// The gesture names, for readers outside this module.
    pub(crate) fn gesture_names_list(&self) -> (g: &Vec<String>)
        ensures
            texts_view(g@) == self@.gesture_names,
    {
        &self.gesture_names
    }

    /// The animations, for readers outside this module.
    pub(crate) fn animations_list(&self) -> (a: &Vec<Animation>)
        ensures
            animations_view(a@) == self@.animations,
    {
        &self.animations
    }

    /// The balloon block, for readers outside this module.
    pub(crate) fn balloon_block(&self) -> (b: &Option<Balloon>)
        ensures
            opt_balloon_view(*b) == self@.balloon,
    {
        &self.balloon
    }

    /// Whether every animation's frames add up to a timeline the `u32` centisecond clock
    /// can hold, which sequencing and playing them needs.
    pub fn timelines_fit(&self) -> (r: bool)
        ensures
            r == crate::character::timelines_fit(self@),
    {
        let n = self.animations.len();
        let mut i: usize = 0;
        while i < n
            invariant
                n == self.animations@.len(),
                self@.animations == animations_view(self.animations@),
                0 <= i <= n,
                forall|k: int| 0 <= k < i ==> crate::sequence::timeline_fits(#[trigger] self@.animations[k].frames),
            decreases n - i,
        {
            let frames = &self.animations[i].frames;
            let ghost fv = self@.animations[i as int].frames;
            assert(fv == crate::acs_records::frames_view(frames@));
            let m = frames.len();
            let mut total: u64 = 0;
            let mut j: usize = 0;
            while j < m
                invariant
                    m == frames@.len(),
                    fv == crate::acs_records::frames_view(frames@),
                    fv == self@.animations[i as int].frames,
                    0 <= i < n,
                    n == self.animations@.len(),
                    self@.animations == animations_view(self.animations@),
                    forall|k: int| 0 <= k < i ==> crate::sequence::timeline_fits(#[trigger] self@.animations[k].frames),
                    0 <= j <= m,
                    total == crate::sequence::total_duration(fv, j as nat),
                    total <= u32::MAX,
                decreases m - j,
            {
                total = total + frames[j].duration as u64;
                j += 1;
                if total > u32::MAX as u64 {
                    proof {
                        crate::sequence::lemma_total_duration_grows(fv, j as nat, fv.len());
                        assert(!crate::sequence::timeline_fits(self@.animations[i as int].frames));
                    }
                    return false;
                }
            }
            assert(crate::sequence::timeline_fits(self@.animations[i as int].frames));
            i += 1;
        }
        true
    }

    /// Whether frames of this character can be composited: its RGBA pool (if any) is
    /// well formed and a frame fits in memory.
    pub fn can_composite(&self) -> (r: bool)
        ensures
            r == (pool_wf(self@) && frame_fits(self@)),
    {
        let w = self.header.image_size.0 as u64;
        let h = self.header.image_size.1 as u64;
        assert(w * h <= 0xFFFF * 0xFFFF) by (nonlinear_arith)
            requires
                w <= 0xFFFF,
                h <= 0xFFFF,
        ;
        if w * h * 4 > usize::MAX as u64 {
            return false;
        }
        assert(frame_fits(self@));
        match &self.rgba_images {
            Some(pool) => {
                let mut i: usize = 0;
                while i < pool.len()
                    invariant
                        0 <= i <= pool@.len(),
                        self@.rgba_images == Some(pool@),
                        frame_fits(self@),
                        forall|j: int| 0 <= j < i ==> rgba_wf(#[trigger] pool@[j]),
                    decreases pool@.len() - i,
                {
                    let img = &pool[i];
                    let iw = img.width as u128;
                    let ih = img.height as u128;
                    assert(iw * ih <= 0xFFFF_FFFF * 0xFFFF_FFFF) by (nonlinear_arith)
                        requires
                            iw <= 0xFFFF_FFFF,
                            ih <= 0xFFFF_FFFF,
                    ;
                    if img.pixels.len() as u128 != iw * ih * 4 {
                        assert(!rgba_wf(pool@[i as int]));
                        assert(!pool_wf(self@)) by {
                            let v = self@;
                            assert(v.rgba_images == Some(pool@));
                            assert(v.rgba_images->0[i as int] == pool@[i as int]);
                            assert(!rgba_wf(v.rgba_images->0[i as int]));
                        }
                        return false;
                    }
                    i += 1;
                }
                true
            },
            None => true,
        }
    }
}


/// The error a palette-indexed image request gets on a character built from RGBA art.
pub const RGBA_ONLY: &'static str = "this character's images are RGBA; use composite_frame";

/// Image `index` of the 8-bpp pool, or why there is none.
pub open spec fn pick_image(v: AcsView, index: int) -> Result<ImageView, Error> {
    match v.images {
        Some(imgs) => if 0 <= index < imgs.len() {
            Ok(imgs[index])
        } else {
            Err(Error::BadImage { index: index as usize })
        },
        None => Err(Error::Unsupported(RGBA_ONLY)),
    }
}

/// Canvas pixel `p` (row-major, `cw` wide) after drawing `img` with its top-left at
/// `off`: the image's visual pixel there, unless it lies outside the image, is missing
/// from its bits, or is the transparency index. The image bits are a bottom-up DIB.
pub open spec fn blit_pixel(old: u8, img: ImageView, cw: int, p: int, off: (i16, i16), t: u8) -> u8 {
    let u = p % cw - off.0;
    let v = p / cw - off.1;
    if 0 <= u < img.width && 0 <= v < img.height {
        let at = (img.height - 1 - v) * spec_stride(img.width as int) + u;
        if at < img.bits.len() && img.bits[at] != t {
            img.bits[at]
        } else {
            old
        }
    } else {
        old
    }
}

/// Drawing an image puts its picture upright: the canvas pixel at `(x, y)` takes the
/// image's own visual pixel `(x - off.0, y - off.1)` (as the image reads top-down, its
/// bottom-up rows flipped) where that lies inside the image and is not the transparency
/// index, and keeps what it had everywhere else.
pub proof fn lemma_blit_upright(old: u8, img: ImageView, cw: int, p: int, off: (i16, i16), t: u8)
    requires
        cw > 0,
        p >= 0,
    ensures
        ({
            let u = p % cw - off.0;
            let v = p / cw - off.1;
            let seen = image_index_at(img.bits, img.width as int, img.height as int, u, v, t);
            blit_pixel(old, img, cw, p, off, t) == if 0 <= u < img.width && 0 <= v < img.height
                && seen != t {
                seen
            } else {
                old
            }
        }),
{
}

/// A palette-indexed canvas `cw` wide after drawing `img` at `off`.
pub open spec fn blitted(canvas: Seq<u8>, cw: int, img: ImageView, off: (i16, i16), t: u8) -> Seq<u8> {
    Seq::new(canvas.len(), |p: int| blit_pixel(canvas[p], img, cw, p, off, t))
}

/// The index of the first overlay in `ovs[..n]` of mouth shape `m`.
pub open spec fn first_overlay(ovs: Seq<FrameOverlay>, m: MouthOverlay, n: nat) -> Option<int>
    decreases n,
{
    if n == 0 {
        None
    } else {
        match first_overlay(ovs, m, (n - 1) as nat) {
            Some(i) => Some(i),
            None => if ovs[n - 1].overlay_type == m {
                Some(n - 1)
            } else {
                None
            },
        }
    }
}

/// The overlay a frame draws for `mouth`: its first overlay of that shape.
pub open spec fn frame_overlay(frame: FrameView, mouth: Option<MouthOverlay>) -> Option<FrameOverlay> {
    match mouth {
        None => None,
        Some(m) => match first_overlay(frame.overlays, m, frame.overlays.len()) {
            Some(i) => Some(frame.overlays[i]),
            None => None,
        },
    }
}

/// Draw the base layers `images[..i]` back to front (highest index first), leaving out
/// layer 0 when `skip0`.
pub open spec fn draw_base(
    v: AcsView,
    canvas: Seq<u8>,
    cw: int,
    images: Seq<FrameImage>,
    i: nat,
    skip0: bool,
) -> Result<Seq<u8>, Error>
    decreases i,
{
    if i == 0 || (i == 1 && skip0) {
        Ok(canvas)
    } else {
        let fi = images[i - 1];
        match pick_image(v, fi.image_ndx as int) {
            Err(e) => Err(e),
            Ok(img) => draw_base(
                v,
                blitted(canvas, cw, img, fi.offset, v.header.transparency),
                cw,
                images,
                (i - 1) as nat,
                skip0,
            ),
        }
    }
}

/// A frame composited to palette indices: a canvas the character's size filled with the
/// transparency index, the base images drawn back to front (a replacing mouth overlay
/// suppresses image 0), then the matching mouth overlay on top.
pub open spec fn composite_indexed(v: AcsView, frame: FrameView, mouth: Option<MouthOverlay>) -> Result<
    Seq<u8>,
    Error,
> {
    let w = v.header.image_size.0 as int;
    let h = v.header.image_size.1 as int;
    let t = v.header.transparency;
    let canvas = Seq::new((w * h) as nat, |i: int| t);
    let ov = frame_overlay(frame, mouth);
    let skip0 = ov matches Some(o) && o.replace;
    match draw_base(v, canvas, w, frame.images, frame.images.len(), skip0) {
        Err(e) => Err(e),
        Ok(c) => match ov {
            None => Ok(c),
            Some(o) => match pick_image(v, o.image_ndx as int) {
                Err(e) => Err(e),
                Ok(img) => Ok(blitted(c, w, img, o.offset, t)),
            },
        },
    }
}

/// What layer `img`, drawn with its top-left at `off`, shows at canvas pixel `p`: its own
/// visual pixel there (read top-down), `None` where it lies outside the image or is the
/// transparency index.
pub open spec fn layer_at(img: ImageView, cw: int, p: int, off: (i16, i16), t: u8) -> Option<u8> {
    let u = p % cw - off.0;
    let v = p / cw - off.1;
    let seen = image_index_at(img.bits, img.width as int, img.height as int, u, v, t);
    if 0 <= u < img.width && 0 <= v < img.height && seen != t {
        Some(seen)
    } else {
        None
    }
}

/// The pixel the stack of layers `images[k..n]` shows at `p` over `base`: the first
/// (lowest-numbered, so topmost) layer that shows something there.
pub open spec fn topmost(v: AcsView, images: Seq<FrameImage>, k: int, n: int, cw: int, p: int, base: u8) -> u8
    decreases n - k,
{
    if k >= n {
        base
    } else {
        match pick_image(v, images[k].image_ndx as int) {
            Ok(img) => match layer_at(img, cw, p, images[k].offset, v.header.transparency) {
                Some(x) => x,
                None => topmost(v, images, k + 1, n, cw, p, base),
            },
            Err(_) => topmost(v, images, k + 1, n, cw, p, base),
        }
    }
}

proof fn lemma_topmost_split(v: AcsView, images: Seq<FrameImage>, k: int, m: int, n: int, cw: int, p: int, base: u8)
    requires
        k <= m <= n,
    ensures
        topmost(v, images, k, m, cw, p, topmost(v, images, m, n, cw, p, base)) == topmost(v, images, k, n, cw, p, base),
    decreases m - k,
{
    if k < m {
        lemma_topmost_split(v, images, k + 1, m, n, cw, p, base);
    }
}

proof fn lemma_draw_base_stack(v: AcsView, canvas: Seq<u8>, cw: int, images: Seq<FrameImage>, n: nat)
    requires
        cw > 0,
        n <= images.len(),
        forall|k: int| 0 <= k < n ==> (#[trigger] pick_image(v, images[k].image_ndx as int)) is Ok,
    ensures
        draw_base(v, canvas, cw, images, n, false) is Ok,
        draw_base(v, canvas, cw, images, n, false) matches Ok(c) ==> c.len() == canvas.len() && forall|p: int|
            0 <= p < canvas.len() ==> #[trigger] c[p] == topmost(v, images, 0, n as int, cw, p, canvas[p]),
    decreases n,
{
    if n > 0 {
        let fi = images[n - 1];
        assert(pick_image(v, images[n - 1].image_ndx as int) is Ok);
        let img = pick_image(v, fi.image_ndx as int).get_Ok_0();
        let t = v.header.transparency;
        let c1 = blitted(canvas, cw, img, fi.offset, t);
        lemma_draw_base_stack(v, c1, cw, images, (n - 1) as nat);
        let c = draw_base(v, c1, cw, images, (n - 1) as nat, false).get_Ok_0();
        assert forall|p: int| 0 <= p < canvas.len() implies #[trigger] c[p] == topmost(v, images, 0, n as int, cw, p, canvas[p]) by {
            lemma_blit_upright(canvas[p], img, cw, p, fi.offset, t);
            lemma_topmost_split(v, images, 0, n - 1, n as int, cw, p, canvas[p]);
            assert(topmost(v, images, n as int, n as int, cw, p, canvas[p]) == canvas[p]);
            assert(images[n - 1] == fi);
            assert(c1[p] == blit_pixel(canvas[p], img, cw, p, fi.offset, t));
            assert(c1[p] == topmost(v, images, n - 1, n as int, cw, p, canvas[p]));
        }
    }
}

/// A frame composites as a stack of upright layers: with every layer's image in the
/// file and no mouth, canvas pixel `p` shows the topmost layer (the lowest-numbered) whose
/// own top-down picture has an opaque pixel there, and the transparency index where none
/// has.
pub proof fn lemma_composite_layers(v: AcsView, frame: FrameView)
    requires
        v.header.image_size.0 > 0,
        forall|k: int| 0 <= k < frame.images.len() ==> (#[trigger] pick_image(v, frame.images[k].image_ndx as int)) is Ok,
    ensures
        composite_indexed(v, frame, None) matches Ok(c) && c.len() == v.header.image_size.0 * v.header.image_size.1
            && forall|p: int|
            0 <= p < c.len() ==> #[trigger] c[p] == topmost(
                v,
                frame.images,
                0,
                frame.images.len() as int,
                v.header.image_size.0 as int,
                p,
                v.header.transparency,
            ),
{
    let w = v.header.image_size.0 as int;
    let h = v.header.image_size.1 as int;
    let t = v.header.transparency;
    let canvas = Seq::new((w * h) as nat, |i: int| t);
    assert(0 <= w * h) by (nonlinear_arith)
        requires
            w > 0,
            h >= 0,
    ;
    lemma_draw_base_stack(v, canvas, w, frame.images, frame.images.len());
}

/// Draw one 8-bpp image onto a palette-indexed canvas at `offset` (top-down canvas
/// space), skipping transparent-index pixels and missing source bytes.
fn blit(canvas: &mut Indexed, img: &Image, offset: (i16, i16), t: u8)
    requires
        old(canvas).indices@.len() == old(canvas).width * old(canvas).height,
    ensures
        final(canvas).width == old(canvas).width,
        final(canvas).height == old(canvas).height,
        final(canvas).transparent == old(canvas).transparent,
        final(canvas).indices@ == blitted(old(canvas).indices@, old(canvas).width as int, img@, offset, t),
{
    let ghost orig = canvas.indices@;
    let cw = canvas.width as usize;
    let n = canvas.indices.len();
    let stride = img.stride() as u64;
    let iw = img.width as i64;
    let ih = img.height as i64;
    let mut p: usize = 0;
    while p < n
        invariant
            0 <= p <= n,
            n == orig.len(),
            n == canvas.width * canvas.height,
            cw == canvas.width,
            canvas.width == old(canvas).width,
            canvas.height == old(canvas).height,
            canvas.transparent == old(canvas).transparent,
            orig == old(canvas).indices@,
            stride == spec_stride(img.width as int),
            iw == img.width,
            ih == img.height,
            canvas.indices@.len() == n,
            forall|q: int| 0 <= q < n ==> #[trigger] canvas.indices@[q] == (if q < p {
                blit_pixel(orig[q], img@, cw as int, q, offset, t)
            } else {
                orig[q]
            }),
        decreases n - p,
    {
        proof {
            if cw == 0 {
                assert(n == 0) by (nonlinear_arith) requires n == cw * canvas.height, cw == 0;
            }
            assert(p / cw < canvas.height) by (nonlinear_arith)
                requires
                    p < cw * canvas.height,
                    cw > 0,
            ;
        }
        let cx = p % cw;
        let cy = p / cw;
        let u = cx as i64 - offset.0 as i64;
        let v = cy as i64 - offset.1 as i64;
        if 0 <= u && u < iw && 0 <= v && v < ih {
            assert((ih - 1 - v) * stride <= 65535 * 65536) by (nonlinear_arith)
                requires
                    0 <= ih - 1 - v < 65536,
                    0 <= stride <= 65536,
            ;
            let at = (ih - 1 - v) as u64 * stride + u as u64;
            if at < img.bits.len() as u64 && img.bits[at as usize] != t {
                canvas.indices.set(p, img.bits[at as usize]);
            }
        }
        p += 1;
    }
    assert(canvas.indices@ =~= blitted(orig, cw as int, img@, offset, t));
}

/// Entry `index` of an RGBA pool, or the bad-image error.
pub open spec fn pick_rgba(pool: Seq<Rgba>, index: int) -> Result<Rgba, Error> {
    if 0 <= index < pool.len() {
        Ok(pool[index])
    } else {
        Err(Error::BadImage { index: index as usize })
    }
}

/// Channel `k` of straight-alpha source pixel `s` drawn over destination pixel `d`:
/// nothing for a clear source, a copy for an opaque one, otherwise
/// `out = src + dst * (1 - src_alpha)` in integer arithmetic.
pub open spec fn over_channel(d: Seq<u8>, s: Seq<u8>, k: int) -> u8 {
    let sa = s[3] as int;
    if sa == 0 {
        d[k]
    } else if sa == 255 {
        s[k]
    } else {
        let da = d[3] as int;
        let inv = 255 - sa;
        let out_a = sa + da * inv / 255;
        if k == 3 {
            out_a as u8
        } else {
            let num = s[k] * sa + d[k] * da * inv / 255;
            if out_a == 0 {
                0
            } else {
                (num / out_a) as u8
            }
        }
    }
}

/// Byte `q` of an RGBA canvas `cw` pixels wide after drawing `src` at `off`.
pub open spec fn over_byte(canvas: Seq<u8>, cw: int, src: Rgba, off: (i16, i16), q: int) -> u8 {
    let p = q / 4;
    let k = q % 4;
    let u = p % cw - off.0;
    let v = p / cw - off.1;
    if 0 <= u < src.width && 0 <= v < src.height {
        let s = (v * src.width + u) * 4;
        over_channel(canvas.subrange(4 * p, 4 * p + 4), src.pixels@.subrange(s, s + 4), k)
    } else {
        canvas[q]
    }
}

/// An RGBA canvas `cw` pixels wide after drawing `src` at `off`, source over.
pub open spec fn alpha_blitted(canvas: Seq<u8>, cw: int, src: Rgba, off: (i16, i16)) -> Seq<u8> {
    Seq::new(canvas.len(), |q: int| over_byte(canvas, cw, src, off, q))
}

/// Whether an RGBA image holds exactly its pixels.
pub open spec fn rgba_wf(img: Rgba) -> bool {
    img.pixels@.len() == img.width * img.height * 4
}

/// Source-over composite `src` onto `canvas` at `offset` (straight alpha); pixels outside
/// the canvas are clipped.
fn alpha_over(canvas: &mut Rgba, src: &Rgba, offset: (i16, i16))
    requires
        rgba_wf(*old(canvas)),
        rgba_wf(*src),
    ensures
        final(canvas).width == old(canvas).width,
        final(canvas).height == old(canvas).height,
        final(canvas).pixels@ == alpha_blitted(old(canvas).pixels@, old(canvas).width as int, *src, offset),
{
    let ghost orig = canvas.pixels@;
    let cw = canvas.width as usize;
    let np = canvas.pixels.len() / 4;
    let sw = src.width as u64;
    let sh = src.height as u64;
    let _src_len = src.pixels.len();
    let mut p: usize = 0;
    while p < np
        invariant
            0 <= p <= np,
            np * 4 == orig.len(),
            orig.len() <= usize::MAX,
            np == canvas.width * canvas.height,
            cw == canvas.width,
            canvas.width == old(canvas).width,
            canvas.height == old(canvas).height,
            orig == old(canvas).pixels@,
            sw == src.width,
            sh == src.height,
            rgba_wf(*src),
            src.pixels@.len() <= usize::MAX,
            canvas.pixels@.len() == orig.len(),
            forall|q: int| 0 <= q < orig.len() ==> #[trigger] canvas.pixels@[q] == (if q < 4 * p {
                over_byte(orig, cw as int, *src, offset, q)
            } else {
                orig[q]
            }),
        decreases np - p,
    {
        proof {
            if cw == 0 {
                assert(np == 0) by (nonlinear_arith) requires np == cw * canvas.height, cw == 0;
            }
            assert(p / cw < canvas.height) by (nonlinear_arith)
                requires
                    p < cw * canvas.height,
                    cw > 0,
            ;
        }
        let cx = p % cw;
        let cy = p / cw;
        let u = cx as i64 - offset.0 as i64;
        let v = cy as i64 - offset.1 as i64;
        let d = p * 4;
        if 0 <= u && (u as u64) < sw && 0 <= v && (v as u64) < sh {
            assert(((v as u64) * sw + (u as u64)) * 4 + 4 <= sw * sh * 4) by (nonlinear_arith)
                requires
                    0 <= v < sh,
                    0 <= u < sw,
            ;
            let s = (((v as u64) * sw + (u as u64)) * 4) as usize;
            let sa = src.pixels[s + 3] as u32;
            if sa == 255 {
                let (c0, c1, c2, c3) = (src.pixels[s], src.pixels[s + 1], src.pixels[s + 2], src.pixels[s + 3]);
                canvas.pixels.set(d, c0);
                canvas.pixels.set(d + 1, c1);
                canvas.pixels.set(d + 2, c2);
                canvas.pixels.set(d + 3, c3);
            } else if sa != 0 {
                let da = canvas.pixels[d + 3] as u32;
                let inv = 255 - sa;
                assert(da * inv <= 65025 && 255 * da * inv <= 16581375) by (nonlinear_arith)
                    requires
                        da <= 255,
                        inv <= 255,
                ;
                let out_a = sa + da * inv / 255;
                let (s0, s1, s2) = (src.pixels[s] as u32, src.pixels[s + 1] as u32, src.pixels[s + 2] as u32);
                let (d0, d1, d2) = (canvas.pixels[d] as u32, canvas.pixels[d + 1] as u32, canvas.pixels[d + 2] as u32);
                assert(s0 * sa <= 65025 && s1 * sa <= 65025 && s2 * sa <= 65025) by (nonlinear_arith)
                    requires
                        s0 <= 255,
                        s1 <= 255,
                        s2 <= 255,
                        sa <= 255,
                ;
                assert(d0 * da <= 65025 && d1 * da <= 65025 && d2 * da <= 65025 && d0 * da * inv
                    <= 16581375 && d1 * da * inv <= 16581375 && d2 * da * inv <= 16581375)
                    by (nonlinear_arith)
                    requires
                        d0 <= 255,
                        d1 <= 255,
                        d2 <= 255,
                        da <= 255,
                        inv <= 255,
                ;
                let n0 = s0 * sa + d0 * da * inv / 255;
                let n1 = s1 * sa + d1 * da * inv / 255;
                let n2 = s2 * sa + d2 * da * inv / 255;
                let c0 = if out_a == 0 { 0 } else { (n0 / out_a) as u8 };
                let c1 = if out_a == 0 { 0 } else { (n1 / out_a) as u8 };
                let c2 = if out_a == 0 { 0 } else { (n2 / out_a) as u8 };
                canvas.pixels.set(d, c0);
                canvas.pixels.set(d + 1, c1);
                canvas.pixels.set(d + 2, c2);
                canvas.pixels.set(d + 3, out_a as u8);
            }
        }
        p += 1;
    }
    assert(canvas.pixels@ =~= alpha_blitted(orig, cw as int, *src, offset));
}

/// Draw the RGBA base layers `images[..i]` back to front, leaving out layer 0 when
/// `skip0`.
pub open spec fn draw_rgba_base(
    pool: Seq<Rgba>,
    canvas: Seq<u8>,
    cw: int,
    images: Seq<FrameImage>,
    i: nat,
    skip0: bool,
) -> Result<Seq<u8>, Error>
    decreases i,
{
    if i == 0 || (i == 1 && skip0) {
        Ok(canvas)
    } else {
        let fi = images[i - 1];
        match pick_rgba(pool, fi.image_ndx as int) {
            Err(e) => Err(e),
            Ok(src) => draw_rgba_base(
                pool,
                alpha_blitted(canvas, cw, src, fi.offset),
                cw,
                images,
                (i - 1) as nat,
                skip0,
            ),
        }
    }
}

/// A frame composited from an RGBA pool: a clear canvas the character's size, the base
/// images blended back to front (a replacing mouth overlay suppresses image 0), then the
/// matching mouth overlay on top.
pub open spec fn composite_rgba(
    v: AcsView,
    frame: FrameView,
    mouth: Option<MouthOverlay>,
    pool: Seq<Rgba>,
) -> Result<Seq<u8>, Error> {
    let w = v.header.image_size.0 as int;
    let h = v.header.image_size.1 as int;
    let canvas = Seq::new((w * h * 4) as nat, |i: int| 0u8);
    let ov = frame_overlay(frame, mouth);
    let skip0 = ov matches Some(o) && o.replace;
    match draw_rgba_base(pool, canvas, w, frame.images, frame.images.len(), skip0) {
        Err(e) => Err(e),
        Ok(c) => match ov {
            None => Ok(c),
            Some(o) => match pick_rgba(pool, o.image_ndx as int) {
                Err(e) => Err(e),
                Ok(src) => Ok(alpha_blitted(c, w, src, o.offset)),
            },
        },
    }
}

/// Whether a frame of the character's size fits in memory as RGBA.
pub open spec fn frame_fits(v: AcsView) -> bool {
    v.header.image_size.0 * v.header.image_size.1 * 4 <= usize::MAX
}

/// Whether every image of a character's RGBA pool holds exactly its pixels.
pub open spec fn pool_wf(v: AcsView) -> bool {
    v.rgba_images matches Some(pool) ==> forall|i: int| 0 <= i < pool.len() ==> rgba_wf(#[trigger] pool[i])
}

/// The overlay `frame` draws for `mouth`.
fn find_overlay(frame: &Frame, mouth: Option<MouthOverlay>) -> (r: Option<FrameOverlay>)
    ensures
        r == frame_overlay(frame@, mouth),
{
    let m = match mouth {
        Some(m) => m,
        None => return None,
    };
    let mut i: usize = 0;
    while i < frame.overlays.len()
        invariant
            0 <= i <= frame.overlays@.len(),
            mouth == Some(m),
            first_overlay(frame.overlays@, m, i as nat) is None,
        decreases frame.overlays@.len() - i,
    {
        if frame.overlays[i].overlay_type == m {
            assert(first_overlay(frame.overlays@, m, (i + 1) as nat) == Some(i as int));
            proof {
                lemma_first_overlay_stable(frame.overlays@, m, (i + 1) as nat, frame.overlays@.len());
            }
            return Some(frame.overlays[i]);
        }
        i += 1;
    }
    None
}

proof fn lemma_first_overlay_stable(ovs: Seq<FrameOverlay>, m: MouthOverlay, i: nat, n: nat)
    requires
        first_overlay(ovs, m, i) is Some,
        i <= n,
    ensures
        first_overlay(ovs, m, n) == first_overlay(ovs, m, i),
    decreases n - i,
{
    if i < n {
        lemma_first_overlay_stable(ovs, m, i, (n - 1) as nat);
    }
}


/// Whether frame `f` of character `v` composites (with mouth overlay `mouth`).
pub open spec fn composite_ok(v: AcsView, f: FrameView, mouth: Option<MouthOverlay>) -> bool {
    match v.rgba_images {
        Some(pool) => composite_rgba(v, f, mouth, pool) is Ok,
        None => composite_indexed(v, f, mouth) is Ok,
    }
}

/// Whether `img` is frame `f` of character `v` composited (with mouth overlay `mouth`):
/// the frame size, and the pixels of the RGBA-pool blend or of the palette-indexed frame
/// mapped through the palette.
pub open spec fn composited(v: AcsView, f: FrameView, mouth: Option<MouthOverlay>, img: Rgba) -> bool {
    &&& img.width == v.header.image_size.0
    &&& img.height == v.header.image_size.1
    &&& match v.rgba_images {
        Some(pool) => match composite_rgba(v, f, mouth, pool) {
            Ok(px) => img.pixels@ == px,
            Err(_) => false,
        },
        None => match composite_indexed(v, f, mouth) {
            Ok(ix) => img.pixels@.len() == 4 * ix.len() && (forall|p: int, k: int|
                0 <= p < ix.len() && 0 <= k < 4 ==> img.pixels@[4 * p + k]
                    == #[trigger] indexed_channel(v.header.palette, v.header.transparency, ix[p], k)),
            Err(_) => false,
        },
    }
}

impl AcsFile {
    /// Composite one frame into a top-down palette-indexed image the size of the
    /// character: the canvas starts as the transparency index, the frame's base images are
    /// drawn back to front (the highest index is the bottom layer), a replacing mouth
    /// overlay suppresses base image 0, and the matching mouth overlay goes on top.
    /// Transparent source pixels let lower layers show through.
    pub fn composite_frame_indexed(&self, frame: &Frame, mouth: Option<MouthOverlay>) -> (r: Result<
        Indexed,
        Error,
    >)
        ensures
            match composite_indexed(self@, frame@, mouth) {
                Ok(px) => r matches Ok(c) && c.width == self@.header.image_size.0 && c.height
                    == self@.header.image_size.1 && c.transparent == self@.header.transparency
                    && c.indices@ == px,
                Err(e) => r == Err::<Indexed, Error>(e),
            },
            r matches Ok(c) ==> c.indices@.len() == c.width * c.height && c.width <= 0xFFFF && c.height
                <= 0xFFFF,
    {
        let w = self.header.image_size.0;
        let h = self.header.image_size.1;
        let t = self.header.transparency;
        assert((w as u32) * (h as u32) <= 0xFFFF_FFFF) by (nonlinear_arith)
            requires
                w <= 0xFFFF,
                h <= 0xFFFF,
        ;
        let mut canvas = Indexed::filled(w as u32, h as u32, t);
        let overlay = find_overlay(frame, mouth);
        let replace_base = match overlay {
            Some(o) => o.replace,
            None => false,
        };
        let ghost start = canvas.indices@;
        let ghost v = self@;
        assert(start == Seq::new((w as int * h as int) as nat, |k: int| t));
        assert(replace_base == (frame_overlay(frame@, mouth) matches Some(o) && o.replace));
        let mut i = frame.images.len();
        while i > 0 && !(i == 1 && replace_base)
            invariant
                i <= frame.images@.len(),
                v == self@,
                t == v.header.transparency,
                canvas.width == w,
                canvas.height == h,
                canvas.transparent == t,
                canvas.indices@.len() == canvas.width * canvas.height,
                w == v.header.image_size.0,
                h == v.header.image_size.1,
                start == Seq::new((w as int * h as int) as nat, |k: int| t),
                overlay == frame_overlay(frame@, mouth),
                replace_base == (frame_overlay(frame@, mouth) matches Some(o) && o.replace),
                draw_base(v, start, w as int, frame@.images, frame@.images.len(), replace_base)
                    == draw_base(v, canvas.indices@, w as int, frame@.images, i as nat, replace_base),
            decreases i,
        {
            let fi = frame.images[i - 1];
            let img = match self.image(fi.image_ndx as usize) {
                Ok(img) => img,
                Err(e) => return Err(e),
            };
            blit(&mut canvas, &img, fi.offset, t);
            i -= 1;
        }
        match overlay {
            None => Ok(canvas),
            Some(o) => {
                let img = match self.image(o.image_ndx as usize) {
                    Ok(img) => img,
                    Err(e) => return Err(e),
                };
                blit(&mut canvas, &img, o.offset, t);
                Ok(canvas)
            },
        }
    }

    /// RGBA compositing: the layering of [`AcsFile::composite_frame_indexed`], blended
    /// source over on true RGBA; image indices name entries of `pool`.
    fn composite_frame_rgba(&self, frame: &Frame, mouth: Option<MouthOverlay>, pool: &Vec<Rgba>) -> (r: Result<
        Rgba,
        Error,
    >)
        requires
            forall|i: int| 0 <= i < pool@.len() ==> rgba_wf(#[trigger] pool@[i]),
            frame_fits(self@),
        ensures
            match composite_rgba(self@, frame@, mouth, pool@) {
                Ok(px) => r matches Ok(c) && c.width == self@.header.image_size.0 && c.height
                    == self@.header.image_size.1 && c.pixels@ == px,
                Err(e) => r == Err::<Rgba, Error>(e),
            },
    {
        let w = self.header.image_size.0;
        let h = self.header.image_size.1;
        let mut canvas = Rgba::transparent(w as u32, h as u32);
        let overlay = find_overlay(frame, mouth);
        let replace_base = match overlay {
            Some(o) => o.replace,
            None => false,
        };
        let ghost start = canvas.pixels@;
        assert(start == Seq::new((w as int * h as int * 4) as nat, |k: int| 0u8));
        assert(replace_base == (frame_overlay(frame@, mouth) matches Some(o) && o.replace));
        let mut i = frame.images.len();
        while i > 0 && !(i == 1 && replace_base)
            invariant
                i <= frame.images@.len(),
                forall|k: int| 0 <= k < pool@.len() ==> rgba_wf(#[trigger] pool@[k]),
                canvas.width == w,
                canvas.height == h,
                rgba_wf(canvas),
                w == self@.header.image_size.0,
                h == self@.header.image_size.1,
                start == Seq::new((w as int * h as int * 4) as nat, |k: int| 0u8),
                overlay == frame_overlay(frame@, mouth),
                replace_base == (frame_overlay(frame@, mouth) matches Some(o) && o.replace),
                draw_rgba_base(pool@, start, w as int, frame@.images, frame@.images.len(), replace_base)
                    == draw_rgba_base(pool@, canvas.pixels@, w as int, frame@.images, i as nat, replace_base),
            decreases i,
        {
            let fi = frame.images[i - 1];
            let ndx = fi.image_ndx as usize;
            if ndx >= pool.len() {
                return Err(Error::BadImage { index: ndx });
            }
            alpha_over(&mut canvas, &pool[ndx], fi.offset);
            i -= 1;
        }
        match overlay {
            None => Ok(canvas),
            Some(o) => {
                let ndx = o.image_ndx as usize;
                if ndx >= pool.len() {
                    return Err(Error::BadImage { index: ndx });
                }
                alpha_over(&mut canvas, &pool[ndx], o.offset);
                Ok(canvas)
            },
        }
    }

    /// Composite one frame to top-down RGBA. A character built from an RGBA pool blends
    /// that pool directly; otherwise the frame goes through the palette-indexed path and
    /// each index maps through the palette (the transparency index to a clear pixel).
    pub fn composite_frame(&self, frame: &Frame, mouth: Option<MouthOverlay>) -> (r: Result<Rgba, Error>)
        requires
            pool_wf(self@),
            frame_fits(self@),
        ensures
            match self@.rgba_images {
                Some(pool) => match composite_rgba(self@, frame@, mouth, pool) {
                    Ok(px) => r matches Ok(c) && c.width == self@.header.image_size.0 && c.height
                        == self@.header.image_size.1 && c.pixels@ == px,
                    Err(e) => r == Err::<Rgba, Error>(e),
                },
                None => match composite_indexed(self@, frame@, mouth) {
                    Ok(ix) => r matches Ok(c) && c.width == self@.header.image_size.0 && c.height
                        == self@.header.image_size.1 && c.pixels@.len() == 4 * ix.len() && (forall|p: int, k: int|
                        0 <= p < ix.len() && 0 <= k < 4 ==> c.pixels@[4 * p + k]
                            == #[trigger] indexed_channel(self@.header.palette, self@.header.transparency, ix[p], k)),
                    Err(e) => r == Err::<Rgba, Error>(e),
                },
            },
    {
        match &self.rgba_images {
            Some(pool) => self.composite_frame_rgba(frame, mouth, pool),
            None => {
                let ix = match self.composite_frame_indexed(frame, mouth) {
                    Ok(ix) => ix,
                    Err(e) => return Err(e),
                };
                assert(ix.indices@.len() * 4 <= usize::MAX);
                Ok(ix.to_rgba(self.header.palette.as_slice()))
            },
        }
    }
}

} // verus!
