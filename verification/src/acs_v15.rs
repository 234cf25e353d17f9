//! ACS 1.5 characters: an OLE2 compound document (Structured Storage) rather than the
//! flat blob of ACS 2.0. The root storage holds a compressed character definition in
//! `char.acf` plus one stream per animation.

use crate::acs::{images_view, sounds_view, texts_view, AcsFile, AcsView, ImageView};
use crate::acs_records::{animations_view, frames_view, read_branches, spec_branch, AnimationView, FrameView};
use crate::acs::{check_header_version, opt_balloon_view, opt_tts_view, spec_opt_balloon, version_ok, HeaderView};
use crate::blocks::{
    names_view, palette, read_balloon, read_states, spec_palette, spec_states, states_view,
    BalloonView, NameView, StateView, TtsView,
};
use crate::decode::{decode_data, decode_run};
use crate::error::Error;
use crate::model::{
    spec_mouth, spec_stride, Animation, ReturnKind, Balloon, Branch, Color, FileHeader, Frame, FrameImage, FrameOverlay, Guid, Image,
    MouthOverlay, Name, State, Tts, STYLE_BALLOON, STYLE_TTS,
};
use crate::reader::{
    is_eof, lemma_list_fail, lemma_offset_nonneg, sp_bytes, sp_text, sp_u16, sp_u32, sp_u8, spec_list, Cursor,
    StringForm,
};
use crate::textutil::{first_letter_caps, spec_first_letter_caps};
use vstd::prelude::*;

verus! {

broadcast use lemma_offset_nonneg;

/// Signature DWORD at the head of the compressed `char.acf` definition stream.
pub const ACS_V15_HEADER_SIGNATURE: u32 = 0xABCD_ABC1;

/// From this version up, an animation entry carries an id and its stream leads with a
/// version and that id.
pub const VERSION_WITH_ANIM_IDS: u32 = 0x0001_001D;

/// Above this version, the balloon block carries a second style byte.
pub const VERSION_WITH_BALLOON_STYLE: u32 = 0x0001_001E;

/// The bytes of stream `name` of the compound document `container`, or `None` when the
/// container is not a readable compound document, has no such stream, or the stream
/// cannot be read to its end.
pub uninterp spec fn compound_stream(container: Seq<u8>, name: Seq<char>) -> Option<Seq<u8>>;

/// Read a whole stream out of a compound document by name: `cfb::CompoundFile::open` on
/// the bytes, `CompoundFile::open_stream`, then `Read::read_to_end` on the stream.
///
/// Trusted: a successful read gives [`compound_stream`] of the arguments and a failure
/// means there is none; the failure is reported as invalid data (opening the container
/// or the stream, with `cfb`'s message) or as the I/O error of the read. The wording of
/// the messages is not stated.
#[verifier::external_body]
pub(crate) fn read_stream(container: &[u8], name: &str) -> (r: Result<Vec<u8>, Error>)
    ensures
        r matches Ok(v) ==> compound_stream(container@, name@) == Some(v@),
        r is Err ==> compound_stream(container@, name@) is None,
        r matches Err(e) ==> e is InvalidData || e is Io,
{
    let mut ole = match cfb::CompoundFile::open(std::io::Cursor::new(container)) {
        Ok(ole) => ole,
        Err(e) => return Err(Error::InvalidData(format!("not a readable compound document: {e}"))),
    };
    let mut stream = match ole.open_stream(name) {
        Ok(s) => s,
        Err(e) => return Err(Error::InvalidData(format!("no {name:?} stream: {e}"))),
    };
    let mut bytes = Vec::new();
    match std::io::Read::read_to_end(&mut stream, &mut bytes) {
        Ok(_) => Ok(bytes),
        Err(e) => Err(Error::Io(e)),
    }
}

/// The `{signature, inflated size, packed size, payload}` envelope of `char.acf`: the
/// payload's decompression, which yields only an empty definition; `None` when it is cut
/// short or does not decompress.
pub open spec fn spec_inflate_stream(b: Seq<u8>) -> Option<Seq<u8>> {
    match sp_u32(b, 4) {
        None => None,
        Some((inflated, p1)) => match sp_u32(b, p1) {
            None => None,
            Some((packed, p2)) => match sp_bytes(b, p2, packed as int) {
                None => None,
                Some((_payload, _p3)) => if inflated == 0 {
                    Some(Seq::empty())
                } else {
                    None
                },
            },
        },
    }
}

/// Unwrap the `char.acf` envelope: signature, the two sizes, then the compressed payload.
pub fn inflate_stream(stream: &[u8]) -> (r: Result<Vec<u8>, Error>)
    ensures
        stream@.len() < 4 ==> (r matches Err(e) && is_eof(e)),
        stream@.len() >= 4 && sp_u32(stream@, 0).unwrap().0 != ACS_V15_HEADER_SIGNATURE ==> r
            == Err::<Vec<u8>, Error>(Error::BadSignature { found: sp_u32(stream@, 0).unwrap().0 }),
        stream@.len() >= 4 && sp_u32(stream@, 0).unwrap().0 == ACS_V15_HEADER_SIGNATURE ==> {
            &&& (r is Ok <==> spec_inflate_stream(stream@) is Some)
            &&& r matches Ok(v) ==> v@ == spec_inflate_stream(stream@).unwrap()
            &&& r matches Err(e) ==> is_eof(e) || e is DecodeFailed
        },
{
    let mut c = Cursor::new(stream);
    let signature = c.u32()?;
    if signature != ACS_V15_HEADER_SIGNATURE {
        return Err(Error::BadSignature { found: signature });
    }
    let inflated_len = c.u32()? as usize;
    let packed_len = c.u32()? as usize;
    decode_data(c.bytes(packed_len)?, inflated_len)
}

/// One animation as the character definition names it.
pub struct AnimationRef {
    pub name: String,
    /// The compound-document stream holding its frames and art.
    pub stream: String,
    /// The animation that returns from it to the rest pose (empty for none).
    pub return_name: String,
}

/// An animation entry as plain values.
pub struct AnimationRefView {
    pub name: Seq<char>,
    pub stream: Seq<char>,
    pub return_name: Seq<char>,
}

impl View for AnimationRef {
    type V = AnimationRefView;

    open spec fn view(&self) -> AnimationRefView {
        AnimationRefView { name: self.name@, stream: self.stream@, return_name: self.return_name@ }
    }
}

/// The views of a list of animation entries.
pub open spec fn refs_view(v: Seq<AnimationRef>) -> Seq<AnimationRefView> {
    Seq::new(v.len(), |i: int| v[i]@)
}

/// One animation entry at `at`: name, stream and return animation (UTF-16, no
/// terminator), then a four-byte id when the version carries one.
pub open spec fn spec_ref(b: Seq<u8>, at: int, with_id: bool) -> Option<(AnimationRefView, int)> {
    match sp_text(b, at, StringForm::Utf16) {
        None => None,
        Some((name, p1)) => match sp_text(b, p1, StringForm::Utf16) {
            None => None,
            Some((stream, p2)) => match sp_text(b, p2, StringForm::Utf16) {
                None => None,
                Some((return_name, p3)) => {
                    let v = AnimationRefView { name, stream, return_name };
                    if with_id {
                        match sp_bytes(b, p3, 4) {
                            None => None,
                            Some((_id, p4)) => Some((v, p4)),
                        }
                    } else {
                        Some((v, p3))
                    }
                },
            },
        },
    }
}

fn read_ref(c: &mut Cursor, with_id: bool) -> (r: Result<AnimationRef, Error>)
    ensures
        final(c).data() == old(c).data(),
        r is Ok <==> spec_ref(old(c).data(), old(c).offset(), with_id) is Some,
        r matches Ok(a) ==> spec_ref(old(c).data(), old(c).offset(), with_id) == Some((a@, final(c).offset())),
        r matches Err(e) ==> is_eof(e),
{
    let name = c.text(StringForm::Utf16)?;
    let stream = c.text(StringForm::Utf16)?;
    let return_name = c.text(StringForm::Utf16)?;
    if with_id {
        c.skip(4)?;
    }
    Ok(AnimationRef { name, stream, return_name })
}

#[verifier::loop_isolation(false)]
fn read_refs(c: &mut Cursor, count: u16, with_id: bool) -> (r: Result<Vec<AnimationRef>, Error>)
    ensures
        final(c).data() == old(c).data(),
        r is Ok <==> spec_list(old(c).data(), old(c).offset(), count as nat, |b: Seq<u8>, at: int| spec_ref(b, at, with_id)) is Some,
        r matches Ok(v) ==> spec_list(old(c).data(), old(c).offset(), count as nat, |b: Seq<u8>, at: int| spec_ref(b, at, with_id))
            == Some((refs_view(v@), final(c).offset())),
        r matches Err(e) ==> is_eof(e),
{
    let ghost b = c.data();
    let ghost start = c.offset();
    let ghost item = |b: Seq<u8>, at: int| spec_ref(b, at, with_id);
    let mut out: Vec<AnimationRef> = Vec::new();
    let mut i: u16 = 0;
    assert(refs_view(out@) =~= Seq::<AnimationRefView>::empty());
    while i < count
        invariant
            c.data() == b,
            0 <= i <= count,
            spec_list(b, start, i as nat, item) is Some,
            c.offset() == spec_list(b, start, i as nat, item).unwrap().1,
            refs_view(out@) == spec_list(b, start, i as nat, item).unwrap().0,
        decreases count - i,
    {
        match read_ref(c, with_id) {
            Ok(x) => out.push(x),
            Err(e) => {
                proof {
                    assert(spec_list(b, start, (i + 1) as nat, item) is None);
                    lemma_list_fail(b, start, (i + 1) as nat, count as nat, item);
                }
                return Err(e);
            },
        }
        i += 1;
        assert(refs_view(out@) =~= spec_list(b, start, i as nat, item).unwrap().0);
    }
    Ok(out)
}

/// The voice block of a 1.5 definition at `at`: the two SAPI ids, speed and pitch, without
/// the language and display-name tail later versions added.
pub open spec fn spec_v15_tts(b: Seq<u8>, at: int) -> Option<(TtsView, int)> {
    match sp_bytes(b, at, 16) {
        None => None,
        Some((engine, p1)) => match sp_bytes(b, p1, 16) {
            None => None,
            Some((mode, p2)) => match sp_u32(b, p2) {
                None => None,
                Some((speed, p3)) => match sp_u16(b, p3) {
                    None => None,
                    Some((pitch, p4)) => Some(
                        (
                            TtsView {
                                engine,
                                mode,
                                speed: speed as i32,
                                pitch: pitch as i16,
                                language: None,
                                gender: 0,
                                age: 0,
                                style: Seq::empty(),
                            },
                            p4,
                        ),
                    ),
                },
            },
        },
    }
}

/// Read the 1.5 voice block.
pub fn read_v15_tts(c: &mut Cursor) -> (r: Result<Tts, Error>)
    ensures
        final(c).data() == old(c).data(),
        r is Ok <==> spec_v15_tts(old(c).data(), old(c).offset()) is Some,
        r matches Ok(t) ==> spec_v15_tts(old(c).data(), old(c).offset()) == Some((t@, final(c).offset())),
        r matches Err(e) ==> is_eof(e),
{
    let engine = c.guid()?;
    let mode = c.guid()?;
    let speed = c.i32()?;
    let pitch = c.u16()? as i16;
    Ok(
        Tts {
            engine,
            mode,
            speed,
            pitch,
            language: None,
            gender: 0,
            age: 0,
            style: String::new(),
        },
    )
}

/// A decompressed character definition as plain values.
pub struct DefinitionView {
    pub version: u32,
    pub consumed: int,
    pub header: HeaderView,
    pub tts: Option<TtsView>,
    pub balloon: Option<BalloonView>,
    pub names: Seq<NameView>,
    pub states: Seq<StateView>,
    pub animations: Seq<AnimationRefView>,
}

/// The decompressed `char.acf` definition.
pub struct Definition {
    pub version: u32,
    /// How much of the definition the reading consumed; a correct reading lands on its end.
    pub consumed: usize,
    pub header: FileHeader,
    pub tts: Option<Tts>,
    pub balloon: Option<Balloon>,
    pub names: Vec<Name>,
    pub states: Vec<State>,
    pub animations: Vec<AnimationRef>,
}

impl View for Definition {
    type V = DefinitionView;

    open spec fn view(&self) -> DefinitionView {
        DefinitionView {
            version: self.version,
            consumed: self.consumed as int,
            header: self.header@,
            tts: opt_tts_view(self.tts),
            balloon: opt_balloon_view(self.balloon),
            names: names_view(self.names@),
            states: states_view(self.states@),
            animations: refs_view(self.animations@),
        }
    }
}

/// The blocks after the style word: the voice and balloon blocks the style announces, the
/// palette and the states.
pub open spec fn spec_def_tail(b: Seq<u8>, at: int, style: u32, form: StringForm, version: u32) -> Option<
    (Option<TtsView>, Option<BalloonView>, Seq<Color>, Seq<StateView>, int),
> {
    match (if style & STYLE_TTS != 0 {
        match spec_v15_tts(b, at) {
            None => None,
            Some((t, p)) => Some((Some(t), p)),
        }
    } else {
        Some((None, at))
    }) {
        None => None,
        Some((tts, p1)) => match spec_opt_balloon(b, p1, style, form, version > VERSION_WITH_BALLOON_STYLE) {
            None => None,
            Some((balloon, p2)) => match spec_palette(b, p2) {
                None => None,
                Some((pal, p3)) => match spec_states(b, p3, StringForm::Utf16) {
                    None => None,
                    Some((states, p4)) => Some((tts, balloon, pal, states, p4)),
                },
            },
        },
    }
}

/// The definition's identity after the animation list: GUID, name (first letter
/// capitalized) and two descriptions spelled as `form`, frame size, transparency and style.
pub open spec fn spec_identity(b: Seq<u8>, at: int, form: StringForm) -> Option<
    (Seq<u8>, Seq<char>, Seq<char>, Seq<char>, (u16, u16), u8, u32, int),
> {
    match sp_bytes(b, at, 16) {
        None => None,
        Some((guid, p1)) => match sp_text(b, p1, form) {
            None => None,
            Some((name, p2)) => match sp_text(b, p2, form) {
                None => None,
                Some((desc1, p3)) => match sp_text(b, p3, form) {
                    None => None,
                    Some((desc2, p4)) => match sp_u16(b, p4) {
                        None => None,
                        Some((w, p5)) => match sp_u16(b, p5) {
                            None => None,
                            Some((h, p6)) => match sp_u8(b, p6) {
                                None => None,
                                Some((t, p7)) => match sp_u32(b, p7) {
                                    None => None,
                                    Some((style, p8)) => Some(
                                        (guid, spec_first_letter_caps(name), desc1, desc2, (w, h), t, style, p8),
                                    ),
                                },
                            },
                        },
                    },
                },
            },
        },
    }
}

/// A definition read with `form` as the spelling of its name and descriptions: version,
/// the animation list, the identity, then the voice, balloon, palette and states. `None`
/// when it is cut short or its version is unknown.
pub open spec fn spec_definition(b: Seq<u8>, form: StringForm) -> Option<DefinitionView> {
    match sp_u32(b, 0) {
        None => None,
        Some((version, p1)) => if !version_ok(version) {
            None
        } else {
            match sp_u16(b, p1) {
                None => None,
                Some((count, p2)) => match spec_list(
                    b,
                    p2,
                    count as nat,
                    |b: Seq<u8>, at: int| spec_ref(b, at, version > VERSION_WITH_ANIM_IDS),
                ) {
                    None => None,
                    Some((animations, p3)) => match spec_identity(b, p3, form) {
                        None => None,
                        Some((guid, name, desc1, desc2, size, t, style, p4)) => match spec_def_tail(
                            b,
                            p4,
                            style,
                            form,
                            version,
                        ) {
                            None => None,
                            Some((tts, balloon, pal, states, p5)) => Some(
                                DefinitionView {
                                    version,
                                    consumed: p5,
                                    header: HeaderView {
                                        version_major: (version / 65536) as u16,
                                        version_minor: (version % 65536) as u16,
                                        guid,
                                        image_size: size,
                                        transparency: t,
                                        style,
                                        palette: pal,
                                    },
                                    tts,
                                    balloon,
                                    names: seq![NameView { language: 0, name, desc1, desc2 }],
                                    states,
                                    animations,
                                },
                            ),
                        },
                    },
                },
            }
        },
    }
}

/// What reading definition `b` as `form` gives: the parsed definition, an invalid-data
/// error for an unknown version, otherwise a read past the end.
pub open spec fn definition_read(b: Seq<u8>, form: StringForm, r: Result<Definition, Error>) -> bool {
    &&& (r is Ok <==> spec_definition(b, form) is Some)
    &&& r matches Ok(d) ==> d@ == spec_definition(b, form).unwrap()
    &&& r matches Err(e) ==> (if sp_u32(b, 0) matches Some((v, _p)) && !version_ok(v) {
        e is InvalidData
    } else {
        is_eof(e)
    })
}

#[verifier::rlimit(40)]
fn read_identity(c: &mut Cursor, form: StringForm) -> (r: Result<(Guid, String, String, String, u16, u16, u8, u32), Error>)
    ensures
        final(c).data() == old(c).data(),
        r is Ok <==> spec_identity(old(c).data(), old(c).offset(), form) is Some,
        r matches Ok(t) ==> spec_identity(old(c).data(), old(c).offset(), form) == Some(
            (t.0.0@, t.1@, t.2@, t.3@, (t.4, t.5), t.6, t.7, final(c).offset()),
        ),
        r matches Err(e) ==> is_eof(e),
{
    let guid = c.guid()?;
    let name = first_letter_caps(c.text(form)?);
    let desc1 = c.text(form)?;
    let desc2 = c.text(form)?;
    let width = c.u16()?;
    let height = c.u16()?;
    let transparency = c.u8()?;
    let style = c.u32()?;
    Ok((guid, name, desc1, desc2, width, height, transparency, style))
}

#[verifier::rlimit(40)]
fn read_def_tail(c: &mut Cursor, style: u32, form: StringForm, version: u32) -> (r: Result<
    (Option<Tts>, Option<Balloon>, Vec<Color>, Vec<State>),
    Error,
>)
    ensures
        final(c).data() == old(c).data(),
        r is Ok <==> spec_def_tail(old(c).data(), old(c).offset(), style, form, version) is Some,
        r matches Ok(t) ==> spec_def_tail(old(c).data(), old(c).offset(), style, form, version) == Some(
            (opt_tts_view(t.0), opt_balloon_view(t.1), t.2@, states_view(t.3@), final(c).offset()),
        ),
        r matches Err(e) ==> is_eof(e),
{
    let tts = if style & STYLE_TTS != 0 {
        Some(read_v15_tts(c)?)
    } else {
        None
    };
    let balloon = if style & STYLE_BALLOON != 0 {
        Some(read_balloon(c, form, version > VERSION_WITH_BALLOON_STYLE)?)
    } else {
        None
    };
    let pal = palette(c)?;
    let states = read_states(c, StringForm::Utf16)?;
    Ok((tts, balloon, pal, states))
}

/// Read the definition with `identity` as the spelling of its name and description
/// strings. Its blocks are the familiar ones, but the animation list comes first and the
/// name and description are single strings rather than a per-locale table: they become
/// the one locale-neutral name.
#[verifier::rlimit(60)]
pub fn read_definition_as(payload: &[u8], identity: StringForm) -> (r: Result<Definition, Error>)
    ensures
        definition_read(payload@, identity, r),
{
    let mut c = Cursor::new(payload);
    let version = c.u32()?;
    check_header_version(version)?;
    let version_major = (version >> 16) as u16;
    let version_minor = version as u16;
    assert(version_major == version / 65536 && version_minor == version % 65536) by (bit_vector)
        requires
            version_major == (version >> 16) as u16,
            version_minor == version as u16,
    ;
    let anim_count = c.u16()?;
    let animations = read_refs(&mut c, anim_count, version > VERSION_WITH_ANIM_IDS)?;
    let (guid, name, desc1, desc2, width, height, transparency, style) = read_identity(&mut c, identity)?;
    let (tts, balloon, pal, states) = read_def_tail(&mut c, style, identity, version)?;
    let consumed = c.pos();
    let names = vec![Name { language: 0, name, desc1, desc2 }];
    let d = Definition {
        version,
        consumed,
        header: FileHeader {
            version_major,
            version_minor,
            guid,
            image_size: (width, height),
            transparency,
            style,
            palette: pal,
        },
        tts,
        balloon,
        names,
        states,
        animations,
    };
    assert(d@.names =~= spec_definition(payload@, identity).unwrap().names);
    Ok(d)
}

/// Whether definition `d` was read to the end of `b`.
pub open spec fn consumes_all(d: Option<DefinitionView>, b: Seq<u8>) -> bool {
    d matches Some(v) && v.consumed == b.len()
}

/// Read the decompressed character definition, trying both spellings of its identity
/// strings.
///
/// The character's name and description are ANSI in Microsoft's own 1.5 characters and
/// UTF-16 in some third-party ones, with nothing in the header to say which. Both are read;
/// the reading that consumes the definition exactly settles it (ANSI first). When neither
/// does, the ANSI reading stands, whether it succeeded or failed.
pub fn read_definition(payload: &[u8]) -> (r: Result<Definition, Error>)
    ensures
        consumes_all(spec_definition(payload@, StringForm::Ansi), payload@) ==> (r matches Ok(d)
            && d@ == spec_definition(payload@, StringForm::Ansi).unwrap()),
        !consumes_all(spec_definition(payload@, StringForm::Ansi), payload@) && consumes_all(
            spec_definition(payload@, StringForm::Utf16),
            payload@,
        ) ==> (r matches Ok(d) && d@ == spec_definition(payload@, StringForm::Utf16).unwrap()),
        !consumes_all(spec_definition(payload@, StringForm::Ansi), payload@) && !consumes_all(
            spec_definition(payload@, StringForm::Utf16),
            payload@,
        ) ==> definition_read(payload@, StringForm::Ansi, r),
{
    let ansi = read_definition_as(payload, StringForm::Ansi);
    if let Ok(d) = &ansi {
        if d.consumed == payload.len() {
            return ansi;
        }
    }
    let utf16 = read_definition_as(payload, StringForm::Utf16);
    if let Ok(d) = &utf16 {
        if d.consumed == payload.len() {
            return utf16;
        }
    }
    ansi
}

/// The character-wide image and sound pools, filled in as the per-animation streams are
/// read (1.5 stores its art and audio inside each animation).
pub struct MediaPool {
    pub images: Vec<Image>,
    pub sounds: Vec<Vec<u8>>,
    /// The character's frame size; a full-frame raster is this wide.
    pub frame_size: (u16, u16),
    /// The character's color key, used to pad a raster that does not fill its rows.
    pub transparency: u8,
}

/// A media pool as plain values.
pub struct PoolView {
    pub images: Seq<ImageView>,
    pub sounds: Seq<Seq<u8>>,
    pub frame_size: (u16, u16),
    pub transparency: u8,
}

impl View for MediaPool {
    type V = PoolView;

    open spec fn view(&self) -> PoolView {
        PoolView {
            images: images_view(self.images@),
            sounds: sounds_view(self.sounds@),
            frame_size: self.frame_size,
            transparency: self.transparency,
        }
    }
}

/// `bits` cut or padded with `fill` to `n` bytes.
pub open spec fn padded(bits: Seq<u8>, n: int, fill: u8) -> Seq<u8> {
    if n <= bits.len() {
        bits.subrange(0, n)
    } else {
        bits + Seq::new((n - bits.len()) as nat, |_i: int| fill)
    }
}

/// The pool with a `width` by `height` image of `bits` added, its bits squared up with its
/// dimensions (padded with the color key).
pub open spec fn pool_push(p: PoolView, width: u16, height: u16, bits: Seq<u8>) -> PoolView {
    PoolView {
        images: p.images.push(
            ImageView {
                index: p.images.len() as usize,
                width,
                height,
                bits: padded(bits, spec_stride(width as int) * height, p.transparency),
            },
        ),
        ..p
    }
}

/// The height of a full-frame raster of `len` bytes at `width` pixels: however many rows
/// those bytes cover, rounded up (to 16 bits).
pub open spec fn raster_height(width: u16, len: int) -> u16 {
    let stride = spec_stride(width as int);
    if stride == 0 {
        0
    } else {
        ((len + stride - 1) / stride) as u16
    }
}

impl MediaPool {
    /// An empty pool for frames of `frame_size` keyed with `transparency`.
    pub fn new(frame_size: (u16, u16), transparency: u8) -> (p: MediaPool)
        ensures
            p@ == (PoolView { images: Seq::empty(), sounds: Seq::empty(), frame_size, transparency }),
    {
        let p = MediaPool { images: Vec::new(), sounds: Vec::new(), frame_size, transparency };
        assert(p@.images =~= Seq::<ImageView>::empty());
        assert(p@.sounds =~= Seq::<Seq<u8>>::empty());
        p
    }

    /// Add an image, squaring its bits up with its dimensions, and return its index: the
    /// rest of the crate takes `bits.len() == Image::expected_len(width, height)` for
    /// granted, and a damaged stream should not be able to violate that.
    pub fn push(&mut self, width: u16, height: u16, bits: Vec<u8>) -> (index: u32)
        ensures
            final(self)@ == pool_push(old(self)@, width, height, bits@),
            index == old(self)@.images.len() as u32,
    {
        let mut bits = bits;
        let n = Image::expected_len(width, height);
        let ghost old_bits = bits@;
        bits.resize(n, self.transparency);
        proof {
            let want = padded(old_bits, n as int, self.transparency);
            if n > old_bits.len() {
                assert forall|i: int| 0 <= i < n implies bits@[i] == want[i] by {
                    if i < old_bits.len() {
                        assert(bits@.subrange(0, old_bits.len() as int)[i] == old_bits[i]);
                    }
                }
            }
            assert(bits@ =~= want);
        }
        let index = self.images.len();
        let ghost before = self.images@;
        self.images.push(Image { index, width, height, bits });
        assert(images_view(self.images@) =~= images_view(before).push(self.images@[index as int]@));
        index as u32
    }

    /// Add a full-frame raster and return its index. The stream states only the byte count,
    /// so the height is however many rows those bytes cover at the character's frame width,
    /// rounded up: a raster that stops mid-row keeps the partial one.
    pub fn push_frame_image(&mut self, bits: Vec<u8>) -> (index: u32)
        ensures
            final(self)@ == pool_push(
                old(self)@,
                old(self)@.frame_size.0,
                raster_height(old(self)@.frame_size.0, bits@.len() as int),
                bits@,
            ),
            index == old(self)@.images.len() as u32,
    {
        let width = self.frame_size.0;
        let stride = (width as u128 + 3) / 4 * 4;
        let height: u16 = if stride == 0 {
            0
        } else {
            ((bits.len() as u128 + stride - 1) / stride) as u16
        };
        self.push(width, height, bits)
    }
}

/// `count` steps of a reader that changes state `s` as it goes, from `at`: the state after
/// them and where the last one ended, or the state when a step ran out of bytes and `None`.
pub open spec fn walk<S>(
    b: Seq<u8>,
    at: int,
    count: nat,
    s: S,
    step: spec_fn(Seq<u8>, int, S) -> (S, Option<int>),
) -> (S, Option<int>)
    decreases count,
{
    if count == 0 {
        (s, Some(at))
    } else {
        let prev = walk(b, at, (count - 1) as nat, s, step);
        match prev.1 {
            None => prev,
            Some(q) => step(b, q, prev.0),
        }
    }
}

/// Once a step runs out of bytes, the walk stops where it is.
pub proof fn lemma_walk_stops<S>(
    b: Seq<u8>,
    at: int,
    i: nat,
    n: nat,
    s: S,
    step: spec_fn(Seq<u8>, int, S) -> (S, Option<int>),
)
    requires
        walk(b, at, i, s, step).1 is None,
        i <= n,
    ensures
        walk(b, at, n, s, step) == walk(b, at, i, s, step),
    decreases n - i,
{
    if i < n {
        lemma_walk_stops(b, at, i, (n - 1) as nat, s, step);
    }
}

/// One sound of an animation's sound table: a `u32` length and that many bytes.
pub open spec fn sound_step(b: Seq<u8>, at: int, p: PoolView) -> (PoolView, Option<int>) {
    match sp_u32(b, at) {
        None => (p, None),
        Some((len, q1)) => match sp_bytes(b, q1, len as int) {
            None => (p, None),
            Some((sound, q2)) => (PoolView { sounds: p.sounds.push(sound), ..p }, Some(q2)),
        },
    }
}

/// One entry of an animation's image table: a `u32` length (zero for an empty
/// placeholder), a storage flag, the raster, then a `u32`-length click region that is
/// skipped. Each entry adds one image to the pool and its index to `ndx`.
pub open spec fn image_step(b: Seq<u8>, at: int, s: (PoolView, Seq<u32>)) -> ((PoolView, Seq<u32>), Option<int>) {
    let (p, ndx) = s;
    match sp_u32(b, at) {
        None => (s, None),
        Some((len, q1)) => if len == 0 {
            ((pool_push(p, 0, 0, Seq::empty()), ndx.push(p.images.len() as u32)), Some(q1))
        } else {
            match sp_bytes(b, q1, 1) {
                None => (s, None),
                Some((_flag, q2)) => match sp_bytes(b, q2, len as int) {
                    None => (s, None),
                    Some((bits, q3)) => match sp_u32(b, q3) {
                        None => (s, None),
                        Some((region, q4)) => match sp_bytes(b, q4, region as int) {
                            None => (s, None),
                            Some((_r, q5)) => (
                                (
                                    pool_push(p, p.frame_size.0, raster_height(p.frame_size.0, len as int), bits),
                                    ndx.push(p.images.len() as u32),
                                ),
                                Some(q5),
                            ),
                        },
                    },
                },
            }
        },
    }
}

/// One mouth overlay of a frame: its type, a `u32` length (zero for an empty slot, which
/// adds nothing), a storage flag, position, size and bits. The bits join the pool; the
/// overlay is offered for lip-sync only when its pool index fits its 16-bit slot.
pub open spec fn overlay_step(b: Seq<u8>, at: int, s: (PoolView, Seq<FrameOverlay>)) -> (
    (PoolView, Seq<FrameOverlay>),
    Option<int>,
) {
    let (p, ovs) = s;
    match sp_u8(b, at) {
        None => (s, None),
        Some((kind, q1)) => match sp_u32(b, q1) {
            None => (s, None),
            Some((len, q2)) => if len == 0 {
                (s, Some(q2))
            } else {
                match sp_bytes(b, q2, 1) {
                    None => (s, None),
                    Some((_flag, q3)) => match sp_u16(b, q3) {
                        None => (s, None),
                        Some((x, q4)) => match sp_u16(b, q4) {
                            None => (s, None),
                            Some((y, q5)) => match sp_u16(b, q5) {
                                None => (s, None),
                                Some((w, q6)) => match sp_u16(b, q6) {
                                    None => (s, None),
                                    Some((h, q7)) => match sp_bytes(b, q7, len as int) {
                                        None => (s, None),
                                        Some((bits, q8)) => {
                                            let index = p.images.len() as u32;
                                            (
                                                (
                                                    pool_push(p, w, h, bits),
                                                    if index <= 0xFFFF {
                                                        ovs.push(
                                                            FrameOverlay {
                                                                overlay_type: spec_mouth(kind),
                                                                image_ndx: index as u16,
                                                                replace: false,
                                                                offset: (x as i16, y as i16),
                                                            },
                                                        )
                                                    } else {
                                                        ovs
                                                    },
                                                ),
                                                Some(q8),
                                            )
                                        },
                                    },
                                },
                            },
                        },
                    },
                }
            },
        },
    }
}

/// A per-animation sound index rebased onto the character-wide pool whose sounds start at
/// `base`; `-1` (none) for a negative index or one past the 16-bit range.
pub open spec fn rebased_sound(sound: i16, base: int) -> i16 {
    if sound >= 0 && base + sound <= 0x7FFF {
        (base + sound) as i16
    } else {
        -1i16
    }
}

/// The head of a frame: image index, sound, duration and offset, then its branches.
pub open spec fn frame_head(b: Seq<u8>, at: int) -> Option<(u16, i16, u16, (i16, i16), Seq<Branch>, int)> {
    match sp_u16(b, at) {
        None => None,
        Some((image, q1)) => match sp_u16(b, q1) {
            None => None,
            Some((sound, q2)) => match sp_u16(b, q2) {
                None => None,
                Some((duration, q3)) => match sp_u16(b, q3) {
                    None => None,
                    Some((ox, q4)) => match sp_u16(b, q4) {
                        None => None,
                        Some((oy, q5)) => match sp_u8(b, q5) {
                            None => None,
                            Some((nb, q6)) => match spec_list(b, q6, nb as nat, |b: Seq<u8>, at: int| spec_branch(b, at)) {
                                None => None,
                                Some((branches, q7)) => Some(
                                    (image, sound as i16, duration, (ox as i16, oy as i16), branches, q7),
                                ),
                            },
                        },
                    },
                },
            },
        },
    }
}

/// One frame of an animation stream, with the indices `ndx` its image table was given and
/// the pool's first sound of this animation at `base`: the head, then a `u8` count of mouth
/// overlays. The overlays' art joins the pool even when the frame is cut short after it.
pub open spec fn frame_step(
    b: Seq<u8>,
    at: int,
    s: (PoolView, Seq<FrameView>),
    ndx: Seq<u32>,
    base: int,
) -> ((PoolView, Seq<FrameView>), Option<int>) {
    let (p, frames) = s;
    match frame_head(b, at) {
        None => (s, None),
        Some((image, sound, duration, offset, branching, q1)) => match sp_u8(b, q1) {
            None => (s, None),
            Some((no, q2)) => {
                let ov = walk(b, q2, no as nat, (p, Seq::<FrameOverlay>::empty()), |b: Seq<u8>, at: int, s: (PoolView, Seq<FrameOverlay>)| overlay_step(b, at, s));
                match ov.1 {
                    None => ((ov.0.0, frames), None),
                    Some(q3) => (
                        (
                            ov.0.0,
                            frames.push(
                                FrameView {
                                    duration,
                                    sound_ndx: rebased_sound(sound, base),
                                    exit_frame: -1i16,
                                    branching,
                                    images: if image < ndx.len() {
                                        seq![FrameImage { image_ndx: ndx[image as int], offset }]
                                    } else {
                                        Seq::empty()
                                    },
                                    overlays: ov.0.1,
                                },
                            ),
                        ),
                        Some(q3),
                    ),
                }
            },
        },
    }
}

/// Walking a decompressed animation body from pool `p` with `frames` already read: its
/// sound table, its image table, then its frames, each a `u16` count and that many
/// entries. The pool and frames it leaves, and whether it reached the end of the frames.
#[verifier::opaque]
pub open spec fn body_walk(b: Seq<u8>, p: PoolView, frames: Seq<FrameView>) -> (PoolView, Seq<FrameView>, bool) {
    let base = p.sounds.len() as int;
    match sp_u16(b, 0) {
        None => (p, frames, false),
        Some((ns, q1)) => {
            let snd = walk(b, q1, ns as nat, p, |b: Seq<u8>, at: int, p: PoolView| sound_step(b, at, p));
            match snd.1 {
                None => (snd.0, frames, false),
                Some(q2) => match sp_u16(b, q2) {
                    None => (snd.0, frames, false),
                    Some((ni, q3)) => {
                        let img = walk(b, q3, ni as nat, (snd.0, Seq::<u32>::empty()), |b: Seq<u8>, at: int, s: (PoolView, Seq<u32>)| image_step(b, at, s));
                        match img.1 {
                            None => (img.0.0, frames, false),
                            Some(q4) => match sp_u16(b, q4) {
                                None => (img.0.0, frames, false),
                                Some((nf, q5)) => {
                                    let ndx = img.0.1;
                                    let fr = walk(
                                        b,
                                        q5,
                                        nf as nat,
                                        (img.0.0, frames),
                                        |b: Seq<u8>, at: int, s: (PoolView, Seq<FrameView>)| frame_step(b, at, s, ndx, base),
                                    );
                                    (fr.0.0, fr.0.1, fr.1 is Some)
                                },
                            },
                        }
                    },
                },
            }
        },
    }
}

/// Every image of the pool sits at its own index and holds exactly its rows' bytes.
pub open spec fn pool_ok(p: PoolView) -> bool {
    forall|i: int|
        0 <= i < p.images.len() ==> (#[trigger] p.images[i]).index == i as usize && p.images[i].bits.len()
            == spec_stride(p.images[i].width as int) * p.images[i].height
}

/// `q` is `p` with images and sounds only added after those it had.
pub open spec fn pool_kept(p: PoolView, q: PoolView) -> bool {
    &&& pool_ok(q)
    &&& p.images.len() <= q.images.len()
    &&& q.images.take(p.images.len() as int) == p.images
    &&& p.sounds.len() <= q.sounds.len()
    &&& q.sounds.take(p.sounds.len() as int) == p.sounds
    &&& q.frame_size == p.frame_size
    &&& q.transparency == p.transparency
}

proof fn lemma_pool_push_kept(p0: PoolView, p: PoolView, w: u16, h: u16, bits: Seq<u8>)
    requires
        pool_kept(p0, p),
    ensures
        pool_kept(p0, pool_push(p, w, h, bits)),
{
    let q = pool_push(p, w, h, bits);
    assert(0 <= spec_stride(w as int) * h) by (nonlinear_arith)
        requires
            spec_stride(w as int) >= 0,
            h >= 0,
    ;
    assert(q.images.take(p0.images.len() as int) =~= p.images.take(p0.images.len() as int));
    assert forall|i: int| 0 <= i < q.images.len() implies (#[trigger] q.images[i]).index == i as usize
        && q.images[i].bits.len() == spec_stride(q.images[i].width as int) * q.images[i].height by {
        if i < p.images.len() {
            assert(q.images[i] == p.images[i]);
        }
    }
}

proof fn lemma_pool_kept_trans(a: PoolView, b: PoolView, c: PoolView)
    requires
        pool_kept(a, b),
        pool_kept(b, c),
    ensures
        pool_kept(a, c),
{
    assert(c.images.take(a.images.len() as int) =~= c.images.take(b.images.len() as int).take(a.images.len() as int));
    assert(c.sounds.take(a.sounds.len() as int) =~= c.sounds.take(b.sounds.len() as int).take(a.sounds.len() as int));
}

proof fn lemma_pool_kept_refl(p: PoolView)
    requires
        pool_ok(p),
    ensures
        pool_kept(p, p),
{
    assert(p.images.take(p.images.len() as int) =~= p.images);
    assert(p.sounds.take(p.sounds.len() as int) =~= p.sounds);
}

/// Every frame of `fs` from `from` on has no exit frame, at most one image, and either no
/// sound or one at or past `s0`.
pub open spec fn new_frames_ok(fs: Seq<FrameView>, from: int, s0: int) -> bool {
    forall|k: int|
        from <= k < fs.len() ==> (#[trigger] fs[k]).exit_frame == -1 && fs[k].images.len() <= 1 && (
        fs[k].sound_ndx == -1 || fs[k].sound_ndx >= s0)
}

/// A walk whose every step keeps `inv` keeps it.
proof fn lemma_walk_keeps<S>(
    b: Seq<u8>,
    at: int,
    count: nat,
    s: S,
    step: spec_fn(Seq<u8>, int, S) -> (S, Option<int>),
    inv: spec_fn(S) -> bool,
)
    requires
        inv(s),
        forall|q: int, x: S| inv(x) ==> inv(#[trigger] step(b, q, x).0),
    ensures
        inv(walk(b, at, count, s, step).0),
    decreases count,
{
    if count > 0 {
        lemma_walk_keeps(b, at, (count - 1) as nat, s, step, inv);
    }
}

/// Walking an animation body keeps the pool sound and only ever adds to it: the images
/// stay at their own indices with exactly their rows' bytes, the images and sounds there
/// before are kept, and the frames read before are kept; whether or not the walk reached
/// the end.
pub proof fn lemma_body_walk_keeps(b: Seq<u8>, p: PoolView, frames: Seq<FrameView>)
    requires
        pool_ok(p),
    ensures
        pool_kept(p, body_walk(b, p, frames).0),
        frames.len() <= body_walk(b, p, frames).1.len(),
        body_walk(b, p, frames).1.take(frames.len() as int) == frames,
        new_frames_ok(body_walk(b, p, frames).1, frames.len() as int, p.sounds.len() as int),
{
    reveal(body_walk);
    lemma_pool_kept_refl(p);
    assert(frames.take(frames.len() as int) =~= frames);
    let base = p.sounds.len() as int;
    match sp_u16(b, 0) {
        None => {},
        Some((ns, q1)) => {
            let sstep = |b: Seq<u8>, at: int, p: PoolView| sound_step(b, at, p);
            let sinv = |x: PoolView| pool_kept(p, x);
            assert forall|q: int, x: PoolView| sinv(x) implies sinv(#[trigger] sstep(b, q, x).0) by {
                let y = sound_step(b, q, x).0;
                if y != x {
                    assert(y.sounds.take(p.sounds.len() as int) =~= x.sounds.take(p.sounds.len() as int));
                    assert(y.images == x.images);
                }
            }
            lemma_walk_keeps(b, q1, ns as nat, p, sstep, sinv);
            let snd = walk(b, q1, ns as nat, p, sstep);
            match snd.1 {
                None => {},
                Some(q2) => match sp_u16(b, q2) {
                    None => {},
                    Some((ni, q3)) => {
                        let istep = |b: Seq<u8>, at: int, s: (PoolView, Seq<u32>)| image_step(b, at, s);
                        let iinv = |x: (PoolView, Seq<u32>)| pool_kept(p, x.0);
                        assert forall|q: int, x: (PoolView, Seq<u32>)| iinv(x) implies iinv(
                            #[trigger] istep(b, q, x).0,
                        ) by {
                            let x0 = x.0;
                            match sp_u32(b, q) {
                                None => {},
                                Some((len, _q)) => {
                                    lemma_pool_push_kept(p, x0, 0, 0, Seq::empty());
                                    lemma_pool_push_kept(p, x0, x0.frame_size.0, raster_height(x0.frame_size.0, len as int), Seq::empty());
                                    assert forall|bits: Seq<u8>| #[trigger] pool_kept(p, pool_push(x0, x0.frame_size.0, raster_height(x0.frame_size.0, len as int), bits)) by {
                                        lemma_pool_push_kept(p, x0, x0.frame_size.0, raster_height(x0.frame_size.0, len as int), bits);
                                    }
                                },
                            }
                        }
                        lemma_walk_keeps(b, q3, ni as nat, (snd.0, Seq::<u32>::empty()), istep, iinv);
                        let img = walk(b, q3, ni as nat, (snd.0, Seq::<u32>::empty()), istep);
                        match img.1 {
                            None => {},
                            Some(q4) => match sp_u16(b, q4) {
                                None => {},
                                Some((nf, q5)) => {
                                    let ndx = img.0.1;
                                    let fstep = |b: Seq<u8>, at: int, s: (PoolView, Seq<FrameView>)| frame_step(b, at, s, ndx, base);
                                    let finv = |x: (PoolView, Seq<FrameView>)| pool_kept(p, x.0) && frames.len() <= x.1.len()
                                        && x.1.take(frames.len() as int) == frames
                                        && new_frames_ok(x.1, frames.len() as int, base);
                                    assert forall|q: int, x: (PoolView, Seq<FrameView>)| finv(x) implies finv(
                                        #[trigger] fstep(b, q, x).0,
                                    ) by {
                                        lemma_frame_step_keeps(b, q, x, ndx, base, p, frames);
                                    }
                                    lemma_walk_keeps(b, q5, nf as nat, (img.0.0, frames), fstep, finv);
                                },
                            },
                        }
                    },
                },
            }
        },
    }
}

proof fn lemma_frame_step_keeps(
    b: Seq<u8>,
    q: int,
    x: (PoolView, Seq<FrameView>),
    ndx: Seq<u32>,
    base: int,
    p: PoolView,
    frames: Seq<FrameView>,
)
    requires
        pool_kept(p, x.0),
        frames.len() <= x.1.len(),
        x.1.take(frames.len() as int) == frames,
        new_frames_ok(x.1, frames.len() as int, base),
    ensures
        pool_kept(p, frame_step(b, q, x, ndx, base).0.0),
        frames.len() <= frame_step(b, q, x, ndx, base).0.1.len(),
        frame_step(b, q, x, ndx, base).0.1.take(frames.len() as int) == frames,
        new_frames_ok(frame_step(b, q, x, ndx, base).0.1, frames.len() as int, base),
{
    let (pp, fr) = x;
    match frame_head(b, q) {
        None => {},
        Some((image, sound, duration, offset, branching, q1)) => match sp_u8(b, q1) {
            None => {},
            Some((no, q2)) => {
                let ostep = |b: Seq<u8>, at: int, s: (PoolView, Seq<FrameOverlay>)| overlay_step(b, at, s);
                let oinv = |y: (PoolView, Seq<FrameOverlay>)| pool_kept(p, y.0);
                assert forall|qq: int, y: (PoolView, Seq<FrameOverlay>)| oinv(y) implies oinv(
                    #[trigger] ostep(b, qq, y).0,
                ) by {
                    assert forall|w: u16, h: u16, bits: Seq<u8>| #[trigger] pool_kept(p, pool_push(y.0, w, h, bits)) by {
                        lemma_pool_push_kept(p, y.0, w, h, bits);
                    }
                }
                lemma_walk_keeps(b, q2, no as nat, (pp, Seq::<FrameOverlay>::empty()), ostep, oinv);
                let ov = walk(b, q2, no as nat, (pp, Seq::<FrameOverlay>::empty()), ostep);
                match ov.1 {
                    None => {},
                    Some(_q3) => {
                        let f2 = frame_step(b, q, x, ndx, base).0.1;
                        assert(f2.take(frames.len() as int) =~= fr.take(frames.len() as int));
                        assert forall|k: int| frames.len() <= k < f2.len() implies (#[trigger] f2[k]).exit_frame
                            == -1 && f2[k].images.len() <= 1 && (f2[k].sound_ndx == -1 || f2[k].sound_ndx
                            >= base) by {
                            if k < fr.len() {
                                assert(f2[k] == fr[k]);
                            }
                        }
                    },
                }
            },
        },
    }
}

/// Read an animation's sound table into the pool.
#[verifier::loop_isolation(false)]
fn read_sounds(c: &mut Cursor, count: u16, pool: &mut MediaPool) -> (r: Result<(), Error>)
    ensures
        final(c).data() == old(c).data(),
        final(pool)@ == walk(old(c).data(), old(c).offset(), count as nat, old(pool)@, |b: Seq<u8>, at: int, p: PoolView| sound_step(b, at, p)).0,
        r is Ok <==> walk(old(c).data(), old(c).offset(), count as nat, old(pool)@, |b: Seq<u8>, at: int, p: PoolView| sound_step(b, at, p)).1 is Some,
        r is Ok ==> walk(old(c).data(), old(c).offset(), count as nat, old(pool)@, |b: Seq<u8>, at: int, p: PoolView| sound_step(b, at, p)).1 == Some(final(c).offset()),
        r matches Err(e) ==> is_eof(e),
{
    let ghost b = c.data();
    let ghost start = c.offset();
    let ghost p0 = pool@;
    let ghost step = |b: Seq<u8>, at: int, p: PoolView| sound_step(b, at, p);
    let mut i: u16 = 0;
    while i < count
        invariant
            c.data() == b,
            0 <= i <= count,
            pool@ == walk(b, start, i as nat, p0, step).0,
            walk(b, start, i as nat, p0, step).1 == Some(c.offset()),
        decreases count - i,
    {
        let len = match c.u32() {
            Ok(len) => len,
            Err(e) => {
                proof {
                    lemma_walk_stops(b, start, (i + 1) as nat, count as nat, p0, step);
                }
                return Err(e);
            },
        };
        let bytes = match c.bytes(len as usize) {
            Ok(bytes) => bytes,
            Err(e) => {
                proof {
                    lemma_walk_stops(b, start, (i + 1) as nat, count as nat, p0, step);
                }
                return Err(e);
            },
        };
        let ghost before = pool.sounds@;
        pool.sounds.push(vstd::slice::slice_to_vec(bytes));
        assert(sounds_view(pool.sounds@) =~= sounds_view(before).push(bytes@));
        i += 1;
    }
    Ok(())
}

/// Read an animation's image table into the pool, with the pool index each entry got.
#[verifier::loop_isolation(false)]
#[verifier::rlimit(40)]
fn read_images(c: &mut Cursor, count: u16, pool: &mut MediaPool) -> (r: Result<Vec<u32>, Error>)
    ensures
        final(c).data() == old(c).data(),
        final(pool)@ == walk(old(c).data(), old(c).offset(), count as nat, (old(pool)@, Seq::<u32>::empty()), |b: Seq<u8>, at: int, s: (PoolView, Seq<u32>)| image_step(b, at, s)).0.0,
        r is Ok <==> walk(old(c).data(), old(c).offset(), count as nat, (old(pool)@, Seq::<u32>::empty()), |b: Seq<u8>, at: int, s: (PoolView, Seq<u32>)| image_step(b, at, s)).1 is Some,
        r matches Ok(v) ==> walk(old(c).data(), old(c).offset(), count as nat, (old(pool)@, Seq::<u32>::empty()), |b: Seq<u8>, at: int, s: (PoolView, Seq<u32>)| image_step(b, at, s)) == ((final(pool)@, v@), Some(final(c).offset())),
        r matches Err(e) ==> is_eof(e),
{
    let ghost b = c.data();
    let ghost start = c.offset();
    let ghost s0 = (pool@, Seq::<u32>::empty());
    let ghost step = |b: Seq<u8>, at: int, s: (PoolView, Seq<u32>)| image_step(b, at, s);
    let mut ndx: Vec<u32> = Vec::new();
    let mut i: u16 = 0;
    while i < count
        invariant
            c.data() == b,
            0 <= i <= count,
            (pool@, ndx@) == walk(b, start, i as nat, s0, step).0,
            walk(b, start, i as nat, s0, step).1 == Some(c.offset()),
        decreases count - i,
    {
        let len = match c.u32() {
            Ok(len) => len,
            Err(e) => {
                proof {
                    lemma_walk_stops(b, start, (i + 1) as nat, count as nat, s0, step);
                }
                return Err(e);
            },
        };
        if len == 0 {
            let k = pool.push(0, 0, Vec::new());
            ndx.push(k);
        } else {
            match c.skip(1) {
                Ok(()) => {},
                Err(e) => {
                    proof {
                        lemma_walk_stops(b, start, (i + 1) as nat, count as nat, s0, step);
                    }
                    return Err(e);
                },
            }
            let bits = match c.bytes(len as usize) {
                Ok(bits) => vstd::slice::slice_to_vec(bits),
                Err(e) => {
                    proof {
                        lemma_walk_stops(b, start, (i + 1) as nat, count as nat, s0, step);
                    }
                    return Err(e);
                },
            };
            let region_len = match c.u32() {
                Ok(n) => n,
                Err(e) => {
                    proof {
                        lemma_walk_stops(b, start, (i + 1) as nat, count as nat, s0, step);
                    }
                    return Err(e);
                },
            };
            match c.skip(region_len as usize) {
                Ok(()) => {},
                Err(e) => {
                    proof {
                        lemma_walk_stops(b, start, (i + 1) as nat, count as nat, s0, step);
                    }
                    return Err(e);
                },
            }
            let k = pool.push_frame_image(bits);
            ndx.push(k);
        }
        i += 1;
    }
    Ok(ndx)
}

/// Read a frame's mouth overlays, adding their art to the pool.
#[verifier::loop_isolation(false)]
#[verifier::rlimit(60)]
fn read_overlays(c: &mut Cursor, count: u8, pool: &mut MediaPool) -> (r: Result<Vec<FrameOverlay>, Error>)
    ensures
        final(c).data() == old(c).data(),
        final(pool)@ == walk(old(c).data(), old(c).offset(), count as nat, (old(pool)@, Seq::<FrameOverlay>::empty()), |b: Seq<u8>, at: int, s: (PoolView, Seq<FrameOverlay>)| overlay_step(b, at, s)).0.0,
        r is Ok <==> walk(old(c).data(), old(c).offset(), count as nat, (old(pool)@, Seq::<FrameOverlay>::empty()), |b: Seq<u8>, at: int, s: (PoolView, Seq<FrameOverlay>)| overlay_step(b, at, s)).1 is Some,
        r matches Ok(v) ==> walk(old(c).data(), old(c).offset(), count as nat, (old(pool)@, Seq::<FrameOverlay>::empty()), |b: Seq<u8>, at: int, s: (PoolView, Seq<FrameOverlay>)| overlay_step(b, at, s)) == ((final(pool)@, v@), Some(final(c).offset())),
        r matches Err(e) ==> is_eof(e),
{
    let ghost b = c.data();
    let ghost start = c.offset();
    let ghost s0 = (pool@, Seq::<FrameOverlay>::empty());
    let ghost step = |b: Seq<u8>, at: int, s: (PoolView, Seq<FrameOverlay>)| overlay_step(b, at, s);
    let mut overlays: Vec<FrameOverlay> = Vec::new();
    let mut i: u8 = 0;
    while i < count
        invariant
            c.data() == b,
            0 <= i <= count,
            (pool@, overlays@) == walk(b, start, i as nat, s0, step).0,
            walk(b, start, i as nat, s0, step).1 == Some(c.offset()),
        decreases count - i,
    {
        let kind = match c.u8() {
            Ok(v) => v,
            Err(e) => {
                proof {
                    lemma_walk_stops(b, start, (i + 1) as nat, count as nat, s0, step);
                }
                return Err(e);
            },
        };
        let len = match c.u32() {
            Ok(v) => v,
            Err(e) => {
                proof {
                    lemma_walk_stops(b, start, (i + 1) as nat, count as nat, s0, step);
                }
                return Err(e);
            },
        };
        if len != 0 {
            let head = match read_overlay_head(c) {
                Ok(v) => v,
                Err(e) => {
                    proof {
                        lemma_walk_stops(b, start, (i + 1) as nat, count as nat, s0, step);
                    }
                    return Err(e);
                },
            };
            let (x, y, width, height) = head;
            let bits = match c.bytes(len as usize) {
                Ok(v) => vstd::slice::slice_to_vec(v),
                Err(e) => {
                    proof {
                        lemma_walk_stops(b, start, (i + 1) as nat, count as nat, s0, step);
                    }
                    return Err(e);
                },
            };
            let index = pool.push(width, height, bits);
            if index <= 0xFFFF {
                overlays.push(
                    FrameOverlay {
                        overlay_type: MouthOverlay::from_u8(kind),
                        image_ndx: index as u16,
                        replace: false,
                        offset: (x, y),
                    },
                );
            }
        }
        i += 1;
    }
    Ok(overlays)
}

/// The storage flag, position and size that lead a non-empty mouth overlay.
fn read_overlay_head(c: &mut Cursor) -> (r: Result<(i16, i16, u16, u16), Error>)
    ensures
        final(c).data() == old(c).data(),
        ({
            let b = old(c).data();
            let at = old(c).offset();
            match sp_bytes(b, at, 1) {
                None => r matches Err(e) && is_eof(e),
                Some((_f, q1)) => match sp_u16(b, q1) {
                    None => r matches Err(e) && is_eof(e),
                    Some((x, q2)) => match sp_u16(b, q2) {
                        None => r matches Err(e) && is_eof(e),
                        Some((y, q3)) => match sp_u16(b, q3) {
                            None => r matches Err(e) && is_eof(e),
                            Some((w, q4)) => match sp_u16(b, q4) {
                                None => r matches Err(e) && is_eof(e),
                                Some((h, q5)) => r == Ok::<(i16, i16, u16, u16), Error>((x as i16, y as i16, w, h))
                                    && final(c).offset() == q5,
                            },
                        },
                    },
                },
            }
        }),
{
    c.skip(1)?;
    let x = c.i16()?;
    let y = c.i16()?;
    let width = c.u16()?;
    let height = c.u16()?;
    Ok((x, y, width, height))
}

#[verifier::rlimit(40)]
fn read_frame_head(c: &mut Cursor) -> (r: Result<(u16, i16, u16, (i16, i16), Vec<Branch>), Error>)
    ensures
        final(c).data() == old(c).data(),
        r is Ok <==> frame_head(old(c).data(), old(c).offset()) is Some,
        r matches Ok(t) ==> frame_head(old(c).data(), old(c).offset()) == Some(
            (t.0, t.1, t.2, t.3, t.4@, final(c).offset()),
        ),
        r matches Err(e) ==> is_eof(e),
{
    let image = c.u16()?;
    let sound = c.i16()?;
    let duration = c.u16()?;
    let ox = c.i16()?;
    let oy = c.i16()?;
    let branch_count = c.u8()?;
    let branching = read_branches(c, branch_count)?;
    Ok((image, sound, duration, (ox, oy), branching))
}

/// Rebase a per-animation sound index onto the pool whose sounds start at `base`.
fn rebase_sound(sound: i16, base: usize) -> (r: i16)
    ensures
        r == rebased_sound(sound, base as int),
{
    if sound >= 0 {
        let local = sound as usize;
        if base <= 0x7FFF && local <= 0x7FFF - base {
            (base + local) as i16
        } else {
            -1
        }
    } else {
        -1
    }
}

/// Read one frame of an animation stream.
#[verifier::rlimit(60)]
fn read_frame(c: &mut Cursor, pool: &mut MediaPool, ndx: &Vec<u32>, sound_base: usize) -> (r: Result<Frame, Error>)
    ensures
        final(c).data() == old(c).data(),
        ({
            let st = frame_step(old(c).data(), old(c).offset(), (old(pool)@, Seq::<FrameView>::empty()), ndx@, sound_base as int);
            &&& final(pool)@ == st.0.0
            &&& (r is Ok <==> st.1 is Some)
            &&& r matches Ok(f) ==> st.0.1 == seq![f@] && st.1 == Some(final(c).offset())
            &&& r matches Err(e) ==> is_eof(e)
        }),
{
    let ghost b = c.data();
    let ghost at = c.offset();
    let (image, sound, duration, offset, branching) = read_frame_head(c)?;
    let overlay_count = c.u8()?;
    let ghost q2 = c.offset();
    let overlays = read_overlays(c, overlay_count, pool)?;
    let mut images: Vec<FrameImage> = Vec::new();
    if (image as usize) < ndx.len() {
        images.push(FrameImage { image_ndx: ndx[image as usize], offset });
    }
    assert(images@ =~= (if image < ndx@.len() {
        seq![FrameImage { image_ndx: ndx@[image as int], offset }]
    } else {
        Seq::empty()
    }));
    let f = Frame {
        duration,
        sound_ndx: rebase_sound(sound, sound_base),
        exit_frame: -1,
        branching,
        images,
        overlays,
    };
    proof {
        let st = frame_step(b, at, (old(pool)@, Seq::<FrameView>::empty()), ndx@, sound_base as int);
        let fv = st.0.1[0];
        assert(fv.images == f@.images);
        assert(fv == f@);
        assert(st.0.1 =~= seq![f@]);
    }
    Ok(f)
}

/// A frame step's effect on the pool and position does not depend on the frames read
/// before it, and it appends its frame to them.
proof fn lemma_frame_step_appends(b: Seq<u8>, at: int, p: PoolView, fs: Seq<FrameView>, ndx: Seq<u32>, base: int)
    ensures
        frame_step(b, at, (p, fs), ndx, base).0.0 == frame_step(b, at, (p, Seq::empty()), ndx, base).0.0,
        frame_step(b, at, (p, fs), ndx, base).1 == frame_step(b, at, (p, Seq::empty()), ndx, base).1,
        frame_step(b, at, (p, fs), ndx, base).0.1 == fs + frame_step(b, at, (p, Seq::empty()), ndx, base).0.1,
{
    let e = frame_step(b, at, (p, Seq::empty()), ndx, base).0.1;
    let f = frame_step(b, at, (p, fs), ndx, base).0.1;
    assert(f =~= fs + e);
}

/// Read an animation's frames, appending them to `frames`.
#[verifier::loop_isolation(false)]
#[verifier::rlimit(40)]
fn read_frames(
    c: &mut Cursor,
    count: u16,
    pool: &mut MediaPool,
    ndx: &Vec<u32>,
    sound_base: usize,
    frames: &mut Vec<Frame>,
) -> (r: Result<(), Error>)
    ensures
        final(c).data() == old(c).data(),
        ({
            let w = walk(
                old(c).data(),
                old(c).offset(),
                count as nat,
                (old(pool)@, frames_view(old(frames)@)),
                |b: Seq<u8>, at: int, s: (PoolView, Seq<FrameView>)| frame_step(b, at, s, ndx@, sound_base as int),
            );
            &&& (final(pool)@, frames_view(final(frames)@)) == w.0
            &&& (r is Ok <==> w.1 is Some)
            &&& r is Ok ==> w.1 == Some(final(c).offset())
            &&& r matches Err(e) ==> is_eof(e)
        }),
{
    let ghost b = c.data();
    let ghost start = c.offset();
    let ghost s0 = (pool@, frames_view(frames@));
    let ghost step = |b: Seq<u8>, at: int, s: (PoolView, Seq<FrameView>)| frame_step(b, at, s, ndx@, sound_base as int);
    let mut i: u16 = 0;
    while i < count
        invariant
            c.data() == b,
            0 <= i <= count,
            (pool@, frames_view(frames@)) == walk(b, start, i as nat, s0, step).0,
            walk(b, start, i as nat, s0, step).1 == Some(c.offset()),
        decreases count - i,
    {
        let ghost off = c.offset();
        let ghost p_before = pool@;
        let ghost fs_before = frames_view(frames@);
        proof {
            lemma_frame_step_appends(b, off, p_before, fs_before, ndx@, sound_base as int);
        }
        match read_frame(c, pool, ndx, sound_base) {
            Ok(f) => {
                let ghost fv = f@;
                frames.push(f);
                assert(frames_view(frames@) =~= fs_before + seq![fv]);
            },
            Err(e) => {
                proof {
                    lemma_walk_stops(b, start, (i + 1) as nat, count as nat, s0, step);
                }
                return Err(e);
            },
        }
        i += 1;
    }
    Ok(())
}

/// Walk a decompressed animation body: its sound table, its image table, then its frames,
/// folding its sounds and art into the pool and appending its frames to `frames`. Sound
/// indices are rebased onto the pool; a frame whose image index is past the image table
/// gets no image. A body cut short leaves what was read before the cut.
#[verifier::rlimit(40)]
pub fn read_stream_body(body: &[u8], pool: &mut MediaPool, frames: &mut Vec<Frame>) -> (r: Result<(), Error>)
    ensures
        ({
            let w = body_walk(body@, old(pool)@, frames_view(old(frames)@));
            &&& final(pool)@ == w.0
            &&& frames_view(final(frames)@) == w.1
            &&& (r is Ok <==> w.2)
            &&& r matches Err(e) ==> is_eof(e)
        }),
{
    reveal(body_walk);
    let mut c = Cursor::new(body);
    let sound_base = pool.sounds.len();
    let sound_count = c.u16()?;
    read_sounds(&mut c, sound_count, pool)?;
    let image_count = c.u16()?;
    let ndx = read_images(&mut c, image_count, pool)?;
    let frame_count = c.u16()?;
    read_frames(&mut c, frame_count, pool, &ndx, sound_base, frames)
}

/// The envelope of an animation stream: (from the version with animation ids) a stream
/// version and the animation's id, then a compressed flag, the inflated and packed sizes.
/// Gives the flag, the two sizes and where the payload starts.
pub open spec fn anim_envelope(b: Seq<u8>, version: u32) -> Option<(bool, u32, u32, int)> {
    match sp_bytes(b, 0, if version >= VERSION_WITH_ANIM_IDS { 8 } else { 0 }) {
        None => None,
        Some((_lead, q1)) => match sp_u8(b, q1) {
            None => None,
            Some((flag, q2)) => match sp_u32(b, q2) {
                None => None,
                Some((inflated, q3)) => match sp_u32(b, q3) {
                    None => None,
                    Some((packed, q4)) => Some((flag != 0, inflated, packed, q4)),
                },
            },
        },
    }
}

/// An animation stream's body: the stored bytes of an uncompressed stream; a compressed
/// one decompresses to nothing, which is refused.
pub open spec fn spec_inflate_animation(b: Seq<u8>, version: u32) -> Option<Seq<u8>> {
    match anim_envelope(b, version) {
        None => None,
        Some((compressed, inflated, _packed, q)) => if compressed {
            None
        } else {
            match sp_bytes(b, q, inflated as int) {
                None => None,
                Some((body, _q2)) => Some(body),
            }
        },
    }
}

/// Unwrap an animation stream's envelope into its decompressed body.
///
/// A short decode is padded rather than rejected (losing the tail of one frame beats
/// losing the animation); an empty one is a decode failure.
pub fn inflate_animation(raw: &[u8], char_version: u32) -> (r: Result<Vec<u8>, Error>)
    ensures
        r is Ok <==> spec_inflate_animation(raw@, char_version) is Some,
        r matches Ok(v) ==> v@ == spec_inflate_animation(raw@, char_version).unwrap(),
        anim_envelope(raw@, char_version) matches Some((compressed, inflated, _p, _q)) ==> (compressed ==> r
            == Err::<Vec<u8>, Error>(Error::DecodeFailed { got: 0, expected: inflated as usize })),
        r matches Err(e) ==> is_eof(e) || e is DecodeFailed,
{
    let mut c = Cursor::new(raw);
    if char_version >= VERSION_WITH_ANIM_IDS {
        c.skip(8)?;
    }
    let compressed = c.u8()? != 0;
    let inflated_len = c.u32()? as usize;
    let packed_len = c.u32()? as usize;
    if !compressed {
        return Ok(vstd::slice::slice_to_vec(c.bytes(inflated_len)?));
    }
    let rem = c.remaining();
    let take = if packed_len < rem {
        packed_len
    } else {
        rem
    };
    let mut packed = vstd::slice::slice_to_vec(c.bytes(take)?);
    let mut k: usize = 0;
    while k < 8
        decreases 8 - k,
    {
        packed.push(0xFF);
        k += 1;
    }
    let mut body = decode_run(packed.as_slice(), inflated_len);
    if body.len() == 0 {
        return Err(Error::DecodeFailed { got: 0, expected: inflated_len });
    }
    body.resize(inflated_len, 0);
    Ok(body)
}

/// The return kind of an animation that names `return_name` as its way back.
pub open spec fn v15_return_kind(return_name: Seq<char>) -> ReturnKind {
    if return_name.len() == 0 {
        ReturnKind::NoReturn
    } else {
        ReturnKind::Named
    }
}

/// Read one animation stream and fold its art and audio into the pool.
///
/// A stream that stops making sense part-way keeps the frames it did yield: a compressed
/// body a few bytes short should not cost the character its animation.
pub fn read_animation_stream(raw: &[u8], entry: &AnimationRef, char_version: u32, pool: &mut MediaPool) -> (r: Result<Animation, Error>)
    ensures
        match spec_inflate_animation(raw@, char_version) {
            None => final(pool)@ == old(pool)@ && (r matches Err(e) && (is_eof(e) || e is DecodeFailed)),
            Some(body) => {
                let w = body_walk(body, old(pool)@, Seq::empty());
                &&& final(pool)@ == w.0
                &&& r matches Ok(a) && a@ == (AnimationView {
                    name: entry@.name,
                    return_kind: v15_return_kind(entry@.return_name),
                    return_name: entry@.return_name,
                    frames: w.1,
                })
            },
        },
{
    let body = inflate_animation(raw, char_version)?;
    let mut frames: Vec<Frame> = Vec::new();
    assert(frames_view(frames@) =~= Seq::<FrameView>::empty());
    let _ = read_stream_body(body.as_slice(), pool, &mut frames);
    let return_kind = if entry.return_name.unicode_len() == 0 {
        ReturnKind::NoReturn
    } else {
        ReturnKind::Named
    };
    Ok(Animation { name: entry.name.clone(), return_kind, return_name: entry.return_name.clone(), frames })
}

/// The definition a `char.acf` payload settles on: the reading that consumes it exactly
/// (ANSI first), else the ANSI reading.
pub open spec fn chosen_definition(d: Seq<u8>) -> Option<DefinitionView> {
    if consumes_all(spec_definition(d, StringForm::Ansi), d) {
        spec_definition(d, StringForm::Ansi)
    } else if consumes_all(spec_definition(d, StringForm::Utf16), d) {
        spec_definition(d, StringForm::Utf16)
    } else {
        spec_definition(d, StringForm::Ansi)
    }
}

/// The animation a definition entry names, read from its body.
pub open spec fn v15_animation(e: AnimationRefView, frames: Seq<FrameView>) -> AnimationView {
    AnimationView { name: e.name, return_kind: v15_return_kind(e.return_name), return_name: e.return_name, frames }
}

/// The first `n` animations of container `b` that `refs` name, read in order into pool `p`:
/// the animations and the pool after them, or `None` when a stream is missing or its
/// envelope does not unwrap.
pub open spec fn animations_walk(b: Seq<u8>, refs: Seq<AnimationRefView>, version: u32, p: PoolView, n: nat) -> Option<
    (Seq<AnimationView>, PoolView),
>
    decreases n,
{
    if n == 0 {
        Some((Seq::empty(), p))
    } else {
        match animations_walk(b, refs, version, p, (n - 1) as nat) {
            None => None,
            Some((anims, p1)) => match compound_stream(b, refs[n - 1].stream) {
                None => None,
                Some(raw) => match spec_inflate_animation(raw, version) {
                    None => None,
                    Some(body) => {
                        let w = body_walk(body, p1, Seq::empty());
                        Some((anims.push(v15_animation(refs[n - 1], w.1)), w.0))
                    },
                },
            },
        }
    }
}

/// An ACS 1.5 compound document `b` as a character, or `None` when a stream is missing or
/// any part does not read.
pub open spec fn spec_v15(b: Seq<u8>) -> Option<AcsView> {
    match compound_stream(b, "char.acf"@) {
        None => None,
        Some(s) => if s.len() < 4 || sp_u32(s, 0).unwrap().0 != ACS_V15_HEADER_SIGNATURE {
            None
        } else {
            match spec_inflate_stream(s) {
                None => None,
                Some(def) => match chosen_definition(def) {
                    None => None,
                    Some(d) => match animations_walk(
                        b,
                        d.animations,
                        d.version,
                        PoolView {
                            images: Seq::empty(),
                            sounds: Seq::empty(),
                            frame_size: d.header.image_size,
                            transparency: d.header.transparency,
                        },
                        d.animations.len(),
                    ) {
                        None => None,
                        Some((anims, p)) => Some(
                            AcsView {
                                header: d.header,
                                tts: d.tts,
                                balloon: d.balloon,
                                names: d.names,
                                states: d.states,
                                gesture_names: Seq::new(d.animations.len(), |i: int| d.animations[i].name),
                                animations: anims,
                                images: Some(p.images),
                                sounds: Some(p.sounds),
                                rgba_images: None,
                            },
                        ),
                    },
                },
            }
        },
    }
}

/// Once an animation fails to read, the rest of the walk fails too.
proof fn lemma_animations_stop(b: Seq<u8>, refs: Seq<AnimationRefView>, version: u32, p: PoolView, i: nat, n: nat)
    requires
        animations_walk(b, refs, version, p, i) is None,
        i <= n,
    ensures
        animations_walk(b, refs, version, p, n) is None,
    decreases n - i,
{
    if i < n {
        lemma_animations_stop(b, refs, version, p, i, (n - 1) as nat);
    }
}

/// One more animation read in order extends the walk by it.
proof fn lemma_animations_next(b: Seq<u8>, refs: Seq<AnimationRefView>, version: u32, p: PoolView, i: nat)
    requires
        animations_walk(b, refs, version, p, i) is Some,
    ensures
        ({
            let (anims, p1) = animations_walk(b, refs, version, p, i).unwrap();
            match compound_stream(b, refs[i as int].stream) {
                None => animations_walk(b, refs, version, p, i + 1) is None,
                Some(raw) => match spec_inflate_animation(raw, version) {
                    None => animations_walk(b, refs, version, p, i + 1) is None,
                    Some(body) => animations_walk(b, refs, version, p, i + 1) == Some(
                        (
                            anims.push(v15_animation(refs[i as int], body_walk(body, p1, Seq::empty()).1)),
                            body_walk(body, p1, Seq::empty()).0,
                        ),
                    ),
                },
            }
        }),
{
}

/// Read the animation `entry` names out of container `bytes` into the pool.
fn read_named_animation(bytes: &[u8], entry: &AnimationRef, version: u32, pool: &mut MediaPool) -> (r: Result<Animation, Error>)
    ensures
        match compound_stream(bytes@, entry@.stream) {
            None => r matches Err(e) && (e is InvalidData || e is Io),
            Some(raw) => match spec_inflate_animation(raw, version) {
                None => r matches Err(e) && (is_eof(e) || e is DecodeFailed),
                Some(body) => {
                    let w = body_walk(body, old(pool)@, Seq::empty());
                    &&& final(pool)@ == w.0
                    &&& r matches Ok(a) && a@ == v15_animation(entry@, w.1)
                },
            },
        },
{
    let raw = read_stream(bytes, entry.stream.as_str())?;
    read_animation_stream(raw.as_slice(), entry, version, pool)
}

/// Read every animation `refs` names out of container `bytes`, in order, into the pool:
/// the animations and their names.
#[verifier::loop_isolation(false)]
#[verifier::rlimit(40)]
fn read_animations(bytes: &[u8], refs: &Vec<AnimationRef>, version: u32, pool: &mut MediaPool) -> (r: Result<
    (Vec<Animation>, Vec<String>),
    Error,
>)
    ensures
        ({
            let w = animations_walk(bytes@, refs_view(refs@), version, old(pool)@, refs@.len());
            &&& (r is Ok <==> w is Some)
            &&& r matches Ok(t) ==> w == Some((animations_view(t.0@), final(pool)@))
                && texts_view(t.1@) == Seq::new(refs@.len(), |k: int| refs@[k]@.name)
            &&& r matches Err(e) ==> e is InvalidData || e is Io || is_eof(e) || e is DecodeFailed
        }),
{
    let ghost b = bytes@;
    let ghost rv = refs_view(refs@);
    let ghost p0 = pool@;
    let n = refs.len();
    let mut animations: Vec<Animation> = Vec::new();
    let mut names: Vec<String> = Vec::new();
    let mut i: usize = 0;
    assert(animations_view(animations@) =~= Seq::<AnimationView>::empty());
    assert(texts_view(names@) =~= Seq::new(0, |k: int| refs@[k]@.name));
    while i < n
        invariant
            n == refs@.len(),
            rv == refs_view(refs@),
            0 <= i <= n,
            animations_walk(b, rv, version, p0, i as nat) == Some((animations_view(animations@), pool@)),
            texts_view(names@) == Seq::new(i as nat, |k: int| refs@[k]@.name),
        decreases n - i,
    {
        let entry = &refs[i];
        proof {
            lemma_animations_next(b, rv, version, p0, i as nat);
        }
        let ghost before = animations_view(animations@);
        let anim = match read_named_animation(bytes, entry, version, pool) {
            Ok(a) => a,
            Err(e) => {
                proof {
                    lemma_animations_stop(b, rv, version, p0, (i + 1) as nat, n as nat);
                }
                return Err(e);
            },
        };
        let ghost av = anim@;
        animations.push(anim);
        assert(animations_view(animations@) =~= before.push(av));
        let ghost names_before = names@;
        let name = entry.name.clone();
        assert(name@ == refs@[i as int]@.name);
        names.push(name);
        assert(names@ == names_before.push(name));
        i += 1;
        assert forall|k: int| 0 <= k < i implies texts_view(names@)[k] == refs@[k]@.name by {
            if k < i - 1 {
                assert(names@[k] == names_before[k]);
                assert(texts_view(names_before)[k] == Seq::new((i - 1) as nat, |k: int| refs@[k]@.name)[k]);
            }
        }
        assert(texts_view(names@) =~= Seq::new(i as nat, |k: int| refs@[k]@.name));
    }
    Ok((animations, names))
}

/// Parse an ACS 1.5 (OLE2) character: its compressed `char.acf` definition, then one
/// stream per animation, normalized into the same [`AcsFile`] the 2.0 reader gives (each
/// animation's art and audio joins synthesized image and sound pools).
#[verifier::rlimit(60)]
#[verifier::spinoff_prover]
pub fn parse_v15(bytes: Vec<u8>) -> (r: Result<AcsFile, Error>)
    ensures
        r is Ok <==> spec_v15(bytes@) is Some,
        r matches Ok(f) ==> f@ == spec_v15(bytes@).unwrap(),
        compound_stream(bytes@, "char.acf"@) is None ==> (r matches Err(e) && (e is InvalidData || e is Io)),
        r matches Err(e) ==> e is InvalidData || e is Io || is_eof(e) || e is BadSignature || e is DecodeFailed,
{
    let stream = read_stream(bytes.as_slice(), "char.acf")?;
    let definition = inflate_stream(stream.as_slice())?;
    let header = read_definition(definition.as_slice())?;
    let ghost d = header@;
    assert(chosen_definition(definition@) == Some(d));
    let mut pool = MediaPool::new(header.header.image_size, header.header.transparency);
    let (animations, gesture_names) = read_animations(bytes.as_slice(), &header.animations, header.version, &mut pool)?;
    assert(images_view(pool.images@) == pool@.images);
    Ok(
        AcsFile::from_v15(
            header.header,
            header.tts,
            header.balloon,
            header.names,
            header.states,
            gesture_names,
            animations,
            pool.images,
            pool.sounds,
        ),
    )
}

} // verus!
