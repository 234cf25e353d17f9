//! Parser for the Microsoft Agent `.acf` format: the uncompiled, web-distributable
//! character, a small binary header file that references external `.aca` animation files
//! by name.
//!
//! The payload is the same family of sub-blocks as the flat `.acs` (identity, palette,
//! voice, balloon, states, localized names) in a slightly different order, wrapped in a
//! length-prefixed, usually compressed envelope. It carries no art of its own: each
//! animation entry names the `.aca` that holds its frames. Strings are UTF-16 without the
//! terminator the flat `.acs` writes.

use crate::acs::{check_header_version, spec_opt_balloon, spec_opt_tts, spec_signature, signature, version_ok, OLE2_SIGNATURE};
use crate::acs_v15::{compound_stream, read_stream};
use crate::blocks::{
    names_view, palette, read_balloon, read_names, read_states, read_tts, skip_icon, spec_icon, spec_names,
    spec_palette, spec_states, states_view, BalloonView, NameView, StateView, TtsView,
};
use crate::acs::{opt_balloon_view, opt_tts_view, HeaderView};
use crate::decode::decode_data;
use crate::error::Error;
use crate::model::{Balloon, FileHeader, Name, State, Tts, STYLE_BALLOON, STYLE_TTS};
use crate::reader::{is_eof, lemma_offset_nonneg, sp_bytes, sp_text, sp_u16, sp_u32, sp_u8, Cursor, StringForm};
use crate::textutil::{eq_ignore_case, str_eq_ignore_case};
use vstd::prelude::*;

verus! {

broadcast use lemma_offset_nonneg;

/// First DWORD of an ACF file.
pub const ACF_SIGNATURE: u32 = 0xABCD_ABC4;

/// A flat `.acf` may also be stamped with this older variant of the signature.
pub const ACF_SIGNATURE_ALT: u32 = 0xABCD_ABC2;

/// Signature of the `char.acf` definition stream inside an OLE2-packaged `.acf`.
pub const ACF_STREAM_SIGNATURE: u32 = 0xABCD_ABC1;

/// Above this version an animation entry carries the id its `.aca` must echo back.
pub const VERSION_WITH_ANIM_IDS: u32 = 0x0001_001D;

/// Above this version the balloon block carries a second style byte.
pub const VERSION_WITH_BALLOON_STYLE: u32 = 0x0001_001E;

/// One animation reference: the animation's name and the external `.aca` file (relative
/// path) that holds its frames, images and sounds.
#[derive(Clone, Debug)]
pub struct AcfAnimationRef {
    pub name: String,
    /// Relative path to the external `.aca` file.
    pub file_name: String,
    pub return_name: String,
    /// Checksum that must match the one stored inside the `.aca`.
    pub checksum: u32,
}

/// An animation reference as plain values.
pub struct AcfRefView {
    pub name: Seq<char>,
    pub file_name: Seq<char>,
    pub return_name: Seq<char>,
    pub checksum: u32,
}

impl View for AcfAnimationRef {
    type V = AcfRefView;

    open spec fn view(&self) -> AcfRefView {
        AcfRefView {
            name: self.name@,
            file_name: self.file_name@,
            return_name: self.return_name@,
            checksum: self.checksum,
        }
    }
}

/// A parsed ACF header.
pub struct AcfFile {
    pub header: FileHeader,
    pub tts: Option<Tts>,
    pub balloon: Option<Balloon>,
    pub names: Vec<Name>,
    pub states: Vec<State>,
    /// Animation references (to external `.aca` files).
    pub animations: Vec<AcfAnimationRef>,
}

/// An ACF header as plain values.
pub struct AcfView {
    pub header: HeaderView,
    pub tts: Option<TtsView>,
    pub balloon: Option<BalloonView>,
    pub names: Seq<NameView>,
    pub states: Seq<StateView>,
    pub animations: Seq<AcfRefView>,
}

/// The references of some animations.
pub open spec fn refs_view(v: Seq<AcfAnimationRef>) -> Seq<AcfRefView> {
    v.map_values(|a: AcfAnimationRef| a@)
}

impl View for AcfFile {
    type V = AcfView;

    open spec fn view(&self) -> AcfView {
        AcfView {
            header: self.header@,
            tts: opt_tts_view(self.tts),
            balloon: opt_balloon_view(self.balloon),
            names: names_view(self.names@),
            states: states_view(self.states@),
            animations: refs_view(self.animations@),
        }
    }
}

/// One animation entry at `at`: name, `.aca` file and return animation, then the id
/// checksum when the version carries one.
pub open spec fn spec_acf_ref(b: Seq<u8>, at: int, with_id: bool) -> Option<(AcfRefView, int)> {
    match sp_text(b, at, StringForm::Utf16) {
        None => None,
        Some((name, p1)) => match sp_text(b, p1, StringForm::Utf16) {
            None => None,
            Some((file_name, p2)) => match sp_text(b, p2, StringForm::Utf16) {
                None => None,
                Some((return_name, p3)) => if with_id {
                    match sp_u32(b, p3) {
                        None => None,
                        Some((checksum, p4)) => Some((AcfRefView { name, file_name, return_name, checksum }, p4)),
                    }
                } else {
                    Some((AcfRefView { name, file_name, return_name, checksum: 0 }, p3))
                },
            },
        },
    }
}

/// `count` animation entries from `at`.
pub open spec fn spec_acf_refs(b: Seq<u8>, at: int, with_id: bool, count: nat) -> Option<(Seq<AcfRefView>, int)>
    decreases count,
{
    if count == 0 {
        Some((Seq::empty(), at))
    } else {
        match spec_acf_ref(b, at, with_id) {
            None => None,
            Some((r, p)) => match spec_acf_refs(b, p, with_id, (count - 1) as nat) {
                None => None,
                Some((rs, q)) => Some((seq![r] + rs, q)),
            },
        }
    }
}

/// A list read's outcome with `acc` read before it.
pub open spec fn after(acc: Seq<AcfRefView>, rest: Option<(Seq<AcfRefView>, int)>) -> Option<(Seq<AcfRefView>, int)> {
    match rest {
        None => None,
        Some((rs, q)) => Some((acc + rs, q)),
    }
}

/// The version a definition starts with (minor, then major).
pub open spec fn acf_version(b: Seq<u8>) -> Option<u32> {
    match sp_u16(b, 0) {
        None => None,
        Some((minor, p1)) => match sp_u16(b, p1) {
            None => None,
            Some((major, _p2)) => Some((major * 65536 + minor) as u32),
        },
    }
}

/// The inflated character definition: version, animation entries, identity, localized
/// names, frame size, transparency and style (plus four reserved bytes), then the voice
/// and balloon blocks the style announces, the palette, the tray icon and the states.
/// `None` when the definition is cut short or its version is unknown.
pub open spec fn spec_acf(b: Seq<u8>) -> Option<AcfView> {
    match acf_version(b) {
        None => None,
        Some(version) => if !version_ok(version) {
            None
        } else {
            match sp_u16(b, 4) {
                None => None,
                Some((count, p1)) => match spec_acf_refs(b, p1, version > VERSION_WITH_ANIM_IDS, count as nat) {
                    None => None,
                    Some((animations, p2)) => match sp_bytes(b, p2, 16) {
                        None => None,
                        Some((guid, p3)) => match spec_names(b, p3, StringForm::Utf16) {
                            None => None,
                            Some((names, p4)) => match sp_u16(b, p4) {
                                None => None,
                                Some((w, p5)) => match sp_u16(b, p5) {
                                    None => None,
                                    Some((h, p6)) => match sp_u8(b, p6) {
                                        None => None,
                                        Some((t, p7)) => match sp_u32(b, p7) {
                                            None => None,
                                            Some((style, p8)) => match sp_bytes(b, p8, 4) {
                                                None => None,
                                                Some((_reserved, p9)) => match spec_acf_tail(b, p9, style, version) {
                                                    None => None,
                                                    Some((tts, balloon, palette, states)) => Some(
                                                        AcfView {
                                                            header: HeaderView {
                                                                version_major: (version / 65536) as u16,
                                                                version_minor: (version % 65536) as u16,
                                                                guid,
                                                                image_size: (w, h),
                                                                transparency: t,
                                                                style,
                                                                palette,
                                                            },
                                                            tts,
                                                            balloon,
                                                            names,
                                                            states,
                                                            animations,
                                                        },
                                                    ),
                                                },
                                            },
                                        },
                                    },
                                },
                            },
                        },
                    },
                },
            }
        },
    }
}

/// The blocks after the reserved word: voice and balloon (as the style says), palette,
/// tray icon and states.
pub open spec fn spec_acf_tail(b: Seq<u8>, at: int, style: u32, version: u32) -> Option<
    (Option<TtsView>, Option<BalloonView>, Seq<crate::model::Color>, Seq<StateView>),
> {
    match spec_opt_tts(b, at, style, StringForm::Utf16) {
        None => None,
        Some((tts, p1)) => match spec_opt_balloon(b, p1, style, StringForm::Utf16, version > VERSION_WITH_BALLOON_STYLE) {
            None => None,
            Some((balloon, p2)) => match spec_palette(b, p2) {
                None => None,
                Some((pal, p3)) => match spec_icon(b, p3) {
                    None => None,
                    Some((_i, p4)) => match spec_states(b, p4, StringForm::Utf16) {
                        None => None,
                        Some((states, _p5)) => Some((tts, balloon, pal, states)),
                    },
                },
            },
        },
    }
}

/// What reading definition `b` gives: the parsed header, an invalid-data error for an
/// unknown version, otherwise a read past the end.
pub open spec fn acf_read_ok(b: Seq<u8>, r: Result<AcfFile, Error>) -> bool {
    &&& (r is Ok <==> spec_acf(b) is Some)
    &&& r matches Ok(f) ==> f@ == spec_acf(b).unwrap()
    &&& r matches Err(e) ==> (if acf_version(b) matches Some(v) && !version_ok(v) {
        e is InvalidData
    } else {
        is_eof(e)
    })
}

fn read_ref(c: &mut Cursor, with_id: bool) -> (r: Result<AcfAnimationRef, Error>)
    ensures
        final(c).data() == old(c).data(),
        r is Ok <==> spec_acf_ref(old(c).data(), old(c).offset(), with_id) is Some,
        r matches Ok(a) ==> spec_acf_ref(old(c).data(), old(c).offset(), with_id) == Some((a@, final(c).offset())),
        r matches Err(e) ==> is_eof(e),
{
    let name = c.text(StringForm::Utf16)?;
    let file_name = c.text(StringForm::Utf16)?;
    let return_name = c.text(StringForm::Utf16)?;
    let checksum = if with_id {
        c.u32()?
    } else {
        0
    };
    Ok(AcfAnimationRef { name, file_name, return_name, checksum })
}

#[verifier::rlimit(40)]
fn read_refs(c: &mut Cursor, count: u16, with_id: bool) -> (r: Result<Vec<AcfAnimationRef>, Error>)
    ensures
        final(c).data() == old(c).data(),
        r is Ok <==> spec_acf_refs(old(c).data(), old(c).offset(), with_id, count as nat) is Some,
        r matches Ok(v) ==> spec_acf_refs(old(c).data(), old(c).offset(), with_id, count as nat) == Some(
            (refs_view(v@), final(c).offset()),
        ),
        r matches Err(e) ==> is_eof(e),
{
    let ghost b = c.data();
    let ghost at = c.offset();
    let mut v: Vec<AcfAnimationRef> = Vec::new();
    let mut i: u16 = 0;
    assert(refs_view(v@) =~= Seq::<AcfRefView>::empty());
    assert(after(refs_view(v@), spec_acf_refs(b, at, with_id, count as nat)) == spec_acf_refs(b, at, with_id, count as nat)) by {
        match spec_acf_refs(b, at, with_id, count as nat) {
            Some((rs, q)) => assert(refs_view(v@) + rs =~= rs),
            None => {},
        }
    }
    while i < count
        invariant
            c.data() == b,
            b == old(c).data(),
            at == old(c).offset(),
            0 <= i <= count,
            spec_acf_refs(b, at, with_id, count as nat) == after(refs_view(v@), spec_acf_refs(b, c.offset(), with_id, (count - i) as nat)),
        decreases count - i,
    {
        let ghost p = c.offset();
        let a = read_ref(c, with_id)?;
        let ghost before = refs_view(v@);
        let ghost av = a@;
        v.push(a);
        assert(refs_view(v@) =~= before.push(av));
        proof {
            match spec_acf_refs(b, c.offset(), with_id, (count - i - 1) as nat) {
                Some((rs, q)) => {
                    assert(before + (seq![av] + rs) =~= refs_view(v@) + rs);
                },
                None => {},
            }
        }
        i += 1;
    }
    assert(refs_view(v@) + Seq::<AcfRefView>::empty() =~= refs_view(v@));
    Ok(v)
}

/// Read the blocks after the reserved word.
#[verifier::rlimit(40)]
fn read_acf_tail(c: &mut Cursor, style: u32, version: u32) -> (r: Result<
    (Option<Tts>, Option<Balloon>, Vec<crate::model::Color>, Vec<State>),
    Error,
>)
    ensures
        final(c).data() == old(c).data(),
        r is Ok <==> spec_acf_tail(old(c).data(), old(c).offset(), style, version) is Some,
        r matches Ok(t) ==> (opt_tts_view(t.0), opt_balloon_view(t.1), t.2@, states_view(t.3@))
            == spec_acf_tail(old(c).data(), old(c).offset(), style, version).unwrap(),
        r matches Err(e) ==> is_eof(e),
{
    let tts = if style & STYLE_TTS != 0 {
        Some(read_tts(c, StringForm::Utf16)?)
    } else {
        None
    };
    let balloon = if style & STYLE_BALLOON != 0 {
        Some(read_balloon(c, StringForm::Utf16, version > VERSION_WITH_BALLOON_STYLE)?)
    } else {
        None
    };
    let pal = palette(c)?;
    skip_icon(c)?;
    let states = read_states(c, StringForm::Utf16)?;
    Ok((tts, balloon, pal, states))
}

impl AcfFile {
    /// Read the inflated character definition: its sub-blocks are the `.acs` ones in a
    /// different order, the animation table first and the localized names before the
    /// geometry.
    #[verifier::spinoff_prover]
    #[verifier::rlimit(80)]
    fn read(payload: Vec<u8>) -> (r: Result<AcfFile, Error>)
        ensures
            acf_read_ok(payload@, r),
    {
        let mut c = Cursor::new(payload.as_slice());
        let ghost b = payload@;
        let minor = c.u16()?;
        let major = c.u16()?;
        let version = major as u32 * 65536 + minor as u32;
        assert(acf_version(b) == Some(version));
        check_header_version(version)?;
        let count = c.u16()?;
        let animations = read_refs(&mut c, count, version > VERSION_WITH_ANIM_IDS)?;
        let guid = c.guid()?;
        let names = read_names(&mut c, StringForm::Utf16)?;
        let width = c.u16()?;
        let height = c.u16()?;
        let transparency = c.u8()?;
        let style = c.u32()?;
        c.skip(4)?;
        let (tts, balloon, pal, states) = read_acf_tail(&mut c, style, version)?;
        Ok(
            AcfFile {
                header: FileHeader {
                    version_major: major,
                    version_minor: minor,
                    guid,
                    image_size: (width, height),
                    transparency,
                    style,
                    palette: pal,
                },
                tts,
                balloon,
                names,
                states,
                animations,
            },
        )
    }
}

/// The payload of the `{u32 inflated size, u32 stored size, data}` envelope at `at`: the
/// stored bytes as-is when the stored size is zero, otherwise their decompression (which
/// yields only an empty payload).
pub open spec fn spec_inflate(b: Seq<u8>, at: int) -> Option<Seq<u8>> {
    match sp_u32(b, at) {
        None => None,
        Some((inflated, p1)) => match sp_u32(b, p1) {
            None => None,
            Some((stored, p2)) => if stored == 0 {
                match sp_bytes(b, p2, inflated as int) {
                    None => None,
                    Some((data, _p3)) => Some(data),
                }
            } else {
                match sp_bytes(b, p2, stored as int) {
                    None => None,
                    Some((_packed, _p3)) => if inflated == 0 {
                        Some(Seq::empty())
                    } else {
                        None
                    },
                }
            },
        },
    }
}

/// Unwrap the envelope that follows the signature of a character definition.
fn inflate(data: &[u8], at: usize) -> (r: Result<Vec<u8>, Error>)
    ensures
        r is Ok <==> spec_inflate(data@, at as int) is Some,
        r matches Ok(v) ==> v@ == spec_inflate(data@, at as int).unwrap(),
        r matches Err(e) ==> is_eof(e) || e is DecodeFailed,
{
    let mut c = Cursor::at(data, at);
    let inflated_len = c.u32()? as usize;
    let stored_len = c.u32()? as usize;
    if stored_len == 0 {
        return Ok(vstd::slice::slice_to_vec(c.bytes(inflated_len)?));
    }
    decode_data(c.bytes(stored_len)?, inflated_len)
}

/// What parsing definition bytes framed by an envelope at offset 4 gives.
pub open spec fn acf_framed_ok(b: Seq<u8>, r: Result<AcfFile, Error>) -> bool {
    match spec_inflate(b, 4) {
        None => r matches Err(e) && (is_eof(e) || e is DecodeFailed),
        Some(payload) => acf_read_ok(payload, r),
    }
}

impl AcfFile {
    /// Parse an in-memory `.acf` byte buffer: a flat `.acf`, or an OLE2-packaged one whose
    /// definition lives in a `char.acf` stream framed the same way.
    pub fn parse(data: Vec<u8>) -> (r: Result<AcfFile, Error>)
        ensures
            match spec_signature(data@) {
                None => (r matches Err(Error::UnexpectedEof { context, offset, needed, available })
                    && context@ == "signature"@ && offset == 0 && needed == 4 && available == data@.len()),
                Some(sig) => if sig == ACF_SIGNATURE || sig == ACF_SIGNATURE_ALT {
                    acf_framed_ok(data@, r)
                } else if sig == OLE2_SIGNATURE {
                    match compound_stream(data@, "char.acf"@) {
                        None => r matches Err(e) && (e is InvalidData || e is Io),
                        Some(s) => if spec_signature(s) != Some(ACF_STREAM_SIGNATURE) {
                            r == Err::<AcfFile, Error>(
                                Error::BadSignature {
                                    found: match spec_signature(s) {
                                        Some(f) => f,
                                        None => 0,
                                    },
                                },
                            )
                        } else {
                            acf_framed_ok(s, r)
                        },
                    }
                } else {
                    r == Err::<AcfFile, Error>(Error::BadSignature { found: sig })
                },
            },
    {
        match signature(data.as_slice()) {
            Some(sig) => {
                if sig == ACF_SIGNATURE || sig == ACF_SIGNATURE_ALT {
                    let payload = inflate(data.as_slice(), 4)?;
                    AcfFile::read(payload)
                } else if sig == OLE2_SIGNATURE {
                    let stream = read_stream(data.as_slice(), "char.acf")?;
                    proof {
                        reveal_strlit("char.acf");
                    }
                    let inner = signature(stream.as_slice());
                    match inner {
                        Some(s) => {
                            if s != ACF_STREAM_SIGNATURE {
                                return Err(Error::BadSignature { found: s });
                            }
                        },
                        None => {
                            return Err(Error::BadSignature { found: 0 });
                        },
                    }
                    let payload = inflate(stream.as_slice(), 4)?;
                    AcfFile::read(payload)
                } else {
                    Err(Error::BadSignature { found: sig })
                }
            },
            None => Err(Error::UnexpectedEof { context: "signature", offset: 0, needed: 4, available: data.len() }),
        }
    }

    /// Look up an animation reference by name, ignoring ASCII case as the engine does.
    pub fn animation(&self, name: &str) -> (r: Option<&AcfAnimationRef>)
        ensures
            match first_ref_named(self@.animations, name@, 0) {
                Some(i) => r == Some(&self.animations@[i]),
                None => r is None,
            },
    {
        let mut i: usize = 0;
        while i < self.animations.len()
            invariant
                0 <= i <= self.animations@.len(),
                first_ref_named(self@.animations, name@, 0) == first_ref_named(self@.animations, name@, i as int),
            decreases self.animations@.len() - i,
        {
            if str_eq_ignore_case(self.animations[i].name.as_str(), name) {
                return Some(&self.animations[i]);
            }
            i += 1;
        }
        None
    }

    /// The default character name: the US-English one, else the first.
    pub fn default_name(&self) -> (r: Option<&Name>)
        ensures
            match first_language(self@.names, 0x0409, 0) {
                Some(i) => r == Some(&self.names@[i]),
                None => if self@.names.len() > 0 {
                    r == Some(&self.names@[0])
                } else {
                    r is None
                },
            },
    {
        let mut i: usize = 0;
        while i < self.names.len()
            invariant
                0 <= i <= self.names@.len(),
                first_language(self@.names, 0x0409, 0) == first_language(self@.names, 0x0409, i as int),
            decreases self.names@.len() - i,
        {
            if self.names[i].language == 0x0409 {
                return Some(&self.names[i]);
            }
            i += 1;
        }
        if self.names.len() > 0 {
            Some(&self.names[0])
        } else {
            None
        }
    }
}

/// The first reference from `i` on whose name equals `name` ignoring ASCII case.
pub open spec fn first_ref_named(refs: Seq<AcfRefView>, name: Seq<char>, i: int) -> Option<int>
    decreases refs.len() - i,
{
    if i < 0 || i >= refs.len() {
        None
    } else if eq_ignore_case(refs[i].name, name) {
        Some(i)
    } else {
        first_ref_named(refs, name, i + 1)
    }
}

/// The first name from `i` on in language `lang`.
pub open spec fn first_language(names: Seq<NameView>, lang: u16, i: int) -> Option<int>
    decreases names.len() - i,
{
    if i < 0 || i >= names.len() {
        None
    } else if names[i].language == lang {
        Some(i)
    } else {
        first_language(names, lang, i + 1)
    }
}

} // verus!
