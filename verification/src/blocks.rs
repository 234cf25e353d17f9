//! Shared sub-block parsers used by the ACS, ACS 1.5 and ACF headers. They differ only in
//! how strings are spelled on disk: ACS 2.0 strings carry a trailing NUL, ACF and 1.5
//! strings do not.

use crate::error::Error;
use crate::model::{Balloon, Color, Name, State, Tts};
use crate::reader::{is_eof, lemma_offset_nonneg, sp_bytes, sp_color, sp_text, sp_u16, sp_u32, sp_u8, Cursor, StringForm};
use crate::textutil::{first_letter_caps, spec_first_letter_caps};
use vstd::prelude::*;

verus! {

broadcast use crate::reader::lemma_offset_nonneg;

/// The string form an ACS (`nt == true`) or ACF (`nt == false`) block uses.
pub open spec fn form_of(nt: bool) -> StringForm {
    if nt {
        StringForm::Utf16Terminated
    } else {
        StringForm::Utf16
    }
}

fn form_for(nt: bool) -> (f: StringForm)
    ensures
        f == form_of(nt),
{
    if nt {
        StringForm::Utf16Terminated
    } else {
        StringForm::Utf16
    }
}

/// A voice block as plain values.
pub struct TtsView {
    pub engine: Seq<u8>,
    pub mode: Seq<u8>,
    pub speed: i32,
    pub pitch: i16,
    pub language: Option<u16>,
    pub gender: u16,
    pub age: u16,
    pub style: Seq<char>,
}

impl View for Tts {
    type V = TtsView;

    open spec fn view(&self) -> TtsView {
        TtsView {
            engine: self.engine.0@,
            mode: self.mode.0@,
            speed: self.speed,
            pitch: self.pitch,
            language: self.language,
            gender: self.gender,
            age: self.age,
            style: self.style@,
        }
    }
}

/// The voice block at `at`: two GUIDs, speed, pitch, then (if the flag byte is set) the
/// language, an unused string, gender, age and style.
pub open spec fn spec_tts(b: Seq<u8>, at: int, form: StringForm) -> Option<(TtsView, int)> {
    match sp_bytes(b, at, 16) {
        None => None,
        Some((engine, p1)) => match sp_bytes(b, p1, 16) {
            None => None,
            Some((mode, p2)) => match sp_u32(b, p2) {
                None => None,
                Some((speed, p3)) => match sp_u16(b, p3) {
                    None => None,
                    Some((pitch, p4)) => match sp_u8(b, p4) {
                        None => None,
                        Some((flag, p5)) => if flag == 0 {
                            Some(
                                (
                                    TtsView {
                                        engine,
                                        mode,
                                        speed: speed as i32,
                                        pitch: pitch as i16,
                                        language: None,
                                        gender: 0,
                                        age: 0,
                                        style: Seq::empty(),
                                    },
                                    p5,
                                ),
                            )
                        } else {
                            match sp_u16(b, p5) {
                                None => None,
                                Some((language, p6)) => match sp_text(b, p6, form) {
                                    None => None,
                                    Some((_unknown, p7)) => match sp_u16(b, p7) {
                                        None => None,
                                        Some((gender, p8)) => match sp_u16(b, p8) {
                                            None => None,
                                            Some((age, p9)) => match sp_text(b, p9, form) {
                                                None => None,
                                                Some((style, p10)) => Some(
                                                    (
                                                        TtsView {
                                                            engine,
                                                            mode,
                                                            speed: speed as i32,
                                                            pitch: pitch as i16,
                                                            language: Some(language),
                                                            gender,
                                                            age,
                                                            style,
                                                        },
                                                        p10,
                                                    ),
                                                ),
                                            },
                                        },
                                    },
                                },
                            }
                        },
                    },
                },
            },
        },
    }
}

/// What a block reader promises: success exactly when the spec parse succeeds, the value
/// and end offset it gives, and a read past the end otherwise.
pub open spec fn block_read<T, V>(
    r: Result<T, Error>,
    start: &Cursor,
    end: &Cursor,
    spec: Option<(V, int)>,
    view: spec_fn(T) -> V,
) -> bool {
    &&& end.data() == start.data()
    &&& (r is Ok <==> spec is Some)
    &&& r matches Ok(v) ==> view(v) == spec.unwrap().0 && end.offset() == spec.unwrap().1
    &&& r matches Err(e) ==> is_eof(e)
}

/// Read a voice block in the given string form.
#[verifier::rlimit(50)]
pub fn read_tts(c: &mut Cursor, form: StringForm) -> (r: Result<Tts, Error>)
    requires
        old(c).offset() >= 0,
    ensures
        block_read(r, old(c), final(c), spec_tts(old(c).data(), old(c).offset(), form), |t: Tts| t@),
{
    let engine = c.guid()?;
    let mode = c.guid()?;
    let speed = c.i32()?;
    let pitch = c.i16()?;
    let has_extra = c.u8()? != 0;
    if has_extra {
        let language = c.u16()?;
        let _unknown = c.text(form)?;
        let gender = c.u16()?;
        let age = c.u16()?;
        let style = c.text(form)?;
        Ok(Tts { engine, mode, speed, pitch, language: Some(language), gender, age, style })
    } else {
        Ok(
            Tts {
                engine,
                mode,
                speed,
                pitch,
                language: None,
                gender: 0,
                age: 0,
                style: String::new(),
            },
        )
    }
}

/// TTS voice block; `nt` selects NUL-terminated (ACS) strings.
pub fn tts(c: &mut Cursor, nt: bool) -> (r: Result<Tts, Error>)
    requires
        old(c).offset() >= 0,
    ensures
        block_read(r, old(c), final(c), spec_tts(old(c).data(), old(c).offset(), form_of(nt)), |t: Tts| t@),
{
    read_tts(c, form_for(nt))
}

/// A balloon block as plain values.
pub struct BalloonView {
    pub lines: u8,
    pub per_line: u8,
    pub fg_color: Color,
    pub bg_color: Color,
    pub border_color: Color,
    pub font_name: Seq<char>,
    pub font_height: i32,
    pub bold: bool,
    pub strikeout: bool,
    pub italic: bool,
}

impl View for Balloon {
    type V = BalloonView;

    open spec fn view(&self) -> BalloonView {
        BalloonView {
            lines: self.lines,
            per_line: self.per_line,
            fg_color: self.fg_color,
            bg_color: self.bg_color,
            border_color: self.border_color,
            font_name: self.font_name@,
            font_height: self.font_height,
            bold: self.bold,
            strikeout: self.strikeout,
            italic: self.italic,
        }
    }
}

/// The balloon block at `at`: lines, characters per line, (a style byte when
/// `style_byte`), three colors, the font name and `LOGFONT` height, weight, strikeout and
/// italic. Bold means a weight of at least 700 (`FW_BOLD`).
pub open spec fn spec_balloon(b: Seq<u8>, at: int, form: StringForm, style_byte: bool) -> Option<
    (BalloonView, int),
> {
    match sp_u8(b, at) {
        None => None,
        Some((lines, p1)) => match sp_u8(b, p1) {
            None => None,
            Some((per_line, p2a)) => match (if style_byte {
                sp_u8(b, p2a)
            } else {
                Some((0u8, p2a))
            }) {
                None => None,
                Some((_style, p2)) => match sp_color(b, p2) {
                    None => None,
                    Some((fg, p3)) => match sp_color(b, p3) {
                        None => None,
                        Some((bg, p4)) => match sp_color(b, p4) {
                            None => None,
                            Some((border, p5)) => match sp_text(b, p5, form) {
                                None => None,
                                Some((font_name, p6)) => match sp_u32(b, p6) {
                                    None => None,
                                    Some((height, p7)) => match sp_u16(b, p7) {
                                        None => None,
                                        Some((weight, p8)) => match sp_u16(b, p8) {
                                            None => None,
                                            Some((strikeout, p9)) => match sp_u16(b, p9) {
                                                None => None,
                                                Some((italic, p10)) => Some(
                                                    (
                                                        BalloonView {
                                                            lines,
                                                            per_line,
                                                            fg_color: fg,
                                                            bg_color: bg,
                                                            border_color: border,
                                                            font_name,
                                                            font_height: height as i32,
                                                            bold: weight >= 700,
                                                            strikeout: strikeout != 0,
                                                            italic: italic != 0,
                                                        },
                                                        p10,
                                                    ),
                                                ),
                                            },
                                        },
                                    },
                                },
                            },
                        },
                    },
                },
            },
        },
    }
}

/// Read a balloon block in the given string form, with a style byte after the line
/// geometry when `style_byte`.
#[verifier::rlimit(50)]
pub fn read_balloon(c: &mut Cursor, form: StringForm, style_byte: bool) -> (r: Result<
    Balloon,
    Error,
>)
    requires
        old(c).offset() >= 0,
    ensures
        block_read(
            r,
            old(c),
            final(c),
            spec_balloon(old(c).data(), old(c).offset(), form, style_byte),
            |v: Balloon| v@,
        ),
{
    let lines = c.u8()?;
    let per_line = c.u8()?;
    if style_byte {
        c.u8()?;
    }
    let fg_color = c.color()?;
    let bg_color = c.color()?;
    let border_color = c.color()?;
    let font_name = c.text(form)?;
    let font_height = c.i32()?;
    let weight = c.u16()?;
    let strikeout = c.u16()?;
    let italic = c.u16()?;
    Ok(
        Balloon {
            lines,
            per_line,
            fg_color,
            bg_color,
            border_color,
            font_name,
            font_height,
            bold: weight >= 700,
            strikeout: strikeout != 0,
            italic: italic != 0,
        },
    )
}

/// Word-balloon block; `nt` selects NUL-terminated (ACS) strings.
pub fn balloon(c: &mut Cursor, nt: bool) -> (r: Result<Balloon, Error>)
    requires
        old(c).offset() >= 0,
    ensures
        block_read(
            r,
            old(c),
            final(c),
            spec_balloon(old(c).data(), old(c).offset(), form_of(nt), false),
            |v: Balloon| v@,
        ),
{
    read_balloon(c, form_for(nt), false)
}

/// `count` colors at `at`.
pub open spec fn spec_colors(b: Seq<u8>, at: int, count: nat) -> Option<(Seq<Color>, int)>
    decreases count,
{
    if count == 0 {
        Some((Seq::empty(), at))
    } else {
        match spec_colors(b, at, (count - 1) as nat) {
            None => None,
            Some((cs, p)) => match sp_color(b, p) {
                None => None,
                Some((c, q)) => Some((cs.push(c), q)),
            },
        }
    }
}

/// The palette block at `at`: a `u32` count, then that many colors, of which the first
/// 256 are kept.
pub open spec fn spec_palette(b: Seq<u8>, at: int) -> Option<(Seq<Color>, int)> {
    match sp_u32(b, at) {
        None => None,
        Some((count, p)) => match spec_colors(b, p, count as nat) {
            None => None,
            Some((cs, q)) => Some((if cs.len() > 256 { cs.subrange(0, 256) } else { cs }, q)),
        },
    }
}

proof fn lemma_colors_step(b: Seq<u8>, at: int, i: nat)
    requires
        spec_colors(b, at, i) is Some,
        sp_color(b, spec_colors(b, at, i).unwrap().1) is Some,
    ensures
        spec_colors(b, at, i + 1) == Some(
            (
                spec_colors(b, at, i).unwrap().0.push(
                    sp_color(b, spec_colors(b, at, i).unwrap().1).unwrap().0,
                ),
                sp_color(b, spec_colors(b, at, i).unwrap().1).unwrap().1,
            ),
        ),
{
}

proof fn lemma_colors_fail(b: Seq<u8>, at: int, i: nat, n: nat)
    requires
        spec_colors(b, at, i) is None,
        i <= n,
    ensures
        spec_colors(b, at, n) is None,
    decreases n - i,
{
    if i < n {
        lemma_colors_fail(b, at, i, (n - 1) as nat);
    }
}

proof fn lemma_colors_offset(b: Seq<u8>, at: int, i: nat)
    requires
        spec_colors(b, at, i) is Some,
    ensures
        spec_colors(b, at, i).unwrap().1 == at + 4 * i,
        spec_colors(b, at, i).unwrap().0.len() == i,
    decreases i,
{
    if i > 0 {
        lemma_colors_offset(b, at, (i - 1) as nat);
    }
}

/// Palette block (`u32 count` then `count` BGRA entries; keep ≤256).
#[verifier::loop_isolation(false)]
pub fn palette(c: &mut Cursor) -> (r: Result<Vec<Color>, Error>)
    requires
        old(c).offset() >= 0,
    ensures
        block_read(r, old(c), final(c), spec_palette(old(c).data(), old(c).offset()), |v: Vec<Color>| v@),
{
    let count = c.u32()?;
    let ghost start = c.offset();
    let ghost b = c.data();
    let mut pal: Vec<Color> = Vec::new();
    let mut i: u32 = 0;
    while i < count
        invariant
            c.data() == b,
            c.offset() >= 0,
            0 <= i <= count,
            spec_colors(b, start, i as nat) is Some,
            c.offset() == spec_colors(b, start, i as nat).unwrap().1,
            pal@ == (if i > 256 {
                spec_colors(b, start, i as nat).unwrap().0.subrange(0, 256)
            } else {
                spec_colors(b, start, i as nat).unwrap().0
            }),
        decreases count - i,
    {
        let ghost prev = spec_colors(b, start, i as nat).unwrap();
        let color = match c.color() {
            Ok(col) => col,
            Err(e) => {
                proof {
                    assert(spec_colors(b, start, (i + 1) as nat) is None);
                    lemma_colors_fail(b, start, (i + 1) as nat, count as nat);
                }
                return Err(e);
            },
        };
        proof {
            lemma_colors_step(b, start, i as nat);
            lemma_colors_offset(b, start, i as nat);
            lemma_colors_offset(b, start, (i + 1) as nat);
        }
        if i < 256 {
            pal.push(color);
        }
        i += 1;
        proof {
            let now = spec_colors(b, start, i as nat).unwrap().0;
            assert(now == prev.0.push(color));
            if i > 256 {
                assert(now.subrange(0, 256) =~= prev.0.subrange(0, 256));
            } else {
                assert(pal@ =~= now);
            }
        }
    }
    proof {
        lemma_colors_offset(b, start, count as nat);
    }
    Ok(pal)
}

/// The icon block at `at`: a flag byte, then (when set) two length-prefixed bitmaps.
pub open spec fn spec_icon(b: Seq<u8>, at: int) -> Option<((), int)> {
    match sp_u8(b, at) {
        None => None,
        Some((flag, p1)) => if flag == 0 {
            Some(((), p1))
        } else {
            match sp_u32(b, p1) {
                None => None,
                Some((mask, p2)) => match sp_bytes(b, p2, mask as int) {
                    None => None,
                    Some((_m, p3)) => match sp_u32(b, p3) {
                        None => None,
                        Some((color, p4)) => match sp_bytes(b, p4, color as int) {
                            None => None,
                            Some((_c, p5)) => Some(((), p5)),
                        },
                    },
                },
            }
        },
    }
}

/// Icon block: a flag, then (if set) two length-prefixed DIB blobs, which are skipped.
pub fn skip_icon(c: &mut Cursor) -> (r: Result<(), Error>)
    requires
        old(c).offset() >= 0,
    ensures
        block_read(r, old(c), final(c), spec_icon(old(c).data(), old(c).offset()), |u: ()| u),
{
    if c.u8()? != 0 {
        let mask = c.u32()? as usize;
        c.skip(mask)?;
        let color = c.u32()? as usize;
        c.skip(color)?;
    }
    Ok(())
}

/// A state as plain values.
pub struct StateView {
    pub name: Seq<char>,
    pub animations: Seq<Seq<char>>,
}

impl View for State {
    type V = StateView;

    open spec fn view(&self) -> StateView {
        StateView { name: self.name@, animations: strings_view(self.animations@) }
    }
}

/// The characters of each string.
pub open spec fn strings_view(v: Seq<String>) -> Seq<Seq<char>> {
    Seq::new(v.len(), |i: int| v[i]@)
}

/// `count` strings at `at`.
pub open spec fn spec_texts(b: Seq<u8>, at: int, form: StringForm, count: nat) -> Option<
    (Seq<Seq<char>>, int),
>
    decreases count,
{
    if count == 0 {
        Some((Seq::empty(), at))
    } else {
        match spec_texts(b, at, form, (count - 1) as nat) {
            None => None,
            Some((ts, p)) => match sp_text(b, p, form) {
                None => None,
                Some((t, q)) => Some((ts.push(t), q)),
            },
        }
    }
}

proof fn lemma_texts_fail(b: Seq<u8>, at: int, form: StringForm, i: nat, n: nat)
    requires
        spec_texts(b, at, form, i) is None,
        i <= n,
    ensures
        spec_texts(b, at, form, n) is None,
    decreases n - i,
{
    if i < n {
        lemma_texts_fail(b, at, form, i, (n - 1) as nat);
    }
}

/// Read `count` strings.
#[verifier::loop_isolation(false)]
fn read_texts(c: &mut Cursor, form: StringForm, count: u16) -> (r: Result<Vec<String>, Error>)
    requires
        old(c).offset() >= 0,
    ensures
        block_read(
            r,
            old(c),
            final(c),
            spec_texts(old(c).data(), old(c).offset(), form, count as nat),
            |v: Vec<String>| strings_view(v@),
        ),
{
    let ghost start = c.offset();
    let ghost b = c.data();
    let mut out: Vec<String> = Vec::new();
    let mut i: u16 = 0;
    while i < count
        invariant
            c.data() == b,
            c.offset() >= 0,
            0 <= i <= count,
            spec_texts(b, start, form, i as nat) is Some,
            c.offset() == spec_texts(b, start, form, i as nat).unwrap().1,
            strings_view(out@) == spec_texts(b, start, form, i as nat).unwrap().0,
        decreases count - i,
    {
        let t = match c.text(form) {
            Ok(t) => t,
            Err(e) => {
                proof {
                    assert(spec_texts(b, start, form, (i + 1) as nat) is None);
                    lemma_texts_fail(b, start, form, (i + 1) as nat, count as nat);
                }
                return Err(e);
            },
        };
        out.push(t);
        i += 1;
        assert(strings_view(out@) =~= spec_texts(b, start, form, i as nat).unwrap().0);
    }
    Ok(out)
}

/// `count` states at `at`, each a name, a `u16` count and that many animation names.
pub open spec fn spec_state_list(b: Seq<u8>, at: int, form: StringForm, count: nat) -> Option<
    (Seq<StateView>, int),
>
    decreases count,
{
    if count == 0 {
        Some((Seq::empty(), at))
    } else {
        match spec_state_list(b, at, form, (count - 1) as nat) {
            None => None,
            Some((ss, p)) => match spec_state(b, p, form) {
                None => None,
                Some((st, q)) => Some((ss.push(st), q)),
            },
        }
    }
}

/// One state at `at`: a name, a `u16` count and that many animation names.
pub open spec fn spec_state(b: Seq<u8>, at: int, form: StringForm) -> Option<(StateView, int)> {
    match sp_text(b, at, form) {
        None => None,
        Some((name, p1)) => match sp_u16(b, p1) {
            None => None,
            Some((n, p2)) => match spec_texts(b, p2, form, n as nat) {
                None => None,
                Some((anims, p3)) => Some((StateView { name, animations: anims }, p3)),
            },
        },
    }
}

/// Read one state record.
fn read_state(c: &mut Cursor, form: StringForm) -> (r: Result<State, Error>)
    requires
        old(c).offset() >= 0,
    ensures
        block_read(r, old(c), final(c), spec_state(old(c).data(), old(c).offset(), form), |v: State| v@),
{
    let name = c.text(form)?;
    let gesture_count = c.u16()?;
    let animations = read_texts(c, form, gesture_count)?;
    Ok(State { name, animations })
}

/// The states block at `at`: a `u16` count, then the states.
pub open spec fn spec_states(b: Seq<u8>, at: int, form: StringForm) -> Option<(Seq<StateView>, int)> {
    match sp_u16(b, at) {
        None => None,
        Some((count, p)) => spec_state_list(b, p, form, count as nat),
    }
}

proof fn lemma_state_list_fail(b: Seq<u8>, at: int, form: StringForm, i: nat, n: nat)
    requires
        spec_state_list(b, at, form, i) is None,
        i <= n,
    ensures
        spec_state_list(b, at, form, n) is None,
    decreases n - i,
{
    if i < n {
        lemma_state_list_fail(b, at, form, i, (n - 1) as nat);
    }
}

/// The views of a list of states.
pub open spec fn states_view(v: Seq<State>) -> Seq<StateView> {
    Seq::new(v.len(), |i: int| v[i]@)
}

/// Read a states block in the given string form.
#[verifier::loop_isolation(false)]
#[verifier::rlimit(40)]
pub fn read_states(c: &mut Cursor, form: StringForm) -> (r: Result<Vec<State>, Error>)
    requires
        old(c).offset() >= 0,
    ensures
        block_read(
            r,
            old(c),
            final(c),
            spec_states(old(c).data(), old(c).offset(), form),
            |v: Vec<State>| states_view(v@),
        ),
{
    let count = c.u16()?;
    let ghost start = c.offset();
    let ghost b = c.data();
    let mut states: Vec<State> = Vec::new();
    let mut i: u16 = 0;
    while i < count
        invariant
            c.data() == b,
            c.offset() >= 0,
            0 <= i <= count,
            spec_state_list(b, start, form, i as nat) is Some,
            c.offset() == spec_state_list(b, start, form, i as nat).unwrap().1,
            states_view(states@) == spec_state_list(b, start, form, i as nat).unwrap().0,
        decreases count - i,
    {
        let st = match read_state(c, form) {
            Ok(st) => st,
            Err(e) => {
                proof {
                    assert(spec_state_list(b, start, form, (i + 1) as nat) is None);
                    lemma_state_list_fail(b, start, form, (i + 1) as nat, count as nat);
                }
                return Err(e);
            },
        };
        states.push(st);
        i += 1;
        assert(states_view(states@) =~= spec_state_list(b, start, form, i as nat).unwrap().0);
    }
    Ok(states)
}

/// States block; `nt` selects NUL-terminated (ACS) strings.
pub fn states(c: &mut Cursor, nt: bool) -> (r: Result<Vec<State>, Error>)
    requires
        old(c).offset() >= 0,
    ensures
        block_read(
            r,
            old(c),
            final(c),
            spec_states(old(c).data(), old(c).offset(), form_of(nt)),
            |v: Vec<State>| states_view(v@),
        ),
{
    read_states(c, form_for(nt))
}

/// A localized name as plain values.
pub struct NameView {
    pub language: u16,
    pub name: Seq<char>,
    pub desc1: Seq<char>,
    pub desc2: Seq<char>,
}

impl View for Name {
    type V = NameView;

    open spec fn view(&self) -> NameView {
        NameView {
            language: self.language,
            name: self.name@,
            desc1: self.desc1@,
            desc2: self.desc2@,
        }
    }
}

/// The views of a list of names.
pub open spec fn names_view(v: Seq<Name>) -> Seq<NameView> {
    Seq::new(v.len(), |i: int| v[i]@)
}

/// `count` names at `at`, each a `LANGID`, a name (first letter capitalized) and two
/// descriptions.
pub open spec fn spec_name_list(b: Seq<u8>, at: int, form: StringForm, count: nat) -> Option<
    (Seq<NameView>, int),
>
    decreases count,
{
    if count == 0 {
        Some((Seq::empty(), at))
    } else {
        match spec_name_list(b, at, form, (count - 1) as nat) {
            None => None,
            Some((ns, p)) => match spec_name(b, p, form) {
                None => None,
                Some((n, q)) => Some((ns.push(n), q)),
            },
        }
    }
}

/// One name record at `at`.
pub open spec fn spec_name(b: Seq<u8>, at: int, form: StringForm) -> Option<(NameView, int)> {
    match sp_u16(b, at) {
        None => None,
        Some((language, p1)) => match sp_text(b, p1, form) {
            None => None,
            Some((name, p2)) => match sp_text(b, p2, form) {
                None => None,
                Some((desc1, p3)) => match sp_text(b, p3, form) {
                    None => None,
                    Some((desc2, p4)) => Some(
                        (NameView { language, name: spec_first_letter_caps(name), desc1, desc2 }, p4),
                    ),
                },
            },
        },
    }
}

/// The names block at `at`: a `u16` count, then the names.
pub open spec fn spec_names(b: Seq<u8>, at: int, form: StringForm) -> Option<(Seq<NameView>, int)> {
    match sp_u16(b, at) {
        None => None,
        Some((count, p)) => spec_name_list(b, p, form, count as nat),
    }
}

proof fn lemma_name_list_fail(b: Seq<u8>, at: int, form: StringForm, i: nat, n: nat)
    requires
        spec_name_list(b, at, form, i) is None,
        i <= n,
    ensures
        spec_name_list(b, at, form, n) is None,
    decreases n - i,
{
    if i < n {
        lemma_name_list_fail(b, at, form, i, (n - 1) as nat);
    }
}

/// Read one name record.
fn read_name(c: &mut Cursor, form: StringForm) -> (r: Result<Name, Error>)
    requires
        old(c).offset() >= 0,
    ensures
        block_read(r, old(c), final(c), spec_name(old(c).data(), old(c).offset(), form), |v: Name| v@),
{
    let language = c.u16()?;
    let name = first_letter_caps(c.text(form)?);
    let desc1 = c.text(form)?;
    let desc2 = c.text(form)?;
    Ok(Name { language, name, desc1, desc2 })
}

/// Read a names block in the given string form.
#[verifier::spinoff_prover]
#[verifier::rlimit(60)]
pub fn read_names(c: &mut Cursor, form: StringForm) -> (r: Result<Vec<Name>, Error>)
    requires
        old(c).offset() >= 0,
    ensures
        block_read(
            r,
            old(c),
            final(c),
            spec_names(old(c).data(), old(c).offset(), form),
            |v: Vec<Name>| names_view(v@),
        ),
{
    let ghost b = c.data();
    let ghost at = c.offset();
    let count = c.u16()?;
    let ghost start = c.offset();
    assert(spec_names(b, at, form) == spec_name_list(b, start, form, count as nat));
    let mut names: Vec<Name> = Vec::new();
    let ghost mut ns: Seq<NameView> = Seq::empty();
    let mut i: u16 = 0;
    while i < count
        invariant
            c.data() == b,
            c.offset() >= 0,
            0 <= i <= count,
            ns.len() == i,
            at == old(c).offset(),
            b == old(c).data(),
            spec_names(b, at, form) == spec_name_list(b, start, form, count as nat),
            spec_name_list(b, start, form, i as nat) == Some((ns, c.offset())),
            names@.len() == i,
            forall|k: int| 0 <= k < i ==> (#[trigger] names@[k])@ == ns[k],
        decreases count - i,
    {
        let n = match read_name(c, form) {
            Ok(n) => n,
            Err(e) => {
                proof {
                    assert(spec_name_list(b, start, form, (i + 1) as nat) is None);
                    lemma_name_list_fail(b, start, form, (i + 1) as nat, count as nat);
                }
                return Err(e);
            },
        };
        proof {
            ns = ns.push(n@);
        }
        names.push(n);
        i += 1;
    }
    assert(names_view(names@) =~= ns);
    Ok(names)
}

/// Names block (first letters capitalized); `nt` selects NUL-terminated (ACS) strings.
pub fn names(c: &mut Cursor, nt: bool) -> (r: Result<Vec<Name>, Error>)
    requires
        old(c).offset() >= 0,
    ensures
        block_read(
            r,
            old(c),
            final(c),
            spec_names(old(c).data(), old(c).offset(), form_of(nt)),
            |v: Vec<Name>| names_view(v@),
        ),
{
    read_names(c, form_for(nt))
}

} // verus!
