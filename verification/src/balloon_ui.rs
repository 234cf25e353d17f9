//! Pointer interaction state for interactive balloons: which control the pointer is over
//! and which is held down, and the clickable regions a click is resolved against.
//!
//! A control is only committed on release, and only if the release lands on the control
//! the press did: a press is cancelled by dragging off, the way every button behaves.

use crate::agent::{BalloonKind, BalloonStyle};
use crate::ask::AskHit;
use vstd::prelude::*;

verus! {

/// How a control is currently being touched by the pointer.
#[derive(Clone, Copy, Debug, PartialEq, Eq, Structural)]
pub enum Phase {
    Idle,
    /// The pointer is over it.
    Hover,
    /// The pointer went down on it and has not been released.
    Pressed,
}

impl Default for Phase {
    fn default() -> (p: Phase)
        ensures
            p == Phase::Idle,
    {
        Phase::Idle
    }
}

/// Which control the pointer is over and which is being held down: host-side state,
/// tracked from hit tests on pointer moves and presses.
#[derive(Clone, Copy, Debug, PartialEq, Eq, Structural)]
pub struct AskState {
    pub hover: Option<AskHit>,
    pub pressed: Option<AskHit>,
    /// Whether the text field has the keyboard.
    pub focused: bool,
    /// Whether the text field's caret is currently drawn (the host owns the blink).
    pub caret_on: bool,
}

impl Default for AskState {
    fn default() -> (s: AskState)
        ensures
            s == (AskState { hover: None, pressed: None, focused: false, caret_on: true }),
    {
        AskState { hover: None, pressed: None, focused: false, caret_on: true }
    }
}

/// How `hit` is drawn under pointer state `s`: a held control reads pressed only while
/// the pointer stays on it; while any control is held nothing else lights up; otherwise
/// the control under the pointer hovers.
pub open spec fn phase_of(s: AskState, hit: AskHit) -> Phase {
    if s.pressed == Some(hit) {
        if s.hover == Some(hit) {
            Phase::Pressed
        } else {
            Phase::Idle
        }
    } else if s.pressed is Some {
        Phase::Idle
    } else if s.hover == Some(hit) {
        Phase::Hover
    } else {
        Phase::Idle
    }
}

/// Whether `o` holds exactly `hit`.
fn holds(o: Option<AskHit>, hit: AskHit) -> (r: bool)
    ensures
        r == (o == Some(hit)),
{
    match o {
        Some(h) => h == hit,
        None => false,
    }
}

impl AskState {
    /// How `hit` should be drawn.
    pub fn phase(&self, hit: AskHit) -> (p: Phase)
        ensures
            p == phase_of(*self, hit),
    {
        if holds(self.pressed, hit) {
            return if holds(self.hover, hit) {
                Phase::Pressed
            } else {
                Phase::Idle
            };
        }
        if self.pressed.is_some() {
            return Phase::Idle;
        }
        if holds(self.hover, hit) {
            Phase::Hover
        } else {
            Phase::Idle
        }
    }
}

/// One clickable region of an interactive balloon: what a click there means, and where it
/// is in the painted buffer.
#[derive(Clone, Copy, Debug, PartialEq, Eq, Structural)]
pub struct AskRect {
    /// What to report to the agent when this region is clicked.
    pub hit: AskHit,
    pub x: i32,
    pub y: i32,
    pub w: i32,
    pub h: i32,
}

impl AskRect {
    /// Whether `(px, py)`, in the painted buffer's pixel space, is inside this region.
    pub fn contains(&self, px: i32, py: i32) -> (r: bool)
        ensures
            r == (px >= self.x && py >= self.y && px < self.x + self.w && py < self.y + self.h),
    {
        px as i64 >= self.x as i64 && py as i64 >= self.y as i64 && (px as i64) < self.x as i64
            + self.w as i64 && (py as i64) < self.y as i64 + self.h as i64
    }
}

/// At most one control reads pressed, and only the held one under the pointer.
pub proof fn lemma_single_pressed(s: AskState, a: AskHit, b: AskHit)
    requires
        phase_of(s, a) == Phase::Pressed,
        a != b,
    ensures
        phase_of(s, b) == Phase::Idle,
        s.pressed == Some(a) && s.hover == Some(a),
{
}

/// Colors and shape for painting a balloon. `accent` and `face` only matter for
/// interactive balloons.
#[derive(Clone, Copy, Debug)]
pub struct BalloonPaint {
    pub bg: [u8; 3],
    pub border: [u8; 3],
    pub text: [u8; 3],
    /// Choice markers and choice text: the Assistant's link blue.
    pub accent: [u8; 3],
    /// Commit-button fill.
    pub face: [u8; 3],
    /// A thought balloon (bubble-trail tail) rather than a speech balloon (pointed tail).
    pub think: bool,
}

impl Default for BalloonPaint {
    fn default() -> (p: BalloonPaint)
        ensures
            p == (BalloonPaint {
                bg: [0xFF, 0xFF, 0xE1],
                border: [0x40, 0x40, 0x40],
                text: [0x10, 0x10, 0x10],
                accent: [0x1A, 0x5F, 0xB4],
                face: [0xF4, 0xF2, 0xE4],
                think: false,
            }),
    {
        BalloonPaint {
            bg: [0xFF, 0xFF, 0xE1],
            border: [0x40, 0x40, 0x40],
            text: [0x10, 0x10, 0x10],
            accent: [0x1A, 0x5F, 0xB4],
            face: [0xF4, 0xF2, 0xE4],
            think: false,
        }
    }
}

/// A painted balloon: top-down, non-premultiplied RGBA8, `width` by `height`.
pub struct BalloonImage {
    pub rgba: Vec<u8>,
    pub width: u32,
    pub height: u32,
}

/// The paint for a character's balloon of `kind`, from its own balloon style: its
/// background, border and text colors, except that a style whose text color equals its
/// background (unreadable) falls back to pale yellow with near-black text.
pub fn balloon_paint(style: &BalloonStyle, kind: BalloonKind) -> (p: BalloonPaint)
    ensures
        p.border == [style.border.0, style.border.1, style.border.2],
        style.bg != style.fg ==> p.bg == [style.bg.0, style.bg.1, style.bg.2]
            && p.text == [style.fg.0, style.fg.1, style.fg.2],
        style.bg == style.fg ==> p.bg == [0xFFu8, 0xFF, 0xE1] && p.text == [0x10u8, 0x10, 0x10],
        p.think == (kind == BalloonKind::Think),
        p.accent == [0x1Au8, 0x5F, 0xB4],
        p.face == [0xF4u8, 0xF2, 0xE4],
{
    let (mut bg, mut text) = (style.bg, style.fg);
    if bg.0 == text.0 && bg.1 == text.1 && bg.2 == text.2 {
        bg = (0xFF, 0xFF, 0xE1);
        text = (0x10, 0x10, 0x10);
    }
    let think = match kind {
        BalloonKind::Think => true,
        BalloonKind::Speak => false,
    };
    BalloonPaint {
        bg: [bg.0, bg.1, bg.2],
        border: [style.border.0, style.border.1, style.border.2],
        text: [text.0, text.1, text.2],
        accent: [0x1A, 0x5F, 0xB4],
        face: [0xF4, 0xF2, 0xE4],
        think,
    }
}

} // verus!
