//! Embed a Microsoft Agent character in an app. [`Agent`] owns a parsed character and a
//! serial action queue: requests ([`Agent::show`], [`Agent::play`], [`Agent::speak`],
//! [`Agent::move_to`], [`Agent::gesture_at`], [`Agent::hide`]) are queued, the host calls
//! [`Agent::update`] with the elapsed time each tick and reads back what to draw
//! ([`Agent::composite_current`], [`Agent::balloon`], [`Agent::position`]). When the queue
//! drains and the character is visible it idles by itself.
//!
//! It is windowing- and audio-agnostic: a host supplies time, a surface, and optionally a
//! sound sink and a voice.

use crate::acs::{composite_indexed, composite_ok, composite_rgba, composited, first_named, frame_fits, opt_balloon_view, pool_wf, texts_view, AcsFile, AcsView};
use crate::acs_records::{animations_view, AnimationView, FrameView};
use crate::balloon::{layout_of, lines_view, wrap_last_rows, wrap_words, wrapped, BalloonLayout};
use crate::character::{anim_refs_view, gesture_parts, state_names, timelines_fit, Character};
use crate::idle::IdleDirector;
use crate::model::{
    alpha_at, indexed_channel, Animation, Balloon, MouthOverlay, ReturnKind, Rgba, STYLE_NO_AUTO_HIDE, STYLE_NO_AUTO_PACE, STYLE_SIZE_TO_TEXT,
};
use crate::motion::{toward_spec, toward_wide, Direction, MoveTo, MoveView};
use crate::rng::SplitMix64;
use crate::sequence::{sequence_animation, sequence_exit, AnimationSequence};
use crate::text::{parse_speech, spec_parse_speech};
use crate::textutil::{eq_ignore_case, str_eq_ignore_case, string_from_str};
use crate::tts::{TimedTts, TtsEngine, VoiceEvent};
use vstd::prelude::*;

verus! {

/// How long an auto-hiding balloon lingers, fully revealed, before disappearing (ms).
pub const AUTO_HIDE_MS: u32 = 3000;

/// Per-word reveal pacing for a silent think balloon (ms).
pub const THINK_PACE_MS: u32 = 300;

/// A flight's zip to its destination takes at most this long (ms).
pub const ZIP_MAX_MS: u32 = 500;

/// A high-level request enqueued on the [`Agent`].
#[derive(Clone, Debug, PartialEq, Eq)]
pub enum Request {
    /// Make the character visible; `fast` skips the SHOWING animation.
    Show { fast: bool },
    /// Hide the character; `fast` skips the HIDING animation.
    Hide { fast: bool },
    /// Play a named gesture (its base, continued and return parts).
    Play(String),
    /// Play a named gesture on a loop until [`Agent::stop`] or the next queued request.
    PlayLoop(String),
    /// Speak: show a balloon, pace the words, drive the voice and the mouth.
    Speak(String),
    /// Think: show a thought balloon (no audio), pacing the words silently.
    Think(String),
    /// Walk to a screen point at `speed` pixels per second.
    MoveTo { x: i32, y: i32, speed: u32 },
    /// Point toward a screen point.
    GestureAt { x: i32, y: i32 },
    /// Hold for a number of milliseconds.
    Wait(u32),
}

/// A handle to an enqueued request, to match against request events.
#[derive(Clone, Copy, PartialEq, Eq, Debug, Hash, Structural)]
pub struct ReqId(pub u64);

/// A pointer button, for the input events a host reports back to the agent.
#[derive(Clone, Copy, PartialEq, Eq, Debug, Structural)]
pub enum MouseButton {
    Left,
    Right,
    Middle,
}

/// A speak vs. think balloon (the tail shape differs).
#[derive(Clone, Copy, PartialEq, Eq, Debug, Structural)]
pub enum BalloonKind {
    /// Spoken: pointed triangular tail.
    Speak,
    /// Thought: trail of shrinking bubbles.
    Think,
}

/// Something the agent reports to its host. The lifecycle events are raised by the agent;
/// the input events are fed back by the host so an app can consume one stream.
#[derive(Clone, Copy, PartialEq, Eq, Debug, Structural)]
pub enum Event {
    /// A queued request began.
    RequestStarted(ReqId),
    /// A queued request finished (completed or cut short by [`Agent::stop`]).
    RequestCompleted(ReqId),
    /// The character became visible.
    Shown,
    /// The character became hidden.
    Hidden,
    /// Auto-idling began (queue drained, character visible).
    IdleStarted,
    /// Auto-idling ended (a request preempted it).
    IdleEnded,
    /// A balloon appeared.
    BalloonShown,
    /// A balloon disappeared.
    BalloonHidden,
    /// Speech (audio and reveal) began.
    SpeechStarted,
    /// Speech finished.
    SpeechEnded,
    /// A `\Mrk=N` bookmark was reached during speech.
    Bookmark(i64),
    /// The character moved (during a move or a host-reported drag).
    Moved { x: i32, y: i32 },
    /// The host reported a click on the character.
    Clicked { button: MouseButton, x: i32, y: i32 },
    /// The host reported a double-click.
    DoubleClicked { button: MouseButton, x: i32, y: i32 },
    /// The host reported the start of a drag.
    DragStarted,
    /// The host reported the end of a drag.
    DragCompleted,
}

/// The resolved word-balloon styling for a character.
#[derive(Clone, Copy, Debug)]
pub struct BalloonStyle {
    /// Text color (RGB).
    pub fg: (u8, u8, u8),
    /// Background color (RGB).
    pub bg: (u8, u8, u8),
    /// Border color (RGB).
    pub border: (u8, u8, u8),
    /// Max lines in a fixed-size balloon (the box scrolls past this).
    pub lines: usize,
    /// Characters per line (wrap width).
    pub per_line: usize,
    /// Grow the balloon to fit the whole phrase instead of scrolling a fixed box.
    pub size_to_text: bool,
    /// Auto-hide the balloon a few seconds after speech ends.
    pub auto_hide: bool,
    /// Reveal words progressively (vs. all at once).
    pub auto_pace: bool,
}

/// What the balloon currently shows (already wrapped to the visible words).
#[derive(Clone, Debug)]
pub struct BalloonView {
    /// Layout of the words revealed so far (what to draw now).
    pub layout: BalloonLayout,
    /// Layout of the entire phrase (or of the fixed box), constant during a phrase.
    pub full: BalloonLayout,
    /// Total words in the phrase.
    pub total_words: usize,
    /// Words revealed so far.
    pub shown_words: usize,
    /// Speak or think (chooses the tail shape).
    pub kind: BalloonKind,
}

/// What the agent is doing.
#[derive(Clone, Copy, PartialEq, Eq, Debug, Structural)]
pub enum Activity {
    Hidden,
    /// Holding the rest pose between idle animations.
    IdleRest,
    /// Playing an idle animation.
    Idle,
    Gesture,
    Hiding,
    Move,
    Speak,
    Think,
    Wait,
}

/// One entry of the frame track being played: an animation's frame and how long it shows.
#[derive(Clone, Copy, Debug)]
pub struct TrackFrame {
    pub anim: usize,
    pub frame: usize,
    pub dur_ms: u32,
}

/// Plays a character's embedded sound effects (raw WAV bytes from the file); implemented
/// by a host audio backend.
pub trait AudioSink {
    /// Play a standalone WAV clip (fire-and-forget; clips may overlap).
    fn play(&mut self, wav: &[u8]);

    /// Stop any playing clips.
    fn stop(&mut self) {
    }
}

/// A sink that drops sound effects.
pub struct NullSink;

impl AudioSink for NullSink {
    fn play(&mut self, wav: &[u8]) {
    }
}

/// A color as an RGB triple.
pub open spec fn rgb_of(c: crate::model::Color) -> (u8, u8, u8) {
    (c.r, c.g, c.b)
}

/// The balloon styling of a character: its balloon block's colors and size (a zero size
/// falls back to 2 lines of 32), Microsoft Agent's defaults without a block, and the
/// style flags.
pub open spec fn style_of(v: AcsView) -> BalloonStyle {
    let flags = v.header.style;
    match v.balloon {
        Some(b) => BalloonStyle {
            fg: rgb_of(b.fg_color),
            bg: rgb_of(b.bg_color),
            border: rgb_of(b.border_color),
            lines: if b.lines > 0 { b.lines as usize } else { 2 },
            per_line: if b.per_line > 0 { b.per_line as usize } else { 32 },
            size_to_text: flags & STYLE_SIZE_TO_TEXT != 0,
            auto_hide: flags & STYLE_NO_AUTO_HIDE == 0,
            auto_pace: flags & STYLE_NO_AUTO_PACE == 0,
        },
        None => BalloonStyle {
            fg: (0x00, 0x00, 0x00),
            bg: (0xFF, 0xFF, 0xE1),
            border: (0x40, 0x40, 0x40),
            lines: 2,
            per_line: 32,
            size_to_text: flags & STYLE_SIZE_TO_TEXT != 0,
            auto_hide: flags & STYLE_NO_AUTO_HIDE == 0,
            auto_pace: flags & STYLE_NO_AUTO_PACE == 0,
        },
    }
}

fn resolve_balloon_style(file: &AcsFile) -> (s: BalloonStyle)
    ensures
        s == style_of(file@),
{
    let flags = file.file_header().style;
    let size_to_text = flags & STYLE_SIZE_TO_TEXT != 0;
    let auto_hide = flags & STYLE_NO_AUTO_HIDE == 0;
    let auto_pace = flags & STYLE_NO_AUTO_PACE == 0;
    match file.balloon_block() {
        Some(b) => BalloonStyle {
            fg: (b.fg_color.r, b.fg_color.g, b.fg_color.b),
            bg: (b.bg_color.r, b.bg_color.g, b.bg_color.b),
            border: (b.border_color.r, b.border_color.g, b.border_color.b),
            lines: if b.lines > 0 { b.lines as usize } else { 2 },
            per_line: if b.per_line > 0 { b.per_line as usize } else { 32 },
            size_to_text,
            auto_hide,
            auto_pace,
        },
        None => BalloonStyle {
            fg: (0x00, 0x00, 0x00),
            bg: (0xFF, 0xFF, 0xE1),
            border: (0x40, 0x40, 0x40),
            lines: 2,
            per_line: 32,
            size_to_text,
            auto_hide,
            auto_pace,
        },
    }
}

/// An embedded, drivable character.
pub struct Agent {
    fitted: Fitted,
    rng: SplitMix64,
    idle: IdleDirector,
    visible: bool,
    position: (i32, i32),
    style: BalloonStyle,
    queue: Vec<(ReqId, Request)>,
    activity: Activity,
    events: Vec<Event>,
    next_id: u64,
    current_req: Option<ReqId>,
    idle_active: bool,
    paused: bool,
    paused_word: usize,
    track: Vec<TrackFrame>,
    track_total_ms: u32,
    track_loops: bool,
    /// When looping, wrap back to this offset (the animation's loop start) rather than to
    /// 0, so a one-shot intro plays once and only the hold repeats.
    track_loop_start_ms: u32,
    track_elapsed_ms: u32,
    movement: MoveTo,
    /// The moving animation playing, so its exit (the landing) can play on arrival.
    move_anim: Option<usize>,
    /// Whether the position tween is running yet: a walk glides from the start, a flight
    /// plays its animation in place first and only then zips.
    move_gliding: bool,
    /// This move is a teleport (no moving animation): vanish, jump, reappear.
    move_teleport: bool,
    move_teleport_appearing: bool,
    tts: Box<dyn TtsEngine>,
    think_timer: TimedTts,
    speak_words: Vec<String>,
    speak_shown: usize,
    speak_mouth: Option<MouthOverlay>,
    pending_bookmarks: Vec<(i64, usize)>,
    balloon_kind: Option<BalloonKind>,
    balloon_done: bool,
    balloon_hold_ms: u32,
    /// A balloon revealing in parallel with the current animation.
    speaking_overlay: bool,
    /// Whether the overlay balloon is a silent think.
    overlay_think: bool,
    audio: Box<dyn AudioSink>,
    last_track_index: Option<usize>,
}

/// An agent as plain values.
pub struct AgentView {
    pub file: AcsView,
    pub visible: bool,
    pub position: (i32, i32),
    pub style: BalloonStyle,
    pub queue: Seq<(ReqId, Request)>,
    pub events: Seq<Event>,
    pub next_id: u64,
    pub paused: bool,
    pub idle: bool,
    pub gesturing: bool,
    pub track: Seq<TrackFrame>,
    pub track_total_ms: u32,
    pub track_loops: bool,
    pub track_loop_start_ms: u32,
    pub track_elapsed_ms: u32,
    pub mouth: Option<MouthOverlay>,
    pub balloon_kind: Option<BalloonKind>,
    pub words: Seq<Seq<char>>,
    pub shown: usize,
    pub balloon_done: bool,
    /// What the agent is doing.
    pub activity: Activity,
    /// The request running, once started and until completed.
    pub current: Option<ReqId>,
    /// Whether an `IdleStarted` is outstanding (no `IdleEnded` since).
    pub idling: bool,
    /// The move under way (or the last one).
    pub movement: MoveView,
    /// The track entry whose sound was last considered, so each entry sounds once.
    pub entered: Option<usize>,
}

impl View for Agent {
    type V = AgentView;

    closed spec fn view(&self) -> AgentView {
        AgentView {
            file: self.fitted.file@,
            visible: self.visible,
            position: self.position,
            style: self.style,
            queue: self.queue@,
            events: self.events@,
            next_id: self.next_id,
            paused: self.paused,
            idle: self.activity == Activity::Idle || self.activity == Activity::IdleRest,
            gesturing: self.activity == Activity::Gesture,
            track: self.track@,
            track_total_ms: self.track_total_ms,
            track_loops: self.track_loops,
            track_loop_start_ms: self.track_loop_start_ms,
            track_elapsed_ms: self.track_elapsed_ms,
            mouth: if self.activity == Activity::Speak { self.speak_mouth } else { None },
            balloon_kind: self.balloon_kind,
            words: lines_view(self.speak_words@),
            shown: self.speak_shown,
            balloon_done: self.balloon_done,
            activity: self.activity,
            current: self.current_req,
            idling: self.idle_active,
            movement: self.movement@,
            entered: self.last_track_index,
        }
    }
}

/// The ids of the requests that started, in order of the events.
pub open spec fn started_ids(evs: Seq<Event>) -> Seq<ReqId>
    decreases evs.len(),
{
    if evs.len() == 0 {
        Seq::empty()
    } else {
        let rest = started_ids(evs.drop_last());
        match evs.last() {
            Event::RequestStarted(id) => rest.push(id),
            _ => rest,
        }
    }
}

/// The starts among `x + y` are those of `x`, then those of `y`.
proof fn lemma_started_ids_concat(x: Seq<Event>, y: Seq<Event>)
    ensures
        started_ids(x + y) == started_ids(x) + started_ids(y),
    decreases y.len(),
{
    if y.len() == 0 {
        assert(x + y =~= x);
        assert(started_ids(x) + Seq::<ReqId>::empty() =~= started_ids(x));
    } else {
        assert((x + y).drop_last() =~= x + y.drop_last());
        lemma_started_ids_concat(x, y.drop_last());
        match y.last() {
            Event::RequestStarted(id) => {
                assert(started_ids(x) + started_ids(y.drop_last()).push(id) =~= (started_ids(x)
                    + started_ids(y.drop_last())).push(id));
            },
            _ => {},
        }
    }
}

/// Requests start in the order they were queued: whatever an agent does between two
/// moments, the starts it raises are exactly the requests that left the front of its
/// queue, in queue order, each started once.
pub proof fn lemma_requests_start_in_order(a: AgentView, b: AgentView)
    requires
        advanced(a, b),
    ensures
        started_ids(b.events.skip(a.events.len() as int)) == queue_ids(
            a.queue.take(a.queue.len() - b.queue.len()),
        ),
        b.queue == a.queue.skip(a.queue.len() - b.queue.len()),
{
    let tail = b.events.skip(a.events.len() as int);
    assert(b.events =~= a.events + tail);
    lemma_started_ids_concat(a.events, tail);
    let k = a.queue.len() - b.queue.len();
    assert(started_ids(a.events) + started_ids(tail) == started_ids(a.events) + queue_ids(a.queue.take(k)));
    assert(started_ids(tail) =~= (started_ids(a.events) + started_ids(tail)).skip(
        started_ids(a.events).len() as int,
    ));
    assert(queue_ids(a.queue.take(k)) =~= (started_ids(a.events) + queue_ids(a.queue.take(k))).skip(
        started_ids(a.events).len() as int,
    ));
}

/// The ids of queued requests.
pub open spec fn queue_ids(q: Seq<(ReqId, Request)>) -> Seq<ReqId> {
    q.map_values(|e: (ReqId, Request)| e.0)
}

/// How an agent moves on: requests leave the queue only from its front, each raising its
/// start event in queue order; events are only ever appended; ids are not reissued.
pub open spec fn advanced(a: AgentView, b: AgentView) -> bool {
    let k = a.queue.len() - b.queue.len();
    &&& b.queue.len() <= a.queue.len()
    &&& b.queue == a.queue.skip(k)
    &&& a.events.len() <= b.events.len()
    &&& b.events.take(a.events.len() as int) == a.events
    &&& started_ids(b.events) == started_ids(a.events) + queue_ids(a.queue.take(k))
    &&& b.next_id == a.next_id
    &&& b.file == a.file
    &&& b.paused == a.paused
}

/// Moving on is transitive.
pub proof fn lemma_advanced_trans(a: AgentView, b: AgentView, c: AgentView)
    requires
        advanced(a, b),
        advanced(b, c),
    ensures
        advanced(a, c),
{
    let k1 = a.queue.len() - b.queue.len();
    let k2 = b.queue.len() - c.queue.len();
    assert(a.queue.skip(k1).skip(k2) =~= a.queue.skip(k1 + k2));
    assert(a.queue.take(k1 + k2) =~= a.queue.take(k1) + a.queue.skip(k1).take(k2));
    assert(b.queue.take(k2) == a.queue.skip(k1).take(k2));
    assert(queue_ids(a.queue.take(k1 + k2)) =~= queue_ids(a.queue.take(k1)) + queue_ids(b.queue.take(k2)));
    assert(started_ids(c.events) =~= started_ids(a.events) + queue_ids(a.queue.take(k1 + k2)));
    assert(c.events.take(a.events.len() as int) =~= c.events.take(b.events.len() as int).take(a.events.len() as int));
    assert(k1 + k2 == a.queue.len() - c.queue.len());
}

/// Anything that leaves the queue, the events and the ids alone moves on trivially.
proof fn lemma_advanced_same(a: AgentView, b: AgentView)
    requires
        a.queue == b.queue,
        a.events == b.events,
        a.next_id == b.next_id,
        a.file == b.file,
        a.paused == b.paused,
    ensures
        advanced(a, b),
{
    assert(a.queue.skip(0) =~= a.queue);
    assert(a.queue.take(0) =~= Seq::<(ReqId, Request)>::empty());
    assert(queue_ids(a.queue.take(0)) =~= Seq::<ReqId>::empty());
    assert(started_ids(a.events) + Seq::<ReqId>::empty() =~= started_ids(a.events));
    assert(b.events.take(a.events.len() as int) =~= a.events);
}

/// Appending an event other than a start moves on.
proof fn lemma_advanced_emit(a: AgentView, b: AgentView, e: Event)
    requires
        !(e is RequestStarted),
        b.events == a.events.push(e),
        a.queue == b.queue,
        a.next_id == b.next_id,
        a.file == b.file,
        a.paused == b.paused,
    ensures
        advanced(a, b),
{
    assert(b.events.drop_last() =~= a.events);
    assert(a.queue.skip(0) =~= a.queue);
    assert(queue_ids(a.queue.take(0)) =~= Seq::<ReqId>::empty());
    assert(started_ids(a.events) + Seq::<ReqId>::empty() =~= started_ids(a.events));
    assert(b.events.take(a.events.len() as int) =~= a.events);
}

/// The first of `names[i..]` equal to `name` ignoring ASCII case.
pub open spec fn index_named(names: Seq<Seq<char>>, name: Seq<char>, i: int) -> Option<int>
    decreases names.len() - i,
{
    if i < 0 || i >= names.len() {
        None
    } else if eq_ignore_case(names[i], name) {
        Some(i)
    } else {
        index_named(names, name, i + 1)
    }
}

/// The gesture index of the first of `names[k..]` that names a gesture.
pub open spec fn first_indexed(gestures: Seq<Seq<char>>, names: Seq<Seq<char>>, k: nat) -> Option<int>
    decreases names.len() - k,
{
    if k >= names.len() {
        None
    } else {
        match index_named(gestures, names[k as int], 0) {
            Some(i) => Some(i),
            None => first_indexed(gestures, names, k + 1),
        }
    }
}

/// The gesture indices of the animations in `parts` that name a gesture, in order.
pub open spec fn part_indices(gestures: Seq<Seq<char>>, parts: Seq<AnimationView>) -> Seq<int>
    decreases parts.len(),
{
    if parts.len() == 0 {
        Seq::empty()
    } else {
        let rest = part_indices(gestures, parts.drop_last());
        match index_named(gestures, parts.last().name, 0) {
            Some(i) => rest.push(i),
            None => rest,
        }
    }
}

/// The time a track is at: the first pass runs straight through; a looping track then
/// repeats `[loop start, total)`; a one-shot track holds its end.
pub open spec fn track_time(v: AgentView) -> int {
    let total = v.track_total_ms as int;
    let e = v.track_elapsed_ms as int;
    if v.track_loops {
        if e < total {
            e
        } else {
            let last = if total >= 1 { total - 1 } else { 0 };
            let ls = if (v.track_loop_start_ms as int) < last { v.track_loop_start_ms as int } else { last };
            let len = if total - ls >= 1 { total - ls } else { 1 };
            ls + (e - ls) % len
        }
    } else {
        let last = if total >= 1 { total - 1 } else { 0 };
        if e < last { e } else { last }
    }
}

/// The total duration of the first `n` track entries.
pub open spec fn track_prefix(track: Seq<TrackFrame>, n: nat) -> int
    decreases n,
{
    if n == 0 {
        0
    } else {
        track_prefix(track, (n - 1) as nat) + track[n - 1].dur_ms
    }
}

/// A prefix of durations is never negative.
proof fn lemma_track_prefix_nonneg(track: Seq<TrackFrame>, n: nat)
    ensures
        track_prefix(track, n) >= 0,
    decreases n,
{
    if n > 0 {
        lemma_track_prefix_nonneg(track, (n - 1) as nat);
    }
}

/// The track entry showing at time `t`, scanning from entry `i`: the first whose end is
/// past `t`, or the last.
pub open spec fn track_entry(track: Seq<TrackFrame>, t: int, i: nat) -> int
    decreases track.len() - i,
{
    if i + 1 >= track.len() {
        track.len() - 1
    } else if t < track_prefix(track, i + 1) {
        i as int
    } else {
        track_entry(track, t, i + 1)
    }
}

/// The track entry showing now, `None` with an empty track.
pub open spec fn current_entry(v: AgentView) -> Option<TrackFrame> {
    if v.track.len() == 0 {
        None
    } else {
        Some(v.track[track_entry(v.track, track_time(v), 0)])
    }
}

/// The index of the track entry showing now, `None` with an empty track.
pub open spec fn entry_now(v: AgentView) -> Option<usize> {
    if v.track.len() == 0 {
        None
    } else {
        Some(track_entry(v.track, track_time(v), 0) as usize)
    }
}

/// The events a new balloon raises: the old balloon's hiding (if one showed), then the
/// new one's showing.
pub open spec fn balloon_events(v: AgentView) -> Seq<Event> {
    (if v.balloon_kind is Some {
        v.events.push(Event::BalloonHidden)
    } else {
        v.events
    }).push(Event::BalloonShown)
}

/// An agent after a balloon over its current animation started for `text`: the display
/// words of the parsed text, revealed from none when the style paces them (else all at
/// once), no mouth shape yet, and a speech start for a spoken (not thought) balloon; the
/// queue, the activity and everything else as they were.
pub open spec fn overlay_started(v: AgentView, text: Seq<char>, think: bool) -> AgentView {
    let words = spec_parse_speech(text).display;
    let evs = balloon_events(v);
    AgentView {
        balloon_kind: Some(if think { BalloonKind::Think } else { BalloonKind::Speak }),
        balloon_done: false,
        words,
        shown: if v.style.auto_pace { 0 } else { words.len() as usize },
        mouth: None,
        events: if think { evs } else { evs.push(Event::SpeechStarted) },
        ..v
    }
}

/// The frame the current track entry names, when it names one of the character's.
pub open spec fn current_frame(v: AgentView) -> Option<FrameView> {
    match current_entry(v) {
        Some(e) => if e.anim < v.file.animations.len() && e.frame < v.file.animations[e.anim as int].frames.len() {
            Some(v.file.animations[e.anim as int].frames[e.frame as int])
        } else {
            None
        },
        None => None,
    }
}

/// A character file whose animation timelines fit the sequencer's clock.
struct Fitted {
    file: AcsFile,
}

impl Fitted {
    #[verifier::type_invariant]
    spec fn inv(self) -> bool {
        timelines_fit(self.file@)
    }
}

impl Agent {

    /// Build an agent from an already-parsed character: hidden at the origin, nothing
    /// queued, the silent timed voice and no sound.
    pub fn from_file(file: AcsFile) -> (a: Agent)
        requires
            timelines_fit(file@),
        ensures
            a@.file == file@,
            !a@.visible,
            a@.position == (0i32, 0i32),
            a@.style == style_of(file@),
            a@.queue.len() == 0,
            a@.events.len() == 0,
            a@.next_id == 1,
            !a@.paused,
            !a@.idle,
            !a@.gesturing,
            a@.activity == Activity::Hidden,
            a@.current is None,
            !a@.idling,
            a@.track.len() == 0,
            a@.mouth is None,
            a@.balloon_kind is None,
    {
        let idle = IdleDirector::new(&Character::new(&file));
        let style = resolve_balloon_style(&file);
        Agent {
            fitted: Fitted { file },
            rng: SplitMix64::new(0),
            idle,
            visible: false,
            position: (0, 0),
            style,
            queue: Vec::new(),
            activity: Activity::Hidden,
            events: Vec::new(),
            next_id: 1,
            current_req: None,
            idle_active: false,
            paused: false,
            paused_word: 0,
            track: Vec::new(),
            track_total_ms: 1,
            track_loops: false,
            track_loop_start_ms: 0,
            track_elapsed_ms: 0,
            movement: MoveTo::new((0, 0), (0, 0), 0),
            move_anim: None,
            move_gliding: false,
            move_teleport: false,
            move_teleport_appearing: false,
            tts: Box::new(TimedTts::new()),
            think_timer: TimedTts::new().with_pace(THINK_PACE_MS),
            speak_words: Vec::new(),
            speak_shown: 0,
            speak_mouth: None,
            pending_bookmarks: Vec::new(),
            balloon_kind: None,
            balloon_done: false,
            balloon_hold_ms: 0,
            speaking_overlay: false,
            overlay_think: false,
            audio: Box::new(NullSink),
            last_track_index: None,
        }
    }

    /// Swap the text-to-speech engine (the default is the silent timed engine).
    pub fn set_tts(&mut self, engine: Box<dyn TtsEngine>)
        ensures
            final(self)@ == old(self)@,
    {
        self.tts = engine;
    }

    /// Set the sound-effect sink (the default drops sounds).
    pub fn set_audio_sink(&mut self, sink: Box<dyn AudioSink>)
        ensures
            final(self)@ == old(self)@,
    {
        self.audio = sink;
    }

    /// The parsed character file.
    pub fn file(&self) -> (f: &AcsFile)
        ensures
            f@ == self@.file,
    {
        &self.fitted.file
    }

    /// Character frame size in pixels.
    pub fn size(&self) -> (s: (u32, u32))
        ensures
            s == (self@.file.header.image_size.0 as u32, self@.file.header.image_size.1 as u32),
    {
        let h = self.fitted.file.file_header();
        (h.image_size.0 as u32, h.image_size.1 as u32)
    }

    /// Whether the character is auto-idling (an idle animation or the rest between them).
    pub fn is_idle(&self) -> (r: bool)
        ensures
            r == self@.idle,
    {
        self.activity == Activity::Idle || self.activity == Activity::IdleRest
    }

    /// Whether a played gesture is running.
    pub fn is_gesturing(&self) -> (r: bool)
        ensures
            r == self@.gesturing,
    {
        self.activity == Activity::Gesture
    }

    /// Whether the character is shown.
    pub fn is_visible(&self) -> (r: bool)
        ensures
            r == self@.visible,
    {
        self.visible
    }

    /// Top-left screen position.
    pub fn position(&self) -> (p: (i32, i32))
        ensures
            p == self@.position,
    {
        self.position
    }

    /// The resolved word-balloon styling.
    pub fn balloon_style(&self) -> (s: BalloonStyle)
        ensures
            s == self@.style,
    {
        self.style
    }

    fn emit(&mut self, e: Event)
        ensures
            final(self)@ == (AgentView { events: old(self)@.events.push(e), ..old(self)@ }),
    {
        self.events.push(e);
    }

    /// Set the top-left screen position directly (e.g. after a user drag), reporting the
    /// move when it changes anything.
    pub fn set_position(&mut self, x: i32, y: i32)
        ensures
            final(self)@ == (if old(self)@.position == (x, y) {
                old(self)@
            } else {
                AgentView {
                    position: (x, y),
                    events: old(self)@.events.push(Event::Moved { x, y }),
                    ..old(self)@
                }
            }),
    {
        if self.position.0 != x || self.position.1 != y {
            self.position = (x, y);
            self.emit(Event::Moved { x, y });
        }
    }

    /// Take all events accumulated since the last drain, oldest first.
    pub fn drain_events(&mut self) -> (evs: Vec<Event>)
        ensures
            evs@ == old(self)@.events,
            final(self)@ == (AgentView { events: Seq::empty(), ..old(self)@ }),
    {
        let mut out: Vec<Event> = Vec::new();
        std::mem::swap(&mut out, &mut self.events);
        out
    }

    /// Pop a single event, oldest first.
    pub fn poll_event(&mut self) -> (e: Option<Event>)
        ensures
            old(self)@.events.len() == 0 ==> e is None && final(self)@ == old(self)@,
            old(self)@.events.len() > 0 ==> e == Some(old(self)@.events[0]) && final(self)@ == (AgentView {
                events: old(self)@.events.skip(1),
                ..old(self)@
            }),
    {
        if self.events.len() == 0 {
            None
        } else {
            let e = self.events.remove(0);
            assert(self.events@ =~= old(self)@.events.skip(1));
            Some(e)
        }
    }

    /// Report a click on the character (raised back as [`Event::Clicked`]).
    pub fn report_click(&mut self, button: MouseButton, x: i32, y: i32)
        ensures
            final(self)@ == (AgentView { events: old(self)@.events.push(Event::Clicked { button, x, y }), ..old(self)@ }),
    {
        self.emit(Event::Clicked { button, x, y });
    }

    /// Report a double-click on the character.
    pub fn report_double_click(&mut self, button: MouseButton, x: i32, y: i32)
        ensures
            final(self)@ == (AgentView {
                events: old(self)@.events.push(Event::DoubleClicked { button, x, y }),
                ..old(self)@
            }),
    {
        self.emit(Event::DoubleClicked { button, x, y });
    }

    /// Report the start of a user drag.
    pub fn report_drag_start(&mut self)
        ensures
            final(self)@ == (AgentView { events: old(self)@.events.push(Event::DragStarted), ..old(self)@ }),
    {
        self.emit(Event::DragStarted);
    }

    /// Report the end of a user drag.
    pub fn report_drag_complete(&mut self)
        ensures
            final(self)@ == (AgentView { events: old(self)@.events.push(Event::DragCompleted), ..old(self)@ }),
    {
        self.emit(Event::DragCompleted);
    }

    /// Enqueue a request, returning a handle to match against request events. Handles are
    /// issued in sequence (wrapping past the last one).
    pub fn request(&mut self, req: Request) -> (id: ReqId)
        ensures
            id == ReqId(old(self)@.next_id),
            final(self)@ == (AgentView {
                queue: old(self)@.queue.push((id, req)),
                next_id: old(self)@.next_id.wrapping_add(1),
                ..old(self)@
            }),
    {
        let id = ReqId(self.next_id);
        self.next_id = self.next_id.wrapping_add(1);
        self.queue.push((id, req));
        id
    }

    /// Show the character, playing its SHOWING animation.
    pub fn show(&mut self) -> (id: ReqId)
        ensures
            id == ReqId(old(self)@.next_id),
            final(self)@ == (AgentView {
                queue: old(self)@.queue.push((id, Request::Show { fast: false })),
                next_id: old(self)@.next_id.wrapping_add(1),
                ..old(self)@
            }),
    {
        self.request(Request::Show { fast: false })
    }

    /// Show the character instantly (no SHOWING animation).
    pub fn show_fast(&mut self) -> (id: ReqId)
        ensures
            id == ReqId(old(self)@.next_id),
            final(self)@ == (AgentView {
                queue: old(self)@.queue.push((id, Request::Show { fast: true })),
                next_id: old(self)@.next_id.wrapping_add(1),
                ..old(self)@
            }),
    {
        self.request(Request::Show { fast: true })
    }

    /// Hide the character, playing its HIDING animation.
    pub fn hide_character(&mut self) -> (id: ReqId)
        ensures
            id == ReqId(old(self)@.next_id),
            final(self)@ == (AgentView {
                queue: old(self)@.queue.push((id, Request::Hide { fast: false })),
                next_id: old(self)@.next_id.wrapping_add(1),
                ..old(self)@
            }),
    {
        self.request(Request::Hide { fast: false })
    }

    /// Hide the character instantly (no HIDING animation).
    pub fn hide_fast(&mut self) -> (id: ReqId)
        ensures
            id == ReqId(old(self)@.next_id),
            final(self)@ == (AgentView {
                queue: old(self)@.queue.push((id, Request::Hide { fast: true })),
                next_id: old(self)@.next_id.wrapping_add(1),
                ..old(self)@
            }),
    {
        self.request(Request::Hide { fast: true })
    }

    /// Queue a named gesture.
    pub fn play(&mut self, animation: &str) -> (id: ReqId)
        ensures
            id == ReqId(old(self)@.next_id),
            final(self)@.queue.len() == old(self)@.queue.len() + 1,
            final(self)@.queue.take(old(self)@.queue.len() as int) == old(self)@.queue,
            final(self)@.queue.last().0 == id,
            final(self)@.queue.last().1 matches Request::Play(n) && n@ == animation@,
            final(self)@ == (AgentView { queue: final(self)@.queue, next_id: old(self)@.next_id.wrapping_add(1), ..old(self)@ }),
    {
        let r = self.request(Request::Play(string_from_str(animation)));
        assert(self@.queue.take(old(self)@.queue.len() as int) =~= old(self)@.queue);
        r
    }

    /// Queue a gesture that loops until [`Agent::stop`] or the next queued request.
    pub fn play_looping(&mut self, animation: &str) -> (id: ReqId)
        ensures
            id == ReqId(old(self)@.next_id),
            final(self)@.queue.len() == old(self)@.queue.len() + 1,
            final(self)@.queue.take(old(self)@.queue.len() as int) == old(self)@.queue,
            final(self)@.queue.last().0 == id,
            final(self)@.queue.last().1 matches Request::PlayLoop(n) && n@ == animation@,
            final(self)@ == (AgentView { queue: final(self)@.queue, next_id: old(self)@.next_id.wrapping_add(1), ..old(self)@ }),
    {
        let r = self.request(Request::PlayLoop(string_from_str(animation)));
        assert(self@.queue.take(old(self)@.queue.len() as int) =~= old(self)@.queue);
        r
    }

    /// Queue speech.
    pub fn speak(&mut self, text: &str) -> (id: ReqId)
        ensures
            id == ReqId(old(self)@.next_id),
            final(self)@.queue.len() == old(self)@.queue.len() + 1,
            final(self)@.queue.take(old(self)@.queue.len() as int) == old(self)@.queue,
            final(self)@.queue.last().0 == id,
            final(self)@.queue.last().1 matches Request::Speak(t) && t@ == text@,
            final(self)@ == (AgentView { queue: final(self)@.queue, next_id: old(self)@.next_id.wrapping_add(1), ..old(self)@ }),
    {
        let r = self.request(Request::Speak(string_from_str(text)));
        assert(self@.queue.take(old(self)@.queue.len() as int) =~= old(self)@.queue);
        r
    }

    /// Queue a thought balloon (no audio), pacing the words silently.
    pub fn think(&mut self, text: &str) -> (id: ReqId)
        ensures
            id == ReqId(old(self)@.next_id),
            final(self)@.queue.len() == old(self)@.queue.len() + 1,
            final(self)@.queue.take(old(self)@.queue.len() as int) == old(self)@.queue,
            final(self)@.queue.last().0 == id,
            final(self)@.queue.last().1 matches Request::Think(t) && t@ == text@,
            final(self)@ == (AgentView { queue: final(self)@.queue, next_id: old(self)@.next_id.wrapping_add(1), ..old(self)@ }),
    {
        let r = self.request(Request::Think(string_from_str(text)));
        assert(self@.queue.take(old(self)@.queue.len() as int) =~= old(self)@.queue);
        r
    }

    /// Queue a move to a screen point at `speed` pixels per second.
    pub fn move_to(&mut self, x: i32, y: i32, speed: u32) -> (id: ReqId)
        ensures
            id == ReqId(old(self)@.next_id),
            final(self)@ == (AgentView {
                queue: old(self)@.queue.push((id, Request::MoveTo { x, y, speed })),
                next_id: old(self)@.next_id.wrapping_add(1),
                ..old(self)@
            }),
    {
        self.request(Request::MoveTo { x, y, speed })
    }

    /// Queue pointing toward a screen point.
    pub fn gesture_at(&mut self, x: i32, y: i32) -> (id: ReqId)
        ensures
            id == ReqId(old(self)@.next_id),
            final(self)@ == (AgentView {
                queue: old(self)@.queue.push((id, Request::GestureAt { x, y })),
                next_id: old(self)@.next_id.wrapping_add(1),
                ..old(self)@
            }),
    {
        self.request(Request::GestureAt { x, y })
    }

    /// Queue a hold of `ms` milliseconds.
    pub fn wait(&mut self, ms: u32) -> (id: ReqId)
        ensures
            id == ReqId(old(self)@.next_id),
            final(self)@ == (AgentView {
                queue: old(self)@.queue.push((id, Request::Wait(ms))),
                next_id: old(self)@.next_id.wrapping_add(1),
                ..old(self)@
            }),
    {
        self.request(Request::Wait(ms))
    }

    /// Whether the agent is paused.
    pub fn is_paused(&self) -> (r: bool)
        ensures
            r == self@.paused,
    {
        self.paused
    }

    /// Pause speech and animation, remembering the revealed-word position.
    pub fn pause(&mut self)
        ensures
            final(self)@ == (AgentView { paused: true, ..old(self)@ }),
    {
        if !self.paused {
            self.paused = true;
            self.paused_word = self.speak_shown;
        }
    }

    /// Resume after [`Agent::pause`].
    pub fn resume(&mut self)
        ensures
            final(self)@ == (AgentView { paused: false, ..old(self)@ }),
    {
        self.paused = false;
    }
}

/// The milliseconds a sequenced frame shows: its centiseconds times ten, at least one.
pub open spec fn frame_ms(cs: u16) -> u32 {
    if cs == 0 { 1 } else { (cs * 10) as u32 }
}

/// Append the frames of `seq` (of animation `anim`) to a track.
fn push_sequence(track: &mut Vec<TrackFrame>, seq: &AnimationSequence, anim: usize)
    ensures
        final(track)@.len() == old(track)@.len() + seq.frames@.len(),
        final(track)@.take(old(track)@.len() as int) == old(track)@,
        forall|k: int| 0 <= k < seq.frames@.len() ==> #[trigger] final(track)@[old(track)@.len() + k] == (TrackFrame {
            anim,
            frame: seq.frames@[k].frame,
            dur_ms: frame_ms(seq.frames@[k].duration_cs),
        }),
{
    let mut k: usize = 0;
    while k < seq.frames.len()
        invariant
            0 <= k <= seq.frames@.len(),
            track@.len() == old(track)@.len() + k,
            track@.take(old(track)@.len() as int) == old(track)@,
            forall|j: int| 0 <= j < k ==> #[trigger] track@[old(track)@.len() + j] == (TrackFrame {
                anim,
                frame: seq.frames@[j].frame,
                dur_ms: frame_ms(seq.frames@[j].duration_cs),
            }),
        decreases seq.frames@.len() - k,
    {
        let e = &seq.frames[k];
        let dur = if e.duration_cs == 0 { 1 } else { e.duration_cs as u32 * 10 };
        let ghost before = track@;
        track.push(TrackFrame { anim, frame: e.frame, dur_ms: dur });
        assert(track@.take(old(track)@.len() as int) =~= before.take(old(track)@.len() as int));
        k += 1;
    }
}

/// The total of a track's durations, saturating.
fn track_sum(track: &Vec<TrackFrame>) -> (t: u32)
    ensures
        t as int == if track_prefix(track@, track@.len()) <= u32::MAX as int {
            track_prefix(track@, track@.len())
        } else {
            u32::MAX as int
        },
{
    let mut total: u32 = 0;
    let mut i: usize = 0;
    while i < track.len()
        invariant
            0 <= i <= track@.len(),
            total as int == if track_prefix(track@, i as nat) <= u32::MAX as int {
                track_prefix(track@, i as nat)
            } else {
                u32::MAX as int
            },
        decreases track@.len() - i,
    {
        proof {
            lemma_track_prefix_nonneg(track@, i as nat);
        }
        total = total.saturating_add(track[i].dur_ms);
        i += 1;
    }
    total
}

impl Agent {
    /// The index of the gesture named `name`, ignoring ASCII case.
    fn anim_index(&self, name: &str) -> (r: Option<usize>)
        ensures
            index_named(self@.file.gesture_names, name@, 0) == match r {
                Some(i) => Some(i as int),
                None => None::<int>,
            },
    {
        let names = self.fitted.file.gesture_names_list();
        let mut i: usize = 0;
        while i < names.len()
            invariant
                0 <= i <= names@.len(),
                texts_view(names@) == self@.file.gesture_names,
                index_named(self@.file.gesture_names, name@, 0) == index_named(self@.file.gesture_names, name@, i as int),
            decreases names@.len() - i,
        {
            if str_eq_ignore_case(names[i].as_str(), name) {
                assert(self@.file.gesture_names[i as int] == names@[i as int]@);
                return Some(i);
            }
            assert(self@.file.gesture_names[i as int] == names@[i as int]@);
            i += 1;
        }
        None
    }

    /// The first animation of `state` that names a gesture.
    fn state_anim_index(&self, state: &str) -> (r: Option<usize>)
        ensures
            (match r {
                Some(i) => Some(i as int),
                None => None::<int>,
            }) == match state_names(self@.file, state@) {
                Some(ns) => first_indexed(self@.file.gesture_names, ns, 0),
                None => None::<int>,
            },
    {
        let ch = Character::new(&self.fitted.file);
        match ch.state_animations(state) {
            Some(names) => {
                let ghost ns = texts_view(names@);
                let mut i: usize = 0;
                while i < names.len()
                    invariant
                        0 <= i <= names@.len(),
                        ns == texts_view(names@),
                        state_names(self@.file, state@) == Some(ns),
                        first_indexed(self@.file.gesture_names, ns, 0)
                            == first_indexed(self@.file.gesture_names, ns, i as nat),
                    decreases names@.len() - i,
                {
                    assert(ns[i as int] == names@[i as int]@);
                    match self.anim_index(names[i].as_str()) {
                        Some(idx) => {
                            assert(first_indexed(self@.file.gesture_names, ns, i as nat) == Some(idx as int));
                            return Some(idx);
                        },
                        None => {
                            assert(first_indexed(self@.file.gesture_names, ns, i as nat)
                                == first_indexed(self@.file.gesture_names, ns, (i + 1) as nat));
                        },
                    }
                    i += 1;
                }
                assert(first_indexed(self@.file.gesture_names, ns, i as nat) == None::<int>);
                None
            },
            None => None,
        }
    }

    /// Install a track, or the rest track when it is empty.
    fn install_track(&mut self, track: Vec<TrackFrame>, loops: bool)
        ensures
            advanced(old(self)@, final(self)@),
            final(self)@.queue == old(self)@.queue,
            final(self)@.events == old(self)@.events,
            final(self)@.visible == old(self)@.visible,
            final(self)@.balloon_kind == old(self)@.balloon_kind,
            final(self)@.current == old(self)@.current,
            final(self)@.idling == old(self)@.idling,
            final(self)@.words == old(self)@.words,
            final(self)@.movement == old(self)@.movement,
            final(self)@.track_loops == loops,
    {
        if track.len() == 0 {
            self.build_rest_track();
            self.track_loops = loops;
            proof {
                lemma_advanced_same(old(self)@, self@);
            }
            return;
        }
        let total = track_sum(&track);
        self.track_total_ms = if total < 1 { 1 } else { total };
        self.track = track;
        self.track_loops = loops;
        self.track_loop_start_ms = 0;
        self.move_anim = None;
        self.move_gliding = false;
        self.track_elapsed_ms = 0;
        self.last_track_index = None;
        proof {
            lemma_advanced_same(old(self)@, self@);
        }
    }

    /// A single static frame of `RestPose` (or of the first animation), held briefly.
    fn build_rest_track(&mut self)
        ensures
            advanced(old(self)@, final(self)@),
            final(self)@.queue == old(self)@.queue,
            final(self)@.events == old(self)@.events,
            final(self)@.visible == old(self)@.visible,
            final(self)@.balloon_kind == old(self)@.balloon_kind,
            final(self)@.current == old(self)@.current,
            final(self)@.idling == old(self)@.idling,
            final(self)@.words == old(self)@.words,
            final(self)@.movement == old(self)@.movement,
    {
        let idx = match self.anim_index("RestPose") {
            Some(i) => Some(i),
            None => if self.fitted.file.animations_list().len() == 0 {
                None
            } else {
                Some(0)
            },
        };
        self.track = match idx {
            Some(anim) => vec![TrackFrame { anim, frame: 0, dur_ms: 1000 }],
            None => Vec::new(),
        };
        self.track_total_ms = 1000;
        self.track_loops = false;
        self.track_elapsed_ms = 0;
        self.last_track_index = None;
        proof {
            lemma_advanced_same(old(self)@, self@);
        }
    }

    /// Append animation `idx`'s forward walk (branches rolled) to `track`.
    fn append_forward(&mut self, track: &mut Vec<TrackFrame>, idx: usize)
        ensures
            advanced(old(self)@, final(self)@),
            final(self)@.queue == old(self)@.queue,
            final(self)@.events == old(self)@.events,
            final(self)@.visible == old(self)@.visible,
            final(self)@.balloon_kind == old(self)@.balloon_kind,
            final(self)@.current == old(self)@.current,
            final(self)@.idling == old(self)@.idling,
            final(self)@.words == old(self)@.words,
            final(self)@.movement == old(self)@.movement,
    {
        proof {
            use_type_invariant(&self.fitted);
        }
        let anims = self.fitted.file.animations_list();
        if idx < anims.len() {
            let anim = &anims[idx];
            assert(anim@ == self@.file.animations[idx as int]);
            let seq = sequence_animation(anim, &mut self.rng);
            push_sequence(track, &seq, idx);
        }
        proof {
            lemma_advanced_same(old(self)@, self@);
        }
    }

    /// Install the forward walks of `indices`, one after the other.
    fn build_track(&mut self, indices: &[usize], loops: bool)
        ensures
            advanced(old(self)@, final(self)@),
            final(self)@.queue == old(self)@.queue,
            final(self)@.events == old(self)@.events,
            final(self)@.visible == old(self)@.visible,
            final(self)@.balloon_kind == old(self)@.balloon_kind,
            final(self)@.current == old(self)@.current,
            final(self)@.idling == old(self)@.idling,
            final(self)@.words == old(self)@.words,
            final(self)@.movement == old(self)@.movement,
            final(self)@.track_loops == loops,
    {
        let mut track: Vec<TrackFrame> = Vec::new();
        let mut i: usize = 0;
        while i < indices.len()
            invariant
                0 <= i <= indices@.len(),
                self@.queue == old(self)@.queue,
                self@.events == old(self)@.events,
                self@.next_id == old(self)@.next_id,
                self@.file == old(self)@.file,
                self@.visible == old(self)@.visible,
                self@.balloon_kind == old(self)@.balloon_kind,
                self@.paused == old(self)@.paused,
                self@.current == old(self)@.current,
                self@.idling == old(self)@.idling,
                self@.words == old(self)@.words,
                self@.movement == old(self)@.movement,
            decreases indices@.len() - i,
        {
            self.append_forward(&mut track, indices[i]);
            i += 1;
        }
        self.install_track(track, loops);
        proof {
            lemma_advanced_same(old(self)@, self@);
        }
    }

    /// The track for a gesture: each part's forward walk, plus, when the part asks for
    /// exit branching (or `force_return` is set, as for idle animations), its exit walk
    /// from where the forward walk ended, so it winds back to rest.
    fn build_gesture_frames(&mut self, name: &str, force_return: bool) -> (track: Vec<TrackFrame>)
        ensures
            advanced(old(self)@, final(self)@),
            final(self)@.queue == old(self)@.queue,
            final(self)@.events == old(self)@.events,
            final(self)@.visible == old(self)@.visible,
            final(self)@.balloon_kind == old(self)@.balloon_kind,
            final(self)@.current == old(self)@.current,
            final(self)@.idling == old(self)@.idling,
            final(self)@.words == old(self)@.words,
            final(self)@.movement == old(self)@.movement,
    {
        proof {
            use_type_invariant(&self.fitted);
        }
        let mut indices: Vec<usize> = Vec::new();
        {
            let ch = Character::new(&self.fitted.file);
            let parts = ch.full_gesture(name);
            let mut k: usize = 0;
            while k < parts.len()
                invariant
                    0 <= k <= parts@.len(),
                decreases parts@.len() - k,
            {
                match self.anim_index(parts[k].name.as_str()) {
                    Some(i) => indices.push(i),
                    None => {},
                }
                k += 1;
            }
        }
        let mut track: Vec<TrackFrame> = Vec::new();
        let mut j: usize = 0;
        while j < indices.len()
            invariant
                0 <= j <= indices@.len(),
                self@.queue == old(self)@.queue,
                self@.events == old(self)@.events,
                self@.next_id == old(self)@.next_id,
                self@.file == old(self)@.file,
                self@.visible == old(self)@.visible,
                self@.balloon_kind == old(self)@.balloon_kind,
                self@.paused == old(self)@.paused,
                self@.current == old(self)@.current,
                self@.idling == old(self)@.idling,
                self@.words == old(self)@.words,
                self@.movement == old(self)@.movement,
                timelines_fit(self@.file),
            decreases indices@.len() - j,
        {
            let idx = indices[j];
            let before = track.len();
            self.append_forward(&mut track, idx);
            let anims = self.fitted.file.animations_list();
            if idx < anims.len() {
                let anim = &anims[idx];
                assert(anim@ == self@.file.animations[idx as int]);
                let wants_exit = force_return || anim.return_kind == ReturnKind::ExitBranching;
                if wants_exit && track.len() > before {
                    let last = track[track.len() - 1].frame;
                    if last < anim.frames.len() {
                        let exit_from = anim.frames[last].exit_frame;
                        if exit_from >= 0 && (exit_from as usize) < anim.frames.len() {
                            let ex = sequence_exit(anim, exit_from as usize);
                            push_sequence(&mut track, &ex, idx);
                        }
                    }
                }
            }
            j += 1;
        }
        proof {
            lemma_advanced_same(old(self)@, self@);
        }
        track
    }

    /// Install the first animation of `state` as a one-shot track; with none, a rest track
    /// that finishes on the next tick.
    fn install_phase_track(&mut self, state: &str)
        ensures
            advanced(old(self)@, final(self)@),
            final(self)@.queue == old(self)@.queue,
            final(self)@.events == old(self)@.events,
            final(self)@.visible == old(self)@.visible,
            final(self)@.balloon_kind == old(self)@.balloon_kind,
            final(self)@.current == old(self)@.current,
            final(self)@.idling == old(self)@.idling,
            final(self)@.words == old(self)@.words,
            final(self)@.movement == old(self)@.movement,
    {
        match self.state_anim_index(state) {
            Some(i) => {
                let one = [i];
                self.build_track(&one, false);
            },
            None => {
                self.build_rest_track();
                self.track_total_ms = 1;
            },
        }
        proof {
            lemma_advanced_same(old(self)@, self@);
        }
    }

    /// Play the first existing animation of a state; fall back to rest.
    fn start_state(&mut self, state: &str, loops: bool, activity: Activity)
        ensures
            advanced(old(self)@, final(self)@),
            final(self)@.queue == old(self)@.queue,
            final(self)@.events == old(self)@.events,
            final(self)@.visible == old(self)@.visible,
            final(self)@.balloon_kind == old(self)@.balloon_kind,
            final(self)@.current == old(self)@.current,
            final(self)@.idling == old(self)@.idling,
            final(self)@.words == old(self)@.words,
            final(self)@.movement == old(self)@.movement,
            final(self)@.activity == activity,
            final(self)@.track_loops == loops,
    {
        match self.state_anim_index(state) {
            Some(i) => {
                let one = [i];
                self.build_track(&one, loops);
            },
            None => {
                self.build_rest_track();
                self.track_loops = loops;
            },
        }
        self.activity = activity;
        proof {
            lemma_advanced_same(old(self)@, self@);
        }
    }

    /// Index into the track of the entry showing now.
    fn current_track_index(&self) -> (r: Option<usize>)
        ensures
            r is None <==> self@.track.len() == 0,
            r matches Some(i) ==> i < self@.track.len() && i == track_entry(self@.track, track_time(self@), 0),
    {
        if self.track.len() == 0 {
            return None;
        }
        let total = self.track_total_ms;
        let e = self.track_elapsed_ms;
        let last = if total >= 1 { total - 1 } else { 0 };
        let t: u32 = if self.track_loops {
            if e < total {
                e
            } else {
                let ls = if self.track_loop_start_ms < last { self.track_loop_start_ms } else { last };
                let len = if total - ls >= 1 { total - ls } else { 1 };
                ls + (e - ls) % len
            }
        } else {
            if e < last { e } else { last }
        };
        assert(t == track_time(self@));
        let n = self.track.len();
        let mut acc: u128 = 0;
        let mut i: usize = 0;
        while i + 1 < n
            invariant
                n == self@.track.len(),
                0 <= i < n,
                acc == track_prefix(self@.track, i as nat),
                acc <= i * 0xFFFF_FFFFu128,
                t == track_time(self@),
                track_entry(self@.track, t as int, 0) == track_entry(self@.track, t as int, i as nat),
            decreases n - i,
        {
            acc = acc + self.track[i].dur_ms as u128;
            assert(acc == track_prefix(self@.track, (i + 1) as nat));
            if (t as u128) < acc {
                assert(track_entry(self@.track, t as int, i as nat) == i);
                return Some(i);
            }
            i += 1;
        }
        assert(track_entry(self@.track, t as int, i as nat) == n - 1);
        Some(n - 1)
    }
}

/// Whether bookmarks are ordered by the word they wait for.
pub open spec fn by_threshold(v: Seq<(i64, usize)>) -> bool {
    forall|i: int, j: int| 0 <= i < j < v.len() ==> v[i].1 <= v[j].1
}

/// Sort bookmarks by threshold, keeping the order of equal ones (insertion sort).
fn sort_by_threshold(v: &mut Vec<(i64, usize)>)
    ensures
        by_threshold(final(v)@),
        final(v)@.to_multiset() == old(v)@.to_multiset(),
{
    broadcast use vstd::seq_lib::group_to_multiset_ensures;

    let n = v.len();
    let mut i: usize = 1;
    while i < n
        invariant
            n == v@.len(),
            1 <= i || n == 0,
            v@.to_multiset() == old(v)@.to_multiset(),
            forall|a: int, b: int| 0 <= a < b < i && b < n ==> v@[a].1 <= v@[b].1,
        decreases n - i,
    {
        let mut j = i;
        while j > 0 && v[j - 1].1 > v[j].1
            invariant
                0 <= j <= i < n,
                n == v@.len(),
                v@.to_multiset() == old(v)@.to_multiset(),
                forall|a: int, b: int| 0 <= a < b <= i && a != j && b != j ==> v@[a].1 <= v@[b].1,
                forall|b: int| j < b <= i ==> v@[j as int].1 < v@[b].1,
            decreases j,
        {
            let x = v[j - 1];
            let y = v[j];
            let ghost before = v@;
            v.set(j - 1, y);
            v.set(j, x);
            proof {
                let mid = before.update(j - 1, y);
                assert(v@ == mid.update(j as int, x));
                vstd::seq_lib::to_multiset_update(before, j - 1, y);
                vstd::seq_lib::to_multiset_update(mid, j as int, x);
                assert(mid[j as int] == y);
                assert(before[j - 1] == x);
                vstd::seq_lib::to_multiset_contains(before, x);
                assert(before.to_multiset().count(x) > 0);
                assert(before.to_multiset().insert(y).remove(x).insert(x).remove(y) =~= before.to_multiset());
            }
            j -= 1;
        }
        i += 1;
    }
}

impl Agent {
    /// Dismiss the balloon (if any), stopping any parallel reveal.
    fn clear_balloon(&mut self)
        ensures
            final(self)@ == (AgentView {
                balloon_kind: None,
                balloon_done: if old(self)@.balloon_kind is Some { false } else { old(self)@.balloon_done },
                events: if old(self)@.balloon_kind is Some {
                    old(self)@.events.push(Event::BalloonHidden)
                } else {
                    old(self)@.events
                },
                ..old(self)@
            }),
            advanced(old(self)@, final(self)@),
    {
        self.speaking_overlay = false;
        if self.balloon_kind.is_some() {
            self.balloon_kind = None;
            self.balloon_done = false;
            self.balloon_hold_ms = 0;
            self.emit(Event::BalloonHidden);
            proof {
                lemma_advanced_emit(old(self)@, self@, Event::BalloonHidden);
            }
        } else {
            proof {
                lemma_advanced_same(old(self)@, self@);
            }
        }
    }

    /// Dismiss the balloon now (if any), raising [`Event::BalloonHidden`].
    pub fn hide_balloon(&mut self)
        ensures
            final(self)@ == (AgentView {
                balloon_kind: None,
                balloon_done: if old(self)@.balloon_kind is Some { false } else { old(self)@.balloon_done },
                events: if old(self)@.balloon_kind is Some {
                    old(self)@.events.push(Event::BalloonHidden)
                } else {
                    old(self)@.events
                },
                ..old(self)@
            }),
    {
        self.clear_balloon();
    }

    fn set_visible(&mut self, v: bool)
        ensures
            advanced(old(self)@, final(self)@),
            final(self)@.queue == old(self)@.queue,
            final(self)@.visible == v,
            final(self)@.current == old(self)@.current,
            final(self)@.idling == old(self)@.idling,
            final(self)@.activity == old(self)@.activity,
            final(self)@.movement == old(self)@.movement,
            v == old(self)@.visible ==> final(self)@ == old(self)@,
            v && !old(self)@.visible ==> final(self)@.events == old(self)@.events.push(Event::Shown),
    {
        if v != self.visible {
            self.visible = v;
            self.emit(if v { Event::Shown } else { Event::Hidden });
            let ghost mid = self@;
            proof {
                lemma_advanced_emit(old(self)@, mid, if v { Event::Shown } else { Event::Hidden });
            }
            if !v {
                self.clear_balloon();
                proof {
                    lemma_advanced_trans(old(self)@, mid, self@);
                }
            }
        } else {
            proof {
                lemma_advanced_same(old(self)@, self@);
            }
        }
    }

    /// Set up the balloon for a new phrase (replacing any lingering one).
    fn begin_balloon(&mut self, kind: BalloonKind, words: Vec<String>, bookmarks: Vec<(i64, usize)>)
        ensures
            advanced(old(self)@, final(self)@),
            final(self)@ == (AgentView {
                balloon_kind: Some(kind),
                balloon_done: false,
                words: lines_view(words@),
                shown: if old(self)@.style.auto_pace { 0 } else { words@.len() as usize },
                events: balloon_events(old(self)@),
                ..old(self)@
            }),
    {
        self.clear_balloon();
        let ghost mid = self@;
        self.speak_words = words;
        self.speak_shown = if self.style.auto_pace { 0 } else { self.speak_words.len() };
        self.pending_bookmarks = bookmarks;
        sort_by_threshold(&mut self.pending_bookmarks);
        self.balloon_kind = Some(kind);
        self.balloon_done = false;
        self.balloon_hold_ms = 0;
        let ghost mid2 = self@;
        self.emit(Event::BalloonShown);
        proof {
            lemma_advanced_same(mid, mid2);
            lemma_advanced_emit(mid2, self@, Event::BalloonShown);
            lemma_advanced_trans(mid, mid2, self@);
            lemma_advanced_trans(old(self)@, mid, self@);
        }
    }

    /// Raise the pending bookmarks whose word the reveal has reached.
    fn fire_bookmarks(&mut self)
        ensures
            advanced(old(self)@, final(self)@),
            final(self)@.queue == old(self)@.queue,
            final(self)@.visible == old(self)@.visible,
            same_play(old(self)@, final(self)@),
    {
        proof {
            lemma_advanced_same(old(self)@, self@);
        }
        while self.pending_bookmarks.len() > 0
            invariant
                advanced(old(self)@, self@),
                self@.queue == old(self)@.queue,
                self@.visible == old(self)@.visible,
                same_play(old(self)@, self@),
            decreases self.pending_bookmarks@.len(),
        {
            let (id, threshold) = self.pending_bookmarks[0];
            if threshold > self.speak_shown {
                break;
            }
            self.pending_bookmarks.remove(0);
            let ghost mid = self@;
            self.events.push(Event::Bookmark(id));
            proof {
                lemma_advanced_emit(mid, self@, Event::Bookmark(id));
                lemma_advanced_trans(old(self)@, mid, self@);
            }
        }
    }

    /// Count down an auto-hiding balloon and clear it when the linger expires.
    fn tick_balloon(&mut self, dt_ms: u32)
        ensures
            advanced(old(self)@, final(self)@),
            final(self)@.queue == old(self)@.queue,
            final(self)@.visible == old(self)@.visible,
            same_play(old(self)@, final(self)@),
    {
        if self.balloon_kind.is_some() && self.balloon_done && self.balloon_hold_ms != u32::MAX {
            self.balloon_hold_ms = self.balloon_hold_ms.saturating_sub(dt_ms);
            let ghost mid = self@;
            if self.balloon_hold_ms == 0 {
                self.clear_balloon();
            }
            proof {
                lemma_advanced_same(old(self)@, mid);
                lemma_advanced_trans(old(self)@, mid, self@);
            }
        } else {
            proof {
                lemma_advanced_same(old(self)@, self@);
            }
        }
    }

    /// Poll the voice (or the silent think timer), reveal words and fire bookmarks.
    /// `true` on the tick the speech finishes.
    fn poll_speech(&mut self, dt_ms: u32, think: bool) -> (done: bool)
        ensures
            advanced(old(self)@, final(self)@),
            final(self)@.queue == old(self)@.queue,
            final(self)@.visible == old(self)@.visible,
            same_play(old(self)@, final(self)@),
    {
        let events = if think {
            self.think_timer.poll(dt_ms)
        } else {
            self.tts.poll(dt_ms)
        };
        proof {
            lemma_advanced_same(old(self)@, self@);
        }
        let mut k: usize = 0;
        while k < events.len()
            invariant
                0 <= k <= events@.len(),
                advanced(old(self)@, self@),
                self@.queue == old(self)@.queue,
                self@.visible == old(self)@.visible,
                same_play(old(self)@, self@),
            decreases events@.len() - k,
        {
            match events[k] {
                VoiceEvent::WordStarted(i) => {
                    if self.style.auto_pace {
                        self.speak_shown = i.saturating_add(1);
                        let ghost mid = self@;
                        self.fire_bookmarks();
                        proof {
                            lemma_advanced_trans(old(self)@, mid, self@);
                        }
                    }
                },
                VoiceEvent::Mouth(m) => {
                    if !think {
                        self.speak_mouth = Some(m);
                    }
                },
                _ => {},
            }
            k += 1;
        }
        let done = if think {
            !self.think_timer.is_speaking()
        } else {
            !self.tts.is_speaking()
        };
        if done {
            self.speak_mouth = None;
            self.speak_shown = self.speak_words.len();
            let ghost mid = self@;
            self.fire_bookmarks();
            self.balloon_done = true;
            self.balloon_hold_ms = if self.style.auto_hide { AUTO_HIDE_MS } else { u32::MAX };
            let ghost mid2 = self@;
            proof {
                lemma_advanced_trans(old(self)@, mid, mid2);
            }
            if !think {
                self.emit(Event::SpeechEnded);
                proof {
                    lemma_advanced_emit(mid2, self@, Event::SpeechEnded);
                    lemma_advanced_trans(old(self)@, mid2, self@);
                }
            }
        }
        done
    }

    /// Start a parallel balloon over the current animation: set up the balloon and a
    /// speech (or think) timer without queuing or changing the activity.
    fn begin_overlay_speech(&mut self, text: &str, think: bool)
        ensures
            advanced(old(self)@, final(self)@),
            final(self)@ == overlay_started(old(self)@, text@, think),
    {
        let parsed = parse_speech(text);
        let spoken = parsed.spoken_text();
        self.speak_mouth = None;
        let kind = if think { BalloonKind::Think } else { BalloonKind::Speak };
        let ghost mid = self@;
        self.begin_balloon(kind, parsed.display_words, parsed.bookmark_at);
        let words = if self.speak_words.len() < 1 { 1 } else { self.speak_words.len() };
        proof {
            lemma_advanced_same(old(self)@, mid);
            lemma_advanced_trans(old(self)@, mid, self@);
        }
        if think {
            self.think_timer.speak("", words);
        } else {
            self.tts.speak(spoken.as_str(), words);
            let ghost mid2 = self@;
            self.emit(Event::SpeechStarted);
            proof {
                lemma_advanced_emit(mid2, self@, Event::SpeechStarted);
                lemma_advanced_trans(old(self)@, mid2, self@);
            }
        }
        self.overlay_think = think;
        self.speaking_overlay = true;
    }

    /// Show a speech balloon that reveals over the current animation without taking a
    /// queue slot, so the character keeps whatever it is playing while it talks. It
    /// replaces any current balloon and auto-hides per the character's style.
    pub fn say_over(&mut self, text: &str)
        ensures
            final(self)@ == overlay_started(old(self)@, text@, false),
    {
        self.begin_overlay_speech(text, false);
    }

    /// Like [`Agent::say_over`] but a silent thought balloon.
    pub fn think_over(&mut self, text: &str)
        ensures
            final(self)@ == overlay_started(old(self)@, text@, true),
    {
        self.begin_overlay_speech(text, true);
    }

    /// Stand at rest for a randomized pause (1.5 to 4.5 s) before the next idle animation.
    fn start_idle_rest(&mut self)
        ensures
            advanced(old(self)@, final(self)@),
            keeps_requests(old(self)@, final(self)@),
            final(self)@.activity == Activity::IdleRest,
    {
        self.build_rest_track();
        let r = self.rng.next_u64();
        self.track_total_ms = 1500 + (r % 3000) as u32;
        self.track_elapsed_ms = 0;
        self.activity = Activity::IdleRest;
        proof {
            lemma_advanced_same(old(self)@, self@);
        }
    }

    /// The next idle animation's name, from the idle director.
    #[verifier::spinoff_prover]
    fn pick_idle(&mut self) -> (r: Option<String>)
        ensures
            final(self)@ == old(self)@,
    {
        let ch = Character::new(&self.fitted.file);
        self.idle.next_idle(&ch, &mut self.rng)
    }

    /// Play one idle animation, with its exit so it ends back at rest.
    fn start_idle_animation(&mut self)
        ensures
            advanced(old(self)@, final(self)@),
            keeps_requests(old(self)@, final(self)@),
            final(self)@.activity == Activity::Idle,
    {
        let name = self.pick_idle();
        match name {
            Some(n) => {
                let frames = self.build_gesture_frames(n.as_str(), true);
                self.install_track(frames, false);
            },
            None => self.build_rest_track(),
        }
        self.activity = Activity::Idle;
        proof {
            lemma_advanced_same(old(self)@, self@);
        }
    }

    /// The direction from the character's center toward a screen point.
    fn direction_to(&self, x: i32, y: i32) -> (d: Direction)
        ensures
            d == toward_spec(
                x - (self@.position.0 + self@.file.header.image_size.0 / 2),
                y - (self@.position.1 + self@.file.header.image_size.1 / 2),
            ),
    {
        let w = self.fitted.file.file_header().image_size.0 as i64;
        let h = self.fitted.file.file_header().image_size.1 as i64;
        let cx = self.position.0 as i64 + w / 2;
        let cy = self.position.1 as i64 + h / 2;
        toward_wide(x as i64 - cx, y as i64 - cy)
    }

    /// Travel with moving animation `i`: a walk when it loops, a flight otherwise.
    #[verifier::rlimit(30)]
    fn start_move_anim(&mut self, i: usize)
        ensures
            advanced(old(self)@, final(self)@),
            final(self)@.queue == old(self)@.queue,
            final(self)@.visible == old(self)@.visible,
            final(self)@.balloon_kind == old(self)@.balloon_kind,
            final(self)@.current == old(self)@.current,
            final(self)@.idling == old(self)@.idling,
            final(self)@.movement.start == old(self)@.movement.start,
            final(self)@.movement.dest == old(self)@.movement.dest,
    {
        proof {
            use_type_invariant(&self.fitted);
        }
        let anims = self.fitted.file.animations_list();
        let mut track: Vec<TrackFrame> = Vec::new();
        let mut loop_start: Option<u32> = None;
        if i < anims.len() {
            let anim = &anims[i];
            assert(anim@ == self@.file.animations[i as int]);
            let seq = sequence_animation(anim, &mut self.rng);
            push_sequence(&mut track, &seq, i);
            loop_start = match seq.loop_start_cs {
                Some(cs) => Some(if cs > u32::MAX / 10 { u32::MAX } else { cs * 10 }),
                None => None,
            };
        }
        let walk = loop_start.is_some();
        self.install_track(track, walk);
        self.track_loop_start_ms = match loop_start {
            Some(ms) => ms,
            None => 0,
        };
        self.move_anim = Some(i);
        if walk {
            self.move_gliding = true;
        } else {
            self.move_gliding = false;
            let d = self.movement.duration_ms();
            let zip = if d < ZIP_MAX_MS { d } else { ZIP_MAX_MS };
            self.movement.retime(zip);
        }
        proof {
            lemma_advanced_same(old(self)@, self@);
        }
    }

    /// Start a `MOVING*` state for travel. A walk (looping animation) glides from the
    /// start; a flight (finite animation) plays in place first and then zips to the
    /// destination within a capped time. With no moving animation, teleport: vanish, jump,
    /// reappear. The landing plays on arrival.
    #[verifier::spinoff_prover]
    #[verifier::rlimit(60)]
    fn start_move(&mut self, state: &str)
        ensures
            advanced(old(self)@, final(self)@),
            final(self)@.queue == old(self)@.queue,
            final(self)@.visible == old(self)@.visible,
            final(self)@.current == old(self)@.current,
            final(self)@.idling == old(self)@.idling,
            final(self)@.movement.start == old(self)@.movement.start,
            final(self)@.movement.dest == old(self)@.movement.dest,
            final(self)@.activity == Activity::Move,
    {
        proof {
            use_type_invariant(&self.fitted);
        }
        self.move_teleport = false;
        match self.state_anim_index(state) {
            Some(i) => self.start_move_anim(i),
            None => {
                self.move_teleport = true;
                self.move_teleport_appearing = false;
                self.move_gliding = false;
                self.install_phase_track("HIDING");
            },
        }
        let ghost mid = self@;
        self.activity = Activity::Move;
        proof {
            lemma_advanced_same(mid, self@);
            lemma_advanced_trans(old(self)@, mid, self@);
        }
    }
}

/// Taking the front request and raising its start moves on.
proof fn lemma_advanced_pop(a: AgentView, b: AgentView, id: ReqId)
    requires
        a.queue.len() > 0,
        a.queue[0].0 == id,
        b.queue == a.queue.skip(1),
        b.events == a.events.push(Event::RequestStarted(id)),
        a.next_id == b.next_id,
        a.file == b.file,
        a.paused == b.paused,
    ensures
        advanced(a, b),
{
    assert(b.events.drop_last() =~= a.events);
    assert(queue_ids(a.queue.take(1)) =~= seq![id]);
    assert(started_ids(b.events) == started_ids(a.events).push(id));
    assert(started_ids(a.events).push(id) =~= started_ids(a.events) + seq![id]);
    assert(b.events.take(a.events.len() as int) =~= a.events);
    assert(a.queue.len() - b.queue.len() == 1);
}

/// The agent once its running request (if any) is reported completed.
pub open spec fn finished(v: AgentView) -> AgentView {
    AgentView {
        current: None,
        events: match v.current {
            Some(id) => v.events.push(Event::RequestCompleted(id)),
            None => v.events,
        },
        ..v
    }
}

/// The agent once it has taken the front request of a non-empty queue: idling ends, and
/// the request starts and becomes the running one.
pub open spec fn popped(v: AgentView) -> AgentView {
    AgentView {
        queue: v.queue.skip(1),
        current: Some(v.queue[0].0),
        idling: false,
        events: (if v.idling {
            v.events.push(Event::IdleEnded)
        } else {
            v.events
        }).push(Event::RequestStarted(v.queue[0].0)),
        ..v
    }
}

/// `b` has the same queue, events, running request, idling and visibility as `a`.
pub open spec fn keeps_requests(a: AgentView, b: AgentView) -> bool {
    &&& b.queue == a.queue
    &&& b.events == a.events
    &&& b.current == a.current
    &&& b.idling == a.idling
    &&& b.visible == a.visible
}

/// How `a` finishes its running request with nothing queued, ending as `b`: the request
/// is completed; a visible agent goes idle, raising `IdleStarted` unless it already was
/// idling; a hidden one rests hidden.
pub open spec fn drained(a: AgentView, b: AgentView) -> bool {
    &&& b.queue == a.queue
    &&& b.current is None
    &&& b.visible == a.visible
    &&& b.events == drain_events_of(a)
    &&& a.visible ==> b.idle && b.idling
    &&& !a.visible ==> b.activity == Activity::Hidden && b.idling == a.idling
}

/// The frame held by a wait of `ms`: the entry showing now, held for `ms` (at least 1).
pub open spec fn held_track(a: AgentView, ms: u32) -> Seq<TrackFrame> {
    match current_entry(a) {
        Some(f) => seq![TrackFrame { anim: f.anim, frame: f.frame, dur_ms: if ms < 1 { 1 } else { ms } }],
        None => Seq::empty(),
    }
}

/// What starting `req` (already taken from the queue and running in `a`) leaves in `b`.
/// A request that carries on at once (a fast show or hide) completes and hands over to
/// what follows; with nothing queued that is idling (shown) or resting hidden.
pub open spec fn begun(a: AgentView, b: AgentView, req: Request) -> bool {
    let kept = b.current == a.current && b.idling == a.idling;
    match req {
        Request::Show { fast } => if fast {
            a.queue.len() == 0 ==> b.visible && b.idle && b.current is None
        } else {
            kept && b.visible && b.activity == Activity::Gesture
        },
        Request::Hide { fast } => if fast {
            a.queue.len() == 0 ==> !b.visible && b.activity == Activity::Hidden && b.current is None
        } else {
            kept && b.visible == a.visible && b.activity == Activity::Hiding
        },
        Request::Play(_) => kept && b.visible == a.visible && b.activity == Activity::Gesture,
        Request::GestureAt { .. } => kept && b.visible == a.visible && b.activity == Activity::Gesture,
        Request::PlayLoop(_) => kept && b.visible == a.visible && b.activity == Activity::Gesture
            && b.track_loops,
        Request::MoveTo { x, y, .. } => kept && b.visible == a.visible && b.activity == Activity::Move
            && b.movement.start == a.position && b.movement.dest == (x, y),
        Request::Speak(text) => kept && b.visible == a.visible && b.activity == Activity::Speak
            && b.balloon_kind == Some(BalloonKind::Speak) && b.words == spec_parse_speech(text@).display,
        Request::Think(text) => kept && b.visible == a.visible && b.activity == Activity::Think
            && b.balloon_kind == Some(BalloonKind::Think) && b.words == spec_parse_speech(text@).display,
        Request::Wait(ms) => kept && b.visible == a.visible && b.activity == Activity::Wait
            && b.track == held_track(a, ms) && b.track_elapsed_ms == 0 && !b.track_loops,
    }
}

/// `b` plays on exactly as `a`: the same activity, running request, idling, visibility
/// and track, at the same point of it.
pub open spec fn same_play(a: AgentView, b: AgentView) -> bool {
    &&& b.activity == a.activity
    &&& b.current == a.current
    &&& b.idling == a.idling
    &&& b.visible == a.visible
    &&& b.track == a.track
    &&& b.track_total_ms == a.track_total_ms
    &&& b.track_loops == a.track_loops
    &&& b.track_loop_start_ms == a.track_loop_start_ms
    &&& b.track_elapsed_ms == a.track_elapsed_ms
}

/// Whether an agent that is not paused starts its front request now: it has one and is
/// idle, resting, hidden, or looping a gesture.
pub open spec fn starts_next(v: AgentView) -> bool {
    v.queue.len() > 0 && (v.activity == Activity::Idle || v.activity == Activity::IdleRest
        || v.activity == Activity::Hidden || (v.activity == Activity::Gesture && v.track_loops))
}

/// The track's clock after `dt` more milliseconds (saturating).
pub open spec fn ticked(v: AgentView, dt: u32) -> AgentView {
    AgentView {
        track_elapsed_ms: if v.track_elapsed_ms + dt > u32::MAX {
            u32::MAX
        } else {
            (v.track_elapsed_ms + dt) as u32
        },
        ..v
    }
}

/// Whether the activity plays on through the next `dt` milliseconds: hidden, or an
/// animation, rest or wait that loops or whose time is not up yet.
pub open spec fn plays_on(v: AgentView, dt: u32) -> bool {
    let t = ticked(v, dt);
    ||| v.activity == Activity::Hidden
    ||| (v.activity == Activity::Wait || v.activity == Activity::IdleRest) && t.track_elapsed_ms
        < t.track_total_ms
    ||| (v.activity == Activity::Idle || v.activity == Activity::Gesture || v.activity
        == Activity::Hiding) && (v.track_loops || t.track_elapsed_ms < t.track_total_ms)
}

/// Whether a wait or a one-shot gesture runs out within the next `dt` milliseconds.
pub open spec fn ends_now(v: AgentView, dt: u32) -> bool {
    let t = ticked(v, dt);
    &&& (v.activity == Activity::Wait || (v.activity == Activity::Gesture && !v.track_loops))
    &&& t.track_elapsed_ms >= t.track_total_ms
}

/// The events once the running request completes with nothing queued: its completion,
/// then `IdleStarted` when a visible agent was not idling yet.
pub open spec fn drain_events_of(a: AgentView) -> Seq<Event> {
    if a.visible && !a.idling {
        finished(a).events.push(Event::IdleStarted)
    } else {
        finished(a).events
    }
}

/// Appended events keep a prefix in place.
proof fn lemma_extend_advanced(p: AgentView, b: AgentView, c: AgentView)
    requires
        events_extend(p, b),
        advanced(b, c),
    ensures
        events_extend(p, c),
{
    assert(c.events.take(p.events.len() as int) =~= c.events.take(b.events.len() as int).take(
        p.events.len() as int,
    ));
}

/// `b`'s events begin with all of `a`'s.
pub open spec fn events_extend(a: AgentView, b: AgentView) -> bool {
    a.events.len() <= b.events.len() && b.events.take(a.events.len() as int) == a.events
}

/// Completion events for the given requests, in order.
pub open spec fn completions(ids: Seq<ReqId>) -> Seq<Event> {
    ids.map_values(|id: ReqId| Event::RequestCompleted(id))
}

impl Agent {
    /// The indices of a gesture's parts (base, continued, return) that name animations.
    fn gesture_indices(&self, name: &str) -> (v: Vec<usize>)
        ensures
            v@.map_values(|i: usize| i as int)
                == part_indices(self@.file.gesture_names, gesture_parts(self@.file, name@)),
    {
        let mut indices: Vec<usize> = Vec::new();
        let ch = Character::new(&self.fitted.file);
        let parts = ch.full_gesture(name);
        let ghost pv = anim_refs_view(parts@);
        let ghost g = self@.file.gesture_names;
        let mut k: usize = 0;
        while k < parts.len()
            invariant
                0 <= k <= parts@.len(),
                pv == anim_refs_view(parts@),
                g == self@.file.gesture_names,
                indices@.map_values(|i: usize| i as int) == part_indices(g, pv.take(k as int)),
            decreases parts@.len() - k,
        {
            assert(pv.take(k as int + 1).drop_last() =~= pv.take(k as int));
            assert(pv.take(k as int + 1).last() == pv[k as int]);
            assert(pv[k as int].name == parts@[k as int].name@);
            match self.anim_index(parts[k].name.as_str()) {
                Some(i) => {
                    let ghost before = indices@;
                    indices.push(i);
                    assert(indices@.map_values(|i: usize| i as int)
                        =~= before.map_values(|i: usize| i as int).push(i as int));
                },
                None => {},
            }
            k += 1;
        }
        assert(pv.take(parts@.len() as int) =~= pv);
        indices
    }

    /// Loop a gesture: a single animation honors its own loop point (its intro plays once,
    /// then only the looping body repeats); several parts loop their concatenated walks.
    #[verifier::rlimit(30)]
    fn start_loop(&mut self, name: &str)
        ensures
            advanced(old(self)@, final(self)@),
            final(self)@.queue == old(self)@.queue,
            final(self)@.visible == old(self)@.visible,
            final(self)@.current == old(self)@.current,
            final(self)@.idling == old(self)@.idling,
            final(self)@.activity == Activity::Gesture,
            final(self)@.track_loops,
    {
        proof {
            use_type_invariant(&self.fitted);
        }
        let indices = self.gesture_indices(name);
        let anims = self.fitted.file.animations_list();
        if indices.len() == 1 && indices[0] < anims.len() {
            let idx = indices[0];
            let anim = &anims[idx];
            assert(anim@ == self@.file.animations[idx as int]);
            let seq = sequence_animation(anim, &mut self.rng);
            let mut track: Vec<TrackFrame> = Vec::new();
            push_sequence(&mut track, &seq, idx);
            let loop_start = match seq.loop_start_cs {
                Some(cs) => if cs > u32::MAX / 10 { u32::MAX } else { cs * 10 },
                None => 0,
            };
            self.install_track(track, true);
            self.track_loop_start_ms = loop_start;
        } else {
            self.build_track(indices.as_slice(), true);
        }
        let ghost mid = self@;
        self.activity = Activity::Gesture;
        proof {
            lemma_advanced_same(mid, self@);
            lemma_advanced_trans(old(self)@, mid, self@);
        }
    }

    /// Begin speaking or thinking `text` as the current activity.
    #[verifier::rlimit(30)]
    fn start_speech(&mut self, text: &str, think: bool)
        ensures
            advanced(old(self)@, final(self)@),
            final(self)@.queue == old(self)@.queue,
            final(self)@.visible == old(self)@.visible,
            final(self)@.current == old(self)@.current,
            final(self)@.idling == old(self)@.idling,
            final(self)@.words == spec_parse_speech(text@).display,
            final(self)@.balloon_kind == Some(if think { BalloonKind::Think } else { BalloonKind::Speak }),
            final(self)@.activity == if think { Activity::Think } else { Activity::Speak },
    {
        let parsed = parse_speech(text);
        let spoken = parsed.spoken_text();
        self.speak_mouth = None;
        let ghost a0 = self@;
        let kind = if think { BalloonKind::Think } else { BalloonKind::Speak };
        self.begin_balloon(kind, parsed.display_words, parsed.bookmark_at);
        let words = if self.speak_words.len() < 1 { 1 } else { self.speak_words.len() };
        let ghost a1 = self@;
        proof {
            lemma_advanced_same(old(self)@, a0);
            lemma_advanced_trans(old(self)@, a0, a1);
        }
        if think {
            self.think_timer.speak("", words);
            self.build_rest_track();
            self.track_loops = true;
            let ghost a2 = self@;
            self.activity = Activity::Think;
            proof {
                lemma_advanced_same(a2, self@);
                lemma_advanced_trans(a1, a2, self@);
                lemma_advanced_trans(old(self)@, a1, self@);
            }
        } else {
            self.tts.speak(spoken.as_str(), words);
            self.emit(Event::SpeechStarted);
            let ghost a2 = self@;
            proof {
                lemma_advanced_emit(a1, a2, Event::SpeechStarted);
            }
            self.start_state("SPEAKING", true, Activity::Speak);
            proof {
                lemma_advanced_trans(a1, a2, self@);
                lemma_advanced_trans(old(self)@, a1, self@);
            }
        }
    }

    /// Hold the current frame for `ms`: the track shrinks to that one frame, so the old
    /// timeline is not replayed over the wait.
    fn start_wait(&mut self, ms: u32)
        ensures
            advanced(old(self)@, final(self)@),
            final(self)@.queue == old(self)@.queue,
            final(self)@.visible == old(self)@.visible,
            final(self)@.current == old(self)@.current,
            final(self)@.idling == old(self)@.idling,
            final(self)@.activity == Activity::Wait,
            final(self)@.track == held_track(old(self)@, ms),
            final(self)@.track_total_ms == if ms < 1 { 1 } else { ms },
            final(self)@.track_elapsed_ms == 0,
            !final(self)@.track_loops,
    {
        let dur = if ms < 1 { 1 } else { ms };
        let held = match self.current_track_index() {
            Some(i) => {
                let f = self.track[i];
                Some(TrackFrame { anim: f.anim, frame: f.frame, dur_ms: dur })
            },
            None => None,
        };
        self.track = match held {
            Some(f) => vec![f],
            None => Vec::new(),
        };
        self.track_loops = false;
        self.track_loop_start_ms = 0;
        self.track_total_ms = dur;
        self.track_elapsed_ms = 0;
        self.last_track_index = None;
        self.activity = Activity::Wait;
        proof {
            lemma_advanced_same(old(self)@, self@);
        }
    }

    /// Report the current request (if any) as completed.
    fn finish_current(&mut self)
        ensures
            advanced(old(self)@, final(self)@),
            final(self)@ == finished(old(self)@),
    {
        match self.current_req {
            Some(id) => {
                self.current_req = None;
                self.emit(Event::RequestCompleted(id));
                proof {
                    lemma_advanced_emit(old(self)@, self@, Event::RequestCompleted(id));
                }
            },
            None => {
                proof {
                    lemma_advanced_same(old(self)@, self@);
                }
            },
        }
    }

    /// Take the front request, if any, ending idling and raising its start.
    fn pop_request(&mut self) -> (r: Option<Request>)
        ensures
            advanced(old(self)@, final(self)@),
            old(self)@.queue.len() > 0 ==> r == Some(old(self)@.queue[0].1)
                && final(self)@ == popped(old(self)@),
            old(self)@.queue.len() == 0 ==> r is None && final(self)@ == old(self)@,
    {
        if self.queue.len() == 0 {
            proof {
                lemma_advanced_same(old(self)@, self@);
            }
            return None;
        }
        if self.idle_active {
            self.idle_active = false;
            self.emit(Event::IdleEnded);
            proof {
                lemma_advanced_emit(old(self)@, self@, Event::IdleEnded);
            }
        } else {
            proof {
                lemma_advanced_same(old(self)@, self@);
            }
        }
        let ghost a1 = self@;
        let (id, req) = self.queue.remove(0);
        self.current_req = Some(id);
        self.events.push(Event::RequestStarted(id));
        proof {
            assert(self@.queue =~= a1.queue.skip(1));
            lemma_advanced_pop(a1, self@, id);
            lemma_advanced_trans(old(self)@, a1, self@);
        }
        Some(req)
    }

    /// Finish the current request and start the next one, or idle (when visible), or rest
    /// hidden.
    fn next(&mut self)
        ensures
            advanced(old(self)@, final(self)@),
            old(self)@.queue.len() > 0 ==> events_extend(popped(finished(old(self)@)), final(self)@),
            old(self)@.queue.len() == 0 ==> drained(old(self)@, final(self)@),
        decreases 2 * old(self).queue@.len() + 1,
    {
        self.finish_current();
        let ghost a1 = self@;
        match self.pop_request() {
            Some(req) => {
                let ghost a2 = self@;
                self.start(req);
                proof {
                    lemma_advanced_trans(a1, a2, self@);
                    lemma_advanced_trans(old(self)@, a1, self@);
                }
            },
            None => {
                let ghost a2 = self@;
                if self.visible {
                    if !self.idle_active {
                        self.idle_active = true;
                        self.emit(Event::IdleStarted);
                        proof {
                            lemma_advanced_emit(a2, self@, Event::IdleStarted);
                        }
                    } else {
                        proof {
                            lemma_advanced_same(a2, self@);
                        }
                    }
                    let ghost a3 = self@;
                    if self.activity == Activity::IdleRest {
                        self.start_idle_animation();
                    } else {
                        self.start_idle_rest();
                    }
                    proof {
                        lemma_advanced_trans(a2, a3, self@);
                    }
                } else {
                    self.activity = Activity::Hidden;
                    proof {
                        lemma_advanced_same(a2, self@);
                    }
                }
                proof {
                    lemma_advanced_trans(a1, a2, self@);
                    lemma_advanced_trans(old(self)@, a1, self@);
                }
            },
        }
    }

    /// Play a gesture once.
    fn start_play(&mut self, name: &str)
        ensures
            advanced(old(self)@, final(self)@),
            final(self)@.queue == old(self)@.queue,
            final(self)@.current == old(self)@.current,
            final(self)@.idling == old(self)@.idling,
            final(self)@.activity == Activity::Gesture,
            final(self)@.visible == old(self)@.visible,
    {
        let frames = self.build_gesture_frames(name, false);
        let ghost a1 = self@;
        self.install_track(frames, false);
        let ghost a2 = self@;
        self.activity = Activity::Gesture;
        proof {
            lemma_advanced_same(a2, self@);
            lemma_advanced_trans(a1, a2, self@);
            lemma_advanced_trans(old(self)@, a1, self@);
        }
    }

    /// Travel to a screen point.
    fn start_move_to(&mut self, x: i32, y: i32, speed: u32)
        ensures
            advanced(old(self)@, final(self)@),
            final(self)@.queue == old(self)@.queue,
            final(self)@.current == old(self)@.current,
            final(self)@.idling == old(self)@.idling,
            final(self)@.visible == old(self)@.visible,
            final(self)@.activity == Activity::Move,
            final(self)@.movement.start == old(self)@.position,
            final(self)@.movement.dest == (x, y),
    {
        self.movement = MoveTo::new(self.position, (x, y), speed);
        let dir = self.movement.direction();
        let ghost a1 = self@;
        self.start_move(dir.move_state());
        proof {
            lemma_advanced_same(old(self)@, a1);
            lemma_advanced_trans(old(self)@, a1, self@);
        }
    }

    /// Begin a request's activity.
    #[verifier::spinoff_prover]
    #[verifier::rlimit(40)]
    fn start(&mut self, req: Request)
        ensures
            advanced(old(self)@, final(self)@),
            begun(old(self)@, final(self)@, req),
        decreases 2 * old(self).queue@.len() + 2,
    {
        match req {
            Request::Show { fast } => {
                self.set_visible(true);
                let ghost a1 = self@;
                if fast {
                    self.next();
                } else {
                    self.start_state("SHOWING", false, Activity::Gesture);
                }
                proof {
                    lemma_advanced_trans(old(self)@, a1, self@);
                }
            },
            Request::Hide { fast } => {
                if fast {
                    self.set_visible(false);
                    self.activity = Activity::Hidden;
                    let ghost a1 = self@;
                    self.next();
                    proof {
                        lemma_advanced_trans(old(self)@, a1, self@);
                    }
                } else {
                    self.start_state("HIDING", false, Activity::Hiding);
                }
            },
            Request::Play(name) => {
                self.start_play(name.as_str());
            },
            Request::PlayLoop(name) => {
                self.start_loop(name.as_str());
            },
            Request::GestureAt { x, y } => {
                let dir = self.direction_to(x, y);
                self.start_state(dir.gesture_state(), false, Activity::Gesture);
            },
            Request::MoveTo { x, y, speed } => {
                self.start_move_to(x, y, speed);
            },
            Request::Speak(text) => {
                self.start_speech(text.as_str(), false);
            },
            Request::Think(text) => {
                self.start_speech(text.as_str(), true);
            },
            Request::Wait(ms) => {
                self.start_wait(ms);
            },
        }
    }
}

impl Agent {
    /// Drive a teleport: once the vanishing phase is over, jump to the destination and
    /// play the appearing phase; once that is over, the move is done.
    fn advance_teleport(&mut self)
        ensures
            advanced(old(self)@, final(self)@),
    {
        if self.track_elapsed_ms < self.track_total_ms {
            proof {
                lemma_advanced_same(old(self)@, self@);
            }
            return;
        }
        if !self.move_teleport_appearing {
            self.move_teleport_appearing = true;
            self.position = self.movement.dest();
            let (x, y) = self.position;
            let ghost a1 = self@;
            self.emit(Event::Moved { x, y });
            let ghost a2 = self@;
            self.install_phase_track("SHOWING");
            self.move_teleport = true;
            proof {
                lemma_advanced_same(old(self)@, a1);
                lemma_advanced_emit(a1, a2, Event::Moved { x, y });
                lemma_advanced_trans(old(self)@, a1, a2);
                lemma_advanced_trans(old(self)@, a2, self@);
            }
        } else {
            self.move_teleport = false;
            self.next();
        }
    }

    /// On arrival, play the moving animation's exit (the landing) once, then carry on;
    /// carry on at once when there is no exit.
    #[verifier::rlimit(30)]
    fn begin_landing(&mut self)
        ensures
            advanced(old(self)@, final(self)@),
    {
        proof {
            use_type_invariant(&self.fitted);
        }
        let i = match self.move_anim {
            Some(i) => i,
            None => {
                self.next();
                return;
            },
        };
        self.move_anim = None;
        let cur = match self.current_track_index() {
            Some(k) => self.track[k].frame,
            None => {
                self.next();
                return;
            },
        };
        let anims = self.fitted.file.animations_list();
        let mut track: Vec<TrackFrame> = Vec::new();
        if i < anims.len() {
            let anim = &anims[i];
            assert(anim@ == self@.file.animations[i as int]);
            let exit_from: i16 = if cur < anim.frames.len() { anim.frames[cur].exit_frame } else { -1 };
            if exit_from >= 0 && (exit_from as usize) < anim.frames.len() {
                let ex = sequence_exit(anim, exit_from as usize);
                push_sequence(&mut track, &ex, i);
            }
        }
        if track.len() == 0 {
            self.next();
            return;
        }
        self.install_track(track, false);
        let ghost a1 = self@;
        self.activity = Activity::Gesture;
        proof {
            lemma_advanced_same(a1, self@);
            lemma_advanced_trans(old(self)@, a1, self@);
        }
    }

    /// Play the sound effect of the frame just entered (once per entry).
    fn fire_frame_sound(&mut self)
        ensures
            final(self)@ == (AgentView { entered: entry_now(old(self)@), ..old(self)@ }),
    {
        let cur = self.current_track_index();
        let same = match (cur, self.last_track_index) {
            (Some(a), Some(b)) => a == b,
            (None, None) => true,
            _ => false,
        };
        if same {
            return;
        }
        self.last_track_index = cur;
        let i = match cur {
            Some(i) => i,
            None => return,
        };
        let tf = self.track[i];
        let anims = self.fitted.file.animations_list();
        if tf.anim < anims.len() && tf.frame < anims[tf.anim].frames.len() {
            let snd = anims[tf.anim].frames[tf.frame].sound_ndx;
            if snd >= 0 {
                match self.fitted.file.sound(snd as usize) {
                    Some(wav) => self.audio.play(wav),
                    None => {},
                }
            }
        }
    }

    /// Start the front request when the agent yields to it: idle, resting, hidden, or
    /// looping a gesture. Otherwise nothing changes.
    fn launch_if_yielding(&mut self)
        ensures
            advanced(old(self)@, final(self)@),
            starts_next(old(self)@) ==> events_extend(popped(finished(old(self)@)), final(self)@),
            !starts_next(old(self)@) ==> final(self)@ == old(self)@,
    {
        let yields = self.activity == Activity::Idle || self.activity == Activity::IdleRest || self.activity
            == Activity::Hidden || (self.activity == Activity::Gesture && self.track_loops);
        if self.queue.len() > 0 && yields {
            self.next();
        } else {
            proof {
                lemma_advanced_same(old(self)@, self@);
            }
        }
    }

    /// Run the current activity for `dt_ms`: the track's clock moves on, and an activity
    /// whose time is up hands over to what follows.
    #[verifier::rlimit(40)]
    #[verifier::spinoff_prover]
    fn run_activity(&mut self, dt_ms: u32)
        ensures
            advanced(old(self)@, final(self)@),
            plays_on(old(self)@, dt_ms) ==> same_play(ticked(old(self)@, dt_ms), final(self)@),
            ends_now(old(self)@, dt_ms) && old(self)@.queue.len() == 0 ==> drained(old(self)@, final(self)@),
    {
        self.track_elapsed_ms = self.track_elapsed_ms.saturating_add(dt_ms);
        let ghost a2 = self@;
        proof {
            lemma_advanced_same(old(self)@, a2);
        }
        match self.activity {
            Activity::Hidden => {
                proof {
                    lemma_advanced_same(a2, self@);
                }
            },
            Activity::Move => {
                if self.move_teleport {
                    self.advance_teleport();
                } else {
                    self.glide(dt_ms);
                }
            },
            Activity::Speak => {
                if self.poll_speech(dt_ms, false) {
                    let ghost a3 = self@;
                    self.next();
                    proof {
                        lemma_advanced_trans(a2, a3, self@);
                    }
                }
            },
            Activity::Think => {
                if self.poll_speech(dt_ms, true) {
                    let ghost a3 = self@;
                    self.next();
                    proof {
                        lemma_advanced_trans(a2, a3, self@);
                    }
                }
            },
            Activity::Wait | Activity::IdleRest => {
                if self.track_elapsed_ms >= self.track_total_ms {
                    self.next();
                } else {
                    proof {
                        lemma_advanced_same(a2, self@);
                    }
                }
            },
            Activity::Idle | Activity::Gesture | Activity::Hiding => {
                if !self.track_loops && self.track_elapsed_ms >= self.track_total_ms {
                    if self.activity == Activity::Hiding {
                        self.set_visible(false);
                    } else {
                        proof {
                            lemma_advanced_same(a2, self@);
                        }
                    }
                    let ghost a3 = self@;
                    self.next();
                    proof {
                        lemma_advanced_trans(a2, a3, self@);
                    }
                } else {
                    proof {
                        lemma_advanced_same(a2, self@);
                    }
                }
            },
        }
        proof {
            lemma_advanced_trans(old(self)@, a2, self@);
        }
    }

    /// Reveal a parallel balloon's speech, count down the balloon, and fire the sound of
    /// a newly entered frame while visible.
    fn finish_tick(&mut self, dt_ms: u32)
        ensures
            advanced(old(self)@, final(self)@),
            same_play(old(self)@, final(self)@),
            final(self)@.visible ==> final(self)@.entered == entry_now(final(self)@),
    {
        let ghost a4 = self@;
        if self.speaking_overlay && self.activity != Activity::Speak && self.activity != Activity::Think {
            if self.poll_speech(dt_ms, self.overlay_think) {
                let ghost a3 = self@;
                self.speaking_overlay = false;
                proof {
                    lemma_advanced_same(a3, self@);
                    lemma_advanced_trans(a4, a3, self@);
                }
            }
        } else {
            proof {
                lemma_advanced_same(a4, self@);
            }
        }
        let ghost a5 = self@;
        self.tick_balloon(dt_ms);
        let ghost a6 = self@;
        if self.visible {
            self.fire_frame_sound();
        }
        proof {
            lemma_advanced_trans(a4, a5, a6);
            lemma_advanced_same(a6, self@);
            lemma_advanced_trans(a4, a6, self@);
        }
    }

    /// Advance by `dt_ms` milliseconds: start the front request when the agent is idle,
    /// hidden or looping a gesture, run the current activity, reveal speech, count down
    /// the balloon and fire the entered frame's sound. Paused, nothing happens.
    pub fn update(&mut self, dt_ms: u32)
        ensures
            old(self)@.paused ==> final(self)@ == old(self)@,
            advanced(old(self)@, final(self)@),
            final(self)@.paused == old(self)@.paused,
            !old(self)@.paused && starts_next(old(self)@)
                ==> events_extend(popped(finished(old(self)@)), final(self)@),
            !old(self)@.paused && !starts_next(old(self)@) && plays_on(old(self)@, dt_ms)
                ==> same_play(ticked(old(self)@, dt_ms), final(self)@),
            !old(self)@.paused && !starts_next(old(self)@) && ends_now(old(self)@, dt_ms)
                && old(self)@.queue.len() == 0 ==> events_extend(
                AgentView { events: drain_events_of(old(self)@), ..old(self)@ },
                final(self)@,
            ) && final(self)@.current is None && (old(self)@.visible ==> final(self)@.idle
                && final(self)@.idling),
            !old(self)@.paused && final(self)@.visible ==> final(self)@.entered == entry_now(final(self)@),
    {
        if self.paused {
            proof {
                lemma_advanced_same(old(self)@, self@);
            }
            return;
        }
        self.launch_if_yielding();
        let ghost a1 = self@;
        self.run_activity(dt_ms);
        let ghost a2 = self@;
        self.finish_tick(dt_ms);
        proof {
            lemma_advanced_trans(old(self)@, a1, a2);
            lemma_advanced_trans(old(self)@, a2, self@);
            if starts_next(old(self)@) {
                lemma_extend_advanced(popped(finished(old(self)@)), a1, a2);
                lemma_extend_advanced(popped(finished(old(self)@)), a2, self@);
            }
            if !starts_next(old(self)@) && ends_now(old(self)@, dt_ms) && old(self)@.queue.len() == 0 {
                let d = AgentView { events: drain_events_of(old(self)@), ..old(self)@ };
                assert(a2.events.take(d.events.len() as int) =~= d.events);
                lemma_extend_advanced(d, a2, self@);
            }
        }
    }

    /// Move along a glide: a flight starts gliding once its in-place animation is over;
    /// while gliding the position follows the tween, and on arrival the landing plays.
    fn glide(&mut self, dt_ms: u32)
        ensures
            advanced(old(self)@, final(self)@),
    {
        if !self.move_gliding && self.track_elapsed_ms >= self.track_total_ms {
            self.move_gliding = true;
        }
        if !self.move_gliding {
            proof {
                lemma_advanced_same(old(self)@, self@);
            }
            return;
        }
        let before = self.position;
        self.movement.advance(dt_ms);
        self.position = if self.movement.is_done() { self.movement.dest() } else { self.movement.position() };
        let ghost a1 = self@;
        proof {
            lemma_advanced_same(old(self)@, a1);
        }
        if self.position.0 != before.0 || self.position.1 != before.1 {
            let (x, y) = self.position;
            self.emit(Event::Moved { x, y });
            proof {
                lemma_advanced_emit(a1, self@, Event::Moved { x, y });
                lemma_advanced_trans(old(self)@, a1, self@);
            }
        }
        let ghost a2 = self@;
        if self.movement.is_done() {
            self.begin_landing();
            proof {
                lemma_advanced_trans(old(self)@, a2, self@);
            }
        }
    }

    /// Clear the queue, reporting each not-yet-run request as completed, and end a
    /// looping gesture so the next update moves on (the current frame is not cut).
    pub fn stop(&mut self)
        ensures
            final(self)@.queue.len() == 0,
            final(self)@.events == old(self)@.events + completions(queue_ids(old(self)@.queue)),
            final(self)@.visible == old(self)@.visible,
            final(self)@.position == old(self)@.position,
            final(self)@.paused == old(self)@.paused,
            final(self)@.next_id == old(self)@.next_id,
            final(self)@.balloon_kind == old(self)@.balloon_kind,
            final(self)@.file == old(self)@.file,
            final(self)@.current == old(self)@.current,
            old(self)@.activity == Activity::Gesture && old(self)@.track_loops ==> final(self)@
                == (AgentView {
                track_loops: false,
                track_elapsed_ms: old(self)@.track_total_ms,
                queue: final(self)@.queue,
                events: final(self)@.events,
                ..old(self)@
            }),
            !(old(self)@.activity == Activity::Gesture && old(self)@.track_loops) ==> same_play(
                old(self)@,
                final(self)@,
            ),
    {
        let ghost q = self.queue@;
        let ghost ev0 = self.events@;
        let qlen = self.queue.len();
        let mut k: usize = 0;
        assert(q.skip(0) =~= q);
        assert(queue_ids(q.take(0)) =~= Seq::<ReqId>::empty());
        assert(ev0 + completions(Seq::<ReqId>::empty()) =~= ev0);
        while self.queue.len() > 0
            invariant
                qlen == q.len(),
                self.queue@ == q.skip(k as int),
                k <= q.len(),
                self.events@ == ev0 + completions(queue_ids(q.take(k as int))),
                self.visible == old(self).visible,
                self.position == old(self).position,
                self.paused == old(self).paused,
                self.next_id == old(self).next_id,
                self.balloon_kind == old(self).balloon_kind,
                self.fitted.file@ == old(self).fitted.file@,
                q == old(self).queue@,
                ev0 == old(self).events@,
                self@ == (AgentView { queue: self@.queue, events: self@.events, ..old(self)@ }),
            decreases self.queue@.len(),
        {
            let (id, _req) = self.queue.remove(0);
            assert(q[k as int].0 == id);
            self.events.push(Event::RequestCompleted(id));
            k += 1;
            assert(self.queue@ =~= q.skip(k as int));
            assert(queue_ids(q.take(k as int)) =~= queue_ids(q.take(k - 1)).push(id));
            assert(self.events@ =~= ev0 + completions(queue_ids(q.take(k as int))));
        }
        assert(q.take(k as int) =~= q);
        if self.track_loops && self.activity == Activity::Gesture {
            self.track_loops = false;
            self.track_elapsed_ms = self.track_total_ms;
        }
    }

    /// The `(animation, frame, mouth)` identity of the frame that would be composited
    /// now, `None` when hidden (or with nothing to show). Equal tokens composite to equal
    /// pixels.
    pub fn current_frame_token(&self) -> (r: Option<(usize, usize, Option<MouthOverlay>)>)
        ensures
            r == (if !self@.visible {
                None
            } else {
                match current_entry(self@) {
                    Some(tf) => Some((tf.anim, tf.frame, self@.mouth)),
                    None => None,
                }
            }),
    {
        if !self.visible {
            return None;
        }
        match self.current_track_index() {
            Some(i) => {
                let tf = self.track[i];
                let mouth = if self.activity == Activity::Speak { self.speak_mouth } else { None };
                Some((tf.anim, tf.frame, mouth))
            },
            None => None,
        }
    }

    /// Composite the frame that should be on screen now, or `None` when hidden, when the
    /// current entry names no frame of the character, or when its frames cannot be
    /// composited.
    pub fn composite_current(&self) -> (r: Option<Rgba>)
        ensures
            r is Some <==> (self@.visible && current_frame(self@) is Some && pool_wf(self@.file) && frame_fits(
                self@.file,
            ) && composite_ok(self@.file, current_frame(self@).unwrap(), self@.mouth)),
            r matches Some(img) ==> composited(self@.file, current_frame(self@).unwrap(), self@.mouth, img),
    {
        if !self.visible {
            return None;
        }
        let i = match self.current_track_index() {
            Some(i) => i,
            None => return None,
        };
        let tf = self.track[i];
        let anims = self.fitted.file.animations_list();
        if tf.anim >= anims.len() || tf.frame >= anims[tf.anim].frames.len() {
            return None;
        }
        if !self.fitted.file.can_composite() {
            return None;
        }
        let mouth = if self.activity == Activity::Speak { self.speak_mouth } else { None };
        match self.fitted.file.composite_frame(&anims[tf.anim].frames[tf.frame], mouth) {
            Ok(img) => Some(img),
            Err(_) => None,
        }
    }
}

/// The last `max_rows` (at least one) of some lines.
pub open spec fn last_rows(all: Seq<Seq<char>>, max_rows: int) -> Seq<Seq<char>> {
    let keep = if max_rows < 1 { 1 } else { max_rows };
    if all.len() > keep {
        all.subrange(all.len() - keep, all.len() as int)
    } else {
        all
    }
}

/// How many words a balloon shows: all once the phrase is done, else the revealed ones
/// (at least one).
pub open spec fn shown_words(v: AgentView) -> int {
    let total = v.words.len() as int;
    if v.balloon_done {
        total
    } else if (v.shown as int) < 1 {
        1
    } else if (v.shown as int) > total {
        total
    } else {
        v.shown as int
    }
}

/// A blank layout sized to a fixed `per_line` by `rows` box, for sizing a scrolling
/// balloon.
fn fixed_box_layout(per_line: usize, rows: usize) -> (l: BalloonLayout)
    ensures
        l.rows == (if rows < 1 { 1 } else { rows }),
        l.cols == per_line,
        l.lines@.len() == l.rows,
        forall|i: int| 0 <= i < l.lines@.len() ==> (#[trigger] l.lines@[i])@.len() == 0,
{
    let n = if rows < 1 { 1 } else { rows };
    let mut lines: Vec<String> = Vec::new();
    let mut i: usize = 0;
    while i < n
        invariant
            0 <= i <= n,
            lines@.len() == i,
            forall|k: int| 0 <= k < i ==> (#[trigger] lines@[k])@.len() == 0,
        decreases n - i,
    {
        lines.push(String::new());
        i += 1;
    }
    BalloonLayout { lines, cols: per_line, rows: n }
}

impl Agent {
    /// The balloon to draw now, or `None` when none is showing. It is independent of the
    /// current activity: a balloon can linger (auto-hiding) while the character idles. A
    /// growing balloon lays out the revealed words and sizes to the whole phrase; a fixed
    /// one scrolls the revealed words within its rows.
    pub fn balloon(&self) -> (r: Option<BalloonView>)
        ensures
            r is None <==> (self@.balloon_kind is None || self@.words.len() == 0),
            r matches Some(b) ==> {
                let shown = shown_words(self@);
                let revealed = self@.words.take(shown);
                let per = self@.style.per_line as int;
                &&& b.total_words == self@.words.len()
                &&& b.shown_words == shown
                &&& self@.balloon_kind == Some(b.kind)
                &&& if self@.style.size_to_text {
                    layout_of(&b.layout, wrapped(revealed, per)) && layout_of(&b.full, wrapped(self@.words, per))
                } else {
                    &&& layout_of(&b.layout, last_rows(wrapped(revealed, per), self@.style.lines as int))
                    &&& b.full.cols == self@.style.per_line
                    &&& b.full.rows == (if self@.style.lines < 1 { 1 } else { self@.style.lines })
                    &&& b.full.lines@.len() == b.full.rows
                }
            },
    {
        let kind = match self.balloon_kind {
            Some(k) => k,
            None => return None,
        };
        if self.speak_words.len() == 0 {
            return None;
        }
        let total = self.speak_words.len();
        let shown = if self.balloon_done {
            total
        } else if self.speak_shown < 1 {
            1
        } else if self.speak_shown > total {
            total
        } else {
            self.speak_shown
        };
        let per_line = self.style.per_line;
        let revealed = vstd::slice::slice_subrange(self.speak_words.as_slice(), 0, shown);
        assert(lines_view(revealed@) =~= self@.words.take(shown as int));
        if self.style.size_to_text {
            let layout = wrap_words(revealed, per_line);
            let full = wrap_words(self.speak_words.as_slice(), per_line);
            Some(BalloonView { layout, full, total_words: total, shown_words: shown, kind })
        } else {
            let rows = self.style.lines;
            let layout = wrap_last_rows(revealed, per_line, rows);
            let full = fixed_box_layout(per_line, rows);
            Some(BalloonView { layout, full, total_words: total, shown_words: shown, kind })
        }
    }
}


/// Whether frame `f` of character `v` shows nothing: it has no image layers, or it
/// composites (when the character can be composited) to a frame whose every pixel is fully
/// transparent.
pub open spec fn frame_blank(v: AcsView, f: FrameView) -> bool {
    f.images.len() == 0 || (pool_wf(v) && frame_fits(v) && match v.rgba_images {
        Some(pool) => match composite_rgba(v, f, None, pool) {
            Ok(px) => forall|k: int| 0 <= k && 4 * k + 3 < px.len() ==> #[trigger] alpha_at(px, k) == 0,
            Err(_) => false,
        },
        None => match composite_indexed(v, f, None) {
            Ok(ix) => forall|p: int|
                0 <= p < ix.len() ==> #[trigger] indexed_channel(v.header.palette, v.header.transparency, ix[p], 3) == 0,
            Err(_) => false,
        },
    })
}

/// Whether the first (`first`) or last frame of animation `name` of `v` shows nothing.
pub open spec fn spec_frame_empty(v: AcsView, name: Seq<char>, first: bool) -> bool {
    match first_named(v.gesture_names, name, v.gesture_names.len()) {
        Some(i) => i < v.animations.len() && v.animations[i].frames.len() > 0 && frame_blank(
            v,
            if first {
                v.animations[i].frames[0]
            } else {
                v.animations[i].frames.last()
            },
        ),
        None => false,
    }
}

/// Does `name`'s first (`first`) or last frame composite to nothing? Such a frame means the
/// animation appears from, or vanishes to, nothing, so it can be the entrance or exit
/// itself (no separate Show or Hide animation flashing the character in and out).
pub fn frame_empty(agent: &Agent, name: &str, first: bool) -> (r: bool)
    ensures
        r == spec_frame_empty(agent@.file, name@, first),
{
    let file = agent.file();
    let ghost v = file@;
    let anim = match file.animation(name) {
        Some(a) => a,
        None => return false,
    };
    let n = anim.frames.len();
    if n == 0 {
        return false;
    }
    let frame = if first {
        &anim.frames[0]
    } else {
        &anim.frames[n - 1]
    };
    let ghost fv = frame@;
    proof {
        let i = first_named(v.gesture_names, name@, v.gesture_names.len()).unwrap();
        assert(anim@ == v.animations[i]);
        assert(fv == (if first { v.animations[i].frames[0] } else { v.animations[i].frames.last() }));
    }
    if frame.images.len() == 0 {
        return true;
    }
    if !file.can_composite() {
        return false;
    }
    match file.composite_frame(frame, None) {
        Ok(img) => {
            let blank = img.is_fully_transparent();
            proof {
                match v.rgba_images {
                    Some(pool) => {},
                    None => {
                        let ix = composite_indexed(v, fv, None).unwrap();
                        if blank {
                            assert forall|p: int| 0 <= p < ix.len() implies #[trigger] indexed_channel(v.header.palette, v.header.transparency, ix[p], 3) == 0 by {
                                assert(alpha_at(img.pixels@, p) == 0);
                            }
                        } else {
                            let k = choose|k: int| 0 <= k && 4 * k + 3 < img.pixels@.len() && #[trigger] alpha_at(img.pixels@, k) != 0;
                            assert(0 <= k < ix.len());
                            assert(img.pixels@[4 * k + 3] == indexed_channel(v.header.palette, v.header.transparency, ix[k], 3));
                        }
                    },
                }
            }
            blank
        },
        Err(_) => false,
    }
}

} // verus!
