//! Pluggable text-to-speech.
//!
//! Speech is an engine that, once told to speak, emits a stream of voice events as it
//! plays: word boundaries (to reveal balloon words), mouth shapes, bookmarks, and
//! start/end. The host pumps it with `poll` each tick, so everything stays deterministic.
//!
//! [`TimedTts`] is the portable default: no audio, it paces the events on a timer (the
//! classic silent-balloon behavior).

use crate::model::{spec_resolved_gender, Gender, MouthOverlay, Tts};
use crate::textutil::copy_string;
use vstd::prelude::*;

verus! {

/// The voice a character asks for, taken from its file's voice block: which kind of
/// voice the author picked and the ISO 639-1 code of the character's language.
#[derive(Clone, Copy, Debug, Default, PartialEq, Eq)]
pub struct VoiceRequest {
    pub gender: Gender,
    /// ISO 639-1 code of the character's language, mapped from its Windows LANGID.
    pub language: Option<&'static str>,
}

/// The ISO 639-1 code of a Windows `LANGID`'s primary language, for the languages the
/// classic characters shipped in.
pub open spec fn iso_code(langid: u16) -> Option<Seq<char>> {
    let p = langid & 0x3FF;
    if p == 0x01 { Some("ar"@) }
    else if p == 0x02 { Some("bg"@) }
    else if p == 0x03 { Some("ca"@) }
    else if p == 0x04 { Some("zh"@) }
    else if p == 0x05 { Some("cs"@) }
    else if p == 0x06 { Some("da"@) }
    else if p == 0x07 { Some("de"@) }
    else if p == 0x08 { Some("el"@) }
    else if p == 0x09 { Some("en"@) }
    else if p == 0x0A { Some("es"@) }
    else if p == 0x0B { Some("fi"@) }
    else if p == 0x0C { Some("fr"@) }
    else if p == 0x0D { Some("he"@) }
    else if p == 0x0E { Some("hu"@) }
    else if p == 0x0F { Some("is"@) }
    else if p == 0x10 { Some("it"@) }
    else if p == 0x11 { Some("ja"@) }
    else if p == 0x12 { Some("ko"@) }
    else if p == 0x13 { Some("nl"@) }
    else if p == 0x14 { Some("no"@) }
    else if p == 0x15 { Some("pl"@) }
    else if p == 0x16 { Some("pt"@) }
    else if p == 0x18 { Some("ro"@) }
    else if p == 0x19 { Some("ru"@) }
    else if p == 0x1A { Some("hr"@) }
    else if p == 0x1B { Some("sk"@) }
    else if p == 0x1D { Some("sv"@) }
    else if p == 0x1E { Some("th"@) }
    else if p == 0x1F { Some("tr"@) }
    else if p == 0x22 { Some("uk"@) }
    else if p == 0x24 { Some("sl"@) }
    else { None }
}

/// The view of an optional static string.
pub open spec fn opt_str(s: Option<&'static str>) -> Option<Seq<char>> {
    match s {
        Some(x) => Some(x@),
        None => None,
    }
}

/// Map a Windows `LANGID`'s primary language (its low 10 bits) to its ISO 639-1 code;
/// the sublanguage is ignored, and unlisted languages give `None`.
pub fn iso_639_1(langid: u16) -> (r: Option<&'static str>)
    ensures
        opt_str(r) == iso_code(langid),
{
    let p = langid & 0x3FF;
    let r = if p == 0x01 { Some("ar") }
    else if p == 0x02 { Some("bg") }
    else if p == 0x03 { Some("ca") }
    else if p == 0x04 { Some("zh") }
    else if p == 0x05 { Some("cs") }
    else if p == 0x06 { Some("da") }
    else if p == 0x07 { Some("de") }
    else if p == 0x08 { Some("el") }
    else if p == 0x09 { Some("en") }
    else if p == 0x0A { Some("es") }
    else if p == 0x0B { Some("fi") }
    else if p == 0x0C { Some("fr") }
    else if p == 0x0D { Some("he") }
    else if p == 0x0E { Some("hu") }
    else if p == 0x0F { Some("is") }
    else if p == 0x10 { Some("it") }
    else if p == 0x11 { Some("ja") }
    else if p == 0x12 { Some("ko") }
    else if p == 0x13 { Some("nl") }
    else if p == 0x14 { Some("no") }
    else if p == 0x15 { Some("pl") }
    else if p == 0x16 { Some("pt") }
    else if p == 0x18 { Some("ro") }
    else if p == 0x19 { Some("ru") }
    else if p == 0x1A { Some("hr") }
    else if p == 0x1B { Some("sk") }
    else if p == 0x1D { Some("sv") }
    else if p == 0x1E { Some("th") }
    else if p == 0x1F { Some("tr") }
    else if p == 0x22 { Some("uk") }
    else if p == 0x24 { Some("sl") }
    else { None };
    r
}

impl VoiceRequest {
    /// The voice described by a parsed character's voice block.
    pub fn from_tts(tts: &Tts) -> (v: VoiceRequest)
        ensures
            v.gender == spec_resolved_gender(tts.gender, tts.mode.0@),
            opt_str(v.language) == match tts.language {
                Some(l) => iso_code(l),
                None => None,
            },
    {
        VoiceRequest {
            gender: tts.resolved_gender(),
            language: match tts.language {
                Some(l) => iso_639_1(l),
                None => None,
            },
        }
    }
}

/// Something that happened during speech, consumed by the runtime.
#[derive(Clone, Copy, PartialEq, Eq, Debug, Structural)]
pub enum VoiceEvent {
    /// Speech started.
    Started,
    /// The word at this index (into the display words) began.
    WordStarted(usize),
    /// The mouth should take this shape now.
    Mouth(MouthOverlay),
    /// A `\Mrk=N` bookmark was reached.
    Bookmark(i64),
    /// Speech finished.
    Ended,
}

/// A text-to-speech engine driven by polling.
pub trait TtsEngine {
    /// Begin speaking `text`; `word_count` is how many balloon words to pace events over.
    fn speak(&mut self, text: &str, word_count: usize);

    /// Stop immediately.
    fn stop(&mut self);

    /// Advance by `dt_ms` and return any events that occurred.
    fn poll(&mut self, dt_ms: u32) -> Vec<VoiceEvent>;

    /// Whether speech is in progress.
    fn is_speaking(&self) -> bool;

    /// Adopt the voice a character asks for. Engines without real audio ignore it.
    fn set_voice(&mut self, voice: VoiceRequest) {
    }
}

/// Default pacing: one word every 300 ms.
pub const PACE_MS: u32 = 300;

/// The mouth toggles every 150 ms.
pub const MOUTH_MS: u32 = 150;

/// A silent engine that paces voice events on a timer.
#[derive(Debug)]
pub struct TimedTts {
    pace_ms: u32,
    words: usize,
    elapsed: u32,
    next_word: usize,
    speaking: bool,
    started: bool,
    mouth_phase: i32,
}

/// A timed engine as plain values.
pub struct TimedView {
    pub pace_ms: u32,
    pub words: usize,
    pub elapsed: u32,
    pub next_word: usize,
    pub speaking: bool,
    pub started: bool,
    pub mouth_phase: i32,
}

impl View for TimedTts {
    type V = TimedView;

    closed spec fn view(&self) -> TimedView {
        TimedView {
            pace_ms: self.pace_ms,
            words: self.words,
            elapsed: self.elapsed,
            next_word: self.next_word,
            speaking: self.speaking,
            started: self.started,
            mouth_phase: self.mouth_phase,
        }
    }
}

/// The word-start events due at `elapsed`, from word `next` on, and the next word after
/// them: each word `k < words` starts once `elapsed >= k * pace`.
pub open spec fn due_words(next: int, words: int, elapsed: int, pace: int) -> (int, Seq<VoiceEvent>)
    decreases words - next,
{
    if next < words && elapsed >= next * pace {
        let (n, evs) = due_words(next + 1, words, elapsed, pace);
        (n, seq![VoiceEvent::WordStarted(next as usize)] + evs)
    } else {
        (next, Seq::empty())
    }
}

/// One poll of a timed engine `dt` milliseconds on: nothing once it has stopped;
/// otherwise `Started` the first time, the words now due, a mouth change whenever the
/// 150 ms mouth phase flips (open on even phases, closed on odd), and a closed mouth and
/// `Ended` once every word's time has passed.
pub open spec fn timed_poll(s: TimedView, dt: u32) -> (TimedView, Seq<VoiceEvent>) {
    if !s.speaking {
        (s, Seq::empty())
    } else {
        let start_ev = if !s.started { seq![VoiceEvent::Started] } else { Seq::empty() };
        let elapsed = if s.elapsed + dt > u32::MAX { u32::MAX } else { (s.elapsed + dt) as u32 };
        let (next, word_evs) = due_words(s.next_word as int, s.words as int, elapsed as int, s.pace_ms as int);
        let phase = ((elapsed / MOUTH_MS) % 2) as i32;
        let mouth_evs = if phase != s.mouth_phase {
            seq![VoiceEvent::Mouth(if phase == 0 { MouthOverlay::Wide2 } else { MouthOverlay::Closed })]
        } else {
            Seq::empty()
        };
        let done = elapsed >= s.words * s.pace_ms;
        let end_evs = if done {
            seq![VoiceEvent::Mouth(MouthOverlay::Closed), VoiceEvent::Ended]
        } else {
            Seq::empty()
        };
        (
            TimedView {
                elapsed,
                next_word: next as usize,
                speaking: !done,
                started: true,
                mouth_phase: phase,
                ..s
            },
            start_ev + word_evs + mouth_evs + end_evs,
        )
    }
}

proof fn lemma_due_words(next: int, words: int, elapsed: int, pace: int)
    requires
        next <= words,
    ensures
        next <= due_words(next, words, elapsed, pace).0 <= words,
    decreases words - next,
{
    if next < words && elapsed >= next * pace {
        lemma_due_words(next + 1, words, elapsed, pace);
    }
}

/// A fresh timed engine: pacing at [`PACE_MS`], not speaking.
pub open spec fn quiet_engine() -> TimedView {
    TimedView {
        pace_ms: PACE_MS,
        words: 0,
        elapsed: 0,
        next_word: 0,
        speaking: false,
        started: false,
        mouth_phase: -1i32,
    }
}

impl TimedTts {
    #[verifier::type_invariant]
    spec fn inv(&self) -> bool {
        self.next_word <= self.words && self.pace_ms >= 1
    }

    /// A quiet engine pacing one word every [`PACE_MS`].
    pub fn new() -> (t: TimedTts)
        ensures
            t@ == quiet_engine(),
    {
        TimedTts {
            pace_ms: PACE_MS,
            words: 0,
            elapsed: 0,
            next_word: 0,
            speaking: false,
            started: false,
            mouth_phase: -1,
        }
    }

    /// Set the per-word pacing interval (at least 1 ms).
    pub fn with_pace(self, ms: u32) -> (t: TimedTts)
        ensures
            t@ == (TimedView { pace_ms: if ms < 1 { 1 } else { ms }, ..self@ }),
    {
        proof {
            use_type_invariant(&self);
        }
        TimedTts { pace_ms: if ms < 1 { 1 } else { ms }, ..self }
    }

    /// The engine's state.
    pub fn state(&self) -> (v: TimedView)
        ensures
            v == self@,
    {
        TimedView {
            pace_ms: self.pace_ms,
            words: self.words,
            elapsed: self.elapsed,
            next_word: self.next_word,
            speaking: self.speaking,
            started: self.started,
            mouth_phase: self.mouth_phase,
        }
    }
}

impl Default for TimedTts {
    fn default() -> (t: Self)
        ensures
            t@ == quiet_engine(),
    {
        TimedTts::new()
    }
}

impl TtsEngine for TimedTts {
    /// Start pacing over `word_count` words (at least one).
    fn speak(&mut self, text: &str, word_count: usize)
        ensures
            final(self)@ == (TimedView {
                words: if word_count < 1 { 1 } else { word_count },
                elapsed: 0,
                next_word: 0,
                speaking: true,
                started: false,
                mouth_phase: -1i32,
                ..old(self)@
            }),
    {
        proof {
            use_type_invariant(&*self);
        }
        *self = TimedTts {
            pace_ms: self.pace_ms,
            words: if word_count < 1 { 1 } else { word_count },
            elapsed: 0,
            next_word: 0,
            speaking: true,
            started: false,
            mouth_phase: -1,
        };
    }

    /// Stop; no more events come until the next `speak`.
    fn stop(&mut self)
        ensures
            final(self)@ == (TimedView { speaking: false, ..old(self)@ }),
    {
        proof {
            use_type_invariant(&*self);
        }
        self.speaking = false;
    }

    /// Advance by `dt_ms` and return the events that became due.
    fn poll(&mut self, dt_ms: u32) -> (events: Vec<VoiceEvent>)
        ensures
            (final(self)@, events@) == timed_poll(old(self)@, dt_ms),
    {
        proof {
            use_type_invariant(&*self);
        }
        if !self.speaking {
            return Vec::new();
        }
        let mut events: Vec<VoiceEvent> = Vec::new();
        if !self.started {
            self.started = true;
            events.push(VoiceEvent::Started);
        }
        let elapsed = self.elapsed.saturating_add(dt_ms);
        self.elapsed = elapsed;
        let ghost before = events@;
        assert(before =~= (if !old(self)@.started { seq![VoiceEvent::Started] } else { Seq::<VoiceEvent>::empty() }));
        let ghost first = self.next_word as int;
        let words = self.words;
        let pace = self.pace_ms as u128;
        let mut next = self.next_word;
        proof {
            lemma_due_words(first, words as int, elapsed as int, pace as int);
        }
        loop
            invariant
                first <= next <= words,
                pace >= 1,
                pace <= 0xFFFF_FFFF,
                due_words(first, words as int, elapsed as int, pace as int) == (
                    due_words(next as int, words as int, elapsed as int, pace as int).0,
                    events@.subrange(before.len() as int, events@.len() as int) + due_words(
                        next as int,
                        words as int,
                        elapsed as int,
                        pace as int,
                    ).1,
                ),
                events@.subrange(0, before.len() as int) == before,
                events@.len() >= before.len(),
            ensures
                !(next < words && elapsed >= next * pace),
            decreases words - next,
        {
            assert((next as u128) * pace <= 0xFFFF_FFFF_FFFF_FFFF * 0xFFFF_FFFFu128) by (nonlinear_arith)
                requires
                    next <= 0xFFFF_FFFF_FFFF_FFFF,
                    pace <= 0xFFFF_FFFF,
            ;
            if !(next < words && (elapsed as u128) >= (next as u128) * pace) {
                break;
            }
            let ghost k = next as int;
            let ghost old_events = events@;
            events.push(VoiceEvent::WordStarted(next));
            next = next + 1;
            proof {
                assert(events@.subrange(before.len() as int, events@.len() as int) =~= old_events.subrange(
                    before.len() as int,
                    old_events.len() as int,
                ).push(VoiceEvent::WordStarted(k as usize)));
                assert(events@.subrange(0, before.len() as int) =~= old_events.subrange(0, before.len() as int));
                let tail = due_words(k + 1, words as int, elapsed as int, pace as int).1;
                assert(old_events.subrange(before.len() as int, old_events.len() as int) + (seq![VoiceEvent::WordStarted(k as usize)] + tail)
                    =~= old_events.subrange(before.len() as int, old_events.len() as int).push(VoiceEvent::WordStarted(k as usize)) + tail);
            }
        }
        self.next_word = next;
        proof {
            let rest = due_words(next as int, words as int, elapsed as int, pace as int);
            assert(rest.1 =~= Seq::<VoiceEvent>::empty());
            let mid = events@.subrange(before.len() as int, events@.len() as int);
            assert(mid + rest.1 =~= mid);
            assert(mid =~= due_words(first, words as int, elapsed as int, pace as int).1);
            assert(events@ =~= events@.subrange(0, before.len() as int) + mid);
            assert(events@ =~= before + due_words(first, words as int, elapsed as int, pace as int).1);
        }
        let phase = ((elapsed / MOUTH_MS) % 2) as i32;
        let ghost after_words = events@;
        if phase != self.mouth_phase {
            self.mouth_phase = phase;
            let mouth = if phase == 0 { MouthOverlay::Wide2 } else { MouthOverlay::Closed };
            events.push(VoiceEvent::Mouth(mouth));
        }
        let ghost after_mouth = events@;
        let ghost mouth_evs = if phase != old(self)@.mouth_phase {
            seq![VoiceEvent::Mouth(if phase == 0 { MouthOverlay::Wide2 } else { MouthOverlay::Closed })]
        } else {
            Seq::<VoiceEvent>::empty()
        };
        assert(after_mouth =~= after_words + mouth_evs);
        assert((words as u128) * pace <= 0xFFFF_FFFF_FFFF_FFFF * 0xFFFF_FFFFu128) by (nonlinear_arith)
            requires
                words <= 0xFFFF_FFFF_FFFF_FFFF,
                pace <= 0xFFFF_FFFF,
        ;
        let done = (elapsed as u128) >= (words as u128) * pace;
        if done {
            events.push(VoiceEvent::Mouth(MouthOverlay::Closed));
            events.push(VoiceEvent::Ended);
            self.speaking = false;
        }
        proof {
            let end_evs = if done {
                seq![VoiceEvent::Mouth(MouthOverlay::Closed), VoiceEvent::Ended]
            } else {
                Seq::<VoiceEvent>::empty()
            };
            assert(events@ =~= after_mouth + end_evs);
            assert(events@ =~= timed_poll(old(self)@, dt_ms).1);
        }
        events
    }

    fn is_speaking(&self) -> (r: bool)
        ensures
            r == self@.speaking,
    {
        self.speaking
    }
}

/// Once stopped or finished, a timed engine stays quiet: polling yields nothing and
/// changes nothing.
pub proof fn lemma_quiet_after_end(s: TimedView, dt: u32)
    requires
        !s.speaking,
    ensures
        timed_poll(s, dt) == (s, Seq::<VoiceEvent>::empty()),
{
}

/// A poll announces the words that became due in order, starting with the next
/// unannounced one, and ends speech exactly when every word's time has passed.
pub proof fn lemma_words_in_order(next: int, words: int, elapsed: int, pace: int)
    requires
        0 <= next <= words,
    ensures
        ({
            let (n, evs) = due_words(next, words, elapsed, pace);
            &&& next <= n <= words
            &&& evs.len() == n - next
            &&& forall|i: int| 0 <= i < evs.len() ==> #[trigger] evs[i] == VoiceEvent::WordStarted((next + i) as usize)
        }),
    decreases words - next,
{
    if next < words && elapsed >= next * pace {
        lemma_words_in_order(next + 1, words, elapsed, pace);
        let (n, evs) = due_words(next + 1, words, elapsed, pace);
        let all = seq![VoiceEvent::WordStarted(next as usize)] + evs;
        assert forall|i: int| 0 <= i < all.len() implies #[trigger] all[i] == VoiceEvent::WordStarted((next + i) as usize) by {
            if i > 0 {
                assert(all[i] == evs[i - 1]);
            }
        }
    }
}

/// The system-voice engine. The operating system's speech engines are not reachable from
/// this library, so it plays silently, pacing the word and mouth events on the timer, and
/// leaves the voice at its default.
#[derive(Debug)]
pub struct SystemTts {
    timed: TimedTts,
    voice_name: Option<String>,
}

/// A system engine as plain values.
pub struct SystemView {
    pub timed: TimedView,
    pub voice_name: Option<Seq<char>>,
}

impl View for SystemTts {
    type V = SystemView;

    closed spec fn view(&self) -> SystemView {
        SystemView {
            timed: self.timed@,
            voice_name: match &self.voice_name {
                Some(n) => Some(n@),
                None => None,
            },
        }
    }
}

impl SystemTts {
    /// A system engine on its default voice.
    pub fn new() -> (s: SystemTts)
        ensures
            s@ == (SystemView { timed: quiet_engine(), voice_name: None }),
    {
        SystemTts { timed: TimedTts::new(), voice_name: None }
    }

    /// The system voice picked for the character, if one was; `None` means the default
    /// voice is in use.
    pub fn voice_name(&self) -> (r: Option<&str>)
        ensures
            match self@.voice_name {
                Some(n) => r matches Some(x) && x@ == n,
                None => r is None,
            },
    {
        match &self.voice_name {
            Some(n) => Some(n.as_str()),
            None => None,
        }
    }
}

impl TtsEngine for SystemTts {
    /// No installed voice can be chosen, so the default stays.
    fn set_voice(&mut self, voice: VoiceRequest)
        ensures
            final(self)@ == old(self)@,
    {
    }

    /// Speak by pacing the timed events.
    fn speak(&mut self, text: &str, word_count: usize)
        ensures
            final(self)@.voice_name == old(self)@.voice_name,
            final(self)@.timed == (TimedView {
                words: if word_count < 1 { 1 } else { word_count },
                elapsed: 0,
                next_word: 0,
                speaking: true,
                started: false,
                mouth_phase: -1i32,
                ..old(self)@.timed
            }),
    {
        self.timed.stop();
        self.timed.speak(text, word_count);
    }

    fn stop(&mut self)
        ensures
            final(self)@ == (SystemView {
                timed: TimedView { speaking: false, ..old(self)@.timed },
                ..old(self)@
            }),
    {
        self.timed.stop();
    }

    fn poll(&mut self, dt_ms: u32) -> (events: Vec<VoiceEvent>)
        ensures
            final(self)@.voice_name == old(self)@.voice_name,
            (final(self)@.timed, events@) == timed_poll(old(self)@.timed, dt_ms),
    {
        self.timed.poll(dt_ms)
    }

    fn is_speaking(&self) -> (r: bool)
        ensures
            r == self@.timed.speaking,
    {
        self.timed.is_speaking()
    }
}

/// The default engine: the system engine (silent timed playback here).
pub fn default_engine() -> (e: Box<dyn TtsEngine>) {
    Box::new(SystemTts::new())
}

} // verus!
