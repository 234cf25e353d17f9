use crustagent::model::{Gender, Guid, Tts};
use crustagent::tts::{default_engine, iso_639_1, SystemTts, TimedTts, TtsEngine, VoiceEvent, VoiceRequest};

#[test]
fn maps_langid_to_iso_639_1() {
    assert_eq!(iso_639_1(0x0409), Some("en"));
    assert_eq!(iso_639_1(0x0809), Some("en"));
    assert_eq!(iso_639_1(0x080C), Some("fr"));
    assert_eq!(iso_639_1(0x0413), Some("nl"));
    assert_eq!(iso_639_1(0x045E), None);
}

#[test]
fn voice_request_reads_the_character_voice_block() {
    let mut mode = [0u8; 16];
    mode.copy_from_slice(&[
        0xD0, 0x1F, 0x14, 0xCA, 0x7F, 0xAC, 0xD1, 0x11, 0x97, 0xA3, 0x00, 0x60, 0x08, 0x27, 0x30,
        0x08,
    ]);
    let mut tts = Tts {
        engine: Guid([0; 16]),
        mode: Guid(mode),
        speed: -1,
        pitch: -1,
        language: Some(0x0409),
        gender: 0,
        age: 0,
        style: String::new(),
    };
    assert_eq!(
        VoiceRequest::from_tts(&tts),
        VoiceRequest { gender: Gender::Female, language: Some("en") }
    );

    tts.gender = 2;
    assert_eq!(VoiceRequest::from_tts(&tts).gender, Gender::Male);
}

fn drain(engine: &mut TimedTts, ms: u32, step: u32) -> Vec<VoiceEvent> {
    let mut all = Vec::new();
    let mut left = ms;
    while left > 0 {
        let dt = left.min(step);
        all.extend(engine.poll(dt));
        left -= dt;
    }
    all
}

#[test]
fn paces_words_then_ends() {
    let mut t = TimedTts::new();
    t.speak("one two three", 3);
    let events = drain(&mut t, 1000, 16);

    let words: Vec<usize> = events
        .iter()
        .filter_map(|e| match e {
            VoiceEvent::WordStarted(i) => Some(*i),
            _ => None,
        })
        .collect();
    assert_eq!(words, vec![0, 1, 2]);
    assert!(events.first() == Some(&VoiceEvent::Started));
    assert!(events.contains(&VoiceEvent::Ended));
    assert!(!t.is_speaking());
}

#[test]
fn emits_mouth_movement() {
    let mut t = TimedTts::new();
    t.speak("hello", 1);
    let events = drain(&mut t, 400, 16);
    let mouths = events.iter().filter(|e| matches!(e, VoiceEvent::Mouth(_))).count();
    assert!(mouths >= 2, "mouth should move at least twice");
}

#[test]
fn stop_halts_events() {
    let mut t = TimedTts::new();
    t.speak("a b c d", 4);
    let _ = t.poll(16);
    t.stop();
    assert!(t.poll(1000).is_empty());
    assert!(!t.is_speaking());
}

#[test]
fn one_poll_can_announce_several_words_in_order() {
    let mut t = TimedTts::new().with_pace(100);
    t.speak("a b c", 0);
    assert_eq!(t.poll(0), vec![VoiceEvent::Started, VoiceEvent::WordStarted(0), VoiceEvent::Mouth(crustagent::model::MouthOverlay::Wide2)]);
    t.speak("a b c", 3);
    let evs = t.poll(250);
    assert_eq!(
        evs,
        vec![
            VoiceEvent::Started,
            VoiceEvent::WordStarted(0),
            VoiceEvent::WordStarted(1),
            VoiceEvent::WordStarted(2),
            VoiceEvent::Mouth(crustagent::model::MouthOverlay::Closed),
        ]
    );
    let end = t.poll(50);
    assert_eq!(
        end,
        vec![
            VoiceEvent::Mouth(crustagent::model::MouthOverlay::Wide2),
            VoiceEvent::Mouth(crustagent::model::MouthOverlay::Closed),
            VoiceEvent::Ended,
        ]
    );
}

#[test]
fn system_engine_plays_silently_on_the_timer() {
    let mut s = SystemTts::new();
    assert_eq!(s.voice_name(), None);
    s.set_voice(VoiceRequest { gender: Gender::Male, language: Some("en") });
    assert_eq!(s.voice_name(), None);
    s.speak("hi", 1);
    assert!(s.is_speaking());
    let evs = s.poll(400);
    assert_eq!(evs.last(), Some(&VoiceEvent::Ended));
    let mut d = default_engine();
    d.speak("x", 1);
    assert!(d.is_speaking());
}
