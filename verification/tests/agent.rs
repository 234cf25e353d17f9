use crustagent::acs::AcsFile;
use crustagent::agent::{frame_empty, Agent, BalloonKind, Event, MouseButton, ReqId};
use crustagent::model::{
    Animation, Branch, FileHeader, Frame, FrameImage, Guid, Name, ReturnKind, Rgba, State,
};

/// A minimal in-memory character with SHOWING/HIDING/idle animations but no `MOVING*`
/// state, so a move has to teleport rather than walk.
fn teleporter() -> Agent {
    let frame = |dur: u16| Frame {
        duration: dur,
        sound_ndx: -1,
        exit_frame: -1,
        branching: Vec::new(),
        images: vec![FrameImage {
            image_ndx: 0,
            offset: (0, 0),
        }],
        overlays: Vec::new(),
    };
    let anim = |name: &str, dur: u16| Animation {
        name: name.into(),
        return_kind: ReturnKind::NoReturn,
        return_name: String::new(),
        frames: vec![frame(dur)],
    };
    let animations = vec![anim("Show", 20), anim("Hide", 20), anim("Idle", 100)];
    let gesture_names: Vec<String> = animations.iter().map(|a| a.name.clone()).collect();
    let states = vec![
        State {
            name: "SHOWING".into(),
            animations: vec!["Show".into()],
        },
        State {
            name: "HIDING".into(),
            animations: vec!["Hide".into()],
        },
        State {
            name: "IDLINGLEVEL1".into(),
            animations: vec!["Idle".into()],
        },
        // deliberately no MOVINGLEFT/RIGHT/UP/DOWN
    ];
    let header = FileHeader {
        version_major: 2,
        version_minor: 0,
        guid: Guid([0; 16]),
        image_size: (1, 1),
        transparency: 0,
        style: 0,
        palette: Vec::new(),
    };
    let names = vec![Name {
        language: 0x0409,
        name: "Tele".into(),
        desc1: String::new(),
        desc2: String::new(),
    }];
    let images = vec![Rgba {
        width: 1,
        height: 1,
        pixels: vec![0, 0, 0, 0],
    }];
    Agent::from_file(AcsFile::from_parts_rgba(
        header,
        None,
        None,
        names,
        states,
        gesture_names,
        animations,
        images,
        Vec::new(),
    ))
}

/// Advance the agent by `ms`, in 16ms steps.
fn run(agent: &mut Agent, ms: u32) {
    let mut left = ms;
    while left > 0 {
        let dt = left.min(16);
        agent.update(dt);
        left -= dt;
    }
}

#[test]
fn move_without_a_walk_animation_teleports() {
    let mut agent = teleporter();
    agent.show();
    run(&mut agent, 3000);
    agent.set_position(0, 0);
    assert_eq!(agent.position(), (0, 0));

    agent.move_to(300, 200, 300);
    // Still vanishing (HIDING is ~200ms) — a glide at 300px/s would already have crept
    // forward by now, but a teleport holds the start position until the jump.
    run(&mut agent, 60);
    assert_eq!(
        agent.position(),
        (0, 0),
        "teleport holds position while vanishing (no glide)"
    );

    run(&mut agent, 3000); // HIDING → jump → SHOWING completes
    assert_eq!(
        agent.position(),
        (300, 200),
        "teleport lands exactly on the destination"
    );
}

#[test]
fn play_looping_honors_the_built_in_loop_point() {
    // Animation "Loop": frame 0 is a one-time intro; frames 1-2 are the loop (frame 2 -> 1).
    let f = |img: u32, branch: &[(i16, u16)]| Frame {
        duration: 10,
        sound_ndx: -1,
        exit_frame: -1,
        branching: branch
            .iter()
            .map(|&(frame_ndx, probability)| Branch {
                frame_ndx,
                probability,
            })
            .collect(),
        images: vec![FrameImage {
            image_ndx: img,
            offset: (0, 0),
        }],
        overlays: Vec::new(),
    };
    let loop_anim = Animation {
        name: "Loop".into(),
        return_kind: ReturnKind::NoReturn,
        return_name: String::new(),
        frames: vec![f(0, &[]), f(1, &[]), f(2, &[(1, 100)])],
    };
    let header = FileHeader {
        version_major: 2,
        version_minor: 0,
        guid: Guid([0; 16]),
        image_size: (1, 1),
        transparency: 0,
        style: 0,
        palette: Vec::new(),
    };
    let images = (0..3)
        .map(|_| Rgba {
            width: 1,
            height: 1,
            pixels: vec![0, 0, 0, 0],
        })
        .collect();
    let mut agent = Agent::from_file(AcsFile::from_parts_rgba(
        header,
        None,
        None,
        vec![Name {
            language: 0x0409,
            name: "Loop".into(),
            desc1: String::new(),
            desc2: String::new(),
        }],
        vec![State {
            name: "IDLINGLEVEL1".into(),
            animations: vec!["Loop".into()],
        }],
        vec!["Loop".into()],
        vec![loop_anim],
        images,
        Vec::new(),
    ));
    agent.show_fast();
    agent.update(16);
    agent.play_looping("Loop");

    // The intro frame (0) lasts 100ms; run past one full pass, then confirm the body keeps
    // cycling and the intro never replays.
    run(&mut agent, 400);
    let mut saw_body = false;
    for _ in 0..40 {
        run(&mut agent, 16);
        if let Some((_, frame, _)) = agent.current_frame_token() {
            assert_ne!(frame, 0, "intro frame replayed — loop point not honored");
            saw_body |= frame == 1 || frame == 2;
        }
    }
    assert!(saw_body, "the loop body should be cycling");
}

#[test]
fn wait_holds_the_current_frame_instead_of_replaying() {
    // A 3-frame gesture (no branch, no return).
    let f = |img: u32| Frame {
        duration: 10,
        sound_ndx: -1,
        exit_frame: -1,
        branching: Vec::new(),
        images: vec![FrameImage {
            image_ndx: img,
            offset: (0, 0),
        }],
        overlays: Vec::new(),
    };
    let wag = Animation {
        name: "Wag".into(),
        return_kind: ReturnKind::NoReturn,
        return_name: String::new(),
        frames: vec![f(0), f(1), f(2)],
    };
    let header = FileHeader {
        version_major: 2,
        version_minor: 0,
        guid: Guid([0; 16]),
        image_size: (1, 1),
        transparency: 0,
        style: 0,
        palette: Vec::new(),
    };
    let images = (0..3)
        .map(|_| Rgba {
            width: 1,
            height: 1,
            pixels: vec![0, 0, 0, 0],
        })
        .collect();
    let mut agent = Agent::from_file(AcsFile::from_parts_rgba(
        header,
        None,
        None,
        vec![Name {
            language: 0x0409,
            name: "Wag".into(),
            desc1: String::new(),
            desc2: String::new(),
        }],
        vec![State {
            name: "IDLINGLEVEL1".into(),
            animations: vec!["Wag".into()],
        }],
        vec!["Wag".into()],
        vec![wag],
        images,
        Vec::new(),
    ));
    agent.show_fast();
    agent.update(16);

    // Play the 3-frame gesture (300ms), then a long wait. During the wait the frame must
    // hold — the regression replayed the gesture's frames over the wait's timeline.
    agent.play("Wag");
    agent.wait(2000);
    run(&mut agent, 400); // ~100ms into the wait (gesture is 300ms)
    let held = agent.current_frame_token();
    let mut changed = false;
    for _ in 0..60 {
        agent.update(16);
        if agent.current_frame_token() != held {
            changed = true;
            break;
        }
    }
    assert!(
        !changed,
        "frame changed during the wait — it replayed instead of holding"
    );
}

#[test]
fn requests_start_and_complete_in_queue_order() {
    let mut agent = teleporter();
    let a = agent.show_fast();
    let b = agent.wait(50);
    let c = agent.hide_fast();
    assert_eq!((a, b, c), (ReqId(1), ReqId(2), ReqId(3)));
    run(&mut agent, 500);
    let events = agent.drain_events();
    let started: Vec<ReqId> = events
        .iter()
        .filter_map(|e| match e {
            Event::RequestStarted(id) => Some(*id),
            _ => None,
        })
        .collect();
    assert_eq!(started, vec![a, b, c]);
    assert!(events.contains(&Event::Shown));
    assert!(events.contains(&Event::Hidden));
    assert!(!agent.is_visible());
}

#[test]
fn stop_reports_unstarted_requests_as_completed() {
    let mut agent = teleporter();
    let a = agent.wait(10);
    let b = agent.play("Idle");
    agent.stop();
    assert_eq!(
        agent.drain_events(),
        vec![Event::RequestCompleted(a), Event::RequestCompleted(b)]
    );
    run(&mut agent, 100);
    assert!(agent.drain_events().is_empty(), "nothing left to start while hidden");
}

#[test]
fn pause_freezes_everything() {
    let mut agent = teleporter();
    agent.show();
    agent.pause();
    assert!(agent.is_paused());
    run(&mut agent, 500);
    assert!(agent.drain_events().is_empty());
    assert!(!agent.is_visible());
    agent.resume();
    run(&mut agent, 100);
    assert!(agent.is_visible());
}

#[test]
fn host_reports_come_back_as_events() {
    let mut agent = teleporter();
    agent.report_click(MouseButton::Left, 3, 4);
    agent.report_double_click(MouseButton::Right, 5, 6);
    agent.report_drag_start();
    agent.report_drag_complete();
    agent.set_position(10, 20);
    agent.set_position(10, 20);
    assert_eq!(agent.poll_event(), Some(Event::Clicked { button: MouseButton::Left, x: 3, y: 4 }));
    assert_eq!(
        agent.drain_events(),
        vec![
            Event::DoubleClicked { button: MouseButton::Right, x: 5, y: 6 },
            Event::DragStarted,
            Event::DragCompleted,
            Event::Moved { x: 10, y: 20 },
        ]
    );
    assert_eq!(agent.poll_event(), None);
}

#[test]
fn think_shows_a_thought_balloon_that_fills_in() {
    let mut agent = teleporter();
    agent.show_fast();
    agent.think("one two three");
    run(&mut agent, 100);
    let view = agent.balloon().expect("a balloon while thinking");
    assert_eq!(view.kind, BalloonKind::Think);
    assert_eq!(view.total_words, 3);
    run(&mut agent, 2000);
    let view = agent.balloon().expect("lingers after the phrase");
    assert_eq!(view.shown_words, 3);
    run(&mut agent, 4000);
    assert!(agent.balloon().is_none(), "auto-hidden");
    agent.hide_balloon();
}

#[test]
fn the_default_style_is_two_lines_of_thirty_two() {
    let agent = teleporter();
    let style = agent.balloon_style();
    assert_eq!((style.lines, style.per_line), (2, 32));
    assert!(style.auto_hide && style.auto_pace && !style.size_to_text);
    assert_eq!(agent.size(), (1, 1));
    assert!(agent.composite_current().is_none());
    assert!(agent.current_frame_token().is_none());
}

#[test]
fn frame_empty_sees_frames_that_show_nothing() {
    let agent = teleporter();
    // The only art is a fully transparent pixel.
    assert!(frame_empty(&agent, "Show", true));
    assert!(frame_empty(&agent, "hide", false));
    assert!(!frame_empty(&agent, "Nope", true));
}

#[test]
fn frame_empty_is_false_for_visible_art() {
    let frame = Frame {
        duration: 10,
        sound_ndx: -1,
        exit_frame: -1,
        branching: Vec::new(),
        images: vec![FrameImage { image_ndx: 0, offset: (0, 0) }],
        overlays: Vec::new(),
    };
    let anim = Animation { name: "Wave".into(), return_kind: ReturnKind::NoReturn, return_name: String::new(), frames: vec![frame] };
    let header = FileHeader {
        version_major: 2,
        version_minor: 0,
        guid: Guid([0; 16]),
        image_size: (1, 1),
        transparency: 0,
        style: 0,
        palette: Vec::new(),
    };
    let agent = Agent::from_file(AcsFile::from_parts_rgba(
        header,
        None,
        None,
        Vec::new(),
        Vec::new(),
        vec!["Wave".into()],
        vec![anim],
        vec![Rgba { width: 1, height: 1, pixels: vec![9, 9, 9, 255] }],
        Vec::new(),
    ));
    assert!(!frame_empty(&agent, "Wave", true));
}

#[test]
fn say_over_shows_a_balloon_without_queuing() {
    let mut agent = teleporter();
    agent.show();
    run(&mut agent, 100);
    agent.drain_events();
    agent.say_over("Hello there \\Mrk=3\\friend");
    let evs = agent.drain_events();
    assert_eq!(evs, vec![Event::BalloonShown, Event::SpeechStarted]);
    let b = agent.balloon().expect("a balloon");
    assert_eq!(b.kind, BalloonKind::Speak);
    assert_eq!(b.total_words, 3);
    agent.think_over("Hmm");
    let evs = agent.drain_events();
    assert_eq!(evs, vec![Event::BalloonHidden, Event::BalloonShown]);
    assert_eq!(agent.balloon().expect("a balloon").kind, BalloonKind::Think);
}
