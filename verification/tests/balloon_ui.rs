use crustagent::ask::{AskHit, Button};
use crustagent::agent::{BalloonKind, BalloonStyle};
use crustagent::balloon_ui::{balloon_paint, AskRect, AskState, BalloonPaint, Phase};

#[test]
fn a_held_control_reads_pressed_only_while_the_pointer_stays_on_it() {
    let a = AskHit::Choice(0);
    let b = AskHit::Choice(1);

    let idle = AskState::default();
    assert_eq!(idle.phase(a), Phase::Idle);

    let hovering = AskState {
        hover: Some(a),
        ..AskState::default()
    };
    assert_eq!(hovering.phase(a), Phase::Hover);
    assert_eq!(hovering.phase(b), Phase::Idle);

    let holding = AskState {
        hover: Some(a),
        pressed: Some(a),
        ..AskState::default()
    };
    assert_eq!(holding.phase(a), Phase::Pressed);

    // Dragged off while still held: the control releases visually, so letting go there
    // reads as the cancel it is. Nothing else lights up while a press is in flight.
    let dragged_off = AskState {
        hover: Some(b),
        pressed: Some(a),
        ..AskState::default()
    };
    assert_eq!(dragged_off.phase(a), Phase::Idle);
    assert_eq!(dragged_off.phase(b), Phase::Idle);
}

#[test]
fn defaults_show_a_steady_caret_and_no_touch() {
    let s = AskState::default();
    assert!(s.caret_on && !s.focused);
    assert_eq!(s.hover, None);
    assert_eq!(Phase::default(), Phase::Idle);
}

#[test]
fn regions_are_half_open() {
    let r = AskRect { hit: AskHit::Button(Button::Cancel), x: 10, y: 20, w: 5, h: 4 };
    assert!(r.contains(10, 20));
    assert!(r.contains(14, 23));
    assert!(!r.contains(15, 20));
    assert!(!r.contains(10, 24));
    assert!(!r.contains(9, 21));
}

fn style(fg: (u8, u8, u8), bg: (u8, u8, u8)) -> BalloonStyle {
    BalloonStyle {
        fg,
        bg,
        border: (1, 2, 3),
        lines: 2,
        per_line: 32,
        size_to_text: false,
        auto_hide: true,
        auto_pace: true,
    }
}

#[test]
fn balloon_paint_takes_the_characters_colors() {
    let p = balloon_paint(&style((0, 0, 0), (200, 210, 220)), BalloonKind::Speak);
    assert_eq!(p.bg, [200, 210, 220]);
    assert_eq!(p.text, [0, 0, 0]);
    assert_eq!(p.border, [1, 2, 3]);
    assert!(!p.think);
    assert_eq!(p.accent, BalloonPaint::default().accent);
    assert_eq!(p.face, BalloonPaint::default().face);
}

#[test]
fn balloon_paint_falls_back_when_text_would_be_invisible() {
    let p = balloon_paint(&style((9, 9, 9), (9, 9, 9)), BalloonKind::Think);
    assert_eq!(p.bg, [0xFF, 0xFF, 0xE1]);
    assert_eq!(p.text, [0x10, 0x10, 0x10]);
    assert!(p.think);
}

#[test]
fn default_balloon_paint() {
    let p = BalloonPaint::default();
    assert_eq!(p.bg, [0xFF, 0xFF, 0xE1]);
    assert_eq!(p.border, [0x40, 0x40, 0x40]);
    assert_eq!(p.text, [0x10, 0x10, 0x10]);
    assert!(!p.think);
}
