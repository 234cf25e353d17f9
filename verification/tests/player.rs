use crustagent::player::Player;
use crustagent::sequence::{AnimationSequence, SeqFrame};

fn play_once() -> AnimationSequence {
    AnimationSequence {
        frames: vec![
            SeqFrame { frame: 0, start_cs: 0, duration_cs: 10 },
            SeqFrame { frame: 1, start_cs: 10, duration_cs: 20 },
        ],
        total_cs: 30,
        loop_start_cs: None,
        truncated: false,
    }
}

#[test]
fn play_once_progresses_then_finishes() {
    let mut p = Player::new(play_once());
    assert_eq!(p.current_frame(), Some(0));
    p.advance(90);
    assert_eq!(p.current_frame(), Some(0));
    p.advance(20);
    assert_eq!(p.current_frame(), Some(1));
    p.advance(200);
    assert!(p.is_finished());
    assert_eq!(p.current_frame(), None);
}

#[test]
fn looping_wraps_into_loop_tail() {
    let mut seq = play_once();
    seq.loop_start_cs = Some(10);
    let mut p = Player::new(seq);

    p.advance(300);
    assert!(!p.is_finished());
    assert_eq!(p.current_frame(), Some(1));

    p.advance(200);
    assert_eq!(p.current_frame(), Some(1));

    p.reset();
    assert_eq!(p.current_frame(), Some(0));
}

#[test]
fn empty_sequence_is_immediately_finished() {
    let p = Player::new(AnimationSequence::default());
    assert!(p.is_finished());
    assert_eq!(p.current_frame(), None);
}

#[test]
fn advance_saturates_and_elapsed_reports_it() {
    let mut p = Player::new(play_once());
    p.advance(u64::MAX - 5);
    p.advance(100);
    assert_eq!(p.elapsed_ms(), u64::MAX);
    assert_eq!(p.sequence().total_cs, 30);
}

#[test]
fn looping_never_returns_to_the_intro_frame() {
    let mut seq = play_once();
    seq.loop_start_cs = Some(10);
    let mut p = Player::new(seq);
    p.advance(300);
    for _ in 0..50 {
        assert_eq!(p.current_frame(), Some(1));
        p.advance(37);
    }
}
