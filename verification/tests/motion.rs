use crustagent::motion::{Direction, MoveTo};

#[test]
fn direction_dominant_axis() {
    assert_eq!(Direction::toward(100, 10), Direction::Right);
    assert_eq!(Direction::toward(-100, 10), Direction::Left);
    assert_eq!(Direction::toward(10, 100), Direction::Down);
    assert_eq!(Direction::toward(10, -100), Direction::Up);
    assert_eq!(Direction::toward(50, 50), Direction::Right);
    assert_eq!(Direction::toward(-50, -50), Direction::Left);
}

#[test]
fn state_names() {
    assert_eq!(Direction::Up.move_state(), "MOVINGUP");
    assert_eq!(Direction::Down.move_state(), "MOVINGDOWN");
    assert_eq!(Direction::Right.move_state(), "MOVINGLEFT");
    assert_eq!(Direction::Left.move_state(), "MOVINGRIGHT");
    assert_eq!(Direction::Left.gesture_state(), "GESTURINGLEFT");
    assert_eq!(Direction::Right.gesture_state(), "GESTURINGRIGHT");
}

#[test]
fn move_interpolates_and_finishes() {
    let mut m = MoveTo::new((0, 0), (100, 0), 100);
    assert_eq!(m.direction(), Direction::Right);
    assert_eq!(m.position(), (0, 0));
    m.advance(500);
    assert_eq!(m.position(), (50, 0));
    assert!(!m.is_done());
    m.advance(600);
    assert!(m.is_done());
    assert_eq!(m.position(), (100, 0));
}

#[test]
fn zero_speed_teleports() {
    let m = MoveTo::new((0, 0), (40, 60), 0);
    assert!(m.is_done());
    assert_eq!(m.position(), (40, 60));
}

#[test]
fn duration_rounds_to_the_nearest_millisecond() {
    // 3-4-5 triangle: 5 px at 3 px/s is 1666.67 ms.
    assert_eq!(MoveTo::new((0, 0), (3, 4), 3).duration_ms(), 1667);
    // 1 px at 2000 px/s is exactly half a millisecond: halves round up.
    assert_eq!(MoveTo::new((0, 0), (1, 0), 2000).duration_ms(), 1);
    // sqrt(2) px at 1 px/s is 1414.2 ms.
    assert_eq!(MoveTo::new((0, 0), (1, 1), 1).duration_ms(), 1414);
}

#[test]
fn position_rounds_halves_away_from_zero() {
    let mut m = MoveTo::new((-5, 0), (-4, 0), 1);
    assert_eq!(m.duration_ms(), 1000);
    m.advance(500);
    assert_eq!(m.position(), (-5, 0));
    let mut n = MoveTo::new((0, 0), (-3, 0), 1);
    n.advance(n.duration_ms() / 2);
    assert_eq!(n.position(), (-2, 0));
}

#[test]
fn retime_clamps_elapsed() {
    let mut m = MoveTo::new((0, 0), (100, 0), 100);
    m.advance(800);
    m.retime(400);
    assert_eq!(m.duration_ms(), 400);
    assert!(m.is_done());
    assert_eq!(m.position(), (100, 0));
}
