use crustagent::idle::IdleDirector;

#[test]
fn escalates_up_to_max_then_holds() {
    let mut d = IdleDirector::with_levels(3).escalate_after(2);
    assert_eq!(d.level(), 1);
    d.escalate();
    assert_eq!(d.level(), 1);
    d.escalate();
    assert_eq!(d.level(), 2);
    d.escalate();
    d.escalate();
    assert_eq!(d.level(), 3);
    for _ in 0..10 {
        d.escalate();
    }
    assert_eq!(d.level(), 3);
}

#[test]
fn single_level_never_escalates() {
    let mut d = IdleDirector::with_levels(1).escalate_after(1);
    for _ in 0..20 {
        d.escalate();
    }
    assert_eq!(d.level(), 1);
}

#[test]
fn zero_levels_and_zero_turns_are_clamped() {
    let mut d = IdleDirector::with_levels(0).escalate_after(0);
    assert_eq!(d.max_level(), 1);
    d.escalate();
    assert_eq!(d.level(), 1);
    let mut e = IdleDirector::with_levels(2).escalate_after(0);
    e.escalate();
    assert_eq!(e.level(), 2);
}
