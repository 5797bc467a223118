use selectors::widgets::{PairsState, Phase};

fn data(items: &[(&str, &str)]) -> Vec<(String, String)> {
    items.iter().map(|(a, b)| (a.to_string(), b.to_string())).collect()
}

#[test]
fn starts_with_the_start_hint() {
    let s = PairsState::new(data(&[("a", "b")]));
    assert_eq!(s.from(), "Press <SPC>");
    assert_eq!(s.to(), "start");
    assert_eq!(s.phase(), Phase::NotStarted);
    assert!(!s.is_started());
    assert_eq!(s.remaining(), 1);
}

#[test]
fn start_marks_the_state_started() {
    let mut s = PairsState::new(data(&[("a", "b")]));
    s.start();
    assert!(s.is_started());
    assert_eq!(s.phase(), Phase::NotStarted);
}

#[test]
fn ticks_reveal_pairs_in_order_then_the_exit_hint() {
    let mut s = PairsState::new(data(&[("a", "b"), ("b", "a")]));
    s.tick();
    assert_eq!((s.from(), s.to()), ("a", "b"));
    assert_eq!(s.phase(), Phase::Presenting);
    assert_eq!(s.remaining(), 1);
    s.tick();
    assert_eq!((s.from(), s.to()), ("b", "a"));
    assert_eq!(s.remaining(), 0);
    assert_eq!(s.phase(), Phase::Presenting);
    s.tick();
    assert_eq!((s.from(), s.to()), ("Press <Q>", "exit"));
    assert_eq!(s.phase(), Phase::Exhausted);
    s.tick();
    assert_eq!((s.from(), s.to()), ("Press <Q>", "exit"));
    assert_eq!(s.remaining(), 0);
}

#[test]
fn empty_sequence_is_exhausted_on_first_advance() {
    let mut s = PairsState::new(Vec::new());
    s.tick();
    assert_eq!(s.phase(), Phase::Exhausted);
    assert_eq!((s.from(), s.to()), ("Press <Q>", "exit"));
}

#[test]
fn quitting_before_any_advance_leaves_everything_unrevealed() {
    let mut s = PairsState::new(data(&[("a", "b"), ("b", "a"), ("a", "c")]));
    s.quit();
    assert_eq!(s.phase(), Phase::Quit);
    assert_eq!(s.remaining(), 3);
}

#[test]
fn quitting_midway_leaves_the_rest_unrevealed() {
    let mut s = PairsState::new(data(&[("a", "b"), ("b", "a"), ("a", "c")]));
    s.tick();
    s.quit();
    assert_eq!(s.remaining(), 2);
    s.tick();
    assert_eq!(s.remaining(), 2);
    assert_eq!((s.from(), s.to()), ("a", "b"));
    assert_eq!(s.phase(), Phase::Quit);
}
