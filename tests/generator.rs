use aquarius::generator::{Generator, GeneratorAction, GeneratorState, SendOutcome, CHANNEL_SIZE};
use aquarius::time::Duration;

/// drives a generator's loop with every send accepted, returning how many values it made,
/// stopping after `limit` values.
fn run_accepting(mut state: GeneratorState, limit: u64) -> u64 {
    let mut made = 0;
    while state.should_emit() && made < limit {
        made += 1;
        match state.on_send(SendOutcome::Accepted) {
            GeneratorAction::Pause(_) | GeneratorAction::Continue => {}
            other => panic!("unexpected action {other:?}"),
        }
    }
    made
}

#[test]
fn generator_can_yield_a_value() {
    let state = Generator::new().with_total(Some(1)).begin();
    assert_eq!(run_accepting(state, 1000), 1);
}

#[test]
fn generator_can_yield_four_values() {
    let mut state = Generator::new().with_total(Some(4)).begin();
    for _ in 0..4 {
        assert!(state.should_emit());
        assert_eq!(state.on_send(SendOutcome::Accepted), GeneratorAction::Continue);
    }
    assert!(!state.should_emit());
    assert_eq!(state.yielded, 4);
}

#[test]
fn zero_total_yields_nothing() {
    let state = Generator::new().with_total(Some(0)).begin();
    assert!(!state.should_emit());
}

#[test]
fn rate_sets_the_pause() {
    let gen = Generator::new().at_rate_per_second(Some(32));
    let mut state = gen.begin();
    assert_eq!(state.pause, Some(Duration::from_nanos(31_250_000)));
    assert_eq!(state.on_send(SendOutcome::Accepted), GeneratorAction::Pause(Duration::from_nanos(31_250_000)));
    let third = Generator::new().at_rate_per_second(Some(3)).begin();
    assert_eq!(third.pause, Some(Duration::from_nanos(333_333_333)));
    let once = Generator::new().at_rate_per_second(Some(1)).begin();
    assert_eq!(once.pause, Some(Duration::from_millis(1000)));
    let none = Generator::new().at_rate_per_second(None).begin();
    assert_eq!(none.pause, None);
}

#[test]
fn rate_over_two_seconds_expects_sixty_four() {
    // the pause at 32 per second, times 64 values, is two seconds.
    let state = Generator::new().at_rate_per_second(Some(32)).begin();
    assert_eq!(state.pause.unwrap().as_nanos() * 64, 2_000_000_000);
    assert!(64 < CHANNEL_SIZE);
}

#[test]
fn unbounded_generator_stops_when_receiver_is_gone() {
    let mut state = Generator::new().begin();
    assert_eq!(run_accepting(state, 300), 300);
    for _ in 0..10 {
        assert_eq!(state.on_send(SendOutcome::Accepted), GeneratorAction::Continue);
    }
    assert!(state.should_emit());
    assert_eq!(state.on_send(SendOutcome::Closed), GeneratorAction::Stop);
}

#[test]
fn full_channel_is_fatal() {
    let mut state = Generator::new().with_total(Some(3)).begin();
    assert_eq!(state.on_send(SendOutcome::Full), GeneratorAction::Overflow);
    assert_eq!(state.remaining, Some(3));
    assert_eq!(state.yielded, 0);
}

#[test]
fn with_pause_keeps_total() {
    let state = Generator::new()
        .with_total(Some(9))
        .with_pause(Some(Duration::from_millis(2)))
        .begin();
    assert_eq!(state.remaining, Some(9));
    assert_eq!(state.pause, Some(Duration::from_millis(2)));
}
