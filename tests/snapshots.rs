use aquarius::snapshots::Snapshots;
use aquarius::time::{Duration, Instant};

#[test]
fn generates_proper_number_of_timestamps() {
    let curr = Instant::from_nanos(1_000_000_000);
    let max = curr.checked_add(Duration::from_millis(100)).unwrap();
    let snapshots = Snapshots::new(curr, max);
    assert_eq!(snapshots.size_hint(), (0, Some(20)));
    assert_eq!(snapshots.into_points().len(), 20);
}

#[test]
fn empty_range_yields_no_points() {
    let t = Instant::from_nanos(42);
    let mut snapshots = Snapshots::new(t, t);
    assert_eq!(snapshots.next(), None);
    assert_eq!(Snapshots::new(t, t).size_hint(), (0, Some(0)));
}

#[test]
fn one_step_range_yields_its_start() {
    let t = Instant::from_nanos(7);
    let end = t.checked_add(Duration::from_millis(5)).unwrap();
    let points = Snapshots::new(t, end).into_points();
    assert_eq!(points, vec![t]);
}

#[test]
fn points_are_five_milliseconds_apart() {
    let t = Instant::from_nanos(0);
    let end = Instant::from_nanos(12_000_000);
    let points = Snapshots::new(t, end).into_points();
    assert_eq!(
        points,
        vec![
            Instant::from_nanos(0),
            Instant::from_nanos(5_000_000),
            Instant::from_nanos(10_000_000),
        ]
    );
    // the hint counts whole steps only.
    assert_eq!(Snapshots::new(t, end).size_hint(), (0, Some(2)));
}

#[test]
fn reversed_range_is_empty() {
    let points = Snapshots::new(Instant::from_nanos(10), Instant::from_nanos(5)).into_points();
    assert!(points.is_empty());
    assert_eq!(
        Snapshots::new(Instant::from_nanos(10), Instant::from_nanos(5)).size_hint(),
        (0, Some(0))
    );
}

#[test]
fn grid_near_the_end_of_the_clock_stops() {
    let t = Instant::from_nanos(u64::MAX - 1);
    let points = Snapshots::new(t, Instant::from_nanos(u64::MAX)).into_points();
    assert_eq!(points, vec![t]);
}

#[test]
fn instants_and_durations_convert() {
    let a = Instant::from_nanos(3_000);
    let b = Instant::from_nanos(10_500);
    assert_eq!(b.duration_since(a).as_nanos(), 7_500);
    assert_eq!(b.duration_since(a).as_micros(), 7);
    assert_eq!(a.duration_since(b).as_nanos(), 0);
    assert_eq!(Instant::from_nanos(u64::MAX).checked_add(Duration::from_nanos(1)), None);
}
