use aquarius::report::Report;
use aquarius::summary::{Ratio, Summary};
use aquarius::time::{Duration, Instant};
use aquarius::Error;

const MS: u64 = 1_000_000;

fn report(start_ms: u64, end_ms: u64, status: u16) -> Report {
    Report::new(Instant::from_nanos(start_ms * MS), Instant::from_nanos(end_ms * MS), status)
}

#[test]
fn median_on_known_distribution() {
    let mut summary = Summary::new();
    // durations of 30, 10, 50, 20 and 40 milliseconds, fed out of order.
    for (start, len) in [(0, 30), (5, 10), (2, 50), (1, 20), (3, 40)] {
        summary.record(report(start, start + len, 200));
    }
    assert_eq!(summary.median_duration(), Ok(Duration::from_millis(30)));
}

#[test]
fn median_of_even_count_takes_index_half() {
    let mut summary = Summary::new();
    summary.extend(vec![report(0, 10, 200), report(0, 40, 200), report(0, 20, 200), report(0, 30, 200)]);
    // sorted: 10, 20, 30, 40; index 4 / 2 = 2.
    assert_eq!(summary.median_duration(), Ok(Duration::from_millis(30)));
}

#[test]
fn median_keeps_equal_durations() {
    let mut summary = Summary::new();
    summary.extend(vec![report(0, 10, 200), report(5, 15, 200), report(0, 90, 200)]);
    assert_eq!(summary.median_duration(), Ok(Duration::from_millis(10)));
}

#[test]
fn identical_reports_summarise_to_themselves() {
    let k = 7;
    let mut summary = Summary::new();
    for _ in 0..k {
        summary.record(report(100, 120, 204));
    }
    assert_eq!(summary.total(), k);
    assert_eq!(summary.median_duration(), Ok(Duration::from_millis(20)));
    assert_eq!(summary.success_rate(), Ratio { numer: k as u128, denom: k as u128 });
    // the grid covers [100ms, 120ms): 4 points, each with all 7 in flight.
    assert_eq!(summary.average_in_flight(), Ok(Ratio { numer: 28, denom: 4 }));

    let mut failed = Summary::new();
    for _ in 0..k {
        failed.record(report(100, 120, 503));
    }
    assert_eq!(failed.success_rate(), Ratio { numer: 0, denom: k as u128 });
}

#[test]
fn single_report_is_its_own_median() {
    let mut summary = Summary::new();
    summary.record(report(3, 11, 200));
    assert_eq!(summary.total(), 1);
    assert_eq!(summary.median_duration(), Ok(Duration::from_millis(8)));
}

#[test]
fn empty_summary_queries_fail() {
    let summary = Summary::new();
    assert_eq!(summary.total(), 0);
    assert_eq!(summary.median_duration(), Err(Error::EmptySummary));
    assert_eq!(summary.time_range(), Err(Error::EmptySummary));
    assert_eq!(summary.compute_in_flight_observations(), Err(Error::EmptySummary));
    assert_eq!(summary.compute_progress_observations(), Err(Error::EmptySummary));
    assert_eq!(summary.average_in_flight(), Err(Error::EmptySummary));
}

#[test]
fn time_range_spans_all_timestamps() {
    let mut summary = Summary::new();
    summary.extend(vec![report(10, 30, 200), report(5, 12, 200), report(20, 40, 200)]);
    let (min, max) = summary.time_range().unwrap();
    assert_eq!(min, Instant::from_nanos(5 * MS));
    assert_eq!(max, Instant::from_nanos(40 * MS));
}

#[test]
fn success_rate_counts_two_hundreds() {
    let mut summary = Summary::new();
    summary.extend(vec![report(0, 1, 200), report(0, 1, 299), report(0, 1, 300), report(0, 1, 199)]);
    assert_eq!(summary.success_count(), 2);
    assert_eq!(summary.success_rate(), Ratio { numer: 2, denom: 4 });
}

#[test]
fn in_flight_observations_on_the_grid() {
    let mut summary = Summary::new();
    // one worker over [0, 10ms], another over [5ms, 20ms].
    summary.extend(vec![report(0, 10, 200), report(5, 20, 200)]);
    let obs = summary.compute_in_flight_observations().unwrap();
    assert_eq!(
        obs,
        vec![
            (Instant::from_nanos(0), 1),
            (Instant::from_nanos(5 * MS), 2),
            (Instant::from_nanos(10 * MS), 2),
            (Instant::from_nanos(15 * MS), 1),
        ]
    );
    for (_, n) in &obs {
        assert!(*n <= summary.total());
    }
    assert_eq!(summary.average_in_flight(), Ok(Ratio { numer: 6, denom: 4 }));
}

#[test]
fn progress_observations_are_monotone() {
    let mut summary = Summary::new();
    summary.extend(vec![report(0, 10, 200), report(5, 20, 200), report(0, 4, 200)]);
    let obs = summary.compute_progress_observations().unwrap();
    let finished: Vec<u128> = obs.iter().map(|(_, r)| r.numer).collect();
    assert_eq!(finished, vec![0, 1, 2, 2]);
    for (_, r) in &obs {
        assert_eq!(r.denom, 3);
        assert!(r.numer <= r.denom);
    }
    for w in finished.windows(2) {
        assert!(w[0] <= w[1]);
    }
}

#[test]
fn absorb_records_reports_and_hands_back_errors() {
    let mut summary = Summary::new();
    assert_eq!(summary.absorb(Ok(report(0, 2, 200))), Ok(()));
    assert_eq!(summary.absorb(Err(Error::Connect)), Err(Error::Connect));
    assert_eq!(summary.total(), 1);
}

#[test]
fn instant_range_has_no_average() {
    let mut summary = Summary::new();
    summary.record(report(4, 4, 200));
    assert_eq!(summary.time_range(), Ok((Instant::from_nanos(4 * MS), Instant::from_nanos(4 * MS))));
    assert_eq!(summary.compute_in_flight_observations(), Ok(vec![]));
    assert_eq!(summary.average_in_flight(), Err(Error::EmptySummary));
}
