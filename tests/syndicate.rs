use aquarius::address::Host;
use aquarius::syndicate::{Next, Received, Syndicate};
use aquarius::time::Duration;

/// drains a syndicate whose head is always ready.
fn drain(s: &mut Syndicate<u32>) -> Vec<u32> {
    let mut out = Vec::new();
    while s.next_step() == Next::PollHead {
        out.push(s.take_head().unwrap());
    }
    out
}

#[test]
fn results_come_out_in_enqueue_order() {
    let mut s = Syndicate::new();
    for job in [3, 1, 4, 1, 5] {
        s.receive(Received::Job(job));
    }
    s.receive(Received::Closed);
    assert_eq!(drain(&mut s), vec![3, 1, 4, 1, 5]);
    assert_eq!(s.next_step(), Next::End);
}

#[test]
fn pending_head_is_put_back_first() {
    let mut s = Syndicate::new();
    s.receive(Received::Job(1));
    s.receive(Received::Job(2));
    let head = s.take_head().unwrap();
    assert_eq!(head, 1);
    s.restore_head(head);
    s.receive(Received::Job(3));
    s.receive(Received::Closed);
    assert_eq!(drain(&mut s), vec![1, 2, 3]);
}

#[test]
fn closed_before_any_job_ends_at_once() {
    let mut s: Syndicate<u32> = Syndicate::new();
    assert_eq!(s.next_step(), Next::Wait);
    s.receive(Received::Nothing);
    assert_eq!(s.next_step(), Next::Wait);
    s.receive(Received::Closed);
    assert_eq!(s.next_step(), Next::End);
    assert!(!s.is_open());
}

#[test]
fn one_job_yields_one_result() {
    let mut s = Syndicate::new();
    s.receive(Received::Job(7));
    s.receive(Received::Closed);
    assert_eq!(s.len(), 1);
    assert_eq!(drain(&mut s), vec![7]);
}

#[test]
fn nothing_is_appended_after_close() {
    let mut s = Syndicate::new();
    s.receive(Received::Closed);
    s.receive(Received::Job(9));
    assert_eq!(s.len(), 0);
    assert_eq!(s.next_step(), Next::End);
}

#[test]
fn builder_sets_total_and_rate() {
    let b = Syndicate::<u32>::local(8080).total(Some(10)).rps(Some(8));
    assert_eq!(b.host, Host::localhost());
    assert_eq!(b.port, 8080);
    assert_eq!(b.total, Some(10));
    assert_eq!(b.rps, Some(8));
    let state = b.generator().begin();
    assert_eq!(state.remaining, Some(10));
    assert_eq!(state.pause, Some(Duration::from_millis(125)));
    let plain = Syndicate::<u32>::builder(Host::Domain("example.com".to_string()), 80);
    assert_eq!(plain.total, None);
    assert_eq!(plain.rps, None);
    assert_eq!(plain.generator().begin().pause, None);
}
