use aquarius::generator::{Generator, GeneratorAction, SendOutcome, CHANNEL_SIZE};
use std::time::Duration;
use tokio::sync::mpsc::{self, error::TrySendError};

/// runs a generator's loop over a tokio channel, returning how many values it sent.
async fn pace(gen: Generator, tx: mpsc::Sender<()>) -> u64 {
    let mut state = gen.begin();
    while state.should_emit() {
        let outcome = match tx.try_send(()) {
            Ok(()) => SendOutcome::Accepted,
            Err(TrySendError::Full(_)) => SendOutcome::Full,
            Err(TrySendError::Closed(_)) => SendOutcome::Closed,
        };
        match state.on_send(outcome) {
            GeneratorAction::Pause(d) => tokio::time::sleep(Duration::from_nanos(d.as_nanos())).await,
            GeneratorAction::Continue => tokio::task::yield_now().await,
            GeneratorAction::Stop => break,
            GeneratorAction::Overflow => panic!("generator channel is full"),
        }
    }
    state.yielded
}

#[test]
fn generator_can_yield_values_at_approximate_rps() {
    const RPS: u32 = 32;
    const SECS: u64 = 2;
    const EXPECTED: u64 = RPS as u64 * SECS;
    const MARGIN_OF_ERROR: u64 = EXPECTED / 10;
    assert!(EXPECTED < CHANNEL_SIZE as u64, "this test has bad constants");

    let rt = tokio::runtime::Builder::new_multi_thread()
        .worker_threads(4)
        .enable_all()
        .build()
        .unwrap();
    let cnt = rt.block_on(async {
        let (tx, rx) = mpsc::channel(CHANNEL_SIZE);
        let gen = tokio::spawn(pace(Generator::new().at_rate_per_second(Some(RPS)), tx));
        tokio::time::sleep(Duration::from_secs(SECS)).await;
        gen.abort();
        rx.len() as u64
    });
    let approx = (EXPECTED - MARGIN_OF_ERROR)..=(EXPECTED + MARGIN_OF_ERROR);
    assert!(approx.contains(&cnt), "expected ~{EXPECTED}, found {cnt}");
}

#[test]
fn generator_closes_after_total_values() {
    let rt = tokio::runtime::Builder::new_current_thread().enable_all().build().unwrap();
    rt.block_on(async {
        let (tx, mut rx) = mpsc::channel(CHANNEL_SIZE);
        let gen = tokio::spawn(pace(Generator::new().with_total(Some(4)), tx));
        for _ in 0..4 {
            assert!(rx.recv().await.is_some());
        }
        assert!(rx.recv().await.is_none());
        assert_eq!(gen.await.unwrap(), 4);
    });
}

#[test]
fn unbounded_generator_closes_on_receiver_drop() {
    let rt = tokio::runtime::Builder::new_current_thread().enable_all().build().unwrap();
    rt.block_on(async {
        let (tx, rx) = mpsc::channel(CHANNEL_SIZE);
        let gen = tokio::spawn(pace(Generator::new(), tx));
        drop(rx);
        let yielded = gen.await.expect("the generator ends without panic");
        assert!(yielded <= CHANNEL_SIZE as u64);
    });
}
