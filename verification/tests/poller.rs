use luckyprotocol_indexer::indexer::{ErrorKind, IndexerState, Network};
use luckyprotocol_indexer::poller::{
    after_iteration, backfill_start, effective_start, next_retry_delay, IterationOutcome, PollAction,
    PollEvent, Poller,
};

fn state(height: u32) -> IndexerState {
    let mut s = IndexerState::new(Network::Bitcoin, String::new());
    for h in (height.saturating_sub(2))..height {
        s.block_hashes.insert(h + 1, format!("h{}", h + 1));
    }
    s.indexed_height = height;
    s
}

fn ok(s: &str) -> Result<String, String> {
    Ok(s.to_string())
}

fn finish(cadence: Option<u64>) -> PollAction {
    PollAction::Finish { cadence }
}

const START: u32 = 950_950;

#[test]
fn an_empty_state_scans_from_activation() {
    let mut s = state(0);
    let mut p = Poller::new(10);
    assert_eq!(p.start(), PollAction::AskTip);
    let a = p.step(&mut s, PollEvent::Tip(Ok(START + 3)), 1, 1);
    assert_eq!(a, PollAction::Scan { from: START, to: START + 3 });
    s.indexed_height = START + 2;
    let a = p.step(&mut s, PollEvent::Scanned(Ok(())), 1, 1);
    assert_eq!(a, PollAction::Persist);
    assert_eq!(s.tip_height, START + 3);
    // Still behind: the short cadence.
    assert_eq!(p.step(&mut s, PollEvent::Resumed, 1, 1), finish(Some(5)));
}

#[test]
fn nothing_is_scanned_before_activation() {
    let mut s = state(0);
    let mut p = Poller::new(10);
    p.start();
    assert_eq!(p.step(&mut s, PollEvent::Tip(Ok(START - 1)), 1, 1), finish(Some(5)));
    assert_eq!(s.indexed_height, 0);
    assert_eq!(s.tip_height, START - 1);
    p.start();
    let a = p.step(&mut s, PollEvent::Tip(Ok(START)), 1, 1);
    assert_eq!(a, PollAction::Scan { from: START, to: START });
}

#[test]
fn new_blocks_are_scanned_from_the_next_height() {
    let mut s = state(START + 7);
    let mut p = Poller::new(10);
    p.start();
    p.step(&mut s, PollEvent::Tip(Ok(START + 9)), 1, 1);
    let same = vec![ok("h950956"), ok("h950957")];
    let a = p.step(&mut s, PollEvent::Hashes(same), 1, 1);
    assert_eq!(a, PollAction::Scan { from: START + 8, to: START + 9 });
}

#[test]
fn an_iteration_without_new_blocks_keeps_the_long_cadence() {
    let mut s = state(20);
    let mut p = Poller::new(10);
    p.start();
    let a = p.step(&mut s, PollEvent::Tip(Ok(20)), 1, 1);
    assert_eq!(a, PollAction::AskHashes { heights: vec![19, 20] });
    let a = p.step(&mut s, PollEvent::Hashes(vec![ok("h19"), ok("h20")]), 1, 1);
    assert_eq!(a, finish(Some(10)));
    assert_eq!(s.recent_errors.len(), 0);
}

#[test]
fn a_tip_that_cannot_be_had_is_reported_without_secrets() {
    let mut s = state(20);
    let mut p = Poller::new(10);
    p.start();
    let why = format!("GET https://x.alchemy.com/v2/secret/{}", "y".repeat(400));
    let a = p.step(&mut s, PollEvent::Tip(Err(why)), 42, 1);
    assert_eq!(a, finish(None));
    let e = &s.recent_errors[0];
    assert_eq!(e.at, 42);
    assert_eq!(e.kind, ErrorKind::Network);
    assert_eq!(e.detail.chars().count(), 220);
    assert!(e.detail.starts_with(
        "tip poll failed (Bitcoin Core unreachable?): GET https://x.alchemy.com/v2/<KEY-REDACTED>/yyy"
    ));
    assert!(!e.detail.contains("secret"));
}

#[test]
fn a_lower_tip_rewinds_nothing() {
    let mut s = state(20);
    let mut p = Poller::new(10);
    p.start();
    assert_eq!(p.step(&mut s, PollEvent::Tip(Ok(19)), 1, 1), finish(None));
    assert_eq!(s.indexed_height, 20);
    let e = &s.recent_errors[0];
    assert_eq!(e.kind, ErrorKind::TipRegress);
    assert_eq!(e.height, Some(19));
    assert_eq!(e.detail, "Core returned tip=19 below our indexed_height=20; skipping (no rewind)");
}

#[test]
fn a_probe_without_an_answer_ends_the_iteration() {
    let mut s = state(20);
    let mut p = Poller::new(10);
    p.start();
    p.step(&mut s, PollEvent::Tip(Ok(21)), 1, 1);
    let a = p.step(&mut s, PollEvent::Hashes(vec![ok("h19"), Err("down".to_string())]), 1, 1);
    assert_eq!(a, finish(None));
    assert_eq!(s.recent_errors[0].detail, "reorg-detection probe failed: down");
    assert_eq!(s.indexed_height, 20);
}

#[test]
fn a_failed_scan_is_reported_and_the_rest_goes_on() {
    let mut s = state(0);
    let mut p = Poller::new(10);
    p.start();
    p.step(&mut s, PollEvent::Tip(Ok(START + 7)), 1, 1);
    let a = p.step(&mut s, PollEvent::Scanned(Err("broken".to_string())), 9, 1);
    assert_eq!(a, PollAction::Persist);
    assert_eq!(s.recent_errors[0].detail, "backfill failed at height 950950: broken");
    assert_eq!(s.recent_errors[0].height, Some(START));
    assert_eq!(s.tip_height, START + 7);
}

#[test]
fn a_reorganization_goes_back_to_a_snapshot() {
    let mut s = state(950_962);
    s.take_snapshot();
    s.indexed_height = 950_964;
    s.block_hashes.insert(950_963, "h950963".to_string());
    s.block_hashes.insert(950_964, "h950964".to_string());
    let mut p = Poller::new(10);
    p.start();
    let a = p.step(&mut s, PollEvent::Tip(Ok(950_965)), 1, 1);
    assert_eq!(a, PollAction::AskHashes { heights: vec![950_961, 950_962, 950_963, 950_964] });
    let answers = vec![ok("h950961"), ok("h950962"), ok("x"), ok("y")];
    let a = p.step(&mut s, PollEvent::Hashes(answers), 1, 1);
    assert_eq!(a, PollAction::AskHashes { heights: vec![950_962] });
    let a = p.step(&mut s, PollEvent::Hashes(vec![ok("h950962")]), 1, 1);
    assert_eq!(a, PollAction::Scan { from: 950_963, to: 950_965 });
    assert_eq!(s.indexed_height, 950_962);
    assert!(s.block_hashes.get(&950_963).is_none());
    assert_eq!(p.step(&mut s, PollEvent::Scanned(Ok(())), 1, 1), finish(None));
    assert_eq!(s.tip_height, 950_965);
}

#[test]
fn a_reorganization_without_a_snapshot_starts_over() {
    let mut s = state(950_960);
    let mut p = Poller::new(10);
    p.start();
    p.step(&mut s, PollEvent::Tip(Ok(950_961)), 1, 1);
    let a = p.step(&mut s, PollEvent::Hashes(vec![ok("x"), ok("y")]), 1, 1);
    assert_eq!(a, PollAction::AskHashes { heights: vec![] });
    let a = p.step(&mut s, PollEvent::Hashes(vec![]), 1, 1);
    assert_eq!(a, PollAction::Scan { from: 950_950, to: 950_961 });
    assert_eq!(s.indexed_height, 0);
    assert_eq!(s.snapshots.len(), 1);
}

#[test]
fn rebuilding_never_starts_before_activation() {
    let mut s = state(20);
    let mut p = Poller::new(10);
    p.start();
    p.step(&mut s, PollEvent::Tip(Ok(20)), 1, 1);
    p.step(&mut s, PollEvent::Hashes(vec![ok("x"), ok("y")]), 1, 1);
    assert_eq!(p.step(&mut s, PollEvent::Hashes(vec![]), 1, 1), finish(None));
    assert_eq!(s.indexed_height, 0);
    assert_eq!(s.tip_height, 20);
}

fn reorg(p: &mut Poller, nanos: u64) -> (PollAction, IndexerState) {
    let mut s = state(20);
    p.start();
    p.step(&mut s, PollEvent::Tip(Ok(20)), 1, nanos);
    let a = p.step(&mut s, PollEvent::Hashes(vec![ok("h19"), ok("y")]), 3, nanos);
    (a, s)
}

#[test]
fn the_fifth_reorganization_in_the_window_pauses_the_loop() {
    let mut p = Poller::new(10);
    for i in 0..4 {
        assert_eq!(reorg(&mut p, i).0, PollAction::AskHashes { heights: vec![] });
    }
    let (a, mut s) = reorg(&mut p, 4);
    assert_eq!(a, PollAction::Sleep { secs: 600 });
    assert_eq!(s.indexed_height, 20);
    assert_eq!(s.recent_errors.len(), 1);
    assert_eq!(s.recent_errors[0].kind, ErrorKind::ReorgStorm);
    assert_eq!(s.recent_errors[0].height, Some(20));
    assert_eq!(
        s.recent_errors[0].detail,
        "reorg-storm circuit breaker tripped (5 reorgs in window); cooling down 600s"
    );
    assert_eq!(p.step(&mut s, PollEvent::Resumed, 1, 6), finish(None));
    assert_eq!(reorg(&mut p, 7).0, PollAction::AskHashes { heights: vec![] });
}

#[test]
fn old_reorganizations_leave_the_window() {
    let window = 300_000_000_000u64;
    let mut p = Poller::new(10);
    for i in 0..4 {
        reorg(&mut p, i);
    }
    // The first is exactly one window old and still counts.
    assert_eq!(reorg(&mut p, window).0, PollAction::Sleep { secs: 600 });
    let mut q = Poller::new(10);
    for i in 0..4 {
        reorg(&mut q, i);
    }
    assert_eq!(reorg(&mut q, window + 1).0, PollAction::AskHashes { heights: vec![] });
}

#[test]
fn an_event_that_is_not_waited_for_ends_the_iteration() {
    let mut s = state(20);
    let mut p = Poller::new(10);
    assert_eq!(p.step(&mut s, PollEvent::Resumed, 1, 1), finish(None));
    p.start();
    assert_eq!(p.step(&mut s, PollEvent::Scanned(Ok(())), 1, 1), finish(None));
}

#[test]
fn an_iteration_that_takes_too_long_is_reported() {
    let mut s = state(0);
    let done = IterationOutcome::Finished { cadence: Some(10) };
    assert_eq!(after_iteration(&mut s, done, 5, 1), 10);
    assert_eq!(after_iteration(&mut s, IterationOutcome::Finished { cadence: None }, 7, 1), 7);
    assert_eq!(s.recent_errors.len(), 0);
    assert_eq!(after_iteration(&mut s, IterationOutcome::TimedOut, 10, 8), 5);
    assert_eq!(s.recent_errors[0].at, 8);
    assert_eq!(
        s.recent_errors[0].detail,
        "poll iteration wedged past 120s watchdog (likely Bitcoin Core RPC hang); cancelled and resuming."
    );
}

#[test]
fn retries_wait_longer_and_longer() {
    assert_eq!(next_retry_delay(1_000), 2_000);
    assert_eq!(next_retry_delay(8_000), 16_000);
    assert_eq!(next_retry_delay(16_000), 30_000);
    assert_eq!(next_retry_delay(30_000), 30_000);
    assert_eq!(next_retry_delay(u64::MAX), 30_000);
}

#[test]
fn the_first_scan_stays_between_activation_and_tip() {
    assert_eq!(backfill_start(None, 960_000), Some(950_950));
    assert_eq!(backfill_start(Some(1), 960_000), Some(950_950));
    assert_eq!(backfill_start(Some(955_000), 960_000), Some(955_000));
    assert_eq!(backfill_start(Some(970_000), 960_000), Some(960_000));
    assert_eq!(backfill_start(None, 950_950), Some(950_950));
    assert_eq!(backfill_start(None, 950_949), None);
    assert_eq!(backfill_start(Some(960_000), 900_000), None);
    assert_eq!(effective_start(Some(955_000), Some(1)), Some(955_001));
    assert_eq!(effective_start(None, Some(1)), Some(1));
    assert_eq!(effective_start(None, None), None);
}
