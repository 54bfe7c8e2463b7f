use isekai_oracle::batcher::build_item_list;
use isekai_oracle::consumer::{Action, ConsumptionLoop, Outcome, Phase, POLL_INTERVAL_SECS};
use isekai_oracle::request::{MintRequest, RawLog};

fn word(v: u64) -> Vec<u8> {
    let mut w = vec![0u8; 24];
    w.extend_from_slice(&v.to_be_bytes());
    w
}

fn log(user: u8, nonce: u64, premium: u64, quantity: u64) -> RawLog {
    let mut u = vec![0u8; 12];
    u.extend_from_slice(&[user; 20]);
    RawLog { topics: vec![vec![0xaa; 32], u, word(nonce), word(premium)], data: word(quantity) }
}

/// Draws and submits the current request; returns what was submitted.
fn process_one(lp: &mut ConsumptionLoop) -> (MintRequest, Vec<u32>) {
    let req = match lp.action() {
        Action::Draw(req) => req,
        other => panic!("expected a draw, got {:?}", other),
    };
    lp.advance(Outcome::Drawn(build_item_list(&req)));
    let (sub_req, items) = match lp.action() {
        Action::Submit(r, items) => (r, items),
        other => panic!("expected a submission, got {:?}", other),
    };
    assert_eq!(sub_req, req);
    lp.advance(Outcome::Submitted);
    (sub_req, items)
}

#[test]
fn end_to_end_catch_up_then_steady() {
    let mut lp = ConsumptionLoop::new();
    assert!(matches!(lp.action(), Action::QueryMarker));
    lp.advance(Outcome::Marker(5));
    assert!(matches!(lp.action(), Action::FetchBacklog { after: 5 }));
    lp.advance(Outcome::Logs(vec![log(1, 6, 0, 3), log(2, 7, 1, 1)]));

    let (first, items) = process_one(&mut lp);
    assert_eq!(first.nonce, 6);
    assert!(!first.premium);
    assert_eq!(items.len(), 3);
    assert!(items.iter().all(|&i| (1..=12).contains(&i)));

    let (second, items) = process_one(&mut lp);
    assert_eq!(second.nonce, 7);
    assert!(second.premium);
    assert_eq!(items.len(), 1);
    assert!((4..=12).contains(&items[0]));

    assert_eq!(lp.marker, 5);
    assert_eq!(lp.phase, Phase::Polling);
    assert!(matches!(lp.action(), Action::FetchNew));
    lp.advance(Outcome::Logs(Vec::new()));
    assert!(matches!(lp.action(), Action::Sleep(5)));
    assert_eq!(POLL_INTERVAL_SECS, 5);
    lp.advance(Outcome::Woke);
    assert!(matches!(lp.action(), Action::FetchNew));
}

#[test]
fn empty_backlog_goes_to_polling() {
    let mut lp = ConsumptionLoop::new();
    lp.advance(Outcome::Marker(0));
    lp.advance(Outcome::Logs(Vec::new()));
    assert!(matches!(lp.action(), Action::FetchNew));
    assert!(!lp.steady);
}

#[test]
fn repeated_poll_submits_again_and_leaves_marker() {
    let mut lp = ConsumptionLoop::new();
    lp.advance(Outcome::Marker(5));
    lp.advance(Outcome::Logs(Vec::new()));
    lp.advance(Outcome::Logs(vec![log(1, 6, 0, 2)]));
    let (req, _) = process_one(&mut lp);
    assert_eq!(req.nonce, 6);
    assert_eq!(lp.marker, 5);
    assert!(matches!(lp.action(), Action::Sleep(5)));
    lp.advance(Outcome::Woke);
    lp.advance(Outcome::Logs(vec![log(1, 6, 0, 2), log(3, 8, 0, 1), log(4, 5, 0, 1)]));
    let (req, _) = process_one(&mut lp);
    assert_eq!(req.nonce, 6);
    let (req, _) = process_one(&mut lp);
    assert_eq!(req.nonce, 8);
    assert_eq!(lp.marker, 5);
    assert_eq!(lp.phase, Phase::Sleeping);
}

#[test]
fn failed_submission_retries_same_items() {
    let mut lp = ConsumptionLoop::new();
    lp.advance(Outcome::Marker(0));
    lp.advance(Outcome::Logs(vec![log(1, 1, 0, 4)]));
    let req = match lp.action() {
        Action::Draw(r) => r,
        other => panic!("unexpected {:?}", other),
    };
    lp.advance(Outcome::Drawn(build_item_list(&req)));
    let first = match lp.action() {
        Action::Submit(_, items) => items,
        other => panic!("unexpected {:?}", other),
    };
    lp.advance(Outcome::Failed);
    assert!(matches!(lp.action(), Action::Sleep(5)));
    lp.advance(Outcome::Woke);
    match lp.action() {
        Action::Submit(r, items) => {
            assert_eq!(r, req);
            assert_eq!(items, first);
        }
        other => panic!("unexpected {:?}", other),
    }
}

#[test]
fn failed_fetch_is_retried_after_sleep() {
    let mut lp = ConsumptionLoop::new();
    lp.advance(Outcome::Failed);
    assert!(matches!(lp.action(), Action::Sleep(5)));
    lp.advance(Outcome::Marker(3));
    assert!(matches!(lp.action(), Action::Sleep(5)));
    lp.advance(Outcome::Woke);
    assert!(matches!(lp.action(), Action::QueryMarker));
    lp.advance(Outcome::Marker(3));
    lp.advance(Outcome::Failed);
    lp.advance(Outcome::Woke);
    assert!(matches!(lp.action(), Action::FetchBacklog { after: 3 }));
}

#[test]
fn unfit_items_are_refused() {
    let mut lp = ConsumptionLoop::new();
    lp.advance(Outcome::Marker(0));
    lp.advance(Outcome::Logs(vec![log(1, 1, 1, 2)]));
    lp.advance(Outcome::Drawn(vec![5]));
    assert!(matches!(lp.action(), Action::Draw(_)));
    lp.advance(Outcome::Drawn(vec![5, 2]));
    assert!(matches!(lp.action(), Action::Draw(_)));
    lp.advance(Outcome::Drawn(vec![5, 13]));
    assert!(matches!(lp.action(), Action::Draw(_)));
    lp.advance(Outcome::Drawn(vec![5, 12]));
    assert!(matches!(lp.action(), Action::Submit(_, _)));
}

#[test]
fn out_of_turn_outcomes_are_ignored() {
    let mut lp = ConsumptionLoop::new();
    lp.advance(Outcome::Submitted);
    lp.advance(Outcome::Logs(vec![log(1, 1, 0, 1)]));
    lp.advance(Outcome::Woke);
    assert!(matches!(lp.action(), Action::QueryMarker));
    assert_eq!(lp.phase, Phase::ReadingMarker);
    assert!(lp.queue.is_empty());
}

#[test]
fn backlog_skips_undecodable_and_old() {
    let mut lp = ConsumptionLoop::new();
    lp.advance(Outcome::Marker(10));
    let mut bad = log(1, 12, 0, 1);
    bad.data.clear();
    lp.advance(Outcome::Logs(vec![log(1, 9, 0, 1), bad, log(2, 11, 0, 1)]));
    let (req, _) = process_one(&mut lp);
    assert_eq!(req.nonce, 11);
    assert!(matches!(lp.action(), Action::FetchNew));
}
