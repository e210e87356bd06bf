use quotefeed::errors::RecvError;
use quotefeed::poller::Poller;

fn strings(items: &[&str]) -> Vec<String> {
    items.iter().map(|s| s.to_string()).collect()
}

#[test]
fn extend_unique_drops_duplicates() {
    let mut p: Poller<i32> = Poller::new(4, 100);
    p.extend_unique(strings(&["AAPL"]));
    p.extend_unique(strings(&["AAPL", "MSFT"]));
    assert_eq!(p.pending, strings(&["AAPL", "MSFT"]));
}

#[test]
fn set_state_replaces_wholesale() {
    let mut p: Poller<i32> = Poller::new(4, 100);
    p.extend_unique(strings(&["AAPL"]));
    p.set_state(strings(&["MSFT"]));
    assert_eq!(p.pending, strings(&["MSFT"]));
}

#[test]
fn extend_unique_keeps_order_and_existing() {
    let mut p: Poller<i32> = Poller::new(4, 100);
    p.set_state(strings(&["NVDA", "AAPL"]));
    p.extend_unique(strings(&["MSFT", "NVDA", "MSFT"]));
    assert_eq!(p.pending, strings(&["NVDA", "AAPL", "MSFT"]));
}

#[test]
fn last_unsubscribe_stops_loop_and_clears_pending() {
    let mut p: Poller<i32> = Poller::new(4, 100);
    let subs: Vec<_> = (0..3).map(|_| p.subscribe()).collect();
    assert!(p.running);
    assert_eq!(p.subscribers, 3);
    p.extend_unique(strings(&["AAPL", "MSFT"]));
    for s in subs {
        p.unsubscribe(s);
    }
    assert_eq!(p.subscribers, 0);
    assert!(!p.running);
    assert!(p.pending.is_empty());
}

#[test]
fn one_fetch_per_cycle_regardless_of_subscribers() {
    let mut p: Poller<i32> = Poller::new(16, 100);
    let subs: Vec<_> = (0..10).map(|_| p.subscribe()).collect();
    assert_eq!(p.cycles, 0);
    assert!(p.poll_gate());
    let batch = p.take_batch();
    assert!(batch.is_empty());
    assert_eq!(p.cycles, 1);
    for s in subs {
        p.unsubscribe(s);
    }
}

#[test]
fn poll_gate_stops_without_subscribers() {
    let mut p: Poller<i32> = Poller::new(4, 100);
    let s = p.subscribe();
    assert!(p.running);
    p.unsubscribe(s);
    assert!(!p.poll_gate());
    assert!(!p.running);
}

#[test]
fn take_batch_clears_pending() {
    let mut p: Poller<i32> = Poller::new(4, 100);
    p.set_state(strings(&["AAPL", "MSFT"]));
    let batch = p.take_batch();
    assert_eq!(batch, strings(&["AAPL", "MSFT"]));
    assert!(p.pending.is_empty());
}

#[test]
fn receiver_sees_values_in_order() {
    let mut p: Poller<i32> = Poller::new(8, 100);
    let mut s = p.subscribe();
    p.broadcast(7);
    p.broadcast(8);
    assert_eq!(s.recv(&p).cloned(), Ok(7));
    assert_eq!(s.recv(&p).cloned(), Ok(8));
    assert!(!s.ready(&p));
}

#[test]
fn lagged_receiver_fails_once_then_resumes() {
    let mut p: Poller<i32> = Poller::new(2, 100);
    let mut s = p.subscribe();
    p.broadcast(1);
    p.broadcast(2);
    p.broadcast(3);
    p.broadcast(4);
    // four published against a buffer of two: exactly one lag report
    assert_eq!(s.recv(&p).err(), Some(RecvError::Lagged(2)));
    assert_eq!(s.recv(&p).cloned(), Ok(3));
    assert_eq!(s.recv(&p).cloned(), Ok(4));
    assert!(!s.ready(&p));
}

#[test]
fn fresh_subscriber_sees_only_later_values() {
    let mut p: Poller<i32> = Poller::new(8, 100);
    p.broadcast(1);
    let mut s = p.subscribe();
    assert!(!s.ready(&p));
    p.broadcast(2);
    assert_eq!(s.recv(&p).cloned(), Ok(2));
}

#[test]
fn closed_channel_drains_then_reports_closed() {
    let mut p: Poller<i32> = Poller::new(8, 100);
    let mut s = p.subscribe();
    p.broadcast(5);
    p.close();
    assert_eq!(s.recv(&p).cloned(), Ok(5));
    assert_eq!(s.recv(&p).err(), Some(RecvError::Closed));
}
