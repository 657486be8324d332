// The reorder buffer: workers finish in any order, the consumer sees the
// results in submission order, each exactly once.

use interceptiondetector::{Error, LoadOutcome, ReorderBuffer, Response};

fn outcome(now: i64) -> LoadOutcome {
    LoadOutcome::Parsed(Response { now, aircraft: Vec::new() })
}

fn now_of(out: LoadOutcome) -> i64 {
    match out {
        LoadOutcome::Parsed(r) => r.now,
        LoadOutcome::Failed(_) => panic!("expected a parsed snapshot"),
    }
}

#[test]
fn out_of_order_arrivals_are_delivered_in_order() {
    let mut buf = ReorderBuffer::new(3);
    assert!(buf.pop_ready().is_none());
    assert!(buf.insert(2, outcome(30)));
    assert!(buf.pop_ready().is_none());
    assert!(buf.insert(0, outcome(10)));
    assert_eq!(now_of(buf.pop_ready().unwrap()), 10);
    assert!(buf.pop_ready().is_none());
    assert!(buf.insert(1, outcome(20)));
    assert_eq!(now_of(buf.pop_ready().unwrap()), 20);
    assert_eq!(now_of(buf.pop_ready().unwrap()), 30);
    assert!(buf.pop_ready().is_none());
    assert_eq!(buf.delivered(), 3);
}

#[test]
fn double_and_late_inserts_are_rejected() {
    let mut buf = ReorderBuffer::new(2);
    assert!(buf.insert(0, outcome(10)));
    // The slot is already filled.
    assert!(!buf.insert(0, outcome(99)));
    assert_eq!(now_of(buf.pop_ready().unwrap()), 10);
    // The submission has already been handed out.
    assert!(!buf.insert(0, outcome(99)));
    // Out of range.
    assert!(!buf.insert(2, outcome(99)));
    assert_eq!(buf.delivered(), 1);
}

#[test]
fn failed_loads_flow_through_in_order() {
    let mut buf = ReorderBuffer::new(2);
    assert!(buf.insert(1, outcome(20)));
    assert!(buf.insert(0, LoadOutcome::Failed(Error::JsonLoadError(String::from("truncated")))));
    match buf.pop_ready().unwrap() {
        LoadOutcome::Failed(e) => assert_eq!(e.message().as_str(), "truncated"),
        LoadOutcome::Parsed(_) => panic!("expected the failure first"),
    }
    assert_eq!(now_of(buf.pop_ready().unwrap()), 20);
}

#[test]
fn empty_buffer_delivers_nothing() {
    let mut buf = ReorderBuffer::new(0);
    assert!(buf.pop_ready().is_none());
    assert!(!buf.insert(0, outcome(1)));
    assert_eq!(buf.delivered(), 0);
}
