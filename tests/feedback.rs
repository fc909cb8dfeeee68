use panll::feedback::{
    parse_report_type, report_type_name, settle_feedback, submit_feedback, FeedbackError,
    FeedbackSink, PoolOutcome, ReportType,
};

fn s(x: &str) -> String {
    x.to_string()
}

#[test]
fn other_is_accepted_and_bogus_is_invalid_input() {
    let mut sink = FeedbackSink::new(4);
    let ok = sink.submit(s("l"), s("n"), s("w"), "OTHER", None, 10);
    assert!(matches!(ok, Ok(ref r) if r.report_type == ReportType::Other));
    let bad = sink.submit(s("l"), s("n"), s("w"), "BOGUS", None, 10);
    assert!(matches!(bad, Err(FeedbackError::InvalidInput)));
    assert_eq!(sink.next_local_id(), 1);
}

#[test]
fn command_stamps_then_queues_when_pool_unreachable() {
    let mut sink = FeedbackSink::new(4);
    let rep = submit_feedback(&mut sink, s("L"), s("N"), s("W"), s("CRASH"), 77).unwrap();
    assert_eq!((rep.local_id, rep.timestamp), (0, 77));
    assert_eq!(sink.pending_len(), 0);
    let r = settle_feedback(&mut sink, rep, PoolOutcome::Unreachable);
    assert_eq!(r, Ok(s("Feedback queued: CRASH")));
    assert_eq!(sink.pending_len(), 1);
    let r = submit_feedback(&mut sink, s("L"), s("N"), s("W"), s("BOGUS"), 78);
    assert!(matches!(r, Err(ref m) if m == "Invalid report type: BOGUS"));
    assert_eq!(sink.next_local_id(), 1);
    let pending = sink.take_pending();
    assert_eq!(pending.len(), 1);
    assert_eq!(pending[0].timestamp, 77);
    assert_eq!(pending[0].local_id, 0);
    assert_eq!(pending[0].pane_w_state, "W");
    assert_eq!(sink.pending_len(), 0);
}

#[test]
fn pool_acknowledgement_is_returned_and_nothing_queued() {
    let mut sink = FeedbackSink::new(4);
    let rep = submit_feedback(&mut sink, s("L"), s("N"), s("W"), s("OTHER"), 1).unwrap();
    let r = settle_feedback(&mut sink, rep, PoolOutcome::Acknowledged(s("pool#12")));
    assert_eq!(r, Ok(s("pool#12")));
    assert_eq!(sink.pending_len(), 0);
}

#[test]
fn failed_transfer_is_a_transport_error() {
    let mut sink = FeedbackSink::new(4);
    let rep = sink.submit(s("L"), s("N"), s("W"), "OTHER", None, 1).unwrap();
    assert!(matches!(sink.settle(rep, PoolOutcome::Failed), Err(FeedbackError::Transport)));
    assert_eq!(sink.pending_len(), 0);
    let rep = sink.submit(s("L"), s("N"), s("W"), "OTHER", None, 1).unwrap();
    let r = settle_feedback(&mut sink, rep, PoolOutcome::Failed);
    assert_eq!(r, Err(s("Feedback pool transfer failed")));
}

#[test]
fn report_types_are_matched_exactly() {
    assert_eq!(parse_report_type("FALSE_POSITIVE"), Some(ReportType::FalsePositive));
    assert_eq!(parse_report_type("FALSE_NEGATIVE"), Some(ReportType::FalseNegative));
    assert_eq!(parse_report_type("CRASH"), Some(ReportType::Crash));
    assert_eq!(parse_report_type("other"), None);
    assert_eq!(parse_report_type(""), None);
    assert_eq!(report_type_name(ReportType::FalseNegative), "FALSE_NEGATIVE");
}

#[test]
fn ids_increase_and_given_timestamps_stay() {
    let mut sink = FeedbackSink::new(2);
    let a = sink.submit(s(""), s(""), s(""), "OTHER", Some(5), 99).unwrap();
    let b = sink.submit(s(""), s(""), s(""), "CRASH", None, 99).unwrap();
    assert_eq!((a.local_id, a.timestamp), (0, 5));
    assert_eq!((b.local_id, b.timestamp), (1, 99));
}

#[test]
fn full_queue_drops_the_oldest() {
    let mut sink = FeedbackSink::new(2);
    for _ in 0..3 {
        let r = sink.submit(s("l"), s("n"), s("w"), "OTHER", None, 1).unwrap();
        sink.enqueue(r);
    }
    let ids: Vec<u64> = sink.take_pending().iter().map(|r| r.local_id).collect();
    assert_eq!(ids, vec![1, 2]);
}

#[test]
fn zero_capacity_keeps_nothing() {
    let mut sink = FeedbackSink::new(0);
    let r = sink.submit(s("l"), s("n"), s("w"), "OTHER", None, 1).unwrap();
    sink.enqueue(r);
    assert_eq!(sink.pending_len(), 0);
}
