use fussel::fault::{Fault, Message};
use fussel::stage::{run_pipeline, Report, RecvPoll, RecvStep, SendPoll, SendStep, send_step};

#[test]
fn single_producer_run_keeps_order_and_flushes_once() {
    let faults = vec![
        Fault::simple(Message::error("first")),
        Fault::simple(Message::warning("second")),
        Fault::simple(Message::note("third")),
    ];
    let report = run_pipeline(faults);
    assert_eq!(report.written.len(), 3);
    assert_eq!(report.written[0], "error: first\n");
    assert_eq!(report.written[1], "warning: second\n");
    assert_eq!(report.written[2], "note: third\n");
    assert_eq!(report.flushes, 1);
    assert!(report.done);
}

#[test]
fn empty_run_still_flushes_once() {
    let report = run_pipeline(vec![]);
    assert_eq!(report.written.len(), 0);
    assert_eq!(report.flushes, 1);
}

#[test]
fn producer_protocol_retries_on_full_and_fails_on_closed() {
    match send_step(SendPoll::Sent) {
        SendStep::Done => {}
        _ => panic!("accepted sends are done"),
    }
    match send_step(SendPoll::Full(Fault::simple(Message::bare("m")))) {
        SendStep::Retry(f) => assert_eq!(f.render(), "m\n"),
        _ => panic!("a full channel means yield and retry"),
    }
    match send_step(SendPoll::Closed(Fault::simple(Message::bare("m")))) {
        SendStep::Fail(f) => assert_eq!(f.render(), "m\n"),
        _ => panic!("a closed channel means permanent failure"),
    }
}

#[test]
fn consumer_protocol_never_flushes_mid_stream() {
    let mut report = Report::new();
    match report.handle(RecvPoll::Item(Fault::simple(Message::bare("a")))) {
        RecvStep::Write(s) => assert_eq!(s, "a\n"),
        _ => panic!("an item is written"),
    }
    match report.handle(RecvPoll::Empty) {
        RecvStep::Yield => {}
        _ => panic!("an empty channel means yield"),
    }
    assert_eq!(report.flushes, 0);
    match report.handle(RecvPoll::Closed) {
        RecvStep::Flush => {}
        _ => panic!("a drained channel means one flush"),
    }
    assert_eq!(report.flushes, 1);
    assert_eq!(report.written, vec![String::from("a\n")]);
}
