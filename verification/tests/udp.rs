use muffin::meter::{Goal, Mode, Report};
use muffin::net_error::NetErrorKind;
use muffin::payload::{buffer, get_seq, put_seq};
use muffin::udp::{
    keep_receiving, LossTracker, NothingReceived, Receiver, SendRun, Sequencer, Summary,
};
use muffin::udp_server::{ReceiveAction, ReceiveEvent, ReceivePhase, ReceiveRun};

fn track(arrivals: &[u64]) -> LossTracker {
    let mut tracker = LossTracker::new();
    for seq in arrivals {
        assert!(tracker.has_room(*seq));
        tracker.on_seq(*seq);
    }
    tracker
}

#[test]
fn datagrams_are_numbered_from_zero() {
    let mut sequencer = Sequencer::new();
    let mut buf = buffer(16);
    for seq in 0..300 {
        sequencer.stamp(&mut buf);
        assert_eq!(get_seq(&buf), Some(seq));
    }
    assert_eq!(&buf[8..], b"uffin mu");
    let mut last = Sequencer { next: u64::MAX };
    last.stamp(&mut buf);
    assert_eq!(get_seq(&buf), Some(u64::MAX));
    assert_eq!(last.next, 0);
}

#[test]
fn runs_of_a_given_time() {
    let mut run = SendRun::new(Goal { mode: Mode::Time, duration: 2 });
    let first = run.on_sent(100, 0);
    assert_eq!((first.report, first.bits, first.done), (None, 800, false));
    let second = run.on_sent(100, 1);
    assert_eq!(second.report, Some(Report { index: 0, bits: 1600 }));
    assert!(!second.done);
    let third = run.on_sent(50, 2);
    assert_eq!(third.report, Some(Report { index: 1, bits: 400 }));
    assert!(third.done);
    assert_eq!(run.meter.total, 2000);
}

#[test]
fn runs_of_a_given_number_of_buffers() {
    let mut run = SendRun::new(Goal { mode: Mode::Data, duration: 3 });
    assert!(run.may_start());
    assert!(!run.on_sent(100, 5).done);
    assert!(!run.on_sent(100, 50).done);
    assert!(run.on_sent(100, 50).done);
    assert_eq!(run.meter.total, 1600);
    assert!(run.has_room(100));
    assert!(!run.has_room(usize::MAX));
}

#[test]
fn runs_of_nothing() {
    assert!(!SendRun::new(Goal { mode: Mode::Data, duration: 0 }).may_start());
    // a timed run looks at the clock after its first send
    let mut timed = SendRun::new(Goal { mode: Mode::Time, duration: 0 });
    assert!(timed.may_start());
    assert!(timed.on_sent(100, 0).done);
}

#[test]
fn servers_receive_until_the_time_is_up() {
    let mut run = ReceiveRun::new(Some(2));
    assert_eq!(run.step(ReceiveEvent::Clock { secs: 0 }).action, ReceiveAction::Read);
    let reading = run;
    let step = run.step(ReceiveEvent::ReadFailed { kind: NetErrorKind::TimedOut });
    assert_eq!((step.action, step.report), (ReceiveAction::AskClock, None));
    run.step(ReceiveEvent::Clock { secs: 0 });
    assert_eq!(run, reading);
    run.step(ReceiveEvent::ReadFailed { kind: NetErrorKind::WouldBlock });
    run.step(ReceiveEvent::Clock { secs: 1 });
    assert_eq!(run, reading);
    let data = [0u8; 16];
    let step = run.step(ReceiveEvent::Datagram { data: &data, secs: 1 });
    assert_eq!(step.action, ReceiveAction::AskClock);
    assert_eq!(step.report, Some(Report { index: 0, bits: 128 }));
    let summary = Summary { rx: 1, loss: 0, bits: 128 };
    assert_eq!(
        run.step(ReceiveEvent::Clock { secs: 2 }).action,
        ReceiveAction::Finish { summary, verdict: Ok(()) }
    );
    assert_eq!(run.phase, ReceivePhase::Stopped);
    assert!(!run.accepts(&ReceiveEvent::Clock { secs: 3 }));
}

#[test]
fn servers_tell_of_the_numbers_that_are_missing() {
    let mut run = ReceiveRun::new(Some(1));
    let mut buf = buffer(10);
    for seq in [3, 4, 7] {
        put_seq(&mut buf, seq);
        run.step(ReceiveEvent::Clock { secs: 0 });
        run.step(ReceiveEvent::Datagram { data: &buf, secs: 0 });
        // too short to be numbered
        run.step(ReceiveEvent::Clock { secs: 0 });
        run.step(ReceiveEvent::Datagram { data: &buf[..2], secs: 0 });
    }
    let summary = Summary { rx: 6, loss: 2, bits: 288 };
    assert_eq!(
        run.step(ReceiveEvent::Clock { secs: 1 }).action,
        ReceiveAction::Finish { summary, verdict: Ok(()) }
    );
}

#[test]
fn servers_that_hear_nothing_fail_in_the_end() {
    let mut run = ReceiveRun::new(Some(0));
    let summary = Summary { rx: 0, loss: 0, bits: 0 };
    assert_eq!(
        run.step(ReceiveEvent::Clock { secs: 0 }).action,
        ReceiveAction::Finish { summary, verdict: Err(NothingReceived) }
    );
}

#[test]
fn servers_give_up_on_a_broken_socket() {
    let mut run = ReceiveRun::new(None);
    assert_eq!(run.step(ReceiveEvent::Clock { secs: u64::MAX }).action, ReceiveAction::Read);
    let step = run.step(ReceiveEvent::ReadFailed { kind: NetErrorKind::ConnectionReset });
    assert_eq!((step.action, step.report), (ReceiveAction::Fail, None));
    assert!(!run.accepts(&ReceiveEvent::Clock { secs: 0 }));
}

#[test]
fn servers_know_what_they_wait_for() {
    let mut run = ReceiveRun::new(None);
    assert!(run.accepts(&ReceiveEvent::Clock { secs: 0 }));
    assert!(!run.accepts(&ReceiveEvent::Datagram { data: &[], secs: 0 }));
    run.step(ReceiveEvent::Clock { secs: 0 });
    assert!(run.accepts(&ReceiveEvent::Datagram { data: &[], secs: 0 }));
    run.receiver.rx = u64::MAX;
    assert!(!run.accepts(&ReceiveEvent::Datagram { data: &[], secs: 0 }));
}

#[test]
fn nothing_is_lost_in_order() {
    assert_eq!(track(&[5, 6, 7, 8]), LossTracker { loss: 0, next_expected: Some(9) });
    assert_eq!(track(&[]), LossTracker { loss: 0, next_expected: None });
}

#[test]
fn gaps_are_lost() {
    assert_eq!(track(&[0, 1, 4, 5, 9]), LossTracker { loss: 5, next_expected: Some(10) });
}

#[test]
fn late_and_repeated_datagrams_change_nothing() {
    assert_eq!(track(&[3, 5, 4, 5, 0]), LossTracker { loss: 1, next_expected: Some(6) });
}

#[test]
fn the_last_number_wraps_around() {
    assert_eq!(
        track(&[u64::MAX - 1, u64::MAX, 0]),
        LossTracker { loss: 0, next_expected: Some(u64::MAX) }
    );
    let far = LossTracker { loss: u64::MAX, next_expected: Some(0) };
    assert!(far.has_room(0));
    assert!(!far.has_room(1));
}

#[test]
fn receivers_count_what_arrives() {
    let mut receiver = Receiver::new();
    let mut buf = buffer(100);
    for (seq, secs) in [(0, 0), (1, 0), (4, 1)] {
        put_seq(&mut buf, seq);
        assert!(receiver.has_room(&buf));
        let report = receiver.on_datagram(&buf, secs);
        if secs == 1 {
            assert_eq!(report, Some(Report { index: 0, bits: 2400 }));
        } else {
            assert_eq!(report, None);
        }
    }
    // too short to be numbered, and counted all the same
    assert_eq!(receiver.on_datagram(&[0; 7], 1), None);
    assert_eq!(receiver.summary(), Summary { rx: 4, loss: 2, bits: 2456 });
    assert_eq!(receiver.verdict(), Ok(()));
}

#[test]
fn a_run_without_datagrams_has_failed() {
    let receiver = Receiver::new();
    assert_eq!(receiver.summary(), Summary { rx: 0, loss: 0, bits: 0 });
    assert_eq!(receiver.verdict(), Err(NothingReceived));
    assert_eq!(NothingReceived.message(), "received zero datagrams");
}

#[test]
fn receivers_know_their_room() {
    let mut receiver = Receiver::new();
    receiver.bits = u64::MAX - 7;
    assert!(!receiver.has_room(&[0]));
    assert!(receiver.has_room(&[]));
    receiver.rx = u64::MAX;
    assert!(!receiver.has_room(&[]));
}

#[test]
fn receivers_stop_after_their_duration() {
    assert!(keep_receiving(None, u64::MAX));
    assert!(keep_receiving(Some(3), 2));
    assert!(!keep_receiving(Some(3), 3));
    assert!(!keep_receiving(Some(0), 0));
}
