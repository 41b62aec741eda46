use muffin::clock::{time_left, Span};
use muffin::meter::{
    combined_total, show_stream_rates, Goal, Mode, RateMeter, Report, SendMeter,
};
use muffin::net_error::{is_peer_closed, is_receive_timeout, NetErrorKind};
use muffin::reporter::{
    client_pause, reports_on, ActivityLog, CounterReader, ServerReport, ServerReporter,
};
use muffin::share::{share_streams, Share};

#[test]
fn time_that_is_left() {
    assert_eq!(
        time_left(Span { secs: 0, nanos: 0 }, 10),
        Some(Span { secs: 10, nanos: 0 })
    );
    assert_eq!(
        time_left(Span { secs: 9, nanos: 999_999_999 }, 10),
        Some(Span { secs: 0, nanos: 1 })
    );
    assert_eq!(
        time_left(Span { secs: 3, nanos: 250_000_000 }, 10),
        Some(Span { secs: 6, nanos: 750_000_000 })
    );
    assert_eq!(time_left(Span { secs: 10, nanos: 0 }, 10), None);
    assert_eq!(time_left(Span { secs: 10, nanos: 1 }, 10), None);
    assert_eq!(time_left(Span { secs: 0, nanos: 0 }, 0), None);
    assert!(Span { secs: 0, nanos: 999_999_999 }.is_well_formed());
    assert!(!Span { secs: 0, nanos: 1_000_000_000 }.is_well_formed());
}

#[test]
fn error_kinds() {
    for kind in [
        NetErrorKind::ConnectionReset,
        NetErrorKind::ConnectionAborted,
        NetErrorKind::BrokenPipe,
    ] {
        assert!(is_peer_closed(kind));
        assert!(!is_receive_timeout(kind));
    }
    for kind in [NetErrorKind::WouldBlock, NetErrorKind::TimedOut] {
        assert!(!is_peer_closed(kind));
        assert!(is_receive_timeout(kind));
    }
    assert!(!is_peer_closed(NetErrorKind::Other));
    assert!(!is_receive_timeout(NetErrorKind::Other));
}

#[test]
fn intervals_end_with_the_second() {
    let mut meter = RateMeter::new();
    assert_eq!(meter.record(10, 0), None);
    assert_eq!(meter.record(5, 1), Some(Report { index: 0, bits: 120 }));
    assert_eq!(meter.record(1, 1), None);
    // a second may pass without a transfer
    assert_eq!(meter.record(1, 3), Some(Report { index: 1, bits: 16 }));
    assert_eq!(meter.record(2, 3), None);
    assert_eq!(meter, RateMeter { interval: 3, pending: 16, count: 2 });
}

#[test]
fn totals_are_what_was_reported() {
    let mut meter = SendMeter::new();
    meter.record(10, 0);
    meter.record(5, 1);
    meter.record(7, 1);
    assert_eq!(meter.total, 120);
    assert_eq!(meter.rate.pending, 56);
    meter.record(0, 2);
    assert_eq!(meter.total, 176);
    assert_eq!(meter.rate.pending, 0);
}

#[test]
fn meters_know_their_room() {
    let meter = RateMeter { interval: 0, pending: usize::MAX - 8, count: 0 };
    assert!(meter.has_room(1));
    assert!(!meter.has_room(2));
    assert!(!RateMeter::new().has_room(usize::MAX));
    let full = SendMeter { rate: RateMeter::new(), total: usize::MAX - 8 };
    assert!(full.has_room(1));
    assert!(!full.has_room(2));
}

#[test]
fn goals() {
    let time = Goal { mode: Mode::Time, duration: 10 };
    assert!(!time.is_reached(9, 1000));
    assert!(time.is_reached(10, 0));
    let data = Goal { mode: Mode::Data, duration: 10 };
    assert!(!data.is_reached(1000, 9));
    assert!(data.is_reached(0, 10));
}

#[test]
fn rates_of_many_streams_are_not_shown() {
    assert!(show_stream_rates(8));
    assert!(!show_stream_rates(9));
}

#[test]
fn totals_of_all_streams() {
    assert_eq!(combined_total(&vec![]), Some(0));
    assert_eq!(combined_total(&vec![1, 2, 3]), Some(6));
    assert_eq!(combined_total(&vec![usize::MAX, 0]), Some(usize::MAX));
    assert_eq!(combined_total(&vec![usize::MAX, 1]), None);
}

#[test]
fn counters_are_told_by_their_difference() {
    let mut reader = CounterReader::new();
    assert_eq!(reader.observe(100), 100);
    assert_eq!(reader.observe(100), 0);
    assert_eq!(reader.observe(250), 150);
    // around the end of the range
    let mut late = CounterReader { last: usize::MAX - 9 };
    assert_eq!(late.observe(5), 15);
}

#[test]
fn idle_seconds_are_passed_over() {
    let mut log = ActivityLog::new();
    assert_eq!(log.note(0, 0), None);
    assert_eq!(log.note(0, 1), Some(ServerReport { index: 0, bits: 0, conn: 1 }));
    assert_eq!(log.note(8, 0), Some(ServerReport { index: 1, bits: 8, conn: 0 }));
    assert_eq!(log.note(0, 0), None);
    assert_eq!(log.count, 2);
}

#[test]
fn server_reporter() {
    let mut reporter = ServerReporter::new();
    assert_eq!(
        reporter.pause(Span { secs: 0, nanos: 400_000_000 }),
        Some(Span { secs: 0, nanos: 600_000_000 })
    );
    assert_eq!(reporter.observe(0, 0), None);
    assert_eq!(reporter.pause(Span { secs: 2, nanos: 1 }), None);
    assert_eq!(reporter.observe(80, 1), Some(ServerReport { index: 0, bits: 80, conn: 1 }));
    assert_eq!(reporter.observe(80, 1), Some(ServerReport { index: 1, bits: 0, conn: 1 }));
    assert_eq!(reporter.observe(80, 0), None);
    assert_eq!(reporter.observe(96, 0), Some(ServerReport { index: 2, bits: 16, conn: 0 }));
}

#[test]
fn server_reports_are_numbered_without_a_gap() {
    let mut reporter = ServerReporter::new();
    let readings = [(0, 0), (8, 0), (8, 0), (8, 2), (16, 2), (16, 0), (24, 0)];
    let told: Vec<ServerReport> =
        readings.iter().filter_map(|(bits, conn)| reporter.observe(*bits, *conn)).collect();
    assert_eq!(
        told,
        vec![
            ServerReport { index: 0, bits: 8, conn: 0 },
            ServerReport { index: 1, bits: 0, conn: 2 },
            ServerReport { index: 2, bits: 8, conn: 2 },
            ServerReport { index: 3, bits: 8, conn: 0 },
        ]
    );
    assert_eq!(reporter.tick, 8);
}

#[test]
fn client_reports_on_the_seconds_of_its_run() {
    let time = Goal { mode: Mode::Time, duration: 3 };
    assert!(reports_on(time, 2));
    assert!(!reports_on(time, 3));
    let data = Goal { mode: Mode::Data, duration: 3 };
    assert!(reports_on(data, 3));
}

#[test]
fn client_reporter_waits_for_the_end_of_each_second() {
    assert_eq!(
        client_pause(Span { secs: 0, nanos: 0 }, 0),
        Some(Span { secs: 1, nanos: 0 })
    );
    assert_eq!(client_pause(Span { secs: 5, nanos: 0 }, 4), None);
}

#[test]
fn streams_are_shared_evenly() {
    assert_eq!(
        share_streams(10, 4),
        vec![
            Share { base: 0, count: 3 },
            Share { base: 3, count: 3 },
            Share { base: 6, count: 2 },
            Share { base: 8, count: 2 }
        ]
    );
    assert_eq!(share_streams(2, 4), vec![
        Share { base: 0, count: 1 },
        Share { base: 1, count: 1 }
    ]);
    assert_eq!(share_streams(0, 4), vec![]);
    assert_eq!(share_streams(5, 1), vec![Share { base: 0, count: 5 }]);
}
