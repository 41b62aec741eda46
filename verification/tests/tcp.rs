use muffin::clock::Span;
use muffin::meter::{Goal, Mode, Report};
use muffin::net_error::NetErrorKind;
use muffin::tcp_client::{ClientWorker, Notice, WorkerAction, WorkerEvent};
use muffin::tcp_server::{ServerAction, ServerEvent, ServerWorker, LISTENER};
use muffin::tcp_stream::{
    on_read, ReadStep, StreamAction, StreamClient, StreamEvent, StreamNotice, StreamPhase,
};
use std::collections::VecDeque;

fn at(secs: u64) -> WorkerEvent {
    WorkerEvent::Clock(Span { secs, nanos: 0 })
}

fn ready(tokens: &[usize]) -> WorkerEvent {
    WorkerEvent::Ready(VecDeque::from(tokens.to_vec()))
}

/// A worker together with the counters that all workers share.
struct Client {
    worker: ClientWorker,
    connected: usize,
    bits: usize,
    notice: Notice,
}

impl Client {
    fn new(base_id: usize, count: usize, duration: u64) -> Client {
        Client {
            worker: ClientWorker::new(base_id, count, duration),
            connected: 0,
            bits: 0,
            notice: Notice::Nothing,
        }
    }

    fn step(&mut self, event: WorkerEvent) -> WorkerAction {
        assert!(self.worker.accepts(&event));
        let step = self.worker.step(event);
        self.connected = self.connected + step.opened - step.closed;
        self.bits += step.bits;
        self.notice = step.notice;
        step.action
    }
}

#[test]
fn worker_connects_writes_and_finishes() {
    let mut client = Client::new(10, 2, 5);
    assert_eq!(
        client.step(at(0)),
        WorkerAction::Poll { timeout: Span { secs: 5, nanos: 0 } }
    );
    // both connections come up; tokens that mean nothing are passed over
    assert_eq!(client.step(ready(&[1, 7, 0])), WorkerAction::CheckConnect { token: 1 });
    assert_eq!(
        client.step(WorkerEvent::ConnectChecked { ok: true }),
        WorkerAction::Write { token: 1 }
    );
    assert_eq!(client.connected, 1);
    assert_eq!(
        client.step(WorkerEvent::Wrote { bytes: 100 }),
        WorkerAction::Write { token: 1 }
    );
    assert_eq!(client.bits, 800);
    assert_eq!(
        client.step(WorkerEvent::WriteFailed { kind: NetErrorKind::WouldBlock }),
        WorkerAction::CheckConnect { token: 0 }
    );
    assert_eq!(
        client.step(WorkerEvent::ConnectChecked { ok: true }),
        WorkerAction::Write { token: 0 }
    );
    assert_eq!(
        client.step(WorkerEvent::WriteFailed { kind: NetErrorKind::WouldBlock }),
        WorkerAction::AskClock
    );
    assert_eq!(client.connected, 2);
    // an established connection is not checked again
    assert_eq!(
        client.step(at(1)),
        WorkerAction::Poll { timeout: Span { secs: 4, nanos: 0 } }
    );
    assert_eq!(client.step(ready(&[0])), WorkerAction::Write { token: 0 });
    client.step(WorkerEvent::WriteFailed { kind: NetErrorKind::WouldBlock });
    assert_eq!(client.step(at(5)), WorkerAction::Finish);
    assert_eq!(client.connected, 0);
    assert_eq!(client.bits, 800);
}

#[test]
fn worker_drops_what_fails_to_connect() {
    let mut client = Client::new(10, 2, 5);
    client.step(at(0));
    assert_eq!(client.step(ready(&[1])), WorkerAction::CheckConnect { token: 1 });
    assert_eq!(
        client.step(WorkerEvent::ConnectChecked { ok: false }),
        WorkerAction::Close { token: 1 }
    );
    assert_eq!(client.notice, Notice::ConnectFailed { stream: 11 });
    assert_eq!(client.step(WorkerEvent::Closed), WorkerAction::AskClock);
    // it is gone for good
    client.step(at(1));
    assert_eq!(client.step(ready(&[1])), WorkerAction::AskClock);
    assert_eq!(client.step(at(5)), WorkerAction::Finish);
    assert_eq!(client.connected, 0);
}

#[test]
fn worker_reconnects_when_the_peer_goes_away() {
    let mut client = Client::new(10, 1, 5);
    client.step(at(0));
    client.step(ready(&[0]));
    client.step(WorkerEvent::ConnectChecked { ok: true });
    assert_eq!(
        client.step(WorkerEvent::WriteFailed { kind: NetErrorKind::BrokenPipe }),
        WorkerAction::Close { token: 0 }
    );
    assert_eq!(client.notice, Notice::PeerClosed { stream: 10 });
    assert_eq!(client.connected, 0);
    assert_eq!(client.step(WorkerEvent::Closed), WorkerAction::AskClock);
    assert_eq!(client.step(at(2)), WorkerAction::Connect { token: 0 });
    assert_eq!(client.step(WorkerEvent::Reconnected { ok: true }), WorkerAction::AskClock);
    client.step(at(2));
    assert_eq!(client.step(ready(&[0])), WorkerAction::CheckConnect { token: 0 });
    client.step(WorkerEvent::ConnectChecked { ok: true });
    assert_eq!(client.connected, 1);
}

#[test]
fn worker_treats_an_empty_write_like_a_closed_peer() {
    let mut client = Client::new(0, 1, 5);
    client.step(at(0));
    client.step(ready(&[0]));
    client.step(WorkerEvent::ConnectChecked { ok: true });
    assert_eq!(
        client.step(WorkerEvent::Wrote { bytes: 0 }),
        WorkerAction::Close { token: 0 }
    );
    assert_eq!(client.notice, Notice::Nothing);
    client.step(WorkerEvent::Closed);
    assert_eq!(client.step(at(1)), WorkerAction::Connect { token: 0 });
    assert_eq!(client.step(WorkerEvent::Reconnected { ok: false }), WorkerAction::AskClock);
    assert_eq!(client.notice, Notice::ReconnectFailed { stream: 0 });
    assert_eq!(client.connected, 0);
}

#[test]
fn worker_does_not_reconnect_after_the_deadline() {
    let mut client = Client::new(0, 1, 5);
    client.step(at(0));
    client.step(ready(&[0]));
    client.step(WorkerEvent::ConnectChecked { ok: true });
    client.step(WorkerEvent::WriteFailed { kind: NetErrorKind::ConnectionReset });
    client.step(WorkerEvent::Closed);
    assert_eq!(client.step(at(5)), WorkerAction::AskClock);
    assert_eq!(client.step(at(5)), WorkerAction::Finish);
    assert_eq!(client.connected, 0);
}

#[test]
fn worker_gives_up_on_other_errors() {
    let mut client = Client::new(0, 1, 5);
    client.step(at(0));
    client.step(ready(&[0]));
    client.step(WorkerEvent::ConnectChecked { ok: true });
    assert_eq!(
        client.step(WorkerEvent::WriteFailed { kind: NetErrorKind::Other }),
        WorkerAction::Fail
    );
}

#[test]
fn worker_knows_what_it_waits_for() {
    let worker = ClientWorker::new(0, 1, 5);
    assert!(worker.accepts(&at(0)));
    assert!(!worker.accepts(&WorkerEvent::Closed));
    assert!(!worker.accepts(&WorkerEvent::Clock(Span { secs: 0, nanos: 1_000_000_000 })));
}

fn incoming(tokens: &[usize]) -> ServerEvent {
    ServerEvent::Ready(VecDeque::from(tokens.to_vec()))
}

/// A server worker together with the counters that all workers share.
struct Server {
    worker: ServerWorker,
    connected: usize,
    bits: usize,
}

impl Server {
    fn new() -> Server {
        Server { worker: ServerWorker::new(), connected: 0, bits: 0 }
    }

    fn step(&mut self, event: ServerEvent) -> ServerAction {
        assert!(self.worker.accepts(&event));
        let step = self.worker.step(event);
        self.connected = self.connected + step.opened - step.closed;
        self.bits += step.bits;
        step.action
    }
}

#[test]
fn server_accepts_until_nobody_is_left() {
    let mut server = Server::new();
    assert_eq!(server.step(incoming(&[LISTENER])), ServerAction::Accept);
    assert_eq!(server.step(ServerEvent::Accepted), ServerAction::Register { token: 1 });
    assert_eq!(server.connected, 0);
    assert_eq!(server.step(ServerEvent::Registered), ServerAction::Accept);
    assert_eq!(server.connected, 1);
    assert_eq!(server.step(ServerEvent::Accepted), ServerAction::Register { token: 2 });
    assert_eq!(server.step(ServerEvent::Registered), ServerAction::Accept);
    assert_eq!(server.step(ServerEvent::AcceptFailed), ServerAction::Poll);
    assert_eq!(server.connected, 2);
}

#[test]
fn server_reads_until_the_peer_is_done() {
    let mut server = Server::new();
    server.step(incoming(&[LISTENER]));
    for _ in 0..2 {
        server.step(ServerEvent::Accepted);
        server.step(ServerEvent::Registered);
    }
    server.step(ServerEvent::AcceptFailed);

    // token 9 has no connection
    assert_eq!(server.step(incoming(&[9, 1, 2])), ServerAction::Read { token: 1 });
    assert_eq!(
        server.step(ServerEvent::Received { bytes: 10 }),
        ServerAction::Read { token: 1 }
    );
    assert_eq!(server.bits, 80);
    assert_eq!(
        server.step(ServerEvent::Received { bytes: 0 }),
        ServerAction::Read { token: 2 }
    );
    assert_eq!(
        server.step(ServerEvent::ReceiveFailed { kind: NetErrorKind::WouldBlock }),
        ServerAction::Close { token: 1 }
    );
    assert_eq!(server.connected, 1);
    assert_eq!(server.step(ServerEvent::Closed), ServerAction::Poll);

    assert_eq!(server.step(incoming(&[2])), ServerAction::Read { token: 2 });
    assert_eq!(
        server.step(ServerEvent::ReceiveFailed { kind: NetErrorKind::ConnectionReset }),
        ServerAction::Close { token: 2 }
    );
    assert_eq!(server.connected, 0);
    assert_eq!(server.bits, 80);
}

#[test]
fn server_knows_what_it_waits_for() {
    let worker = ServerWorker::new();
    assert!(worker.accepts(&incoming(&[])));
    assert!(!worker.accepts(&ServerEvent::Accepted));
}

fn clock(secs: u64) -> StreamEvent {
    StreamEvent::Clock(Span { secs, nanos: 0 })
}

fn timed(duration: u64) -> Goal {
    Goal { mode: Mode::Time, duration }
}

#[test]
fn stream_runs_for_its_time() {
    let mut stream = StreamClient::new(timed(2), true);
    let step = stream.step(clock(0));
    assert_eq!(
        step.action,
        StreamAction::Connect { within: Some(Span { secs: 2, nanos: 0 }) }
    );
    let step = stream.step(StreamEvent::Connected);
    assert_eq!((step.action, step.opened), (StreamAction::Write, 1));
    let step = stream.step(StreamEvent::Wrote { bytes: 100, secs: 0 });
    assert_eq!((step.action, step.bits), (StreamAction::Write, 800));
    assert_eq!(step.notice, StreamNotice::Nothing);
    let step = stream.step(StreamEvent::Wrote { bytes: 100, secs: 1 });
    assert_eq!(step.notice, StreamNotice::Rate(Report { index: 0, bits: 1600 }));
    let step = stream.step(StreamEvent::Wrote { bytes: 50, secs: 2 });
    assert_eq!(step.notice, StreamNotice::Rate(Report { index: 1, bits: 400 }));
    assert_eq!((step.action, step.closed), (StreamAction::Finish { total: 2000 }, 1));
    assert_eq!(stream.phase, StreamPhase::Stopped);
}

#[test]
fn stream_reconnects_when_the_peer_goes_away() {
    let mut stream = StreamClient::new(timed(5), false);
    stream.step(clock(0));
    stream.step(StreamEvent::Connected);
    stream.step(StreamEvent::Wrote { bytes: 100, secs: 1 });
    let step = stream.step(StreamEvent::WriteFailed { kind: NetErrorKind::ConnectionAborted });
    assert_eq!(
        (step.action, step.notice, step.closed),
        (StreamAction::AskClock, StreamNotice::PeerClosed, 1)
    );
    let step = stream.step(StreamEvent::Clock(Span { secs: 2, nanos: 500_000_000 }));
    assert_eq!(
        step.action,
        StreamAction::Connect { within: Some(Span { secs: 2, nanos: 500_000_000 }) }
    );
    let step = stream.step(StreamEvent::ConnectTimedOut);
    assert_eq!(step.action, StreamAction::Finish { total: 800 });
}

#[test]
fn stream_ends() {
    // an empty write, with what was reported so far
    let mut stream = StreamClient::new(timed(5), true);
    stream.step(clock(0));
    stream.step(StreamEvent::Connected);
    stream.step(StreamEvent::Wrote { bytes: 100, secs: 0 });
    let step = stream.step(StreamEvent::Wrote { bytes: 0, secs: 1 });
    assert_eq!((step.action, step.closed), (StreamAction::Finish { total: 0 }, 1));

    let mut refused = StreamClient::new(timed(5), true);
    refused.step(clock(0));
    let step = refused.step(StreamEvent::ConnectFailed);
    assert_eq!(
        (step.action, step.notice),
        (StreamAction::Finish { total: 0 }, StreamNotice::ConnectFailed)
    );

    let mut late = StreamClient::new(timed(5), true);
    assert_eq!(late.step(clock(5)).action, StreamAction::Finish { total: 0 });

    let mut broken = StreamClient::new(timed(5), true);
    broken.step(clock(0));
    broken.step(StreamEvent::Connected);
    let step = broken.step(StreamEvent::WriteFailed { kind: NetErrorKind::Other });
    assert_eq!((step.action, step.closed), (StreamAction::Fail, 1));
}

#[test]
fn stream_writes_a_given_number_of_buffers() {
    let mut stream = StreamClient::new(Goal { mode: Mode::Data, duration: 2 }, false);
    assert_eq!(stream.step(clock(100)).action, StreamAction::Connect { within: None });
    stream.step(StreamEvent::Connected);
    let step = stream.step(StreamEvent::Wrote { bytes: 100, secs: 101 });
    assert_eq!(
        (step.action, step.notice),
        (StreamAction::Write, StreamNotice::Nothing)
    );
    let step = stream.step(StreamEvent::Wrote { bytes: 100, secs: 101 });
    assert_eq!(step.action, StreamAction::Finish { total: 800 });
}

#[test]
fn stream_makes_its_writes_through_reconnecting() {
    let mut stream = StreamClient::new(Goal { mode: Mode::Data, duration: 3 }, false);
    let wrote = StreamEvent::Wrote { bytes: 10, secs: 0 };
    let mut writes = 0;
    stream.step(clock(0));
    stream.step(StreamEvent::Connected);
    assert_eq!(stream.step(wrote).action, StreamAction::Write);
    writes += 1;
    stream.step(StreamEvent::WriteFailed { kind: NetErrorKind::BrokenPipe });
    stream.step(clock(0));
    stream.step(StreamEvent::Connected);
    loop {
        writes += 1;
        if let StreamAction::Finish { .. } = stream.step(wrote).action {
            break;
        }
    }
    assert_eq!((writes, stream.writes), (3, 3));
}

#[test]
fn server_keeps_the_connections_that_are_live() {
    let mut worker = ServerWorker::new();
    let mut opened = 0;
    let mut closed = 0;
    let mut live = Vec::new();
    // two connections come, and the first of them fails, which is seen twice
    let events = vec![
        ServerEvent::Ready(VecDeque::from(vec![LISTENER])),
        ServerEvent::Accepted,
        ServerEvent::Registered,
        ServerEvent::Accepted,
        ServerEvent::Registered,
        ServerEvent::AcceptFailed,
        ServerEvent::Ready(VecDeque::from(vec![1, 1, 2])),
        ServerEvent::ReceiveFailed { kind: NetErrorKind::ConnectionReset },
        ServerEvent::ReceiveFailed { kind: NetErrorKind::ConnectionReset },
        ServerEvent::Received { bytes: 5 },
        ServerEvent::ReceiveFailed { kind: NetErrorKind::WouldBlock },
        ServerEvent::Closed,
    ];
    let mut action = ServerAction::Poll;
    for event in events {
        assert!(worker.accepts(&event));
        let step = worker.step(event);
        opened += step.opened;
        closed += step.closed;
        if let ServerAction::Register { token } = step.action {
            live.push(token);
        }
        if let ServerAction::Close { token } = step.action {
            live.retain(|other| *other != token);
        }
        action = step.action;
    }
    assert_eq!(action, ServerAction::Poll);
    assert_eq!(live, vec![2]);
    assert_eq!((opened, closed), (2, 1));
}

#[test]
fn stream_knows_what_it_waits_for() {
    let stream = StreamClient::new(timed(5), true);
    assert!(stream.accepts(&clock(0)));
    assert!(!stream.accepts(&StreamEvent::Connected));
}

#[test]
fn reads_of_a_server() {
    assert_eq!(on_read(Ok(10)), ReadStep::Count { bits: 80 });
    assert_eq!(on_read(Ok(0)), ReadStep::Close);
    assert_eq!(on_read(Err(NetErrorKind::WouldBlock)), ReadStep::Close);
}
