//! One client stream over TCP: connect, write until the time is up, and
//! connect again when the peer goes away.
use crate::clock::{left_of, time_left, Span};
use crate::meter::{metered, Goal, Mode, Report, SendMeter, Transfer};
use crate::net_error::{is_peer_closed, peer_closed, NetErrorKind};
use vstd::prelude::*;

verus! {

/// What a stream waits for.
#[derive(Clone, Copy, Debug, PartialEq, Eq, Structural)]
pub enum StreamPhase {
    /// The time, to see whether the run is over.
    Deadline,
    /// What connecting came to.
    Connecting,
    /// What a write came to.
    Writing,
    /// Nothing: the stream has stopped.
    Stopped,
}

/// What the stream asks for.
#[derive(Clone, Copy, Debug, PartialEq, Eq, Structural)]
pub enum StreamAction {
    /// Tell the time since the start of the run.
    AskClock,
    /// Connect, and give up after `within` if that is set.
    Connect { within: Option<Span> },
    /// Write the buffer.
    Write,
    /// The run is over: `total` bits were sent.
    Finish { total: usize },
    /// Give up, with the error that was handed in.
    Fail,
}

/// What came of an action.
#[derive(Clone, Copy, Debug, PartialEq, Eq, Structural)]
pub enum StreamEvent {
    Clock(Span),
    ConnectTimedOut,
    ConnectFailed,
    Connected,
    /// `bytes` were written, and `secs` seconds had then passed.
    Wrote { bytes: usize, secs: u64 },
    WriteFailed { kind: NetErrorKind },
}

/// What the user is told about the stream.
#[derive(Clone, Copy, Debug, PartialEq, Eq, Structural)]
pub enum StreamNotice {
    Nothing,
    ConnectFailed,
    PeerClosed,
    Rate(Report),
}

/// One decision of a stream: what to do, what to tell, and how the counters
/// that all streams share move.
#[derive(Clone, Copy, Debug, PartialEq, Eq, Structural)]
pub struct StreamStep {
    pub action: StreamAction,
    pub notice: StreamNotice,
    /// Bits to add to the bits sent.
    pub bits: usize,
    /// Connections to add to the number of connections.
    pub opened: usize,
    /// Connections to take off the number of connections.
    pub closed: usize,
}

/// A client stream.
#[derive(Clone, Copy, Debug, PartialEq, Eq, Structural)]
pub struct StreamClient {
    pub goal: Goal,
    /// Whether the rate of this stream is shown.
    pub show_rate: bool,
    pub meter: SendMeter,
    /// Buffers that were written.
    pub writes: u64,
    pub phase: StreamPhase,
}

/// A step that moves no counter and tells nothing.
pub open spec fn silent(action: StreamAction) -> StreamStep {
    StreamStep { action, notice: StreamNotice::Nothing, bits: 0, opened: 0, closed: 0 }
}

fn silently(action: StreamAction) -> (step: StreamStep)
    ensures
        step == silent(action),
{
    StreamStep { action, notice: StreamNotice::Nothing, bits: 0, opened: 0, closed: 0 }
}

impl StreamClient {
    pub open spec fn initial(goal: Goal, show_rate: bool) -> StreamClient {
        StreamClient {
            goal,
            show_rate,
            meter: SendMeter::initial(),
            writes: 0,
            phase: StreamPhase::Deadline,
        }
    }

    pub open spec fn inv(self) -> bool {
        self.meter.rate.inv()
    }

    /// How many connections the stream has: one while it writes.
    pub open spec fn connections(self) -> nat {
        if self.phase is Writing {
            1
        } else {
            0
        }
    }

    /// Whether `event` is what the stream waits for, and can be counted.
    pub open spec fn expects(self, event: StreamEvent) -> bool {
        match (self.phase, event) {
            (StreamPhase::Deadline, StreamEvent::Clock(elapsed)) => elapsed.wf(),
            (StreamPhase::Connecting, StreamEvent::ConnectTimedOut) => true,
            (StreamPhase::Connecting, StreamEvent::ConnectFailed) => true,
            (StreamPhase::Connecting, StreamEvent::Connected) => true,
            (StreamPhase::Writing, StreamEvent::Wrote { bytes, .. }) => self.meter.fits(bytes)
                && self.writes < u64::MAX,
            (StreamPhase::Writing, StreamEvent::WriteFailed { .. }) => true,
            _ => false,
        }
    }

    pub open spec fn at(self, phase: StreamPhase) -> StreamClient {
        StreamClient { phase, ..self }
    }

    /// The stream ends, with what the intervals that were reported add up to.
    pub open spec fn finish(self) -> (StreamClient, StreamStep) {
        (
            self.at(StreamPhase::Stopped),
            silent(StreamAction::Finish { total: self.meter.total }),
        )
    }

    /// Whether the run goes on after `elapsed`, and if so how long connecting
    /// may take.
    pub open spec fn may_connect(self, elapsed: Span) -> Option<Option<Span>> {
        match self.goal.mode {
            Mode::Time => match left_of(elapsed, self.goal.duration) {
                Some(within) => Some(Some(within)),
                None => None,
            },
            Mode::Data => if self.writes < self.goal.duration {
                Some(None)
            } else {
                None
            },
        }
    }

    /// What a write of `bytes` leads to. A write of nothing ends the stream,
    /// and so does one that reaches the goal.
    pub open spec fn after_write(self, bytes: usize, secs: u64) -> (StreamClient, StreamStep) {
        if bytes == 0 {
            let (stream, step) = self.finish();
            (stream, StreamStep { closed: 1, ..step })
        } else {
            let written = StreamClient {
                meter: self.meter.after(bytes, secs),
                writes: (self.writes + 1) as u64,
                ..self
            };
            let (stream, step) = if self.goal.reached(secs, written.writes) {
                let (stream, step) = written.finish();
                (stream, StreamStep { closed: 1, ..step })
            } else {
                (written, silent(StreamAction::Write))
            };
            (
                stream,
                StreamStep {
                    notice: match self.meter.rate.report(bytes, secs) {
                        Some(report) if self.show_rate => StreamNotice::Rate(report),
                        _ => StreamNotice::Nothing,
                    },
                    bits: (bytes * 8) as usize,
                    ..step
                },
            )
        }
    }

    /// What the stream does about `event`.
    pub open spec fn next(self, event: StreamEvent) -> (StreamClient, StreamStep) {
        match event {
            StreamEvent::Clock(elapsed) => {
                match self.may_connect(elapsed) {
                    Some(within) => (
                        self.at(StreamPhase::Connecting),
                        silent(StreamAction::Connect { within }),
                    ),
                    None => self.finish(),
                }
            },
            StreamEvent::ConnectTimedOut => self.finish(),
            StreamEvent::ConnectFailed => {
                let (stream, step) = self.finish();
                (stream, StreamStep { notice: StreamNotice::ConnectFailed, ..step })
            },
            StreamEvent::Connected => {
                (
                    self.at(StreamPhase::Writing),
                    StreamStep { opened: 1, ..silent(StreamAction::Write) },
                )
            },
            StreamEvent::Wrote { bytes, secs } => self.after_write(bytes, secs),
            StreamEvent::WriteFailed { kind } => {
                if peer_closed(kind) {
                    (
                        self.at(StreamPhase::Deadline),
                        StreamStep {
                            notice: StreamNotice::PeerClosed,
                            closed: 1,
                            ..silent(StreamAction::AskClock)
                        },
                    )
                } else {
                    (
                        self.at(StreamPhase::Stopped),
                        StreamStep { closed: 1, ..silent(StreamAction::Fail) },
                    )
                }
            },
        }
    }

    /// A stream that is not connected. It starts by asking for the time.
    pub fn new(goal: Goal, show_rate: bool) -> (stream: StreamClient)
        ensures
            stream == StreamClient::initial(goal, show_rate),
            stream.inv(),
    {
        StreamClient {
            goal,
            show_rate,
            meter: SendMeter::new(),
            writes: 0,
            phase: StreamPhase::Deadline,
        }
    }

    /// Whether `event` is one that the stream waits for, and can be counted.
    pub fn accepts(&self, event: &StreamEvent) -> (yes: bool)
        ensures
            yes == self.expects(*event),
    {
        match (self.phase, *event) {
            (StreamPhase::Deadline, StreamEvent::Clock(elapsed)) => elapsed.is_well_formed(),
            (StreamPhase::Connecting, StreamEvent::ConnectTimedOut) => true,
            (StreamPhase::Connecting, StreamEvent::ConnectFailed) => true,
            (StreamPhase::Connecting, StreamEvent::Connected) => true,
            (StreamPhase::Writing, StreamEvent::Wrote { bytes, .. }) => self.meter.has_room(bytes)
                && self.writes < u64::MAX,
            (StreamPhase::Writing, StreamEvent::WriteFailed { .. }) => true,
            _ => false,
        }
    }

    /// What to do about `event`.
    pub fn step(&mut self, event: StreamEvent) -> (step: StreamStep)
        requires
            old(self).inv(),
            old(self).expects(event),
        ensures
            (*final(self), step) == old(self).next(event),
            final(self).inv(),
    {
        match event {
            StreamEvent::Clock(elapsed) => {
                let within = match self.goal.mode {
                    Mode::Time => match time_left(elapsed, self.goal.duration) {
                        Some(within) => Some(Some(within)),
                        None => None,
                    },
                    Mode::Data => if self.writes < self.goal.duration {
                        Some(None)
                    } else {
                        None
                    },
                };
                match within {
                    Some(within) => {
                        self.phase = StreamPhase::Connecting;
                        silently(StreamAction::Connect { within })
                    },
                    None => self.stop(0, StreamNotice::Nothing, 0),
                }
            },
            StreamEvent::ConnectTimedOut => self.stop(0, StreamNotice::Nothing, 0),
            StreamEvent::ConnectFailed => self.stop(0, StreamNotice::ConnectFailed, 0),
            StreamEvent::Connected => {
                self.phase = StreamPhase::Writing;
                StreamStep {
                    action: StreamAction::Write,
                    notice: StreamNotice::Nothing,
                    bits: 0,
                    opened: 1,
                    closed: 0,
                }
            },
            StreamEvent::Wrote { bytes, secs } => {
                if bytes == 0 {
                    self.stop(0, StreamNotice::Nothing, 1)
                } else {
                    let notice = match self.meter.record(bytes, secs) {
                        Some(report) if self.show_rate => StreamNotice::Rate(report),
                        _ => StreamNotice::Nothing,
                    };
                    let bits: usize = bytes * 8;
                    self.writes = self.writes + 1;
                    if self.goal.is_reached(secs, self.writes) {
                        self.stop(bits, notice, 1)
                    } else {
                        StreamStep {
                            action: StreamAction::Write,
                            notice,
                            bits,
                            opened: 0,
                            closed: 0,
                        }
                    }
                }
            },
            StreamEvent::WriteFailed { kind } => {
                if is_peer_closed(kind) {
                    self.phase = StreamPhase::Deadline;
                    StreamStep {
                        action: StreamAction::AskClock,
                        notice: StreamNotice::PeerClosed,
                        bits: 0,
                        opened: 0,
                        closed: 1,
                    }
                } else {
                    self.phase = StreamPhase::Stopped;
                    StreamStep {
                        action: StreamAction::Fail,
                        notice: StreamNotice::Nothing,
                        bits: 0,
                        opened: 0,
                        closed: 1,
                    }
                }
            },
        }
    }

    fn stop(&mut self, bits: usize, notice: StreamNotice, closed: usize) -> (step: StreamStep)
        ensures
            *final(self) == old(self).at(StreamPhase::Stopped),
            step == (StreamStep {
                action: StreamAction::Finish { total: old(self).meter.total },
                notice,
                bits,
                opened: 0,
                closed,
            }),
    {
        self.phase = StreamPhase::Stopped;
        StreamStep {
            action: StreamAction::Finish { total: self.meter.total },
            notice,
            bits,
            opened: 0,
            closed,
        }
    }
}

/// Every step moves the number of connections by exactly the change in the
/// stream's own, and a stream that has stopped has none left. One that has
/// finished tells what the intervals that were reported add up to.
pub proof fn law_step_keeps_count(stream: StreamClient, event: StreamEvent)
    requires
        stream.inv(),
        stream.expects(event),
    ensures
        stream.next(event).0.connections() == stream.connections() + stream.next(event).1.opened
            - stream.next(event).1.closed,
        stream.next(event).1.action is Finish || stream.next(event).1.action is Fail
            ==> stream.next(event).0.connections() == 0,
        stream.next(event).1.bits == 8 * bytes_of(event),
        stream.next(event).1.action matches StreamAction::Finish { total } ==> total
            == stream.next(event).0.meter.total,
{
}

/// The bytes that `event` says were written.
pub open spec fn bytes_of(event: StreamEvent) -> nat {
    match event {
        StreamEvent::Wrote { bytes, .. } => bytes as nat,
        _ => 0,
    }
}

/// A stream writes only while it is connected, and connects only while it is
/// not and the run goes on.
pub proof fn law_actions_fit_connection(stream: StreamClient, event: StreamEvent)
    requires
        stream.inv(),
        stream.expects(event),
    ensures
        stream.next(event).1.action is Write ==> stream.next(event).0.connections() == 1,
        stream.next(event).1.action is Connect ==> stream.next(event).0.connections() == 0,
        event matches StreamEvent::Clock(elapsed) ==> (stream.next(event).1.action is Connect
            <==> stream.may_connect(elapsed) is Some),
{
}

/// The stream after `events`, and the bits that it counted.
pub open spec fn run(start: StreamClient, events: Seq<StreamEvent>) -> (StreamClient, nat)
    decreases events.len(),
{
    if events.len() == 0 {
        (start, 0)
    } else {
        let (stream, bits) = run(start, events.drop_last());
        let (after, step) = stream.next(events.last());
        (after, bits + step.bits as nat)
    }
}

/// Whether each of `events` is what the stream waits for when it comes.
pub open spec fn run_expects(start: StreamClient, events: Seq<StreamEvent>) -> bool
    decreases events.len(),
{
    events.len() > 0 ==> run_expects(start, events.drop_last()) && run(
        start,
        events.drop_last(),
    ).0.expects(events.last())
}

/// Through all reconnecting, the bits of a stream are those of the intervals
/// that were reported and those of the interval that is not over.
pub proof fn law_run_counts_every_bit(goal: Goal, show_rate: bool, events: Seq<StreamEvent>)
    requires
        run_expects(StreamClient::initial(goal, show_rate), events),
    ensures
        ({
            let (stream, bits) = run(StreamClient::initial(goal, show_rate), events);
            &&& stream.inv()
            &&& stream.goal == goal
            &&& stream.meter.total + stream.meter.rate.pending == bits
        }),
    decreases events.len(),
{
    if events.len() > 0 {
        law_run_counts_every_bit(goal, show_rate, events.drop_last());
    }
}

/// Through all reconnecting, a stream that is measured in data never makes
/// more buffer writes than it was asked for.
pub proof fn law_data_stream_is_bounded(goal: Goal, show_rate: bool, events: Seq<StreamEvent>)
    requires
        goal.mode is Data,
        run_expects(StreamClient::initial(goal, show_rate), events),
    ensures
        ({
            let stream = run(StreamClient::initial(goal, show_rate), events).0;
            &&& stream.goal == goal
            &&& stream.writes <= goal.duration
            &&& stream.phase is Connecting || stream.phase is Writing ==> stream.writes
                < goal.duration
        }),
    decreases events.len(),
{
    if events.len() > 0 {
        law_data_stream_is_bounded(goal, show_rate, events.drop_last());
    }
}

/// A stream that is measured in data and whose writes go through finishes with
/// exactly the buffer write that makes up what it was asked for.
pub proof fn law_data_stream_makes_its_writes(
    goal: Goal,
    show_rate: bool,
    events: Seq<StreamEvent>,
    bytes: usize,
    secs: u64,
)
    requires
        goal.mode is Data,
        run_expects(StreamClient::initial(goal, show_rate), events),
        run(StreamClient::initial(goal, show_rate), events).0.expects(
            StreamEvent::Wrote { bytes, secs },
        ),
        bytes > 0,
    ensures
        ({
            let (stream, step) = run(StreamClient::initial(goal, show_rate), events).0.next(
                StreamEvent::Wrote { bytes, secs },
            );
            &&& step.action is Finish <==> stream.writes == goal.duration
            &&& step.action is Write <==> stream.writes < goal.duration
        }),
{
    law_data_stream_is_bounded(goal, show_rate, events);
}

/// What a server does about a read from one of its connections.
#[derive(Clone, Copy, Debug, PartialEq, Eq, Structural)]
pub enum ReadStep {
    /// Add the bits to the bits received, and read on.
    Count { bits: usize },
    /// Close the connection.
    Close,
}

/// What a server does about a read from one of its connections: it reads on
/// until the peer is done or the connection breaks, however it breaks.
pub fn on_read(outcome: Result<usize, NetErrorKind>) -> (step: ReadStep)
    requires
        outcome matches Ok(bytes) ==> bytes * 8 <= usize::MAX,
    ensures
        step == match outcome {
            Ok(bytes) => if bytes == 0 {
                ReadStep::Close
            } else {
                ReadStep::Count { bits: (bytes * 8) as usize }
            },
            Err(_) => ReadStep::Close,
        },
{
    match outcome {
        Ok(0) => ReadStep::Close,
        Ok(bytes) => ReadStep::Count { bits: bytes * 8 },
        Err(_) => ReadStep::Close,
    }
}

/// What a stream does about each event. Measured in time, it connects while time
/// is left, for no longer than that, and its last write is the first after which
/// as many seconds have passed as it was asked for. Measured in data, it connects
/// while buffers are left to write, and its last write is that of the last
/// buffer. A write of nothing, and a connection that could not be made, end it;
/// a peer that went away does not; any other failure does.
pub proof fn law_stream_goes_on_until_its_goal(stream: StreamClient, event: StreamEvent)
    requires
        stream.inv(),
        stream.expects(event),
    ensures
        ({
            let (after, step) = stream.next(event);
            let goal = stream.goal;
            &&& after.goal == goal
            &&& after.show_rate == stream.show_rate
            &&& event !is Wrote ==> after.meter == stream.meter && after.writes == stream.writes
                && step.bits == 0
            &&& match event {
                StreamEvent::Clock(elapsed) => match goal.mode {
                    Mode::Time => if elapsed.secs < goal.duration {
                        &&& after.phase is Connecting
                        &&& step.action matches StreamAction::Connect { within: Some(within) }
                            && within.wf() && within.total_nanos() + elapsed.total_nanos()
                            == goal.duration * 1_000_000_000
                    } else {
                        step.action is Finish
                    },
                    Mode::Data => if stream.writes < goal.duration {
                        &&& after.phase is Connecting
                        &&& step.action == (StreamAction::Connect { within: None })
                    } else {
                        step.action is Finish
                    },
                },
                StreamEvent::ConnectTimedOut => step.action is Finish,
                StreamEvent::ConnectFailed => step.action is Finish,
                StreamEvent::Connected => step.action is Write && after.phase is Writing,
                StreamEvent::Wrote { bytes, secs } => if bytes == 0 {
                    &&& step.action is Finish
                    &&& after.meter == stream.meter
                    &&& after.writes == stream.writes
                    &&& step.bits == 0
                } else {
                    &&& after.writes == stream.writes + 1
                    &&& after.meter == stream.meter.after(bytes, secs)
                    &&& step.bits == 8 * bytes
                    &&& goal.mode is Time ==> (step.action is Finish <==> secs >= goal.duration)
                    &&& goal.mode is Data ==> (step.action is Finish <==> stream.writes + 1
                        >= goal.duration)
                    &&& step.action is Finish || (step.action is Write && after.phase is Writing)
                },
                StreamEvent::WriteFailed { kind } => if kind is ConnectionReset
                    || kind is ConnectionAborted || kind is BrokenPipe {
                    step.action is AskClock && after.phase is Deadline
                } else {
                    step.action is Fail && after.phase is Stopped
                },
            }
            &&& step.action matches StreamAction::Finish { total } ==> total == after.meter.total
                && after.phase is Stopped
        }),
{
}

/// A stream tells that it could not connect, that its peer went away, and, if
/// asked to, each interval that ended, with what was metered of it; and nothing
/// else. It counts a connection as opened when it is made, and as closed when it
/// is not written to any more.
pub proof fn law_stream_tells_what_happened(stream: StreamClient, event: StreamEvent)
    requires
        stream.inv(),
        stream.expects(event),
    ensures
        ({
            let (after, step) = stream.next(event);
            &&& step.notice is ConnectFailed <==> event is ConnectFailed
            &&& step.notice is PeerClosed <==> (event matches StreamEvent::WriteFailed { kind } && (
            kind is ConnectionReset || kind is ConnectionAborted || kind is BrokenPipe))
            &&& match event {
                StreamEvent::Wrote { bytes, secs } => step.notice == (
                match stream.meter.rate.report(bytes, secs) {
                    Some(report) => if stream.show_rate && bytes > 0 {
                        StreamNotice::Rate(report)
                    } else {
                        StreamNotice::Nothing
                    },
                    None => StreamNotice::Nothing,
                }),
                _ => !(step.notice is Rate),
            }
            &&& step.opened == if event is Connected {
                1int
            } else {
                0
            }
            &&& step.closed == if stream.phase is Writing && !(step.action is Write) {
                1int
            } else {
                0
            }
        }),
{
}

/// The writes among `events` that took something.
pub open spec fn writes_in(events: Seq<StreamEvent>) -> Seq<Transfer>
    decreases events.len(),
{
    if events.len() == 0 {
        Seq::empty()
    } else {
        match events.last() {
            StreamEvent::Wrote { bytes, secs } => if bytes > 0 {
                writes_in(events.drop_last()).push(Transfer { bytes, secs })
            } else {
                writes_in(events.drop_last())
            },
            _ => writes_in(events.drop_last()),
        }
    }
}

/// Through all reconnecting, a stream meters exactly its writes, one after the
/// other, and counts them.
pub proof fn law_stream_meters_its_writes(goal: Goal, show_rate: bool, events: Seq<StreamEvent>)
    requires
        run_expects(StreamClient::initial(goal, show_rate), events),
    ensures
        ({
            let stream = run(StreamClient::initial(goal, show_rate), events).0;
            &&& stream.meter == metered(writes_in(events))
            &&& stream.writes == writes_in(events).len()
            &&& stream.goal == goal
            &&& stream.show_rate == show_rate
        }),
    decreases events.len(),
{
    if events.len() > 0 {
        let before = events.drop_last();
        law_stream_meters_its_writes(goal, show_rate, before);
        law_run_counts_every_bit(goal, show_rate, before);
        if let StreamEvent::Wrote { bytes, secs } = events.last() {
            let write = Transfer { bytes, secs };
            assert(writes_in(before).push(write).drop_last() =~= writes_in(before));
        }
    }
}

/// A new stream has written nothing and starts by looking at the clock.
pub proof fn law_stream_starts_afresh(goal: Goal, show_rate: bool)
    ensures
        ({
            let stream = StreamClient::initial(goal, show_rate);
            &&& stream.goal == goal && stream.show_rate == show_rate
            &&& stream.writes == 0 && stream.meter.total == 0 && stream.meter.rate.pending == 0
            &&& stream.meter.rate.interval == 0 && stream.meter.rate.count == 0
            &&& stream.phase is Deadline
        }),
{
}

/// Whatever a stream asks for, it can be told of everything that may come of it:
/// of any time, of a connection that was made or not, of any number of bytes that
/// can be counted, and of any error. It asks for nothing more once it has finished
/// or failed.
pub proof fn law_outcomes_are_accepted(
    stream: StreamClient,
    event: StreamEvent,
    elapsed: Span,
    bytes: usize,
    secs: u64,
    kind: NetErrorKind,
    other: StreamEvent,
)
    requires
        stream.inv(),
        stream.expects(event),
        elapsed.nanos < 1_000_000_000,
    ensures
        ({
            let (after, step) = stream.next(event);
            match step.action {
                StreamAction::AskClock => after.expects(StreamEvent::Clock(elapsed)),
                StreamAction::Connect { .. } => {
                    &&& after.expects(StreamEvent::Connected)
                    &&& after.expects(StreamEvent::ConnectTimedOut)
                    &&& after.expects(StreamEvent::ConnectFailed)
                },
                StreamAction::Write => {
                    &&& after.expects(StreamEvent::Wrote { bytes, secs }) <==> after.meter.total
                        + after.meter.rate.pending + 8 * bytes <= usize::MAX && after.writes
                        < u64::MAX
                    &&& after.expects(StreamEvent::WriteFailed { kind })
                },
                StreamAction::Finish { .. } | StreamAction::Fail => !after.expects(other),
            }
        }),
        StreamClient::initial(stream.goal, stream.show_rate).expects(StreamEvent::Clock(elapsed)),
{
}

} // verus!
