//! The run of a datagram server: read until the time is up, and tell what
//! arrived.
use crate::meter::{metered, reports, Report, Transfer};
use crate::net_error::{is_receive_timeout, receive_timed_out, NetErrorKind};
use crate::payload::seq_of;
use crate::udp::{keep_receiving, receives_on, track, NothingReceived, Receiver, Summary};
use vstd::prelude::*;

verus! {

/// What a server waits for.
#[derive(Clone, Copy, Debug, PartialEq, Eq, Structural)]
pub enum ReceivePhase {
    /// The time, to see whether the run is over.
    Deadline,
    /// What a read came to.
    Reading,
    /// Nothing: the server has stopped.
    Stopped,
}

/// What the server asks for.
#[derive(Clone, Copy, Debug, PartialEq, Eq)]
pub enum ReceiveAction {
    /// Tell the seconds since the start of the run.
    AskClock,
    /// Read a datagram.
    Read,
    /// The run is over: tell the summary, and then end with the verdict.
    Finish { summary: Summary, verdict: Result<(), NothingReceived> },
    /// Give up, with the error that was handed in and without a summary.
    Fail,
}

/// What came of an action.
#[derive(Clone, Copy, Debug)]
pub enum ReceiveEvent<'a> {
    Clock { secs: u64 },
    /// `data` was read, and `secs` seconds had then passed.
    Datagram { data: &'a [u8], secs: u64 },
    ReadFailed { kind: NetErrorKind },
}

/// One decision of a server: what to do, and the interval that ended, if one
/// did.
#[derive(Clone, Copy, Debug, PartialEq, Eq)]
pub struct ReceiveStep {
    pub action: ReceiveAction,
    pub report: Option<Report>,
}

/// A datagram server.
#[derive(Clone, Copy, Debug, PartialEq, Eq, Structural)]
pub struct ReceiveRun {
    /// How many seconds the run lasts, if it is not to be interrupted.
    pub duration: Option<u64>,
    pub receiver: Receiver,
    pub phase: ReceivePhase,
}

impl ReceiveRun {
    pub open spec fn initial(duration: Option<u64>) -> ReceiveRun {
        ReceiveRun { duration, receiver: Receiver::initial(), phase: ReceivePhase::Deadline }
    }

    pub open spec fn inv(self) -> bool {
        self.receiver.rate.inv()
    }

    /// Whether `event` is what the server waits for, and can be counted.
    pub open spec fn expects(self, event: ReceiveEvent) -> bool {
        match (self.phase, event) {
            (ReceivePhase::Deadline, ReceiveEvent::Clock { .. }) => true,
            (ReceivePhase::Reading, ReceiveEvent::Datagram { data, .. }) => self.receiver.fits(
                data@,
            ),
            (ReceivePhase::Reading, ReceiveEvent::ReadFailed { .. }) => true,
            _ => false,
        }
    }

    pub open spec fn at(self, phase: ReceivePhase) -> ReceiveRun {
        ReceiveRun { phase, ..self }
    }

    /// What the server does about `event`. A read that merely ran into its
    /// timeout counts for nothing; any other failure ends the run.
    pub open spec fn next(self, event: ReceiveEvent) -> (ReceiveRun, ReceiveStep) {
        match event {
            ReceiveEvent::Clock { secs } => {
                if receives_on(self.duration, secs) {
                    (
                        self.at(ReceivePhase::Reading),
                        ReceiveStep { action: ReceiveAction::Read, report: None },
                    )
                } else {
                    (
                        self.at(ReceivePhase::Stopped),
                        ReceiveStep {
                            action: ReceiveAction::Finish {
                                summary: self.receiver.spec_summary(),
                                verdict: self.receiver.spec_verdict(),
                            },
                            report: None,
                        },
                    )
                }
            },
            ReceiveEvent::Datagram { data, secs } => {
                (
                    ReceiveRun {
                        receiver: self.receiver.after(data@, secs),
                        phase: ReceivePhase::Deadline,
                        ..self
                    },
                    ReceiveStep {
                        action: ReceiveAction::AskClock,
                        report: self.receiver.rate.report(data@.len() as usize, secs),
                    },
                )
            },
            ReceiveEvent::ReadFailed { kind } => {
                if receive_timed_out(kind) {
                    (
                        self.at(ReceivePhase::Deadline),
                        ReceiveStep { action: ReceiveAction::AskClock, report: None },
                    )
                } else {
                    (
                        self.at(ReceivePhase::Stopped),
                        ReceiveStep { action: ReceiveAction::Fail, report: None },
                    )
                }
            },
        }
    }

    /// A server that has received nothing. It starts by asking for the time.
    pub fn new(duration: Option<u64>) -> (run: ReceiveRun)
        ensures
            run == ReceiveRun::initial(duration),
            run.inv(),
    {
        ReceiveRun { duration, receiver: Receiver::new(), phase: ReceivePhase::Deadline }
    }

    /// Whether `event` is one that the server waits for, and can be counted.
    pub fn accepts(&self, event: &ReceiveEvent) -> (yes: bool)
        ensures
            yes == self.expects(*event),
    {
        match (self.phase, *event) {
            (ReceivePhase::Deadline, ReceiveEvent::Clock { .. }) => true,
            (ReceivePhase::Reading, ReceiveEvent::Datagram { data, .. }) => self.receiver.has_room(
                data,
            ),
            (ReceivePhase::Reading, ReceiveEvent::ReadFailed { .. }) => true,
            _ => false,
        }
    }

    /// What to do about `event`.
    pub fn step(&mut self, event: ReceiveEvent) -> (step: ReceiveStep)
        requires
            old(self).inv(),
            old(self).expects(event),
        ensures
            (*final(self), step) == old(self).next(event),
            final(self).inv(),
    {
        match event {
            ReceiveEvent::Clock { secs } => {
                if keep_receiving(self.duration, secs) {
                    self.phase = ReceivePhase::Reading;
                    ReceiveStep { action: ReceiveAction::Read, report: None }
                } else {
                    self.phase = ReceivePhase::Stopped;
                    let summary = self.receiver.summary();
                    let verdict = self.receiver.verdict();
                    ReceiveStep { action: ReceiveAction::Finish { summary, verdict }, report: None }
                }
            },
            ReceiveEvent::Datagram { data, secs } => {
                let report = self.receiver.on_datagram(data, secs);
                self.phase = ReceivePhase::Deadline;
                ReceiveStep { action: ReceiveAction::AskClock, report }
            },
            ReceiveEvent::ReadFailed { kind } => {
                if is_receive_timeout(kind) {
                    self.phase = ReceivePhase::Deadline;
                    ReceiveStep { action: ReceiveAction::AskClock, report: None }
                } else {
                    self.phase = ReceivePhase::Stopped;
                    ReceiveStep { action: ReceiveAction::Fail, report: None }
                }
            },
        }
    }
}

/// A read that runs into its timeout leaves the receiver as it was and tells
/// nothing, and unless the time is up the next thing asked for is another read.
pub proof fn law_timeouts_change_nothing(run: ReceiveRun, kind: NetErrorKind, secs: u64)
    requires
        run.phase is Reading,
        receive_timed_out(kind),
    ensures
        ({
            let (after, step) = run.next(ReceiveEvent::ReadFailed { kind });
            let (again, then) = after.next(ReceiveEvent::Clock { secs });
            &&& after.receiver == run.receiver
            &&& step == (ReceiveStep { action: ReceiveAction::AskClock, report: None })
            &&& after.expects(ReceiveEvent::Clock { secs })
            &&& receives_on(run.duration, secs) ==> again == run && then == (ReceiveStep {
                action: ReceiveAction::Read,
                report: None,
            })
        }),
{
}

/// The state after `events`, one after the other.
pub open spec fn run(duration: Option<u64>, events: Seq<ReceiveEvent>) -> ReceiveRun
    decreases events.len(),
{
    if events.len() == 0 {
        ReceiveRun::initial(duration)
    } else {
        run(duration, events.drop_last()).next(events.last()).0
    }
}

/// Whether each of `events` is what the server waits for when it comes.
pub open spec fn run_expects(duration: Option<u64>, events: Seq<ReceiveEvent>) -> bool
    decreases events.len(),
{
    events.len() > 0 ==> run_expects(duration, events.drop_last()) && run(
        duration,
        events.drop_last(),
    ).expects(events.last())
}

/// A datagram, and what the clock showed after it.
pub struct Arrival {
    pub data: Seq<u8>,
    pub secs: u64,
}

/// The datagrams among `events`.
pub open spec fn arrivals(events: Seq<ReceiveEvent>) -> Seq<Arrival>
    decreases events.len(),
{
    if events.len() == 0 {
        Seq::empty()
    } else {
        match events.last() {
            ReceiveEvent::Datagram { data, secs } => arrivals(events.drop_last()).push(
                Arrival { data: data@, secs },
            ),
            _ => arrivals(events.drop_last()),
        }
    }
}

/// The receiver after all of `arrivals`.
pub open spec fn received(arrivals: Seq<Arrival>) -> Receiver
    decreases arrivals.len(),
{
    if arrivals.len() == 0 {
        Receiver::initial()
    } else {
        received(arrivals.drop_last()).after(arrivals.last().data, arrivals.last().secs)
    }
}

/// The sequence numbers of those of `arrivals` that are long enough to have
/// one.
pub open spec fn numbers(arrivals: Seq<Arrival>) -> Seq<u64>
    decreases arrivals.len(),
{
    if arrivals.len() == 0 {
        Seq::empty()
    } else {
        match seq_of(arrivals.last().data) {
            Some(seq) => numbers(arrivals.drop_last()).push(seq),
            None => numbers(arrivals.drop_last()),
        }
    }
}

/// The bytes of all of `arrivals`.
pub open spec fn bytes_in(arrivals: Seq<Arrival>) -> nat
    decreases arrivals.len(),
{
    if arrivals.len() == 0 {
        0
    } else {
        bytes_in(arrivals.drop_last()) + arrivals.last().data.len()
    }
}

proof fn lemma_tracked(arrivals: Seq<Arrival>)
    ensures
        received(arrivals).tracker == track(numbers(arrivals)),
    decreases arrivals.len(),
{
    if arrivals.len() > 0 {
        let before = arrivals.drop_last();
        lemma_tracked(before);
        if let Some(seq) = seq_of(arrivals.last().data) {
            assert(numbers(before).push(seq).drop_last() =~= numbers(before));
        }
    }
}

proof fn lemma_run(duration: Option<u64>, events: Seq<ReceiveEvent>)
    requires
        run_expects(duration, events),
    ensures
        run(duration, events).inv(),
        run(duration, events).duration == duration,
        run(duration, events).receiver == received(arrivals(events)),
        run(duration, events).receiver.rx == arrivals(events).len(),
        run(duration, events).receiver.bits == 8 * bytes_in(arrivals(events)),
    decreases events.len(),
{
    if events.len() > 0 {
        let before = events.drop_last();
        lemma_run(duration, before);
        if let ReceiveEvent::Datagram { data, secs } = events.last() {
            let arrival = Arrival { data: data@, secs };
            assert(arrivals(before).push(arrival).drop_last() =~= arrivals(before));
        }
    }
}

/// However a run goes, only the datagrams that were read have been counted when
/// `last` happens. The run then ends with a summary exactly if it has a
/// duration and the clock shows that it has passed; the summary tells of all
/// datagrams, of all their bits, and of the numbers that are missing among
/// those that the datagrams carry, and the verdict is good exactly if there was
/// a datagram. The run fails
/// exactly if a read failed otherwise than by its timeout. Without a duration
/// it never ends with a summary.
pub proof fn law_run_ends_as_it_should(
    duration: Option<u64>,
    events: Seq<ReceiveEvent>,
    last: ReceiveEvent,
)
    requires
        run_expects(duration, events),
        run(duration, events).expects(last),
    ensures
        ({
            let before = run(duration, events);
            let action = before.next(last).1.action;
            let seen = arrivals(events);
            &&& before.inv()
            &&& before.receiver == received(seen)
            &&& before.receiver.rx == seen.len()
            &&& action is Finish <==> (last matches ReceiveEvent::Clock { secs }
                && duration is Some && secs >= duration->0)
            &&& action matches ReceiveAction::Finish { summary, verdict } ==> {
                &&& summary.rx == seen.len()
                &&& summary.bits == 8 * bytes_in(seen)
                &&& summary.loss == track(numbers(seen)).loss
                &&& verdict is Ok <==> seen.len() > 0
            }
            &&& action is Fail <==> (last matches ReceiveEvent::ReadFailed { kind }
                && !receive_timed_out(kind))
            &&& duration is None ==> !(action is Finish)
        }),
{
    lemma_run(duration, events);
    lemma_tracked(arrivals(events));
}

/// A server that has ended, with a summary or not, asks for nothing more.
pub proof fn law_stopped_server_waits_for_nothing(run: ReceiveRun, event: ReceiveEvent)
    ensures
        run.next(event).1.action is Finish || run.next(event).1.action is Fail
            ==> run.next(event).0.phase is Stopped,
        run.phase is Stopped ==> !run.expects(event),
{
}

/// What a server does about each event. The clock lets it read only while the
/// duration, if there is one, has not passed; after a datagram, and after a read
/// that ran into its timeout, it looks at the clock again before anything else;
/// and no other failure is passed over.
pub proof fn law_clock_is_looked_at_before_each_read(run: ReceiveRun, event: ReceiveEvent)
    requires
        run.inv(),
        run.expects(event),
    ensures
        ({
            let (after, step) = run.next(event);
            &&& after.duration == run.duration
            &&& match event {
                ReceiveEvent::Clock { secs } => {
                    &&& after.receiver == run.receiver
                    &&& step.report is None
                    &&& if run.duration matches Some(limit) && secs >= limit {
                        step.action is Finish && after.phase is Stopped
                    } else {
                        step.action is Read && after.phase is Reading
                    }
                },
                ReceiveEvent::Datagram { .. } => {
                    &&& step.action is AskClock
                    &&& after.phase is Deadline
                },
                ReceiveEvent::ReadFailed { kind } => {
                    &&& after.receiver == run.receiver
                    &&& step.report is None
                    &&& if kind is WouldBlock || kind is TimedOut {
                        step.action is AskClock && after.phase is Deadline
                    } else {
                        step.action is Fail && after.phase is Stopped
                    }
                },
            }
        }),
{
}

/// In every run, a look at the clock comes right before each read, whether it
/// gave a datagram or failed, and showed that the duration had not passed.
pub proof fn law_reads_follow_the_clock(
    duration: Option<u64>,
    events: Seq<ReceiveEvent>,
    i: int,
)
    requires
        run_expects(duration, events),
        0 <= i < events.len(),
        events[i] is Datagram || events[i] is ReadFailed,
    ensures
        i > 0,
        events[i - 1] matches ReceiveEvent::Clock { secs } && (duration matches Some(limit)
            ==> secs < limit),
    decreases events.len(),
{
    let before = events.drop_last();
    if i < before.len() {
        law_reads_follow_the_clock(duration, before, i);
        assert(before[i] == events[i]);
        assert(before[i - 1] == events[i - 1]);
    } else {
        assert(run(duration, before).phase is Reading);
        assert(before.len() > 0);
        assert(run_expects(duration, before));
        lemma_run(duration, before.drop_last());
        assert(before.last() == events[i - 1]);
    }
}

/// The datagrams as transfers.
pub open spec fn transfers(arrivals: Seq<Arrival>) -> Seq<Transfer> {
    arrivals.map_values(
        |arrival: Arrival| Transfer { bytes: arrival.data.len() as usize, secs: arrival.secs },
    )
}

proof fn lemma_rate(arrivals: Seq<Arrival>)
    ensures
        received(arrivals).rate == metered(transfers(arrivals)).rate,
    decreases arrivals.len(),
{
    if arrivals.len() > 0 {
        lemma_rate(arrivals.drop_last());
        assert(transfers(arrivals).drop_last() =~= transfers(arrivals.drop_last()));
    }
}

/// A datagram ends an interval exactly if the clock shows a later second after it
/// than after all datagrams before it; and what is reported then is what was not
/// yet reported of the bits that arrived.
pub proof fn law_each_new_second_is_reported(
    duration: Option<u64>,
    events: Seq<ReceiveEvent>,
    data: &[u8],
    secs: u64,
)
    requires
        run_expects(duration, events),
        run(duration, events).expects(ReceiveEvent::Datagram { data, secs }),
        8 * (bytes_in(arrivals(events)) + data@.len()) <= usize::MAX,
    ensures
        ({
            let seen = arrivals(events);
            let report = run(duration, events).next(ReceiveEvent::Datagram { data, secs }).1.report;
            &&& report is Some <==> secs > 0 && forall|j: int|
                0 <= j < seen.len() ==> (#[trigger] seen[j]).secs < secs
            &&& report matches Some(report) ==> {
                &&& report.bits == 8 * (bytes_in(seen) + data@.len()) - crate::meter::bits_in(
                    reports(transfers(seen)),
                )
                &&& report.index == reports(transfers(seen)).len()
            }
        }),
{
    let seen = arrivals(events);
    let all = seen.push(Arrival { data: data@, secs });
    let done = transfers(seen);
    let more = transfers(all);
    let i = seen.len() as int;
    lemma_run(duration, events);
    lemma_rate(seen);
    assert(more.take(i) =~= done);
    assert(more.take(i + 1) =~= more);
    assert(all.drop_last() =~= seen);
    lemma_bytes(all);
    lemma_bytes(seen);
    crate::meter::law_each_new_second_is_reported(more, i);
    assert forall|j: int| 0 <= j < seen.len() implies (#[trigger] seen[j]).secs
        == more[j].secs by {}
    if secs > 0 && (forall|j: int| 0 <= j < seen.len() ==> (#[trigger] seen[j]).secs < secs) {
        assert forall|j: int| 0 <= j < i implies (#[trigger] more[j]).secs < more[i].secs by {
            assert(seen[j].secs < secs);
        }
    }
    if forall|j: int| 0 <= j < i ==> (#[trigger] more[j]).secs < more[i].secs {
        assert forall|j: int| 0 <= j < seen.len() implies (#[trigger] seen[j]).secs < secs by {
            assert(more[j].secs < more[i].secs);
        }
    }
}

proof fn lemma_bytes(arrivals: Seq<Arrival>)
    requires
        8 * bytes_in(arrivals) <= usize::MAX,
    ensures
        crate::meter::bytes_in(transfers(arrivals)) == bytes_in(arrivals),
    decreases arrivals.len(),
{
    if arrivals.len() > 0 {
        lemma_bytes(arrivals.drop_last());
        assert(transfers(arrivals).drop_last() =~= transfers(arrivals.drop_last()));
    }
}

/// Whatever a server asks for, it can be told of everything that may come of it:
/// of any time, of any datagram that can be counted, and of any error.
pub proof fn law_outcomes_are_accepted(
    run: ReceiveRun,
    event: ReceiveEvent,
    secs: u64,
    data: &[u8],
    kind: NetErrorKind,
)
    requires
        run.inv(),
        run.expects(event),
    ensures
        ({
            let (after, step) = run.next(event);
            match step.action {
                ReceiveAction::AskClock => after.expects(ReceiveEvent::Clock { secs }),
                ReceiveAction::Read => {
                    &&& after.expects(ReceiveEvent::Datagram { data, secs })
                        <==> after.receiver.fits(data@)
                    &&& after.expects(ReceiveEvent::ReadFailed { kind })
                },
                ReceiveAction::Finish { .. } | ReceiveAction::Fail => true,
            }
        }),
        ReceiveRun::initial(run.duration).expects(ReceiveEvent::Clock { secs }),
        ReceiveRun::initial(run.duration).duration == run.duration,
        ReceiveRun::initial(run.duration).receiver == Receiver::initial(),
{
}

} // verus!
