//! The client side of TCP on threads: what each worker does with its
//! connections.
use crate::clock::{time_left, Span};
use crate::net_error::{is_peer_closed, NetErrorKind};
use std::collections::{HashMap, VecDeque};
use vstd::prelude::*;

verus! {

broadcast use vstd::std_specs::hash::group_hash_axioms;

/// What a worker waits for.
#[derive(Clone, Copy, Debug, PartialEq, Eq, Structural)]
pub enum Phase {
    /// The time, to see whether the run is over.
    Deadline,
    /// Connections to become ready.
    Polling,
    /// Whether the connection attempt of `token` succeeded.
    Checking { token: usize },
    /// What a write to `token` came to.
    Writing { token: usize },
    /// A failed connection to be taken down.
    Dropping,
    /// The connection of `token` to be taken down before it is made anew.
    Renewing { token: usize },
    /// The time, to see whether connecting `token` again is worth while.
    RenewDeadline { token: usize },
    /// What connecting `token` again came to.
    Reconnecting { token: usize },
    /// Nothing: the worker has stopped.
    Stopped,
}

/// What the worker asks for.
#[derive(Clone, Copy, Debug, PartialEq, Eq, Structural)]
pub enum WorkerAction {
    /// Tell the time since the start of the run.
    AskClock,
    /// Wait for ready connections, for at most `timeout`.
    Poll { timeout: Span },
    /// Find out whether the connection attempt of `token` failed.
    CheckConnect { token: usize },
    /// Write the buffer to the connection of `token`.
    Write { token: usize },
    /// Deregister and close the connection of `token`.
    Close { token: usize },
    /// Connect again and register the connection as `token`.
    Connect { token: usize },
    /// The run is over.
    Finish,
    /// Give up, with the error that was handed in.
    Fail,
}

/// What came of an action.
pub enum WorkerEvent {
    Clock(Span),
    Ready(VecDeque<usize>),
    ConnectChecked { ok: bool },
    Wrote { bytes: usize },
    WriteFailed { kind: NetErrorKind },
    Closed,
    Reconnected { ok: bool },
}

/// What the user is told about a stream.
#[derive(Clone, Copy, Debug, PartialEq, Eq, Structural)]
pub enum Notice {
    Nothing,
    ConnectFailed { stream: usize },
    PeerClosed { stream: usize },
    ReconnectFailed { stream: usize },
}

/// One decision of a worker: what to do, what to tell, and how the counters
/// that all workers share move.
#[derive(Clone, Copy, Debug, PartialEq, Eq, Structural)]
pub struct WorkerStep {
    pub action: WorkerAction,
    pub notice: Notice,
    /// Bits to add to the bits sent.
    pub bits: usize,
    /// Connections to add to the number of connections.
    pub opened: usize,
    /// Connections to take off the number of connections.
    pub closed: usize,
}

/// The state of a worker: `conns` says of each connection that it has whether
/// it is established.
#[verifier::ext_equal]
pub struct WorkerState {
    pub base_id: usize,
    pub count: usize,
    pub duration: u64,
    pub conns: Map<usize, bool>,
    pub ready: Seq<usize>,
    pub to_drop: Seq<usize>,
    pub to_reconnect: Seq<usize>,
    pub phase: Phase,
}

/// How many of the tokens below `n` have an established connection.
pub open spec fn active_below(conns: Map<usize, bool>, n: nat) -> nat
    decreases n,
{
    if n == 0 {
        0
    } else {
        let token = (n - 1) as usize;
        active_below(conns, (n - 1) as nat) + if conns.contains_key(token) && conns[token] {
            1nat
        } else {
            0nat
        }
    }
}

pub open spec fn below(tokens: Seq<usize>, count: usize) -> bool {
    forall|i: int| 0 <= i < tokens.len() ==> #[trigger] tokens[i] < count
}

/// A step that moves no counter and tells nothing.
pub open spec fn quiet(action: WorkerAction) -> WorkerStep {
    WorkerStep { action, notice: Notice::Nothing, bits: 0, opened: 0, closed: 0 }
}

impl WorkerState {
    pub open spec fn initial(base_id: usize, count: usize, duration: u64) -> WorkerState {
        WorkerState {
            base_id,
            count,
            duration,
            conns: Map::new(|token: usize| token < count, |token: usize| false),
            ready: Seq::empty(),
            to_drop: Seq::empty(),
            to_reconnect: Seq::empty(),
            phase: Phase::Deadline,
        }
    }

    /// How many connections are established.
    pub open spec fn active(self) -> nat {
        active_below(self.conns, self.count as nat)
    }

    /// Every token belongs to one of the worker's streams, and the phase fits
    /// the table: a connection is checked only while it is not established,
    /// written to only while it is, and made anew only once it is gone.
    pub open spec fn inv(self) -> bool {
        &&& self.base_id + self.count <= usize::MAX
        &&& forall|token: usize| #[trigger] self.conns.contains_key(token) ==> token < self.count
        &&& below(self.to_drop, self.count)
        &&& below(self.to_reconnect, self.count)
        &&& match self.phase {
            Phase::Deadline | Phase::Polling => {
                self.ready.len() == 0 && self.to_drop.len() == 0 && self.to_reconnect.len() == 0
            },
            Phase::Checking { token } => self.conns.contains_key(token) && !self.conns[token],
            Phase::Writing { token } => self.conns.contains_key(token) && self.conns[token],
            Phase::Dropping => self.ready.len() == 0,
            Phase::Renewing { token }
            | Phase::RenewDeadline { token }
            | Phase::Reconnecting { token } => {
                &&& self.ready.len() == 0
                &&& self.to_drop.len() == 0
                &&& token < self.count
                &&& !self.conns.contains_key(token)
            },
            Phase::Stopped => true,
        }
    }

    /// Whether `event` is what the worker waits for.
    pub open spec fn expects(self, event: WorkerEvent) -> bool {
        match (self.phase, event) {
            (Phase::Deadline, WorkerEvent::Clock(elapsed)) => elapsed.wf(),
            (Phase::Polling, WorkerEvent::Ready(_)) => true,
            (Phase::Checking { .. }, WorkerEvent::ConnectChecked { .. }) => true,
            (Phase::Writing { .. }, WorkerEvent::Wrote { bytes }) => bytes * 8 <= usize::MAX,
            (Phase::Writing { .. }, WorkerEvent::WriteFailed { .. }) => true,
            (Phase::Dropping, WorkerEvent::Closed) => true,
            (Phase::Renewing { .. }, WorkerEvent::Closed) => true,
            (Phase::RenewDeadline { .. }, WorkerEvent::Clock(elapsed)) => elapsed.wf(),
            (Phase::Reconnecting { .. }, WorkerEvent::Reconnected { .. }) => true,
            _ => false,
        }
    }

    /// On to the next ready connection. Tokens without a connection are
    /// passed over; when none is left, failed connections are taken down.
    pub open spec fn serve(self) -> (WorkerState, WorkerStep)
        decreases self.ready.len(),
    {
        if self.ready.len() == 0 {
            self.drop_failed()
        } else {
            let token = self.ready[0];
            let rest = WorkerState { ready: self.ready.drop_first(), ..self };
            if !self.conns.contains_key(token) {
                rest.serve()
            } else if self.conns[token] {
                (
                    WorkerState { phase: Phase::Writing { token }, ..rest },
                    quiet(WorkerAction::Write { token }),
                )
            } else {
                (
                    WorkerState { phase: Phase::Checking { token }, ..rest },
                    quiet(WorkerAction::CheckConnect { token }),
                )
            }
        }
    }

    /// The connection of `token` leaves the table.
    pub open spec fn without(self, token: usize) -> WorkerState {
        WorkerState { conns: self.conns.remove(token), ..self }
    }

    /// The step that takes down the connection of `token`: one fewer is
    /// established if it was.
    pub open spec fn take_down(self, token: usize) -> WorkerStep {
        WorkerStep {
            closed: if self.conns[token] {
                1
            } else {
                0
            },
            ..quiet(WorkerAction::Close { token })
        }
    }

    /// On to the next connection that failed, and after the last of them to
    /// the connections that are to be made anew.
    pub open spec fn drop_failed(self) -> (WorkerState, WorkerStep)
        decreases self.to_drop.len(),
    {
        if self.to_drop.len() == 0 {
            self.renew()
        } else {
            let token = self.to_drop[0];
            let rest = WorkerState { to_drop: self.to_drop.drop_first(), ..self };
            if self.conns.contains_key(token) {
                (
                    WorkerState { phase: Phase::Dropping, ..rest.without(token) },
                    self.take_down(token),
                )
            } else {
                rest.drop_failed()
            }
        }
    }

    /// On to the next connection that is to be made anew, and after the last
    /// of them to the next round.
    pub open spec fn renew(self) -> (WorkerState, WorkerStep) {
        if self.to_reconnect.len() == 0 {
            (WorkerState { phase: Phase::Deadline, ..self }, quiet(WorkerAction::AskClock))
        } else {
            let token = self.to_reconnect[0];
            let rest = WorkerState { to_reconnect: self.to_reconnect.drop_first(), ..self };
            if self.conns.contains_key(token) {
                (
                    WorkerState { phase: Phase::Renewing { token }, ..rest.without(token) },
                    self.take_down(token),
                )
            } else {
                (
                    WorkerState { phase: Phase::RenewDeadline { token }, ..rest },
                    quiet(WorkerAction::AskClock),
                )
            }
        }
    }

    pub open spec fn stream(self, token: usize) -> usize {
        (self.base_id + token) as usize
    }

    pub open spec fn stopped(self) -> WorkerState {
        WorkerState { phase: Phase::Stopped, ..self }
    }

    /// What the worker does about `event`.
    pub open spec fn next(self, event: WorkerEvent) -> (WorkerState, WorkerStep) {
        match (self.phase, event) {
            (Phase::Deadline, WorkerEvent::Clock(elapsed)) => {
                match crate::clock::left_of(elapsed, self.duration) {
                    Some(timeout) => (
                        WorkerState { phase: Phase::Polling, ..self },
                        quiet(WorkerAction::Poll { timeout }),
                    ),
                    None => (
                        WorkerState { conns: Map::empty(), ..self.stopped() },
                        WorkerStep {
                            closed: self.active() as usize,
                            ..quiet(WorkerAction::Finish)
                        },
                    ),
                }
            },
            (Phase::Polling, WorkerEvent::Ready(tokens)) => {
                WorkerState { ready: tokens@, ..self }.serve()
            },
            (Phase::Checking { token }, WorkerEvent::ConnectChecked { ok }) => {
                if ok {
                    (
                        WorkerState {
                            conns: self.conns.insert(token, true),
                            phase: Phase::Writing { token },
                            ..self
                        },
                        WorkerStep { opened: 1, ..quiet(WorkerAction::Write { token }) },
                    )
                } else {
                    let (state, step) = WorkerState {
                        to_drop: self.to_drop.push(token),
                        ..self
                    }.serve();
                    (
                        state,
                        WorkerStep {
                            notice: Notice::ConnectFailed { stream: self.stream(token) },
                            ..step
                        },
                    )
                }
            },
            (Phase::Writing { token }, WorkerEvent::Wrote { bytes }) => {
                if bytes == 0 {
                    WorkerState { to_reconnect: self.to_reconnect.push(token), ..self }.serve()
                } else {
                    (
                        self,
                        WorkerStep {
                            bits: (bytes * 8) as usize,
                            ..quiet(WorkerAction::Write { token })
                        },
                    )
                }
            },
            (Phase::Writing { token }, WorkerEvent::WriteFailed { kind }) => {
                if kind is WouldBlock {
                    self.serve()
                } else if crate::net_error::peer_closed(kind) {
                    let (state, step) = WorkerState {
                        to_reconnect: self.to_reconnect.push(token),
                        ..self
                    }.serve();
                    (
                        state,
                        WorkerStep {
                            notice: Notice::PeerClosed { stream: self.stream(token) },
                            ..step
                        },
                    )
                } else {
                    (self.stopped(), quiet(WorkerAction::Fail))
                }
            },
            (Phase::Dropping, WorkerEvent::Closed) => self.drop_failed(),
            (Phase::Renewing { token }, WorkerEvent::Closed) => {
                (
                    WorkerState { phase: Phase::RenewDeadline { token }, ..self },
                    quiet(WorkerAction::AskClock),
                )
            },
            (Phase::RenewDeadline { token }, WorkerEvent::Clock(elapsed)) => {
                if crate::clock::before_deadline(elapsed, self.duration) {
                    (
                        WorkerState { phase: Phase::Reconnecting { token }, ..self },
                        quiet(WorkerAction::Connect { token }),
                    )
                } else {
                    self.renew()
                }
            },
            (Phase::Reconnecting { token }, WorkerEvent::Reconnected { ok }) => {
                if ok {
                    WorkerState { conns: self.conns.insert(token, false), ..self }.renew()
                } else {
                    let (state, step) = self.renew();
                    (
                        state,
                        WorkerStep {
                            notice: Notice::ReconnectFailed { stream: self.stream(token) },
                            ..step
                        },
                    )
                }
            },
            _ => (self.stopped(), quiet(WorkerAction::Fail)),
        }
    }
}

/// A worker thread's share of the client streams.
pub struct ClientWorker {
    base_id: usize,
    count: usize,
    duration: u64,
    conns: HashMap<usize, bool>,
    ready: VecDeque<usize>,
    to_drop: VecDeque<usize>,
    to_reconnect: VecDeque<usize>,
    phase: Phase,
}

impl View for ClientWorker {
    type V = WorkerState;

    closed spec fn view(&self) -> WorkerState {
        WorkerState {
            base_id: self.base_id,
            count: self.count,
            duration: self.duration,
            conns: self.conns@,
            ready: self.ready@,
            to_drop: self.to_drop@,
            to_reconnect: self.to_reconnect@,
            phase: self.phase,
        }
    }
}

fn quietly(action: WorkerAction) -> (step: WorkerStep)
    ensures
        step == quiet(action),
{
    WorkerStep { action, notice: Notice::Nothing, bits: 0, opened: 0, closed: 0 }
}

impl ClientWorker {
    /// A worker for `count` streams, the first of which is stream `base_id`,
    /// all of them connecting. It starts by asking for the time.
    pub fn new(base_id: usize, count: usize, duration: u64) -> (worker: ClientWorker)
        requires
            base_id + count <= usize::MAX,
        ensures
            worker@ == WorkerState::initial(base_id, count, duration),
            worker@.inv(),
    {
        let mut conns: HashMap<usize, bool> = HashMap::new();
        let mut token: usize = 0;
        while token < count
            invariant
                token <= count,
                conns@ =~= Map::new(|t: usize| t < token, |t: usize| false),
            decreases count - token,
        {
            conns.insert(token, false);
            token = token + 1;
        }
        ClientWorker {
            base_id,
            count,
            duration,
            conns,
            ready: VecDeque::new(),
            to_drop: VecDeque::new(),
            to_reconnect: VecDeque::new(),
            phase: Phase::Deadline,
        }
    }

    /// Whether `event` is one that the worker waits for.
    pub fn accepts(&self, event: &WorkerEvent) -> (yes: bool)
        ensures
            yes == self@.expects(*event),
    {
        match (self.phase, event) {
            (Phase::Deadline, WorkerEvent::Clock(elapsed)) => elapsed.is_well_formed(),
            (Phase::Polling, WorkerEvent::Ready(_)) => true,
            (Phase::Checking { .. }, WorkerEvent::ConnectChecked { .. }) => true,
            (Phase::Writing { .. }, WorkerEvent::Wrote { bytes }) => *bytes <= usize::MAX / 8,
            (Phase::Writing { .. }, WorkerEvent::WriteFailed { .. }) => true,
            (Phase::Dropping, WorkerEvent::Closed) => true,
            (Phase::Renewing { .. }, WorkerEvent::Closed) => true,
            (Phase::RenewDeadline { .. }, WorkerEvent::Clock(elapsed)) => elapsed.is_well_formed(),
            (Phase::Reconnecting { .. }, WorkerEvent::Reconnected { .. }) => true,
            _ => false,
        }
    }

    /// What to do about `event`.
    pub fn step(&mut self, event: WorkerEvent) -> (step: WorkerStep)
        requires
            old(self)@.inv(),
            old(self)@.expects(event),
        ensures
            (final(self)@, step) == old(self)@.next(event),
            final(self)@.inv(),
    {
        proof {
            law_inv_kept(self@, event);
        }
        match (self.phase, event) {
            (Phase::Deadline, WorkerEvent::Clock(elapsed)) => {
                match time_left(elapsed, self.duration) {
                    Some(timeout) => {
                        self.phase = Phase::Polling;
                        quietly(WorkerAction::Poll { timeout })
                    },
                    None => {
                        let closed = self.count_active();
                        self.phase = Phase::Stopped;
                        self.conns = HashMap::new();
                        WorkerStep {
                            action: WorkerAction::Finish,
                            notice: Notice::Nothing,
                            bits: 0,
                            opened: 0,
                            closed,
                        }
                    },
                }
            },
            (Phase::Polling, WorkerEvent::Ready(tokens)) => {
                self.ready = tokens;
                self.serve()
            },
            (Phase::Checking { token }, WorkerEvent::ConnectChecked { ok }) => {
                if ok {
                    self.conns.insert(token, true);
                    self.phase = Phase::Writing { token };
                    WorkerStep {
                        action: WorkerAction::Write { token },
                        notice: Notice::Nothing,
                        bits: 0,
                        opened: 1,
                        closed: 0,
                    }
                } else {
                    self.to_drop.push_back(token);
                    let step = self.serve();
                    WorkerStep {
                        notice: Notice::ConnectFailed { stream: self.base_id + token },
                        ..step
                    }
                }
            },
            (Phase::Writing { token }, WorkerEvent::Wrote { bytes }) => {
                if bytes == 0 {
                    self.to_reconnect.push_back(token);
                    self.serve()
                } else {
                    WorkerStep {
                        action: WorkerAction::Write { token },
                        notice: Notice::Nothing,
                        bits: bytes * 8,
                        opened: 0,
                        closed: 0,
                    }
                }
            },
            (Phase::Writing { token }, WorkerEvent::WriteFailed { kind }) => {
                if kind == NetErrorKind::WouldBlock {
                    self.serve()
                } else if is_peer_closed(kind) {
                    self.to_reconnect.push_back(token);
                    let step = self.serve();
                    WorkerStep {
                        notice: Notice::PeerClosed { stream: self.base_id + token },
                        ..step
                    }
                } else {
                    self.phase = Phase::Stopped;
                    quietly(WorkerAction::Fail)
                }
            },
            (Phase::Dropping, WorkerEvent::Closed) => self.drop_failed(),
            (Phase::Renewing { token }, WorkerEvent::Closed) => {
                self.phase = Phase::RenewDeadline { token };
                quietly(WorkerAction::AskClock)
            },
            (Phase::RenewDeadline { token }, WorkerEvent::Clock(elapsed)) => {
                if time_left(elapsed, self.duration).is_some() {
                    self.phase = Phase::Reconnecting { token };
                    quietly(WorkerAction::Connect { token })
                } else {
                    self.renew()
                }
            },
            (Phase::Reconnecting { token }, WorkerEvent::Reconnected { ok }) => {
                if ok {
                    self.conns.insert(token, false);
                    self.renew()
                } else {
                    let step = self.renew();
                    WorkerStep {
                        notice: Notice::ReconnectFailed { stream: self.base_id + token },
                        ..step
                    }
                }
            },
            _ => {
                self.phase = Phase::Stopped;
                quietly(WorkerAction::Fail)
            },
        }
    }

    fn serve(&mut self) -> (step: WorkerStep)
        ensures
            (final(self)@, step) == old(self)@.serve(),
            final(self).base_id == old(self).base_id,
        decreases old(self).ready@.len(),
    {
        match self.ready.pop_front() {
            None => self.drop_failed(),
            Some(token) => {
                match self.conns.get(&token) {
                    None => self.serve(),
                    Some(true) => {
                        self.phase = Phase::Writing { token };
                        quietly(WorkerAction::Write { token })
                    },
                    Some(false) => {
                        self.phase = Phase::Checking { token };
                        quietly(WorkerAction::CheckConnect { token })
                    },
                }
            },
        }
    }

    fn drop_failed(&mut self) -> (step: WorkerStep)
        ensures
            (final(self)@, step) == old(self)@.drop_failed(),
            final(self).base_id == old(self).base_id,
        decreases old(self).to_drop@.len(),
    {
        match self.to_drop.pop_front() {
            None => self.renew(),
            Some(token) => {
                if self.conns.contains_key(&token) {
                    self.phase = Phase::Dropping;
                    self.take_down(token)
                } else {
                    self.drop_failed()
                }
            },
        }
    }

    fn renew(&mut self) -> (step: WorkerStep)
        ensures
            (final(self)@, step) == old(self)@.renew(),
            final(self).base_id == old(self).base_id,
    {
        match self.to_reconnect.pop_front() {
            None => {
                self.phase = Phase::Deadline;
                quietly(WorkerAction::AskClock)
            },
            Some(token) => {
                if self.conns.contains_key(&token) {
                    self.phase = Phase::Renewing { token };
                    self.take_down(token)
                } else {
                    self.phase = Phase::RenewDeadline { token };
                    quietly(WorkerAction::AskClock)
                }
            },
        }
    }

    fn take_down(&mut self, token: usize) -> (step: WorkerStep)
        requires
            old(self)@.conns.contains_key(token),
        ensures
            final(self)@ == old(self)@.without(token),
            step == old(self)@.take_down(token),
            final(self).base_id == old(self).base_id,
    {
        let closed: usize = match self.conns.remove(&token) {
            Some(true) => 1,
            _ => 0,
        };
        WorkerStep {
            action: WorkerAction::Close { token },
            notice: Notice::Nothing,
            bits: 0,
            opened: 0,
            closed,
        }
    }

    fn count_active(&self) -> (active: usize)
        ensures
            active == self@.active(),
    {
        let mut active: usize = 0;
        let mut token: usize = 0;
        while token < self.count
            invariant
                token <= self.count,
                active <= token,
                active == active_below(self.conns@, token as nat),
            decreases self.count - token,
        {
            if let Some(true) = self.conns.get(&token) {
                active = active + 1;
            }
            token = token + 1;
        }
        active
    }
}

/// Whatever comes of its actions, a worker keeps its table and its phase in
/// step.
pub proof fn law_inv_kept(state: WorkerState, event: WorkerEvent)
    requires
        state.inv(),
        state.expects(event),
    ensures
        state.next(event).0.inv(),
{
    match (state.phase, event) {
        (Phase::Polling, WorkerEvent::Ready(tokens)) => {
            lemma_serve_keeps(WorkerState { ready: tokens@, ..state });
        },
        (Phase::Checking { token }, WorkerEvent::ConnectChecked { ok }) => {
            lemma_serve_keeps(WorkerState { to_drop: state.to_drop.push(token), ..state });
        },
        (Phase::Writing { token }, _) => {
            lemma_serve_keeps(state);
            lemma_serve_keeps(
                WorkerState { to_reconnect: state.to_reconnect.push(token), ..state },
            );
        },
        (Phase::Dropping, _) => {
            lemma_drop_keeps(state);
        },
        (Phase::RenewDeadline { .. }, _) => {
            lemma_renew_keeps(state);
        },
        (Phase::Reconnecting { token }, _) => {
            lemma_renew_keeps(state);
            lemma_renew_keeps(WorkerState { conns: state.conns.insert(token, false), ..state });
        },
        _ => {},
    }
}

/// The part of the invariant that does not depend on the phase.
spec fn table_ok(state: WorkerState) -> bool {
    &&& state.base_id + state.count <= usize::MAX
    &&& forall|token: usize| #[trigger] state.conns.contains_key(token) ==> token < state.count
    &&& below(state.to_drop, state.count)
    &&& below(state.to_reconnect, state.count)
}

proof fn lemma_serve_keeps(state: WorkerState)
    requires
        table_ok(state),
    ensures
        state.serve().0.inv(),
    decreases state.ready.len(),
{
    if state.ready.len() == 0 {
        lemma_drop_keeps(state);
    } else if !state.conns.contains_key(state.ready[0]) {
        lemma_serve_keeps(WorkerState { ready: state.ready.drop_first(), ..state });
    }
}

proof fn lemma_drop_keeps(state: WorkerState)
    requires
        table_ok(state),
        state.ready.len() == 0,
    ensures
        state.drop_failed().0.inv(),
    decreases state.to_drop.len(),
{
    if state.to_drop.len() == 0 {
        lemma_renew_keeps(state);
    } else if !state.conns.contains_key(state.to_drop[0]) {
        lemma_drop_keeps(WorkerState { to_drop: state.to_drop.drop_first(), ..state });
    }
}

proof fn lemma_renew_keeps(state: WorkerState)
    requires
        table_ok(state),
        state.ready.len() == 0,
        state.to_drop.len() == 0,
    ensures
        state.renew().0.inv(),
{
}

proof fn lemma_active_untouched(a: Map<usize, bool>, b: Map<usize, bool>, n: nat)
    requires
        n <= usize::MAX,
        forall|token: usize|
            token < n ==> ((#[trigger] a.contains_key(token) && a[token]) <==> (b.contains_key(token)
                && b[token])),
    ensures
        active_below(a, n) == active_below(b, n),
    decreases n,
{
    if n > 0 {
        lemma_active_untouched(a, b, (n - 1) as nat);
        let token = (n - 1) as usize;
        assert(a.contains_key(token) || !a.contains_key(token));
    }
}

proof fn lemma_active_insert(conns: Map<usize, bool>, token: usize, active: bool, n: nat)
    requires
        token < n <= usize::MAX,
    ensures
        active_below(conns.insert(token, active), n) == active_below(conns.remove(token), n) + (
        if active {
            1nat
        } else {
            0nat
        }),
        active_below(conns, n) == active_below(conns.remove(token), n) + (if conns.contains_key(
            token,
        ) && conns[token] {
            1nat
        } else {
            0nat
        }),
    decreases n,
{
    if token == n - 1 {
        lemma_active_untouched(conns.insert(token, active), conns.remove(token), (n - 1) as nat);
        lemma_active_untouched(conns, conns.remove(token), (n - 1) as nat);
    } else {
        lemma_active_insert(conns, token, active, (n - 1) as nat);
    }
}

proof fn lemma_active_empty(n: nat)
    ensures
        active_below(Map::empty(), n) == 0,
    decreases n,
{
    if n > 0 {
        lemma_active_empty((n - 1) as nat);
    }
}

proof fn lemma_active_bounded(conns: Map<usize, bool>, n: nat)
    ensures
        active_below(conns, n) <= n,
    decreases n,
{
    if n > 0 {
        lemma_active_bounded(conns, (n - 1) as nat);
    }
}

spec fn balanced(before: WorkerState, after: (WorkerState, WorkerStep)) -> bool {
    after.0.active() == before.active() + after.1.opened - after.1.closed
}

proof fn lemma_serve_balanced(state: WorkerState)
    requires
        table_ok(state),
    ensures
        balanced(state, state.serve()),
        state.serve().1.bits == 0,
    decreases state.ready.len(),
{
    if state.ready.len() == 0 {
        lemma_drop_balanced(state);
    } else if !state.conns.contains_key(state.ready[0]) {
        lemma_serve_balanced(WorkerState { ready: state.ready.drop_first(), ..state });
    }
}

proof fn lemma_drop_balanced(state: WorkerState)
    requires
        table_ok(state),
    ensures
        balanced(state, state.drop_failed()),
        state.drop_failed().1.bits == 0,
    decreases state.to_drop.len(),
{
    if state.to_drop.len() == 0 {
        lemma_renew_balanced(state);
    } else if state.conns.contains_key(state.to_drop[0]) {
        lemma_active_insert(state.conns, state.to_drop[0], true, state.count as nat);
    } else {
        lemma_drop_balanced(WorkerState { to_drop: state.to_drop.drop_first(), ..state });
    }
}

proof fn lemma_renew_balanced(state: WorkerState)
    requires
        table_ok(state),
    ensures
        balanced(state, state.renew()),
        state.renew().1.bits == 0,
{
    if state.to_reconnect.len() > 0 && state.conns.contains_key(state.to_reconnect[0]) {
        lemma_active_insert(state.conns, state.to_reconnect[0], true, state.count as nat);
    }
}

/// The bytes that `event` says were written.
pub open spec fn bytes_of(event: WorkerEvent) -> nat {
    match event {
        WorkerEvent::Wrote { bytes } => bytes as nat,
        _ => 0,
    }
}

/// Every step moves the number of connections by exactly the change in the
/// number of established ones, and counts eight bits for each byte written.
pub proof fn law_step_keeps_count(state: WorkerState, event: WorkerEvent)
    requires
        state.inv(),
        state.expects(event),
    ensures
        state.next(event).0.active() == state.active() + state.next(event).1.opened - state.next(
            event,
        ).1.closed,
        state.next(event).1.bits == 8 * bytes_of(event),
        state.next(event).0.count == state.count,
        state.next(event).1.action is Finish ==> state.next(event).0.active() == 0,
{
    lemma_next_count(state, event);
    match (state.phase, event) {
        (Phase::Deadline, _) => {
            lemma_active_empty(state.count as nat);
            lemma_active_bounded(state.conns, state.count as nat);
        },
        (Phase::Polling, WorkerEvent::Ready(tokens)) => {
            lemma_serve_balanced(WorkerState { ready: tokens@, ..state });
        },
        (Phase::Checking { token }, WorkerEvent::ConnectChecked { ok }) => {
            lemma_serve_balanced(WorkerState { to_drop: state.to_drop.push(token), ..state });
            lemma_active_insert(state.conns, token, true, state.count as nat);
        },
        (Phase::Writing { token }, _) => {
            lemma_serve_balanced(state);
            lemma_serve_balanced(
                WorkerState { to_reconnect: state.to_reconnect.push(token), ..state },
            );
        },
        (Phase::Dropping, _) => {
            lemma_drop_balanced(state);
        },
        (Phase::RenewDeadline { .. }, _) => {
            lemma_renew_balanced(state);
        },
        (Phase::Reconnecting { token }, _) => {
            lemma_renew_balanced(state);
            lemma_renew_balanced(WorkerState { conns: state.conns.insert(token, false), ..state });
            lemma_active_insert(state.conns, token, false, state.count as nat);
        },
        _ => {},
    }
}

proof fn lemma_serve_count(state: WorkerState)
    ensures
        state.serve().0.count == state.count,
        !(state.serve().1.action is Finish),
    decreases state.ready.len(),
{
    if state.ready.len() == 0 {
        lemma_drop_count(state);
    } else if !state.conns.contains_key(state.ready[0]) {
        lemma_serve_count(WorkerState { ready: state.ready.drop_first(), ..state });
    }
}

proof fn lemma_drop_count(state: WorkerState)
    ensures
        state.drop_failed().0.count == state.count,
        !(state.drop_failed().1.action is Finish),
    decreases state.to_drop.len(),
{
    if state.to_drop.len() > 0 && !state.conns.contains_key(state.to_drop[0]) {
        lemma_drop_count(WorkerState { to_drop: state.to_drop.drop_first(), ..state });
    }
}

proof fn lemma_next_count(state: WorkerState, event: WorkerEvent)
    ensures
        state.next(event).0.count == state.count,
        state.next(event).1.action is Finish ==> state.phase is Deadline,
{
    match (state.phase, event) {
        (Phase::Polling, WorkerEvent::Ready(tokens)) => {
            lemma_serve_count(WorkerState { ready: tokens@, ..state });
        },
        (Phase::Checking { token }, _) => {
            lemma_serve_count(WorkerState { to_drop: state.to_drop.push(token), ..state });
        },
        (Phase::Writing { token }, _) => {
            lemma_serve_count(state);
            lemma_serve_count(
                WorkerState { to_reconnect: state.to_reconnect.push(token), ..state },
            );
        },
        (Phase::Dropping, _) => {
            lemma_drop_count(state);
        },
        _ => {},
    }
}

/// What a run has added to the counters that all workers share.
pub struct WorkerTotals {
    pub opened: nat,
    pub closed: nat,
    pub bits: nat,
}

/// The state after `events`, one after the other, and what they added up to.
pub open spec fn run(start: WorkerState, events: Seq<WorkerEvent>) -> (WorkerState, WorkerTotals)
    decreases events.len(),
{
    if events.len() == 0 {
        (start, WorkerTotals { opened: 0, closed: 0, bits: 0 })
    } else {
        let (state, totals) = run(start, events.drop_last());
        let (after, step) = state.next(events.last());
        (
            after,
            WorkerTotals {
                opened: totals.opened + step.opened as nat,
                closed: totals.closed + step.closed as nat,
                bits: totals.bits + step.bits as nat,
            },
        )
    }
}

/// Whether each of `events` is what the worker waits for when it comes.
pub open spec fn run_expects(start: WorkerState, events: Seq<WorkerEvent>) -> bool
    decreases events.len(),
{
    events.len() > 0 ==> run_expects(start, events.drop_last()) && run(
        start,
        events.drop_last(),
    ).0.expects(events.last())
}

pub open spec fn bytes_written(events: Seq<WorkerEvent>) -> nat
    decreases events.len(),
{
    if events.len() == 0 {
        0
    } else {
        bytes_written(events.drop_last()) + bytes_of(events.last())
    }
}

/// From start to end of a run, whatever happens to its connections, a worker
/// has opened exactly as many more connections than it closed as are
/// established, and has counted eight bits for each byte that was written.
pub proof fn law_run_keeps_count(
    base_id: usize,
    count: usize,
    duration: u64,
    events: Seq<WorkerEvent>,
)
    requires
        base_id + count <= usize::MAX,
        run_expects(WorkerState::initial(base_id, count, duration), events),
    ensures
        ({
            let (state, totals) = run(WorkerState::initial(base_id, count, duration), events);
            &&& state.inv()
            &&& totals.opened == totals.closed + state.active()
            &&& totals.bits == 8 * bytes_written(events)
        }),
    decreases events.len(),
{
    let start = WorkerState::initial(base_id, count, duration);
    if events.len() == 0 {
        lemma_active_untouched(start.conns, Map::empty(), count as nat);
        lemma_active_empty(count as nat);
    } else {
        law_run_keeps_count(base_id, count, duration, events.drop_last());
        let state = run(start, events.drop_last()).0;
        law_inv_kept(state, events.last());
        law_step_keeps_count(state, events.last());
    }
}

/// Once a run has finished, all that the worker added to the number of
/// connections has been taken off again.
pub proof fn law_finished_run_leaves_no_connection(
    base_id: usize,
    count: usize,
    duration: u64,
    events: Seq<WorkerEvent>,
    last: WorkerEvent,
)
    requires
        base_id + count <= usize::MAX,
        run_expects(WorkerState::initial(base_id, count, duration), events.push(last)),
        run(WorkerState::initial(base_id, count, duration), events).0.next(last).1.action is Finish,
    ensures
        ({
            let totals = run(
                WorkerState::initial(base_id, count, duration),
                events.push(last),
            ).1;
            totals.opened == totals.closed
        }),
{
    let start = WorkerState::initial(base_id, count, duration);
    assert(events.push(last).drop_last() =~= events);
    law_run_keeps_count(base_id, count, duration, events);
    law_run_keeps_count(base_id, count, duration, events.push(last));
    law_step_keeps_count(run(start, events).0, last);
}

spec fn action_fits(state: WorkerState, action: WorkerAction) -> bool {
    match action {
        WorkerAction::AskClock => state.phase is Deadline || state.phase is RenewDeadline,
        WorkerAction::Poll { .. } => state.phase is Polling,
        WorkerAction::CheckConnect { token } => state.phase == (Phase::Checking { token }),
        WorkerAction::Write { token } => state.phase == (Phase::Writing { token }),
        WorkerAction::Close { token } => !state.conns.contains_key(token) && (state.phase is Dropping
            || state.phase == (Phase::Renewing { token })),
        WorkerAction::Connect { token } => state.phase == (Phase::Reconnecting { token }),
        WorkerAction::Finish | WorkerAction::Fail => state.phase is Stopped,
    }
}

proof fn lemma_serve_fits(state: WorkerState)
    ensures
        action_fits(state.serve().0, state.serve().1.action),
    decreases state.ready.len(),
{
    if state.ready.len() == 0 {
        lemma_drop_fits(state);
    } else if !state.conns.contains_key(state.ready[0]) {
        lemma_serve_fits(WorkerState { ready: state.ready.drop_first(), ..state });
    }
}

proof fn lemma_drop_fits(state: WorkerState)
    ensures
        action_fits(state.drop_failed().0, state.drop_failed().1.action),
    decreases state.to_drop.len(),
{
    if state.to_drop.len() > 0 && !state.conns.contains_key(state.to_drop[0]) {
        lemma_drop_fits(WorkerState { to_drop: state.to_drop.drop_first(), ..state });
    }
}

/// A worker writes only to established connections, checks only connections
/// that are being made, connects only where no connection is, closes only
/// what it has struck off its table, and waits for more to become ready only
/// when nothing is left to take down or to make anew.
pub proof fn law_actions_fit_table(state: WorkerState, event: WorkerEvent)
    requires
        state.inv(),
        state.expects(event),
    ensures
        ({
            let (after, step) = state.next(event);
            match step.action {
                WorkerAction::Write { token } => after.conns.contains_key(token)
                    && after.conns[token],
                WorkerAction::CheckConnect { token } => after.conns.contains_key(token)
                    && !after.conns[token],
                WorkerAction::Connect { token } => token < after.count
                    && !after.conns.contains_key(token),
                WorkerAction::Close { token } => !after.conns.contains_key(token),
                WorkerAction::Poll { .. } => after.to_drop.len() == 0 && after.to_reconnect.len()
                    == 0,
                _ => true,
            }
        }),
{
    law_inv_kept(state, event);
    match (state.phase, event) {
        (Phase::Polling, WorkerEvent::Ready(tokens)) => {
            lemma_serve_fits(WorkerState { ready: tokens@, ..state });
        },
        (Phase::Checking { token }, _) => {
            lemma_serve_fits(WorkerState { to_drop: state.to_drop.push(token), ..state });
        },
        (Phase::Writing { token }, _) => {
            lemma_serve_fits(state);
            lemma_serve_fits(
                WorkerState { to_reconnect: state.to_reconnect.push(token), ..state },
            );
        },
        (Phase::Dropping, _) => {
            lemma_drop_fits(state);
        },
        _ => {},
    }
}

/// A worker waits for ready connections only while time is left, and never
/// for longer than that; and it connects again only while time is left.
pub proof fn law_worker_keeps_deadline(state: WorkerState, event: WorkerEvent)
    requires
        state.inv(),
        state.expects(event),
    ensures
        state.next(event).1.action matches WorkerAction::Poll { timeout } ==> (
        event matches WorkerEvent::Clock(elapsed) && elapsed.total_nanos() + timeout.total_nanos()
            == state.duration * crate::clock::NANOS_PER_SEC),
        state.next(event).1.action is Connect ==> (event matches WorkerEvent::Clock(elapsed)
            && crate::clock::before_deadline(elapsed, state.duration)),
{
    match (state.phase, event) {
        (Phase::Polling, WorkerEvent::Ready(tokens)) => {
            lemma_serve_asks(WorkerState { ready: tokens@, ..state });
        },
        (Phase::Checking { token }, _) => {
            lemma_serve_asks(WorkerState { to_drop: state.to_drop.push(token), ..state });
        },
        (Phase::Writing { token }, _) => {
            lemma_serve_asks(state);
            lemma_serve_asks(
                WorkerState { to_reconnect: state.to_reconnect.push(token), ..state },
            );
        },
        (Phase::Dropping, _) => {
            lemma_drop_asks(state);
        },
        _ => {},
    }
}

proof fn lemma_serve_asks(state: WorkerState)
    ensures
        !(state.serve().1.action is Poll) && !(state.serve().1.action is Connect),
    decreases state.ready.len(),
{
    if state.ready.len() == 0 {
        lemma_drop_asks(state);
    } else if !state.conns.contains_key(state.ready[0]) {
        lemma_serve_asks(WorkerState { ready: state.ready.drop_first(), ..state });
    }
}

proof fn lemma_drop_asks(state: WorkerState)
    ensures
        !(state.drop_failed().1.action is Poll) && !(state.drop_failed().1.action is Connect),
    decreases state.to_drop.len(),
{
    if state.to_drop.len() > 0 && !state.conns.contains_key(state.to_drop[0]) {
        lemma_drop_asks(WorkerState { to_drop: state.to_drop.drop_first(), ..state });
    }
}

/// Whether `token` is the next of `due` whose turn it is, with `rest` behind it:
/// all tokens before it have no connection, and it has one.
pub open spec fn next_up(
    due: Seq<usize>,
    rest: Seq<usize>,
    conns: Map<usize, bool>,
    token: usize,
) -> bool {
    &&& conns.contains_key(token)
    &&& exists|n: int|
        {
            &&& 0 < n <= due.len()
            &&& due[n - 1] == token
            &&& forall|i: int| 0 <= i < n - 1 ==> !conns.contains_key(#[trigger] due[i])
            &&& rest == #[trigger] due.skip(n)
        }
}

/// Whether it is the turn of none of `due`.
pub open spec fn none_up(due: Seq<usize>, conns: Map<usize, bool>) -> bool {
    forall|i: int| 0 <= i < due.len() ==> !conns.contains_key(#[trigger] due[i])
}

/// Whether `after` and `step` are what comes of a worker that has `due` to do:
/// first the ready connections, in their order, then those that failed, then
/// those to be made anew, and after all of them the next round. Nothing that is
/// due is left out, but for tokens without a connection.
pub open spec fn works_off(due: WorkerState, after: WorkerState, step: WorkerStep) -> bool {
    &&& after.base_id == due.base_id
    &&& after.count == due.count
    &&& after.duration == due.duration
    &&& step.opened == 0
    &&& step.bits == 0
    &&& match after.phase {
        Phase::Writing { token } => {
            &&& next_up(due.ready, after.ready, due.conns, token)
            &&& due.conns[token]
            &&& step.action == (WorkerAction::Write { token })
        },
        Phase::Checking { token } => {
            &&& next_up(due.ready, after.ready, due.conns, token)
            &&& !due.conns[token]
            &&& step.action == (WorkerAction::CheckConnect { token })
        },
        _ => none_up(due.ready, due.conns) && after.ready.len() == 0,
    }
    &&& match after.phase {
        Phase::Writing { .. } | Phase::Checking { .. } => after.to_drop == due.to_drop,
        Phase::Dropping => step.action matches WorkerAction::Close { token } && next_up(
            due.to_drop,
            after.to_drop,
            due.conns,
            token,
        ),
        _ => none_up(due.to_drop, due.conns) && after.to_drop.len() == 0,
    }
    &&& match after.phase {
        Phase::Writing { .. } | Phase::Checking { .. } | Phase::Dropping => after.to_reconnect
            == due.to_reconnect,
        Phase::Renewing { token } => {
            &&& due.to_reconnect == seq![token] + after.to_reconnect
            &&& due.conns.contains_key(token)
            &&& step.action == (WorkerAction::Close { token })
        },
        Phase::RenewDeadline { token } => {
            &&& due.to_reconnect == seq![token] + after.to_reconnect
            &&& !due.conns.contains_key(token)
            &&& step.action is AskClock
        },
        Phase::Deadline => {
            &&& due.to_reconnect.len() == 0
            &&& after.to_reconnect.len() == 0
            &&& step.action is AskClock
        },
        _ => false,
    }
    &&& match step.action {
        WorkerAction::Close { token } => {
            &&& after.conns == due.conns.remove(token)
            &&& step.closed == if due.conns[token] {
                1int
            } else {
                0
            }
        },
        _ => after.conns == due.conns && step.closed == 0,
    }
}

proof fn lemma_next_up_behind(
    due: Seq<usize>,
    rest: Seq<usize>,
    conns: Map<usize, bool>,
    token: usize,
)
    requires
        due.len() > 0,
        !conns.contains_key(due[0]),
        next_up(due.drop_first(), rest, conns, token),
    ensures
        next_up(due, rest, conns, token),
{
    let behind = due.drop_first();
    let n = choose|n: int|
        {
            &&& 0 < n <= behind.len()
            &&& behind[n - 1] == token
            &&& forall|i: int| 0 <= i < n - 1 ==> !conns.contains_key(#[trigger] behind[i])
            &&& rest == #[trigger] behind.skip(n)
        };
    assert(due.skip(n + 1) =~= behind.skip(n));
    assert forall|i: int| 0 <= i < n implies !conns.contains_key(#[trigger] due[i]) by {
        if i > 0 {
            assert(behind[i - 1] == due[i]);
        }
    }
}

proof fn lemma_none_up_behind(due: Seq<usize>, conns: Map<usize, bool>)
    requires
        due.len() > 0,
        !conns.contains_key(due[0]),
        none_up(due.drop_first(), conns),
    ensures
        none_up(due, conns),
{
    assert forall|i: int| 0 <= i < due.len() implies !conns.contains_key(#[trigger] due[i]) by {
        if i > 0 {
            assert(due.drop_first()[i - 1] == due[i]);
        }
    }
}

proof fn lemma_next_up_first(due: Seq<usize>, conns: Map<usize, bool>)
    requires
        due.len() > 0,
        conns.contains_key(due[0]),
    ensures
        next_up(due, due.drop_first(), conns, due[0]),
{
    assert(due.skip(1) =~= due.drop_first());
}

proof fn lemma_serve_works_off(due: WorkerState)
    ensures
        works_off(due, due.serve().0, due.serve().1),
        due.serve().1.notice is Nothing,
    decreases due.ready.len(),
{
    if due.ready.len() == 0 {
        lemma_drop_works_off(due);
    } else if due.conns.contains_key(due.ready[0]) {
        lemma_next_up_first(due.ready, due.conns);
    } else {
        let rest = WorkerState { ready: due.ready.drop_first(), ..due };
        lemma_serve_works_off(rest);
        let after = rest.serve().0;
        match after.phase {
            Phase::Writing { token } => lemma_next_up_behind(
                due.ready,
                after.ready,
                due.conns,
                token,
            ),
            Phase::Checking { token } => lemma_next_up_behind(
                due.ready,
                after.ready,
                due.conns,
                token,
            ),
            _ => lemma_none_up_behind(due.ready, due.conns),
        }
    }
}

proof fn lemma_drop_works_off(due: WorkerState)
    requires
        due.ready.len() == 0,
    ensures
        works_off(due, due.drop_failed().0, due.drop_failed().1),
        due.drop_failed().1.notice is Nothing,
    decreases due.to_drop.len(),
{
    if due.to_drop.len() == 0 {
        lemma_renew_works_off(due);
    } else if due.conns.contains_key(due.to_drop[0]) {
        lemma_next_up_first(due.to_drop, due.conns);
    } else {
        let rest = WorkerState { to_drop: due.to_drop.drop_first(), ..due };
        lemma_drop_works_off(rest);
        let (after, step) = rest.drop_failed();
        match (after.phase, step.action) {
            (Phase::Dropping, WorkerAction::Close { token }) => lemma_next_up_behind(
                due.to_drop,
                after.to_drop,
                due.conns,
                token,
            ),
            _ => {
                if !(after.phase is Writing) && !(after.phase is Checking) {
                    lemma_none_up_behind(due.to_drop, due.conns);
                }
            },
        }
    }
}

proof fn lemma_renew_works_off(due: WorkerState)
    requires
        due.ready.len() == 0,
        due.to_drop.len() == 0,
    ensures
        works_off(due, due.renew().0, due.renew().1),
        due.renew().1.notice is Nothing,
{
    if due.to_reconnect.len() > 0 {
        assert(due.to_reconnect =~= seq![due.to_reconnect[0]] + due.to_reconnect.drop_first());
    }
}

/// What a worker has to do once `event` has happened: new tokens are ready, a
/// connection that could not be made is to be dropped, one whose peer is gone
/// (or that took nothing) is to be made anew, and one that was made anew is in
/// the table again.
pub open spec fn due_after(state: WorkerState, event: WorkerEvent) -> WorkerState {
    match (state.phase, event) {
        (_, WorkerEvent::Ready(tokens)) => WorkerState { ready: tokens@, ..state },
        (Phase::Checking { token }, WorkerEvent::ConnectChecked { ok: false }) => WorkerState {
            to_drop: state.to_drop.push(token),
            ..state
        },
        (Phase::Writing { token }, WorkerEvent::Wrote { .. }) => WorkerState {
            to_reconnect: state.to_reconnect.push(token),
            ..state
        },
        (Phase::Writing { token }, WorkerEvent::WriteFailed { kind }) => if kind is WouldBlock {
            state
        } else {
            WorkerState { to_reconnect: state.to_reconnect.push(token), ..state }
        },
        (Phase::Reconnecting { token }, WorkerEvent::Reconnected { ok: true }) => WorkerState {
            conns: state.conns.insert(token, false),
            ..state
        },
        _ => state,
    }
}

/// Whatever comes of its actions, a worker does exactly this about it:
///
/// - with time left it waits for that long, and otherwise it finishes and has no
///   connection any more;
/// - a connection that was made, and one that took a part of a buffer, is
///   written to (again), and nothing else changes;
/// - a write error that is neither for want of room nor for want of a peer ends
///   it;
/// - a connection that was taken down to be made anew is made anew if there is
///   time left;
/// - and in all other cases it works off what is due, leaving nothing out.
pub proof fn law_worker_works_off_what_is_due(state: WorkerState, event: WorkerEvent)
    requires
        state.inv(),
        state.expects(event),
    ensures
        ({
            let (after, step) = state.next(event);
            match (state.phase, event) {
                (Phase::Deadline, WorkerEvent::Clock(elapsed)) => if elapsed.secs
                    < state.duration {
                    &&& after == (WorkerState { phase: Phase::Polling, ..state })
                    &&& step.action is Poll
                } else {
                    &&& step.action is Finish
                    &&& after.phase is Stopped
                    &&& after.conns == Map::<usize, bool>::empty()
                },
                (Phase::Checking { token }, WorkerEvent::ConnectChecked { ok: true }) => {
                    &&& after == (WorkerState {
                        conns: state.conns.insert(token, true),
                        phase: Phase::Writing { token },
                        ..state
                    })
                    &&& step.action == (WorkerAction::Write { token })
                    &&& step.opened == 1
                    &&& step.closed == 0
                    &&& step.bits == 0
                },
                (Phase::Renewing { token }, WorkerEvent::Closed) => {
                    &&& after == (WorkerState { phase: Phase::RenewDeadline { token }, ..state })
                    &&& step.action is AskClock
                    &&& step.opened == 0 && step.closed == 0 && step.bits == 0
                },
                _ => if event matches WorkerEvent::Wrote { bytes } && bytes > 0 {
                    &&& after == state
                    &&& state.phase matches Phase::Writing { token } && step.action == (
                    WorkerAction::Write { token })
                    &&& step.bits == 8 * event->bytes
                    &&& step.opened == 0 && step.closed == 0
                } else if event matches WorkerEvent::WriteFailed { kind } && (kind is TimedOut
                    || kind is Other) {
                    &&& step.action is Fail
                    &&& after == (WorkerState { phase: Phase::Stopped, ..state })
                    &&& step.opened == 0 && step.closed == 0 && step.bits == 0
                } else if state.phase is RenewDeadline && (event matches WorkerEvent::Clock(elapsed)
                    && elapsed.secs < state.duration) {
                    &&& state.phase matches Phase::RenewDeadline { token } && step.action == (
                    WorkerAction::Connect { token }) && after == (WorkerState {
                        phase: Phase::Reconnecting { token },
                        ..state
                    })
                    &&& step.opened == 0 && step.closed == 0 && step.bits == 0
                } else {
                    works_off(due_after(state, event), after, step)
                },
            }
        }),
{
    match (state.phase, event) {
        (Phase::Polling, WorkerEvent::Ready(tokens)) => {
            lemma_serve_works_off(WorkerState { ready: tokens@, ..state });
        },
        (Phase::Checking { token }, _) => {
            lemma_serve_works_off(WorkerState { to_drop: state.to_drop.push(token), ..state });
        },
        (Phase::Writing { token }, _) => {
            lemma_serve_works_off(state);
            lemma_serve_works_off(
                WorkerState { to_reconnect: state.to_reconnect.push(token), ..state },
            );
        },
        (Phase::Dropping, _) => {
            lemma_drop_works_off(state);
        },
        (Phase::RenewDeadline { .. }, _) => {
            lemma_renew_works_off(state);
        },
        (Phase::Reconnecting { token }, _) => {
            lemma_renew_works_off(state);
            lemma_renew_works_off(
                WorkerState { conns: state.conns.insert(token, false), ..state },
            );
        },
        _ => {},
    }
}

/// A worker tells of a stream exactly when its connection could not be made, its
/// peer went away, or it could not be connected again, and names the stream by
/// its place among all streams of the client.
pub proof fn law_notices_name_the_stream(state: WorkerState, event: WorkerEvent)
    requires
        state.inv(),
        state.expects(event),
    ensures
        ({
            let notice = state.next(event).1.notice;
            match (state.phase, event) {
                (Phase::Checking { token }, WorkerEvent::ConnectChecked { ok: false }) => notice
                    matches Notice::ConnectFailed { stream } && stream == state.base_id + token,
                (Phase::Writing { token }, WorkerEvent::WriteFailed { kind }) => if kind
                    is ConnectionReset || kind is ConnectionAborted || kind is BrokenPipe {
                    notice matches Notice::PeerClosed { stream } && stream == state.base_id + token
                } else {
                    notice is Nothing
                },
                (Phase::Reconnecting { token }, WorkerEvent::Reconnected { ok: false }) => notice
                    matches Notice::ReconnectFailed { stream } && stream == state.base_id + token,
                _ => notice is Nothing,
            }
        }),
{
    match (state.phase, event) {
        (Phase::Polling, WorkerEvent::Ready(tokens)) => {
            lemma_serve_works_off(WorkerState { ready: tokens@, ..state });
        },
        (Phase::Writing { token }, _) => {
            lemma_serve_works_off(state);
            lemma_serve_works_off(
                WorkerState { to_reconnect: state.to_reconnect.push(token), ..state },
            );
        },
        (Phase::Dropping, _) => {
            lemma_drop_works_off(state);
        },
        (Phase::RenewDeadline { .. }, _) => {
            lemma_renew_works_off(state);
        },
        (Phase::Reconnecting { token }, _) => {
            lemma_renew_works_off(
                WorkerState { conns: state.conns.insert(token, false), ..state },
            );
        },
        _ => {},
    }
}

/// A new worker has a connection in the making for each of its streams, and
/// nothing else to do than to look at the clock.
pub proof fn law_worker_starts_with_all_streams(base_id: usize, count: usize, duration: u64)
    ensures
        ({
            let state = WorkerState::initial(base_id, count, duration);
            &&& forall|token: usize| #[trigger]
                state.conns.contains_key(token) <==> token < count
            &&& forall|token: usize| token < count ==> !#[trigger] state.conns[token]
            &&& state.base_id == base_id && state.count == count && state.duration == duration
            &&& state.ready.len() == 0 && state.to_drop.len() == 0 && state.to_reconnect.len() == 0
            &&& state.phase is Deadline
        }),
{
}

/// Those of `tokens` that have a connection, in their order.
pub open spec fn connected(tokens: Seq<usize>, conns: Map<usize, bool>) -> Seq<usize>
    decreases tokens.len(),
{
    if tokens.len() == 0 {
        Seq::empty()
    } else if conns.contains_key(tokens[0]) {
        seq![tokens[0]] + connected(tokens.drop_first(), conns)
    } else {
        connected(tokens.drop_first(), conns)
    }
}

/// Whether a worker is busy with a ready connection.
pub open spec fn is_serving(phase: Phase) -> bool {
    phase is Writing || phase is Checking
}

/// The state after `events`, from `start` on.
pub open spec fn state_after(start: WorkerState, events: Seq<WorkerEvent>) -> WorkerState {
    run(start, events).0
}

/// The connections whose turn came in the course of `events`, in that order. A
/// connection that was made, or took a part of a buffer, keeps its turn.
pub open spec fn turns(start: WorkerState, events: Seq<WorkerEvent>) -> Seq<usize>
    decreases events.len(),
{
    if events.len() == 0 {
        Seq::empty()
    } else {
        let earlier = turns(start, events.drop_last());
        let keeps_turn = match events.last() {
            WorkerEvent::Wrote { bytes } => bytes > 0,
            WorkerEvent::ConnectChecked { ok } => ok,
            _ => false,
        };
        match state_after(start, events.drop_last()).next(events.last()).1.action {
            WorkerAction::Write { token } if !keeps_turn => earlier.push(token),
            WorkerAction::CheckConnect { token } => earlier.push(token),
            _ => earlier,
        }
    }
}

/// Whether `events` are those of one round, from the moment that connections
/// became ready for as long as they are being served.
pub open spec fn is_round(start: WorkerState, events: Seq<WorkerEvent>) -> bool {
    &&& start.phase is Polling
    &&& start.inv()
    &&& events.len() > 0
    &&& events[0] is Ready
    &&& run_expects(start, events)
    &&& forall|n: int|
        0 < n < events.len() ==> is_serving(
            (#[trigger] state_after(start, events.take(n))).phase,
        )
}

proof fn lemma_connected_next(
    due: Seq<usize>,
    rest: Seq<usize>,
    conns: Map<usize, bool>,
    token: usize,
)
    requires
        next_up(due, rest, conns, token),
    ensures
        connected(due, conns) == seq![token] + connected(rest, conns),
    decreases due.len(),
{
    let n = choose|n: int|
        {
            &&& 0 < n <= due.len()
            &&& due[n - 1] == token
            &&& forall|i: int| 0 <= i < n - 1 ==> !conns.contains_key(#[trigger] due[i])
            &&& rest == #[trigger] due.skip(n)
        };
    let behind = due.drop_first();
    if n == 1 {
        assert(due.skip(1) =~= behind);
    } else {
        assert(!conns.contains_key(due[0]));
        assert(behind.skip(n - 1) =~= due.skip(n));
        assert(behind[n - 2] == token);
        assert forall|i: int| 0 <= i < n - 2 implies !conns.contains_key(#[trigger] behind[i]) by {
            assert(behind[i] == due[i + 1]);
        }
        lemma_connected_next(behind, rest, conns, token);
    }
}

proof fn lemma_connected_none(due: Seq<usize>, conns: Map<usize, bool>)
    requires
        none_up(due, conns),
    ensures
        connected(due, conns) == Seq::<usize>::empty(),
    decreases due.len(),
{
    if due.len() > 0 {
        let behind = due.drop_first();
        assert(!conns.contains_key(due[0]));
        assert forall|i: int| 0 <= i < behind.len() implies !conns.contains_key(
            #[trigger] behind[i],
        ) by {
            assert(behind[i] == due[i + 1]);
        }
        lemma_connected_none(behind, conns);
    }
}

proof fn lemma_connected_same(tokens: Seq<usize>, a: Map<usize, bool>, b: Map<usize, bool>)
    requires
        a.dom() == b.dom(),
    ensures
        connected(tokens, a) == connected(tokens, b),
    decreases tokens.len(),
{
    if tokens.len() > 0 {
        assert(a.dom().contains(tokens[0]) == b.dom().contains(tokens[0]));
        lemma_connected_same(tokens.drop_first(), a, b);
    }
}

proof fn lemma_round(start: WorkerState, events: Seq<WorkerEvent>)
    requires
        is_round(start, events),
    ensures
        ({
            let tokens = events[0]->Ready_0@;
            let state = state_after(start, events);
            &&& state.inv()
            &&& is_serving(state.phase) ==> state.conns.dom() == start.conns.dom() && turns(
                start,
                events,
            ) + connected(state.ready, start.conns) == connected(tokens, start.conns)
            &&& !is_serving(state.phase) && !(state.phase is Stopped) ==> turns(start, events)
                == connected(tokens, start.conns)
        }),
    decreases events.len(),
{
    let tokens = events[0]->Ready_0@;
    let last = events.last();
    let earlier = events.drop_last();
    let before = state_after(start, earlier);
    let (after, step) = before.next(last);
    if earlier.len() == 0 {
        assert(before == start);
        assert(turns(start, earlier) =~= Seq::<usize>::empty());
    } else {
        assert(earlier =~= events.take(events.len() - 1));
        assert forall|n: int| 0 < n < earlier.len() implies is_serving(
            (#[trigger] state_after(start, earlier.take(n))).phase,
        ) by {
            assert(earlier.take(n) =~= events.take(n));
        }
        lemma_round(start, earlier);
        assert(is_serving(before.phase));
    }
    law_inv_kept(before, last);
    law_worker_works_off_what_is_due(before, last);
    let due = due_after(before, last);
    lemma_connected_same(due.ready, due.conns, start.conns);
    let keeps_turn = match last {
        WorkerEvent::Wrote { bytes } => bytes > 0,
        WorkerEvent::ConnectChecked { ok } => ok,
        _ => false,
    };
    if keeps_turn {
        if before.phase is Checking {
            let token = before.phase->Checking_token;
            assert(before.conns.insert(token, true).dom() =~= before.conns.dom());
        }
    } else if after.phase is Stopped {
    } else {
        assert(works_off(due, after, step));
        match after.phase {
            Phase::Writing { token } => {
                lemma_connected_next(due.ready, after.ready, due.conns, token);
                lemma_connected_same(after.ready, due.conns, start.conns);
            },
            Phase::Checking { token } => {
                lemma_connected_next(due.ready, after.ready, due.conns, token);
                lemma_connected_same(after.ready, due.conns, start.conns);
            },
            _ => {
                lemma_connected_none(due.ready, due.conns);
            },
        }
        assert(turns(start, events) + connected(after.ready, start.conns) =~= connected(
            tokens,
            start.conns,
        ) || !is_serving(after.phase));
        assert(turns(start, events) =~= connected(tokens, start.conns) || is_serving(after.phase));
    }
}

/// In each round, every connection that became ready has its turn, in the order
/// in which they became ready, before the worker turns to anything else.
pub proof fn law_every_ready_connection_has_its_turn(start: WorkerState, events: Seq<WorkerEvent>)
    requires
        is_round(start, events),
        !is_serving(state_after(start, events).phase),
        !(state_after(start, events).phase is Stopped),
    ensures
        turns(start, events) == connected(events[0]->Ready_0@, start.conns),
{
    lemma_round(start, events);
}

/// Whatever a worker asks for, it can be told of everything that may come of it:
/// of any time, of any connections that are ready, of a connection that was made
/// or not, of any number of bytes that can be counted, and of any error. It asks
/// for nothing more once it has finished or failed.
pub proof fn law_outcomes_are_accepted(
    state: WorkerState,
    event: WorkerEvent,
    elapsed: Span,
    tokens: VecDeque<usize>,
    ok: bool,
    bytes: usize,
    kind: NetErrorKind,
    other: WorkerEvent,
)
    requires
        state.inv(),
        state.expects(event),
        elapsed.nanos < 1_000_000_000,
        8 * bytes <= usize::MAX,
    ensures
        ({
            let (after, step) = state.next(event);
            match step.action {
                WorkerAction::AskClock => after.expects(WorkerEvent::Clock(elapsed)),
                WorkerAction::Poll { .. } => after.expects(WorkerEvent::Ready(tokens)),
                WorkerAction::CheckConnect { .. } => after.expects(
                    WorkerEvent::ConnectChecked { ok },
                ),
                WorkerAction::Write { .. } => after.expects(WorkerEvent::Wrote { bytes })
                    && after.expects(WorkerEvent::WriteFailed { kind }),
                WorkerAction::Close { .. } => after.expects(WorkerEvent::Closed),
                WorkerAction::Connect { .. } => after.expects(WorkerEvent::Reconnected { ok }),
                WorkerAction::Finish | WorkerAction::Fail => !after.expects(other),
            }
        }),
        WorkerState::initial(state.base_id, state.count, state.duration).expects(
            WorkerEvent::Clock(elapsed),
        ),
{
    law_worker_works_off_what_is_due(state, event);
}

} // verus!
