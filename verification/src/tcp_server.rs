//! The server side of TCP on threads: what each worker does about its
//! listener and the connections that it accepted.
use crate::net_error::NetErrorKind;
use std::collections::{HashSet, VecDeque};
use vstd::prelude::*;

verus! {

broadcast use vstd::std_specs::hash::group_hash_axioms;

/// The token that the listener is registered under.
pub const LISTENER: usize = 0;

/// What a worker waits for.
#[derive(Clone, Copy, Debug, PartialEq, Eq, Structural)]
pub enum ServerPhase {
    /// Sockets to become ready.
    Polling,
    /// A connection from the listener.
    Accepting,
    /// A new connection to be registered as `token`.
    Registering { token: usize },
    /// What a read from `token` came to.
    Reading { token: usize },
    /// A connection to be taken down.
    Removing,
}

/// What the worker asks for.
#[derive(Clone, Copy, Debug, PartialEq, Eq, Structural)]
pub enum ServerAction {
    /// Wait for ready sockets.
    Poll,
    /// Accept a connection from the listener.
    Accept,
    /// Register the connection that was just accepted as `token`.
    Register { token: usize },
    /// Read from the connection of `token`.
    Read { token: usize },
    /// Deregister and close the connection of `token`.
    Close { token: usize },
}

/// What came of an action.
pub enum ServerEvent {
    Ready(VecDeque<usize>),
    Accepted,
    AcceptFailed,
    Registered,
    Received { bytes: usize },
    ReceiveFailed { kind: NetErrorKind },
    Closed,
}

/// One decision of a worker: what to do, and how the counters that all
/// workers share move.
#[derive(Clone, Copy, Debug, PartialEq, Eq, Structural)]
pub struct ServerStep {
    pub action: ServerAction,
    /// Bits to add to the bits received.
    pub bits: usize,
    /// Connections to add to the number of connections.
    pub opened: usize,
    /// Connections to take off the number of connections.
    pub closed: usize,
}

/// The state of a worker: `conns` holds the tokens of its connections.
#[verifier::ext_equal]
pub struct ServerState {
    pub next_token: usize,
    pub conns: Set<usize>,
    pub ready: Seq<usize>,
    pub to_remove: Seq<usize>,
    pub phase: ServerPhase,
}

/// A step that moves no counter.
pub open spec fn plain(action: ServerAction) -> ServerStep {
    ServerStep { action, bits: 0, opened: 0, closed: 0 }
}

/// The token after `token`. After the last comes the first again, past that
/// of the listener.
pub open spec fn token_after(token: usize) -> usize {
    if token == usize::MAX {
        1
    } else {
        (token + 1) as usize
    }
}

impl ServerState {
    pub open spec fn initial() -> ServerState {
        ServerState {
            next_token: 1,
            conns: Set::empty(),
            ready: Seq::empty(),
            to_remove: Seq::empty(),
            phase: ServerPhase::Polling,
        }
    }

    /// The listener's token is never that of a connection, and only
    /// connections that exist are read from.
    pub open spec fn inv(self) -> bool {
        &&& self.next_token != LISTENER
        &&& self.conns.finite()
        &&& !self.conns.contains(LISTENER)
        &&& match self.phase {
            ServerPhase::Polling => self.ready.len() == 0 && self.to_remove.len() == 0,
            ServerPhase::Accepting => true,
            ServerPhase::Registering { token } => token != LISTENER,
            ServerPhase::Reading { token } => self.conns.contains(token),
            ServerPhase::Removing => self.ready.len() == 0,
        }
    }

    /// Whether `event` is what the worker waits for.
    pub open spec fn expects(self, event: ServerEvent) -> bool {
        match (self.phase, event) {
            (ServerPhase::Polling, ServerEvent::Ready(_)) => true,
            (ServerPhase::Accepting, ServerEvent::Accepted) => true,
            (ServerPhase::Accepting, ServerEvent::AcceptFailed) => true,
            (ServerPhase::Registering { .. }, ServerEvent::Registered) => true,
            (ServerPhase::Reading { .. }, ServerEvent::Received { bytes }) => bytes * 8
                <= usize::MAX,
            (ServerPhase::Reading { .. }, ServerEvent::ReceiveFailed { .. }) => true,
            (ServerPhase::Removing, ServerEvent::Closed) => true,
            _ => false,
        }
    }

    /// On to the next ready socket: the listener, or a connection. Tokens
    /// without a connection are passed over; when none is left, finished
    /// connections are taken down.
    pub open spec fn serve(self) -> (ServerState, ServerStep)
        decreases self.ready.len(),
    {
        if self.ready.len() == 0 {
            self.remove_finished()
        } else {
            let token = self.ready[0];
            let rest = ServerState { ready: self.ready.drop_first(), ..self };
            if token == LISTENER {
                (
                    ServerState { phase: ServerPhase::Accepting, ..rest },
                    plain(ServerAction::Accept),
                )
            } else if self.conns.contains(token) {
                (
                    ServerState { phase: ServerPhase::Reading { token }, ..rest },
                    plain(ServerAction::Read { token }),
                )
            } else {
                rest.serve()
            }
        }
    }

    /// On to the next finished connection, and after the last of them to the
    /// next round.
    pub open spec fn remove_finished(self) -> (ServerState, ServerStep)
        decreases self.to_remove.len(),
    {
        if self.to_remove.len() == 0 {
            (ServerState { phase: ServerPhase::Polling, ..self }, plain(ServerAction::Poll))
        } else {
            let token = self.to_remove[0];
            let rest = ServerState { to_remove: self.to_remove.drop_first(), ..self };
            if self.conns.contains(token) {
                (
                    ServerState {
                        conns: self.conns.remove(token),
                        phase: ServerPhase::Removing,
                        ..rest
                    },
                    ServerStep { closed: 1, ..plain(ServerAction::Close { token }) },
                )
            } else {
                rest.remove_finished()
            }
        }
    }

    /// What the worker does about `event`.
    pub open spec fn next(self, event: ServerEvent) -> (ServerState, ServerStep) {
        match (self.phase, event) {
            (ServerPhase::Polling, ServerEvent::Ready(tokens)) => {
                ServerState { ready: tokens@, ..self }.serve()
            },
            (ServerPhase::Accepting, ServerEvent::Accepted) => {
                (
                    ServerState {
                        next_token: token_after(self.next_token),
                        phase: ServerPhase::Registering { token: self.next_token },
                        ..self
                    },
                    plain(ServerAction::Register { token: self.next_token }),
                )
            },
            (ServerPhase::Registering { token }, ServerEvent::Registered) => {
                (
                    ServerState {
                        conns: self.conns.insert(token),
                        phase: ServerPhase::Accepting,
                        ..self
                    },
                    ServerStep { opened: 1, ..plain(ServerAction::Accept) },
                )
            },
            (ServerPhase::Reading { token }, ServerEvent::Received { bytes }) => {
                if bytes == 0 {
                    ServerState { to_remove: self.to_remove.push(token), ..self }.serve()
                } else {
                    (
                        self,
                        ServerStep {
                            bits: (bytes * 8) as usize,
                            ..plain(ServerAction::Read { token })
                        },
                    )
                }
            },
            (ServerPhase::Reading { token }, ServerEvent::ReceiveFailed { kind }) => {
                if kind is WouldBlock {
                    self.serve()
                } else {
                    ServerState { to_remove: self.to_remove.push(token), ..self }.serve()
                }
            },
            (ServerPhase::Removing, ServerEvent::Closed) => self.remove_finished(),
            // a connection could not be accepted: on to the next socket
            _ => self.serve(),
        }
    }

    /// No connection has a token that is yet to be given out.
    pub open spec fn fresh(self) -> bool {
        &&& forall|token: usize| #[trigger] self.conns.contains(token) ==> token < self.next_token
        &&& self.phase matches ServerPhase::Registering { token } ==> token + 1 == self.next_token
            && !self.conns.contains(token)
    }
}

/// A worker thread of the server, with a listener of its own.
pub struct ServerWorker {
    next_token: usize,
    conns: HashSet<usize>,
    ready: VecDeque<usize>,
    to_remove: VecDeque<usize>,
    phase: ServerPhase,
}

impl View for ServerWorker {
    type V = ServerState;

    closed spec fn view(&self) -> ServerState {
        ServerState {
            next_token: self.next_token,
            conns: self.conns@,
            ready: self.ready@,
            to_remove: self.to_remove@,
            phase: self.phase,
        }
    }
}

fn plainly(action: ServerAction) -> (step: ServerStep)
    ensures
        step == plain(action),
{
    ServerStep { action, bits: 0, opened: 0, closed: 0 }
}

impl ServerWorker {
    /// A worker without connections, waiting for sockets to become ready.
    pub fn new() -> (worker: ServerWorker)
        ensures
            worker@ == ServerState::initial(),
            worker@.inv(),
    {
        ServerWorker {
            next_token: 1,
            conns: HashSet::new(),
            ready: VecDeque::new(),
            to_remove: VecDeque::new(),
            phase: ServerPhase::Polling,
        }
    }

    /// Whether `event` is one that the worker waits for.
    pub fn accepts(&self, event: &ServerEvent) -> (yes: bool)
        ensures
            yes == self@.expects(*event),
    {
        match (self.phase, event) {
            (ServerPhase::Polling, ServerEvent::Ready(_)) => true,
            (ServerPhase::Accepting, ServerEvent::Accepted) => true,
            (ServerPhase::Accepting, ServerEvent::AcceptFailed) => true,
            (ServerPhase::Registering { .. }, ServerEvent::Registered) => true,
            (ServerPhase::Reading { .. }, ServerEvent::Received { bytes }) => *bytes
                <= usize::MAX / 8,
            (ServerPhase::Reading { .. }, ServerEvent::ReceiveFailed { .. }) => true,
            (ServerPhase::Removing, ServerEvent::Closed) => true,
            _ => false,
        }
    }

    /// What to do about `event`.
    pub fn step(&mut self, event: ServerEvent) -> (step: ServerStep)
        requires
            old(self)@.inv(),
            old(self)@.expects(event),
        ensures
            (final(self)@, step) == old(self)@.next(event),
            final(self)@.inv(),
    {
        proof {
            law_inv_kept(self@, event);
        }
        match (self.phase, event) {
            (ServerPhase::Polling, ServerEvent::Ready(tokens)) => {
                self.ready = tokens;
                self.serve()
            },
            (ServerPhase::Accepting, ServerEvent::Accepted) => {
                let token: usize = self.next_token;
                self.next_token = if token == usize::MAX {
                    1
                } else {
                    token + 1
                };
                self.phase = ServerPhase::Registering { token };
                plainly(ServerAction::Register { token })
            },
            (ServerPhase::Registering { token }, ServerEvent::Registered) => {
                self.conns.insert(token);
                self.phase = ServerPhase::Accepting;
                ServerStep { action: ServerAction::Accept, bits: 0, opened: 1, closed: 0 }
            },
            (ServerPhase::Reading { token }, ServerEvent::Received { bytes }) => {
                if bytes == 0 {
                    self.to_remove.push_back(token);
                    self.serve()
                } else {
                    ServerStep {
                        action: ServerAction::Read { token },
                        bits: bytes * 8,
                        opened: 0,
                        closed: 0,
                    }
                }
            },
            (ServerPhase::Reading { token }, ServerEvent::ReceiveFailed { kind }) => {
                if kind != NetErrorKind::WouldBlock {
                    self.to_remove.push_back(token);
                }
                self.serve()
            },
            (ServerPhase::Removing, ServerEvent::Closed) => self.remove_finished(),
            // a connection could not be accepted: on to the next socket
            _ => self.serve(),
        }
    }

    fn serve(&mut self) -> (step: ServerStep)
        ensures
            (final(self)@, step) == old(self)@.serve(),
        decreases old(self).ready@.len(),
    {
        match self.ready.pop_front() {
            None => self.remove_finished(),
            Some(token) => {
                if token == LISTENER {
                    self.phase = ServerPhase::Accepting;
                    plainly(ServerAction::Accept)
                } else if self.conns.contains(&token) {
                    self.phase = ServerPhase::Reading { token };
                    plainly(ServerAction::Read { token })
                } else {
                    self.serve()
                }
            },
        }
    }

    fn remove_finished(&mut self) -> (step: ServerStep)
        ensures
            (final(self)@, step) == old(self)@.remove_finished(),
        decreases old(self).to_remove@.len(),
    {
        match self.to_remove.pop_front() {
            None => {
                self.phase = ServerPhase::Polling;
                plainly(ServerAction::Poll)
            },
            Some(token) => {
                if self.conns.contains(&token) {
                    self.conns.remove(&token);
                    self.phase = ServerPhase::Removing;
                    ServerStep {
                        action: ServerAction::Close { token },
                        bits: 0,
                        opened: 0,
                        closed: 1,
                    }
                } else {
                    self.remove_finished()
                }
            },
        }
    }
}

spec fn table_ok(state: ServerState) -> bool {
    state.next_token != LISTENER && state.conns.finite() && !state.conns.contains(LISTENER)
}

proof fn lemma_serve_keeps(state: ServerState)
    requires
        table_ok(state),
    ensures
        state.serve().0.inv(),
    decreases state.ready.len(),
{
    if state.ready.len() == 0 {
        lemma_remove_keeps(state);
    } else if state.ready[0] != LISTENER && !state.conns.contains(state.ready[0]) {
        lemma_serve_keeps(ServerState { ready: state.ready.drop_first(), ..state });
    }
}

proof fn lemma_remove_keeps(state: ServerState)
    requires
        table_ok(state),
        state.ready.len() == 0,
    ensures
        state.remove_finished().0.inv(),
    decreases state.to_remove.len(),
{
    if state.to_remove.len() > 0 && !state.conns.contains(state.to_remove[0]) {
        lemma_remove_keeps(ServerState { to_remove: state.to_remove.drop_first(), ..state });
    }
}

/// Whatever comes of its actions, a worker never gives the listener's token
/// to a connection, and reads only from connections that it has.
pub proof fn law_inv_kept(state: ServerState, event: ServerEvent)
    requires
        state.inv(),
        state.expects(event),
    ensures
        state.next(event).0.inv(),
{
    match (state.phase, event) {
        (ServerPhase::Polling, ServerEvent::Ready(tokens)) => {
            lemma_serve_keeps(ServerState { ready: tokens@, ..state });
        },
        (ServerPhase::Accepting, _) => {
            lemma_serve_keeps(state);
        },
        (ServerPhase::Reading { token }, _) => {
            lemma_serve_keeps(state);
            lemma_serve_keeps(ServerState { to_remove: state.to_remove.push(token), ..state });
        },
        (ServerPhase::Removing, _) => {
            lemma_remove_keeps(state);
        },
        _ => {},
    }
}

/// The bytes that `event` says were received.
pub open spec fn bytes_of(event: ServerEvent) -> nat {
    match event {
        ServerEvent::Received { bytes } => bytes as nat,
        _ => 0,
    }
}

/// Whether a connection that `event` registers gets a token that no connection
/// has.
pub open spec fn lands_free(state: ServerState, event: ServerEvent) -> bool {
    event is Registered ==> (state.phase matches ServerPhase::Registering { token }
        ==> !state.conns.contains(token))
}

/// The connections that are there to stay: those that were not seen closed or
/// failed.
spec fn stays(state: ServerState, token: usize) -> bool {
    state.conns.contains(token) && !state.to_remove.contains(token)
}

/// How a step that accepts nothing leaves the table.
spec fn settled(before: ServerState, after: (ServerState, ServerStep)) -> bool {
    &&& after.0.next_token == before.next_token
    &&& after.0.conns.subset_of(before.conns)
    &&& !(after.0.phase is Registering)
    &&& after.0.conns.len() == before.conns.len() + after.1.opened - after.1.closed
    &&& after.1.bits == 0
    &&& forall|token: usize| #[trigger] stays(after.0, token) <==> stays(before, token)
    &&& after.0.phase is Accepting || after.0.phase is Reading ==> after.0.conns == before.conns
        && after.0.to_remove == before.to_remove
}

proof fn lemma_serve_settled(state: ServerState)
    requires
        state.conns.finite(),
    ensures
        settled(state, state.serve()),
    decreases state.ready.len(),
{
    if state.ready.len() == 0 {
        lemma_remove_settled(state);
    } else if state.ready[0] != LISTENER && !state.conns.contains(state.ready[0]) {
        let rest = ServerState { ready: state.ready.drop_first(), ..state };
        lemma_serve_settled(rest);
        assert(forall|token: usize| stays(rest, token) <==> #[trigger] stays(state, token));
    }
}

proof fn lemma_remove_settled(state: ServerState)
    requires
        state.conns.finite(),
    ensures
        settled(state, state.remove_finished()),
        !(state.remove_finished().0.phase is Accepting),
        !(state.remove_finished().0.phase is Reading),
    decreases state.to_remove.len(),
{
    if state.to_remove.len() > 0 {
        let first = state.to_remove[0];
        let rest = ServerState { to_remove: state.to_remove.drop_first(), ..state };
        assert forall|token: usize|
            state.to_remove.contains(token) <==> token == first || #[trigger]
            rest.to_remove.contains(token) by {
            if state.to_remove.contains(token) && token != first {
                let i = choose|i: int|
                    0 <= i < state.to_remove.len() && state.to_remove[i] == token;
                assert(rest.to_remove[i - 1] == token);
            }
            if rest.to_remove.contains(token) {
                let i = choose|i: int|
                    0 <= i < rest.to_remove.len() && rest.to_remove[i] == token;
                assert(state.to_remove[i + 1] == token);
            }
        }
        if state.conns.contains(first) {
            let after = state.remove_finished().0;
            assert forall|token: usize| #[trigger] stays(after, token) <==> stays(
                state,
                token,
            ) by {
                assert(rest.to_remove.contains(token) || !rest.to_remove.contains(token));
            }
        } else {
            lemma_remove_settled(rest);
            assert forall|token: usize| stays(rest, token) <==> #[trigger] stays(state, token) by {
                assert(rest.to_remove.contains(token) || !rest.to_remove.contains(token));
            }
        }
    }
}

/// Where each new connection gets a token that no other has, every step moves
/// the number of connections by exactly the change in the worker's own table.
/// Eight bits are counted for each byte that was received.
pub proof fn law_step_keeps_count(state: ServerState, event: ServerEvent)
    requires
        state.inv(),
        state.expects(event),
        lands_free(state, event),
    ensures
        state.next(event).0.conns.len() == state.conns.len() + state.next(event).1.opened
            - state.next(event).1.closed,
        state.next(event).1.bits == 8 * bytes_of(event),
{
    match (state.phase, event) {
        (ServerPhase::Polling, ServerEvent::Ready(tokens)) => {
            lemma_serve_settled(ServerState { ready: tokens@, ..state });
        },
        (ServerPhase::Accepting, _) => {
            lemma_serve_settled(state);
        },
        (ServerPhase::Reading { token }, _) => {
            lemma_serve_settled(state);
            lemma_serve_settled(ServerState { to_remove: state.to_remove.push(token), ..state });
        },
        (ServerPhase::Removing, _) => {
            lemma_remove_settled(state);
        },
        _ => {},
    }
}

/// Until the tokens run out, each new connection gets one that no other
/// connection has.
pub proof fn law_tokens_stay_fresh(state: ServerState, event: ServerEvent)
    requires
        state.inv(),
        state.expects(event),
        state.fresh(),
        event is Accepted ==> state.next_token < usize::MAX,
    ensures
        lands_free(state, event),
        state.next(event).0.fresh(),
        state.next(event).0.next_token == state.next_token + if event is Accepted {
            1int
        } else {
            0
        },
{
    match (state.phase, event) {
        (ServerPhase::Polling, ServerEvent::Ready(tokens)) => {
            lemma_serve_settled(ServerState { ready: tokens@, ..state });
        },
        (ServerPhase::Accepting, _) => {
            lemma_serve_settled(state);
        },
        (ServerPhase::Reading { token }, _) => {
            lemma_serve_settled(state);
            lemma_serve_settled(ServerState { to_remove: state.to_remove.push(token), ..state });
        },
        (ServerPhase::Removing, _) => {
            lemma_remove_settled(state);
        },
        _ => {},
    }
}

/// What a run has added to the counters that all workers share.
pub struct ServerTotals {
    pub opened: nat,
    pub closed: nat,
    pub bits: nat,
}

/// The state after `events`, one after the other, and what they added up to.
pub open spec fn run(events: Seq<ServerEvent>) -> (ServerState, ServerTotals)
    decreases events.len(),
{
    if events.len() == 0 {
        (ServerState::initial(), ServerTotals { opened: 0, closed: 0, bits: 0 })
    } else {
        let (state, totals) = run(events.drop_last());
        let (after, step) = state.next(events.last());
        (
            after,
            ServerTotals {
                opened: totals.opened + step.opened as nat,
                closed: totals.closed + step.closed as nat,
                bits: totals.bits + step.bits as nat,
            },
        )
    }
}

/// Whether each of `events` is what the worker waits for when it comes.
pub open spec fn run_expects(events: Seq<ServerEvent>) -> bool
    decreases events.len(),
{
    events.len() > 0 ==> run_expects(events.drop_last()) && run(events.drop_last()).0.expects(
        events.last(),
    )
}

pub open spec fn bytes_received(events: Seq<ServerEvent>) -> nat
    decreases events.len(),
{
    if events.len() == 0 {
        0
    } else {
        bytes_received(events.drop_last()) + bytes_of(events.last())
    }
}

pub open spec fn accepted(events: Seq<ServerEvent>) -> nat
    decreases events.len(),
{
    if events.len() == 0 {
        0
    } else {
        accepted(events.drop_last()) + if events.last() is Accepted {
            1nat
        } else {
            0nat
        }
    }
}

/// Whether in the course of `events` each new connection got a token that no
/// other had.
pub open spec fn run_lands_free(events: Seq<ServerEvent>) -> bool
    decreases events.len(),
{
    events.len() > 0 ==> run_lands_free(events.drop_last()) && lands_free(
        run(events.drop_last()).0,
        events.last(),
    )
}

/// The tokens of the connections that were registered in the course of `events`
/// and were not since seen closed or failed.
pub open spec fn live(events: Seq<ServerEvent>) -> Set<usize>
    decreases events.len(),
{
    if events.len() == 0 {
        Set::empty()
    } else {
        let before = live(events.drop_last());
        match (run(events.drop_last()).0.phase, events.last()) {
            (ServerPhase::Registering { token }, ServerEvent::Registered) => before.insert(token),
            (ServerPhase::Reading { token }, ServerEvent::Received { bytes }) => if bytes == 0 {
                before.remove(token)
            } else {
                before
            },
            (ServerPhase::Reading { token }, ServerEvent::ReceiveFailed { kind }) => if kind
                is WouldBlock {
                before
            } else {
                before.remove(token)
            },
            _ => before,
        }
    }
}

/// However a run goes in which each new connection gets a token that no other
/// has, a worker has opened exactly as many more connections than it closed as
/// it still has, and has counted eight bits for each byte that was received. No
/// connection has the listener's token.
pub proof fn law_run_keeps_count(events: Seq<ServerEvent>)
    requires
        run_expects(events),
        run_lands_free(events),
    ensures
        ({
            let (state, totals) = run(events);
            &&& state.inv()
            &&& !state.conns.contains(LISTENER)
            &&& totals.opened == totals.closed + state.conns.len()
            &&& totals.bits == 8 * bytes_received(events)
        }),
    decreases events.len(),
{
    if events.len() > 0 {
        law_run_keeps_count(events.drop_last());
        let state = run(events.drop_last()).0;
        law_inv_kept(state, events.last());
        law_step_keeps_count(state, events.last());
    }
}

/// While sockets are being served, nothing leaves the table, so that all that is
/// to be removed is still in it.
spec fn serving(state: ServerState) -> bool {
    state.phase is Accepting || state.phase is Registering || state.phase is Reading
        ==> forall|token: usize| #[trigger]
        state.to_remove.contains(token) ==> state.conns.contains(token)
}

proof fn lemma_push_contains(tokens: Seq<usize>, last: usize)
    ensures
        forall|token: usize| #[trigger]
            tokens.push(last).contains(token) <==> tokens.contains(token) || token == last,
{
    assert forall|token: usize| #[trigger]
        tokens.push(last).contains(token) <==> tokens.contains(token) || token == last by {
        if tokens.contains(token) {
            let i = choose|i: int| 0 <= i < tokens.len() && tokens[i] == token;
            assert(tokens.push(last)[i] == token);
        }
        assert(tokens.push(last)[tokens.len() as int] == last);
    }
}

proof fn lemma_live(events: Seq<ServerEvent>)
    requires
        run_expects(events),
        run_lands_free(events),
    ensures
        serving(run(events).0),
        forall|token: usize| #[trigger]
            live(events).contains(token) <==> stays(run(events).0, token),
    decreases events.len(),
{
    if events.len() > 0 {
        let before = events.drop_last();
        lemma_live(before);
        law_run_keeps_count(before);
        let state = run(before).0;
        let after = run(events).0;
        match (state.phase, events.last()) {
            (ServerPhase::Polling, ServerEvent::Ready(tokens)) => {
                let ready = ServerState { ready: tokens@, ..state };
                lemma_serve_settled(ready);
                assert(forall|token: usize| stays(ready, token) <==> stays(state, token));
            },
            (ServerPhase::Reading { token }, ServerEvent::Received { .. })
            | (ServerPhase::Reading { token }, ServerEvent::ReceiveFailed { .. }) => {
                let noted = ServerState { to_remove: state.to_remove.push(token), ..state };
                lemma_push_contains(state.to_remove, token);
                lemma_serve_settled(state);
                lemma_serve_settled(noted);
                assert forall|other: usize| #[trigger] stays(noted, other) <==> stays(state, other)
                    && other != token by {
                    assert(noted.to_remove.contains(other) || !noted.to_remove.contains(other));
                }
            },
            (ServerPhase::Accepting, ServerEvent::AcceptFailed) => {
                lemma_serve_settled(state);
            },
            (ServerPhase::Removing, _) => {
                lemma_remove_settled(state);
            },
            _ => {},
        }
        assert forall|token: usize| #[trigger] live(events).contains(token) <==> stays(
            after,
            token,
        ) by {
            assert(live(before).contains(token) <==> stays(state, token));
        }
    }
}

/// Whenever it waits for sockets to become ready, a worker holds exactly the
/// connections that it registered and has not since seen closed or failed, and
/// has counted so many more as opened than as closed.
pub proof fn law_table_is_what_is_live(events: Seq<ServerEvent>)
    requires
        run_expects(events),
        run_lands_free(events),
        run(events).0.phase is Polling,
    ensures
        run(events).0.conns == live(events),
        run(events).1.opened == run(events).1.closed + live(events).len(),
{
    lemma_live(events);
    law_run_keeps_count(events);
    assert forall|token: usize| run(events).0.conns.contains(token) <==> #[trigger] live(
        events,
    ).contains(token) by {
        assert(stays(run(events).0, token) <==> run(events).0.conns.contains(token));
    }
    assert(run(events).0.conns =~= live(events));
}

/// Until as many connections were accepted as there are tokens, each new one
/// gets a token that no other has.
pub proof fn law_first_tokens_are_free(events: Seq<ServerEvent>)
    requires
        run_expects(events),
        accepted(events) < usize::MAX,
    ensures
        run_lands_free(events),
        run(events).0.inv(),
        run(events).0.fresh(),
        run(events).0.next_token == accepted(events) + 1,
    decreases events.len(),
{
    if events.len() > 0 {
        law_first_tokens_are_free(events.drop_last());
        let state = run(events.drop_last()).0;
        law_inv_kept(state, events.last());
        law_tokens_stay_fresh(state, events.last());
    }
}

/// A worker never stops: whatever comes of an action, the next one that it asks
/// for is one whose outcomes it waits for. A connection that could not be
/// accepted, or a read that failed, leads on like any other.
pub proof fn law_worker_never_stops(state: ServerState, event: ServerEvent)
    requires
        state.inv(),
        state.expects(event),
    ensures
        ({
            let (after, step) = state.next(event);
            match step.action {
                ServerAction::Poll => after.phase is Polling,
                ServerAction::Accept => after.expects(ServerEvent::Accepted) && after.expects(
                    ServerEvent::AcceptFailed,
                ),
                ServerAction::Register { token } => after.expects(ServerEvent::Registered),
                ServerAction::Read { token } => after.conns.contains(token) && after.expects(
                    ServerEvent::Received { bytes: 0 },
                ),
                ServerAction::Close { token } => after.expects(ServerEvent::Closed),
            }
        }),
{
    match (state.phase, event) {
        (ServerPhase::Polling, ServerEvent::Ready(tokens)) => {
            lemma_serve_fits(ServerState { ready: tokens@, ..state });
        },
        (ServerPhase::Reading { token }, _) => {
            lemma_serve_fits(state);
            lemma_serve_fits(ServerState { to_remove: state.to_remove.push(token), ..state });
        },
        (ServerPhase::Removing, _) => {
            lemma_remove_fits(state);
        },
        _ => {
            lemma_serve_fits(state);
        },
    }
}

spec fn action_fits(state: ServerState, action: ServerAction) -> bool {
    match action {
        ServerAction::Poll => state.phase is Polling,
        ServerAction::Accept => state.phase is Accepting,
        ServerAction::Register { token } => state.phase == (ServerPhase::Registering { token }),
        ServerAction::Read { token } => state.phase == (ServerPhase::Reading { token })
            && state.conns.contains(token),
        ServerAction::Close { .. } => state.phase is Removing,
    }
}

proof fn lemma_serve_fits(state: ServerState)
    ensures
        action_fits(state.serve().0, state.serve().1.action),
    decreases state.ready.len(),
{
    if state.ready.len() == 0 {
        lemma_remove_fits(state);
    } else if state.ready[0] != LISTENER && !state.conns.contains(state.ready[0]) {
        lemma_serve_fits(ServerState { ready: state.ready.drop_first(), ..state });
    }
}

proof fn lemma_remove_fits(state: ServerState)
    ensures
        action_fits(state.remove_finished().0, state.remove_finished().1.action),
    decreases state.to_remove.len(),
{
    if state.to_remove.len() > 0 && !state.conns.contains(state.to_remove[0]) {
        lemma_remove_fits(ServerState { to_remove: state.to_remove.drop_first(), ..state });
    }
}

/// Whether it is the turn of `token`: it is the listener's, or a connection's.
pub open spec fn has_turn(conns: Set<usize>, token: usize) -> bool {
    token == LISTENER || conns.contains(token)
}

/// Whether `token` is the next of `ready` whose turn it is, with `rest` behind
/// it: all before it are neither the listener's nor a connection's.
pub open spec fn next_up(
    ready: Seq<usize>,
    rest: Seq<usize>,
    conns: Set<usize>,
    token: usize,
) -> bool {
    &&& has_turn(conns, token)
    &&& exists|n: int|
        {
            &&& 0 < n <= ready.len()
            &&& ready[n - 1] == token
            &&& forall|i: int| 0 <= i < n - 1 ==> !has_turn(conns, #[trigger] ready[i])
            &&& rest == #[trigger] ready.skip(n)
        }
}

/// Whether it is the turn of none of `ready`.
pub open spec fn none_up(ready: Seq<usize>, conns: Set<usize>) -> bool {
    forall|i: int| 0 <= i < ready.len() ==> !has_turn(conns, #[trigger] ready[i])
}

/// Whether `token` is the first of `to_remove` that has a connection, with `rest`
/// behind it.
pub open spec fn next_gone(
    to_remove: Seq<usize>,
    rest: Seq<usize>,
    conns: Set<usize>,
    token: usize,
) -> bool {
    &&& conns.contains(token)
    &&& exists|n: int|
        {
            &&& 0 < n <= to_remove.len()
            &&& to_remove[n - 1] == token
            &&& forall|i: int| 0 <= i < n - 1 ==> !conns.contains(#[trigger] to_remove[i])
            &&& rest == #[trigger] to_remove.skip(n)
        }
}

/// Whether `after` and `step` are what comes of a worker that has `due` to do:
/// first the ready sockets, in their order, then the connections that are done
/// with, and after all of them the next round. Nothing that is due is left out,
/// but for tokens without a socket.
pub open spec fn works_off(due: ServerState, after: ServerState, step: ServerStep) -> bool {
    &&& after.next_token == due.next_token
    &&& step.opened == 0
    &&& step.bits == 0
    &&& match after.phase {
        ServerPhase::Accepting => {
            &&& next_up(due.ready, after.ready, due.conns, LISTENER)
            &&& after.to_remove == due.to_remove
            &&& step.action is Accept
        },
        ServerPhase::Reading { token } => {
            &&& token != LISTENER
            &&& next_up(due.ready, after.ready, due.conns, token)
            &&& after.to_remove == due.to_remove
            &&& step.action == (ServerAction::Read { token })
        },
        ServerPhase::Removing => {
            &&& none_up(due.ready, due.conns) && after.ready.len() == 0
            &&& step.action matches ServerAction::Close { token } && next_gone(
                due.to_remove,
                after.to_remove,
                due.conns,
                token,
            )
        },
        ServerPhase::Polling => {
            &&& none_up(due.ready, due.conns) && after.ready.len() == 0
            &&& after.to_remove.len() == 0
            &&& forall|i: int|
                0 <= i < due.to_remove.len() ==> !due.conns.contains(#[trigger] due.to_remove[i])
            &&& step.action is Poll
        },
        ServerPhase::Registering { .. } => false,
    }
    &&& match step.action {
        ServerAction::Close { token } => after.conns == due.conns.remove(token) && step.closed == 1,
        _ => after.conns == due.conns && step.closed == 0,
    }
}

proof fn lemma_serve_works_off(due: ServerState)
    requires
        !due.conns.contains(LISTENER),
    ensures
        works_off(due, due.serve().0, due.serve().1),
    decreases due.ready.len(),
{
    if due.ready.len() == 0 {
        lemma_remove_works_off(due);
    } else if has_turn(due.conns, due.ready[0]) {
        assert(due.ready.skip(1) =~= due.ready.drop_first());
    } else {
        let rest = ServerState { ready: due.ready.drop_first(), ..due };
        lemma_serve_works_off(rest);
        let after = rest.serve().0;
        let token = match after.phase {
            ServerPhase::Reading { token } => token,
            _ => LISTENER,
        };
        if after.phase is Reading || after.phase is Accepting {
            let n = choose|n: int|
                {
                    &&& 0 < n <= rest.ready.len()
                    &&& rest.ready[n - 1] == token
                    &&& forall|i: int|
                        0 <= i < n - 1 ==> !has_turn(due.conns, #[trigger] rest.ready[i])
                    &&& after.ready == #[trigger] rest.ready.skip(n)
                };
            assert(due.ready.skip(n + 1) =~= rest.ready.skip(n));
            assert forall|i: int| 0 <= i < n implies !has_turn(
                due.conns,
                #[trigger] due.ready[i],
            ) by {
                if i > 0 {
                    assert(rest.ready[i - 1] == due.ready[i]);
                }
            }
        } else {
            assert forall|i: int| 0 <= i < due.ready.len() implies !has_turn(
                due.conns,
                #[trigger] due.ready[i],
            ) by {
                if i > 0 {
                    assert(rest.ready[i - 1] == due.ready[i]);
                }
            }
        }
    }
}

proof fn lemma_remove_works_off(due: ServerState)
    requires
        due.ready.len() == 0,
    ensures
        works_off(due, due.remove_finished().0, due.remove_finished().1),
    decreases due.to_remove.len(),
{
    if due.to_remove.len() > 0 {
        if due.conns.contains(due.to_remove[0]) {
            assert(due.to_remove.skip(1) =~= due.to_remove.drop_first());
        } else {
            let rest = ServerState { to_remove: due.to_remove.drop_first(), ..due };
            lemma_remove_works_off(rest);
            let (after, step) = rest.remove_finished();
            if let ServerAction::Close { token } = step.action {
                let n = choose|n: int|
                    {
                        &&& 0 < n <= rest.to_remove.len()
                        &&& rest.to_remove[n - 1] == token
                        &&& forall|i: int|
                            0 <= i < n - 1 ==> !due.conns.contains(#[trigger] rest.to_remove[i])
                        &&& after.to_remove == #[trigger] rest.to_remove.skip(n)
                    };
                assert(due.to_remove.skip(n + 1) =~= rest.to_remove.skip(n));
                assert forall|i: int| 0 <= i < n implies !due.conns.contains(
                    #[trigger] due.to_remove[i],
                ) by {
                    if i > 0 {
                        assert(rest.to_remove[i - 1] == due.to_remove[i]);
                    }
                }
            } else {
                assert forall|i: int| 0 <= i < due.to_remove.len() implies !due.conns.contains(
                    #[trigger] due.to_remove[i],
                ) by {
                    if i > 0 {
                        assert(rest.to_remove[i - 1] == due.to_remove[i]);
                    }
                }
            }
        }
    }
}

/// What a worker has to do once `event` has happened: new tokens are ready, or a
/// connection whose peer is done, or that broke, is to be removed.
pub open spec fn due_after(state: ServerState, event: ServerEvent) -> ServerState {
    match (state.phase, event) {
        (_, ServerEvent::Ready(tokens)) => ServerState { ready: tokens@, ..state },
        (ServerPhase::Reading { token }, ServerEvent::Received { .. }) => ServerState {
            to_remove: state.to_remove.push(token),
            ..state
        },
        (ServerPhase::Reading { token }, ServerEvent::ReceiveFailed { kind }) => if kind
            is WouldBlock {
            state
        } else {
            ServerState { to_remove: state.to_remove.push(token), ..state }
        },
        _ => state,
    }
}

/// Whatever comes of its actions, a worker does exactly this about it:
///
/// - a connection that was accepted gets the next token, and once it is
///   registered it is in the table, counts as opened, and the listener is asked
///   for another;
/// - a connection that data came from is read from again, eight bits are counted
///   for each byte, and nothing else changes;
/// - and in all other cases it works off what is due, leaving nothing out.
pub proof fn law_worker_works_off_what_is_due(state: ServerState, event: ServerEvent)
    requires
        state.inv(),
        state.expects(event),
    ensures
        ({
            let (after, step) = state.next(event);
            match (state.phase, event) {
                (ServerPhase::Accepting, ServerEvent::Accepted) => {
                    &&& step.action == (ServerAction::Register { token: state.next_token })
                    &&& after.phase == (ServerPhase::Registering { token: state.next_token })
                    &&& after.next_token == if state.next_token == usize::MAX {
                        1int
                    } else {
                        state.next_token + 1
                    }
                    &&& after.conns == state.conns
                    &&& after.ready == state.ready
                    &&& after.to_remove == state.to_remove
                    &&& step.opened == 0 && step.closed == 0 && step.bits == 0
                },
                (ServerPhase::Registering { token }, ServerEvent::Registered) => {
                    &&& step.action is Accept
                    &&& after == (ServerState {
                        conns: state.conns.insert(token),
                        phase: ServerPhase::Accepting,
                        ..state
                    })
                    &&& step.opened == 1 && step.closed == 0 && step.bits == 0
                },
                _ => if event matches ServerEvent::Received { bytes } && bytes > 0 {
                    &&& after == state
                    &&& state.phase matches ServerPhase::Reading { token } && step.action == (
                    ServerAction::Read { token })
                    &&& step.bits == 8 * event->bytes
                    &&& step.opened == 0 && step.closed == 0
                } else {
                    works_off(due_after(state, event), after, step)
                },
            }
        }),
{
    match (state.phase, event) {
        (ServerPhase::Polling, ServerEvent::Ready(tokens)) => {
            lemma_serve_works_off(ServerState { ready: tokens@, ..state });
        },
        (ServerPhase::Accepting, _) => {
            lemma_serve_works_off(state);
        },
        (ServerPhase::Reading { token }, _) => {
            lemma_serve_works_off(state);
            lemma_serve_works_off(ServerState { to_remove: state.to_remove.push(token), ..state });
        },
        (ServerPhase::Removing, _) => {
            lemma_remove_works_off(state);
        },
        _ => {},
    }
}

/// A new worker has no connection, and waits for sockets to become ready.
pub proof fn law_worker_starts_without_connections()
    ensures
        ({
            let state = ServerState::initial();
            &&& forall|token: usize| !#[trigger] state.conns.contains(token)
            &&& LISTENER == 0
            &&& state.next_token == 1
            &&& state.ready.len() == 0 && state.to_remove.len() == 0
            &&& state.phase is Polling
        }),
{
}

/// Those of `tokens` whose turn it is, in their order.
pub open spec fn in_turn(tokens: Seq<usize>, conns: Set<usize>) -> Seq<usize>
    decreases tokens.len(),
{
    if tokens.len() == 0 {
        Seq::empty()
    } else if has_turn(conns, tokens[0]) {
        seq![tokens[0]] + in_turn(tokens.drop_first(), conns)
    } else {
        in_turn(tokens.drop_first(), conns)
    }
}

/// The state after `events`, from `start` on.
pub open spec fn state_after(start: ServerState, events: Seq<ServerEvent>) -> ServerState
    decreases events.len(),
{
    if events.len() == 0 {
        start
    } else {
        state_after(start, events.drop_last()).next(events.last()).0
    }
}

/// The sockets whose turn came in the course of `events`, in that order. A
/// listener that gave a connection, and a connection that gave data, keeps its
/// turn.
pub open spec fn turns(start: ServerState, events: Seq<ServerEvent>) -> Seq<usize>
    decreases events.len(),
{
    if events.len() == 0 {
        Seq::empty()
    } else {
        let earlier = turns(start, events.drop_last());
        let keeps_turn = match events.last() {
            ServerEvent::Received { bytes } => bytes > 0,
            ServerEvent::Registered => true,
            _ => false,
        };
        match state_after(start, events.drop_last()).next(events.last()).1.action {
            ServerAction::Read { token } if !keeps_turn => earlier.push(token),
            ServerAction::Accept if !keeps_turn => earlier.push(LISTENER),
            _ => earlier,
        }
    }
}

/// Whether a worker is busy with a ready socket.
pub open spec fn is_serving(phase: ServerPhase) -> bool {
    phase is Accepting || phase is Registering || phase is Reading
}

/// Whether `events` are those of one round, from the moment that `tokens` became
/// ready for as long as they are being served, and no connection that is new in
/// the round is among `tokens`.
pub open spec fn is_round(
    start: ServerState,
    tokens: Seq<usize>,
    events: Seq<ServerEvent>,
) -> bool {
    &&& start.phase is Polling
    &&& start.inv()
    &&& events.len() > 0
    &&& events[0] matches ServerEvent::Ready(ready) && ready@ == tokens
    &&& forall|n: int|
        #![trigger events.take(n)]
        0 <= n < events.len() ==> {
            &&& state_after(start, events.take(n)).expects(events[n])
            &&& n > 0 ==> is_serving(state_after(start, events.take(n)).phase)
            &&& state_after(start, events.take(n)).phase matches ServerPhase::Registering { token }
                ==> !tokens.contains(token)
        }
}

proof fn lemma_in_turn_next(
    ready: Seq<usize>,
    rest: Seq<usize>,
    conns: Set<usize>,
    token: usize,
)
    requires
        next_up(ready, rest, conns, token),
    ensures
        in_turn(ready, conns) == seq![token] + in_turn(rest, conns),
        forall|other: usize| #[trigger] rest.contains(other) ==> ready.contains(other),
    decreases ready.len(),
{
    let n = choose|n: int|
        {
            &&& 0 < n <= ready.len()
            &&& ready[n - 1] == token
            &&& forall|i: int| 0 <= i < n - 1 ==> !has_turn(conns, #[trigger] ready[i])
            &&& rest == #[trigger] ready.skip(n)
        };
    assert forall|other: usize| #[trigger] rest.contains(other) implies ready.contains(other) by {
        let i = choose|i: int| 0 <= i < rest.len() && rest[i] == other;
        assert(ready[n + i] == other);
    }
    let behind = ready.drop_first();
    if n == 1 {
        assert(ready.skip(1) =~= behind);
    } else {
        assert(!has_turn(conns, ready[0]));
        assert(behind.skip(n - 1) =~= ready.skip(n));
        assert(behind[n - 2] == token);
        assert forall|i: int| 0 <= i < n - 2 implies !has_turn(conns, #[trigger] behind[i]) by {
            assert(behind[i] == ready[i + 1]);
        }
        lemma_in_turn_next(behind, rest, conns, token);
    }
}

proof fn lemma_in_turn_none(ready: Seq<usize>, conns: Set<usize>)
    requires
        none_up(ready, conns),
    ensures
        in_turn(ready, conns) == Seq::<usize>::empty(),
    decreases ready.len(),
{
    if ready.len() > 0 {
        let behind = ready.drop_first();
        assert(!has_turn(conns, ready[0]));
        assert forall|i: int| 0 <= i < behind.len() implies !has_turn(
            conns,
            #[trigger] behind[i],
        ) by {
            assert(behind[i] == ready[i + 1]);
        }
        lemma_in_turn_none(behind, conns);
    }
}

proof fn lemma_in_turn_same(tokens: Seq<usize>, a: Set<usize>, b: Set<usize>)
    requires
        forall|token: usize| #[trigger]
            tokens.contains(token) ==> (a.contains(token) <==> b.contains(token)),
    ensures
        in_turn(tokens, a) == in_turn(tokens, b),
    decreases tokens.len(),
{
    if tokens.len() > 0 {
        let behind = tokens.drop_first();
        assert(tokens.contains(tokens[0]));
        assert forall|token: usize| #[trigger] behind.contains(token) implies (a.contains(token)
            <==> b.contains(token)) by {
            let i = choose|i: int| 0 <= i < behind.len() && behind[i] == token;
            assert(tokens[i + 1] == token);
            assert(tokens.contains(token));
        }
        lemma_in_turn_same(behind, a, b);
    }
}

proof fn lemma_round(start: ServerState, tokens: Seq<usize>, events: Seq<ServerEvent>)
    requires
        is_round(start, tokens, events),
    ensures
        ({
            let state = state_after(start, events);
            &&& state.inv()
            &&& is_serving(state.phase) ==> {
                &&& turns(start, events) + in_turn(state.ready, start.conns) == in_turn(
                    tokens,
                    start.conns,
                )
                &&& forall|token: usize| #[trigger]
                    tokens.contains(token) ==> (state.conns.contains(token)
                        <==> start.conns.contains(token))
                &&& forall|token: usize| #[trigger]
                    state.ready.contains(token) ==> tokens.contains(token)
            }
            &&& !is_serving(state.phase) ==> turns(start, events) == in_turn(tokens, start.conns)
        }),
    decreases events.len(),
{
    let last = events.last();
    let earlier = events.drop_last();
    let before = state_after(start, earlier);
    let (after, step) = before.next(last);
    assert(earlier =~= events.take(events.len() - 1));
    assert(before.expects(last));
    if earlier.len() == 0 {
        assert(turns(start, earlier) =~= Seq::<usize>::empty());
    } else {
        assert forall|n: int|
            #![trigger earlier.take(n)]
            0 <= n < earlier.len() implies {
            &&& state_after(start, earlier.take(n)).expects(earlier[n])
            &&& n > 0 ==> is_serving(state_after(start, earlier.take(n)).phase)
            &&& state_after(start, earlier.take(n)).phase matches ServerPhase::Registering { token }
                ==> !tokens.contains(token)
        } by {
            assert(earlier.take(n) =~= events.take(n));
        }
        lemma_round(start, tokens, earlier);
    }
    law_inv_kept(before, last);
    law_worker_works_off_what_is_due(before, last);
    let due = due_after(before, last);
    let moves_on = match last {
        ServerEvent::Received { bytes } => bytes == 0,
        ServerEvent::Registered => false,
        ServerEvent::Accepted => false,
        _ => true,
    };
    if moves_on {
        assert(works_off(due, after, step));
        assert(due.conns == before.conns);
        lemma_in_turn_same(due.ready, due.conns, start.conns);
        match after.phase {
            ServerPhase::Reading { token } => {
                lemma_in_turn_next(due.ready, after.ready, due.conns, token);
                lemma_in_turn_same(after.ready, due.conns, start.conns);
            },
            ServerPhase::Accepting => {
                lemma_in_turn_next(due.ready, after.ready, due.conns, LISTENER);
                lemma_in_turn_same(after.ready, due.conns, start.conns);
            },
            _ => {
                lemma_in_turn_none(due.ready, due.conns);
            },
        }
        assert(turns(start, events) + in_turn(after.ready, start.conns) =~= in_turn(
            tokens,
            start.conns,
        ) || !is_serving(after.phase));
        assert(turns(start, events) =~= in_turn(tokens, start.conns) || is_serving(after.phase));
    } else {
        assert(after.ready == before.ready);
        assert(turns(start, events) == turns(start, earlier));
    }
}

/// In each round, every socket that became ready has its turn, the listener as
/// well as each connection, in the order in which they became ready, before the
/// worker takes down connections or waits for more to become ready.
pub proof fn law_every_ready_socket_has_its_turn(
    start: ServerState,
    tokens: Seq<usize>,
    events: Seq<ServerEvent>,
)
    requires
        is_round(start, tokens, events),
        !is_serving(state_after(start, events).phase),
    ensures
        turns(start, events) == in_turn(tokens, start.conns),
{
    lemma_round(start, tokens, events);
}

/// Whatever a worker asks for, it can be told of everything that may come of it:
/// of any sockets that are ready, of a connection that was accepted or not, of any
/// number of bytes that can be counted, and of any error.
pub proof fn law_outcomes_are_accepted(
    state: ServerState,
    event: ServerEvent,
    tokens: VecDeque<usize>,
    bytes: usize,
    kind: NetErrorKind,
)
    requires
        state.inv(),
        state.expects(event),
        8 * bytes <= usize::MAX,
    ensures
        ({
            let (after, step) = state.next(event);
            match step.action {
                ServerAction::Poll => after.expects(ServerEvent::Ready(tokens)),
                ServerAction::Accept => after.expects(ServerEvent::Accepted) && after.expects(
                    ServerEvent::AcceptFailed,
                ),
                ServerAction::Register { .. } => after.expects(ServerEvent::Registered),
                ServerAction::Read { .. } => after.expects(ServerEvent::Received { bytes })
                    && after.expects(ServerEvent::ReceiveFailed { kind }),
                ServerAction::Close { .. } => after.expects(ServerEvent::Closed),
            }
        }),
        ServerState::initial().expects(ServerEvent::Ready(tokens)),
{
    law_worker_works_off_what_is_due(state, event);
}

} // verus!
