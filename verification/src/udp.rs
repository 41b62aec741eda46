//! Datagram traffic: numbering what is sent, and counting what arrives and
//! what does not.
use crate::meter::{metered, Goal, Mode, RateMeter, Report, SendMeter, Transfer};
use crate::payload::{get_seq, put_seq, seq_of, with_seq, SEQ_LEN};
use vstd::prelude::*;

verus! {

/// What to do after a send.
#[derive(Clone, Copy, Debug, PartialEq, Eq, Structural)]
pub struct SendStep {
    /// The interval that ended, if one did.
    pub report: Option<Report>,
    /// Bits that were sent just now.
    pub bits: usize,
    /// Whether the run is over.
    pub done: bool,
}

/// A client that sends until it reaches its goal.
#[derive(Clone, Copy, Debug, PartialEq, Eq, Structural)]
pub struct SendRun {
    pub meter: SendMeter,
    pub goal: Goal,
    /// Buffers that were sent.
    pub writes: u64,
}

impl SendRun {
    pub open spec fn initial(goal: Goal) -> SendRun {
        SendRun { meter: SendMeter::initial(), goal, writes: 0 }
    }

    /// Whether one more buffer, of which `bytes` were sent, can be counted.
    pub open spec fn fits(self, bytes: usize) -> bool {
        self.meter.fits(bytes) && self.writes < u64::MAX
    }

    /// The run after `bytes` were sent up to second `secs`.
    pub open spec fn after(self, bytes: usize, secs: u64) -> SendRun {
        SendRun {
            meter: self.meter.after(bytes, secs),
            writes: (self.writes + 1) as u64,
            ..self
        }
    }

    pub open spec fn step(self, bytes: usize, secs: u64) -> SendStep {
        SendStep {
            report: self.meter.rate.report(bytes, secs),
            bits: (bytes * 8) as usize,
            done: self.goal.reached(secs, (self.writes + 1) as u64),
        }
    }

    /// Whether a buffer is to be sent at all. A run that is measured in time
    /// looks at the clock only once it has sent one; one that is measured in
    /// data may have none to send.
    pub open spec fn starts(self) -> bool {
        self.goal.mode is Time || self.writes < self.goal.duration
    }

    pub fn new(goal: Goal) -> (run: SendRun)
        ensures
            run == SendRun::initial(goal),
            run.meter.rate.inv(),
    {
        SendRun { meter: SendMeter::new(), goal, writes: 0 }
    }

    /// Whether one more buffer, of which `bytes` were sent, can be counted.
    pub fn has_room(&self, bytes: usize) -> (yes: bool)
        ensures
            yes == self.fits(bytes),
            yes <==> self.meter.total + self.meter.rate.pending + 8 * bytes <= usize::MAX
                && self.writes < u64::MAX,
    {
        self.meter.has_room(bytes) && self.writes < u64::MAX
    }

    /// Whether to send a first buffer. After each send `on_sent` says whether
    /// to send another.
    pub fn may_start(&self) -> (yes: bool)
        ensures
            yes == self.starts(),
            self.goal.mode is Time ==> yes,
            self.goal.mode is Data ==> (yes <==> self.writes < self.goal.duration),
    {
        match self.goal.mode {
            Mode::Time => true,
            Mode::Data => self.writes < self.goal.duration,
        }
    }

    /// Take note that `bytes` of a buffer were sent, and that `secs` seconds
    /// had then passed.
    pub fn on_sent(&mut self, bytes: usize, secs: u64) -> (step: SendStep)
        requires
            old(self).meter.rate.inv(),
            old(self).fits(bytes),
        ensures
            *final(self) == old(self).after(bytes, secs),
            step == old(self).step(bytes, secs),
            final(self).meter.rate.inv(),
    {
        self.writes = self.writes + 1;
        let report = self.meter.record(bytes, secs);
        SendStep { report, bits: bytes * 8, done: self.goal.is_reached(secs, self.writes) }
    }
}

/// The run after all of `sends`.
pub open spec fn sent(goal: Goal, sends: Seq<Transfer>) -> SendRun
    decreases sends.len(),
{
    if sends.len() == 0 {
        SendRun::initial(goal)
    } else {
        sent(goal, sends.drop_last()).after(sends.last().bytes, sends.last().secs)
    }
}

/// Whether a client sends another buffer after `sends`.
pub open spec fn sends_on(goal: Goal, sends: Seq<Transfer>) -> bool {
    if sends.len() == 0 {
        SendRun::initial(goal).starts()
    } else {
        !sent(goal, sends.drop_last()).step(sends.last().bytes, sends.last().secs).done
    }
}

/// Whether `sends` are all that a client sends: each of them is called for
/// after those before it, and no other is called for after them.
pub open spec fn is_whole_run(goal: Goal, sends: Seq<Transfer>) -> bool {
    &&& forall|n: int| 0 <= n < sends.len() ==> sends_on(goal, #[trigger] sends.take(n))
    &&& !sends_on(goal, sends)
}

proof fn lemma_writes(goal: Goal, sends: Seq<Transfer>)
    requires
        sends.len() <= u64::MAX,
    ensures
        sent(goal, sends).goal == goal,
        sent(goal, sends).writes == sends.len(),
    decreases sends.len(),
{
    if sends.len() > 0 {
        lemma_writes(goal, sends.drop_last());
    }
}

/// A run that is measured in data makes exactly as many buffer writes as it
/// was asked for, however long they take.
pub proof fn law_data_run_makes_its_writes(goal: Goal, sends: Seq<Transfer>)
    requires
        goal.mode is Data,
        is_whole_run(goal, sends),
    ensures
        sends.len() == goal.duration,
{
    if sends.len() > goal.duration {
        let enough = sends.take(goal.duration as int);
        assert(sends_on(goal, enough));
        if enough.len() > 0 {
            lemma_writes(goal, enough.drop_last());
        }
    } else if 0 < sends.len() {
        lemma_writes(goal, sends.drop_last());
    }
}

/// A run that is measured in time sends at least one buffer, and ends with the
/// first send after which as many seconds have passed as it was asked for.
pub proof fn law_timed_run_ends_in_time(goal: Goal, sends: Seq<Transfer>)
    requires
        goal.mode is Time,
        is_whole_run(goal, sends),
    ensures
        sends.len() > 0,
        sends.last().secs >= goal.duration,
        forall|i: int|
            0 <= i < sends.len() - 1 ==> (#[trigger] sends[i]).secs < goal.duration,
{
    lemma_goal_kept(goal, sends.drop_last());
    assert forall|i: int| 0 <= i < sends.len() - 1 implies (#[trigger] sends[i]).secs
        < goal.duration by {
        let upto = sends.take(i + 1);
        assert(sends_on(goal, upto));
        assert(upto.last() == sends[i]);
        lemma_goal_kept(goal, upto.drop_last());
    }
}

proof fn lemma_goal_kept(goal: Goal, sends: Seq<Transfer>)
    ensures
        sent(goal, sends).goal == goal,
    decreases sends.len(),
{
    if sends.len() > 0 {
        lemma_goal_kept(goal, sends.drop_last());
    }
}

pub open spec fn seq_after(seq: u64) -> u64 {
    if seq == u64::MAX {
        0
    } else {
        (seq + 1) as u64
    }
}

/// Numbers the datagrams of a client, from 0 on and around at the end of the
/// range.
#[derive(Clone, Copy, Debug, PartialEq, Eq, Structural)]
pub struct Sequencer {
    pub next: u64,
}

impl Sequencer {
    pub fn new() -> (sequencer: Sequencer)
        ensures
            sequencer == (Sequencer { next: 0 }),
    {
        Sequencer { next: 0 }
    }

    /// Number the datagram in `buf`.
    pub fn stamp(&mut self, buf: &mut [u8])
        requires
            old(buf)@.len() >= SEQ_LEN,
        ensures
            final(buf)@ == with_seq(old(buf)@, old(self).next),
            final(self).next == seq_after(old(self).next),
    {
        put_seq(buf, self.next);
        self.next = self.next.wrapping_add(1);
    }
}

/// Which sequence number comes next, and how many were passed over.
#[derive(Clone, Copy, Debug, PartialEq, Eq, Structural)]
pub struct LossTracker {
    pub loss: u64,
    pub next_expected: Option<u64>,
}

impl LossTracker {
    pub open spec fn initial() -> LossTracker {
        LossTracker { loss: 0, next_expected: None }
    }

    /// The number that is expected when `seq` arrives: the first to arrive is
    /// never early.
    pub open spec fn expected(self, seq: u64) -> u64 {
        match self.next_expected {
            Some(expected) => expected,
            None => seq,
        }
    }

    /// How many numbers `seq` passes over.
    pub open spec fn gap(self, seq: u64) -> int {
        if seq > self.expected(seq) {
            seq - self.expected(seq)
        } else {
            0
        }
    }

    /// Whether the numbers that `seq` passes over can be counted.
    pub open spec fn fits(self, seq: u64) -> bool {
        self.loss + self.gap(seq) <= u64::MAX
    }

    /// The tracker after `seq` arrived. Late and repeated numbers change
    /// nothing.
    pub open spec fn after(self, seq: u64) -> LossTracker {
        LossTracker {
            loss: (self.loss + self.gap(seq)) as u64,
            next_expected: Some(
                if seq_after(seq) > self.expected(seq) {
                    seq_after(seq)
                } else {
                    self.expected(seq)
                },
            ),
        }
    }

    /// Fewer numbers were passed over than come before the next one.
    pub open spec fn bounded(self) -> bool {
        match self.next_expected {
            Some(expected) => self.loss <= expected,
            None => self.loss == 0,
        }
    }

    pub fn new() -> (tracker: LossTracker)
        ensures
            tracker == LossTracker::initial(),
            tracker.bounded(),
    {
        LossTracker { loss: 0, next_expected: None }
    }

    /// Whether the numbers that `seq` passes over can be counted.
    pub fn has_room(&self, seq: u64) -> (yes: bool)
        ensures
            yes == self.fits(seq),
            self.next_expected is None ==> yes,
            self.next_expected matches Some(expected) ==> (yes <==> seq <= expected || self.loss + (
            seq - expected) <= u64::MAX),
    {
        let expected: u64 = self.next_expected.unwrap_or(seq);
        seq <= expected || seq - expected <= u64::MAX - self.loss
    }

    /// Take note of the arrival of `seq`.
    pub fn on_seq(&mut self, seq: u64)
        requires
            old(self).fits(seq),
        ensures
            *final(self) == old(self).after(seq),
    {
        let expected: u64 = self.next_expected.unwrap_or(seq);
        if seq > expected {
            self.loss = self.loss + (seq - expected);
        }
        let next: u64 = seq.wrapping_add(1);
        self.next_expected = Some(
            if next > expected {
                next
            } else {
                expected
            },
        );
    }
}

/// What a receiver tells at the end.
#[derive(Clone, Copy, Debug, PartialEq, Eq, Structural)]
pub struct Summary {
    /// Datagrams that arrived.
    pub rx: u64,
    /// Datagrams that did not.
    pub loss: u64,
    /// Bits that arrived.
    pub bits: u64,
}

/// The run ended without a single datagram.
#[derive(Clone, Copy, Debug, PartialEq, Eq, Structural)]
pub struct NothingReceived;

impl NothingReceived {
    pub fn message(&self) -> (text: String)
        ensures
            text@ == "received zero datagrams"@,
    {
        "received zero datagrams".to_owned()
    }
}

/// A receiver of datagrams.
#[derive(Clone, Copy, Debug, PartialEq, Eq, Structural)]
pub struct Receiver {
    pub rate: RateMeter,
    pub rx: u64,
    pub bits: u64,
    pub tracker: LossTracker,
}

impl Receiver {
    pub open spec fn initial() -> Receiver {
        Receiver {
            rate: RateMeter::initial(),
            rx: 0,
            bits: 0,
            tracker: LossTracker::initial(),
        }
    }

    /// Whether `datagram` can be counted.
    pub open spec fn fits(self, datagram: Seq<u8>) -> bool {
        &&& datagram.len() <= usize::MAX
        &&& self.rate.fits(datagram.len() as usize)
        &&& self.rx < u64::MAX
        &&& self.bits + datagram.len() * 8 <= u64::MAX
        &&& seq_of(datagram) matches Some(seq) ==> self.tracker.fits(seq)
    }

    /// The receiver after `datagram` arrived up to second `secs`. Datagrams
    /// that are too short for a sequence number count as received all the
    /// same.
    pub open spec fn after(self, datagram: Seq<u8>, secs: u64) -> Receiver {
        Receiver {
            rate: self.rate.after(datagram.len() as usize, secs),
            rx: (self.rx + 1) as u64,
            bits: (self.bits + datagram.len() * 8) as u64,
            tracker: match seq_of(datagram) {
                Some(seq) => self.tracker.after(seq),
                None => self.tracker,
            },
        }
    }

    /// What arrived and what did not.
    pub open spec fn spec_summary(self) -> Summary {
        Summary { rx: self.rx, loss: self.tracker.loss, bits: self.bits }
    }

    /// Whether the run succeeded: a run without a single datagram has failed.
    pub open spec fn spec_verdict(self) -> Result<(), NothingReceived> {
        if self.rx == 0 {
            Err(NothingReceived)
        } else {
            Ok(())
        }
    }

    pub fn new() -> (receiver: Receiver)
        ensures
            receiver == Receiver::initial(),
            receiver.rate.inv(),
    {
        Receiver { rate: RateMeter::new(), rx: 0, bits: 0, tracker: LossTracker::new() }
    }

    /// Whether `datagram` can be counted.
    pub fn has_room(&self, datagram: &[u8]) -> (yes: bool)
        ensures
            yes == self.fits(datagram@),
            yes <==> {
                &&& self.rate.pending + 8 * datagram@.len() <= usize::MAX
                &&& self.rx < u64::MAX
                &&& self.bits + 8 * datagram@.len() <= u64::MAX
                &&& seq_of(datagram@) matches Some(seq) ==> self.tracker.fits(seq)
            },
    {
        let bytes: usize = datagram.len();
        let countable: bool = self.rate.has_room(bytes) && self.rx < u64::MAX && bytes as u64
            <= u64::MAX / 8 && bytes as u64 * 8 <= u64::MAX - self.bits;
        match get_seq(datagram) {
            Some(seq) => countable && self.tracker.has_room(seq),
            None => countable,
        }
    }

    /// Take note of the arrival of `datagram`, and that `secs` seconds had
    /// then passed.
    pub fn on_datagram(&mut self, datagram: &[u8], secs: u64) -> (report: Option<Report>)
        requires
            old(self).rate.inv(),
            old(self).fits(datagram@),
        ensures
            *final(self) == old(self).after(datagram@, secs),
            report == old(self).rate.report(datagram@.len() as usize, secs),
            final(self).rate.inv(),
    {
        let bytes: usize = datagram.len();
        self.rx = self.rx + 1;
        self.bits = self.bits + bytes as u64 * 8;
        if let Some(seq) = get_seq(datagram) {
            self.tracker.on_seq(seq);
        }
        self.rate.record(bytes, secs)
    }

    /// What arrived and what did not.
    pub fn summary(&self) -> (summary: Summary)
        ensures
            summary == self.spec_summary(),
    {
        Summary { rx: self.rx, loss: self.tracker.loss, bits: self.bits }
    }

    /// A run without a single datagram has failed.
    pub fn verdict(&self) -> (verdict: Result<(), NothingReceived>)
        ensures
            verdict == self.spec_verdict(),
    {
        if self.rx == 0 {
            Err(NothingReceived)
        } else {
            Ok(())
        }
    }
}

/// Whether a receiver goes on after `elapsed` seconds. Without a duration it
/// runs until it is interrupted.
pub open spec fn receives_on(duration: Option<u64>, elapsed: u64) -> bool {
    duration is None || elapsed < duration->0
}

/// Whether a receiver goes on after `elapsed` seconds. Without a duration it
/// runs until it is interrupted.
pub fn keep_receiving(duration: Option<u64>, elapsed: u64) -> (yes: bool)
    ensures
        yes == receives_on(duration, elapsed),
{
    match duration {
        Some(limit) => elapsed < limit,
        None => true,
    }
}

/// The tracker after all of `arrivals`.
pub open spec fn track(arrivals: Seq<u64>) -> LossTracker
    decreases arrivals.len(),
{
    if arrivals.len() == 0 {
        LossTracker::initial()
    } else {
        track(arrivals.drop_last()).after(arrivals.last())
    }
}

/// Whether `seq` is larger than all of `earlier`.
pub open spec fn exceeds_all(earlier: Seq<u64>, seq: u64) -> bool {
    forall|i: int| 0 <= i < earlier.len() ==> #[trigger] earlier[i] < seq
}

/// How many of `arrivals` were neither late nor repeated: each of them is larger
/// than all that arrived before it.
pub open spec fn on_time(arrivals: Seq<u64>) -> nat
    decreases arrivals.len(),
{
    if arrivals.len() == 0 {
        0
    } else {
        on_time(arrivals.drop_last()) + if exceeds_all(arrivals.drop_last(), arrivals.last()) {
            1nat
        } else {
            0nat
        }
    }
}

/// As long as the sequence numbers do not run out, a number that arrives can
/// always be counted, whatever arrived before it.
pub proof fn law_loss_always_fits(tracker: LossTracker, seq: u64)
    requires
        tracker.bounded(),
    ensures
        tracker.fits(seq),
        seq < u64::MAX ==> tracker.after(seq).bounded(),
{
}

/// Whatever arrives, in whatever order: the next number is one past the
/// largest that arrived, and every number from the first to arrive up to it
/// either came in time or is counted as lost.
pub proof fn law_loss_counts_gaps(arrivals: Seq<u64>)
    requires
        arrivals.len() > 0,
        forall|i: int| 0 <= i < arrivals.len() ==> #[trigger] arrivals[i] < u64::MAX,
    ensures
        track(arrivals).bounded(),
        track(arrivals).next_expected is Some,
        forall|i: int|
            0 <= i < arrivals.len() ==> #[trigger] arrivals[i] < track(
                arrivals,
            ).next_expected->0,
        exists|i: int|
            0 <= i < arrivals.len() && #[trigger] arrivals[i] + 1 == track(
                arrivals,
            ).next_expected->0,
        track(arrivals).loss + on_time(arrivals) == track(arrivals).next_expected->0
            - arrivals[0],
    decreases arrivals.len(),
{
    let before = arrivals.drop_last();
    let seq = arrivals.last();
    if before.len() == 0 {
        assert(track(before) == LossTracker::initial());
        assert(on_time(before) == 0);
        assert(arrivals[0] + 1 == track(arrivals).next_expected->0);
    } else {
        assert forall|i: int| 0 <= i < before.len() implies #[trigger] before[i] < u64::MAX by {
            assert(before[i] == arrivals[i]);
        }
        law_loss_counts_gaps(before);
        let next = track(before).next_expected->0;
        let largest = choose|i: int| 0 <= i < before.len() && #[trigger] before[i] + 1 == next;
        assert(exceeds_all(before, seq) <==> seq >= next);
        if seq >= next {
            assert(arrivals[arrivals.len() - 1] + 1 == track(arrivals).next_expected->0);
        } else {
            assert(arrivals[largest] + 1 == track(arrivals).next_expected->0);
        }
        assert forall|i: int| 0 <= i < arrivals.len() implies #[trigger] arrivals[i] < track(
            arrivals,
        ).next_expected->0 by {
            if i < before.len() {
                assert(before[i] == arrivals[i]);
            }
        }
        assert(before[0] == arrivals[0]);
    }
}

/// When numbers arrive in growing order, exactly those that are missing
/// between the first and the last are counted as lost.
pub proof fn law_loss_of_ordered_arrivals(arrivals: Seq<u64>)
    requires
        arrivals.len() > 0,
        arrivals.last() < u64::MAX,
        forall|i: int, j: int| 0 <= i < j < arrivals.len() ==> arrivals[i] < arrivals[j],
    ensures
        track(arrivals).loss == arrivals.last() - arrivals[0] + 1 - arrivals.len(),
        track(arrivals).next_expected == Some((arrivals.last() + 1) as u64),
    decreases arrivals.len(),
{
    let before = arrivals.drop_last();
    if before.len() == 0 {
        assert(track(before) == LossTracker::initial());
    } else {
        law_loss_of_ordered_arrivals(before);
        assert(before.last() < arrivals.last());
        lemma_growing_span(before);
    }
}

proof fn lemma_growing_span(arrivals: Seq<u64>)
    requires
        arrivals.len() > 0,
        forall|i: int, j: int| 0 <= i < j < arrivals.len() ==> arrivals[i] < arrivals[j],
    ensures
        arrivals.last() - arrivals[0] + 1 >= arrivals.len(),
    decreases arrivals.len(),
{
    if arrivals.len() > 1 {
        lemma_growing_span(arrivals.drop_last());
    }
}

/// When everything arrives in the order it was numbered in, nothing is lost.
pub proof fn law_nothing_lost_in_order(first: u64, count: nat)
    requires
        count > 0,
        first + count <= u64::MAX,
    ensures
        track(Seq::new(count, |i: int| (first + i) as u64)).loss == 0,
{
    law_loss_of_ordered_arrivals(Seq::new(count, |i: int| (first + i) as u64));
}

/// The number that the sequencer gives to the datagram after `count` others.
pub open spec fn nth_seq(count: nat) -> u64
    decreases count,
{
    if count == 0 {
        0
    } else {
        seq_after(nth_seq((count - 1) as nat))
    }
}

/// Datagrams are numbered in the order they are sent in, from 0 on.
pub proof fn law_datagrams_are_numbered_in_order(count: nat)
    requires
        count <= u64::MAX,
    ensures
        nth_seq(count) == count,
    decreases count,
{
    if count > 0 {
        law_datagrams_are_numbered_in_order((count - 1) as nat);
    }
}

/// The receiver after the datagrams numbered `arrivals`, all with the payload
/// of `buf`, arrived one after the other, each up to the second in `secs`.
pub open spec fn receive_all(buf: Seq<u8>, arrivals: Seq<u64>, secs: Seq<u64>) -> Receiver
    decreases arrivals.len(),
{
    if arrivals.len() == 0 {
        Receiver::initial()
    } else {
        receive_all(buf, arrivals.drop_last(), secs.drop_last()).after(
            with_seq(buf, arrivals.last()),
            secs.last(),
        )
    }
}

proof fn lemma_stamped(buf: Seq<u8>, seq: u64) -> (datagram: Seq<u8>)
    requires
        buf.len() >= SEQ_LEN,
    ensures
        datagram == with_seq(buf, seq),
        datagram.len() == buf.len(),
        seq_of(datagram) == Some(seq),
{
    crate::payload::law_seq_read_back(buf, seq);
    crate::payload::law_seq_keeps_payload(buf, seq);
    with_seq(buf, seq)
}

proof fn lemma_receive(before: Receiver, datagram: Seq<u8>, seq: u64, secs: u64, n: int, len: int)
    requires
        seq_of(datagram) == Some(seq),
        datagram.len() == len,
        before.rx == n - 1,
        before.bits == (n - 1) * len * 8,
        0 < n,
        8 <= len,
        n * len * 8 <= u64::MAX,
    ensures
        before.after(datagram, secs).rx == n,
        before.after(datagram, secs).bits == n * len * 8,
        before.after(datagram, secs).tracker == before.tracker.after(seq),
{
    assert(n * len == (n - 1) * len + len && n <= n * len * 8) by (nonlinear_arith)
        requires
            n > 0,
            len >= 8,
    ;
}

/// A receiver counts every datagram that arrives and all of its bits, and
/// tracks exactly the numbers that the sender wrote into them.
pub proof fn law_receiver_sees_what_was_sent(buf: Seq<u8>, arrivals: Seq<u64>, secs: Seq<u64>)
    requires
        buf.len() >= SEQ_LEN,
        arrivals.len() == secs.len(),
        arrivals.len() * buf.len() * 8 <= u64::MAX,
    ensures
        receive_all(buf, arrivals, secs).rx == arrivals.len(),
        receive_all(buf, arrivals, secs).bits == arrivals.len() * buf.len() * 8,
        receive_all(buf, arrivals, secs).tracker == track(arrivals),
    decreases arrivals.len(),
{
    if arrivals.len() > 0 {
        let n = arrivals.len() as int;
        let len = buf.len() as int;
        assert((n - 1) * len * 8 <= n * len * 8) by (nonlinear_arith)
            requires
                len >= 0,
        ;
        law_receiver_sees_what_was_sent(buf, arrivals.drop_last(), secs.drop_last());
        let datagram = lemma_stamped(buf, arrivals.last());
        let before = receive_all(buf, arrivals.drop_last(), secs.drop_last());
        lemma_receive(before, datagram, arrivals.last(), secs.last(), n, len);
    } else {
        assert(arrivals.len() * buf.len() == 0) by (nonlinear_arith)
            requires
                arrivals.len() == 0,
        ;
    }
}

proof fn lemma_sent_meter(goal: Goal, sends: Seq<Transfer>)
    ensures
        sent(goal, sends).meter == metered(sends),
    decreases sends.len(),
{
    if sends.len() > 0 {
        lemma_sent_meter(goal, sends.drop_last());
    }
}

/// Whatever was sent before: a send counts eight bits for each byte, is reported
/// as it is metered, and is the last exactly if by then as many seconds have
/// passed, or as many buffers were sent, as the run was asked for.
pub proof fn law_send_ends_when_the_goal_is_reached(
    goal: Goal,
    sends: Seq<Transfer>,
    bytes: usize,
    secs: u64,
)
    requires
        sends.len() < u64::MAX,
        8 * bytes <= usize::MAX,
    ensures
        ({
            let step = sent(goal, sends).step(bytes, secs);
            &&& step.bits == 8 * bytes
            &&& step.report == crate::meter::report_at(
                sends.push(Transfer { bytes, secs }),
                sends.len() as int,
            )
            &&& goal.mode is Time ==> (step.done <==> secs >= goal.duration)
            &&& goal.mode is Data ==> (step.done <==> sends.len() + 1 >= goal.duration)
        }),
        sent(goal, sends).meter == metered(sends),
        sent(goal, sends).writes == sends.len(),
{
    lemma_writes(goal, sends);
    lemma_sent_meter(goal, sends);
    assert(sends.push(Transfer { bytes, secs }).take(sends.len() as int) =~= sends);
}

/// A receiver goes on for as long as it has no duration or has not reached it; it
/// fails exactly if nothing arrived; and what it tells is what it counted.
pub proof fn law_receiver_tells_what_it_counted(
    receiver: Receiver,
    duration: Option<u64>,
    elapsed: u64,
)
    ensures
        duration is None ==> receives_on(duration, elapsed),
        duration matches Some(limit) ==> (receives_on(duration, elapsed) <==> elapsed < limit),
        receiver.spec_verdict() is Ok <==> receiver.rx > 0,
        receiver.spec_summary().rx == receiver.rx,
        receiver.spec_summary().bits == receiver.bits,
        receiver.spec_summary().loss == receiver.tracker.loss,
{
}

/// Sequence numbers grow by one, and start over behind the last. A number that is
/// larger than expected adds what it passes over to what is lost, no other number
/// does, and what is expected next never falls back.
pub proof fn law_tracker_step(tracker: LossTracker, seq: u64)
    ensures
        seq < u64::MAX ==> seq_after(seq) == seq + 1,
        seq == u64::MAX ==> seq_after(seq) == 0,
        tracker.next_expected is None ==> tracker.gap(seq) == 0,
        tracker.next_expected matches Some(expected) ==> {
            &&& seq > expected ==> tracker.gap(seq) == seq - expected
            &&& seq <= expected ==> tracker.gap(seq) == 0
            &&& tracker.after(seq).next_expected matches Some(next) && next >= expected
            &&& seq < expected ==> tracker.after(seq) == (LossTracker {
                loss: tracker.loss,
                next_expected: Some(expected),
            })
            &&& expected <= seq < u64::MAX ==> tracker.after(seq).next_expected == Some(
                (seq + 1) as u64,
            )
            &&& seq == u64::MAX ==> tracker.after(seq).next_expected == Some(expected)
        },
        tracker.next_expected is None && seq < u64::MAX ==> tracker.after(seq).next_expected
            == Some((seq + 1) as u64),
        tracker.next_expected is None && seq == u64::MAX ==> tracker.after(seq).next_expected
            == Some(seq),
        tracker.fits(seq) <==> tracker.loss + tracker.gap(seq) <= u64::MAX,
        tracker.fits(seq) ==> tracker.after(seq).loss == tracker.loss + tracker.gap(seq),
{
}

/// A datagram that arrives counts as one, with eight bits for each of its bytes,
/// whether it is numbered or not; and only one that is numbered moves the tracker.
pub proof fn law_receiver_step(receiver: Receiver, datagram: Seq<u8>, secs: u64)
    requires
        receiver.fits(datagram),
    ensures
        receiver.after(datagram, secs).rx == receiver.rx + 1,
        receiver.after(datagram, secs).bits == receiver.bits + 8 * datagram.len(),
        datagram.len() < 8 ==> receiver.after(datagram, secs).tracker == receiver.tracker,
        datagram.len() >= 8 ==> (seq_of(datagram) matches Some(seq) && receiver.after(
            datagram,
            secs,
        ).tracker == receiver.tracker.after(seq)),
{
}

/// A new run, a new tracker and a new receiver have counted nothing.
pub proof fn law_counting_starts_at_nothing(goal: Goal)
    ensures
        SendRun::initial(goal).goal == goal,
        SendRun::initial(goal).writes == 0,
        SendRun::initial(goal).meter == metered(Seq::<Transfer>::empty()),
        SendRun::initial(goal).meter.total == 0,
        SendRun::initial(goal).meter.rate.pending == 0,
        LossTracker::initial().loss == 0,
        LossTracker::initial().next_expected is None,
        Receiver::initial().rx == 0,
        Receiver::initial().bits == 0,
        Receiver::initial().tracker == LossTracker::initial(),
        Receiver::initial().rate.pending == 0,
{
}

} // verus!
