//! What is told once a second about the counters that all streams share.
use crate::clock::{left_of, time_left, Span};
use crate::meter::{Goal, Mode};
use vstd::prelude::*;

verus! {

/// By how much a counter moved from `last` to `current`. Counters wrap around
/// at the end of their range.
pub open spec fn moved(last: usize, current: usize) -> usize {
    if current >= last {
        (current - last) as usize
    } else {
        (current - last + usize::MAX + 1) as usize
    }
}

/// Reads a running counter and tells the difference to the last reading.
#[derive(Clone, Copy, Debug, PartialEq, Eq, Structural)]
pub struct CounterReader {
    pub last: usize,
}

impl CounterReader {
    /// A reader for a counter that starts at 0.
    pub fn new() -> (reader: CounterReader)
        ensures
            reader == (CounterReader { last: 0 }),
    {
        CounterReader { last: 0 }
    }

    /// By how much the counter moved since the last reading, now that it
    /// shows `current`.
    pub fn observe(&mut self, current: usize) -> (bits: usize)
        ensures
            bits == moved(old(self).last, current),
            final(self).last == current,
    {
        let bits: usize = current.wrapping_sub(self.last);
        self.last = current;
        bits
    }
}

/// What a server tells about one second. Reports are numbered from 0.
#[derive(Clone, Copy, Debug, PartialEq, Eq, Structural)]
pub struct ServerReport {
    pub index: u64,
    /// Bits that were received in that second.
    pub bits: usize,
    /// Connections at its end.
    pub conn: usize,
}

/// Numbers the reports of a server, and passes over seconds in which nothing
/// happened.
#[derive(Clone, Copy, Debug, PartialEq, Eq, Structural)]
pub struct ActivityLog {
    pub count: u64,
}

/// Whether a second with `bits` transferred and `conn` connections is worth
/// telling.
pub open spec fn worth_telling(bits: usize, conn: usize) -> bool {
    bits != 0 || conn != 0
}

impl ActivityLog {
    pub fn new() -> (log: ActivityLog)
        ensures
            log == (ActivityLog { count: 0 }),
    {
        ActivityLog { count: 0 }
    }

    pub open spec fn after(self, bits: usize, conn: usize) -> ActivityLog {
        if worth_telling(bits, conn) {
            ActivityLog { count: (self.count + 1) as u64 }
        } else {
            self
        }
    }

    pub open spec fn report(self, bits: usize, conn: usize) -> Option<ServerReport> {
        if worth_telling(bits, conn) {
            Some(ServerReport { index: self.count, bits, conn })
        } else {
            None
        }
    }

    /// The report for a second, unless it was idle.
    pub fn note(&mut self, bits: usize, conn: usize) -> (report: Option<ServerReport>)
        requires
            old(self).count < u64::MAX,
        ensures
            *final(self) == old(self).after(bits, conn),
            report == old(self).report(bits, conn),
    {
        if bits == 0 && conn == 0 {
            return None;
        }
        let index: u64 = self.count;
        self.count = index + 1;
        Some(ServerReport { index, bits, conn })
    }
}

/// The reporter of a server that runs until it is interrupted.
#[derive(Clone, Copy, Debug, PartialEq, Eq, Structural)]
pub struct ServerReporter {
    pub counter: CounterReader,
    pub log: ActivityLog,
    /// The second at which the next report is due.
    pub tick: u64,
}

impl ServerReporter {
    /// Fewer reports were made than seconds have passed.
    pub open spec fn inv(self) -> bool {
        self.log.count < self.tick
    }

    pub open spec fn initial() -> ServerReporter {
        ServerReporter {
            counter: CounterReader { last: 0 },
            log: ActivityLog { count: 0 },
            tick: 1,
        }
    }

    /// The reporter after a tick at which the counters showed `current` bits
    /// and `conn` connections.
    pub open spec fn after(self, current: usize, conn: usize) -> ServerReporter {
        ServerReporter {
            counter: CounterReader { last: current },
            log: self.log.after(moved(self.counter.last, current), conn),
            tick: (self.tick + 1) as u64,
        }
    }

    /// What is told at such a tick.
    pub open spec fn report(self, current: usize, conn: usize) -> Option<ServerReport> {
        self.log.report(moved(self.counter.last, current), conn)
    }

    pub fn new() -> (reporter: ServerReporter)
        ensures
            reporter == ServerReporter::initial(),
            reporter.inv(),
    {
        ServerReporter { counter: CounterReader::new(), log: ActivityLog::new(), tick: 1 }
    }

    /// How long to sleep until the next report is due, if it is not yet.
    pub fn pause(&self, elapsed: Span) -> (sleep: Option<Span>)
        requires
            elapsed.wf(),
        ensures
            sleep == left_of(elapsed, self.tick),
            sleep is Some <==> elapsed.secs < self.tick,
            sleep matches Some(span) ==> (elapsed.secs + span.secs) * 1_000_000_000 + elapsed.nanos
                + span.nanos == self.tick * 1_000_000_000,
    {
        time_left(elapsed, self.tick)
    }

    /// Take the readings of the bits counter and of the number of
    /// connections, and report on the second unless it was idle.
    pub fn observe(&mut self, current: usize, conn: usize) -> (report: Option<ServerReport>)
        requires
            old(self).inv(),
            old(self).tick < u64::MAX,
        ensures
            final(self).inv(),
            *final(self) == old(self).after(current, conn),
            report == old(self).report(current, conn),
    {
        self.tick = self.tick + 1;
        let bits: usize = self.counter.observe(current);
        self.log.note(bits, conn)
    }
}

/// What the counters show at one tick.
pub struct Reading {
    pub bits: usize,
    pub conn: usize,
}

/// The reporter after all of `readings`.
pub open spec fn reporter_after(readings: Seq<Reading>) -> ServerReporter
    decreases readings.len(),
{
    if readings.len() == 0 {
        ServerReporter::initial()
    } else {
        reporter_after(readings.drop_last()).after(readings.last().bits, readings.last().conn)
    }
}

/// What is told at tick `k`, counted from 0.
pub open spec fn told_at(readings: Seq<Reading>, k: int) -> Option<ServerReport> {
    reporter_after(readings.take(k)).report(readings[k].bits, readings[k].conn)
}

/// All that is told in the course of `readings`.
pub open spec fn all_told(readings: Seq<Reading>) -> Seq<ServerReport>
    decreases readings.len(),
{
    if readings.len() == 0 {
        Seq::empty()
    } else {
        match told_at(readings, readings.len() - 1) {
            Some(report) => all_told(readings.drop_last()).push(report),
            None => all_told(readings.drop_last()),
        }
    }
}

/// What the bits counter showed before tick `k`.
pub open spec fn shown_before(readings: Seq<Reading>, k: int) -> usize {
    if k == 0 {
        0
    } else {
        readings[k - 1].bits
    }
}

/// By how much the bits counter moved up to tick `k`.
pub open spec fn bits_at(readings: Seq<Reading>, k: int) -> usize {
    moved(shown_before(readings, k), readings[k].bits)
}

proof fn lemma_reporter(readings: Seq<Reading>)
    requires
        readings.len() < u64::MAX,
    ensures
        reporter_after(readings).inv(),
        reporter_after(readings).tick == readings.len() + 1,
        reporter_after(readings).log.count == all_told(readings).len(),
        reporter_after(readings).counter.last == (if readings.len() == 0 {
            0
        } else {
            readings.last().bits
        }),
        forall|i: int|
            0 <= i < all_told(readings).len() ==> (#[trigger] all_told(readings)[i]).index == i,
    decreases readings.len(),
{
    if readings.len() > 0 {
        lemma_reporter(readings.drop_last());
        assert(readings.take(readings.len() - 1) =~= readings.drop_last());
    }
}

/// Whatever the counters show from tick to tick: a tick is told of exactly if
/// the bits moved or there are connections, with the bits by which they moved
/// and the connections that there are; and what is told is numbered 0, 1, 2 and
/// so on, without a gap, silent ticks taking no number.
pub proof fn law_server_reports_are_numbered(readings: Seq<Reading>)
    requires
        readings.len() < u64::MAX,
    ensures
        reporter_after(readings).inv(),
        reporter_after(readings).tick == readings.len() + 1,
        forall|k: int|
            0 <= k < readings.len() ==> #[trigger] told_at(readings, k) == (if readings[k].bits
                != shown_before(readings, k) || readings[k].conn != 0 {
                Some(
                    ServerReport {
                        index: all_told(readings.take(k)).len() as u64,
                        bits: bits_at(readings, k),
                        conn: readings[k].conn,
                    },
                )
            } else {
                None
            }),
        forall|i: int|
            0 <= i < all_told(readings).len() ==> (#[trigger] all_told(readings)[i]).index == i,
{
    lemma_reporter(readings);
    assert forall|k: int| 0 <= k < readings.len() implies #[trigger] told_at(readings, k) == (
    if readings[k].bits != shown_before(readings, k) || readings[k].conn != 0 {
        Some(
            ServerReport {
                index: all_told(readings.take(k)).len() as u64,
                bits: bits_at(readings, k),
                conn: readings[k].conn,
            },
        )
    } else {
        None
    }) by {
        lemma_reporter(readings.take(k));
    }
}

/// Whether the reporter of a client tells of second `c` (numbered from 0): of
/// each second that the run was asked for, and of a run that is measured in
/// data for as long as it lasts.
pub fn reports_on(goal: Goal, c: u64) -> (yes: bool)
    ensures
        yes == (goal.mode is Data || c < goal.duration),
{
    match goal.mode {
        Mode::Time => c < goal.duration,
        Mode::Data => true,
    }
}

/// How long the reporter of a client sleeps before it reports on second
/// `second` (numbered from 0), if that second is not yet over.
pub fn client_pause(elapsed: Span, second: u64) -> (sleep: Option<Span>)
    requires
        elapsed.wf(),
        second < u64::MAX,
    ensures
        sleep == left_of(elapsed, (second + 1) as u64),
        sleep is Some <==> elapsed.secs <= second,
        sleep matches Some(span) ==> (elapsed.secs + span.secs) * 1_000_000_000 + elapsed.nanos
            + span.nanos == (second + 1) * 1_000_000_000,
{
    time_left(elapsed, second + 1)
}

/// What was told, added up, after `readings` of a counter that started at 0.
pub open spec fn told(readings: Seq<usize>) -> int
    decreases readings.len(),
{
    if readings.len() == 0 {
        0
    } else {
        told(readings.drop_last()) + moved(last_reading(readings.drop_last()), readings.last())
    }
}

pub open spec fn last_reading(readings: Seq<usize>) -> usize {
    if readings.len() == 0 {
        0
    } else {
        readings.last()
    }
}

/// The reports of a counter add up to the counter, up to its wrapping around.
pub proof fn law_reports_add_up(readings: Seq<usize>)
    ensures
        told(readings) % (usize::MAX + 1) == last_reading(readings),
    decreases readings.len(),
{
    let m = usize::MAX + 1;
    if readings.len() == 0 {
        vstd::arithmetic::div_mod::lemma_small_mod(0, m as nat);
    } else {
        law_reports_add_up(readings.drop_last());
        let before = told(readings.drop_last());
        let now = readings.last() as int;
        vstd::arithmetic::div_mod::lemma_fundamental_div_mod(before, m);
        let q = before / m;
        vstd::arithmetic::div_mod::lemma_small_mod(now as nat, m as nat);
        if told(readings) == m * q + now {
            vstd::arithmetic::div_mod::lemma_mod_multiples_vanish(q, now, m);
        } else {
            assert(m * q + now + m == m * (q + 1) + now) by (nonlinear_arith);
            vstd::arithmetic::div_mod::lemma_mod_multiples_vanish(q + 1, now, m);
        }
    }
}

/// As long as a counter does not wrap around, its reports add up to it.
pub proof fn law_reports_of_growing_counter(readings: Seq<usize>)
    requires
        forall|i: int, j: int| 0 <= i <= j < readings.len() ==> readings[i] <= readings[j],
    ensures
        told(readings) == last_reading(readings),
    decreases readings.len(),
{
    if readings.len() > 0 {
        law_reports_of_growing_counter(readings.drop_last());
    }
}

} // verus!
