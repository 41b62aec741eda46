//! Counting bits per second.
use vstd::prelude::*;

verus! {

/// The bits of one interval. Intervals are numbered from 0.
#[derive(Clone, Copy, Debug, PartialEq, Eq, Structural)]
pub struct Report {
    pub index: u64,
    pub bits: usize,
}

/// Gathers bits until the clock shows a new second.
#[derive(Clone, Copy, Debug, PartialEq, Eq, Structural)]
pub struct RateMeter {
    /// The second that was last reported.
    pub interval: u64,
    /// Bits since then.
    pub pending: usize,
    /// How many intervals were reported.
    pub count: u64,
}

impl RateMeter {
    pub open spec fn initial() -> RateMeter {
        RateMeter { interval: 0, pending: 0, count: 0 }
    }

    /// No more intervals were reported than seconds have passed.
    pub open spec fn inv(self) -> bool {
        self.count <= self.interval
    }

    /// Whether the bits of `bytes` more bytes can be counted.
    pub open spec fn fits(self, bytes: usize) -> bool {
        self.pending + bytes * 8 <= usize::MAX
    }

    /// Whether the interval ends when the clock shows `secs`.
    pub open spec fn due(self, secs: u64) -> bool {
        secs > self.interval
    }

    /// The meter after `bytes` were transferred up to second `secs`.
    pub open spec fn after(self, bytes: usize, secs: u64) -> RateMeter {
        if self.due(secs) {
            RateMeter { interval: secs, pending: 0, count: (self.count + 1) as u64 }
        } else {
            RateMeter { pending: (self.pending + bytes * 8) as usize, ..self }
        }
    }

    /// What is reported when `bytes` were transferred up to second `secs`.
    pub open spec fn report(self, bytes: usize, secs: u64) -> Option<Report> {
        if self.due(secs) {
            Some(Report { index: self.count, bits: (self.pending + bytes * 8) as usize })
        } else {
            None
        }
    }

    pub fn new() -> (meter: RateMeter)
        ensures
            meter == RateMeter::initial(),
            meter.inv(),
    {
        RateMeter { interval: 0, pending: 0, count: 0 }
    }

    /// Whether the bits of `bytes` more bytes can be counted.
    pub fn has_room(&self, bytes: usize) -> (yes: bool)
        ensures
            yes == self.fits(bytes),
            yes <==> self.pending + 8 * bytes <= usize::MAX,
    {
        bytes <= usize::MAX / 8 && bytes * 8 <= usize::MAX - self.pending
    }

    /// Count `bytes`, transferred up to second `secs`, and report the
    /// interval if it is over.
    pub fn record(&mut self, bytes: usize, secs: u64) -> (report: Option<Report>)
        requires
            old(self).inv(),
            old(self).fits(bytes),
        ensures
            *final(self) == old(self).after(bytes, secs),
            report == old(self).report(bytes, secs),
            final(self).inv(),
    {
        self.pending = self.pending + bytes * 8;
        if secs > self.interval {
            let report = Report { index: self.count, bits: self.pending };
            self.interval = secs;
            self.count = self.count + 1;
            self.pending = 0;
            Some(report)
        } else {
            None
        }
    }
}

/// A meter that also adds up the intervals it reported.
#[derive(Clone, Copy, Debug, PartialEq, Eq, Structural)]
pub struct SendMeter {
    pub rate: RateMeter,
    /// Bits of all intervals that were reported.
    pub total: usize,
}

impl SendMeter {
    pub open spec fn initial() -> SendMeter {
        SendMeter { rate: RateMeter::initial(), total: 0 }
    }

    pub open spec fn fits(self, bytes: usize) -> bool {
        self.total + self.rate.pending + bytes * 8 <= usize::MAX
    }

    /// The meter after `bytes` were sent up to second `secs`.
    pub open spec fn after(self, bytes: usize, secs: u64) -> SendMeter {
        SendMeter {
            rate: self.rate.after(bytes, secs),
            total: match self.rate.report(bytes, secs) {
                Some(report) => (self.total + report.bits) as usize,
                None => self.total,
            },
        }
    }

    pub fn new() -> (meter: SendMeter)
        ensures
            meter == SendMeter::initial(),
            meter.rate.inv(),
    {
        SendMeter { rate: RateMeter::new(), total: 0 }
    }

    /// Whether the bits of `bytes` more bytes can be counted.
    pub fn has_room(&self, bytes: usize) -> (yes: bool)
        ensures
            yes == self.fits(bytes),
            yes <==> self.total + self.rate.pending + 8 * bytes <= usize::MAX,
    {
        self.rate.has_room(bytes) && self.rate.pending + bytes * 8 <= usize::MAX - self.total
    }

    /// Count `bytes`, sent up to second `secs`, and report the interval if it
    /// is over.
    pub fn record(&mut self, bytes: usize, secs: u64) -> (report: Option<Report>)
        requires
            old(self).rate.inv(),
            old(self).fits(bytes),
        ensures
            *final(self) == old(self).after(bytes, secs),
            report == old(self).rate.report(bytes, secs),
            final(self).rate.inv(),
    {
        let report = self.rate.record(bytes, secs);
        if let Some(interval) = report {
            self.total = self.total + interval.bits;
        }
        report
    }
}

/// Whether the length of a run is given in time or in data.
#[derive(Clone, Copy, Debug, PartialEq, Eq, Structural)]
pub enum Mode {
    Time,
    Data,
}

/// How long a client sends: for `duration` seconds, or for `duration` buffer
/// writes.
#[derive(Clone, Copy, Debug, PartialEq, Eq, Structural)]
pub struct Goal {
    pub mode: Mode,
    pub duration: u64,
}

impl Goal {
    /// Whether the goal is reached after `secs` seconds and `writes` buffer
    /// writes.
    pub open spec fn reached(self, secs: u64, writes: u64) -> bool {
        match self.mode {
            Mode::Time => secs >= self.duration,
            Mode::Data => writes >= self.duration,
        }
    }

    /// Whether the goal is reached after `secs` seconds and `writes` buffer
    /// writes.
    pub fn is_reached(&self, secs: u64, writes: u64) -> (yes: bool)
        ensures
            yes == self.reached(secs, writes),
            self.mode is Time ==> (yes <==> secs >= self.duration),
            self.mode is Data ==> (yes <==> writes >= self.duration),
    {
        match self.mode {
            Mode::Time => secs >= self.duration,
            Mode::Data => writes >= self.duration,
        }
    }
}

/// One transfer: how many bytes, and what the clock showed after it.
pub struct Transfer {
    pub bytes: usize,
    pub secs: u64,
}

pub open spec fn bytes_in(transfers: Seq<Transfer>) -> nat
    decreases transfers.len(),
{
    if transfers.len() == 0 {
        0
    } else {
        bytes_in(transfers.drop_last()) + transfers.last().bytes as nat
    }
}

/// The meter after all of `transfers`.
pub open spec fn metered(transfers: Seq<Transfer>) -> SendMeter
    decreases transfers.len(),
{
    if transfers.len() == 0 {
        SendMeter::initial()
    } else {
        metered(transfers.drop_last()).after(transfers.last().bytes, transfers.last().secs)
    }
}

/// What was reported in the course of `transfers`.
pub open spec fn reports(transfers: Seq<Transfer>) -> Seq<Report>
    decreases transfers.len(),
{
    if transfers.len() == 0 {
        Seq::empty()
    } else {
        let earlier = reports(transfers.drop_last());
        match metered(transfers.drop_last()).rate.report(
            transfers.last().bytes,
            transfers.last().secs,
        ) {
            Some(report) => earlier.push(report),
            None => earlier,
        }
    }
}

pub open spec fn bits_in(reports: Seq<Report>) -> nat
    decreases reports.len(),
{
    if reports.len() == 0 {
        0
    } else {
        bits_in(reports.drop_last()) + reports.last().bits as nat
    }
}

/// No bit is lost or counted twice: what was transferred is what the reported
/// intervals add up to and what is pending, and the total is what was
/// reported. Intervals are numbered without a gap.
pub proof fn law_meter_counts_every_bit(transfers: Seq<Transfer>)
    requires
        8 * bytes_in(transfers) <= usize::MAX,
    ensures
        metered(transfers).rate.inv(),
        metered(transfers).total + metered(transfers).rate.pending == 8 * bytes_in(transfers),
        metered(transfers).total == bits_in(reports(transfers)),
        metered(transfers).rate.count == reports(transfers).len(),
        forall|i: int|
            0 <= i < reports(transfers).len() ==> (#[trigger] reports(transfers)[i]).index == i,
    decreases transfers.len(),
{
    if transfers.len() > 0 {
        law_meter_counts_every_bit(transfers.drop_last());
        let meter = metered(transfers.drop_last());
        let earlier = reports(transfers.drop_last());
        if let Some(report) = meter.rate.report(transfers.last().bytes, transfers.last().secs) {
            assert(earlier.push(report).drop_last() =~= earlier);
        }
    }
}

/// Whether the rate of each stream is shown: with many streams only the sum
/// is.
pub fn show_stream_rates(parallel: usize) -> (yes: bool)
    ensures
        yes == (parallel <= 8),
{
    parallel <= 8
}

pub open spec fn sum_of(totals: Seq<usize>) -> nat
    decreases totals.len(),
{
    if totals.len() == 0 {
        0
    } else {
        sum_of(totals.drop_last()) + totals.last() as nat
    }
}

proof fn lemma_prefix_sum(totals: Seq<usize>, i: int)
    requires
        0 <= i <= totals.len(),
    ensures
        sum_of(totals.take(i)) <= sum_of(totals),
    decreases totals.len() - i,
{
    if i == totals.len() {
        assert(totals.take(i) =~= totals);
    } else {
        lemma_prefix_sum(totals, i + 1);
        assert(totals.take(i + 1).drop_last() =~= totals.take(i));
    }
}

/// The bits that all streams sent together, or nothing if there are more than
/// can be counted.
pub fn combined_total(totals: &Vec<usize>) -> (sum: Option<usize>)
    ensures
        sum is Some <==> sum_of(totals@) <= usize::MAX,
        sum matches Some(bits) ==> bits == sum_of(totals@),
{
    let mut sum: usize = 0;
    let mut i: usize = 0;
    proof {
        assert(totals@.take(0) =~= Seq::empty());
    }
    while i < totals.len()
        invariant
            i <= totals@.len(),
            sum == sum_of(totals@.take(i as int)),
        decreases totals@.len() - i,
    {
        proof {
            assert(totals@.take(i + 1).drop_last() =~= totals@.take(i as int));
            lemma_prefix_sum(totals@, i + 1);
        }
        match sum.checked_add(totals[i]) {
            Some(more) => {
                sum = more;
            },
            None => {
                return None;
            },
        }
        i = i + 1;
    }
    proof {
        assert(totals@.take(i as int) =~= totals@);
    }
    Some(sum)
}

/// What is reported with the `i`th of `transfers`.
pub open spec fn report_at(transfers: Seq<Transfer>, i: int) -> Option<Report> {
    metered(transfers.take(i)).rate.report(transfers[i].bytes, transfers[i].secs)
}

proof fn lemma_interval(transfers: Seq<Transfer>)
    ensures
        forall|j: int|
            0 <= j < transfers.len() ==> (#[trigger] transfers[j]).secs <= metered(
                transfers,
            ).rate.interval,
        metered(transfers).rate.interval == 0 || exists|j: int|
            0 <= j < transfers.len() && (#[trigger] transfers[j]).secs == metered(
                transfers,
            ).rate.interval,
    decreases transfers.len(),
{
    if transfers.len() > 0 {
        let before = transfers.drop_last();
        lemma_interval(before);
        let interval = metered(transfers).rate.interval;
        assert forall|j: int| 0 <= j < transfers.len() implies (#[trigger] transfers[j]).secs
            <= interval by {
            if j < before.len() {
                assert(before[j].secs <= metered(before).rate.interval);
            }
        }
        if interval != 0 {
            if transfers.last().secs == interval {
                assert(transfers[transfers.len() - 1].secs == interval);
            } else {
                let j = choose|j: int|
                    0 <= j < before.len() && (#[trigger] before[j]).secs == metered(
                        before,
                    ).rate.interval;
                assert(transfers[j].secs == interval);
            }
        }
    }
}

/// A transfer ends an interval exactly if the clock shows a later second after
/// it than after all transfers before it. With it, every bit that was
/// transferred so far has been reported, and none is pending; its report is
/// numbered by the reports before it.
pub proof fn law_each_new_second_is_reported(transfers: Seq<Transfer>, i: int)
    requires
        0 <= i < transfers.len(),
        8 * bytes_in(transfers.take(i + 1)) <= usize::MAX,
    ensures
        report_at(transfers, i) is Some <==> transfers[i].secs > 0 && forall|j: int|
            0 <= j < i ==> (#[trigger] transfers[j]).secs < transfers[i].secs,
        report_at(transfers, i) is Some ==> {
            &&& metered(transfers.take(i + 1)).total == 8 * bytes_in(transfers.take(i + 1))
            &&& metered(transfers.take(i + 1)).rate.pending == 0
            &&& report_at(transfers, i)->0.bits == 8 * bytes_in(transfers.take(i + 1)) - bits_in(
                reports(transfers.take(i)),
            )
            &&& report_at(transfers, i)->0.index == reports(transfers.take(i)).len()
        },
        report_at(transfers, i) is None ==> metered(transfers.take(i + 1)).total == metered(
            transfers.take(i),
        ).total,
{
    let before = transfers.take(i);
    let upto = transfers.take(i + 1);
    assert(upto.drop_last() =~= before);
    assert(upto.last() == transfers[i]);
    lemma_interval(before);
    law_meter_counts_every_bit(upto);
    law_meter_counts_every_bit(before);
    let secs = transfers[i].secs;
    if secs > metered(before).rate.interval {
        assert forall|j: int| 0 <= j < i implies (#[trigger] transfers[j]).secs < secs by {
            assert(before[j].secs <= metered(before).rate.interval);
        }
    } else if secs > 0 {
        let j = choose|j: int|
            0 <= j < before.len() && (#[trigger] before[j]).secs == metered(before).rate.interval;
        assert(transfers[j].secs >= secs);
    }
}

/// The total of one stream is its own, and that of some streams and others is
/// that of the ones and that of the others.
pub proof fn law_totals_add_up(a: Seq<usize>, b: Seq<usize>, one: usize)
    ensures
        sum_of(seq![one]) == one,
        sum_of(a + b) == sum_of(a) + sum_of(b),
    decreases b.len(),
{
    assert(seq![one].drop_last() =~= Seq::<usize>::empty());
    assert(sum_of(Seq::<usize>::empty()) == 0);
    if b.len() == 0 {
        assert(a + b =~= a);
    } else {
        assert((a + b).drop_last() =~= a + b.drop_last());
        law_totals_add_up(a, b.drop_last(), one);
    }
}

/// A new meter has counted nothing and reported nothing.
pub proof fn law_meter_starts_at_nothing()
    ensures
        RateMeter::initial().interval == 0,
        RateMeter::initial().pending == 0,
        RateMeter::initial().count == 0,
        SendMeter::initial().rate == RateMeter::initial(),
        SendMeter::initial().total == 0,
{
}

} // verus!
