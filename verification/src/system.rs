//! CPU and memory load: from raw readings to the histories on screen.

use std::collections::VecDeque;

use vstd::prelude::*;

use crate::render::{Row, RowModel};

verus! {

/// Samples kept per chart. One per tick, so at one tick a second this is also
/// the number of seconds of history on screen.
pub const HISTORY_LEN: usize = 60;

/// Display slots the system block occupies.
pub const LINE_COUNT: usize = 2;

/// A percentage, clamped.
pub open spec fn clamped(percent: u32) -> u32 {
    if percent < 100 {
        percent
    } else {
        100
    }
}

/// A history after one more sample: the oldest makes room for the newest.
pub open spec fn pushed(samples: Seq<u32>, percent: u32) -> Seq<u32> {
    if samples.len() == HISTORY_LEN {
        samples.skip(1).push(clamped(percent))
    } else {
        samples.push(clamped(percent))
    }
}

/// Whether a sequence can be a history.
pub open spec fn is_history(samples: Seq<u32>) -> bool {
    &&& samples.len() <= HISTORY_LEN
    &&& forall|i: int| 0 <= i < samples.len() ==> #[trigger] samples[i] <= 100
}

/// The newest sample of a history.
pub open spec fn newest(samples: Seq<u32>) -> Option<u32> {
    if samples.len() > 0 {
        Some(samples.last())
    } else {
        None
    }
}

/// A load history, oldest sample first.
#[derive(Debug)]
pub struct History {
    samples: VecDeque<u32>,
}

impl View for History {
    type V = Seq<u32>;

    closed spec fn view(&self) -> Seq<u32> {
        self.samples@
    }
}

impl Default for History {
    fn default() -> (h: Self)
        ensures
            h@ == Seq::<u32>::empty(),
            h.wf(),
    {
        History { samples: VecDeque::new() }
    }
}

impl History {
    /// A history never grows past its length and holds percentages only.
    pub open spec fn wf(self) -> bool {
        is_history(self@)
    }

    /// Adds the newest sample.
    pub fn push(&mut self, percent: u32)
        ensures
            old(self).wf() ==> final(self).wf(),
            final(self)@ == pushed(old(self)@, percent),
    {
        if self.samples.len() == HISTORY_LEN {
            let _ = self.samples.pop_front();
            assert(self.samples@ =~= old(self)@.skip(1));
        }
        self.samples.push_back(percent.min(100));
    }

    /// The newest sample.
    pub fn latest(&self) -> (percent: Option<u32>)
        ensures
            percent == newest(self@),
    {
        if self.samples.len() == 0 {
            None
        } else {
            Some(self.samples[self.samples.len() - 1])
        }
    }

    /// Oldest first, so the renderer can walk it left to right.
    pub fn snapshot(&self) -> (samples: Vec<u32>)
        ensures
            samples@ == self@,
    {
        let mut samples: Vec<u32> = Vec::new();
        let mut i: usize = 0;
        while i < self.samples.len()
            invariant
                i <= self@.len(),
                samples@ == self@.take(i as int),
            decreases self@.len() - i,
        {
            samples.push(self.samples[i]);
            assert(self@.take(i + 1) =~= self@.take(i as int).push(self@[i as int]));
            i = i + 1;
        }
        assert(self@.take(self@.len() as int) =~= self@);
        samples
    }

    /// The chart of this history.
    pub fn row(&self, label: &'static str) -> (row: Row)
        ensures
            row@ == chart(label@, self@),
    {
        Row::Graph {
            label,
            percent: self.latest(),
            history: self.snapshot(),
            capacity: HISTORY_LEN,
        }
    }
}

/// The chart of a history.
pub open spec fn chart(label: Seq<char>, samples: Seq<u32>) -> RowModel {
    RowModel::Graph { label, percent: newest(samples), history: samples, capacity: HISTORY_LEN }
}

/// A 64-bit time in two halves.
#[derive(Clone, Copy, Debug, PartialEq, Eq, Structural)]
pub struct FileTime {
    pub high: u32,
    pub low: u32,
}

/// How long the processors have been idle, in the kernel and in user code.
/// Kernel time includes idle time; user time does not.
#[derive(Clone, Copy, Debug, PartialEq, Eq, Structural)]
pub struct SystemTimes {
    pub idle: FileTime,
    pub kernel: FileTime,
    pub user: FileTime,
}

impl FileTime {
    /// The two halves put together.
    pub open spec fn value(self) -> int {
        self.high * 0x1_0000_0000 + self.low
    }
}

impl SystemTimes {
    /// Processor time of every kind.
    pub open spec fn total(self) -> int {
        self.kernel.value() + self.user.value()
    }
}

/// The two halves put together.
pub fn filetime_to_u64(ft: FileTime) -> (t: u64)
    ensures
        t == ft.value(),
{
    let (high, low): (u32, u32) = (ft.high, ft.low);
    assert((high as u64) << 32 | low as u64 == high * 0x1_0000_0000 + low) by (bit_vector);
    (high as u64) << 32 | low as u64
}

/// `a - b`, or nothing if that is negative.
pub open spec fn minus(a: int, b: int) -> int {
    if a > b {
        a - b
    } else {
        0
    }
}

/// Whether a load stays within the machine's arithmetic.
pub open spec fn load_fits(idle_delta: int, total_delta: int) -> bool {
    total_delta != 0 ==> minus(total_delta, idle_delta) * 100 <= u64::MAX
}

/// The share of the time that was not idle, in percent.
pub open spec fn load_of(idle_delta: int, total_delta: int) -> Option<u32> {
    if total_delta == 0 {
        None
    } else {
        Some((minus(total_delta, idle_delta) * 100 / total_delta) as u32)
    }
}

proof fn lemma_load_is_a_percentage(idle_delta: int, total_delta: int)
    requires
        0 <= idle_delta,
        0 < total_delta,
    ensures
        0 <= minus(total_delta, idle_delta) * 100 / total_delta <= 100,
{
    let busy = minus(total_delta, idle_delta);
    assert(0 <= busy * 100 / total_delta <= 100) by (nonlinear_arith)
        requires
            0 <= busy <= total_delta,
            0 < total_delta,
    ;
}

/// The share of the time that was not idle, in percent; nothing if no time
/// passed.
pub fn load_percent(idle_delta: u64, total_delta: u64) -> (percent: Option<u32>)
    requires
        load_fits(idle_delta as int, total_delta as int),
    ensures
        percent == load_of(idle_delta as int, total_delta as int),
        percent matches Some(p) ==> p <= 100,
{
    if total_delta == 0 {
        return None;
    }
    let busy: u64 = total_delta.saturating_sub(idle_delta);
    proof {
        lemma_load_is_a_percentage(idle_delta as int, total_delta as int);
    }
    Some(((busy * 100 / total_delta) as u32).min(100))
}

/// Physical memory in use, percent, from the reading of the system.
pub fn memory_load(reading: Option<u32>) -> (percent: Option<u32>)
    ensures
        match reading {
            Some(r) => percent == Some(clamped(r)),
            None => percent is None,
        },
{
    match reading {
        Some(r) => Some(r.min(100)),
        None => None,
    }
}

/// Both load histories, plus the previous processor times. CPU load only exists
/// as a difference between two readings, so its chart stays empty for one tick;
/// memory is absolute and shows up immediately.
#[derive(Debug)]
pub struct Metrics {
    prev_idle: u64,
    prev_total: u64,
    cpu: History,
    ram: History,
}

/// What the load histories hold.
pub struct MetricsModel {
    pub prev_idle: u64,
    pub prev_total: u64,
    pub cpu: Seq<u32>,
    pub ram: Seq<u32>,
}

impl View for Metrics {
    type V = MetricsModel;

    closed spec fn view(&self) -> MetricsModel {
        MetricsModel {
            prev_idle: self.prev_idle,
            prev_total: self.prev_total,
            cpu: self.cpu@,
            ram: self.ram@,
        }
    }
}

impl MetricsModel {
    /// No readings and no samples yet.
    pub open spec fn fresh() -> MetricsModel {
        MetricsModel { prev_idle: 0, prev_total: 0, cpu: Seq::empty(), ram: Seq::empty() }
    }

    /// The CPU load between the previous reading and this one; nothing if there
    /// was no previous reading.
    pub open spec fn cpu_load(self, times: Option<SystemTimes>) -> Option<u32> {
        match times {
            Some(t) => if self.prev_total == 0 {
                None
            } else {
                load_of(
                    minus(t.idle.value(), self.prev_idle as int),
                    minus(t.total(), self.prev_total as int),
                )
            },
            None => None,
        }
    }

    /// Whether a reading stays within the machine's arithmetic.
    pub open spec fn reading_fits(self, times: Option<SystemTimes>) -> bool {
        times matches Some(t) ==> {
            &&& t.total() <= u64::MAX
            &&& self.prev_total != 0 ==> load_fits(
                minus(t.idle.value(), self.prev_idle as int),
                minus(t.total(), self.prev_total as int),
            )
        }
    }

    /// With this reading as the previous one; a failed reading changes nothing.
    pub open spec fn after_reading(self, times: Option<SystemTimes>) -> MetricsModel {
        match times {
            Some(t) => MetricsModel {
                prev_idle: t.idle.value() as u64,
                prev_total: t.total() as u64,
                ..self
            },
            None => self,
        }
    }

    /// After one tick with these readings.
    pub open spec fn sampled(
        self,
        times: Option<SystemTimes>,
        memory: Option<u32>,
    ) -> MetricsModel {
        MetricsModel {
            cpu: match self.cpu_load(times) {
                Some(p) => pushed(self.cpu, p),
                None => self.cpu,
            },
            ram: match memory {
                Some(p) => pushed(self.ram, p),
                None => self.ram,
            },
            ..self.after_reading(times)
        }
    }

    /// The system block: one chart each.
    pub open spec fn rows(self) -> Seq<RowModel> {
        seq![chart("CPU"@, self.cpu), chart("RAM"@, self.ram)]
    }

    /// Both histories are histories.
    pub open spec fn wf(self) -> bool {
        is_history(self.cpu) && is_history(self.ram)
    }
}

impl Default for Metrics {
    fn default() -> (m: Self)
        ensures
            m@ == MetricsModel::fresh(),
            m@.wf(),
    {
        Metrics {
            prev_idle: 0,
            prev_total: 0,
            cpu: History::default(),
            ram: History::default(),
        }
    }
}

impl Metrics {
    /// One tick: takes the readings of the system, each of which may have failed.
    pub fn sample(&mut self, times: Option<SystemTimes>, memory: Option<u32>)
        requires
            old(self)@.reading_fits(times),
        ensures
            old(self)@.wf() ==> final(self)@.wf(),
            final(self)@ == old(self)@.sampled(times, memory),
    {
        if let Some(percent) = self.read_cpu(times) {
            self.cpu.push(percent);
        }
        if let Some(percent) = memory_load(memory) {
            self.ram.push(percent);
        }
    }

    /// The system block.
    pub fn rows(&self) -> (rows: [Row; LINE_COUNT])
        ensures
            crate::render::model(rows@) == self@.rows(),
    {
        let rows = [self.cpu.row("CPU"), self.ram.row("RAM")];
        assert(crate::render::model(rows@) =~= self@.rows());
        rows
    }

    /// The CPU load since the previous reading, which this one replaces.
    pub fn read_cpu(&mut self, times: Option<SystemTimes>) -> (percent: Option<u32>)
        requires
            old(self)@.reading_fits(times),
        ensures
            percent == old(self)@.cpu_load(times),
            percent matches Some(p) ==> p <= 100,
            final(self)@ == old(self)@.after_reading(times),
    {
        let t: SystemTimes = match times {
            Some(t) => t,
            None => {
                return None;
            },
        };
        let idle: u64 = filetime_to_u64(t.idle);
        let total: u64 = filetime_to_u64(t.kernel) + filetime_to_u64(t.user);
        let prev_idle: u64 = self.prev_idle;
        let prev_total: u64 = self.prev_total;
        self.prev_idle = idle;
        self.prev_total = total;
        if prev_total == 0 {
            return None;
        }
        load_percent(idle.saturating_sub(prev_idle), total.saturating_sub(prev_total))
    }

    /// Whether a reading stays within the machine's arithmetic.
    pub fn can_sample(&self, times: Option<SystemTimes>) -> (b: bool)
        ensures
            b == self@.reading_fits(times),
    {
        match times {
            None => true,
            Some(t) => {
                let kernel: u64 = filetime_to_u64(t.kernel);
                let user: u64 = filetime_to_u64(t.user);
                if kernel > u64::MAX - user {
                    return false;
                }
                if self.prev_total == 0 {
                    return true;
                }
                let idle: u64 = filetime_to_u64(t.idle).saturating_sub(self.prev_idle);
                let total: u64 = (kernel + user).saturating_sub(self.prev_total);
                total == 0 || total.saturating_sub(idle) <= u64::MAX / 100
            },
        }
    }
}

/// What is left of a run of samples: the newest ones, clamped.
pub open spec fn window(samples: Seq<u32>) -> Seq<u32> {
    let kept = if samples.len() > HISTORY_LEN {
        samples.skip(samples.len() - HISTORY_LEN)
    } else {
        samples
    };
    Seq::new(kept.len(), |i: int| clamped(kept[i]))
}

/// A history after a run of samples.
pub open spec fn pushed_all(start: Seq<u32>, samples: Seq<u32>) -> Seq<u32>
    decreases samples.len(),
{
    if samples.len() == 0 {
        start
    } else {
        pushed(pushed_all(start, samples.drop_last()), samples.last())
    }
}

/// A history holds the newest samples of everything that was pushed, oldest
/// first and clamped, and never grows past its length.
pub proof fn law_history_keeps_the_newest_samples(samples: Seq<u32>)
    ensures
        pushed_all(Seq::empty(), samples) == window(samples),
        is_history(window(samples)),
    decreases samples.len(),
{
    if samples.len() == 0 {
        assert(window(samples) =~= Seq::empty());
    } else {
        law_history_keeps_the_newest_samples(samples.drop_last());
        assert(pushed(window(samples.drop_last()), samples.last()) =~= window(samples));
    }
}

/// The newest sample is always the one that was pushed last, clamped.
pub proof fn law_latest_is_the_last_sample_pushed(samples: Seq<u32>, percent: u32)
    ensures
        newest(pushed(samples, percent)) == Some(clamped(percent)),
{
}

/// On the first tick there is nothing to subtract from: the CPU chart stays
/// empty, while memory shows up at once.
pub proof fn law_memory_shows_up_one_tick_before_cpu(times: Option<SystemTimes>, memory: u32)
    ensures
        ({
            let m = MetricsModel::fresh().sampled(times, Some(memory));
            &&& m.cpu == Seq::<u32>::empty()
            &&& newest(m.cpu) is None
            &&& m.ram == seq![clamped(memory)]
        }),
{
    assert(MetricsModel::fresh().sampled(times, Some(memory)).ram =~= seq![clamped(memory)]);
}

/// From the second tick on there is a CPU load, as long as processor time
/// passes.
pub proof fn law_cpu_shows_up_on_the_second_tick(
    first: SystemTimes,
    second: SystemTimes,
    memory: Option<u32>,
)
    requires
        0 < first.total() < second.total() <= u64::MAX,
    ensures
        ({
            let m = MetricsModel::fresh().sampled(Some(first), memory);
            m.cpu_load(Some(second)) == load_of(
                minus(second.idle.value(), first.idle.value()),
                second.total() - first.total(),
            ) && m.cpu_load(Some(second)) is Some
        }),
{
}

/// A load is a percentage: nothing when all the time was idle, everything when
/// none was, and never more for more idle time.
pub proof fn law_load_falls_with_idle_time(a: int, b: int, total: int)
    requires
        0 <= a <= b,
        0 < total,
    ensures
        load_of(a, total).unwrap() <= 100,
        load_of(b, total).unwrap() <= load_of(a, total).unwrap(),
        a == 0 ==> load_of(a, total) == Some(100u32),
        b >= total ==> load_of(b, total) == Some(0u32),
{
    lemma_load_is_a_percentage(a, total);
    lemma_load_is_a_percentage(b, total);
    let (x, y) = (minus(total, a), minus(total, b));
    vstd::arithmetic::div_mod::lemma_div_is_ordered(y * 100, x * 100, total);
    vstd::arithmetic::div_mod::lemma_div_multiples_vanish(100, total);
    assert(total * 100 == 100 * total);
    assert(0int / total == 0) by {
        vstd::arithmetic::div_mod::lemma_div_basics(total);
    }
}

/// A sample joins its history as the newest one, a hundred at most; the others
/// stay as they were, and only a full history of sixty loses its oldest.
pub proof fn law_a_sample_joins_as_the_newest(samples: Seq<u32>, percent: u32)
    requires
        samples.len() <= 60,
    ensures
        ({
            let after = pushed(samples, percent);
            let kept = if samples.len() < 60 {
                samples
            } else {
                samples.subrange(1, 60)
            };
            &&& after.drop_last() == kept
            &&& after.len() == kept.len() + 1
            &&& after.last() == if percent > 100 {
                100
            } else {
                percent
            }
        }),
{
    let after = pushed(samples, percent);
    if samples.len() < 60 {
        assert(after.drop_last() =~= samples);
    } else {
        assert(after.drop_last() =~= samples.subrange(1, 60));
    }
}

/// The two halves of a time make one count: the low half counts up, and when it
/// runs over, the high half takes one more.
pub proof fn law_time_halves_make_one_count(high: u32, low: u32)
    ensures
        (FileTime { high: 0, low }).value() == low,
        low < u32::MAX ==> (FileTime { high, low: (low + 1) as u32 }).value() == (FileTime {
            high,
            low,
        }).value() + 1,
        high < u32::MAX ==> (FileTime { high: (high + 1) as u32, low: 0 }).value() == (FileTime {
            high,
            low: u32::MAX,
        }).value() + 1,
{
}

/// A load is the share of the time that was not idle, in whole percent, rounded
/// down; there is one exactly if time passed.
pub proof fn law_load_is_the_busy_share(idle: int, total: int)
    requires
        0 <= idle <= total,
    ensures
        total == 0 ==> load_of(idle, total) is None,
        total > 0 ==> (load_of(idle, total) matches Some(p) && p * total <= (total - idle) * 100 < (
        p + 1) * total),
{
    if total > 0 {
        let busy = total - idle;
        lemma_load_is_a_percentage(idle, total);
        let p = busy * 100 / total;
        vstd::arithmetic::div_mod::lemma_fundamental_div_mod(busy * 100, total);
        vstd::arithmetic::div_mod::lemma_mod_bound(busy * 100, total);
        assert(minus(total, idle) == busy);
        assert(p * total == total * p && (p + 1) * total == total * p + total) by (nonlinear_arith);
    }
}

/// Between any two readings the CPU load is the share of the processor time,
/// kernel and user together, that did not go to the idle process; it joins the
/// history, whatever happened before the first of the two.
pub proof fn law_cpu_load_is_the_busy_share_between_readings(
    m: MetricsModel,
    first: SystemTimes,
    second: SystemTimes,
    memory: Option<u32>,
)
    requires
        0 < first.kernel.value() + first.user.value(),
        second.kernel.value() + second.user.value() <= u64::MAX,
        first.kernel.value() + first.user.value() < second.kernel.value() + second.user.value(),
        0 <= second.idle.value() - first.idle.value() <= second.kernel.value()
            + second.user.value() - first.kernel.value() - first.user.value(),
    ensures
        ({
            let before = m.sampled(Some(first), memory);
            let after = before.sampled(Some(second), memory);
            let passed = second.kernel.value() + second.user.value() - first.kernel.value()
                - first.user.value();
            let idle = second.idle.value() - first.idle.value();
            &&& before.cpu_load(Some(second)) matches Some(p)
            &&& p * passed <= (passed - idle) * 100 < (p + 1) * passed
            &&& after.cpu == pushed(before.cpu, p)
        }),
{
    let before = m.sampled(Some(first), memory);
    let passed = second.kernel.value() + second.user.value() - first.kernel.value()
        - first.user.value();
    let idle = second.idle.value() - first.idle.value();
    assert(before.prev_total == first.kernel.value() + first.user.value());
    assert(before.prev_idle == first.idle.value());
    law_load_is_the_busy_share(idle, passed);
}

/// The two charts are independent: a reading that failed leaves its chart as it
/// was, and a memory reading goes to the memory chart alone.
pub proof fn law_failed_readings_change_nothing(
    m: MetricsModel,
    times: Option<SystemTimes>,
    memory: u32,
)
    ensures
        m.sampled(None, None) == m,
        m.sampled(times, None).ram == m.ram,
        m.sampled(times, Some(memory)).ram == pushed(m.ram, memory),
        m.sampled(times, Some(memory)).cpu == m.sampled(times, None).cpu,
        m.sampled(None, Some(memory)).cpu == m.cpu,
{
}

/// The system block is the CPU chart above the memory chart, each with its
/// whole history, its newest sample as its value, and room for sixty.
pub proof fn law_the_block_shows_both_histories(m: MetricsModel)
    ensures
        m.rows().len() == 2,
        m.rows()[0] == (RowModel::Graph {
            label: seq!['C', 'P', 'U'],
            percent: if m.cpu.len() == 0 {
                None
            } else {
                Some(m.cpu[m.cpu.len() - 1])
            },
            history: m.cpu,
            capacity: 60,
        }),
        m.rows()[1] == (RowModel::Graph {
            label: seq!['R', 'A', 'M'],
            percent: if m.ram.len() == 0 {
                None
            } else {
                Some(m.ram[m.ram.len() - 1])
            },
            history: m.ram,
            capacity: 60,
        }),
{
    reveal_strlit("CPU");
    reveal_strlit("RAM");
    assert("CPU"@ =~= seq!['C', 'P', 'U']);
    assert("RAM"@ =~= seq!['R', 'A', 'M']);
}

/// Readings of everyday size can be taken: a reading fits as long as its total
/// does and less than a hundredth of what 64 bits hold has passed.
pub proof fn law_everyday_readings_can_be_taken(m: MetricsModel, t: SystemTimes)
    requires
        t.kernel.value() + t.user.value() <= u64::MAX,
        t.kernel.value() + t.user.value() - m.prev_total <= 184467440737095516,
    ensures
        m.reading_fits(Some(t)),
        m.reading_fits(None),
{
    let passed = minus(t.total(), m.prev_total as int);
    let idle = minus(t.idle.value(), m.prev_idle as int);
    assert(minus(passed, idle) <= passed);
}

/// A reading adds to the CPU chart only if one came before it and processor
/// time passed in between; idle time that seems to run backwards counts as none.
pub proof fn law_cpu_load_needs_time_to_pass(m: MetricsModel, t: SystemTimes, memory: Option<u32>)
    ensures
        m.prev_total == 0 || t.kernel.value() + t.user.value() <= m.prev_total ==> m.sampled(
            Some(t),
            memory,
        ).cpu == m.cpu,
        0 < m.prev_total < t.kernel.value() + t.user.value() ==> m.cpu_load(Some(t)) is Some,
        0 < m.prev_total < t.kernel.value() + t.user.value() && t.idle.value() <= m.prev_idle
            ==> m.cpu_load(Some(t)) == Some(100u32),
{
    let passed = t.kernel.value() + t.user.value() - m.prev_total;
    if passed > 0 {
        law_load_falls_with_idle_time(0, 0, passed);
    }
}

} // verus!
