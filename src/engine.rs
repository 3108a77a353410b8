use vstd::prelude::*;
use crate::stream::{Stream, TimedBuffer};

verus! {

/// The first fire instant of a timer that was due at `next` with period
/// `period`, once time has reached `now`: `next` advanced by whole periods to
/// the first instant strictly after `now`, or `next` itself when it is still ahead.
pub open spec fn next_fire_after(next: int, period: int, now: int) -> int
    recommends
        period > 0,
{
    if now < next {
        next
    } else {
        next + ((now - next) / period + 1) * period
    }
}

/// `next_fire_after` clamped to what a `u64` instant can hold.
pub open spec fn clamped_next_fire(next: u64, period: u64, now: u64) -> u64 {
    let t = next_fire_after(next as int, period as int, now as int);
    if t > u64::MAX as int {
        u64::MAX
    } else {
        t as u64
    }
}

/// Catching up skips missed ticks: the advanced instant lies strictly after
/// `now`, no later than one period after it, and a whole number of periods
/// after the instant the timer was due.
pub proof fn lemma_catch_up_skips_missed_ticks(next: int, period: int, now: int)
    requires
        period > 0,
        next <= now,
    ensures
        next_fire_after(next, period, now) > now,
        next_fire_after(next, period, now) - period <= now,
        (next_fire_after(next, period, now) - next) % period == 0,
        (next_fire_after(next, period, now) - next) / period == (now - next) / period + 1,
{
    let d = now - next;
    let q = d / period;
    vstd::arithmetic::div_mod::lemma_fundamental_div_mod(d, period);
    assert((q + 1) * period == q * period + period) by (nonlinear_arith);
    vstd::arithmetic::div_mod::lemma_mod_multiples_basic(q + 1, period);
    vstd::arithmetic::div_mod::lemma_div_multiples_vanish(q + 1, period);
}

/// The indices of the timers due at `now`, in increasing order.
pub open spec fn due_timers(t: Seq<TimerEntry>, now: u64) -> Seq<usize>
    decreases t.len(),
{
    if t.len() == 0 {
        Seq::empty()
    } else {
        let rest = due_timers(t.drop_last(), now);
        if t.last().next_fire_ms <= now {
            rest.push((t.len() - 1) as usize)
        } else {
            rest
        }
    }
}

/// The timers due at `now` are listed in increasing order, each exactly once,
/// and none that is not due is listed.
pub proof fn lemma_due_timers_listed_once(t: Seq<TimerEntry>, now: u64)
    requires
        t.len() <= usize::MAX,
    ensures
        forall|j: int, k: int|
            0 <= j < k < due_timers(t, now).len() ==> due_timers(t, now)[j] < due_timers(
                t,
                now,
            )[k],
        forall|j: int|
            0 <= j < due_timers(t, now).len() ==> {
                &&& due_timers(t, now)[j] < t.len()
                &&& t[due_timers(t, now)[j] as int].next_fire_ms <= now
            },
        forall|i: int|
            0 <= i < t.len() && t[i].next_fire_ms <= now ==> due_timers(t, now).contains(
                i as usize,
            ),
    decreases t.len(),
{
    if t.len() > 0 {
        let p = t.drop_last();
        lemma_due_timers_listed_once(p, now);
        let rest = due_timers(p, now);
        let r = due_timers(t, now);
        assert forall|i: int| 0 <= i < t.len() && t[i].next_fire_ms <= now implies r.contains(
            i as usize,
        ) by {
            if i < t.len() - 1 {
                assert(p[i] == t[i]);
                let w = choose|w: int| 0 <= w < rest.len() && rest[w] == i as usize;
                assert(r[w] == rest[w]);
            } else {
                assert(r[r.len() - 1] == i as usize);
            }
        }
    }
}

/// Every timer has a positive period.
pub open spec fn periods_positive(t: Seq<TimerEntry>) -> bool {
    forall|i: int| 0 <= i < t.len() ==> (#[trigger] t[i]).period_ms > 0
}

/// Every flag is set.
pub open spec fn all_true(s: Seq<bool>) -> bool {
    forall|j: int| 0 <= j < s.len() ==> #[trigger] s[j]
}

/// One periodic timer: its period and the instant at which it next fires, in
/// milliseconds.
#[derive(Clone, Copy, Debug, PartialEq, Eq, Structural)]
pub struct TimerEntry {
    pub period_ms: u64,
    pub next_fire_ms: u64,
}

/// Where an engine stands in its life.
#[derive(Clone, Copy, Debug, PartialEq, Eq, Structural)]
pub enum EngineState {
    Idle,
    Running,
    Completed,
    Failed,
    Interrupted,
}

/// How a run ended.
#[derive(Debug)]
pub enum Outcome {
    /// Every source finished successfully.
    Completed,
    /// The source registered under `label` failed with `cause`.
    Failed { label: String, cause: String },
    /// An interrupt arrived.
    Interrupted,
}

impl Outcome {
    /// A run succeeds unless a source failed.
    pub fn is_success(&self) -> (r: bool)
        ensures
            r == !(self is Failed),
    {
        match self {
            Outcome::Failed { .. } => false,
            _ => true,
        }
    }
}

/// Collects what an engine will drive: the streams it keeps, the labelled
/// sources and the periods of the timed buffers.
pub struct EngineBuilder {
    streams: usize,
    labels: Vec<String>,
    periods: Vec<u64>,
}

impl EngineBuilder {
    /// The number of streams registered to be kept alive.
    pub closed spec fn stream_count(&self) -> nat {
        self.streams as nat
    }

    /// The labels of the registered sources, in registration order.
    pub closed spec fn labels(&self) -> Seq<String> {
        self.labels@
    }

    /// The periods of the registered timed buffers, in registration order.
    pub closed spec fn periods(&self) -> Seq<u64> {
        self.periods@
    }

    /// An empty registration.
    pub fn new() -> (r: EngineBuilder)
        ensures
            r.stream_count() == 0,
            r.labels() == Seq::<String>::empty(),
            r.periods() == Seq::<u64>::empty(),
    {
        EngineBuilder { streams: 0, labels: Vec::new(), periods: Vec::new() }
    }

    /// Keeps a stream alive for as long as the engine runs.
    pub fn add_stream<T>(self, stream: Stream<T>) -> (r: EngineBuilder)
        ensures
            r.stream_count() == if self.stream_count() < usize::MAX {
                self.stream_count() + 1
            } else {
                self.stream_count()
            },
            r.labels() == self.labels(),
            r.periods() == self.periods(),
    {
        let streams = if self.streams < usize::MAX {
            self.streams + 1
        } else {
            self.streams
        };
        EngineBuilder { streams, labels: self.labels, periods: self.periods }
    }

    /// Registers a source under `label`; its index is its position among the
    /// registered sources.
    pub fn add_source(self, label: &str) -> (r: EngineBuilder)
        ensures
            r.stream_count() == self.stream_count(),
            r.labels().len() == self.labels().len() + 1,
            r.labels().drop_last() == self.labels(),
            r.labels().last()@ == label@,
            r.periods() == self.periods(),
    {
        let mut labels = self.labels;
        labels.push(label.to_owned());
        EngineBuilder { streams: self.streams, labels, periods: self.periods }
    }

    /// Registers a source that the engine owns, under `label`.
    pub fn add_source_owned(self, label: &str) -> (r: EngineBuilder)
        ensures
            r.stream_count() == self.stream_count(),
            r.labels().len() == self.labels().len() + 1,
            r.labels().drop_last() == self.labels(),
            r.labels().last()@ == label@,
            r.periods() == self.periods(),
    {
        self.add_source(label)
    }

    /// Registers a timer with period `period_ms`; its index is its position
    /// among the registered timers.
    pub fn add_timer(self, period_ms: u64) -> (r: EngineBuilder)
        requires
            period_ms > 0,
        ensures
            r.stream_count() == self.stream_count(),
            r.labels() == self.labels(),
            r.periods() == self.periods().push(period_ms),
    {
        let mut periods = self.periods;
        periods.push(period_ms);
        EngineBuilder { streams: self.streams, labels: self.labels, periods }
    }

    /// Registers a timed buffer: its batch stream is kept alive and its period
    /// gets a timer. The timer's index is its position among the registered buffers.
    pub fn add_timed_buffer<T>(self, buffer: &TimedBuffer<T>) -> (r: EngineBuilder)
        requires
            buffer.period_ms() > 0,
        ensures
            r.stream_count() == if self.stream_count() < usize::MAX {
                self.stream_count() + 1
            } else {
                self.stream_count()
            },
            r.labels() == self.labels(),
            r.periods() == self.periods().push(buffer.period_ms()),
    {
        let streams = if self.streams < usize::MAX {
            self.streams + 1
        } else {
            self.streams
        };
        let kept = EngineBuilder { streams, labels: self.labels, periods: self.periods };
        kept.add_timer(buffer.period())
    }

    /// Finalises the registration into an idle engine.
    pub fn build(self) -> (r: Engine)
        requires
            forall|i: int| 0 <= i < self.periods().len() ==> #[trigger] self.periods()[i] > 0,
        ensures
            r.wf(),
            r.state() == EngineState::Idle,
            r.labels() == self.labels(),
            r.timers().len() == self.periods().len(),
            forall|i: int|
                0 <= i < self.periods().len() ==> (#[trigger] r.timers()[i]).period_ms
                    == self.periods()[i],
            forall|i: int| 0 <= i < self.labels().len() ==> !(#[trigger] r.finished()[i]),
    {
        let mut timers: Vec<TimerEntry> = Vec::new();
        let mut i: usize = 0;
        assert(self.periods() == self.periods@);
        while i < self.periods.len()
            invariant
                i <= self.periods@.len(),
                forall|j: int| 0 <= j < self.periods@.len() ==> #[trigger] self.periods@[j] > 0,
                timers@.len() == i,
                forall|j: int| 0 <= j < i ==> (#[trigger] timers@[j]).period_ms == self.periods@[j],
                forall|j: int| 0 <= j < i ==> (#[trigger] timers@[j]).period_ms > 0,
            decreases self.periods@.len() - i,
        {
            timers.push(TimerEntry { period_ms: self.periods[i], next_fire_ms: 0 });
            i = i + 1;
        }
        let mut finished: Vec<bool> = Vec::new();
        let mut k: usize = 0;
        while k < self.labels.len()
            invariant
                k <= self.labels@.len(),
                finished@.len() == k,
                forall|j: int| 0 <= j < k ==> !(#[trigger] finished@[j]),
            decreases self.labels@.len() - k,
        {
            finished.push(false);
            k = k + 1;
        }
        Engine {
            streams: self.streams,
            labels: self.labels,
            timers,
            finished,
            state: EngineState::Idle,
        }
    }
}

/// The scheduling decisions of a run: which sources are still running, when
/// each timer fires next, and how the run ends. The caller performs the work
/// (running sources, sleeping, flushing) and reports each event back.
pub struct Engine {
    streams: usize,
    labels: Vec<String>,
    timers: Vec<TimerEntry>,
    finished: Vec<bool>,
    state: EngineState,
}

impl Engine {
    pub closed spec fn labels(&self) -> Seq<String> {
        self.labels@
    }

    pub closed spec fn timers(&self) -> Seq<TimerEntry> {
        self.timers@
    }

    /// Which sources have finished successfully.
    pub closed spec fn finished(&self) -> Seq<bool> {
        self.finished@
    }

    pub closed spec fn state(&self) -> EngineState {
        self.state
    }

    /// One finished flag per source, and every timer period positive.
    pub open spec fn wf(&self) -> bool {
        &&& self.finished().len() == self.labels().len()
        &&& periods_positive(self.timers())
    }

    /// The number of registered sources.
    pub fn source_count(&self) -> (r: usize)
        ensures
            r == self.labels().len(),
    {
        self.labels.len()
    }

    /// The number of registered timers.
    pub fn timer_count(&self) -> (r: usize)
        ensures
            r == self.timers().len(),
    {
        self.timers.len()
    }

    /// The timer registered at `index`.
    pub fn timer(&self, index: usize) -> (r: TimerEntry)
        requires
            index < self.timers().len(),
        ensures
            r == self.timers()[index as int],
    {
        self.timers[index]
    }

    /// Whether the source registered at `index` has finished successfully.
    pub fn is_finished(&self, index: usize) -> (r: bool)
        requires
            index < self.finished().len(),
        ensures
            r == self.finished()[index as int],
    {
        self.finished[index]
    }

    /// The current state.
    pub fn current_state(&self) -> (r: EngineState)
        ensures
            r == self.state(),
    {
        self.state
    }

    /// Starts the run at instant `now_ms`: every timer is set to fire one
    /// period from now. The caller then launches every source; with none, it
    /// waits for timers and the interrupt only.
    pub fn start(&mut self, now_ms: u64)
        requires
            old(self).wf(),
            old(self).state() == EngineState::Idle,
        ensures
            final(self).wf(),
            final(self).state() == EngineState::Running,
            final(self).labels() == old(self).labels(),
            final(self).finished() == old(self).finished(),
            final(self).timers().len() == old(self).timers().len(),
            forall|i: int|
                0 <= i < old(self).timers().len() ==> (#[trigger] final(self).timers()[i])
                    == (TimerEntry {
                    period_ms: old(self).timers()[i].period_ms,
                    next_fire_ms: if now_ms as int + old(self).timers()[i].period_ms as int
                        <= u64::MAX as int {
                        (now_ms + old(self).timers()[i].period_ms) as u64
                    } else {
                        u64::MAX
                    },
                }),
    {
        let ghost before = self.timers@;
        let mut timers: Vec<TimerEntry> = Vec::new();
        let mut i: usize = 0;
        while i < self.timers.len()
            invariant
                self.timers@ == before,
                i <= before.len(),
                timers@.len() == i,
                forall|j: int|
                    0 <= j < i ==> (#[trigger] timers@[j]) == (TimerEntry {
                        period_ms: before[j].period_ms,
                        next_fire_ms: if now_ms as int + before[j].period_ms as int
                            <= u64::MAX as int {
                            (now_ms + before[j].period_ms) as u64
                        } else {
                            u64::MAX
                        },
                    }),
            decreases before.len() - i,
        {
            let period = self.timers[i].period_ms;
            let next = now_ms.saturating_add(period);
            timers.push(TimerEntry { period_ms: period, next_fire_ms: next });
            i = i + 1;
        }
        self.timers = timers;
        self.state = EngineState::Running;
    }
    /// The earliest instant at which a timer fires, if there is a timer.
    pub fn next_deadline(&self) -> (r: Option<u64>)
        ensures
            r is None <==> self.timers().len() == 0,
            r is Some ==> (exists|i: int|
                0 <= i < self.timers().len() && #[trigger] self.timers()[i].next_fire_ms == r->0),
            r is Some ==> (forall|i: int|
                0 <= i < self.timers().len() ==> r->0 <= #[trigger] self.timers()[i].next_fire_ms),
    {
        let mut best: Option<u64> = Option::None;
        let mut i: usize = 0;
        while i < self.timers.len()
            invariant
                i <= self.timers@.len(),
                best is None <==> i == 0,
                best is Some ==> (exists|j: int|
                    0 <= j < i && #[trigger] self.timers@[j].next_fire_ms == best->0),
                best is Some ==> (forall|j: int|
                    0 <= j < i ==> best->0 <= #[trigger] self.timers@[j].next_fire_ms),
            decreases self.timers@.len() - i,
        {
            let t = self.timers[i].next_fire_ms;
            match best {
                Option::Some(b) => {
                    if t < b {
                        best = Option::Some(t);
                    }
                },
                Option::None => {
                    best = Option::Some(t);
                },
            }
            i = i + 1;
        }
        best
    }

    /// The timers reached their deadline at `now_ms`. Each due timer is listed
    /// once in the result, in increasing order, for the caller to flush once,
    /// however many periods were missed; its next fire instant moves past `now_ms`
    /// by whole periods. Timers not yet due are left alone.
    pub fn on_timer(&mut self, now_ms: u64) -> (r: Vec<usize>)
        requires
            old(self).wf(),
        ensures
            final(self).wf(),
            final(self).state() == old(self).state(),
            final(self).labels() == old(self).labels(),
            final(self).finished() == old(self).finished(),
            r@ == due_timers(old(self).timers(), now_ms),
            final(self).timers().len() == old(self).timers().len(),
            forall|i: int|
                0 <= i < old(self).timers().len() ==> (#[trigger] final(self).timers()[i])
                    == (TimerEntry {
                    period_ms: old(self).timers()[i].period_ms,
                    next_fire_ms: clamped_next_fire(
                        old(self).timers()[i].next_fire_ms,
                        old(self).timers()[i].period_ms,
                        now_ms,
                    ),
                }),
    {
        let ghost before = self.timers@;
        assert(forall|j: int| 0 <= j < before.len() ==> #[trigger] before[j].period_ms > 0);
        let mut timers: Vec<TimerEntry> = Vec::new();
        let mut due: Vec<usize> = Vec::new();
        let mut i: usize = 0;
        while i < self.timers.len()
            invariant
                self.timers@ == before,
                forall|j: int| 0 <= j < before.len() ==> #[trigger] before[j].period_ms > 0,
                i <= before.len(),
                timers@.len() == i,
                due@ == due_timers(before.take(i as int), now_ms),
                forall|j: int|
                    0 <= j < i ==> (#[trigger] timers@[j]) == (TimerEntry {
                        period_ms: before[j].period_ms,
                        next_fire_ms: clamped_next_fire(
                            before[j].next_fire_ms,
                            before[j].period_ms,
                            now_ms,
                        ),
                    }),
            decreases before.len() - i,
        {
            let entry = self.timers[i];
            assert(before.take(i + 1).drop_last() =~= before.take(i as int));
            if entry.next_fire_ms <= now_ms {
                due.push(i);
                let next = advance_timer(entry.next_fire_ms, entry.period_ms, now_ms);
                timers.push(TimerEntry { period_ms: entry.period_ms, next_fire_ms: next });
            } else {
                timers.push(entry);
            }
            i = i + 1;
        }
        assert(before.take(before.len() as int) =~= before);
        self.timers = timers;
        due
    }

    /// A source finished. A failure ends the run as failed, naming the
    /// source's label and the cause, and abandons the other sources. A success
    /// ends the run as completed once every source has succeeded, and otherwise
    /// lets the run go on (`None`).
    pub fn on_source_finished(&mut self, index: usize, result: Result<(), String>) -> (r: Option<
        Outcome,
    >)
        requires
            old(self).wf(),
            old(self).state() == EngineState::Running,
            index < old(self).labels().len(),
            !old(self).finished()[index as int],
        ensures
            final(self).wf(),
            final(self).labels() == old(self).labels(),
            final(self).timers() == old(self).timers(),
            match result {
                Result::Err(cause) => {
                    &&& final(self).state() == EngineState::Failed
                    &&& final(self).finished() == old(self).finished()
                    &&& (r matches Option::Some(Outcome::Failed { label, cause: c }) && label@ == old(
                        self,
                    ).labels()[index as int]@ && c@ == cause@)
                },
                Result::Ok(_) => {
                    &&& final(self).finished() == old(self).finished().update(index as int, true)
                    &&& all_true(final(self).finished()) ==> (final(self).state()
                        == EngineState::Completed && r matches Option::Some(Outcome::Completed))
                    &&& !all_true(final(self).finished()) ==> (final(self).state()
                        == EngineState::Running && r is None)
                },
            },
    {
        match result {
            Result::Err(cause) => {
                let label = self.labels[index].clone();
                self.state = EngineState::Failed;
                Option::Some(Outcome::Failed { label, cause })
            },
            Result::Ok(_) => {
                self.finished.set(index, true);
                let mut all = true;
                let mut j: usize = 0;
                while j < self.finished.len()
                    invariant
                        j <= self.finished@.len(),
                        all <==> (forall|k: int| 0 <= k < j ==> #[trigger] self.finished@[k]),
                    decreases self.finished@.len() - j,
                {
                    if !self.finished[j] {
                        all = false;
                    }
                    j = j + 1;
                }
                if all {
                    self.state = EngineState::Completed;
                    Option::Some(Outcome::Completed)
                } else {
                    Option::None
                }
            },
        }
    }

    /// An interrupt arrived: the run ends successfully, abandoning running
    /// sources and unflushed data.
    pub fn on_interrupt(&mut self) -> (r: Outcome)
        requires
            old(self).state() == EngineState::Running,
        ensures
            final(self).state() == EngineState::Interrupted,
            final(self).labels() == old(self).labels(),
            final(self).timers() == old(self).timers(),
            final(self).finished() == old(self).finished(),
            r is Interrupted,
    {
        self.state = EngineState::Interrupted;
        Outcome::Interrupted
    }
}

/// The instant a due timer fires next: `next_ms` advanced by whole periods
/// past `now_ms`, or the largest instant when that does not fit.
fn advance_timer(next_ms: u64, period_ms: u64, now_ms: u64) -> (r: u64)
    requires
        period_ms > 0,
        next_ms <= now_ms,
    ensures
        r == clamped_next_fire(next_ms, period_ms, now_ms),
{
    let d = now_ms - next_ms;
    let q = d / period_ms;
    let k: u128 = q as u128 + 1;
    assert(k * (period_ms as u128) <= 0x1_0000_0000_0000_0000u128 * 0xFFFF_FFFF_FFFF_FFFFu128)
        by (nonlinear_arith)
        requires
            k <= 0x1_0000_0000_0000_0000u128,
            period_ms <= 0xFFFF_FFFF_FFFF_FFFFu64,
    ;
    let t: u128 = next_ms as u128 + k * (period_ms as u128);
    if t > u64::MAX as u128 {
        u64::MAX
    } else {
        t as u64
    }
}

} // verus!