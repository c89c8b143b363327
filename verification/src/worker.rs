//! The save worker: batches of measurements, split by calendar date.

use vstd::prelude::*;
use crate::measurement::Measurement;
use crate::time::{date_stem_of, utc_date_stem, DATE_FMT, SECS_PER_DAY};

verus! {

/// The measurements of one batch that fall on one UTC calendar day.
#[derive(Debug, Clone, PartialEq, Eq)]
pub struct DateGroup {
    pub day: i64,
    pub items: Vec<Measurement>,
}

/// The measurements of `batch` whose instant lies on `day`, in the order of `batch`.
pub open spec fn on_day(batch: Seq<Measurement>, day: int) -> Seq<Measurement> {
    batch.filter(|m: Measurement| m.time.day() == day)
}

/// The days on which `batch` has a measurement, each once, in the order in which
/// they first occur.
pub open spec fn days_of(batch: Seq<Measurement>) -> Seq<int>
    decreases batch.len(),
{
    if batch.len() == 0 {
        Seq::empty()
    } else {
        let before = days_of(batch.drop_last());
        let day = batch.last().time.day();
        if before.contains(day) {
            before
        } else {
            before.push(day)
        }
    }
}

/// `groups` is `batch` split by day: one group for each day of `days_of(batch)`, in that
/// order, and each group holds the measurements of its day in the order of `batch`.
pub open spec fn is_grouping(groups: Seq<DateGroup>, batch: Seq<Measurement>) -> bool {
    &&& groups.len() == days_of(batch).len()
    &&& forall|g: int|
        0 <= g < groups.len() ==> {
            &&& (#[trigger] groups[g]).day == days_of(batch)[g]
            &&& groups[g].items@ == on_day(batch, groups[g].day as int)
        }
}

proof fn lemma_on_day_push(batch: Seq<Measurement>, m: Measurement, day: int)
    ensures
        on_day(batch.push(m), day) == if m.time.day() == day {
            on_day(batch, day).push(m)
        } else {
            on_day(batch, day)
        },
{
    batch.lemma_filter_push(m, |x: Measurement| x.time.day() == day);
}

proof fn lemma_days_of_push(batch: Seq<Measurement>, m: Measurement)
    ensures
        days_of(batch.push(m)) == if days_of(batch).contains(m.time.day()) {
            days_of(batch)
        } else {
            days_of(batch).push(m.time.day())
        },
{
    assert(batch.push(m).drop_last() =~= batch);
}

/// Splits a batch by the UTC calendar day of each measurement.
pub fn group_by_date(batch: Vec<Measurement>) -> (groups: Vec<DateGroup>)
    ensures
        is_grouping(groups@, batch@),
{
    let ghost all = batch@;
    let mut groups: Vec<DateGroup> = Vec::new();
    for m in it: batch
        invariant
            it.seq() == all,
            is_grouping(groups@, all.take(it.index() as int)),
    {
        let ghost seen = all.take(it.index() as int);
        let day: i64 = m.time.day_number();
        let mut g: usize = 0;
        while g < groups.len() && groups[g].day != day
            invariant
                g <= groups.len(),
                is_grouping(groups@, seen),
                forall|k: int| 0 <= k < g ==> days_of(seen)[k] != day,
            decreases groups.len() - g,
        {
            g += 1;
        }
        proof {
            lemma_days_of_push(seen, m);
            assert(all.take(it.index() as int + 1) =~= seen.push(m));
            assert forall|d: int| true implies #[trigger] on_day(seen.push(m), d) == if m.time.day() == d {
                on_day(seen, d).push(m)
            } else {
                on_day(seen, d)
            } by {
                lemma_on_day_push(seen, m, d);
            }
            lemma_days_distinct(seen);
        }
        if g == groups.len() {
            let mut items: Vec<Measurement> = Vec::new();
            items.push(m);
            assert(!days_of(seen).contains(day as int));
            proof {
                lemma_on_day_absent(seen, day as int);
            }
            groups.push(DateGroup { day, items });
        } else {
            assert(days_of(seen).contains(day as int));
            groups[g].items.push(m);
        }
    }
    proof {
        assert(all.take(all.len() as int) =~= all);
    }
    groups
}

/// No day occurs twice in `days_of`.
pub proof fn lemma_days_distinct(batch: Seq<Measurement>)
    ensures
        days_of(batch).no_duplicates(),
    decreases batch.len(),
{
    if batch.len() > 0 {
        lemma_days_distinct(batch.drop_last());
    }
}

/// A day is in `days_of` exactly if some measurement of the batch lies on it.
pub proof fn lemma_days_cover(batch: Seq<Measurement>, day: int)
    ensures
        days_of(batch).contains(day) <==> exists|i: int| 0 <= i < batch.len() && (#[trigger] batch[i]).time.day() == day,
    decreases batch.len(),
{
    if batch.len() > 0 {
        let before = batch.drop_last();
        let last = batch.len() - 1;
        lemma_days_cover(before, day);
        if days_of(batch).contains(day) {
            if days_of(before).contains(day) {
                let i = choose|i: int| 0 <= i < before.len() && (#[trigger] before[i]).time.day() == day;
                assert(batch[i].time.day() == day);
            } else {
                let k = choose|k: int| 0 <= k < days_of(batch).len() && days_of(batch)[k] == day;
                assert(days_of(batch) == days_of(before).push(batch.last().time.day()));
                if k < days_of(before).len() {
                    assert(days_of(before)[k] == day);
                }
                assert(batch[last].time.day() == day);
            }
        }
        if exists|i: int| 0 <= i < batch.len() && (#[trigger] batch[i]).time.day() == day {
            let i = choose|i: int| 0 <= i < batch.len() && (#[trigger] batch[i]).time.day() == day;
            if i < last {
                assert(before[i].time.day() == day);
                assert(days_of(before).contains(day));
                let k = choose|k: int| 0 <= k < days_of(before).len() && days_of(before)[k] == day;
                if !days_of(before).contains(batch.last().time.day()) {
                    assert(days_of(batch)[k] == day);
                }
            } else {
                if !days_of(before).contains(day) {
                    assert(days_of(batch)[days_of(before).len() as int] == day);
                }
            }
        }
    }
}

proof fn lemma_on_day_absent(batch: Seq<Measurement>, day: int)
    requires
        !days_of(batch).contains(day),
    ensures
        on_day(batch, day) == Seq::<Measurement>::empty(),
    decreases batch.len(),
{
    reveal(Seq::filter);
    if batch.len() > 0 {
        lemma_days_cover(batch, day);
        lemma_days_cover(batch.drop_last(), day);
        assert(batch[batch.len() - 1].time.day() != day);
        assert forall|i: int| 0 <= i < batch.drop_last().len() implies (#[trigger] batch.drop_last()[i]).time.day() != day by {
            assert(batch[i].time.day() != day);
        }
        lemma_on_day_absent(batch.drop_last(), day);
    }
}

/// Why the worker stopped waiting.
#[derive(Debug, Clone, Copy, PartialEq, Eq, Structural)]
pub enum Wake {
    /// The shutdown message arrived.
    Shutdown,
    /// The control channel closed without a shutdown message.
    ControlClosed,
    /// The wake-up timer elapsed.
    Timer,
}

/// What ends the worker other than a shutdown.
#[derive(Debug, Clone, Copy, PartialEq, Eq, Structural)]
pub enum WorkerError {
    /// The control channel closed before a shutdown was announced.
    ControlClosed,
    /// The input queue closed while no shutdown was under way.
    QueueClosed,
    /// A save file could not be written.
    Storage,
}

/// How one drain-and-persist cycle ended.
#[derive(Debug, Clone, Copy, PartialEq, Eq, Structural)]
pub enum CycleOutcome {
    /// Every group of the batch was written and flushed.
    Persisted,
    /// The input queue was found closed while no shutdown was under way.
    QueueClosed,
    /// Writing a save file failed.
    StorageFailed,
}

/// What happened outside the worker since its last decision.
#[derive(Debug, Clone, Copy, PartialEq, Eq, Structural)]
pub enum WorkerEvent {
    Woke(Wake),
    CycleEnded(CycleOutcome),
}

/// Where the worker stands.
#[derive(Debug, Clone, Copy, PartialEq, Eq, Structural)]
pub enum Phase {
    /// Blocked until the timer elapses or a control message arrives.
    Waiting,
    /// Draining the queue and persisting the batch; `last` once shutdown was requested.
    Cycle { last: bool },
    /// Terminated after the final cycle.
    Finished,
    /// Terminated by an error.
    Failed(WorkerError),
}

/// What the task that hosts the worker has to do next.
#[derive(Debug, Clone, Copy, PartialEq, Eq, Structural)]
pub enum WorkerAction {
    /// Block on timer and control channel, then report `Woke`.
    Wait,
    /// Drain the queue, persist the batch, then report `CycleEnded`.
    RunCycle { last: bool },
    /// Return normally.
    Stop,
    /// Return the error.
    Abort(WorkerError),
}

/// The phase that follows `phase` on `event`. An event that the phase does not wait for
/// changes nothing.
pub open spec fn next_phase(phase: Phase, event: WorkerEvent) -> Phase {
    match (phase, event) {
        (Phase::Waiting, WorkerEvent::Woke(Wake::Shutdown)) => Phase::Cycle { last: true },
        (Phase::Waiting, WorkerEvent::Woke(Wake::Timer)) => Phase::Cycle { last: false },
        (Phase::Waiting, WorkerEvent::Woke(Wake::ControlClosed)) => Phase::Failed(
            WorkerError::ControlClosed,
        ),
        (Phase::Cycle { last }, WorkerEvent::CycleEnded(CycleOutcome::Persisted)) => if last {
            Phase::Finished
        } else {
            Phase::Waiting
        },
        (Phase::Cycle { last }, WorkerEvent::CycleEnded(CycleOutcome::QueueClosed)) => if last {
            Phase::Finished
        } else {
            Phase::Failed(WorkerError::QueueClosed)
        },
        (Phase::Cycle { last }, WorkerEvent::CycleEnded(CycleOutcome::StorageFailed)) => Phase::Failed(
            WorkerError::Storage,
        ),
        _ => phase,
    }
}

/// The action that a phase asks for.
pub open spec fn action_of(phase: Phase) -> WorkerAction {
    match phase {
        Phase::Waiting => WorkerAction::Wait,
        Phase::Cycle { last } => WorkerAction::RunCycle { last },
        Phase::Finished => WorkerAction::Stop,
        Phase::Failed(e) => WorkerAction::Abort(e),
    }
}

/// The phase reached from `phase` after the events of `events`, in order.
pub open spec fn run(phase: Phase, events: Seq<WorkerEvent>) -> Phase
    decreases events.len(),
{
    if events.len() == 0 {
        phase
    } else {
        next_phase(run(phase, events.drop_last()), events.last())
    }
}

/// The control state of the save worker.
#[derive(Debug, Clone, Copy, PartialEq, Eq, Structural)]
pub struct SaveWorker {
    pub phase: Phase,
}

impl SaveWorker {
    /// A worker that has not run yet: it waits.
    pub fn new() -> (w: SaveWorker)
        ensures
            w.phase == Phase::Waiting,
    {
        SaveWorker { phase: Phase::Waiting }
    }

    /// The action that the worker's phase asks for.
    pub fn action(&self) -> (a: WorkerAction)
        ensures
            a == action_of(self.phase),
    {
        match self.phase {
            Phase::Waiting => WorkerAction::Wait,
            Phase::Cycle { last } => WorkerAction::RunCycle { last },
            Phase::Finished => WorkerAction::Stop,
            Phase::Failed(e) => WorkerAction::Abort(e),
        }
    }

    /// Takes note of an event and says what to do next.
    pub fn step(&mut self, event: WorkerEvent) -> (a: WorkerAction)
        ensures
            final(self).phase == next_phase(old(self).phase, event),
            a == action_of(final(self).phase),
    {
        let next = match (self.phase, event) {
            (Phase::Waiting, WorkerEvent::Woke(Wake::Shutdown)) => Phase::Cycle { last: true },
            (Phase::Waiting, WorkerEvent::Woke(Wake::Timer)) => Phase::Cycle { last: false },
            (Phase::Waiting, WorkerEvent::Woke(Wake::ControlClosed)) => Phase::Failed(
                WorkerError::ControlClosed,
            ),
            (Phase::Cycle { last }, WorkerEvent::CycleEnded(CycleOutcome::Persisted)) => if last {
                Phase::Finished
            } else {
                Phase::Waiting
            },
            (Phase::Cycle { last }, WorkerEvent::CycleEnded(CycleOutcome::QueueClosed)) => if last {
                Phase::Finished
            } else {
                Phase::Failed(WorkerError::QueueClosed)
            },
            (Phase::Cycle { last }, WorkerEvent::CycleEnded(CycleOutcome::StorageFailed)) => Phase::Failed(
                WorkerError::Storage,
            ),
            (phase, _) => phase,
        };
        self.phase = next;
        self.action()
    }
}

/// What one look at the input queue gave.
#[derive(Debug, Clone, PartialEq, Eq)]
pub enum Poll {
    /// A measurement was waiting.
    Item(Measurement),
    /// Nothing is waiting, and a sender is still alive.
    Empty,
    /// Nothing is waiting, and no sender is left.
    Disconnected,
}

/// What a poll means for the drain that is under way.
#[derive(Debug, Clone, Copy, PartialEq, Eq, Structural)]
pub enum Absorbed {
    /// The measurement joined the batch; poll again.
    More,
    /// The batch is complete.
    Complete,
    /// The queue closed outside a shutdown; the drain fails.
    Closed,
}

/// The batch after `poll`.
pub open spec fn batch_after(batch: Seq<Measurement>, poll: Poll) -> Seq<Measurement> {
    match poll {
        Poll::Item(m) => batch.push(m),
        _ => batch,
    }
}

/// What `poll` means for a drain; `last` tells whether shutdown was requested.
pub open spec fn verdict_of(poll: Poll, last: bool) -> Absorbed {
    match poll {
        Poll::Item(_) => Absorbed::More,
        Poll::Empty => Absorbed::Complete,
        Poll::Disconnected => if last {
            Absorbed::Complete
        } else {
            Absorbed::Closed
        },
    }
}

/// Takes one poll into the batch.
pub fn absorb(batch: &mut Vec<Measurement>, poll: Poll, last: bool) -> (v: Absorbed)
    ensures
        final(batch)@ == batch_after(old(batch)@, poll),
        v == verdict_of(poll, last),
{
    match poll {
        Poll::Item(m) => {
            batch.push(m);
            Absorbed::More
        },
        Poll::Empty => Absorbed::Complete,
        Poll::Disconnected => if last {
            Absorbed::Complete
        } else {
            Absorbed::Closed
        },
    }
}

/// Calls `UnboundedReceiver::try_recv`, which does not block, and hands its answer on:
/// `Ok` as `Item`, the error `Empty` as `Empty`, the error `Disconnected` as
/// `Disconnected`. Which of them comes depends on the sending tasks, so nothing is claimed.
#[verifier::external_body]
fn poll_queue(rx: &mut tokio::sync::mpsc::UnboundedReceiver<Measurement>) -> (p: Poll) {
    match rx.try_recv() {
        Ok(m) => Poll::Item(m),
        Err(tokio::sync::mpsc::error::TryRecvError::Empty) => Poll::Empty,
        Err(tokio::sync::mpsc::error::TryRecvError::Disconnected) => Poll::Disconnected,
    }
}

/// Takes every measurement that is waiting in the queue, without blocking. The drain
/// ends when the queue reports empty or closed. A closed queue is an error unless
/// shutdown was requested (`last`): then what was taken so far is the batch.
pub fn drain(rx: &mut tokio::sync::mpsc::UnboundedReceiver<Measurement>, last: bool) -> (r: Result<
    Vec<Measurement>,
    WorkerError,
>)
    ensures
        last ==> r is Ok,
        r is Err ==> r->Err_0 == WorkerError::QueueClosed,
{
    let mut batch: Vec<Measurement> = Vec::new();
    while batch.len() < usize::MAX
        invariant
            batch.len() <= usize::MAX,
        decreases usize::MAX - batch.len(),
    {
        let poll = poll_queue(rx);
        match absorb(&mut batch, poll, last) {
            Absorbed::More => {},
            Absorbed::Complete => {
                return Ok(batch);
            },
            Absorbed::Closed => {
                return Err(WorkerError::QueueClosed);
            },
        }
    }
    Ok(batch)
}

/// Puts a batch behind what a save file already holds.
pub fn append_batch(stored: Vec<Measurement>, batch: Vec<Measurement>) -> (all: Vec<Measurement>)
    ensures
        all@ == stored@ + batch@,
{
    let mut all = stored;
    let mut batch = batch;
    all.append(&mut batch);
    all
}

/// The stem of the save file of a day group: the day as `YYYY-MM-DD`, or `None` for a
/// day that the calendar cannot express.
pub fn save_file_stem(group: &DateGroup) -> (stem: Option<String>)
    ensures
        match stem {
            Some(s) => date_stem_of(group.day as int) == Some(s@),
            None => date_stem_of(group.day as int) is None,
        },
{
    if group.day < i64::MIN / SECS_PER_DAY || group.day > i64::MAX / SECS_PER_DAY {
        None
    } else {
        utc_date_stem(group.day * SECS_PER_DAY, DATE_FMT)
    }
}

/// A batch split by day is split into one group for each day that occurs in it: no
/// two groups share a day, no group is empty, a group holds exactly the measurements
/// of its day, and every measurement of the batch is in the group of its day.
pub proof fn law_one_group_per_day(groups: Seq<DateGroup>, batch: Seq<Measurement>)
    requires
        is_grouping(groups, batch),
    ensures
        forall|g: int, h: int| 0 <= g < h < groups.len() ==> (#[trigger] groups[g]).day != (#[trigger] groups[h]).day,
        forall|g: int| 0 <= g < groups.len() ==> (#[trigger] groups[g]).items@.len() > 0,
        forall|g: int, k: int|
            0 <= g < groups.len() && 0 <= k < groups[g].items@.len() ==> {
                &&& batch.contains(#[trigger] groups[g].items@[k])
                &&& groups[g].items@[k].time.day() == groups[g].day
            },
        forall|i: int|
            0 <= i < batch.len() ==> exists|g: int|
                0 <= g < groups.len() && (#[trigger] groups[g]).day == (#[trigger] batch[i]).time.day()
                    && groups[g].items@.contains(batch[i]),
{
    lemma_days_distinct(batch);
    assert forall|g: int, h: int| 0 <= g < h < groups.len() implies (#[trigger] groups[g]).day != (
    #[trigger] groups[h]).day by {
        assert(days_of(batch)[g] != days_of(batch)[h]);
    }
    assert forall|g: int| 0 <= g < groups.len() implies (#[trigger] groups[g]).items@.len() > 0 by {
        let day = groups[g].day as int;
        assert(days_of(batch)[g] == day);
        assert(days_of(batch).contains(day));
        lemma_days_cover(batch, day);
        let i = choose|i: int| 0 <= i < batch.len() && (#[trigger] batch[i]).time.day() == day;
        lemma_on_day_holds(batch, day, i);
    }
    assert forall|g: int, k: int| 0 <= g < groups.len() && 0 <= k < groups[g].items@.len() implies {
        &&& batch.contains(#[trigger] groups[g].items@[k])
        &&& groups[g].items@[k].time.day() == groups[g].day
    } by {
        let day = groups[g].day as int;
        let pred = |m: Measurement| m.time.day() == day;
        let item = groups[g].items@[k];
        assert(batch.filter(pred)[k] == item);
        batch.lemma_filter_pred(pred, k);
        assert(pred(item));
        assert(batch.filter(pred).contains(item));
        batch.lemma_filter_contains_rev(pred, item);
    }
    assert forall|i: int| 0 <= i < batch.len() implies exists|g: int|
        0 <= g < groups.len() && (#[trigger] groups[g]).day == (#[trigger] batch[i]).time.day()
            && groups[g].items@.contains(batch[i]) by {
        let day = batch[i].time.day();
        lemma_days_cover(batch, day);
        let g = choose|g: int| 0 <= g < days_of(batch).len() && days_of(batch)[g] == day;
        assert(groups[g].day == day);
        lemma_on_day_holds(batch, day, i);
    }
}

proof fn lemma_on_day_holds(batch: Seq<Measurement>, day: int, i: int)
    requires
        0 <= i < batch.len(),
        batch[i].time.day() == day,
    ensures
        on_day(batch, day).contains(batch[i]),
{
    let pred = |m: Measurement| m.time.day() == day;
    assert(pred(batch[i]));
    batch.lemma_filter_contains(pred, i);
}

/// Once shutdown has woken the worker it runs one final cycle: no event leads back
/// to waiting or to a cycle that is not the last, the final cycle ends the worker
/// when its batch is persisted, and a finished worker stays finished.
pub proof fn law_shutdown_drains_once(events: Seq<WorkerEvent>)
    ensures
        next_phase(Phase::Waiting, WorkerEvent::Woke(Wake::Shutdown)) == (Phase::Cycle { last: true }),
        action_of(Phase::Cycle { last: true }) == (WorkerAction::RunCycle { last: true }),
        next_phase(Phase::Cycle { last: true }, WorkerEvent::CycleEnded(CycleOutcome::Persisted)) == Phase::Finished,
        run(Phase::Cycle { last: true }, events) == (Phase::Cycle { last: true }) || run(
            Phase::Cycle { last: true },
            events,
        ) == Phase::Finished || run(Phase::Cycle { last: true }, events) == Phase::Failed(WorkerError::Storage),
        run(Phase::Finished, events) == Phase::Finished,
    decreases events.len(),
{
    if events.len() > 0 {
        law_shutdown_drains_once(events.drop_last());
    }
}

/// While no shutdown is under way, a cycle whose batch is persisted leads back to
/// waiting, and the worker leaves a cycle only through the report of its end.
pub proof fn law_cycle_returns_to_waiting(event: WorkerEvent)
    ensures
        next_phase(Phase::Cycle { last: false }, WorkerEvent::CycleEnded(CycleOutcome::Persisted)) == Phase::Waiting,
        event is Woke ==> next_phase(Phase::Cycle { last: false }, event) == (Phase::Cycle { last: false }),
        event is Woke ==> next_phase(Phase::Cycle { last: true }, event) == (Phase::Cycle { last: true }),
{
}

/// Appending a batch keeps what was stored: the stored measurements come first,
/// unchanged and in their order, the batch follows in its order, and nothing else
/// is added.
pub proof fn law_append_keeps_stored(stored: Seq<Measurement>, batch: Seq<Measurement>)
    ensures
        (stored + batch).len() == stored.len() + batch.len(),
        (stored + batch).take(stored.len() as int) == stored,
        (stored + batch).skip(stored.len() as int) == batch,
        forall|i: int| 0 <= i < stored.len() ==> (stored + batch)[i] == stored[i],
        forall|i: int| 0 <= i < batch.len() ==> (stored + batch)[stored.len() + i] == batch[i],
{
    assert((stored + batch).take(stored.len() as int) =~= stored);
    assert((stored + batch).skip(stored.len() as int) =~= batch);
}

/// The batch after the polls of `polls`, in order.
pub open spec fn batch_after_all(batch: Seq<Measurement>, polls: Seq<Poll>) -> Seq<Measurement>
    decreases polls.len(),
{
    if polls.len() == 0 {
        batch
    } else {
        batch_after(batch_after_all(batch, polls.drop_last()), polls.last())
    }
}

/// A drain keeps every measurement that the queue hands out, in the order in which
/// it hands them out, behind what the batch held before; polls that hand out nothing
/// change nothing.
pub proof fn law_drain_keeps_every_item(batch: Seq<Measurement>, items: Seq<Measurement>)
    ensures
        batch_after_all(batch, Seq::new(items.len(), |i: int| Poll::Item(items[i]))) == batch + items,
        batch_after(batch, Poll::Empty) == batch,
        batch_after(batch, Poll::Disconnected) == batch,
    decreases items.len(),
{
    let polls = Seq::new(items.len(), |i: int| Poll::Item(items[i]));
    if items.len() == 0 {
        assert(batch + items =~= batch);
    } else {
        let head = items.drop_last();
        law_drain_keeps_every_item(batch, head);
        assert(polls.drop_last() =~= Seq::new(head.len(), |i: int| Poll::Item(head[i])));
        assert(batch + items =~= (batch + head).push(items.last()));
    }
}

/// The number of measurements in all groups together.
pub open spec fn total_items(groups: Seq<DateGroup>) -> nat
    decreases groups.len(),
{
    if groups.len() == 0 {
        0
    } else {
        total_items(groups.drop_last()) + groups.last().items@.len()
    }
}

/// The number of measurements of `batch` on the days of `days` together.
pub open spec fn count_on(days: Seq<int>, batch: Seq<Measurement>) -> nat
    decreases days.len(),
{
    if days.len() == 0 {
        0
    } else {
        count_on(days.drop_last(), batch) + on_day(batch, days.last()).len()
    }
}

/// Splitting a batch by day neither drops nor repeats a measurement: the groups
/// hold together as many measurements as the batch.
pub proof fn law_grouping_keeps_count(groups: Seq<DateGroup>, batch: Seq<Measurement>)
    requires
        is_grouping(groups, batch),
    ensures
        total_items(groups) == batch.len(),
{
    lemma_total_is_count(groups, batch, groups.len());
    assert(groups.take(groups.len() as int) =~= groups);
    assert(days_of(batch).take(groups.len() as int) =~= days_of(batch));
    lemma_count_on_days(batch);
}

proof fn lemma_total_is_count(groups: Seq<DateGroup>, batch: Seq<Measurement>, n: nat)
    requires
        is_grouping(groups, batch),
        n <= groups.len(),
    ensures
        total_items(groups.take(n as int)) == count_on(days_of(batch).take(n as int), batch),
    decreases n,
{
    if n > 0 {
        lemma_total_is_count(groups, batch, (n - 1) as nat);
        assert(groups.take(n as int).drop_last() =~= groups.take(n - 1));
        assert(days_of(batch).take(n as int).drop_last() =~= days_of(batch).take(n - 1));
        assert(groups.take(n as int).last() == groups[n - 1]);
        assert(days_of(batch).take(n as int).last() == days_of(batch)[n - 1]);
    }
}

proof fn lemma_count_on_push(days: Seq<int>, batch: Seq<Measurement>, m: Measurement)
    requires
        days.no_duplicates(),
    ensures
        count_on(days, batch.push(m)) == count_on(days, batch) + if days.contains(m.time.day()) {
            1nat
        } else {
            0nat
        },
    decreases days.len(),
{
    if days.len() > 0 {
        let head = days.drop_last();
        assert forall|i: int, j: int| 0 <= i < head.len() && 0 <= j < head.len() && i != j implies head[i] != head[j] by {
            assert(days[i] != days[j]);
        }
        lemma_count_on_push(head, batch, m);
        lemma_on_day_push(batch, m, days.last());
        if days.last() == m.time.day() {
            if head.contains(m.time.day()) {
                let i = choose|i: int| 0 <= i < head.len() && head[i] == m.time.day();
                assert(days[i] == days[days.len() - 1]);
            }
            assert(days[days.len() - 1] == m.time.day());
        } else {
            if days.contains(m.time.day()) {
                let i = choose|i: int| 0 <= i < days.len() && days[i] == m.time.day();
                assert(head[i] == m.time.day());
            }
            if head.contains(m.time.day()) {
                let i = choose|i: int| 0 <= i < head.len() && head[i] == m.time.day();
                assert(days[i] == m.time.day());
            }
        }
    }
}

proof fn lemma_count_on_days(batch: Seq<Measurement>)
    ensures
        count_on(days_of(batch), batch) == batch.len(),
    decreases batch.len(),
{
    if batch.len() > 0 {
        let head = batch.drop_last();
        let m = batch.last();
        let day = m.time.day();
        lemma_count_on_days(head);
        lemma_days_distinct(head);
        assert(head.push(m) =~= batch);
        lemma_count_on_push(days_of(head), head, m);
        if !days_of(head).contains(day) {
            lemma_on_day_absent(head, day);
            lemma_on_day_push(head, m, day);
            assert(days_of(batch).drop_last() =~= days_of(head));
        }
    }
}

} // verus!
