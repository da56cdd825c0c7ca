//! The task runner: it drains a queue of tasks in batches of bounded size,
//! keeps what succeeded, and puts what failed back into the queue once the
//! credential has been refreshed.
//!
//! The runner decides; it performs nothing itself. Its owner asks for the
//! next action, performs it, and reports what happened.

use std::collections::VecDeque;
use vstd::prelude::*;

verus! {

/// The phase that a queue of tasks belongs to.
#[derive(Debug, Clone, Copy, PartialEq, Eq, Structural)]
pub enum TaskType {
    AttributeScrape,
    ComponentCount,
    ComponentScrape,
}

/// What the owner of a runner has to do next.
#[derive(Debug, Clone, Copy, PartialEq, Eq, Structural)]
pub enum RunnerAction {
    /// Perform the tasks in flight, wait for every one of them, and report
    /// their outcomes in the order of the tasks.
    Launch { count: usize },
    /// Tell the user that this many tasks of the last batch failed, obtain a
    /// fresh credential, and report that it was refreshed.
    Refresh { failed: usize },
    /// The queue is drained and nothing is in flight.
    Finished,
}

/// The results of the tasks that succeeded, in the order of the outcomes.
pub open spec fn successes<R, E>(outcomes: Seq<Result<R, E>>) -> Seq<R>
    decreases outcomes.len(),
{
    if outcomes.len() == 0 {
        Seq::empty()
    } else {
        let before = successes(outcomes.drop_last());
        match outcomes.last() {
            Ok(r) => before.push(r),
            Err(_) => before,
        }
    }
}

/// The tasks that failed, in their order: those whose outcome is an error,
/// and those that have no outcome.
pub open spec fn failures<T, R, E>(tasks: Seq<T>, outcomes: Seq<Result<R, E>>) -> Seq<T>
    decreases tasks.len(),
{
    if tasks.len() == 0 {
        Seq::empty()
    } else {
        let before = failures(tasks.drop_last(), outcomes);
        let i = tasks.len() - 1;
        if i < outcomes.len() && outcomes[i] is Ok {
            before
        } else {
            before.push(tasks.last())
        }
    }
}

/// The outcomes that belong to the tasks: one for each task at most.
pub open spec fn matched<R, E>(count: nat, outcomes: Seq<Result<R, E>>) -> Seq<Result<R, E>> {
    if outcomes.len() <= count {
        outcomes
    } else {
        outcomes.take(count as int)
    }
}

/// The mathematical content of a [`TaskRunner`].
pub struct RunnerModel<T, R> {
    /// The tasks that wait, the next one first.
    pub queue: Seq<T>,
    /// The tasks of the current batch.
    pub in_flight: Seq<T>,
    /// The results of the tasks that succeeded.
    pub results: Seq<R>,
    /// The number of tasks of the last batch that failed, until the
    /// credential has been refreshed.
    pub failed: nat,
    /// The largest number of tasks in one batch.
    pub batch_size: nat,
    /// The phase that the tasks belong to.
    pub task_type: TaskType,
}

impl<T, R> RunnerModel<T, R> {
    /// A runner before its first batch.
    pub open spec fn start(task_type: TaskType, queue: Seq<T>, batch_size: nat) -> Self {
        RunnerModel {
            queue,
            in_flight: Seq::empty(),
            results: Seq::empty(),
            failed: 0,
            batch_size,
            task_type,
        }
    }

    /// The number of tasks that the next batch takes from the queue. A
    /// batch size of zero takes one task at a time.
    pub open spec fn batch_len(self) -> nat {
        let limit = if self.batch_size == 0 {
            1
        } else {
            self.batch_size
        };
        if self.queue.len() <= limit {
            self.queue.len()
        } else {
            limit
        }
    }

    /// Whether the next action forms a new batch.
    pub open spec fn forms_batch(self) -> bool {
        self.failed == 0 && self.in_flight.len() == 0 && self.queue.len() > 0
    }

    /// The runner after it was asked for the next action: where no refresh
    /// is awaited and nothing is in flight, the next batch has left the queue.
    pub open spec fn advanced(self) -> Self {
        if self.forms_batch() {
            RunnerModel {
                queue: self.queue.skip(self.batch_len() as int),
                in_flight: self.queue.take(self.batch_len() as int),
                results: self.results,
                failed: self.failed,
                batch_size: self.batch_size,
                task_type: self.task_type,
            }
        } else {
            self
        }
    }

    /// The action that the runner asks for in this state, taken after
    /// [`RunnerModel::advanced`].
    pub open spec fn action(self) -> RunnerAction {
        if self.failed > 0 {
            RunnerAction::Refresh { failed: self.failed as usize }
        } else if self.in_flight.len() > 0 {
            RunnerAction::Launch { count: self.in_flight.len() as usize }
        } else {
            RunnerAction::Finished
        }
    }

    /// The runner after the batch in flight has resolved: the successes are
    /// kept, the failed tasks go to the back of the queue, and only they.
    pub open spec fn resolved<E>(self, outcomes: Seq<Result<R, E>>) -> Self {
        RunnerModel {
            queue: self.queue + failures(self.in_flight, outcomes),
            in_flight: Seq::empty(),
            results: self.results + successes(matched(self.in_flight.len(), outcomes)),
            failed: failures(self.in_flight, outcomes).len(),
            batch_size: self.batch_size,
            task_type: self.task_type,
        }
    }

    /// The runner after the credential has been refreshed.
    pub open spec fn refreshed(self) -> Self {
        RunnerModel {
            queue: self.queue,
            in_flight: self.in_flight,
            results: self.results,
            failed: 0,
            batch_size: self.batch_size,
            task_type: self.task_type,
        }
    }

    /// The number of tasks that the runner holds in any state: done,
    /// waiting or in flight.
    pub open spec fn task_count(self) -> nat {
        self.results.len() + self.queue.len() + self.in_flight.len()
    }
}

/// Every outcome that belongs to a task is a success or leaves its task
/// among the failures: their numbers add up to the number of tasks.
pub proof fn lemma_outcomes_partition<T, R, E>(tasks: Seq<T>, outcomes: Seq<Result<R, E>>)
    ensures
        successes(matched(tasks.len(), outcomes)).len() + failures(tasks, outcomes).len()
            == tasks.len(),
    decreases tasks.len(),
{
    if tasks.len() == 0 {
        assert(matched(0, outcomes) =~= Seq::<Result<R, E>>::empty());
    } else {
        let i = tasks.len() - 1;
        lemma_outcomes_partition(tasks.drop_last(), outcomes);
        if i < outcomes.len() {
            assert(matched(tasks.len(), outcomes).drop_last() =~= matched(
                tasks.drop_last().len(),
                outcomes,
            ));
            assert(matched(tasks.len(), outcomes).last() == outcomes[i]);
        } else {
            assert(matched(tasks.len(), outcomes) =~= matched(tasks.drop_last().len(), outcomes));
        }
    }
}

/// A failed task is among the failures, and so is requeued.
pub proof fn lemma_failed_task_is_requeued<T, R, E>(
    tasks: Seq<T>,
    outcomes: Seq<Result<R, E>>,
    i: int,
)
    requires
        0 <= i < tasks.len(),
        i >= outcomes.len() || outcomes[i] is Err,
    ensures
        failures(tasks, outcomes).contains(tasks[i]),
    decreases tasks.len(),
{
    let last = tasks.len() - 1;
    let before = failures(tasks.drop_last(), outcomes);
    if i == last {
        assert(failures(tasks, outcomes) == before.push(tasks.last()));
        assert(before.push(tasks.last())[before.len() as int] == tasks[i]);
    } else {
        lemma_failed_task_is_requeued(tasks.drop_last(), outcomes, i);
        let k = choose|k: int| 0 <= k < before.len() && before[k] == tasks.drop_last()[i];
        assert(failures(tasks, outcomes)[k] == tasks[i]);
    }
}

/// What can happen to a runner.
pub enum RunnerEvent<R, E> {
    /// The owner asked for the next action.
    Asked,
    /// The batch in flight resolved with these outcomes.
    Resolved(Seq<Result<R, E>>),
    /// The credential was refreshed.
    Refreshed,
}

impl<T, R> RunnerModel<T, R> {
    /// The runner after an event.
    pub open spec fn after<E>(self, event: RunnerEvent<R, E>) -> Self {
        match event {
            RunnerEvent::Asked => self.advanced(),
            RunnerEvent::Resolved(outcomes) => self.resolved(outcomes),
            RunnerEvent::Refreshed => self.refreshed(),
        }
    }

    /// The runner after a sequence of events, taken in order.
    pub open spec fn after_all<E>(self, events: Seq<RunnerEvent<R, E>>) -> Self
        decreases events.len(),
    {
        if events.len() == 0 {
            self
        } else {
            self.after_all(events.drop_last()).after(events.last())
        }
    }
}

/// No event loses or adds a task: what is done, waiting or in flight adds
/// up to the same number before and after.
pub proof fn lemma_event_keeps_tasks<T, R, E>(m: RunnerModel<T, R>, event: RunnerEvent<R, E>)
    ensures
        m.after(event).task_count() == m.task_count(),
        m.after(event).batch_size == m.batch_size,
        m.after(event).task_type == m.task_type,
{
    match event {
        RunnerEvent::Asked => {},
        RunnerEvent::Resolved(outcomes) => {
            lemma_outcomes_partition(m.in_flight, outcomes);
        },
        RunnerEvent::Refreshed => {},
    }
}

/// For any queue, any batch size and any course of events: the runner
/// holds as many tasks as were queued, and when it reports that it has
/// finished, it has exactly one result for each of them.
pub proof fn lemma_finished_with_every_task<T, R, E>(
    task_type: TaskType,
    queue: Seq<T>,
    batch_size: nat,
    events: Seq<RunnerEvent<R, E>>,
)
    ensures
        ({
            let m = RunnerModel::<T, R>::start(task_type, queue, batch_size).after_all(events);
            &&& m.task_count() == queue.len()
            &&& m.advanced().action() is Finished ==> m.results.len() == queue.len()
        }),
    decreases events.len(),
{
    let start = RunnerModel::<T, R>::start(task_type, queue, batch_size);
    if events.len() > 0 {
        lemma_finished_with_every_task::<T, R, E>(
            task_type,
            queue,
            batch_size,
            events.drop_last(),
        );
        lemma_event_keeps_tasks(start.after_all(events.drop_last()), events.last());
    }
}

/// After a batch in which a task failed, the task waits in the queue
/// again, and the runner launches nothing until the credential has been
/// refreshed.
pub proof fn lemma_failure_waits_for_refresh<T, R, E>(
    m: RunnerModel<T, R>,
    outcomes: Seq<Result<R, E>>,
    i: int,
)
    requires
        0 <= i < m.in_flight.len(),
        i >= outcomes.len() || outcomes[i] is Err,
    ensures
        m.resolved(outcomes).queue.contains(m.in_flight[i]),
        m.resolved(outcomes).advanced() == m.resolved(outcomes),
        m.resolved(outcomes).action() is Refresh,
        m.resolved(outcomes).refreshed().forms_batch(),
{
    lemma_failed_task_is_requeued(m.in_flight, outcomes, i);
    let requeued = failures(m.in_flight, outcomes);
    let k = choose|k: int| 0 <= k < requeued.len() && requeued[k] == m.in_flight[i];
    assert(m.resolved(outcomes).queue[m.queue.len() + k] == m.in_flight[i]);
}

/// The vector with its elements in the opposite order.
fn reversed<A>(v: Vec<A>) -> (r: Vec<A>)
    ensures
        r@ == v@.reverse(),
{
    let ghost all = v@;
    let mut v = v;
    let mut out: Vec<A> = Vec::new();
    while v.len() > 0
        invariant
            v@.len() + out@.len() == all.len(),
            v@ == all.take(v@.len() as int),
            forall|j: int| 0 <= j < out@.len() ==> out@[j] == all[all.len() - 1 - j],
        decreases v.len(),
    {
        match v.pop() {
            Some(x) => {
                out.push(x);
            },
            None => {},
        }
    }
    assert(out@ =~= all.reverse());
    out
}

/// Drains a queue of tasks in batches. `T` is what a task is made from,
/// `R` what it results in.
pub struct TaskRunner<T, R> {
    task_type: TaskType,
    batch_size: usize,
    queue: VecDeque<T>,
    in_flight: VecDeque<T>,
    results: Vec<R>,
    failed: usize,
}

impl<T, R> View for TaskRunner<T, R> {
    type V = RunnerModel<T, R>;

    closed spec fn view(&self) -> RunnerModel<T, R> {
        RunnerModel {
            queue: self.queue@,
            in_flight: self.in_flight@,
            results: self.results@,
            failed: self.failed as nat,
            batch_size: self.batch_size as nat,
            task_type: self.task_type,
        }
    }
}

impl<T, R> TaskRunner<T, R> {
    /// A runner over the given queue, the first task first.
    pub fn new(task_type: TaskType, queue: Vec<T>, batch_size: usize) -> (r: Self)
        ensures
            r@ == RunnerModel::<T, R>::start(task_type, queue@, batch_size as nat),
    {
        let ghost all = queue@;
        let mut rest = reversed(queue);
        let mut waiting: VecDeque<T> = VecDeque::new();
        while rest.len() > 0
            invariant
                rest@.len() + waiting@.len() == all.len(),
                rest@ == all.reverse().take(rest@.len() as int),
                waiting@ == all.take(waiting@.len() as int),
            decreases rest.len(),
        {
            match rest.pop() {
                Some(x) => {
                    let ghost n = waiting@.len() as int;
                    waiting.push_back(x);
                    assert(waiting@ =~= all.take(n + 1));
                },
                None => {},
            }
        }
        assert(waiting@ =~= all);
        TaskRunner {
            task_type,
            batch_size,
            queue: waiting,
            in_flight: VecDeque::new(),
            results: Vec::new(),
            failed: 0,
        }
    }

    /// The phase that the tasks belong to.
    pub fn task_type(&self) -> (r: TaskType)
        ensures
            r == self@.task_type,
    {
        self.task_type
    }

    /// The tasks of the current batch, in their order.
    pub fn in_flight(&self) -> (r: &VecDeque<T>)
        ensures
            r@ == self@.in_flight,
    {
        &self.in_flight
    }

    /// The number of tasks that wait in the queue.
    pub fn remaining(&self) -> (n: usize)
        ensures
            n == self@.queue.len(),
    {
        self.queue.len()
    }

    /// What to do next. While a refresh of the credential is awaited, or a
    /// batch is in flight, the answer repeats and nothing changes.
    /// Otherwise the next batch leaves the queue: as many tasks as the batch
    /// size allows. With an empty queue the runner has finished.
    pub fn next_action(&mut self) -> (r: RunnerAction)
        ensures
            final(self)@ == old(self)@.advanced(),
            r == final(self)@.action(),
    {
        if self.failed > 0 {
            return RunnerAction::Refresh { failed: self.failed };
        }
        if self.in_flight.len() > 0 {
            return RunnerAction::Launch { count: self.in_flight.len() };
        }
        if self.queue.len() == 0 {
            return RunnerAction::Finished;
        }
        let limit: usize = if self.batch_size == 0 {
            1
        } else {
            self.batch_size
        };
        let n: usize = if self.queue.len() <= limit {
            self.queue.len()
        } else {
            limit
        };
        let ghost before = self.queue@;
        let mut moved: usize = 0;
        while moved < n
            invariant
                moved <= n <= before.len(),
                self.queue@ == before.skip(moved as int),
                self.in_flight@ == before.take(moved as int),
                self.failed == old(self).failed,
                self.batch_size == old(self).batch_size,
                self.results == old(self).results,
                self.task_type == old(self).task_type,
            decreases n - moved,
        {
            match self.queue.pop_front() {
                Some(task) => {
                    self.in_flight.push_back(task);
                    assert(self.queue@ =~= before.skip(moved + 1));
                    assert(self.in_flight@ =~= before.take(moved + 1));
                },
                None => {},
            }
            moved = moved + 1;
        }
        RunnerAction::Launch { count: n }
    }

    /// Takes the outcomes of the batch in flight, in the order of its tasks.
    /// The successes are kept. Every failed task goes to the back of the
    /// queue, and only those; a task without an outcome counts as failed,
    /// and an outcome without a task is dropped. If any task failed, the
    /// runner asks for a refresh of the credential before the next batch.
    pub fn batch_resolved<E>(&mut self, outcomes: Vec<Result<R, E>>)
        ensures
            final(self)@ == old(self)@.resolved(outcomes@),
    {
        let ghost outs = outcomes@;
        let ghost tasks = self.in_flight@;
        let ghost queue_before = self.queue@;
        let ghost results_before = self.results@;
        let count: usize = self.in_flight.len();
        let mut rest = reversed(outcomes);
        let mut failed: usize = 0;
        let mut done: usize = 0;
        assert(tasks.take(0) =~= Seq::<T>::empty());
        assert(matched(0, outs) =~= Seq::<Result<R, E>>::empty());
        while self.in_flight.len() > 0
            invariant
                done <= tasks.len(),
                tasks.len() == count,
                self.in_flight@ == tasks.skip(done as int),
                rest@.len() == if done <= outs.len() {
                    outs.len() - done
                } else {
                    0
                },
                forall|j: int| 0 <= j < rest@.len() ==> rest@[j] == outs[outs.len() - 1 - j],
                self.queue@ == queue_before + failures(tasks.take(done as int), outs),
                self.results@ == results_before + successes(matched(done as nat, outs)),
                failed == failures(tasks.take(done as int), outs).len(),
                failed <= done,
                self.batch_size == old(self).batch_size,
                self.task_type == old(self).task_type,
            decreases self.in_flight.len(),
        {
            let ghost next = tasks.take(done + 1);
            proof {
                assert(next.drop_last() =~= tasks.take(done as int));
                assert(next.last() == tasks[done as int]);
                if done < outs.len() {
                    assert(matched((done + 1) as nat, outs).drop_last() =~= matched(
                        done as nat,
                        outs,
                    ));
                    assert(matched((done + 1) as nat, outs).last() == outs[done as int]);
                } else {
                    assert(matched((done + 1) as nat, outs) =~= matched(done as nat, outs));
                }
            }
            let task = self.in_flight.pop_front();
            let outcome = rest.pop();
            match task {
                Some(task) => {
                    match outcome {
                        Some(Ok(result)) => {
                            self.results.push(result);
                            assert(self.results@ =~= results_before + successes(
                                matched((done + 1) as nat, outs),
                            ));
                        },
                        _ => {
                            self.queue.push_back(task);
                            failed = failed + 1;
                            assert(self.queue@ =~= queue_before + failures(next, outs));
                        },
                    }
                },
                None => {},
            }
            assert(self.in_flight@ =~= tasks.skip(done + 1));
            done = done + 1;
        }
        assert(tasks.take(done as int) =~= tasks);
        assert(self.in_flight@ =~= Seq::<T>::empty());
        self.failed = failed;
    }

    /// Reports that the credential has been refreshed: the runner goes on
    /// with the next batch.
    pub fn credential_refreshed(&mut self)
        ensures
            final(self)@ == old(self)@.refreshed(),
    {
        self.failed = 0;
    }

    /// The results collected so far: all of them once the runner has
    /// finished.
    pub fn into_results(self) -> (r: Vec<R>)
        ensures
            r@ == self@.results,
    {
        self.results
    }
}

} // verus!
