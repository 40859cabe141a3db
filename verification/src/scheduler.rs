//! The run queue and the handles that put a task back on it.
use std::collections::VecDeque;
use std::sync::Arc;
use vstd::prelude::*;

verus! {

/// A task that the run queue and any number of wakers hold together.
pub type SharedTask<Task> = Arc<Task>;

/// Another handle on the task behind `task`, made by `Arc::clone`.
///
/// Taken on trust: cloning an `Arc` yields a pointer to the same allocation, so both
/// handles denote the same task.
#[verifier::external_body]
fn share<Task>(task: &SharedTask<Task>) -> (shared: SharedTask<Task>)
    ensures
        shared == *task,
{
    Arc::clone(task)
}

/// Reschedules the task that it was made for.
pub struct Waker<Task> {
    task: SharedTask<Task>,
}

impl<Task> Waker<Task> {
    /// The task that `wake` puts back on the run queue.
    pub closed spec fn task(self) -> SharedTask<Task> {
        self.task
    }

    /// Puts the task at the back of the run queue.
    pub fn wake(&self, scheduler: &mut Scheduler<Task>)
        ensures
            final(scheduler)@ == old(scheduler)@.push(self.task()),
    {
        scheduler.runnable.push_back(share(&self.task));
    }
}

impl<Task> Clone for Waker<Task> {
    /// A waker of the same task.
    fn clone(&self) -> (waker: Self)
        ensures
            waker == *self,
    {
        Waker { task: share(&self.task) }
    }
}

/// What the scheduler's loop does next.
pub enum Step<Task> {
    /// Poll `task`, handing it `waker`.
    Poll { task: SharedTask<Task>, waker: Waker<Task> },
    /// No task is runnable: block on the reactor until something becomes ready.
    Wait,
}

/// The queue of runnable tasks, first in, first out.
pub struct Scheduler<Task> {
    runnable: VecDeque<SharedTask<Task>>,
}

impl<Task> View for Scheduler<Task> {
    type V = Seq<SharedTask<Task>>;

    /// The runnable tasks, the next one to run first.
    closed spec fn view(&self) -> Seq<SharedTask<Task>> {
        self.runnable@
    }
}

impl<Task> Default for Scheduler<Task> {
    /// A scheduler with nothing to run.
    fn default() -> (scheduler: Self)
        ensures
            scheduler@ == Seq::<SharedTask<Task>>::empty(),
    {
        Scheduler { runnable: VecDeque::new() }
    }
}

impl<Task> Scheduler<Task> {
    /// Puts a new task at the back of the run queue.
    pub fn spawn(&mut self, task: Task)
        ensures
            final(self)@ == old(self)@.push(Arc::new(task)),
    {
        self.runnable.push_back(Arc::new(task));
    }

    /// Takes one turn of the scheduler's loop.
    ///
    /// The task at the front of the queue leaves it and is to be polled, with a waker that
    /// puts this same task back; with an empty queue the loop has to wait for the reactor.
    pub fn run(&mut self) -> (step: Step<Task>)
        ensures
            final(self)@ == after_run(old(self)@),
            match step {
                Step::Poll { task, waker } => {
                    &&& old(self)@.len() > 0
                    &&& task == old(self)@[0]
                    &&& old(self)@ == seq![task] + final(self)@
                    &&& waker.task() == task
                },
                Step::Wait => old(self)@.len() == 0 && final(self)@.len() == 0,
            },
    {
        match self.runnable.pop_front() {
            Some(task) => {
                assert(old(self)@ == seq![task] + self@);
                let waker = Waker { task: share(&task) };
                Step::Poll { task, waker }
            },
            None => Step::Wait,
        }
    }
}

/// The queue once `run` has taken the task at its front, if there is one.
pub open spec fn after_run<Task>(queue: Seq<SharedTask<Task>>) -> Seq<SharedTask<Task>> {
    if queue.len() == 0 {
        queue
    } else {
        queue.drop_first()
    }
}

/// A turn takes the task at the front and no other: put back there, it makes the queue what it
/// was. With nothing to take, nothing changes.
pub proof fn law_turn_takes_the_front<Task>(queue: Seq<SharedTask<Task>>)
    ensures
        queue.len() > 0 ==> seq![queue[0]] + after_run(queue) == queue,
        queue.len() == 0 ==> after_run(queue) == queue,
{
    if queue.len() > 0 {
        assert(seq![queue[0]] + after_run(queue) =~= queue);
    }
}

/// One thing that can happen to a run queue.
pub enum QueueEvent<Task> {
    /// A task is put at the back, by `spawn` or by `wake`.
    Push(SharedTask<Task>),
    /// The loop takes a turn.
    Run,
}

/// The queue that `events` lead to from `queue`.
pub open spec fn queue_after<Task>(
    queue: Seq<SharedTask<Task>>,
    events: Seq<QueueEvent<Task>>,
) -> Seq<SharedTask<Task>>
    decreases events.len(),
{
    if events.len() == 0 {
        queue
    } else {
        let before = queue_after(queue, events.drop_last());
        match events.last() {
            QueueEvent::Push(task) => before.push(task),
            QueueEvent::Run => after_run(before),
        }
    }
}

/// The tasks that were put at the back of the queue in `events`, in order.
pub open spec fn pushed<Task>(events: Seq<QueueEvent<Task>>) -> Seq<SharedTask<Task>>
    decreases events.len(),
{
    if events.len() == 0 {
        Seq::empty()
    } else {
        match events.last() {
            QueueEvent::Push(task) => pushed(events.drop_last()).push(task),
            QueueEvent::Run => pushed(events.drop_last()),
        }
    }
}

/// The tasks that the loop polled in `events`, in order.
pub open spec fn polled<Task>(
    queue: Seq<SharedTask<Task>>,
    events: Seq<QueueEvent<Task>>,
) -> Seq<SharedTask<Task>>
    decreases events.len(),
{
    if events.len() == 0 {
        Seq::empty()
    } else {
        let earlier = polled(queue, events.drop_last());
        let before = queue_after(queue, events.drop_last());
        if events.last() is Run && before.len() > 0 {
            earlier.push(before[0])
        } else {
            earlier
        }
    }
}

/// Tasks are polled in the order in which they were spawned or woken, each once per time:
/// whatever happens to a queue, what was polled followed by what still waits is what
/// waited at first followed by what was put on the queue.
pub proof fn law_polls_in_order<Task>(
    queue: Seq<SharedTask<Task>>,
    events: Seq<QueueEvent<Task>>,
)
    ensures
        polled(queue, events) + queue_after(queue, events) == queue + pushed(events),
    decreases events.len(),
{
    if events.len() > 0 {
        let earlier = events.drop_last();
        law_polls_in_order(queue, earlier);
        let before = queue_after(queue, earlier);
        match events.last() {
            QueueEvent::Push(task) => {
                assert(polled(queue, events) + before.push(task) == (polled(queue, earlier)
                    + before).push(task));
                assert(queue + pushed(events) == (queue + pushed(earlier)).push(task));
            },
            QueueEvent::Run => {
                if before.len() > 0 {
                    assert(polled(queue, earlier).push(before[0]) + before.drop_first()
                        == polled(queue, earlier) + before);
                }
            },
        }
    } else {
        assert(polled(queue, events) + queue_after(queue, events) == queue + pushed(events));
    }
}

} // verus!
