//! Work that another thread does while a task waits for it.
use crate::scheduler::{Scheduler, SharedTask, Waker};
use vstd::prelude::*;

verus! {

/// Whether the work is done, and the waker of the task that waits for it.
pub struct Blocking<Task> {
    done: bool,
    waker: Option<Waker<Task>>,
}

/// What a [`Blocking`] holds.
pub struct BlockingState<Task> {
    /// Whether the work is done.
    pub done: bool,
    /// The waker of the task that waits.
    pub waker: Option<Waker<Task>>,
}

impl<Task> BlockingState<Task> {
    /// The state once a task has polled with `waker`, which waits unless the work is done.
    pub open spec fn polled(self, waker: Waker<Task>) -> BlockingState<Task> {
        if self.done {
            self
        } else {
            BlockingState { waker: Some(waker), ..self }
        }
    }

    /// The state once the work is done.
    pub open spec fn completed(self) -> BlockingState<Task> {
        BlockingState { done: true, waker: None }
    }

    /// The tasks that the end of the work wakes: the one that waits, if one does.
    pub open spec fn wakes(self) -> Seq<SharedTask<Task>> {
        match self.waker {
            Some(waker) => seq![waker.task()],
            None => Seq::empty(),
        }
    }

    /// The state once each of `wakers` has polled.
    pub open spec fn polled_all(self, wakers: Seq<Waker<Task>>) -> BlockingState<Task>
        decreases wakers.len(),
    {
        if wakers.len() == 0 {
            self
        } else {
            self.polled_all(wakers.drop_last()).polled(wakers.last())
        }
    }
}

impl<Task> View for Blocking<Task> {
    type V = BlockingState<Task>;

    closed spec fn view(&self) -> BlockingState<Task> {
        BlockingState { done: self.done, waker: self.waker }
    }
}

impl<Task> Default for Blocking<Task> {
    /// The work is not done, and no task waits.
    fn default() -> (blocking: Self)
        ensures
            blocking@ == (BlockingState::<Task> { done: false, waker: None }),
    {
        Blocking { done: false, waker: None }
    }
}

impl<Task> Blocking<Task> {
    /// Marks the work as done, and wakes the task that waits, if one does.
    pub fn complete(&mut self, scheduler: &mut Scheduler<Task>)
        ensures
            final(self)@ == old(self)@.completed(),
            final(scheduler)@ == old(scheduler)@ + old(self)@.wakes(),
            final(self)@.done,
            final(self)@.waker is None,
            final(scheduler)@ == match old(self)@.waker {
                Some(waker) => old(scheduler)@.push(waker.task()),
                None => old(scheduler)@,
            },
    {
        self.done = true;
        if let Some(waker) = self.waker.take() {
            waker.wake(scheduler);
        }
    }

    /// Polls for the work to be done; while it is not, `waker` takes the place of the
    /// waker that waited before.
    pub fn poll(&mut self, waker: Waker<Task>) -> (output: Option<()>)
        ensures
            output == if old(self)@.done {
                Some(())
            } else {
                None
            },
            final(self)@ == old(self)@.polled(waker),
            final(self)@.done == old(self)@.done,
            output is None ==> final(self)@.waker == Some(waker),
            output is Some ==> final(self)@ == old(self)@,
    {
        if self.done {
            Some(())
        } else {
            self.waker = Some(waker);
            None
        }
    }
}

/// The task that polled last before the work was done is woken when it is.
pub proof fn law_last_poller_is_woken<Task>(
    state: BlockingState<Task>,
    wakers: Seq<Waker<Task>>,
)
    requires
        !state.done,
        wakers.len() > 0,
    ensures
        !state.polled_all(wakers).done,
        state.polled_all(wakers).wakes() == seq![wakers.last().task()],
    decreases wakers.len(),
{
    if wakers.len() > 1 {
        law_last_poller_is_woken(state, wakers.drop_last());
    } else {
        assert(state.polled_all(wakers.drop_last()) == state);
    }
}

/// The end of the work wakes nobody but the task that waits, and that one once: not another
/// time, and not when nobody has polled.
pub proof fn law_end_of_work_wakes_once<Task>(state: BlockingState<Task>)
    ensures
        state.completed().done,
        state.completed().wakes().len() == 0,
        state.waker is None ==> state.wakes().len() == 0,
        state.waker is Some ==> {
            &&& state.wakes().len() == 1
            &&& state.wakes()[0] == state.waker->0.task()
        },
{
}

/// Polling does not end the work; the task that polls waits for it in place of the one that
/// waited before, unless the work is done.
pub proof fn law_polling_waits_unless_done<Task>(state: BlockingState<Task>, waker: Waker<Task>)
    ensures
        state.polled(waker).done == state.done,
        state.done ==> state.polled(waker).waker == state.waker,
        !state.done ==> state.polled(waker).waker == Some(waker),
{
}

/// Once the work is done, it stays done and no task is left waiting, however often it is
/// polled.
pub proof fn law_done_stays_done<Task>(state: BlockingState<Task>, wakers: Seq<Waker<Task>>)
    ensures
        state.completed().polled_all(wakers) == state.completed(),
    decreases wakers.len(),
{
    if wakers.len() > 0 {
        law_done_stays_done(state, wakers.drop_last());
    }
}

} // verus!
