//! How many tasks are active, and who waits for there to be none.
use crate::scheduler::{Scheduler, SharedTask, Waker};
use vstd::prelude::*;

verus! {

/// A count of active tasks, and the waker of the task that waits for it to reach zero.
pub struct Counter<Task> {
    count: usize,
    waker: Option<Waker<Task>>,
}

/// What a [`Counter`] holds.
pub struct CounterState<Task> {
    /// The number of active tasks.
    pub count: nat,
    /// The waker of the task that waits.
    pub waker: Option<Waker<Task>>,
}

impl<Task> CounterState<Task> {
    /// The state once `event` has happened.
    pub open spec fn after(self, event: CounterEvent<Task>) -> CounterState<Task> {
        match event {
            CounterEvent::Increment => CounterState { count: self.count + 1, ..self },
            CounterEvent::Decrement => CounterState {
                count: (self.count - 1) as nat,
                waker: if self.count == 1 {
                    None
                } else {
                    self.waker
                },
            },
            CounterEvent::Wait(waker) => CounterState {
                waker: if self.count == 0 {
                    self.waker
                } else {
                    Some(waker)
                },
                ..self
            },
        }
    }

    /// The tasks that `event` wakes: the waiting one, when the last active task is done.
    pub open spec fn wakes(self, event: CounterEvent<Task>) -> Seq<SharedTask<Task>> {
        match self.waker {
            Some(waker) if event is Decrement && self.count == 1 => seq![waker.task()],
            _ => Seq::empty(),
        }
    }

    /// The state once all of `events` have happened.
    pub open spec fn after_all(self, events: Seq<CounterEvent<Task>>) -> CounterState<Task>
        decreases events.len(),
    {
        if events.len() == 0 {
            self
        } else {
            self.after_all(events.drop_last()).after(events.last())
        }
    }
}

/// One thing that can happen to a [`Counter`].
pub enum CounterEvent<Task> {
    /// A task becomes active.
    Increment,
    /// An active task is done.
    Decrement,
    /// A task polls for the count to be zero.
    Wait(Waker<Task>),
}

impl<Task> View for Counter<Task> {
    type V = CounterState<Task>;

    closed spec fn view(&self) -> CounterState<Task> {
        CounterState { count: self.count as nat, waker: self.waker }
    }
}

impl<Task> Default for Counter<Task> {
    /// No task is active, and none waits.
    fn default() -> (counter: Self)
        ensures
            counter@ == (CounterState::<Task> { count: 0, waker: None }),
    {
        Counter { count: 0, waker: None }
    }
}

impl<Task> Counter<Task> {
    /// The number of active tasks.
    pub fn count(&self) -> (count: usize)
        ensures
            count == self@.count,
    {
        self.count
    }

    /// Counts one more active task.
    pub fn increment(&mut self)
        requires
            old(self)@.count < usize::MAX,
        ensures
            final(self)@ == old(self)@.after(CounterEvent::Increment),
            final(self)@.count == old(self)@.count + 1,
            final(self)@.waker == old(self)@.waker,
    {
        self.count = self.count + 1;
    }

    /// Counts one active task less. The last one wakes the task that waits, if one does.
    pub fn decrement(&mut self, scheduler: &mut Scheduler<Task>)
        requires
            old(self)@.count > 0,
        ensures
            final(self)@ == old(self)@.after(CounterEvent::Decrement),
            final(scheduler)@ == old(scheduler)@ + old(self)@.wakes(CounterEvent::Decrement),
            final(self)@.count + 1 == old(self)@.count,
            final(self)@.count > 0 ==> {
                &&& final(self)@.waker == old(self)@.waker
                &&& final(scheduler)@ == old(scheduler)@
            },
            final(self)@.count == 0 ==> {
                &&& final(self)@.waker is None
                &&& final(scheduler)@ == match old(self)@.waker {
                    Some(waker) => old(scheduler)@.push(waker.task()),
                    None => old(scheduler)@,
                }
            },
    {
        self.count = self.count - 1;
        if self.count == 0 {
            if let Some(waker) = self.waker.take() {
                waker.wake(scheduler);
            }
        }
    }

    /// Polls for the count to be zero; while it is not, `waker` takes the place of the
    /// waker that waited before.
    pub fn wait_for_zero(&mut self, waker: Waker<Task>) -> (output: Option<()>)
        ensures
            output == if old(self)@.count == 0 {
                Some(())
            } else {
                None
            },
            final(self)@ == old(self)@.after(CounterEvent::Wait(waker)),
            final(self)@.count == old(self)@.count,
            output is None ==> final(self)@.waker == Some(waker),
            output is Some ==> final(self)@ == old(self)@,
    {
        if self.count == 0 {
            Some(())
        } else {
            self.waker = Some(waker);
            None
        }
    }
}

/// How many of `events` make a task active.
pub open spec fn increments<Task>(events: Seq<CounterEvent<Task>>) -> nat
    decreases events.len(),
{
    if events.len() == 0 {
        0
    } else {
        increments(events.drop_last()) + if events.last() is Increment {
            1nat
        } else {
            0
        }
    }
}

/// How many of `events` are an active task that is done.
pub open spec fn decrements<Task>(events: Seq<CounterEvent<Task>>) -> nat
    decreases events.len(),
{
    if events.len() == 0 {
        0
    } else {
        decrements(events.drop_last()) + if events.last() is Decrement {
            1nat
        } else {
            0
        }
    }
}

/// No task is done before it became active: at no point of `events` are there more
/// decrements than increments.
pub open spec fn balanced<Task>(events: Seq<CounterEvent<Task>>) -> bool {
    forall|i: int|
        0 <= i <= events.len() ==> decrements(#[trigger] events.take(i)) <= increments(
            events.take(i),
        )
}

/// The count is the number of tasks that became active and are not done.
pub proof fn law_count_is_active_tasks<Task>(events: Seq<CounterEvent<Task>>)
    requires
        balanced(events),
    ensures
        (CounterState::<Task> { count: 0, waker: None }).after_all(events).count == increments(
            events,
        ) - decrements(events),
    decreases events.len(),
{
    if events.len() > 0 {
        let earlier = events.drop_last();
        assert forall|i: int| 0 <= i <= earlier.len() implies decrements(
            #[trigger] earlier.take(i),
        ) <= increments(earlier.take(i)) by {
            assert(earlier.take(i) == events.take(i));
        }
        law_count_is_active_tasks(earlier);
        assert(events.take(events.len() as int) == events);
        assert(decrements(events) <= increments(events));
    }
}

/// Counting a task in and out again leaves things as they were, if others are active.
pub proof fn law_counting_in_and_out<Task>(state: CounterState<Task>)
    ensures
        state.after(CounterEvent::Increment).count == state.count + 1,
        state.count > 0 ==> {
            &&& state.after(CounterEvent::Decrement).count == state.count - 1
            &&& state.after(CounterEvent::Increment).after(CounterEvent::Decrement) == state
        },
{
}

/// Only the end of the last active task wakes anyone, and then the task that waits, once. No
/// task waits any more afterwards; until then, whoever waits goes on waiting.
pub proof fn law_only_the_last_task_wakes<Task>(
    state: CounterState<Task>,
    event: CounterEvent<Task>,
)
    requires
        event is Decrement ==> state.count > 0,
    ensures
        event is Decrement && state.after(event).count == 0 ==> {
            &&& state.after(event).waker is None
            &&& state.wakes(event).len() == if state.waker is Some {
                1nat
            } else {
                0
            }
            &&& forall|k: int|
                0 <= k < state.wakes(event).len() ==> Some(#[trigger] state.wakes(event)[k])
                    == Some(state.waker->0.task())
        },
        !(event is Decrement && state.after(event).count == 0) ==> {
            &&& state.wakes(event).len() == 0
            &&& event !is Wait ==> state.after(event).waker == state.waker
        },
{
}

/// A task that polls for the count to be zero waits exactly if it is not, in place of the one
/// that waited before, and the count stays what it is.
pub proof fn law_polling_waits_unless_zero<Task>(state: CounterState<Task>, waker: Waker<Task>)
    ensures
        state.after(CounterEvent::Wait(waker)).count == state.count,
        state.count > 0 ==> state.after(CounterEvent::Wait(waker)).waker == Some(waker),
        state.count == 0 ==> state.after(CounterEvent::Wait(waker)).waker == state.waker,
{
}

/// A task that was told to wait is woken by the decrement that takes the count to zero,
/// if no other task has waited since: however the count went up and down meanwhile, as
/// long as it did not reach zero.
pub proof fn law_waiting_task_is_woken<Task>(
    state: CounterState<Task>,
    waker: Waker<Task>,
    meanwhile: Seq<CounterEvent<Task>>,
)
    requires
        state.count > 0,
        forall|i: int| 0 <= i < meanwhile.len() ==> !(#[trigger] meanwhile[i] is Wait),
        forall|i: int|
            0 <= i <= meanwhile.len() ==> state.after(CounterEvent::Wait(waker)).after_all(
                #[trigger] meanwhile.take(i),
            ).count > 0,
    ensures
        ({
            let last = state.after(CounterEvent::Wait(waker)).after_all(meanwhile);
            &&& last.waker == Some(waker)
            &&& last.count == 1 ==> last.wakes(CounterEvent::Decrement) == seq![waker.task()]
        }),
    decreases meanwhile.len(),
{
    if meanwhile.len() > 0 {
        let earlier = meanwhile.drop_last();
        let waiting = state.after(CounterEvent::Wait(waker));
        assert forall|i: int| 0 <= i < earlier.len() implies !(#[trigger] earlier[i] is Wait) by {
            assert(earlier[i] == meanwhile[i]);
        }
        assert forall|i: int| 0 <= i <= earlier.len() implies waiting.after_all(
            #[trigger] earlier.take(i),
        ).count > 0 by {
            assert(earlier.take(i) == meanwhile.take(i));
        }
        law_waiting_task_is_woken(state, waker, earlier);
        assert(!(meanwhile[meanwhile.len() - 1] is Wait));
        assert(meanwhile.take(meanwhile.len() as int) == meanwhile);
        assert(meanwhile.take(meanwhile.len() - 1) == earlier);
    }
}

} // verus!
