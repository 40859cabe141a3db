//! The tasks that accept connections, and how the graceful server shuts down.
use crate::blocking::{Blocking, BlockingState};
use crate::counter::{Counter, CounterEvent, CounterState};
use crate::scheduler::{Scheduler, SharedTask, Waker};
use std::sync::Arc;
use vstd::prelude::*;

verus! {

/// The task of the asynchronous server that accepts connections.
#[derive(Clone, Copy, Debug, PartialEq, Eq, Structural)]
pub enum Acceptor {
    /// The listener has to be bound and registered with the reactor.
    Start,
    /// A connection can be accepted.
    Accept,
}

/// What came of what an [`Acceptor`] tried.
pub enum AcceptEvent<Task> {
    /// The listener is bound and registered.
    Bound,
    /// A connection was accepted, to be served by a task of its own.
    Accepted(Task),
    /// No connection is waiting.
    WouldBlock,
}

impl Acceptor {
    /// A task that has not started.
    pub fn new() -> (acceptor: Acceptor)
        ensures
            acceptor == Acceptor::Start,
    {
        Acceptor::Start
    }

    /// Takes in `event`, and spawns the task that serves an accepted connection. Gives
    /// whether to go on at once; else the task is pending. It is never done.
    pub fn step<Task>(&mut self, event: AcceptEvent<Task>, scheduler: &mut Scheduler<Task>) -> (
        go_on: bool)
        requires
            event is Bound <==> *old(self) == Acceptor::Start,
        ensures
            *final(self) == Acceptor::Accept,
            go_on == (event is Bound),
            final(scheduler)@ == match event {
                AcceptEvent::Accepted(task) => old(scheduler)@.push(Arc::new(task)),
                _ => old(scheduler)@,
            },
    {
        match event {
            AcceptEvent::Bound => {
                *self = Acceptor::Accept;
                true
            },
            AcceptEvent::Accepted(task) => {
                scheduler.spawn(task);
                false
            },
            AcceptEvent::WouldBlock => false,
        }
    }
}

/// The task of the graceful server that accepts connections, until it is told to shut down.
#[derive(Clone, Copy, Debug, PartialEq, Eq, Structural)]
pub enum Listen {
    /// The listener has to be bound and registered with the reactor, and the wait for the
    /// interrupt to begin.
    Bind,
    /// Connections are accepted.
    Serve,
    /// No more connections are accepted, and those that are open are waited for.
    Shutdown,
}

/// One thing that can happen to a [`Listen`].
pub enum ListenEvent {
    /// The listener is bound.
    Bound,
    /// It was tried to accept a connection; `interrupted` is whether the interrupt had come
    /// by then.
    Polled { interrupted: bool },
}

impl Listen {
    /// Where `event` leads to.
    pub open spec fn after(self, event: ListenEvent) -> Listen {
        match (self, event) {
            (Listen::Bind, ListenEvent::Bound) => Listen::Serve,
            (Listen::Serve, ListenEvent::Polled { interrupted: true }) => Listen::Shutdown,
            _ => self,
        }
    }

    /// Where `events` lead to, one after the other.
    pub open spec fn after_all(self, events: Seq<ListenEvent>) -> Listen
        decreases events.len(),
    {
        if events.len() == 0 {
            self
        } else {
            self.after_all(events.drop_last()).after(events.last())
        }
    }

    /// A task that has not started.
    pub fn new() -> (listen: Listen)
        ensures
            listen == Listen::Bind,
    {
        Listen::Bind
    }

    /// Takes in that the listener is bound.
    pub fn bound(&mut self)
        requires
            *old(self) == Listen::Bind,
        ensures
            *final(self) == old(self).after(ListenEvent::Bound),
            *final(self) == Listen::Serve,
    {
        *self = Listen::Serve;
    }

    /// Takes in the task that serves an accepted connection, if one was accepted: it is
    /// counted among the active tasks and spawned. Then polls for the interrupt, and gives
    /// `Some` if it has come and the shutdown begins; else the task is pending.
    pub fn serve<Task>(
        &mut self,
        accepted: Option<Task>,
        tasks: &mut Counter<Task>,
        interrupt: &mut Blocking<Task>,
        scheduler: &mut Scheduler<Task>,
        waker: Waker<Task>,
    ) -> (output: Option<()>)
        requires
            *old(self) == Listen::Serve,
            accepted is Some ==> old(tasks)@.count < usize::MAX,
        ensures
            *final(self) == old(self).after(
                ListenEvent::Polled { interrupted: old(interrupt)@.done },
            ),
            *final(self) == if old(interrupt)@.done {
                Listen::Shutdown
            } else {
                Listen::Serve
            },
            output == if old(interrupt)@.done {
                Some(())
            } else {
                None
            },
            final(interrupt)@ == old(interrupt)@.polled(waker),
            output is None ==> final(interrupt)@.waker == Some(waker),
            match accepted {
                Some(task) => {
                    &&& final(tasks)@ == tasks_after_one(old(tasks)@, TaskEvent::Accepted)
                    &&& final(tasks)@.count == old(tasks)@.count + 1
                    &&& final(tasks)@.waker == old(tasks)@.waker
                    &&& final(scheduler)@ == old(scheduler)@.push(Arc::new(task))
                },
                None => {
                    &&& final(tasks)@ == old(tasks)@
                    &&& final(scheduler)@ == old(scheduler)@
                },
            },
    {
        if let Some(task) = accepted {
            tasks.increment();
            scheduler.spawn(task);
        }
        let output = interrupt.poll(waker);
        if output.is_some() {
            *self = Listen::Shutdown;
        }
        output
    }
}

/// The last poll of the task that serves an accepted connection, once the connection is
/// through: counts the task out. With the last active one, a shutdown that waits is woken.
pub fn served<Task>(tasks: &mut Counter<Task>, scheduler: &mut Scheduler<Task>) -> (output: Option<
    (),
>)
    requires
        old(tasks)@.count > 0,
    ensures
        output == Some(()),
        final(tasks)@ == tasks_after_one(old(tasks)@, TaskEvent::Done),
        final(scheduler)@ == old(scheduler)@ + old(tasks)@.wakes(CounterEvent::Decrement),
        final(tasks)@.count + 1 == old(tasks)@.count,
        final(tasks)@.count > 0 ==> {
            &&& final(tasks)@.waker == old(tasks)@.waker
            &&& final(scheduler)@ == old(scheduler)@
        },
        final(tasks)@.count == 0 ==> {
            &&& final(tasks)@.waker is None
            &&& final(scheduler)@ == match old(tasks)@.waker {
                Some(waker) => old(scheduler)@.push(waker.task()),
                None => old(scheduler)@,
            }
        },
{
    tasks.decrement(scheduler);
    Some(())
}

/// Polls for the shutdown to be complete: for `timer` to run out or else for no task to be
/// active.
pub fn graceful_shutdown<Task>(
    timer: &mut Blocking<Task>,
    tasks: &mut Counter<Task>,
    waker: Waker<Task>,
) -> (output: Option<()>)
    ensures
        output == if old(timer)@.done || old(tasks)@.count == 0 {
            Some(())
        } else {
            None
        },
        final(timer)@ == old(timer)@.polled(waker),
        final(tasks)@ == tasks_after_one(
            old(tasks)@,
            TaskEvent::ShutdownPolled { timer_done: old(timer)@.done, waker },
        ),
        final(tasks)@.count == old(tasks)@.count,
        output is None ==> {
            &&& final(timer)@.waker == Some(waker)
            &&& final(tasks)@.waker == Some(waker)
        },
        output is Some ==> final(tasks)@ == old(tasks)@,
{
    if timer.poll(waker.clone()).is_some() {
        return Some(());
    }
    tasks.wait_for_zero(waker)
}

/// Once the shutdown has begun, no more connections are accepted, whatever happens.
pub proof fn law_shutdown_is_final(events: Seq<ListenEvent>)
    ensures
        Listen::Shutdown.after_all(events) == Listen::Shutdown,
    decreases events.len(),
{
    if events.len() > 0 {
        law_shutdown_is_final(events.drop_last());
    }
}

/// The shutdown begins exactly when the interrupt is found to have come while the server
/// accepts connections.
pub proof fn law_interrupt_begins_shutdown(events: Seq<ListenEvent>)
    ensures
        Listen::Serve.after_all(events) == Listen::Shutdown <==> exists|i: int|
            0 <= i < events.len() && #[trigger] events[i] == (ListenEvent::Polled {
                interrupted: true,
            }),
        Listen::Serve.after_all(events) != Listen::Bind,
    decreases events.len(),
{
    if events.len() > 0 {
        let earlier = events.drop_last();
        law_interrupt_begins_shutdown(earlier);
        if Listen::Serve.after_all(earlier) == Listen::Shutdown {
            let i = choose|i: int|
                0 <= i < earlier.len() && #[trigger] earlier[i] == (ListenEvent::Polled {
                    interrupted: true,
                });
            assert(events[i] == earlier[i]);
        } else {
            assert forall|i: int| 0 <= i < earlier.len() implies #[trigger] events[i] != (
            ListenEvent::Polled { interrupted: true }) by {
                assert(earlier[i] == events[i]);
            }
            assert(events[events.len() - 1] == events.last());
        }
    }
}

/// One thing that happens to the count of the graceful server's active tasks.
pub enum TaskEvent<Task> {
    /// A connection is accepted, and the task that serves it is spawned.
    Accepted,
    /// A task that serves a connection is done.
    Done,
    /// The shutdown is polled, with the timer run out or not.
    ShutdownPolled { timer_done: bool, waker: Waker<Task> },
}

/// What `event` makes of the count: [`Listen::serve`] counts an accepted connection in,
/// [`served`] counts it out, and [`graceful_shutdown`] only waits.
pub open spec fn tasks_after_one<Task>(
    tasks: CounterState<Task>,
    event: TaskEvent<Task>,
) -> CounterState<Task> {
    match event {
        TaskEvent::Accepted => tasks.after(CounterEvent::Increment),
        TaskEvent::Done => tasks.after(CounterEvent::Decrement),
        TaskEvent::ShutdownPolled { timer_done: true, waker } => tasks,
        TaskEvent::ShutdownPolled { timer_done: false, waker } => tasks.after(
            CounterEvent::Wait(waker),
        ),
    }
}

/// What `events` make of the count of a server that has just started.
pub open spec fn tasks_after<Task>(events: Seq<TaskEvent<Task>>) -> CounterState<Task>
    decreases events.len(),
{
    if events.len() == 0 {
        CounterState { count: 0, waker: None }
    } else {
        tasks_after_one(tasks_after(events.drop_last()), events.last())
    }
}

/// How many connections were accepted in `events`.
pub open spec fn accepted<Task>(events: Seq<TaskEvent<Task>>) -> nat
    decreases events.len(),
{
    if events.len() == 0 {
        0
    } else {
        accepted(events.drop_last()) + if events.last() is Accepted {
            1nat
        } else {
            0
        }
    }
}

/// How many tasks that serve a connection were done in `events`.
pub open spec fn done<Task>(events: Seq<TaskEvent<Task>>) -> nat
    decreases events.len(),
{
    if events.len() == 0 {
        0
    } else {
        done(events.drop_last()) + if events.last() is Done {
            1nat
        } else {
            0
        }
    }
}

/// Whether at no time more tasks were done than connections had been accepted: each task is
/// done once, after its connection was accepted.
pub open spec fn done_were_accepted<Task>(events: Seq<TaskEvent<Task>>) -> bool {
    forall|i: int|
        0 <= i <= events.len() ==> done(#[trigger] events.take(i)) <= accepted(events.take(i))
}

/// The count is the connections that were accepted, less the tasks serving them that are
/// done: at any time, and also while the server shuts down.
pub proof fn law_count_is_open_connections<Task>(events: Seq<TaskEvent<Task>>)
    requires
        done_were_accepted(events),
    ensures
        tasks_after(events).count == accepted(events) - done(events),
    decreases events.len(),
{
    if events.len() > 0 {
        let earlier = events.drop_last();
        assert forall|i: int| 0 <= i <= earlier.len() implies done(#[trigger] earlier.take(i))
            <= accepted(earlier.take(i)) by {
            assert(earlier.take(i) == events.take(i));
        }
        law_count_is_open_connections(earlier);
        assert(events.take(events.len() as int) == events);
        assert(done(events) <= accepted(events));
    }
}

/// A shutdown that the timer does not end is complete exactly when every accepted connection
/// has been served.
pub proof fn law_shutdown_waits_for_open_connections<Task>(events: Seq<TaskEvent<Task>>)
    requires
        done_were_accepted(events),
    ensures
        tasks_after(events).count == 0 <==> done(events) == accepted(events),
{
    law_count_is_open_connections(events);
}

/// A shutdown that was polled and is not complete is polled again as soon as the last open
/// connection is served, however many there were, and not before. `states` is what becomes of
/// the count: of the poll first, and then of each of `meanwhile`, in which connections are
/// accepted and served, the shutdown is not polled, and the count does not reach zero.
pub proof fn law_last_served_wakes_the_shutdown<Task>(
    tasks: CounterState<Task>,
    waker: Waker<Task>,
    meanwhile: Seq<TaskEvent<Task>>,
    states: Seq<CounterState<Task>>,
    i: int,
)
    requires
        tasks.count > 0,
        states.len() == meanwhile.len() + 1,
        states[0] == tasks_after_one(
            tasks,
            TaskEvent::ShutdownPolled { timer_done: false, waker },
        ),
        forall|k: int|
            0 <= k < meanwhile.len() ==> states[k + 1] == tasks_after_one(
                states[k],
                #[trigger] meanwhile[k],
            ),
        forall|k: int|
            0 <= k < meanwhile.len() ==> #[trigger] meanwhile[k] is Accepted || meanwhile[k] is Done,
        forall|k: int| 0 <= k < states.len() ==> #[trigger] states[k].count > 0,
        0 <= i < states.len(),
    ensures
        states[0].count == tasks.count,
        states[i].waker == Some(waker),
        states[i].count == 1 ==> {
            &&& states[i].wakes(CounterEvent::Decrement) == seq![waker.task()]
            &&& tasks_after_one(states[i], TaskEvent::Done).count == 0
            &&& tasks_after_one(states[i], TaskEvent::Done).waker is None
        },
        states[i].count > 1 ==> {
            &&& states[i].wakes(CounterEvent::Decrement) == Seq::<SharedTask<Task>>::empty()
            &&& tasks_after_one(states[i], TaskEvent::Done).count == states[i].count - 1
            &&& tasks_after_one(states[i], TaskEvent::Done).waker == Some(waker)
        },
    decreases i,
{
    if i > 0 {
        law_last_served_wakes_the_shutdown(tasks, waker, meanwhile, states, i - 1);
        assert(states[i - 1 + 1] == tasks_after_one(states[i - 1], meanwhile[i - 1]));
        assert(states[i].count > 0);
    }
}

/// Accepting counts one connection more and serving one less, whoever waits; a poll of the
/// shutdown counts none, and one that finds the timer run out waits for nothing.
pub proof fn law_what_counts<Task>(tasks: CounterState<Task>, waker: Waker<Task>)
    ensures
        tasks_after_one(tasks, TaskEvent::Accepted).count == tasks.count + 1,
        tasks_after_one(tasks, TaskEvent::Accepted).waker == tasks.waker,
        tasks.count > 0 ==> tasks_after_one(
            tasks_after_one(tasks, TaskEvent::Accepted),
            TaskEvent::Done,
        ) == tasks,
        tasks_after_one(tasks, TaskEvent::ShutdownPolled { timer_done: true, waker }) == tasks,
        tasks.count == 0 ==> tasks_after_one(
            tasks,
            TaskEvent::ShutdownPolled { timer_done: false, waker },
        ) == tasks,
{
}

/// A listener that is bound serves, one that serves goes on until it is interrupted, and each
/// poll without an interrupt changes nothing.
pub proof fn law_listener_serves_until_interrupted(interrupted: bool)
    ensures
        Listen::Bind.after(ListenEvent::Bound) == Listen::Serve,
        Listen::Serve.after(ListenEvent::Polled { interrupted }) == Listen::Shutdown
            <==> interrupted,
        Listen::Serve.after(ListenEvent::Polled { interrupted }) == Listen::Serve
            <==> !interrupted,
{
}

/// A shutdown that is not complete is polled again when the timer runs out, and when the
/// last active task is done, if the count went up and down without reaching zero meanwhile.
pub proof fn law_shutdown_is_woken<Task>(
    timer: BlockingState<Task>,
    tasks: CounterState<Task>,
    waker: Waker<Task>,
    meanwhile: Seq<CounterEvent<Task>>,
)
    requires
        !timer.done,
        tasks.count > 0,
        forall|i: int| 0 <= i < meanwhile.len() ==> !(#[trigger] meanwhile[i] is Wait),
        forall|i: int|
            0 <= i <= meanwhile.len() ==> tasks.after(CounterEvent::Wait(waker)).after_all(
                #[trigger] meanwhile.take(i),
            ).count > 0,
    ensures
        timer.polled(waker).wakes() == seq![waker.task()],
        ({
            let last = tasks.after(CounterEvent::Wait(waker)).after_all(meanwhile);
            last.count == 1 ==> last.wakes(CounterEvent::Decrement) == seq![waker.task()]
        }),
{
    crate::counter::law_waiting_task_is_woken(tasks, waker, meanwhile);
}

} // verus!
