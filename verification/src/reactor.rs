//! The tasks that wait for file descriptors.
use crate::scheduler::{Scheduler, SharedTask, Waker};
use std::collections::HashMap;
use vstd::prelude::*;

verus! {

/// A file descriptor.
pub type RawFd = i32;

/// The bits of the flag that the file is available for read operations.
pub const EPOLLIN: u32 = 1;

/// The bits of the flag that the file is available for write operations.
pub const EPOLLOUT: u32 = 4;

/// The bits of `epoll::Events::EPOLLIN`, given by `epoll::Events::bits`.
///
/// Taken on trust: they are those of `libc::EPOLLIN`, the lowest bit.
#[verifier::external_body]
fn epollin() -> (bits: u32)
    ensures
        bits == EPOLLIN,
{
    epoll::Events::EPOLLIN.bits()
}

/// The bits of `epoll::Events::EPOLLOUT`, given by `epoll::Events::bits`.
///
/// Taken on trust: they are those of `libc::EPOLLOUT`, the third lowest bit.
#[verifier::external_body]
fn epollout() -> (bits: u32)
    ensures
        bits == EPOLLOUT,
{
    epoll::Events::EPOLLOUT.bits()
}

/// A set of readiness flags, and the data that comes back with them.
#[derive(Clone, Copy, Debug, PartialEq, Eq)]
pub struct Event {
    pub events: u32,
    pub data: u64,
}

/// The event with these flags and this data, made by `epoll::Event::new`.
///
/// Taken on trust: the event holds the bits of the flags and the data as they were given.
/// `epoll::Events::from_bits_retain` turns the bits into flags and drops none.
#[verifier::external_body]
fn new_event(events: u32, data: u64) -> (event: Event)
    ensures
        event.events == events,
        event.data == data,
{
    let event = epoll::Event::new(epoll::Events::from_bits_retain(events), data);
    Event { events: event.events, data: event.data }
}

/// The data that stands for a descriptor in an event.
pub open spec fn data_of(fd: RawFd) -> u64 {
    fd as u64
}

/// The descriptor that an event is about.
pub open spec fn fd_of(event: Event) -> RawFd {
    event.data as i32
}

/// What an epoll instance is to be told about `fd`: to report when it can be read or written,
/// with the descriptor itself as data.
pub fn registration(fd: RawFd) -> (event: Event)
    ensures
        event.events == EPOLLIN | EPOLLOUT,
        event.data == data_of(fd),
        event.data == fd as u64,
{
    new_event(epollin() | epollout(), fd as u64)
}

/// Which task to wake when a file descriptor becomes ready.
pub struct Reactor<Task> {
    epoll: RawFd,
    tasks: HashMap<RawFd, Waker<Task>>,
}

impl<Task> View for Reactor<Task> {
    type V = Map<RawFd, Waker<Task>>;

    /// The waker of each registered descriptor.
    closed spec fn view(&self) -> Map<RawFd, Waker<Task>> {
        self.tasks@
    }
}

/// The tasks that `events` wake, in the order of the events: those registered for the
/// descriptors that the events are about.
pub open spec fn woken<Task>(
    tasks: Map<RawFd, Waker<Task>>,
    events: Seq<Event>,
) -> Seq<SharedTask<Task>>
    decreases events.len(),
{
    if events.len() == 0 {
        Seq::empty()
    } else {
        let earlier = woken(tasks, events.drop_last());
        let fd = fd_of(events.last());
        if tasks.contains_key(fd) {
            earlier.push(tasks[fd].task())
        } else {
            earlier
        }
    }
}

impl<Task> Reactor<Task> {
    /// The epoll instance that the descriptors are registered with.
    pub closed spec fn epoll(self) -> RawFd {
        self.epoll
    }

    /// A reactor on the epoll instance `epoll`, with no descriptor registered.
    pub fn new(epoll: RawFd) -> (reactor: Reactor<Task>)
        ensures
            reactor.epoll() == epoll,
            reactor@ == Map::<RawFd, Waker<Task>>::empty(),
    {
        Reactor { epoll, tasks: HashMap::new() }
    }

    /// The epoll instance that the descriptors are registered with.
    pub fn instance(&self) -> (epoll: RawFd)
        ensures
            epoll == self.epoll(),
    {
        self.epoll
    }

    /// Notes `waker` for `fd`, in place of any waker that it had. The epoll instance has to
    /// have taken the [`registration`] of `fd` before.
    pub fn add(&mut self, fd: RawFd, waker: Waker<Task>)
        ensures
            final(self)@ == old(self)@.insert(fd, waker),
            final(self).epoll() == old(self).epoll(),
    {
        broadcast use vstd::std_specs::hash::group_hash_axioms;

        self.tasks.insert(fd, waker);
    }

    /// Forgets the waker of `fd`, if it has one.
    pub fn remove(&mut self, fd: RawFd)
        ensures
            final(self)@ == old(self)@.remove(fd),
            final(self).epoll() == old(self).epoll(),
    {
        broadcast use vstd::std_specs::hash::group_hash_axioms;

        self.tasks.remove(&fd);
    }

    /// Wakes the tasks that `events`, reported by the epoll instance, are for. An event
    /// about a descriptor that is not registered wakes none.
    pub fn wait(&self, events: &Vec<Event>, scheduler: &mut Scheduler<Task>)
        ensures
            final(scheduler)@ == old(scheduler)@ + woken(self@, events@),
            ({
                let ready = events@.filter(|event: Event| self@.contains_key(event.data as i32));
                let queue = final(scheduler)@;
                let before = old(scheduler)@.len();
                &&& queue.len() == before + ready.len()
                &&& queue.take(before as int) == old(scheduler)@
                &&& forall|k: int|
                    0 <= k < ready.len() ==> queue[before + k] == self@[#[trigger] ready[k].data
                        as i32].task()
            }),
    {
        broadcast use vstd::std_specs::hash::group_hash_axioms;

        let mut i: usize = 0;
        while i < events.len()
            invariant
                i <= events.len(),
                scheduler@ == old(scheduler)@ + woken(self@, events@.take(i as int)),
            decreases events.len() - i,
        {
            let fd: i32 = #[verifier::truncate] (events[i].data as i32);
            assert(events@.take(i + 1).drop_last() == events@.take(i as int));
            if let Some(waker) = self.tasks.get(&fd) {
                waker.wake(scheduler);
            }
            i = i + 1;
        }
        assert(events@.take(i as int) == events@);
        proof {
            law_each_event_wakes_its_task_once(self@, events@);
        }
    }
}

/// The data that stands for a descriptor leads back to it.
pub proof fn law_data_names_descriptor(fd: RawFd, event: Event)
    requires
        event.data == data_of(fd),
    ensures
        fd_of(event) == fd,
{
    assert((fd as u64) as i32 == fd) by (bit_vector);
}

/// Only the lower half of the data of an event names the descriptor, whatever the flags are.
pub proof fn law_lower_half_names_descriptor(event: Event, other: Event)
    requires
        event.data % 0x1_0000_0000 == other.data % 0x1_0000_0000,
    ensures
        fd_of(event) == fd_of(other),
{
    let (a, b) = (event.data, other.data);
    assert(a as i32 == b as i32) by (bit_vector)
        requires
            a % 0x1_0000_0000 == b % 0x1_0000_0000,
    ;
}

/// Every event about a registered descriptor wakes the task of that descriptor exactly once,
/// whatever its flags are, and the tasks are woken in the order of the events. Other events
/// wake none.
pub proof fn law_each_event_wakes_its_task_once<Task>(
    tasks: Map<RawFd, Waker<Task>>,
    events: Seq<Event>,
)
    ensures
        ({
            let ready = events.filter(|event: Event| tasks.contains_key(event.data as i32));
            &&& woken(tasks, events).len() == ready.len()
            &&& forall|k: int|
                0 <= k < ready.len() ==> woken(tasks, events)[k] == tasks[#[trigger] ready[k].data
                    as i32].task()
        }),
    decreases events.len(),
{
    reveal(Seq::filter);
    if events.len() > 0 {
        law_each_event_wakes_its_task_once(tasks, events.drop_last());
    }
}

/// Events wake the same tasks in the same order whether they are reported at once or in two
/// reports.
pub proof fn law_reports_can_be_split<Task>(
    tasks: Map<RawFd, Waker<Task>>,
    first: Seq<Event>,
    second: Seq<Event>,
)
    ensures
        woken(tasks, first + second) == woken(tasks, first) + woken(tasks, second),
    decreases second.len(),
{
    if second.len() == 0 {
        assert(first + second == first);
        assert(woken(tasks, first) + woken(tasks, second) == woken(tasks, first));
    } else {
        law_reports_can_be_split(tasks, first, second.drop_last());
        assert((first + second).drop_last() == first + second.drop_last());
        assert(woken(tasks, first + second) =~= woken(tasks, first) + woken(tasks, second));
    }
}

/// An event about a registered descriptor wakes its task.
pub proof fn law_ready_task_is_woken<Task>(
    tasks: Map<RawFd, Waker<Task>>,
    events: Seq<Event>,
    fd: RawFd,
    i: int,
)
    requires
        tasks.contains_key(fd),
        0 <= i < events.len(),
        events[i].data == data_of(fd),
    ensures
        woken(tasks, events).contains(tasks[fd].task()),
    decreases events.len(),
{
    law_data_names_descriptor(fd, events[i]);
    let earlier = woken(tasks, events.drop_last());
    if i == events.len() - 1 {
        assert(woken(tasks, events)[earlier.len() as int] == tasks[fd].task());
    } else {
        assert(events.drop_last()[i] == events[i]);
        law_ready_task_is_woken(tasks, events.drop_last(), fd, i);
        let k = earlier.index_of(tasks[fd].task());
        assert(woken(tasks, events)[k] == earlier[k]);
    }
}

/// Once a descriptor is removed, events about it wake nothing, and all other events wake
/// what they woke before.
pub proof fn law_removed_descriptor_is_ignored<Task>(
    tasks: Map<RawFd, Waker<Task>>,
    events: Seq<Event>,
    fd: RawFd,
)
    ensures
        woken(tasks.remove(fd), events) == woken(
            tasks,
            events.filter(|event: Event| fd_of(event) != fd),
        ),
    decreases events.len(),
{
    reveal(Seq::filter);
    let others = |event: Event| fd_of(event) != fd;
    if events.len() > 0 {
        law_removed_descriptor_is_ignored(tasks, events.drop_last(), fd);
        let kept = events.drop_last().filter(others);
        if others(events.last()) {
            assert(events.filter(others) == kept.push(events.last()));
            assert(kept.push(events.last()).drop_last() == kept);
        }
    }
}

/// Registering a descriptor changes nothing for events about the others.
pub proof fn law_registration_leaves_others<Task>(
    tasks: Map<RawFd, Waker<Task>>,
    events: Seq<Event>,
    fd: RawFd,
    waker: Waker<Task>,
)
    requires
        forall|i: int| 0 <= i < events.len() ==> fd_of(#[trigger] events[i]) != fd,
    ensures
        woken(tasks.insert(fd, waker), events) == woken(tasks, events),
    decreases events.len(),
{
    if events.len() > 0 {
        assert forall|i: int| 0 <= i < events.drop_last().len() implies fd_of(
            #[trigger] events.drop_last()[i],
        ) != fd by {
            assert(events.drop_last()[i] == events[i]);
        }
        law_registration_leaves_others(tasks, events.drop_last(), fd, waker);
        assert(fd_of(events[events.len() - 1]) != fd);
    }
}

} // verus!
