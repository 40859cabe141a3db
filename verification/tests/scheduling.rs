use tiny_runtime::blocking::Blocking;
use tiny_runtime::counter::Counter;
use tiny_runtime::reactor::{registration, Event, Reactor, EPOLLIN, EPOLLOUT};
use tiny_runtime::scheduler::{Scheduler, Step, Waker};

/// A waker of the task `task`.
fn waker_of(task: u32) -> Waker<u32> {
    let mut scheduler = Scheduler::default();
    scheduler.spawn(task);
    match scheduler.run() {
        Step::Poll { waker, .. } => waker,
        Step::Wait => panic!("the task was spawned"),
    }
}

/// Runs until nothing is runnable, and gives the tasks that were to be polled.
fn drain(scheduler: &mut Scheduler<u32>) -> Vec<u32> {
    let mut polled = vec![];
    while let Step::Poll { task, .. } = scheduler.run() {
        polled.push(*task);
    }
    polled
}

#[test]
fn empty_scheduler_waits() {
    let mut scheduler: Scheduler<u32> = Scheduler::default();
    assert!(matches!(scheduler.run(), Step::Wait));
    assert!(matches!(scheduler.run(), Step::Wait));
}

#[test]
fn tasks_run_in_the_order_of_spawning() {
    let mut scheduler = Scheduler::default();
    scheduler.spawn(3);
    scheduler.spawn(1);
    scheduler.spawn(2);
    assert_eq!(drain(&mut scheduler), vec![3, 1, 2]);
}

#[test]
fn woken_task_goes_to_the_back() {
    let mut scheduler = Scheduler::default();
    scheduler.spawn(1);
    scheduler.spawn(2);
    let first = scheduler.run();
    match first {
        Step::Poll { task, waker } => {
            assert_eq!(*task, 1);
            waker.wake(&mut scheduler);
            waker.clone().wake(&mut scheduler);
        }
        Step::Wait => panic!("there were two tasks"),
    }
    scheduler.spawn(3);
    assert_eq!(drain(&mut scheduler), vec![2, 1, 1, 3]);
}

#[test]
fn waker_shares_the_task() {
    let mut scheduler = Scheduler::default();
    scheduler.spawn(7);
    match scheduler.run() {
        Step::Poll { task, waker } => {
            waker.wake(&mut scheduler);
            match scheduler.run() {
                Step::Poll { task: again, .. } => {
                    assert!(std::sync::Arc::ptr_eq(&task, &again));
                }
                Step::Wait => panic!("the task was woken"),
            }
        }
        Step::Wait => panic!("the task was spawned"),
    }
}

#[test]
fn registration_asks_for_reading_and_writing() {
    let event = registration(9);
    assert_eq!(event, Event { events: 5, data: 9 });
    let real = epoll::Event::new(epoll::Events::EPOLLIN | epoll::Events::EPOLLOUT, 9);
    let (events, data) = (real.events, real.data);
    assert_eq!((event.events, event.data), (events, data));
    assert_eq!(EPOLLIN, epoll::Events::EPOLLIN.bits());
    assert_eq!(EPOLLOUT, epoll::Events::EPOLLOUT.bits());
}

#[test]
fn registration_that_is_refused_leaves_the_wakers() {
    let mut reactor = Reactor::new(3);
    assert_eq!(reactor.instance(), 3);
    reactor.add(5, waker_of(50));
    let refused = registration(5);
    let mut scheduler = Scheduler::default();
    reactor.wait(&vec![refused, registration(6)], &mut scheduler);
    assert_eq!(drain(&mut scheduler), vec![50]);
}

#[test]
fn negative_descriptor_keeps_its_name() {
    let mut reactor = Reactor::new(3);
    let event = registration(-1);
    reactor.add(-1, waker_of(4));
    assert_eq!(event.data, u64::MAX);
    let mut scheduler = Scheduler::default();
    reactor.wait(&vec![event], &mut scheduler);
    assert_eq!(drain(&mut scheduler), vec![4]);
}

#[test]
fn ready_tasks_are_woken_in_the_order_of_events() {
    let mut reactor = Reactor::new(3);
    let five = registration(5);
    let six = registration(6);
    reactor.add(5, waker_of(50));
    reactor.add(6, waker_of(60));
    let unknown = Event { events: EPOLLIN, data: 77 };
    let mut scheduler = Scheduler::default();
    scheduler.spawn(1);
    reactor.wait(&vec![six, unknown, five, six], &mut scheduler);
    assert_eq!(drain(&mut scheduler), vec![1, 60, 50, 60]);
}

#[test]
fn removed_descriptor_wakes_nothing() {
    let mut reactor = Reactor::new(3);
    let five = registration(5);
    let six = registration(6);
    reactor.add(5, waker_of(50));
    reactor.add(6, waker_of(60));
    reactor.remove(5);
    reactor.remove(99);
    let mut scheduler = Scheduler::default();
    reactor.wait(&vec![five, six], &mut scheduler);
    assert_eq!(drain(&mut scheduler), vec![60]);
}

#[test]
fn second_registration_replaces_the_first() {
    let mut reactor = Reactor::new(3);
    reactor.add(5, waker_of(50));
    reactor.add(5, waker_of(51));
    let mut scheduler = Scheduler::default();
    reactor.wait(&vec![registration(5)], &mut scheduler);
    assert_eq!(drain(&mut scheduler), vec![51]);
}

#[test]
fn data_beyond_a_descriptor_is_cut_off() {
    let mut reactor = Reactor::new(3);
    reactor.add(5, waker_of(50));
    let mut scheduler = Scheduler::default();
    reactor.wait(&vec![Event { events: 1, data: 0x1_0000_0005 }], &mut scheduler);
    assert_eq!(drain(&mut scheduler), vec![50]);
}

#[test]
fn counter_at_zero_does_not_wait() {
    let mut counter = Counter::default();
    assert_eq!(counter.wait_for_zero(waker_of(1)), Some(()));
    counter.increment();
    let mut scheduler = Scheduler::default();
    counter.decrement(&mut scheduler);
    assert_eq!(drain(&mut scheduler), vec![]);
}

#[test]
fn last_task_wakes_the_waiting_one() {
    let mut counter = Counter::default();
    let mut scheduler = Scheduler::default();
    counter.increment();
    counter.increment();
    assert_eq!(counter.count(), 2);
    assert_eq!(counter.wait_for_zero(waker_of(8)), None);
    assert_eq!(counter.wait_for_zero(waker_of(9)), None);
    counter.decrement(&mut scheduler);
    counter.increment();
    counter.decrement(&mut scheduler);
    assert_eq!(counter.count(), 1);
    assert!(matches!(scheduler.run(), Step::Wait));
    counter.decrement(&mut scheduler);
    assert_eq!(counter.count(), 0);
    assert_eq!(drain(&mut scheduler), vec![9]);
    assert_eq!(counter.wait_for_zero(waker_of(9)), Some(()));
    counter.increment();
    counter.decrement(&mut scheduler);
    assert_eq!(drain(&mut scheduler), vec![]);
}

#[test]
fn end_of_work_wakes_the_last_poller() {
    let mut blocking = Blocking::default();
    let mut scheduler = Scheduler::default();
    assert_eq!(blocking.poll(waker_of(1)), None);
    assert_eq!(blocking.poll(waker_of(2)), None);
    blocking.complete(&mut scheduler);
    assert_eq!(drain(&mut scheduler), vec![2]);
    assert_eq!(blocking.poll(waker_of(3)), Some(()));
    assert_eq!(blocking.poll(waker_of(3)), Some(()));
}

#[test]
fn end_of_work_that_nobody_awaits_wakes_nobody() {
    let mut blocking = Blocking::default();
    let mut scheduler = Scheduler::default();
    blocking.complete(&mut scheduler);
    assert_eq!(drain(&mut scheduler), vec![]);
    assert_eq!(blocking.poll(waker_of(3)), Some(()));
}
