use std::cell::RefCell;
use tiny_runtime::future::{poll_fn, select, Chain, Either, Future};
use tiny_runtime::scheduler::{Scheduler, Step, Waker};

/// A waker of the task `task`.
fn waker_of(task: u32) -> Waker<u32> {
    let mut scheduler = Scheduler::default();
    scheduler.spawn(task);
    match scheduler.run() {
        Step::Poll { waker, .. } => waker,
        Step::Wait => panic!("the task was spawned"),
    }
}

/// The task that `waker` wakes.
fn woken_by(waker: &Waker<u32>) -> u32 {
    let mut scheduler = Scheduler::default();
    waker.wake(&mut scheduler);
    match scheduler.run() {
        Step::Poll { task, .. } => *task,
        Step::Wait => panic!("the task was woken"),
    }
}

/// Ready with `value` at the poll that follows `delay` others.
struct After {
    delay: u32,
    value: u32,
}

impl Future<u32> for After {
    type Output = u32;

    fn poll(&mut self, _waker: Waker<u32>) -> Option<u32> {
        if self.delay == 0 {
            Some(self.value)
        } else {
            self.delay -= 1;
            None
        }
    }
}

#[test]
fn poll_fn_calls_the_function_with_the_waker() {
    let mut calls = 0;
    let mut future = poll_fn(|waker: Waker<u32>| {
        calls += 1;
        if calls < 3 {
            None
        } else {
            Some(woken_by(&waker))
        }
    });
    assert_eq!(future.poll(waker_of(1)), None);
    assert_eq!(future.poll(waker_of(2)), None);
    assert_eq!(future.poll(waker_of(3)), Some(3));
}

#[test]
fn chain_starts_the_second_in_the_poll_that_ends_the_first() {
    let mut chain = After { delay: 1, value: 4 }.chain(|value: u32| After {
        delay: 0,
        value: value * 10,
    });
    assert_eq!(chain.poll(waker_of(1)), None);
    assert!(matches!(chain, Chain::First { .. }));
    assert_eq!(chain.poll(waker_of(1)), Some(40));
    assert!(matches!(chain, Chain::Second { .. }));
}

#[test]
fn chain_polls_the_first_no_more() {
    let log = RefCell::new(vec![]);
    let first = poll_fn(|_waker: Waker<u32>| {
        log.borrow_mut().push("first");
        Some(())
    });
    let mut chain = first.chain(|_: ()| {
        poll_fn(|_waker: Waker<u32>| {
            log.borrow_mut().push("second");
            None::<u8>
        })
    });
    assert_eq!(chain.poll(waker_of(1)), None);
    assert_eq!(chain.poll(waker_of(1)), None);
    assert_eq!(*log.borrow(), vec!["first", "second", "second"]);
}

#[test]
fn chain_hands_the_waker_to_both() {
    let first = poll_fn(|waker: Waker<u32>| Some(woken_by(&waker)));
    let mut chain = first.chain(|task: u32| {
        poll_fn(move |waker: Waker<u32>| Some((task, woken_by(&waker))))
    });
    assert_eq!(chain.poll(waker_of(6)), Some((6, 6)));
}

#[test]
fn chains_can_be_chained() {
    let mut chain = After { delay: 0, value: 1 }
        .chain(|value: u32| After { delay: 1, value: value + 1 })
        .chain(|value: u32| After { delay: 1, value: value + 1 });
    assert_eq!(chain.poll(waker_of(1)), None);
    assert_eq!(chain.poll(waker_of(1)), None);
    assert_eq!(chain.poll(waker_of(1)), Some(3));
}

/// Writes `name` down at each poll, and is ready with `value` at the one after `delay` others.
fn logged<'a>(
    log: &'a RefCell<Vec<&'static str>>,
    name: &'static str,
    mut delay: u32,
    value: u32,
) -> impl Future<u32, Output = u32> + 'a {
    poll_fn(move |_waker: Waker<u32>| {
        log.borrow_mut().push(name);
        if delay == 0 {
            Some(value)
        } else {
            delay -= 1;
            None
        }
    })
}

#[test]
fn chaining_is_associative() {
    let left_log = RefCell::new(vec![]);
    let right_log = RefCell::new(vec![]);
    let mut left = logged(&left_log, "a", 1, 1)
        .chain(|value: u32| {
            left_log.borrow_mut().push("f");
            logged(&left_log, "b", 1, value * 10)
        })
        .chain(|value: u32| {
            left_log.borrow_mut().push("g");
            logged(&left_log, "c", 1, value + 2)
        });
    let mut right = logged(&right_log, "a", 1, 1).chain(|value: u32| {
        right_log.borrow_mut().push("f");
        logged(&right_log, "b", 1, value * 10).chain(|value: u32| {
            right_log.borrow_mut().push("g");
            logged(&right_log, "c", 1, value + 2)
        })
    });
    for expected in [None, None, None, Some(12)] {
        assert_eq!(left.poll(waker_of(1)), expected);
        assert_eq!(right.poll(waker_of(1)), expected);
        assert_eq!(*left_log.borrow(), *right_log.borrow());
    }
    assert_eq!(
        *left_log.borrow(),
        vec!["a", "a", "f", "b", "b", "g", "c", "c"]
    );
}

#[test]
fn select_prefers_the_left() {
    let right_polls = RefCell::new(0);
    let mut both = select(
        After { delay: 0, value: 1 },
        poll_fn(|_waker: Waker<u32>| {
            *right_polls.borrow_mut() += 1;
            Some(2)
        }),
    );
    assert!(matches!(both.poll(waker_of(1)), Some(Either::Left(1))));
    assert_eq!(*right_polls.borrow(), 0);
}

#[test]
fn select_gives_the_first_that_completes() {
    let mut both = select(After { delay: 2, value: 1 }, After { delay: 1, value: 2 });
    assert!(both.poll(waker_of(1)).is_none());
    assert!(matches!(both.poll(waker_of(1)), Some(Either::Right(2))));
    assert!(matches!(both.poll(waker_of(1)), Some(Either::Left(1))));
}
