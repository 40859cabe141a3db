//! Futures that are polled with a waker, and the ways to combine them.
use crate::scheduler::Waker;
use std::marker::PhantomData;
use vstd::prelude::*;

verus! {

/// A computation that is polled until it yields its output.
///
/// `Task` is what the run queue holds: a waker puts one of those back on the queue.
pub trait Future<Task> {
    /// What the computation yields when it is done.
    type Output;

    /// Whether the future may be polled: always, unless an implementation says otherwise.
    open spec fn pollable(&self) -> bool {
        true
    }

    /// Whether polling this future with `waker` can leave it as `next` and give `output`: an
    /// implementation that does not say promises nothing.
    open spec fn polls_to(
        &self,
        waker: Waker<Task>,
        next: &Self,
        output: Option<Self::Output>,
    ) -> bool {
        true
    }

    /// Makes progress as far as it goes: `Some` with the output once there is one, and
    /// `None` when there is not, after arranging for `waker` to be woken.
    fn poll(&mut self, waker: Waker<Task>) -> (output: Option<Self::Output>)
        requires
            old(self).pollable(),
        ensures
            final(self).pollable(),
            old(self).polls_to(waker, final(self), output),
    ;

    /// Chains two futures together, running the second after the first completes:
    /// `transition` makes the second from the output of the first.
    fn chain<G, T>(self, transition: G) -> (chain: Chain<Self, G, T>) where
        G: FnOnce(Self::Output) -> T,
        Self: Sized,

        ensures
            chain == (Chain::<Self, G, T>::First { future1: self, transition: Some(transition) }),
    {
        Chain::First { future1: self, transition: Some(transition) }
    }
}

/// Two futures, one after the other.
pub enum Chain<T1, G, T2> {
    /// The first future is not done.
    First { future1: T1, transition: Option<G> },
    /// The first future is done.
    Second { future2: T2 },
}

/// Whether a chain may be polled: while the first future runs, the transition is there, takes
/// every output, and makes futures that may be polled.
pub open spec fn chain_pollable<Task, T1, G, T2>(chain: Chain<T1, G, T2>) -> bool where
    T1: Future<Task>,
    G: FnOnce(T1::Output) -> T2,
    T2: Future<Task>,
 {
    match chain {
        Chain::First { future1, transition } => {
            &&& future1.pollable()
            &&& transition matches Some(transition)
            &&& forall|value: T1::Output| #[trigger] call_requires(transition, (value,))
            &&& forall|value: T1::Output, future2: T2| #[trigger]
                call_ensures(transition, (value,), future2) ==> future2.pollable()
        },
        Chain::Second { future2 } => future2.pollable(),
    }
}

/// What polling a chain can do: the first future is polled until it is done, and the second,
/// made from its output, from then on, starting within the same poll.
pub open spec fn chain_polls_to<Task, T1, G, T2>(
    chain: Chain<T1, G, T2>,
    waker: Waker<Task>,
    next: Chain<T1, G, T2>,
    output: Option<T2::Output>,
) -> bool where T1: Future<Task>, G: FnOnce(T1::Output) -> T2, T2: Future<Task> {
    match chain {
        Chain::First { future1, transition } => {
            ||| exists|next1: T1|
                {
                    &&& #[trigger] future1.polls_to(waker, &next1, None)
                    &&& next == Chain::<T1, G, T2>::First { future1: next1, transition }
                    &&& output is None
                }
            ||| exists|next1: T1, value: T1::Output, future2: T2|
                {
                    &&& #[trigger] future1.polls_to(waker, &next1, Some(value))
                    &&& #[trigger] call_ensures(transition->0, (value,), future2)
                    &&& next matches Chain::Second { future2: next2 }
                    &&& future2.polls_to(waker, &next2, output)
                }
        },
        Chain::Second { future2 } => {
            &&& next matches Chain::Second { future2: next2 }
            &&& future2.polls_to(waker, &next2, output)
        },
    }
}

impl<Task, T1, G, T2> Future<Task> for Chain<T1, G, T2> where
    T1: Future<Task>,
    G: FnOnce(T1::Output) -> T2,
    T2: Future<Task>,
 {
    type Output = T2::Output;

    open spec fn pollable(&self) -> bool {
        chain_pollable::<Task, T1, G, T2>(*self)
    }

    open spec fn polls_to(
        &self,
        waker: Waker<Task>,
        next: &Self,
        output: Option<T2::Output>,
    ) -> bool {
        chain_polls_to(*self, waker, *next, output)
    }

    fn poll(&mut self, waker: Waker<Task>) -> (output: Option<T2::Output>)
        ensures
            chain_polls_to(*old(self), waker, *final(self), output),
    {
        if let Chain::First { future1, transition } = self {
            match future1.poll(waker.clone()) {
                Some(value) => {
                    let future2 = (transition.take().unwrap())(value);
                    *self = Chain::Second { future2 };
                },
                None => return None,
            }
        }
        if let Chain::Second { future2 } = self {
            return future2.poll(waker);
        }
        None
    }
}

/// Two futures at once; see [`select`].
pub struct Select<L, R> {
    left: L,
    right: R,
}

/// The output of whichever of two futures completed first.
pub enum Either<L, R> {
    Left(L),
    Right(R),
}

impl<L, R> Select<L, R> {
    /// The future that is polled first.
    pub closed spec fn left(self) -> L {
        self.left
    }

    /// The future that is polled while the left one is not done.
    pub closed spec fn right(self) -> R {
        self.right
    }
}

/// Selects between two futures, giving the output of whichever one completes first.
pub fn select<L, R>(left: L, right: R) -> (select: Select<L, R>)
    ensures
        select.left() == left,
        select.right() == right,
{
    Select { left, right }
}

/// Whether a selection may be polled: both futures may.
pub open spec fn select_pollable<Task, L: Future<Task>, R: Future<Task>>(
    select: Select<L, R>,
) -> bool {
    &&& select.left().pollable()
    &&& select.right().pollable()
}

/// What polling a selection can do: the left future is polled; the right one is, too, unless
/// the left one is done.
pub open spec fn select_polls_to<Task, L: Future<Task>, R: Future<Task>>(
    select: Select<L, R>,
    waker: Waker<Task>,
    next: Select<L, R>,
    output: Option<Either<L::Output, R::Output>>,
) -> bool {
    match output {
        Some(Either::Left(value)) => {
            &&& select.left().polls_to(waker, &next.left(), Some(value))
            &&& next.right() == select.right()
        },
        Some(Either::Right(value)) => {
            &&& select.left().polls_to(waker, &next.left(), None)
            &&& select.right().polls_to(waker, &next.right(), Some(value))
        },
        None => {
            &&& select.left().polls_to(waker, &next.left(), None)
            &&& select.right().polls_to(waker, &next.right(), None)
        },
    }
}

impl<Task, L: Future<Task>, R: Future<Task>> Future<Task> for Select<L, R> {
    type Output = Either<L::Output, R::Output>;

    open spec fn pollable(&self) -> bool {
        select_pollable::<Task, L, R>(*self)
    }

    open spec fn polls_to(
        &self,
        waker: Waker<Task>,
        next: &Self,
        output: Option<Either<L::Output, R::Output>>,
    ) -> bool {
        select_polls_to(*self, waker, *next, output)
    }

    fn poll(&mut self, waker: Waker<Task>) -> (output: Option<Either<L::Output, R::Output>>)
        ensures
            select_polls_to(*old(self), waker, *final(self), output),
    {
        if let Some(output) = self.left.poll(waker.clone()) {
            return Some(Either::Left(output));
        }
        if let Some(output) = self.right.poll(waker) {
            return Some(Either::Right(output));
        }
        None
    }
}

/// A future that polls by calling a function; see [`poll_fn`].
pub struct PollFn<G, T> {
    function: G,
    output: PhantomData<T>,
}

impl<G, T> PollFn<G, T> {
    /// The function that polling calls.
    pub closed spec fn function(self) -> G {
        self.function
    }
}

/// Whether a future made of a function may be polled: the function takes every waker.
pub open spec fn poll_fn_pollable<Task, G, T>(future: PollFn<G, T>) -> bool where
    G: FnMut(Waker<Task>) -> Option<T>,
 {
    forall|waker: Waker<Task>| #[trigger] call_requires(future.function(), (waker,))
}

/// What polling a future made of a function can do: the output is what the function returns
/// for the waker. What the function keeps in the variables that it captures is not tracked.
pub open spec fn poll_fn_polls_to<Task, G, T>(
    future: PollFn<G, T>,
    waker: Waker<Task>,
    next: PollFn<G, T>,
    output: Option<T>,
) -> bool where G: FnMut(Waker<Task>) -> Option<T> {
    &&& call_ensures(future.function(), (waker,), output)
    &&& next.function() == future.function()
}

/// Creates a future with the given `poll` function.
pub fn poll_fn<Task, G, T>(f: G) -> (future: PollFn<G, T>) where G: FnMut(Waker<Task>) -> Option<T>
    ensures
        future.function() == f,
        Future::<Task>::pollable(&future) == poll_fn_pollable::<Task, G, T>(future),
{
    PollFn { function: f, output: PhantomData }
}

impl<Task, G, T> Future<Task> for PollFn<G, T> where G: FnMut(Waker<Task>) -> Option<T> {
    type Output = T;

    open spec fn pollable(&self) -> bool {
        poll_fn_pollable::<Task, G, T>(*self)
    }

    open spec fn polls_to(&self, waker: Waker<Task>, next: &Self, output: Option<T>) -> bool {
        poll_fn_polls_to(*self, waker, *next, output)
    }

    fn poll(&mut self, waker: Waker<Task>) -> (output: Option<T>)
        ensures
            poll_fn_polls_to(*old(self), waker, *final(self), output),
    {
        assert(call_requires(self.function(), (waker,)));
        (self.function)(waker)
    }
}

/// A chain may be polled just when [`chain_pollable`] says so, whatever the types of its
/// futures and of its transition.
pub proof fn law_chain_pollable<Task, T1, G, T2>(chain: Chain<T1, G, T2>) where
    T1: Future<Task>,
    G: FnOnce(T1::Output) -> T2,
    T2: Future<Task>,

    ensures
        Future::<Task>::pollable(&chain) == chain_pollable::<Task, T1, G, T2>(chain),
{
}

/// A selection may be polled just when [`select_pollable`] says so, whatever the types of its
/// futures.
pub proof fn law_select_pollable<Task, L: Future<Task>, R: Future<Task>>(select: Select<L, R>)
    ensures
        Future::<Task>::pollable(&select) == select_pollable::<Task, L, R>(select),
{
}

/// A chain does when polled just what [`chain_polls_to`] says, whatever the types of its
/// futures and of its transition.
pub proof fn law_chain_polls_to<Task, T1, G, T2>(
    chain: Chain<T1, G, T2>,
    waker: Waker<Task>,
    next: Chain<T1, G, T2>,
    output: Option<T2::Output>,
) where T1: Future<Task>, G: FnOnce(T1::Output) -> T2, T2: Future<Task>
    ensures
        chain.polls_to(waker, &next, output) == chain_polls_to(chain, waker, next, output),
{
}

/// A selection does when polled just what [`select_polls_to`] says, whatever the types of its
/// futures.
pub proof fn law_select_polls_to<Task, L: Future<Task>, R: Future<Task>>(
    select: Select<L, R>,
    waker: Waker<Task>,
    next: Select<L, R>,
    output: Option<Either<L::Output, R::Output>>,
)
    ensures
        select.polls_to(waker, &next, output) == select_polls_to(select, waker, next, output),
{
}

/// A future made of a function does when polled just what [`poll_fn_polls_to`] says, whatever
/// the type of the function.
pub proof fn law_poll_fn_polls_to<Task, G, T>(
    future: PollFn<G, T>,
    waker: Waker<Task>,
    next: PollFn<G, T>,
    output: Option<T>,
) where G: FnMut(Waker<Task>) -> Option<T>
    ensures
        future.polls_to(waker, &next, output) == poll_fn_polls_to(future, waker, next, output),
{
}

/// Whether `states` is what a future goes through when it is polled once with each of
/// `wakers`, giving `outputs`.
pub open spec fn is_run<Task, T: Future<Task>>(
    states: Seq<T>,
    wakers: Seq<Waker<Task>>,
    outputs: Seq<Option<T::Output>>,
) -> bool {
    &&& wakers.len() == outputs.len()
    &&& states.len() == outputs.len() + 1
    &&& forall|i: int|
        0 <= i < outputs.len() ==> #[trigger] states[i].polls_to(
            wakers[i],
            &states[i + 1],
            outputs[i],
        )
}

/// However often a future made of a function is polled, also after an output, each poll gives
/// what the function returns for the waker of that poll.
pub proof fn law_poll_fn_gives_what_the_function_returns<Task, G, T>(
    states: Seq<PollFn<G, T>>,
    wakers: Seq<Waker<Task>>,
    outputs: Seq<Option<T>>,
    i: int,
) where G: FnMut(Waker<Task>) -> Option<T>
    requires
        is_run(states, wakers, outputs),
        0 <= i < outputs.len(),
    ensures
        states[i].function() == states[0].function(),
        call_ensures(states[0].function(), (wakers[i],), outputs[i]),
    decreases i,
{
    assert(states[i].polls_to(wakers[i], &states[i + 1], outputs[i]));
    if i > 0 {
        law_poll_fn_gives_what_the_function_returns(states, wakers, outputs, i - 1);
        assert(states[i - 1].polls_to(wakers[i - 1], &states[i - 1 + 1], outputs[i - 1]));
    }
}

/// A chain never goes back to its first future once that one is done.
pub proof fn law_chain_never_goes_back<Task, T1, G, T2>(
    states: Seq<Chain<T1, G, T2>>,
    wakers: Seq<Waker<Task>>,
    outputs: Seq<Option<T2::Output>>,
    i: int,
    j: int,
) where T1: Future<Task>, G: FnOnce(T1::Output) -> T2, T2: Future<Task>
    requires
        is_run(states, wakers, outputs),
        0 <= i <= j < states.len(),
        states[i] is Second,
    ensures
        states[j] is Second,
    decreases j - i,
{
    if i < j {
        law_chain_never_goes_back(states, wakers, outputs, i, j - 1);
        assert(states[j - 1].polls_to(wakers[j - 1], &states[j - 1 + 1], outputs[j - 1]));
    }
}

/// A chain gives an output only when its first future is done, and then it is the second
/// future's output.
pub proof fn law_chain_output_comes_second<Task, T1, G, T2>(
    chain: Chain<T1, G, T2>,
    waker: Waker<Task>,
    next: Chain<T1, G, T2>,
    value: T2::Output,
) where T1: Future<Task>, G: FnOnce(T1::Output) -> T2, T2: Future<Task>
    requires
        chain.polls_to(waker, &next, Some(value)),
    ensures
        next is Second,
        exists|future2: T2| #[trigger] future2.polls_to(waker, &next->future2, Some(value)),
        chain is First ==> exists|next1: T1, value1: T1::Output| #[trigger]
            chain->future1.polls_to(waker, &next1, Some(value1)),
{
}

/// While its first future cannot complete, a chain gives no output and keeps its
/// transition.
pub proof fn law_chain_waits_for_first<Task, T1, G, T2>(
    chain: Chain<T1, G, T2>,
    waker: Waker<Task>,
    next: Chain<T1, G, T2>,
    output: Option<T2::Output>,
) where T1: Future<Task>, G: FnOnce(T1::Output) -> T2, T2: Future<Task>
    requires
        chain is First,
        forall|next1: T1, value: T1::Output| !#[trigger]
            chain->future1.polls_to(waker, &next1, Some(value)),
        chain.polls_to(waker, &next, output),
    ensures
        output is None,
        next is First,
        next->transition == chain->transition,
        chain->future1.polls_to(waker, &next->future1, None),
{
}

/// When its first future can only complete, a chain goes on in the same poll: the second
/// future is made from the output of the first by the transition, and polled with the same
/// waker, and what it gives is what the chain gives.
pub proof fn law_chain_goes_on_at_once<Task, T1, G, T2>(
    chain: Chain<T1, G, T2>,
    waker: Waker<Task>,
    next: Chain<T1, G, T2>,
    output: Option<T2::Output>,
) where T1: Future<Task>, G: FnOnce(T1::Output) -> T2, T2: Future<Task>
    requires
        chain is First,
        forall|next1: T1| !#[trigger] chain->future1.polls_to(waker, &next1, None),
        chain.polls_to(waker, &next, output),
    ensures
        next is Second,
        exists|next1: T1, value: T1::Output, future2: T2|
            {
                &&& #[trigger] chain->future1.polls_to(waker, &next1, Some(value))
                &&& #[trigger] call_ensures(chain->transition->0, (value,), future2)
                &&& future2.polls_to(waker, &next->future2, output)
            },
{
}

/// Once its first future is done, a chain is its second future.
pub proof fn law_chain_is_its_second<Task, T1, G, T2>(
    chain: Chain<T1, G, T2>,
    waker: Waker<Task>,
    next: Chain<T1, G, T2>,
    output: Option<T2::Output>,
) where T1: Future<Task>, G: FnOnce(T1::Output) -> T2, T2: Future<Task>
    requires
        chain is Second,
    ensures
        chain.polls_to(waker, &next, output) <==> next is Second && chain->future2.polls_to(
            waker,
            &next->future2,
            output,
        ),
{
}

/// While the left future cannot complete and the right one can only complete, the right one's
/// output is given.
pub proof fn law_select_gives_right<Task, L: Future<Task>, R: Future<Task>>(
    select: Select<L, R>,
    waker: Waker<Task>,
    next: Select<L, R>,
    output: Option<Either<L::Output, R::Output>>,
)
    requires
        forall|next_left: L, value: L::Output| !#[trigger]
            select.left().polls_to(waker, &next_left, Some(value)),
        forall|next_right: R| !#[trigger] select.right().polls_to(waker, &next_right, None),
        select.polls_to(waker, &next, output),
    ensures
        output matches Some(Either::Right(value)) && select.right().polls_to(
            waker,
            &next.right(),
            Some(value),
        ),
        select.left().polls_to(waker, &next.left(), None),
{
}

/// When the left future can only complete, its output is given and the right future is left
/// alone.
pub proof fn law_select_prefers_left<Task, L: Future<Task>, R: Future<Task>>(
    select: Select<L, R>,
    waker: Waker<Task>,
    next: Select<L, R>,
    output: Option<Either<L::Output, R::Output>>,
)
    requires
        forall|next_left: L| !#[trigger] select.left().polls_to(waker, &next_left, None),
        select.polls_to(waker, &next, output),
    ensures
        output matches Some(Either::Left(value)) && select.left().polls_to(
            waker,
            &next.left(),
            Some(value),
        ),
        next.right() == select.right(),
{
}

/// A selection gives the output of the future that completed: the left one's without the right
/// one having been polled, or the right one's when the left one was polled and is not done.
pub proof fn law_select_gives_what_completed<Task, L: Future<Task>, R: Future<Task>>(
    select: Select<L, R>,
    waker: Waker<Task>,
    next: Select<L, R>,
    from_left: L::Output,
    from_right: R::Output,
)
    ensures
        select.polls_to(waker, &next, Some(Either::Left(from_left))) <==> {
            &&& select.left().polls_to(waker, &next.left(), Some(from_left))
            &&& next.right() == select.right()
        },
        select.polls_to(waker, &next, Some(Either::Right(from_right))) <==> {
            &&& select.left().polls_to(waker, &next.left(), None)
            &&& select.right().polls_to(waker, &next.right(), Some(from_right))
        },
{
}

/// A selection gives no output exactly when both futures were polled and neither is done.
pub proof fn law_select_waits_for_both<Task, L: Future<Task>, R: Future<Task>>(
    select: Select<L, R>,
    waker: Waker<Task>,
    next: Select<L, R>,
)
    ensures
        select.polls_to(waker, &next, None) <==> {
            &&& select.left().polls_to(waker, &next.left(), None)
            &&& select.right().polls_to(waker, &next.right(), None)
        },
{
}

} // verus!
