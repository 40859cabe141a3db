//! That it does not matter how three futures are chained: what `a.chain(f).chain(g)` does and
//! what `a.chain(h)` does, where `h` gives `f(value).chain(g)`.
use crate::future::{self, Chain, Future};
use crate::scheduler::Waker;
use vstd::prelude::*;

verus! {

/// What `future.chain(transition)` gives.
pub open spec fn chained<T1, G, T2>(future: T1, transition: G) -> Chain<T1, G, T2> {
    Chain::First { future1: future, transition: Some(transition) }
}

/// A chain whose first future is done.
pub open spec fn in_second<T1, G, T2>(future: T2) -> Chain<T1, G, T2> {
    Chain::Second { future2: future }
}

/// Whether `h` only makes what `f` makes, chained with `g`.
pub open spec fn makes_only_chains<V, F, B, G, C, H>(f: F, g: G, h: H) -> bool where
    F: FnOnce(V) -> B,
    H: FnOnce(V) -> Chain<B, G, C>,
 {
    forall|value: V, made: Chain<B, G, C>| #[trigger]
        call_ensures(h, (value,), made) ==> exists|future: B|
            {
                &&& #[trigger] call_ensures(f, (value,), future)
                &&& made == chained::<B, G, C>(future, g)
            }
}

/// Whether `h` can make everything that `f` can make, chained with `g`.
pub open spec fn makes_every_chain<V, F, B, G, C, H>(f: F, g: G, h: H) -> bool where
    F: FnOnce(V) -> B,
    H: FnOnce(V) -> Chain<B, G, C>,
 {
    forall|value: V, future: B| #[trigger]
        call_ensures(f, (value,), future) ==> call_ensures(
            h,
            (value,),
            chained::<B, G, C>(future, g),
        )
}

/// Whether the two chains have come equally far: the same of the three futures is next to be
/// polled, in the same state, and the same transitions are still to be made.
pub open spec fn as_far<A, F, B, G, C, H>(
    f: F,
    g: G,
    h: H,
    left: Chain<Chain<A, F, B>, G, C>,
    right: Chain<A, H, Chain<B, G, C>>,
) -> bool {
    match left {
        Chain::First { future1: Chain::First { future1: a, transition: to_b }, transition: to_c } => {
            &&& to_b == Some(f)
            &&& to_c == Some(g)
            &&& right == chained::<A, H, Chain<B, G, C>>(a, h)
        },
        Chain::First { future1: Chain::Second { future2: b }, transition: to_c } => {
            &&& to_c == Some(g)
            &&& right == in_second::<A, H, Chain<B, G, C>>(chained(b, g))
        },
        Chain::Second { future2: c } => right == in_second::<A, H, Chain<B, G, C>>(in_second(c)),
    }
}

/// While its first future is pending, so is a chain.
proof fn lemma_first_pending<Task, T1, G, T2>(
    future: T1,
    transition: G,
    waker: Waker<Task>,
    next: T1,
) where T1: Future<Task>, G: FnOnce(T1::Output) -> T2, T2: Future<Task>
    requires
        future.polls_to(waker, &next, None),
    ensures
        chained::<T1, G, T2>(future, transition).polls_to(
            waker,
            &chained(next, transition),
            None,
        ),
{
    let chain = chained::<T1, G, T2>(future, transition);
    assert(chain->future1.polls_to(waker, &next, None));
    assert(future::chain_polls_to(chain, waker, chained(next, transition), None));
}

/// When its first future gives `value`, a chain goes on with the second.
proof fn lemma_first_done<Task, T1, G, T2>(
    future: T1,
    transition: G,
    waker: Waker<Task>,
    next: T1,
    value: T1::Output,
    second: T2,
    next_second: T2,
    output: Option<T2::Output>,
) where T1: Future<Task>, G: FnOnce(T1::Output) -> T2, T2: Future<Task>
    requires
        future.polls_to(waker, &next, Some(value)),
        call_ensures(transition, (value,), second),
        second.polls_to(waker, &next_second, output),
    ensures
        chained::<T1, G, T2>(future, transition).polls_to(waker, &in_second(next_second), output),
{
    let chain = chained::<T1, G, T2>(future, transition);
    assert(chain->future1.polls_to(waker, &next, Some(value)));
    assert(call_ensures(chain->transition->0, (value,), second));
    assert(future::chain_polls_to(chain, waker, in_second(next_second), output));
}

/// What the first future did in the poll in which a chain went on to the second: its state,
/// what it gave, and the second future that was made of that.
proof fn lemma_went_on<Task, T1, G, T2>(
    future: T1,
    transition: G,
    waker: Waker<Task>,
    next_second: T2,
    output: Option<T2::Output>,
) -> (done: (T1, T1::Output, T2)) where
    T1: Future<Task>,
    G: FnOnce(T1::Output) -> T2,
    T2: Future<Task>,

    requires
        chained::<T1, G, T2>(future, transition).polls_to(waker, &in_second(next_second), output),
    ensures
        future.polls_to(waker, &done.0, Some(done.1)),
        call_ensures(transition, (done.1,), done.2),
        done.2.polls_to(waker, &next_second, output),
{
    choose|next: T1, value: T1::Output, second: T2|
        {
            &&& #[trigger] future.polls_to(waker, &next, Some(value))
            &&& #[trigger] call_ensures(transition, (value,), second)
            &&& second.polls_to(waker, &next_second, output)
        }
}

/// What one poll of `right` does, a poll of `left` with the same waker can do.
proof fn lemma_left_follows<Task, A, F, B, G, C, H>(
    f: F,
    g: G,
    h: H,
    left: Chain<Chain<A, F, B>, G, C>,
    right: Chain<A, H, Chain<B, G, C>>,
    waker: Waker<Task>,
    next_right: Chain<A, H, Chain<B, G, C>>,
    output: Option<C::Output>,
) -> (next_left: Chain<Chain<A, F, B>, G, C>) where
    A: Future<Task>,
    F: FnOnce(A::Output) -> B,
    B: Future<Task>,
    G: FnOnce(B::Output) -> C,
    C: Future<Task>,
    H: FnOnce(A::Output) -> Chain<B, G, C>,

    requires
        as_far(f, g, h, left, right),
        makes_only_chains::<A::Output, F, B, G, C, H>(f, g, h),
        right.polls_to(waker, &next_right, output),
    ensures
        left.polls_to(waker, &next_left, output),
        as_far(f, g, h, next_left, next_right),
{
    match (right, next_right) {
        (Chain::First { future1: a, .. }, Chain::First { future1: next, .. }) => {
            lemma_first_pending::<Task, A, F, B>(a, f, waker, next);
            let next_inner = chained::<A, F, B>(next, f);
            lemma_first_pending::<Task, Chain<A, F, B>, G, C>(chained(a, f), g, waker, next_inner);
            chained(next_inner, g)
        },
        (Chain::First { future1: a, .. }, Chain::Second { future2: next_rest }) => {
            let (next_a, value, rest) = lemma_went_on::<Task, A, H, Chain<B, G, C>>(
                a,
                h,
                waker,
                next_rest,
                output,
            );
            let b = choose|b: B|
                {
                    &&& #[trigger] call_ensures(f, (value,), b)
                    &&& rest == chained::<B, G, C>(b, g)
                };
            let inner = chained::<A, F, B>(a, f);
            match next_rest {
                Chain::First { future1: next_b, .. } => {
                    assert(b.polls_to(waker, &next_b, None));
                    lemma_first_done(a, f, waker, next_a, value, b, next_b, None);
                    let next_inner = in_second::<A, F, B>(next_b);
                    lemma_first_pending::<Task, Chain<A, F, B>, G, C>(inner, g, waker, next_inner);
                    chained(next_inner, g)
                },
                Chain::Second { future2: next_c } => {
                    let (next_b, from_b, c) = lemma_went_on::<Task, B, G, C>(
                        b,
                        g,
                        waker,
                        next_c,
                        output,
                    );
                    lemma_first_done(a, f, waker, next_a, value, b, next_b, Some(from_b));
                    let next_inner = in_second::<A, F, B>(next_b);
                    lemma_first_done(inner, g, waker, next_inner, from_b, c, next_c, output);
                    in_second(next_c)
                },
            }
        },
        (Chain::Second { future2: Chain::First { future1: b, .. } }, _) => {
            let inner = in_second::<A, F, B>(b);
            match next_right->future2 {
                Chain::First { future1: next_b, .. } => {
                    assert(b.polls_to(waker, &next_b, None));
                    let next_inner = in_second::<A, F, B>(next_b);
                    lemma_first_pending::<Task, Chain<A, F, B>, G, C>(inner, g, waker, next_inner);
                    chained(next_inner, g)
                },
                Chain::Second { future2: next_c } => {
                    let (next_b, from_b, c) = lemma_went_on::<Task, B, G, C>(
                        b,
                        g,
                        waker,
                        next_c,
                        output,
                    );
                    let next_inner = in_second::<A, F, B>(next_b);
                    lemma_first_done(inner, g, waker, next_inner, from_b, c, next_c, output);
                    in_second(next_c)
                },
            }
        },
        (Chain::Second { .. }, _) => in_second(next_right->future2->future2),
    }
}

/// What one poll of `left` does, a poll of `right` with the same waker can do.
proof fn lemma_right_follows<Task, A, F, B, G, C, H>(
    f: F,
    g: G,
    h: H,
    left: Chain<Chain<A, F, B>, G, C>,
    right: Chain<A, H, Chain<B, G, C>>,
    waker: Waker<Task>,
    next_left: Chain<Chain<A, F, B>, G, C>,
    output: Option<C::Output>,
) -> (next_right: Chain<A, H, Chain<B, G, C>>) where
    A: Future<Task>,
    F: FnOnce(A::Output) -> B,
    B: Future<Task>,
    G: FnOnce(B::Output) -> C,
    C: Future<Task>,
    H: FnOnce(A::Output) -> Chain<B, G, C>,

    requires
        as_far(f, g, h, left, right),
        makes_every_chain::<A::Output, F, B, G, C, H>(f, g, h),
        left.polls_to(waker, &next_left, output),
    ensures
        right.polls_to(waker, &next_right, output),
        as_far(f, g, h, next_left, next_right),
{
    match (left, next_left) {
        (Chain::First { future1: inner, .. }, Chain::First { future1: next_inner, .. }) => {
            assert(inner.polls_to(waker, &next_inner, None));
            match (inner, next_inner) {
                (Chain::First { future1: a, .. }, Chain::First { future1: next_a, .. }) => {
                    lemma_first_pending::<Task, A, H, Chain<B, G, C>>(a, h, waker, next_a);
                    chained(next_a, h)
                },
                (Chain::First { future1: a, .. }, Chain::Second { future2: next_b }) => {
                    let (next_a, value, b) = lemma_went_on::<Task, A, F, B>(
                        a,
                        f,
                        waker,
                        next_b,
                        None,
                    );
                    lemma_first_pending::<Task, B, G, C>(b, g, waker, next_b);
                    let rest = chained::<B, G, C>(b, g);
                    let next_rest = chained::<B, G, C>(next_b, g);
                    lemma_first_done(a, h, waker, next_a, value, rest, next_rest, None);
                    in_second(next_rest)
                },
                (Chain::Second { future2: b }, _) => {
                    let next_b = next_inner->future2;
                    lemma_first_pending::<Task, B, G, C>(b, g, waker, next_b);
                    in_second(chained(next_b, g))
                },
            }
        },
        (Chain::First { future1: inner, .. }, Chain::Second { future2: next_c }) => {
            let (next_inner, from_b, c) = lemma_went_on::<Task, Chain<A, F, B>, G, C>(
                inner,
                g,
                waker,
                next_c,
                output,
            );
            let next_b = next_inner->future2;
            let next_rest = in_second::<B, G, C>(next_c);
            match inner {
                Chain::First { future1: a, .. } => {
                    let (next_a, value, b) = lemma_went_on::<Task, A, F, B>(
                        a,
                        f,
                        waker,
                        next_b,
                        Some(from_b),
                    );
                    lemma_first_done(b, g, waker, next_b, from_b, c, next_c, output);
                    let rest = chained::<B, G, C>(b, g);
                    lemma_first_done(a, h, waker, next_a, value, rest, next_rest, output);
                },
                Chain::Second { future2: b } => {
                    lemma_first_done(b, g, waker, next_b, from_b, c, next_c, output);
                },
            }
            in_second(next_rest)
        },
        (Chain::Second { .. }, _) => in_second(in_second(next_left->future2)),
    }
}

/// Whatever `a.chain(h)` gives when polled, `a.chain(f).chain(g)` can give too, polled with
/// the same wakers: after each poll both have come equally far, so they poll the same futures
/// and make the same transitions in the same order.
pub proof fn law_left_gives_what_right_gives<Task, A, F, B, G, C, H>(
    a: A,
    f: F,
    g: G,
    h: H,
    rights: Seq<Chain<A, H, Chain<B, G, C>>>,
    wakers: Seq<Waker<Task>>,
    outputs: Seq<Option<C::Output>>,
) -> (lefts: Seq<Chain<Chain<A, F, B>, G, C>>) where
    A: Future<Task>,
    F: FnOnce(A::Output) -> B,
    B: Future<Task>,
    G: FnOnce(B::Output) -> C,
    C: Future<Task>,
    H: FnOnce(A::Output) -> Chain<B, G, C>,

    requires
        makes_only_chains::<A::Output, F, B, G, C, H>(f, g, h),
        future::is_run(rights, wakers, outputs),
        rights[0] == chained::<A, H, Chain<B, G, C>>(a, h),
    ensures
        future::is_run(lefts, wakers, outputs),
        lefts[0] == chained::<Chain<A, F, B>, G, C>(chained(a, f), g),
        forall|i: int|
            0 <= i <= outputs.len() ==> as_far(f, g, h, #[trigger] lefts[i], #[trigger] rights[i]),
    decreases outputs.len(),
{
    if outputs.len() == 0 {
        seq![chained(chained(a, f), g)]
    } else {
        let n: int = outputs.len() - 1;
        assert forall|i: int| 0 <= i < n implies #[trigger] rights.drop_last()[i].polls_to(
            wakers.drop_last()[i],
            &rights.drop_last()[i + 1],
            outputs.drop_last()[i],
        ) by {
            assert(rights[i].polls_to(wakers[i], &rights[i + 1], outputs[i]));
        }
        let earlier = law_left_gives_what_right_gives(
            a,
            f,
            g,
            h,
            rights.drop_last(),
            wakers.drop_last(),
            outputs.drop_last(),
        );
        assert(rights[n].polls_to(wakers[n], &rights[n + 1], outputs[n]));
        assert(rights.drop_last()[n] == rights[n]);
        let next = lemma_left_follows(f, g, h, earlier[n], rights[n], wakers[n], rights[n + 1], outputs[n]);
        let lefts = earlier.push(next);
        assert forall|i: int| 0 <= i < outputs.len() implies #[trigger] lefts[i].polls_to(
            wakers[i],
            &lefts[i + 1],
            outputs[i],
        ) by {
            if i < n {
                assert(earlier[i].polls_to(
                    wakers.drop_last()[i],
                    &earlier[i + 1],
                    outputs.drop_last()[i],
                ));
            }
        }
        assert forall|i: int| 0 <= i <= outputs.len() implies as_far(
            f,
            g,
            h,
            #[trigger] lefts[i],
            #[trigger] rights[i],
        ) by {
            if i <= n {
                assert(rights.drop_last()[i] == rights[i]);
                assert(lefts[i] == earlier[i]);
            }
        }
        lefts
    }
}

/// Whatever `a.chain(f).chain(g)` gives when polled, `a.chain(h)` can give too, polled with
/// the same wakers: after each poll both have come equally far, so they poll the same futures
/// and make the same transitions in the same order.
pub proof fn law_right_gives_what_left_gives<Task, A, F, B, G, C, H>(
    a: A,
    f: F,
    g: G,
    h: H,
    lefts: Seq<Chain<Chain<A, F, B>, G, C>>,
    wakers: Seq<Waker<Task>>,
    outputs: Seq<Option<C::Output>>,
) -> (rights: Seq<Chain<A, H, Chain<B, G, C>>>) where
    A: Future<Task>,
    F: FnOnce(A::Output) -> B,
    B: Future<Task>,
    G: FnOnce(B::Output) -> C,
    C: Future<Task>,
    H: FnOnce(A::Output) -> Chain<B, G, C>,

    requires
        makes_every_chain::<A::Output, F, B, G, C, H>(f, g, h),
        future::is_run(lefts, wakers, outputs),
        lefts[0] == chained::<Chain<A, F, B>, G, C>(chained(a, f), g),
    ensures
        future::is_run(rights, wakers, outputs),
        rights[0] == chained::<A, H, Chain<B, G, C>>(a, h),
        forall|i: int|
            0 <= i <= outputs.len() ==> as_far(f, g, h, #[trigger] lefts[i], #[trigger] rights[i]),
    decreases outputs.len(),
{
    if outputs.len() == 0 {
        seq![chained(a, h)]
    } else {
        let n: int = outputs.len() - 1;
        assert forall|i: int| 0 <= i < n implies #[trigger] lefts.drop_last()[i].polls_to(
            wakers.drop_last()[i],
            &lefts.drop_last()[i + 1],
            outputs.drop_last()[i],
        ) by {
            assert(lefts[i].polls_to(wakers[i], &lefts[i + 1], outputs[i]));
        }
        let earlier = law_right_gives_what_left_gives(
            a,
            f,
            g,
            h,
            lefts.drop_last(),
            wakers.drop_last(),
            outputs.drop_last(),
        );
        assert(lefts[n].polls_to(wakers[n], &lefts[n + 1], outputs[n]));
        assert(lefts.drop_last()[n] == lefts[n]);
        let next = lemma_right_follows(f, g, h, lefts[n], earlier[n], wakers[n], lefts[n + 1], outputs[n]);
        let rights = earlier.push(next);
        assert forall|i: int| 0 <= i < outputs.len() implies #[trigger] rights[i].polls_to(
            wakers[i],
            &rights[i + 1],
            outputs[i],
        ) by {
            if i < n {
                assert(earlier[i].polls_to(
                    wakers.drop_last()[i],
                    &earlier[i + 1],
                    outputs.drop_last()[i],
                ));
            }
        }
        assert forall|i: int| 0 <= i <= outputs.len() implies as_far(
            f,
            g,
            h,
            #[trigger] lefts[i],
            #[trigger] rights[i],
        ) by {
            if i <= n {
                assert(lefts.drop_last()[i] == lefts[i]);
                assert(rights[i] == earlier[i]);
            }
        }
        rights
    }
}

/// Whether `future`, polled once with each of `wakers`, can give `outputs`.
pub open spec fn can_give<Task, T: Future<Task>>(
    future: T,
    wakers: Seq<Waker<Task>>,
    outputs: Seq<Option<T::Output>>,
) -> bool {
    exists|states: Seq<T>| #[trigger]
        future::is_run(states, wakers, outputs) && states[0] == future
}

/// Chaining is associative: polled with the same wakers, `a.chain(f).chain(g)` and
/// `a.chain(h)` can give just the same outputs, poll by poll.
pub proof fn law_chain_is_associative<Task, A, F, B, G, C, H>(
    a: A,
    f: F,
    g: G,
    h: H,
    wakers: Seq<Waker<Task>>,
    outputs: Seq<Option<C::Output>>,
) where
    A: Future<Task>,
    F: FnOnce(A::Output) -> B,
    B: Future<Task>,
    G: FnOnce(B::Output) -> C,
    C: Future<Task>,
    H: FnOnce(A::Output) -> Chain<B, G, C>,

    requires
        makes_only_chains::<A::Output, F, B, G, C, H>(f, g, h),
        makes_every_chain::<A::Output, F, B, G, C, H>(f, g, h),
    ensures
        can_give(chained::<Chain<A, F, B>, G, C>(chained(a, f), g), wakers, outputs) <==> can_give(
            chained::<A, H, Chain<B, G, C>>(a, h),
            wakers,
            outputs,
        ),
{
    let left = chained::<Chain<A, F, B>, G, C>(chained(a, f), g);
    let right = chained::<A, H, Chain<B, G, C>>(a, h);
    if can_give(left, wakers, outputs) {
        let lefts = choose|states: Seq<Chain<Chain<A, F, B>, G, C>>| #[trigger]
            future::is_run(states, wakers, outputs) && states[0] == left;
        let rights = law_right_gives_what_left_gives(a, f, g, h, lefts, wakers, outputs);
        assert(can_give(right, wakers, outputs));
    }
    if can_give(right, wakers, outputs) {
        let rights = choose|states: Seq<Chain<A, H, Chain<B, G, C>>>| #[trigger]
            future::is_run(states, wakers, outputs) && states[0] == right;
        let lefts = law_left_gives_what_right_gives(a, f, g, h, rights, wakers, outputs);
        assert(can_give(left, wakers, outputs));
    }
}

} // verus!
