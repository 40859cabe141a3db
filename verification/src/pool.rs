//! The connections of the non-blocking server.
use crate::exchange::{self, Exchange, IoEvent, Next, Operation, Phase, Progress, Server};
use vstd::prelude::*;

verus! {

/// The open connections, served in turn, and those that were completed in this turn.
pub struct Pool<C> {
    connections: Vec<(C, Exchange)>,
    completed: Vec<usize>,
}

/// What a [`Pool`] holds.
#[verifier::ext_equal]
pub struct PoolState<C> {
    /// The open connections, each with the phase that it is in.
    pub connections: Seq<(C, Phase)>,
    /// The positions of those that were completed in this turn.
    pub completed: Seq<usize>,
}

/// Whether the connections at `completed` can be removed one after the other from `len`
/// connections: each position is still there when its turn comes.
pub open spec fn removable(len: nat, completed: Seq<usize>) -> bool {
    forall|k: int| 0 <= k < completed.len() ==> #[trigger] completed[k] < len - k
}

/// What is left of `items` when those at `completed` are removed one after the other, each
/// at the position that it names by then.
pub open spec fn remaining<T>(items: Seq<T>, completed: Seq<usize>) -> Seq<T>
    decreases completed.len(),
{
    if completed.len() == 0 {
        items
    } else {
        remaining(items, completed.drop_last()).remove(completed.last() as int)
    }
}

impl<C> View for Pool<C> {
    type V = PoolState<C>;

    closed spec fn view(&self) -> PoolState<C> {
        PoolState {
            connections: self.connections@.map_values(
                |entry: (C, Exchange)| (entry.0, entry.1@),
            ),
            completed: self.completed@,
        }
    }
}

impl<C> Pool<C> {
    /// The connections are those of a non-blocking server.
    pub closed spec fn wf(self) -> bool {
        forall|i: int|
            0 <= i < self.connections@.len() ==> (#[trigger] self.connections@[i]).1.wf()
                && self.connections@[i].1.server() == Server::NonBlocking
    }

    /// A pool with no connection.
    pub fn new() -> (pool: Pool<C>)
        ensures
            pool.wf(),
            pool@ == (PoolState::<C> { connections: Seq::empty(), completed: Seq::empty() }),
    {
        let pool = Pool { connections: Vec::new(), completed: Vec::new() };
        assert(pool@.connections == Seq::<(C, Phase)>::empty());
        pool
    }

    /// How many connections are open.
    pub fn len(&self) -> (len: usize)
        ensures
            len == self@.connections.len(),
    {
        self.connections.len()
    }

    /// Takes in a new connection, behind the others.
    pub fn accept(&mut self, connection: C)
        requires
            old(self).wf(),
        ensures
            final(self).wf(),
            final(self)@.connections == old(self)@.connections.push(
                (connection, exchange::reading()),
            ),
            final(self)@.completed == old(self)@.completed,
    {
        self.connections.push((connection, Exchange::new(Server::NonBlocking)));
        assert(self@.connections =~= old(self)@.connections.push(
            (connection, exchange::reading()),
        ));
    }

    /// The `i`th connection.
    pub fn connection(&self, i: usize) -> (connection: &C)
        requires
            i < self@.connections.len(),
        ensures
            *connection == self@.connections[i as int].0,
    {
        &self.connections[i].0
    }

    /// The operation that the `i`th connection needs next.
    pub fn operation(&self, i: usize) -> (operation: Operation)
        requires
            self.wf(),
            i < self@.connections.len(),
        ensures
            exchange::is_operation_of(self@.connections[i as int].1, operation),
    {
        assert(self.connections@[i as int].1.wf());
        self.connections[i].1.operation()
    }

    /// Whether `event` can come of the operation of the `i`th connection.
    pub fn accepts(&self, i: usize, event: &IoEvent) -> (accepted: bool)
        requires
            self.wf(),
            i < self@.connections.len(),
        ensures
            accepted == exchange::accepts(self@.connections[i as int].1, *event),
    {
        assert(self.connections@[i as int].1.wf());
        self.connections[i].1.accepts(event)
    }

    /// Takes in what came of the operation of the `i`th connection, and notes whether that
    /// completes it.
    pub fn step(&mut self, i: usize, event: IoEvent) -> (progress: Progress)
        requires
            old(self).wf(),
            i < old(self)@.connections.len(),
            exchange::accepts(old(self)@.connections[i as int].1, event),
        ensures
            final(self).wf(),
            ({
                let (connection, phase) = old(self)@.connections[i as int];
                let (next_phase, made) = exchange::transition(Server::NonBlocking, phase, event);
                &&& progress@ == made
                &&& final(self)@.connections == old(self)@.connections.update(
                    i as int,
                    (connection, next_phase),
                )
                &&& final(self)@.completed == if made.next == Next::Done {
                    old(self)@.completed.push(i)
                } else {
                    old(self)@.completed
                }
            }),
    {
        let exchange = &mut self.connections[i].1;
        let progress = exchange.step(event);
        if progress.next == Next::Done {
            self.completed.push(i);
        }
        progress
    }

    /// Whether the completed connections can be removed one after the other.
    pub fn can_end_turn(&self) -> (can: bool)
        ensures
            can == removable(self@.connections.len(), self@.completed),
    {
        let mut k: usize = 0;
        while k < self.completed.len()
            invariant
                k <= self.completed@.len(),
                removable(self@.connections.len(), self.completed@.take(k as int)),
            decreases self.completed@.len() - k,
        {
            if k >= self.connections.len() || self.completed[k] >= self.connections.len() - k {
                assert(!(self@.completed[k as int] < self@.connections.len() - k));
                return false;
            }
            assert forall|j: int| 0 <= j < k + 1 implies #[trigger] self.completed@.take(
                k + 1,
            )[j] < self@.connections.len() - j by {
                if j < k {
                    assert(self.completed@.take(k as int)[j] == self.completed@[j]);
                }
            }
            k = k + 1;
        }
        assert(self.completed@.take(k as int) == self@.completed);
        true
    }

    /// Ends the turn: removes the completed connections one after the other, each at the
    /// position that was noted for it.
    pub fn end_turn(&mut self)
        requires
            old(self).wf(),
            removable(old(self)@.connections.len(), old(self)@.completed),
        ensures
            final(self).wf(),
            final(self)@.connections == remaining(old(self)@.connections, old(self)@.completed),
            final(self)@.connections.len() == old(self)@.connections.len() - old(
                self,
            )@.completed.len(),
            final(self)@.completed == Seq::<usize>::empty(),
    {
        let ghost pairs = old(self)@.connections;
        let mut k: usize = 0;
        while k < self.completed.len()
            invariant
                k <= self.completed@.len(),
                self.wf(),
                pairs == old(self)@.connections,
                self.completed@ == old(self)@.completed,
                removable(pairs.len(), self.completed@),
                self@.connections == remaining(pairs, self.completed@.take(k as int)),
                self@.connections.len() == pairs.len() - k,
            decreases self.completed@.len() - k,
        {
            let i: usize = self.completed[k];
            assert(self.completed@[k as int] < pairs.len() - k);
            let ghost before = self.connections@;
            self.connections.remove(i);
            assert(self.completed@.take(k + 1).drop_last() == self.completed@.take(k as int));
            assert(self@.connections == remaining(pairs, self.completed@.take(k + 1)));
            assert forall|j: int| 0 <= j < self.connections@.len() implies (
            #[trigger] self.connections@[j]).1.wf() && self.connections@[j].1.server()
                == Server::NonBlocking by {
                assert(self.connections@[j] == before[j] || self.connections@[j] == before[j + 1]);
            }
            k = k + 1;
        }
        assert(self.completed@.take(k as int) == self.completed@);
        self.completed.clear();
    }
}

/// How many of `completed` are at most `i`.
pub open spec fn at_most(completed: Seq<usize>, i: int) -> nat
    decreases completed.len(),
{
    if completed.len() == 0 {
        0
    } else {
        at_most(completed.drop_last(), i) + if completed.last() <= i {
            1nat
        } else {
            0
        }
    }
}

/// Whether positions come in ascending order, as they do when the connections are served in
/// turn.
pub open spec fn ascending(completed: Seq<usize>) -> bool {
    forall|j: int, k: int| 0 <= j < k < completed.len() ==> completed[j] < completed[k]
}

/// Positions that are noted in turn are in ascending order.
pub proof fn law_turn_is_ascending(completed: Seq<usize>, i: usize)
    requires
        ascending(completed),
        forall|k: int| 0 <= k < completed.len() ==> #[trigger] completed[k] < i,
    ensures
        ascending(completed.push(i)),
        forall|k: int| 0 <= k < completed.push(i).len() ==> #[trigger] completed.push(i)[k] <= i,
{
}

/// Those that remain keep their order: the one at `i` moved down by the number of
/// positions up to `i` that were removed.
pub proof fn law_remaining_keep_order<T>(items: Seq<T>, completed: Seq<usize>, i: int)
    requires
        removable(items.len(), completed),
        ascending(completed),
        0 <= i < items.len() - completed.len(),
    ensures
        remaining(items, completed).len() == items.len() - completed.len(),
        0 <= i + at_most(completed, i) < items.len(),
        remaining(items, completed)[i] == items[i + at_most(completed, i)],
    decreases completed.len(),
{
    if completed.len() > 0 {
        let earlier = completed.drop_last();
        let last = completed.last() as int;
        assert forall|k: int| 0 <= k < earlier.len() implies #[trigger] earlier[k] < items.len()
            - k by {
            assert(earlier[k] == completed[k]);
        }
        assert(completed[completed.len() - 1] < items.len() - (completed.len() - 1));
        law_remaining_keep_order(items, earlier, i);
        if i >= last {
            law_remaining_keep_order(items, earlier, i + 1);
            lemma_all_at_most(earlier, i);
            lemma_all_at_most(earlier, i + 1);
        }
    }
}

/// All of `completed` count when none is above `i`.
proof fn lemma_all_at_most(completed: Seq<usize>, i: int)
    requires
        forall|k: int| 0 <= k < completed.len() ==> #[trigger] completed[k] <= i,
    ensures
        at_most(completed, i) == completed.len(),
    decreases completed.len(),
{
    if completed.len() > 0 {
        assert forall|k: int| 0 <= k < completed.drop_last().len() implies
            #[trigger] completed.drop_last()[k] <= i by {
            assert(completed.drop_last()[k] == completed[k]);
        }
        lemma_all_at_most(completed.drop_last(), i);
    }
}

/// A turn in which one more connection was completed ends as the turn without it does, with
/// the one that is at that position by then removed as well. One in which none was completed
/// removes none.
pub proof fn law_removed_one_after_the_other<T>(items: Seq<T>, completed: Seq<usize>, i: usize)
    requires
        removable(items.len(), completed.push(i)),
    ensures
        removable(items.len(), completed),
        remaining(items, completed).len() == items.len() - completed.len(),
        i < remaining(items, completed).len(),
        remaining(items, completed.push(i)) == remaining(items, completed).take(i as int)
            + remaining(items, completed).skip(i + 1),
        remaining(items, Seq::<usize>::empty()) == items,
{
    lemma_removable_push(items.len(), completed, i);
    lemma_remaining_len(items, completed);
    assert(completed.push(i).drop_last() == completed);
    assert(remaining(items, completed).remove(i as int) =~= remaining(items, completed).take(
        i as int,
    ) + remaining(items, completed).skip(i + 1));
}

/// How many remain.
proof fn lemma_remaining_len<T>(items: Seq<T>, completed: Seq<usize>)
    requires
        removable(items.len(), completed),
    ensures
        remaining(items, completed).len() == items.len() - completed.len(),
    decreases completed.len(),
{
    if completed.len() > 0 {
        assert(completed.drop_last().push(completed.last()) == completed);
        lemma_removable_push(items.len(), completed.drop_last(), completed.last());
        lemma_remaining_len(items, completed.drop_last());
    }
}

/// What it takes to remove one more.
proof fn lemma_removable_push(len: nat, completed: Seq<usize>, i: usize)
    ensures
        removable(len, completed.push(i)) <==> removable(len, completed) && i + completed.len()
            < len,
{
    let more = completed.push(i);
    assert(more[completed.len() as int] == i);
    if removable(len, more) {
        assert forall|k: int| 0 <= k < completed.len() implies #[trigger] completed[k] < len
            - k by {
            assert(more[k] == completed[k]);
        }
    }
}

/// The turn can end exactly if each completed position, in order, is still there after those
/// before it have been removed.
pub proof fn law_when_a_turn_can_end(len: nat, completed: Seq<usize>, i: usize)
    ensures
        removable(len, Seq::<usize>::empty()),
        removable(len, completed.push(i)) <==> removable(len, completed) && i + completed.len()
            < len,
{
    lemma_removable_push(len, completed, i);
}

/// When one connection was completed, it is the one that is removed.
pub proof fn law_completed_connection_is_removed<T>(items: Seq<T>, i: usize)
    requires
        i < items.len(),
    ensures
        removable(items.len(), seq![i]),
        remaining(items, seq![i]) == items.remove(i as int),
{
    assert(seq![i].drop_last() == Seq::<usize>::empty());
    assert(remaining(items, Seq::<usize>::empty()) == items);
}

} // verus!
