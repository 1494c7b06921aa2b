//! What the frontier's service order guarantees, stated over the sequences
//! that `push` and `pop` are specified with.
//!
//! `pop` hands out the head of the service order, so these statements about
//! the order are statements about what successive pops return.

use vstd::prelude::*;
use crate::frontier::{ahead_of, enqueue, priorities_descend};
use crate::task::PolzatTask;

verus! {

/// The tasks of one priority, in the order in which they stand in `pending`.
pub open spec fn with_priority(pending: Seq<PolzatTask>, priority: u8) -> Seq<PolzatTask> {
    pending.filter(|t: PolzatTask| t.priority == priority)
}

/// The service order after the tasks of `arrivals` have been pushed one
/// after another, first to last.
pub open spec fn enqueue_all(pending: Seq<PolzatTask>, arrivals: Seq<PolzatTask>) -> Seq<
    PolzatTask,
>
    decreases arrivals.len(),
{
    if arrivals.len() == 0 {
        pending
    } else {
        enqueue(enqueue_all(pending, arrivals.drop_last()), arrivals.last())
    }
}

/// One operation on a frontier.
pub enum FrontierOp {
    Push(PolzatTask),
    Pop,
}

/// The service order after one operation on a frontier without a capacity
/// bound. A pop on an empty frontier changes nothing.
pub open spec fn apply(pending: Seq<PolzatTask>, op: FrontierOp) -> Seq<PolzatTask> {
    match op {
        FrontierOp::Push(task) => enqueue(pending, task),
        FrontierOp::Pop => if pending.len() > 0 {
            pending.drop_first()
        } else {
            pending
        },
    }
}

/// The service order after a run of operations, first to last.
pub open spec fn replay(pending: Seq<PolzatTask>, ops: Seq<FrontierOp>) -> Seq<PolzatTask>
    decreases ops.len(),
{
    if ops.len() == 0 {
        pending
    } else {
        apply(replay(pending, ops.drop_last()), ops.last())
    }
}

/// The number of pushes in a run.
pub open spec fn pushes(ops: Seq<FrontierOp>) -> nat
    decreases ops.len(),
{
    if ops.len() == 0 {
        0
    } else {
        pushes(ops.drop_last()) + if ops.last() is Push {
            1nat
        } else {
            0nat
        }
    }
}

/// The number of pops in a run.
pub open spec fn pops(ops: Seq<FrontierOp>) -> nat
    decreases ops.len(),
{
    if ops.len() == 0 {
        0
    } else {
        pops(ops.drop_last()) + if ops.last() is Pop {
            1nat
        } else {
            0nat
        }
    }
}

/// Every pop of the run found a task to return.
pub open spec fn pops_served(pending: Seq<PolzatTask>, ops: Seq<FrontierOp>) -> bool
    decreases ops.len(),
{
    if ops.len() == 0 {
        true
    } else {
        &&& pops_served(pending, ops.drop_last())
        &&& ops.last() is Pop ==> replay(pending, ops.drop_last()).len() > 0
    }
}

/// A push keeps the priorities of the service order from rising.
pub proof fn lemma_enqueue_keeps_descent(pending: Seq<PolzatTask>, task: PolzatTask)
    requires
        priorities_descend(pending),
    ensures
        priorities_descend(enqueue(pending, task)),
{
    crate::frontier::lemma_ahead_of_splits(pending, task.priority);
    let k = ahead_of(pending, task.priority) as int;
    let after = enqueue(pending, task);
    assert forall|i: int, j: int| 0 <= i < j < after.len() implies after[i].priority
        >= after[j].priority by {
        if j < k {
            assert(pending[i].priority >= pending[j].priority);
        } else if j == k {
            assert(pending[i].priority >= task.priority);
        } else if i < k {
            assert(pending[i].priority >= pending[j - 1].priority);
        } else if i == k {
            assert(pending[j - 1].priority < task.priority);
        } else {
            assert(pending[i - 1].priority >= pending[j - 1].priority);
        }
    }
}

/// A push puts the new task behind the pending tasks of its own priority and
/// leaves the tasks of every priority in the order they had.
pub proof fn lemma_enqueue_keeps_arrival_order(
    pending: Seq<PolzatTask>,
    task: PolzatTask,
    priority: u8,
)
    requires
        priorities_descend(pending),
    ensures
        with_priority(enqueue(pending, task), priority) == if task.priority == priority {
            with_priority(pending, priority).push(task)
        } else {
            with_priority(pending, priority)
        },
{
    crate::frontier::lemma_ahead_of_splits(pending, task.priority);
    let k = ahead_of(pending, task.priority) as int;
    let pred = |t: PolzatTask| t.priority == priority;
    let front = pending.take(k);
    let back = pending.skip(k);
    let one = seq![task];
    assert(pending =~= front + back);
    assert(enqueue(pending, task) =~= (front + one) + back);
    Seq::filter_distributes_over_add(front, back, pred);
    Seq::filter_distributes_over_add(front, one, pred);
    Seq::filter_distributes_over_add(front + one, back, pred);
    reveal_with_fuel(Seq::filter, 2);
    assert(one.drop_last() =~= Seq::<PolzatTask>::empty());
    if task.priority == priority {
        assert(one.filter(pred) =~= one);
        // Every task behind the new one has a lower priority.
        back.lemma_filter_len(pred);
        if back.filter(pred).len() > 0 {
            back.lemma_filter_pred(pred, 0);
            let t = back.filter(pred)[0];
            assert(back.filter(pred).contains(t));
            assert(back.contains(t)) by {
                lemma_filtered_is_contained(back, pred, t);
            }
            let i = choose|i: int| 0 <= i < back.len() && back[i] == t;
            assert(pending[k + i].priority < task.priority);
        }
        assert(back.filter(pred) =~= Seq::<PolzatTask>::empty());
        assert(with_priority(enqueue(pending, task), priority) =~= with_priority(
            pending,
            priority,
        ).push(task));
    } else {
        assert(one.filter(pred) =~= Seq::<PolzatTask>::empty());
        assert(with_priority(enqueue(pending, task), priority) =~= with_priority(
            pending,
            priority,
        ));
    }
}

/// What a filter keeps was in the sequence.
proof fn lemma_filtered_is_contained(
    s: Seq<PolzatTask>,
    pred: spec_fn(PolzatTask) -> bool,
    t: PolzatTask,
)
    requires
        s.filter(pred).contains(t),
    ensures
        s.contains(t),
    decreases s.len(),
{
    reveal_with_fuel(Seq::filter, 2);
    if s.len() > 0 {
        let rest = s.drop_last();
        if rest.filter(pred).contains(t) {
            lemma_filtered_is_contained(rest, pred, t);
            let i = choose|i: int| 0 <= i < rest.len() && rest[i] == t;
            assert(s[i] == t);
        } else {
            let i = choose|i: int| 0 <= i < s.filter(pred).len() && s.filter(pred)[i] == t;
            if pred(s.last()) {
                if i < rest.filter(pred).len() {
                    assert(rest.filter(pred)[i] == t);
                    assert(false);
                }
                assert(s[s.len() - 1] == t);
            } else {
                assert(false);
            }
        }
    }
}

/// Pushing any tasks into an empty frontier sorts them by priority, highest
/// first, and keeps tasks of equal priority in the order of their arrival.
/// Successive pops therefore return tasks of never rising priority and,
/// among equal priorities, the oldest first.
pub proof fn lemma_pushes_sort_stably(arrivals: Seq<PolzatTask>, priority: u8)
    ensures
        priorities_descend(enqueue_all(Seq::empty(), arrivals)),
        with_priority(enqueue_all(Seq::empty(), arrivals), priority) == with_priority(
            arrivals,
            priority,
        ),
        enqueue_all(Seq::empty(), arrivals).len() == arrivals.len(),
    decreases arrivals.len(),
{
    reveal_with_fuel(Seq::filter, 2);
    if arrivals.len() > 0 {
        let earlier = arrivals.drop_last();
        lemma_pushes_sort_stably(earlier, priority);
        let pending = enqueue_all(Seq::empty(), earlier);
        crate::frontier::lemma_ahead_of_splits(pending, arrivals.last().priority);
        lemma_enqueue_keeps_descent(pending, arrivals.last());
        lemma_enqueue_keeps_arrival_order(pending, arrivals.last(), priority);
    } else {
        assert(with_priority(Seq::<PolzatTask>::empty(), priority) =~= Seq::<PolzatTask>::empty());
    }
}

/// The number of pending tasks after a run in which every pop found a task
/// is the number there was, plus the pushes, minus the pops.
pub proof fn lemma_length_is_conserved(pending: Seq<PolzatTask>, ops: Seq<FrontierOp>)
    requires
        pops_served(pending, ops),
    ensures
        replay(pending, ops).len() == pending.len() + pushes(ops) - pops(ops),
    decreases ops.len(),
{
    if ops.len() > 0 {
        let earlier = ops.drop_last();
        lemma_length_is_conserved(pending, earlier);
        if let FrontierOp::Push(task) = ops.last() {
            crate::frontier::lemma_ahead_of_bounded(replay(pending, earlier), task.priority);
        }
    }
}

/// A run of operations keeps the priorities of the service order from
/// rising.
pub proof fn lemma_replay_keeps_descent(pending: Seq<PolzatTask>, ops: Seq<FrontierOp>)
    requires
        priorities_descend(pending),
    ensures
        priorities_descend(replay(pending, ops)),
    decreases ops.len(),
{
    if ops.len() > 0 {
        let earlier = ops.drop_last();
        lemma_replay_keeps_descent(pending, earlier);
        let before = replay(pending, earlier);
        match ops.last() {
            FrontierOp::Push(task) => {
                lemma_enqueue_keeps_descent(before, task);
            },
            FrontierOp::Pop => {
                if before.len() > 0 {
                    let after = before.drop_first();
                    assert forall|i: int, j: int| 0 <= i < j < after.len() implies after[i].priority
                        >= after[j].priority by {
                        assert(before[i + 1].priority >= before[j + 1].priority);
                    }
                }
            },
        }
    }
}

} // verus!
