//! The priority frontier: the ordered container of pending tasks.
//!
//! Tasks are served by priority, highest first, and in arrival order among
//! equal priorities. The container is a binary heap keyed by the pair of a
//! task's priority and the sequence number it was given on arrival, so both
//! `push` and `pop` take logarithmic time. Contracts speak of the frontier's
//! view: the pending tasks in the order in which `pop` will hand them out.

use vstd::prelude::*;
use vstd::seq_lib::*;
use vstd::multiset::*;
use crate::task::PolzatTask;

verus! {

/// `<[T]>::swap` exchanges the elements at two positions of a slice and
/// leaves every other element where it is; it panics when a position is out
/// of bounds, which the precondition rules out.
pub assume_specification<T>[ <[T]>::swap ](slice: &mut [T], a: usize, b: usize)
    requires
        a < old(slice)@.len(),
        b < old(slice)@.len(),
    ensures
        final(slice)@ == old(slice)@.update(a as int, old(slice)@[b as int]).update(
            b as int,
            old(slice)@[a as int],
        ),
;

/// A pending task together with its arrival number.
struct Entry {
    seq: u64,
    task: PolzatTask,
}

/// `a` is served strictly before `b`.
spec fn precedes(a: Entry, b: Entry) -> bool {
    a.task.priority > b.task.priority || (a.task.priority == b.task.priority && a.seq < b.seq)
}

fn comes_before(a: &Entry, b: &Entry) -> (r: bool)
    ensures
        r == precedes(*a, *b),
{
    a.task.priority > b.task.priority || (a.task.priority == b.task.priority && a.seq < b.seq)
}

spec fn parent(i: int) -> int {
    (i - 1) / 2
}

/// No element is served before its parent.
spec fn heap_ordered(s: Seq<Entry>) -> bool {
    forall|i: int| 0 < i < s.len() ==> !precedes(#[trigger] s[i], s[parent(i)])
}

/// The heap order holds everywhere but between `k` and its parent; the
/// children of `k` already respect the parent of `k`.
spec fn ordered_but_above(s: Seq<Entry>, k: int) -> bool {
    &&& forall|i: int| 0 < i < s.len() && i != k ==> !precedes(#[trigger] s[i], s[parent(i)])
    &&& forall|i: int|
        0 < i < s.len() && parent(i) == k && k > 0 ==> !precedes(#[trigger] s[i], s[parent(k)])
}

/// The heap order holds everywhere but between `k` and its children; the
/// children of `k` already respect the parent of `k`.
spec fn ordered_but_below(s: Seq<Entry>, k: int) -> bool {
    &&& forall|i: int|
        0 < i < s.len() && parent(i) != k ==> !precedes(#[trigger] s[i], s[parent(i)])
    &&& forall|i: int|
        0 < i < s.len() && parent(i) == k && k > 0 ==> !precedes(#[trigger] s[i], s[parent(k)])
}

proof fn lemma_swap_keeps_multiset(s: Seq<Entry>, a: int, b: int)
    requires
        0 <= a < s.len(),
        0 <= b < s.len(),
    ensures
        s.update(a, s[b]).update(b, s[a]).to_multiset() == s.to_multiset(),
{
    broadcast use group_multiset_axioms;

    to_multiset_update(s, a, s[b]);
    to_multiset_update(s.update(a, s[b]), b, s[a]);
    to_multiset_contains(s, s[a]);
    to_multiset_contains(s, s[b]);
    if a == b {
        assert(s.update(a, s[b]).update(b, s[a]) =~= s);
    } else {
        assert(s.update(a, s[b]).update(b, s[a]).to_multiset() =~= s.to_multiset());
    }
}

/// Moves the element at `start` towards the root until its parent is served
/// no later than it.
fn sift_up(heap: &mut Vec<Entry>, start: usize)
    requires
        start < old(heap)@.len(),
        ordered_but_above(old(heap)@, start as int),
    ensures
        heap_ordered(final(heap)@),
        final(heap)@.to_multiset() == old(heap)@.to_multiset(),
        final(heap)@.len() == old(heap)@.len(),
{
    let mut i: usize = start;
    while i > 0 && comes_before(&heap[i], &heap[(i - 1) / 2])
        invariant
            i < heap@.len(),
            ordered_but_above(heap@, i as int),
            heap@.to_multiset() == old(heap)@.to_multiset(),
            heap@.len() == old(heap)@.len(),
        decreases i,
    {
        let p: usize = (i - 1) / 2;
        let ghost before = heap@;
        heap.as_mut_slice().swap(i, p);
        proof {
            lemma_swap_keeps_multiset(before, i as int, p as int);
            assert forall|j: int| 0 < j < heap@.len() && j != p implies !precedes(
                #[trigger] heap@[j],
                heap@[parent(j)],
            ) by {
                if j == i {
                } else if parent(j) == p {
                    assert(!precedes(before[j], before[parent(j)]));
                } else if parent(j) == i {
                    assert(!precedes(before[j], before[parent(i as int)]));
                } else {
                    assert(!precedes(before[j], before[parent(j)]));
                }
            }
            assert forall|j: int| 0 < j < heap@.len() && parent(j) == p && p > 0 implies !precedes(
                #[trigger] heap@[j],
                heap@[parent(p as int)],
            ) by {
                assert(!precedes(before[p as int], before[parent(p as int)]));
                if j != i {
                    assert(!precedes(before[j], before[parent(j)]));
                }
            }
        }
        i = p;
    }
}

/// Moves the element at `start` towards the leaves until neither child is
/// served before it.
fn sift_down(heap: &mut Vec<Entry>, start: usize)
    requires
        start < old(heap)@.len(),
        ordered_but_below(old(heap)@, start as int),
    ensures
        heap_ordered(final(heap)@),
        final(heap)@.to_multiset() == old(heap)@.to_multiset(),
        final(heap)@.len() == old(heap)@.len(),
{
    let n: usize = heap.len();
    let mut i: usize = start;
    loop
        invariant_except_break
            ordered_but_below(heap@, i as int),
        invariant
            i < n,
            n == heap@.len(),
            heap@.to_multiset() == old(heap)@.to_multiset(),
            heap@.len() == old(heap)@.len(),
        ensures
            heap_ordered(heap@),
        decreases n - i,
    {
        if i >= n - 1 - i {
            // `i` has no child.
            assert forall|j: int| 0 < j < heap@.len() implies !precedes(
                #[trigger] heap@[j],
                heap@[parent(j)],
            ) by {
                assert(parent(j) != i);
            }
            break;
        }
        let left: usize = 2 * i + 1;
        let right: usize = left + 1;
        let mut best: usize = left;
        if right < n && comes_before(&heap[right], &heap[left]) {
            best = right;
        }
        if !comes_before(&heap[best], &heap[i]) {
            assert forall|j: int| 0 < j < heap@.len() implies !precedes(
                #[trigger] heap@[j],
                heap@[parent(j)],
            ) by {
                if parent(j) == i {
                    assert(j == left || j == right);
                }
            }
            break;
        }
        let ghost before = heap@;
        heap.as_mut_slice().swap(i, best);
        proof {
            lemma_swap_keeps_multiset(before, i as int, best as int);
            assert forall|j: int| 0 < j < heap@.len() && parent(j) != best implies !precedes(
                #[trigger] heap@[j],
                heap@[parent(j)],
            ) by {
                if j == best {
                } else if parent(j) == i {
                    assert(j == left || j == right);
                } else if j == i {
                    assert(!precedes(before[best as int], before[parent(i as int)]));
                } else {
                    assert(!precedes(before[j], before[parent(j)]));
                }
            }
            assert forall|j: int|
                0 < j < heap@.len() && parent(j) == best && best > 0 implies !precedes(
                #[trigger] heap@[j],
                heap@[parent(best as int)],
            ) by {
                assert(!precedes(before[j], before[parent(j)]));
            }
        }
        i = best;
    }
}

/// The sequence is in service order: every element is served strictly before
/// each one that follows it.
spec fn service_sorted(s: Seq<Entry>) -> bool {
    forall|i: int, j: int| 0 <= i < j < s.len() ==> precedes(#[trigger] s[i], #[trigger] s[j])
}

spec fn task_of(e: Entry) -> PolzatTask {
    e.task
}

spec fn tasks_of(s: Seq<Entry>) -> Seq<PolzatTask> {
    s.map_values(|e: Entry| task_of(e))
}

/// The number of tasks in `pending` whose priority is at least `priority`.
///
/// In a frontier this is the number of pending tasks that are served before
/// a task of that priority arriving now.
pub open spec fn ahead_of(pending: Seq<PolzatTask>, priority: u8) -> nat
    decreases pending.len(),
{
    if pending.len() == 0 {
        0
    } else {
        ahead_of(pending.drop_last(), priority) + if pending.last().priority >= priority {
            1nat
        } else {
            0nat
        }
    }
}

/// The service order after `task` has arrived: it stands behind every
/// pending task of its own or a higher priority and ahead of the rest.
pub open spec fn enqueue(pending: Seq<PolzatTask>, task: PolzatTask) -> Seq<PolzatTask> {
    pending.insert(ahead_of(pending, task.priority) as int, task)
}

/// Priorities never rise along the sequence.
pub open spec fn priorities_descend(pending: Seq<PolzatTask>) -> bool {
    forall|i: int, j: int|
        0 <= i < j < pending.len() ==> pending[i].priority >= pending[j].priority
}

/// `ahead_of` counts tasks of the sequence, so it never exceeds its length.
pub proof fn lemma_ahead_of_bounded(pending: Seq<PolzatTask>, priority: u8)
    ensures
        ahead_of(pending, priority) <= pending.len(),
    decreases pending.len(),
{
    if pending.len() > 0 {
        lemma_ahead_of_bounded(pending.drop_last(), priority);
    }
}

/// In a sequence whose priorities never rise, the tasks counted by
/// `ahead_of` are exactly those in front.
pub proof fn lemma_ahead_of_splits(pending: Seq<PolzatTask>, priority: u8)
    requires
        priorities_descend(pending),
    ensures
        ahead_of(pending, priority) <= pending.len(),
        forall|i: int| 0 <= i < ahead_of(pending, priority) ==> pending[i].priority >= priority,
        forall|i: int|
            ahead_of(pending, priority) <= i < pending.len() ==> pending[i].priority < priority,
    decreases pending.len(),
{
    if pending.len() > 0 {
        let front = pending.drop_last();
        let k = ahead_of(front, priority);
        assert forall|i: int, j: int| 0 <= i < j < front.len() implies front[i].priority
            >= front[j].priority by {
            assert(pending[i].priority >= pending[j].priority);
        }
        lemma_ahead_of_splits(front, priority);
        if pending.last().priority >= priority {
            if k < front.len() {
                assert(front[k as int].priority < priority);
                assert(pending[k as int].priority >= pending[pending.len() - 1].priority);
            }
            assert(ahead_of(pending, priority) == pending.len());
            assert forall|i: int| 0 <= i < pending.len() implies pending[i].priority
                >= priority by {
                if i < front.len() {
                    assert(front[i].priority >= priority);
                }
            }
        } else {
            assert(ahead_of(pending, priority) == k);
            assert forall|i: int| 0 <= i < k implies pending[i].priority >= priority by {
                assert(front[i].priority >= priority);
            }
            assert forall|i: int| k <= i < pending.len() implies pending[i].priority
                < priority by {
                if i < front.len() {
                    assert(front[i].priority < priority);
                }
            }
        }
    }
}

/// The root of a heap is served no later than any other element.
proof fn lemma_root_is_first(s: Seq<Entry>, j: int)
    requires
        heap_ordered(s),
        0 <= j < s.len(),
    ensures
        !precedes(s[j], s[0]),
    decreases j,
{
    if j > 0 {
        lemma_root_is_first(s, parent(j));
        assert(!precedes(s[j], s[parent(j)]));
    }
}

/// A sequence in service order is a heap as it stands.
proof fn lemma_sorted_is_heap(s: Seq<Entry>)
    requires
        service_sorted(s),
    ensures
        heap_ordered(s),
{
    assert forall|i: int| 0 < i < s.len() implies !precedes(#[trigger] s[i], s[parent(i)]) by {
        assert(precedes(s[parent(i)], s[i]));
    }
}

/// Service order implies that priorities never rise.
proof fn lemma_sorted_priorities_descend(s: Seq<Entry>)
    requires
        service_sorted(s),
    ensures
        priorities_descend(tasks_of(s)),
{
    assert forall|i: int, j: int| 0 <= i < j < tasks_of(s).len() implies tasks_of(s)[i].priority
        >= tasks_of(s)[j].priority by {
        assert(precedes(s[i], s[j]));
    }
}

/// An arrival that is younger than every pending entry keeps the service
/// order when it is put behind the entries of its own or a higher priority.
proof fn lemma_arrival_keeps_order(s: Seq<Entry>, e: Entry)
    requires
        service_sorted(s),
        forall|i: int| 0 <= i < s.len() ==> (#[trigger] s[i]).seq < e.seq,
    ensures
        ahead_of(tasks_of(s), e.task.priority) <= s.len(),
        service_sorted(s.insert(ahead_of(tasks_of(s), e.task.priority) as int, e)),
        tasks_of(s.insert(ahead_of(tasks_of(s), e.task.priority) as int, e)) == enqueue(
            tasks_of(s),
            e.task,
        ),
{
    let k = ahead_of(tasks_of(s), e.task.priority) as int;
    lemma_sorted_priorities_descend(s);
    lemma_ahead_of_splits(tasks_of(s), e.task.priority);
    let t = s.insert(k, e);
    assert forall|i: int, j: int| 0 <= i < j < t.len() implies precedes(
        #[trigger] t[i],
        #[trigger] t[j],
    ) by {
        if j < k {
            assert(precedes(s[i], s[j]));
        } else if j == k {
            assert(tasks_of(s)[i].priority >= e.task.priority);
            assert(s[i].seq < e.seq);
        } else if i < k {
            assert(precedes(s[i], s[j - 1]));
        } else if i == k {
            assert(tasks_of(s)[j - 1].priority < e.task.priority);
        } else {
            assert(precedes(s[i - 1], s[j - 1]));
        }
    }
    assert(tasks_of(t) =~= enqueue(tasks_of(s), e.task));
}

/// Removing the root of a heap and the head of the service order removes
/// the same entry.
proof fn lemma_root_heads_order(heap: Seq<Entry>, order: Seq<Entry>)
    requires
        heap_ordered(heap),
        service_sorted(order),
        heap.to_multiset() == order.to_multiset(),
        heap.len() > 0,
    ensures
        order.len() == heap.len(),
        heap[0] == order[0],
{
    to_multiset_len(heap);
    to_multiset_len(order);
    to_multiset_contains(heap, heap[0]);
    to_multiset_contains(order, heap[0]);
    to_multiset_contains(heap, order[0]);
    to_multiset_contains(order, order[0]);
    assert(heap.contains(heap[0]));
    assert(order.contains(order[0]));
    assert(order.contains(heap[0]));
    assert(heap.contains(order[0]));
    let k = choose|k: int| 0 <= k < order.len() && order[k] == heap[0];
    let j = choose|j: int| 0 <= j < heap.len() && heap[j] == order[0];
    lemma_root_is_first(heap, j);
    if k > 0 {
        assert(precedes(order[0], order[k]));
    }
}

/// Why a push was refused.
#[derive(Clone, Copy, Debug, PartialEq, Eq, Structural)]
pub enum FrontierError {
    /// The frontier already holds as many tasks as its capacity allows.
    Full,
}

/// The ordered container of pending tasks.
pub struct PriorityFrontier {
    heap: Vec<Entry>,
    next_seq: u64,
    limit: Option<usize>,
    order: Ghost<Seq<Entry>>,
}

impl View for PriorityFrontier {
    type V = Seq<PolzatTask>;

    /// The pending tasks in the order in which they will be served.
    closed spec fn view(&self) -> Seq<PolzatTask> {
        tasks_of(self.order@)
    }
}

impl PriorityFrontier {
    /// The invariant of the representation.
    pub closed spec fn wf(&self) -> bool {
        &&& heap_ordered(self.heap@)
        &&& service_sorted(self.order@)
        &&& self.heap@.to_multiset() == self.order@.to_multiset()
        &&& forall|i: int|
            0 <= i < self.order@.len() ==> (#[trigger] self.order@[i]).seq < self.next_seq
        &&& self.limit matches Some(c) ==> self.heap@.len() <= c
    }

    /// The configured bound on the number of pending tasks, if there is one.
    pub closed spec fn capacity(&self) -> Option<usize> {
        self.limit
    }

    /// The frontier cannot take another task.
    pub open spec fn is_full(&self) -> bool {
        self.capacity() matches Some(c) && self@.len() >= c
    }

    /// An empty frontier without a capacity bound.
    pub fn new() -> (f: PriorityFrontier)
        ensures
            f.wf(),
            f@ == Seq::<PolzatTask>::empty(),
            f.capacity() is None,
    {
        let f = PriorityFrontier {
            heap: Vec::new(),
            next_seq: 0,
            limit: None,
            order: Ghost(Seq::empty()),
        };
        assert(f@ =~= Seq::<PolzatTask>::empty());
        f
    }

    /// An empty frontier that holds at most `limit` tasks at a time.
    pub fn with_capacity(limit: usize) -> (f: PriorityFrontier)
        ensures
            f.wf(),
            f@ == Seq::<PolzatTask>::empty(),
            f.capacity() == Some(limit),
    {
        let f = PriorityFrontier {
            heap: Vec::new(),
            next_seq: 0,
            limit: Some(limit),
            order: Ghost(Seq::empty()),
        };
        assert(f@ =~= Seq::<PolzatTask>::empty());
        f
    }

    /// Removes the entry that is served first.
    fn take_first(&mut self) -> (e: Entry)
        requires
            old(self).wf(),
            old(self)@.len() > 0,
        ensures
            final(self).wf(),
            final(self).limit == old(self).limit,
            final(self).next_seq == old(self).next_seq,
            e.task == old(self)@[0],
            final(self)@ == old(self)@.drop_first(),
            final(self).heap@.len() == old(self).heap@.len() - 1,
    {
        proof {
            to_multiset_len(self.heap@);
            to_multiset_len(self.order@);
            lemma_root_heads_order(self.heap@, self.order@);
        }
        let ghost heap0 = self.heap@;
        let ghost order0 = self.order@;
        let e = self.heap.swap_remove(0);
        proof {
            let last = heap0.last();
            let moved = heap0.update(0, last);
            to_multiset_update(heap0, 0, last);
            to_multiset_remove(moved, moved.len() - 1);
            to_multiset_remove(order0, 0);
            assert(moved.remove(moved.len() - 1) =~= self.heap@);
            assert(order0.remove(0) =~= order0.drop_first());
            assert(moved[moved.len() - 1] == last);
            broadcast use group_multiset_axioms;
            assert(self.heap@.to_multiset() =~= order0.drop_first().to_multiset());
            assert forall|j: int| 0 < j < self.heap@.len() && parent(j) != 0 implies !precedes(
                #[trigger] self.heap@[j],
                self.heap@[parent(j)],
            ) by {
                assert(!precedes(heap0[j], heap0[parent(j)]));
            }
        }
        if self.heap.len() > 0 {
            sift_down(&mut self.heap, 0);
        }
        self.order = Ghost(order0.drop_first());
        proof {
            assert forall|i: int, j: int| 0 <= i < j < self.order@.len() implies precedes(
                #[trigger] self.order@[i],
                #[trigger] self.order@[j],
            ) by {
                assert(precedes(order0[i + 1], order0[j + 1]));
            }
            assert forall|i: int| 0 <= i < self.order@.len() implies (#[trigger] self.order@[i]).seq
                < self.next_seq by {
                assert(order0[i + 1].seq < self.next_seq);
            }
            assert(tasks_of(order0.drop_first()) =~= tasks_of(order0).drop_first());
        }
        e
    }

    /// Gives the pending entries the arrival numbers 0, 1, 2, ... in service
    /// order, which changes neither the order nor the tasks.
    fn renumber(&mut self)
        requires
            old(self).wf(),
        ensures
            final(self).wf(),
            final(self)@ == old(self)@,
            final(self).limit == old(self).limit,
            final(self).next_seq == final(self).heap@.len(),
            final(self).heap@.len() == old(self).heap@.len(),
    {
        let ghost pending = self@;
        proof {
            to_multiset_len(self.heap@);
            to_multiset_len(self.order@);
            lemma_sorted_priorities_descend(self.order@);
        }
        let mut fresh: Vec<Entry> = Vec::new();
        let mut n: u64 = 0;
        while self.heap.len() > 0
            invariant
                self.wf(),
                self.limit == old(self).limit,
                n == fresh@.len(),
                self.heap@.len() == self@.len(),
                fresh@.len() + self@.len() == pending.len(),
                pending.len() == old(self).heap@.len(),
                tasks_of(fresh@) == pending.take(fresh@.len() as int),
                self@ == pending.skip(fresh@.len() as int),
                forall|i: int| 0 <= i < fresh@.len() ==> (#[trigger] fresh@[i]).seq == i,
                priorities_descend(pending),
            decreases self.heap@.len(),
        {
            let ghost done = fresh@;
            let e = self.take_first();
            fresh.push(Entry { seq: n, task: e.task });
            // A length fits in `usize`, so the count of entries fits in `u64`.
            let stored: usize = fresh.len();
            n = n + 1;
            proof {
                assert(tasks_of(fresh@) =~= pending.take(fresh@.len() as int)) by {
                    assert forall|i: int| 0 <= i < fresh@.len() implies tasks_of(fresh@)[i]
                        == pending[i] by {
                        if i < done.len() {
                            assert(tasks_of(done)[i] == pending.take(done.len() as int)[i]);
                        }
                    }
                }
                assert(self@ =~= pending.skip(fresh@.len() as int));
            }
        }
        proof {
            assert(tasks_of(fresh@) =~= pending);
            assert forall|i: int, j: int| 0 <= i < j < fresh@.len() implies precedes(
                #[trigger] fresh@[i],
                #[trigger] fresh@[j],
            ) by {
                assert(tasks_of(fresh@)[i] == pending[i]);
                assert(tasks_of(fresh@)[j] == pending[j]);
            }
            lemma_sorted_is_heap(fresh@);
        }
        self.order = Ghost(fresh@);
        self.heap = fresh;
        self.next_seq = n;
    }

    /// Adds a task.
    ///
    /// The task is served after every pending task of its own or a higher
    /// priority and before every pending task of a lower one. The push is
    /// refused only when a capacity bound is set and reached; a frontier
    /// without a bound takes every task.
    pub fn push(&mut self, task: PolzatTask) -> (r: Result<(), FrontierError>)
        requires
            old(self).wf(),
        ensures
            final(self).wf(),
            final(self).capacity() == old(self).capacity(),
            r is Ok <==> !old(self).is_full(),
            r is Ok ==> final(self)@ == enqueue(old(self)@, task),
            r is Err ==> r == Err::<(), FrontierError>(FrontierError::Full) && *final(self) == *old(
                self,
            ),
    {
        proof {
            to_multiset_len(self.heap@);
            to_multiset_len(self.order@);
        }
        match self.limit {
            Some(c) => {
                if self.heap.len() >= c {
                    return Err(FrontierError::Full);
                }
            },
            None => {},
        }
        if self.next_seq == u64::MAX {
            // The arrival numbers are used up: hand out fresh ones, so that
            // the counter is no reason to refuse a task.
            self.renumber();
        }
        proof {
            to_multiset_len(self.heap@);
            to_multiset_len(self.order@);
        }
        let ghost heap0 = self.heap@;
        let ghost order0 = self.order@;
        let entry = Entry { seq: self.next_seq, task };
        let ghost e = entry;
        self.heap.push(entry);
        let m: usize = self.heap.len();
        proof {
            to_multiset_build(heap0, e);
            assert forall|i: int| 0 < i < self.heap@.len() && i != m - 1 implies !precedes(
                #[trigger] self.heap@[i],
                self.heap@[parent(i)],
            ) by {
                assert(!precedes(heap0[i], heap0[parent(i)]));
            }
        }
        sift_up(&mut self.heap, m - 1);
        self.next_seq = self.next_seq + 1;
        proof {
            lemma_arrival_keeps_order(order0, e);
            to_multiset_insert(order0, ahead_of(tasks_of(order0), e.task.priority) as int, e);
        }
        self.order = Ghost(order0.insert(ahead_of(tasks_of(order0), e.task.priority) as int, e));
        proof {
            to_multiset_len(self.order@);
            let k = ahead_of(tasks_of(order0), e.task.priority) as int;
            assert forall|i: int| 0 <= i < self.order@.len() implies (#[trigger] self.order@[i]).seq
                < self.next_seq by {
                if i < k {
                    assert(order0[i].seq < e.seq);
                } else if i > k {
                    assert(order0[i - 1].seq < e.seq);
                }
            }
        }
        Ok(())
    }

    /// Removes and returns the task that is served first: the oldest among
    /// those of the highest priority. An empty frontier answers `None` at
    /// once and stays as it is.
    pub fn pop(&mut self) -> (r: Option<PolzatTask>)
        requires
            old(self).wf(),
        ensures
            final(self).wf(),
            final(self).capacity() == old(self).capacity(),
            old(self)@.len() == 0 ==> r is None && *final(self) == *old(self),
            old(self)@.len() > 0 ==> r == Some(old(self)@[0]) && final(self)@ == old(
                self,
            )@.drop_first(),
    {
        proof {
            to_multiset_len(self.heap@);
            to_multiset_len(self.order@);
        }
        if self.heap.len() == 0 {
            return None;
        }
        let e = self.take_first();
        Some(e.task)
    }

    /// In every frontier the priorities never rise along the service order,
    /// so no pop returns a task of a higher priority than the pop before it
    /// did, unless that task was pushed in between.
    pub proof fn lemma_priorities_descend(&self)
        requires
            self.wf(),
        ensures
            priorities_descend(self@),
    {
        lemma_sorted_priorities_descend(self.order@);
    }

    /// The number of pending tasks.
    pub fn len(&self) -> (n: usize)
        requires
            self.wf(),
        ensures
            n == self@.len(),
    {
        proof {
            to_multiset_len(self.heap@);
            to_multiset_len(self.order@);
        }
        self.heap.len()
    }
}

} // verus!
