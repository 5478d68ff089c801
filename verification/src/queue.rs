//! The bounded queue that carries terminal output from the pty reader to the
//! websocket writer. `None` in the queue marks the end of the output.
//!
//! The queue itself is a plain value; the threads that share it keep it behind
//! a lock, and wait on a condition variable where `push` answers `Full` or
//! `pop` answers `Wait`.
use vstd::prelude::*;
use std::collections::VecDeque;

verus! {

/// A queue as a value: its items in order, its capacity, and whether the
/// producer has finished.
pub struct QueueModel {
    pub items: Seq<Option<Seq<u8>>>,
    pub cap: nat,
    pub finished: bool,
}

/// The view of one item.
pub open spec fn item_view(item: Option<Vec<u8>>) -> Option<Seq<u8>> {
    match item {
        Some(v) => Some(v@),
        None => None,
    }
}

/// What `push` answers.
pub enum PushOutcome {
    /// The item is at the back of the queue.
    Pushed,
    /// The session is stopping; the item is dropped.
    Stopped,
    /// The queue is full; the item comes back, to be offered again later.
    Full(Option<Vec<u8>>),
}

/// What `pop` answers.
pub enum PopOutcome {
    /// The item at the front of the queue.
    Item(Option<Vec<u8>>),
    /// The queue is empty and the producer has finished, or the session is
    /// stopping.
    Done,
    /// The queue is empty; try again later.
    Wait,
}

/// Which answer `push` gives, as a value.
pub enum PushKind {
    Pushed,
    Stopped,
    Full,
}

/// Which answer `pop` gives, as a value.
pub enum PopKind {
    Item(Option<Seq<u8>>),
    Done,
    Wait,
}

/// What a push does: nothing once the session is stopping, nothing when the
/// queue is full, else the item goes to the back.
pub open spec fn model_push(q: QueueModel, item: Option<Seq<u8>>, stop: bool) -> (QueueModel, PushKind) {
    if stop {
        (q, PushKind::Stopped)
    } else if q.items.len() < q.cap {
        (QueueModel { items: q.items.push(item), ..q }, PushKind::Pushed)
    } else {
        (q, PushKind::Full)
    }
}

/// What a pop does: the front item comes out when there is one; else the
/// queue is done when the producer has finished or the session is stopping.
pub open spec fn model_pop(q: QueueModel, stop: bool) -> (QueueModel, PopKind) {
    if q.items.len() > 0 {
        (QueueModel { items: q.items.drop_first(), ..q }, PopKind::Item(q.items[0]))
    } else if q.finished || stop {
        (q, PopKind::Done)
    } else {
        (q, PopKind::Wait)
    }
}

/// A bounded first-in first-out queue of output chunks.
pub struct BoundedQueue {
    items: VecDeque<Option<Vec<u8>>>,
    cap: usize,
    finished: bool,
}

impl BoundedQueue {
    /// The queue as a value.
    pub closed spec fn model(&self) -> QueueModel {
        QueueModel {
            items: self.items@.map_values(|i: Option<Vec<u8>>| item_view(i)),
            cap: self.cap as nat,
            finished: self.finished,
        }
    }

    /// The queue never holds more than its capacity.
    pub open spec fn wf(&self) -> bool {
        self.model().items.len() <= self.model().cap
    }

    /// An empty queue with room for `cap` items.
    pub fn new(cap: usize) -> (q: BoundedQueue)
        ensures
            q.wf(),
            q.model() == (QueueModel { items: Seq::empty(), cap: cap as nat, finished: false }),
    {
        let q = BoundedQueue { items: VecDeque::new(), cap, finished: false };
        assert(q.model().items =~= Seq::<Option<Seq<u8>>>::empty());
        q
    }

    /// Offers an item.
    pub fn push(&mut self, item: Option<Vec<u8>>, stop: bool) -> (r: PushOutcome)
        requires
            old(self).wf(),
        ensures
            final(self).wf(),
            final(self).model() == model_push(old(self).model(), item_view(item), stop).0,
            match (r, model_push(old(self).model(), item_view(item), stop).1) {
                (PushOutcome::Pushed, PushKind::Pushed) => true,
                (PushOutcome::Stopped, PushKind::Stopped) => true,
                (PushOutcome::Full(back), PushKind::Full) => back == item,
                _ => false,
            },
    {
        if stop {
            return PushOutcome::Stopped;
        }
        if self.items.len() < self.cap {
            let ghost before = self.items@;
            self.items.push_back(item);
            assert(self.model().items =~= old(self).model().items.push(item_view(item)));
            return PushOutcome::Pushed;
        }
        PushOutcome::Full(item)
    }

    /// Takes the front item.
    pub fn pop(&mut self, stop: bool) -> (r: PopOutcome)
        requires
            old(self).wf(),
        ensures
            final(self).wf(),
            final(self).model() == model_pop(old(self).model(), stop).0,
            match (r, model_pop(old(self).model(), stop).1) {
                (PopOutcome::Item(x), PopKind::Item(y)) => item_view(x) == y,
                (PopOutcome::Done, PopKind::Done) => true,
                (PopOutcome::Wait, PopKind::Wait) => true,
                _ => false,
            },
    {
        match self.items.pop_front() {
            Some(item) => {
                assert(self.model().items =~= old(self).model().items.drop_first());
                PopOutcome::Item(item)
            },
            None => {
                if self.finished || stop {
                    PopOutcome::Done
                } else {
                    PopOutcome::Wait
                }
            },
        }
    }

    /// Marks that the producer will push nothing more.
    pub fn finish(&mut self)
        requires
            old(self).wf(),
        ensures
            final(self).wf(),
            final(self).model() == (QueueModel { finished: true, ..old(self).model() }),
    {
        self.finished = true;
    }
}

/// A queue after pushing `xs`, none of them stopped.
pub open spec fn push_all(q: QueueModel, xs: Seq<Option<Seq<u8>>>) -> QueueModel
    decreases xs.len(),
{
    if xs.len() == 0 {
        q
    } else {
        push_all(model_push(q, xs[0], false).0, xs.drop_first())
    }
}

/// A queue after `n` pops, and what they gave (only items, in order).
pub open spec fn pop_n(q: QueueModel, n: nat) -> (QueueModel, Seq<Option<Seq<u8>>>)
    decreases n,
{
    if n == 0 {
        (q, Seq::empty())
    } else {
        match model_pop(q, false) {
            (q1, PopKind::Item(x)) => {
                let rest = pop_n(q1, (n - 1) as nat);
                (rest.0, seq![x] + rest.1)
            },
            (q1, _) => (q1, Seq::empty()),
        }
    }
}

/// Pushing items one by one into a queue with room appends them in order.
proof fn lemma_push_all_appends(q: QueueModel, xs: Seq<Option<Seq<u8>>>)
    requires
        q.items.len() + xs.len() <= q.cap,
    ensures
        push_all(q, xs) == (QueueModel { items: q.items + xs, ..q }),
    decreases xs.len(),
{
    if xs.len() == 0 {
        assert(q.items + xs =~= q.items);
    } else {
        let q1 = model_push(q, xs[0], false).0;
        lemma_push_all_appends(q1, xs.drop_first());
        assert(q1.items + xs.drop_first() =~= q.items + xs);
    }
}

/// Popping `n` items takes the first `n` in order.
proof fn lemma_pop_n_takes(q: QueueModel, n: nat)
    requires
        n <= q.items.len(),
    ensures
        pop_n(q, n) == (QueueModel { items: q.items.skip(n as int), ..q }, q.items.take(n as int)),
    decreases n,
{
    if n == 0 {
        assert(q.items.skip(0) =~= q.items);
        assert(q.items.take(0) =~= Seq::<Option<Seq<u8>>>::empty());
    } else {
        let q1 = QueueModel { items: q.items.drop_first(), ..q };
        lemma_pop_n_takes(q1, (n - 1) as nat);
        assert(q1.items.skip(n - 1) =~= q.items.skip(n as int));
        assert(seq![q.items[0]] + q1.items.take(n - 1) =~= q.items.take(n as int));
    }
}

/// First in, first out: items pushed into a queue with room for them come out
/// of as many pops in the order they went in, and the queue is as it was.
pub proof fn lemma_fifo(q: QueueModel, xs: Seq<Option<Seq<u8>>>)
    requires
        q.items.len() == 0,
        xs.len() <= q.cap,
    ensures
        pop_n(push_all(q, xs), xs.len()) == (q, xs),
{
    lemma_push_all_appends(q, xs);
    let full = push_all(q, xs);
    assert(q.items + xs =~= xs);
    lemma_pop_n_takes(full, xs.len());
    assert(xs.skip(xs.len() as int) =~= q.items);
    assert(xs.take(xs.len() as int) =~= xs);
}

/// Once the producer has finished and the queue is empty, every pop answers
/// `Done` and leaves the queue as it is.
pub proof fn lemma_finished_stays_done(q: QueueModel, stop: bool)
    requires
        q.finished,
        q.items.len() == 0,
    ensures
        model_pop(q, stop) == (q, PopKind::Done),
{
}

/// Once the session is stopping, a push is always answered `Stopped` and
/// drops the item, however full the queue is: the producer stops instead of
/// waiting for room that nobody will make.
pub proof fn lemma_push_when_stopping(q: QueueModel, item: Option<Seq<u8>>)
    ensures
        model_push(q, item, true).0 == q,
        model_push(q, item, true).1 is Stopped,
{
}

/// A push while the session runs puts the item at the back exactly when there
/// is room, and otherwise leaves the queue as it was and answers `Full`.
pub proof fn lemma_push_while_running(q: QueueModel, item: Option<Seq<u8>>)
    ensures
        q.items.len() < q.cap ==> model_push(q, item, false) == (
        QueueModel { items: q.items.push(item), ..q },
        PushKind::Pushed,
        ),
        q.items.len() >= q.cap ==> model_push(q, item, false).0 == q && model_push(q, item, false).1 is Full,
{
}

} // verus!
