//! The bounded, ordered hand-off queue between the sink adapter and the
//! delivery loop: a strict FIFO buffer with a fixed capacity.
//!
//! In the running process the producer side suspends while the buffer is at
//! capacity; that waiting is the runtime shell's job. The verified queue
//! exposes the underlying transition exactly: an insertion attempt reports
//! [`PushOutcome::WouldBlock`] when the buffer is full, and the contracts
//! prove that an attempt made after one removal succeeds again.

use crate::protocol::RecordV;
use crate::protocol::Record;
use vstd::prelude::*;

verus! {

/// Outcome of one insertion attempt on the hand-off queue.
#[derive(Clone, Copy, Debug, PartialEq, Eq, Structural)]
pub enum PushOutcome {
    /// The record was appended at the back of the buffer.
    Pushed,
    /// The buffer is at capacity; the producer must wait for a removal.
    WouldBlock,
    /// The consuming side has shut the queue; the record is discarded.
    Closed,
}

/// Mathematical view of a [`BoundedQueue`]: its buffered records in order
/// (front first), its fixed capacity, and whether it has been shut.
pub ghost struct QueueV {
    pub contents: Seq<RecordV>,
    pub cap: nat,
    pub closed: bool,
}

/// What one insertion attempt does to a queue: append at the back when the
/// queue is open and below capacity, otherwise leave it unchanged and report
/// why.
pub open spec fn spec_try_push(q: QueueV, r: RecordV) -> (QueueV, PushOutcome) {
    if q.closed {
        (q, PushOutcome::Closed)
    } else if q.contents.len() < q.cap {
        (QueueV { contents: q.contents.push(r), ..q }, PushOutcome::Pushed)
    } else {
        (q, PushOutcome::WouldBlock)
    }
}

/// What one removal does to a queue: take the front record, oldest first.
pub open spec fn spec_pop(q: QueueV) -> (QueueV, Option<RecordV>) {
    if q.contents.len() == 0 {
        (q, Option::None)
    } else {
        (QueueV { contents: q.contents.drop_first(), ..q }, Option::Some(q.contents.first()))
    }
}

/// The records obtained by removing from `q` until it is empty, in removal
/// order.
pub open spec fn spec_drained(q: QueueV) -> Seq<RecordV>
    decreases q.contents.len(),
{
    let (rest, front) = spec_pop(q);
    match front {
        Option::Some(r) => seq![r] + spec_drained(rest),
        Option::None => Seq::empty(),
    }
}

/// The bounded FIFO hand-off queue. Records enter at the back through
/// [`BoundedQueue::try_push`] and leave at the front through
/// [`BoundedQueue::pop`]; nothing reorders or coalesces them.
pub struct BoundedQueue {
    items: Vec<Record>,
    capacity: usize,
    closed: bool,
}

impl View for BoundedQueue {
    type V = QueueV;

    closed spec fn view(&self) -> QueueV {
        QueueV {
            contents: self.items.deep_view(),
            cap: self.capacity as nat,
            closed: self.closed,
        }
    }
}

impl BoundedQueue {
    /// The queue never buffers more than its fixed, positive capacity.
    pub open spec fn wf(&self) -> bool {
        self@.contents.len() <= self@.cap && self@.cap > 0
    }

    /// Creates an empty open queue with the given capacity.
    pub fn new(capacity: usize) -> (q: BoundedQueue)
        requires
            capacity > 0,
        ensures
            q.wf(),
            q@.contents == Seq::<RecordV>::empty(),
            q@.cap == capacity as nat,
            !q@.closed,
    {
        let q = BoundedQueue { items: Vec::new(), capacity, closed: false };
        proof {
            assert(q@.contents =~= Seq::<RecordV>::empty());
        }
        q
    }

    /// Number of records currently buffered.
    pub fn len(&self) -> (n: usize)
        ensures
            n as nat == self@.contents.len(),
    {
        self.items.len()
    }

    /// One insertion attempt: exactly the transition [`spec_try_push`].
    pub fn try_push(&mut self, r: Record) -> (o: PushOutcome)
        requires
            old(self).wf(),
        ensures
            final(self).wf(),
            (final(self)@, o) == spec_try_push(old(self)@, r@),
    {
        if self.closed {
            PushOutcome::Closed
        } else if self.items.len() < self.capacity {
            let ghost prev = self.items.deep_view();
            let ghost rv = r@;
            self.items.push(r);
            proof {
                assert(self.items.deep_view() =~= prev.push(rv));
            }
            PushOutcome::Pushed
        } else {
            PushOutcome::WouldBlock
        }
    }

    /// One removal: exactly the transition [`spec_pop`]. Returns the oldest
    /// buffered record, or nothing when the buffer is empty.
    pub fn pop(&mut self) -> (r: Option<Record>)
        requires
            old(self).wf(),
        ensures
            final(self).wf(),
            match r {
                Option::Some(rec) => (final(self)@, Option::Some(rec@)) == spec_pop(old(self)@),
                Option::None => (final(self)@, Option::None::<RecordV>) == spec_pop(old(self)@),
            },
    {
        if self.items.len() == 0 {
            Option::None
        } else {
            let ghost prev = self.items.deep_view();
            let rec = self.items.remove(0);
            proof {
                assert(self.items.deep_view() =~= prev.drop_first());
                assert(rec.deep_view() == prev.first());
            }
            Option::Some(rec)
        }
    }

    /// Shuts the queue: later insertion attempts report [`PushOutcome::Closed`].
    /// Buffered records stay and can still be drained.
    pub fn close(&mut self)
        requires
            old(self).wf(),
        ensures
            final(self).wf(),
            final(self)@ == (QueueV { closed: true, ..old(self)@ }),
    {
        self.closed = true;
    }
}

/// Removing from a queue until it is empty yields exactly the buffered
/// records, oldest first: the queue is strictly FIFO, with no reordering and
/// no coalescing.
pub proof fn lemma_drain_is_fifo(q: QueueV)
    ensures
        spec_drained(q) == q.contents,
    decreases q.contents.len(),
{
    if q.contents.len() == 0 {
        assert(spec_drained(q) =~= q.contents);
    } else {
        let (rest, front) = spec_pop(q);
        lemma_drain_is_fifo(rest);
        assert(spec_drained(q) =~= q.contents);
    }
}

/// Boundary behaviour of insertion: an attempt on an open queue below
/// capacity succeeds and appends; an attempt at capacity blocks (the record
/// is neither dropped nor rejected with an error — the queue is unchanged and
/// the producer must wait); and after one removal an attempt succeeds again.
pub proof fn lemma_enqueue_boundary(q: QueueV, r: RecordV)
    requires
        !q.closed,
        q.cap > 0,
        q.contents.len() <= q.cap,
    ensures
        q.contents.len() < q.cap ==> spec_try_push(q, r) == (
            QueueV { contents: q.contents.push(r), ..q },
            PushOutcome::Pushed,
        ),
        q.contents.len() == q.cap ==> spec_try_push(q, r) == (q, PushOutcome::WouldBlock),
        q.contents.len() == q.cap ==> spec_try_push(spec_pop(q).0, r).1 == PushOutcome::Pushed,
{
}

} // verus!
