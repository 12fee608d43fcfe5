//! The sink adapter: filters log events by origin and hands accepted ones to
//! the bounded hand-off queue.
//!
//! The filter accepts a record exactly when its origin tag contains the fixed
//! self-identifying marker. This is deliberately conservative: letting the
//! transport machinery's own records through would make the forwarder log
//! about its own forwarding, recursively and without bound.

use crate::protocol::Metadata;
use crate::protocol::Record;
use crate::protocol::RecordV;
use crate::queue::BoundedQueue;
use crate::queue::PushOutcome;
use crate::queue::QueueV;
use crate::queue::spec_try_push;
use vstd::prelude::*;
use vstd::string::StrSliceExecFns;

verus! {

/// The fixed self-identifying marker: an origin tag is accepted exactly when
/// it contains these characters as a contiguous run.
pub open spec fn marker() -> Seq<char> {
    seq!['m', 'i', 'r', 'r', 'o', 'r', 'd']
}

/// The marker occurs in `s` as a contiguous run starting at position `i`.
pub open spec fn matches_marker_at(s: Seq<char>, i: int) -> bool {
    0 <= i && i + marker().len() <= s.len() && s.subrange(i, i + marker().len() as int)
        == marker()
}

/// The marker occurs somewhere in `s`.
pub open spec fn contains_marker(s: Seq<char>) -> bool {
    exists|i: int| matches_marker_at(s, i)
}

/// Whether the marker starts at position `i` of `s`.
fn marker_at(s: &str, i: usize) -> (r: bool)
    requires
        i + marker().len() <= s@.len(),
        s@.len() <= usize::MAX,
    ensures
        r == matches_marker_at(s@, i as int),
{
    let r = s.get_char(i) == 'm' && s.get_char(i + 1) == 'i' && s.get_char(i + 2) == 'r'
        && s.get_char(i + 3) == 'r' && s.get_char(i + 4) == 'o' && s.get_char(i + 5) == 'r'
        && s.get_char(i + 6) == 'd';
    proof {
        let sub = s@.subrange(i as int, i as int + 7);
        if r {
            assert(sub =~= marker());
        } else {
            assert(sub.len() == 7);
            if sub == marker() {
                assert(s@[i as int + 0] == marker()[0]);
                assert(s@[i as int + 1] == marker()[1]);
                assert(s@[i as int + 2] == marker()[2]);
                assert(s@[i as int + 3] == marker()[3]);
                assert(s@[i as int + 4] == marker()[4]);
                assert(s@[i as int + 5] == marker()[5]);
                assert(s@[i as int + 6] == marker()[6]);
            }
        }
    }
    r
}

/// Whether the origin tag `target` contains the fixed marker.
pub fn target_accepted(target: &str) -> (r: bool)
    ensures
        r == contains_marker(target@),
{
    let n = target.unicode_len();
    proof {
        assert(marker().len() == 7);
    }
    if n < 7 {
        proof {
            assert forall|j: int| !matches_marker_at(target@, j) by {
                assert(target@.len() < 7);
            }
        }
        return false;
    }
    let mut i: usize = 0;
    while i <= n - 7
        invariant
            7 <= n,
            n as nat == target@.len(),
            i <= n - 6,
            forall|j: int| 0 <= j < i ==> !matches_marker_at(target@, j),
        decreases n - i,
    {
        if marker_at(target, i) {
            return true;
        }
        i = i + 1;
    }
    proof {
        assert forall|j: int| !matches_marker_at(target@, j) by {
            if 0 <= j && j + 7 <= target@.len() {
                assert(j < i);
            }
        }
    }
    false
}

/// Outcome of one call to [`ConsoleLogger::log`], consumed by the runtime
/// shell: the call itself never fails and never propagates an error to the
/// code that emitted the event.
#[derive(Clone, Copy, Debug, PartialEq, Eq, Structural)]
pub enum LogOutcome {
    /// The record was accepted and appended to the hand-off queue.
    Enqueued,
    /// The origin tag does not carry the marker; the event was discarded
    /// silently.
    Filtered,
    /// The queue is at capacity; the producing side must wait for the
    /// delivery loop to remove a record, then the attempt succeeds.
    WouldBlock,
    /// The queue has been shut (the delivery loop exited); the shell reports
    /// one diagnostic line and the event is otherwise swallowed.
    Closed,
}

/// What one `log` call does to the hand-off queue: nothing when the origin is
/// not accepted, otherwise exactly one insertion attempt.
pub open spec fn spec_log(q: QueueV, r: RecordV) -> (QueueV, LogOutcome) {
    if !contains_marker(r.metadata.target) {
        (q, LogOutcome::Filtered)
    } else {
        let (q2, o) = spec_try_push(q, r);
        match o {
            PushOutcome::Pushed => (q2, LogOutcome::Enqueued),
            PushOutcome::WouldBlock => (q2, LogOutcome::WouldBlock),
            PushOutcome::Closed => (q2, LogOutcome::Closed),
        }
    }
}

/// The sink adapter: owns the sending end of the hand-off queue and is
/// installed as the process-wide logging target by the runtime shell.
pub struct ConsoleLogger {
    queue: BoundedQueue,
}

impl View for ConsoleLogger {
    type V = QueueV;

    closed spec fn view(&self) -> QueueV {
        self.queue@
    }
}

impl ConsoleLogger {
    /// The underlying queue never buffers more than its fixed, positive
    /// capacity.
    pub open spec fn wf(&self) -> bool {
        self@.contents.len() <= self@.cap && self@.cap > 0
    }

    /// Binds a new sink adapter to the sending end of `queue`.
    pub fn new(queue: BoundedQueue) -> (l: ConsoleLogger)
        requires
            queue.wf(),
        ensures
            l.wf(),
            l@ == queue@,
    {
        ConsoleLogger { queue }
    }

    /// Whether a record with this metadata is forwarded at all: true exactly
    /// when the origin tag contains the fixed marker, so only the
    /// instrumentation's own records are shipped and the transport machinery
    /// can never log about itself recursively.
    pub fn enabled(&self, metadata: &Metadata) -> (r: bool)
        ensures
            r == contains_marker(metadata@.target),
    {
        target_accepted(metadata.target.as_str())
    }

    /// One log call: discard silently when the origin is not accepted,
    /// otherwise copy the input into an owned record and attempt exactly one
    /// insertion into the hand-off queue. The outcome tells the runtime shell
    /// what happened; nothing is ever propagated to the emitting call site.
    pub fn log(&mut self, record: &Record) -> (o: LogOutcome)
        requires
            old(self).wf(),
        ensures
            final(self).wf(),
            (final(self)@, o) == spec_log(old(self)@, record@),
    {
        if self.enabled(&record.metadata) {
            match self.queue.try_push(record.duplicate()) {
                PushOutcome::Pushed => LogOutcome::Enqueued,
                PushOutcome::WouldBlock => LogOutcome::WouldBlock,
                PushOutcome::Closed => LogOutcome::Closed,
            }
        } else {
            LogOutcome::Filtered
        }
    }

    /// Deliberate no-op: delivery is asynchronous and a flush does not drain
    /// the queue.
    pub fn flush(&self) {
    }

    /// Releases the queue, for the consuming side to drain.
    pub fn into_queue(self) -> (q: BoundedQueue)
        ensures
            q@ == self@,
    {
        self.queue
    }
}

/// Filtering is idempotent and never deduplicates: two `log` calls with an
/// identical accepted input append two independent records to the queue, in
/// call order.
pub proof fn lemma_log_twice_no_dedup(q: QueueV, r: RecordV)
    requires
        !q.closed,
        q.contents.len() + 2 <= q.cap,
        contains_marker(r.metadata.target),
    ensures
        spec_log(q, r).1 == LogOutcome::Enqueued,
        spec_log(spec_log(q, r).0, r).1 == LogOutcome::Enqueued,
        spec_log(spec_log(q, r).0, r).0.contents == q.contents + seq![r, r],
{
    assert(spec_log(spec_log(q, r).0, r).0.contents =~= q.contents + seq![r, r]);
}

/// A `log` call whose origin is not accepted leaves the queue exactly as it
/// was: no insertion attempt is made.
pub proof fn lemma_log_filtered_unchanged(q: QueueV, r: RecordV)
    requires
        !contains_marker(r.metadata.target),
    ensures
        spec_log(q, r) == (q, LogOutcome::Filtered),
{
}

} // verus!
