//! The delivery session: the state machine of the background loop that owns
//! the connection, the frame order it writes, and the decisions made during
//! initialization.
//!
//! The runtime shell performs the outside work — opening the stream, writing
//! frames, waiting on the queue — and drives these verified decisions with
//! the outcomes. The contracts here pin the session invariants: the
//! descriptor frame is written first and exactly once, records follow in
//! queue order, and the two terminal states are final.

use crate::codec::enc_hello;
use crate::codec::enc_record;
use crate::codec::encode_hello;
use crate::codec::encode_record;
use crate::protocol::Hello;
use crate::protocol::RecordV;
use crate::queue::BoundedQueue;
use vstd::prelude::*;
use vstd::string::StringExecFns;

verus! {

/// Errors surfaced to the caller of initialization. Later, steady-state
/// failures are only reported on the local diagnostic channel, never to the
/// code that emits log records.
#[derive(Debug)]
pub enum ConsoleError {
    /// The duplex stream could not be opened, or the session descriptor
    /// could not be written; the detail describes the transport failure.
    ConnectError(String),
    /// A process-wide logging target was already installed; it can be set
    /// only once.
    SetLoggerError,
}

/// Whether `r` is a connection error carrying exactly the detail `d`.
pub open spec fn is_connect_error_with(r: &Result<(), ConsoleError>, d: Seq<char>) -> bool {
    match r {
        Result::Err(e) => match e {
            ConsoleError::ConnectError(m) => m@ == d,
            ConsoleError::SetLoggerError => false,
        },
        Result::Ok(_) => false,
    }
}

/// The collector endpoint address rendered as the URL of the streaming
/// upgrade handshake.
pub fn ws_url(address: &str) -> (r: String)
    ensures
        r@ == "ws://"@ + address@ + "/ws"@,
{
    let mut s = String::from_str("ws://");
    s.append(address);
    s.append("/ws");
    proof {
        assert(s@ =~= "ws://"@ + address@ + "/ws"@);
    }
    s
}

/// What initialization returns, given the outcomes of the three outside
/// steps the runtime shell performs in order: opening the stream, writing
/// the session descriptor, and installing the process-wide logging target.
/// A connection failure wins over a handshake failure, which wins over the
/// already-installed failure; the shell installs the target only when the
/// result is `Ok`, so a failed initialization installs nothing.
pub fn init_outcome(connect_error: Option<String>, hello_error: Option<String>, logger_installed:
    bool) -> (r: Result<(), ConsoleError>)
    ensures
        r is Ok <==> (connect_error is None && hello_error is None && !logger_installed),
        match connect_error {
            Option::Some(d) => is_connect_error_with(&r, d@),
            Option::None => true,
        },
        connect_error is None ==> match hello_error {
            Option::Some(d) => is_connect_error_with(&r, d@),
            Option::None => true,
        },
        (connect_error is None && hello_error is None && logger_installed) ==> r matches Result::Err(
            ConsoleError::SetLoggerError,
        ),
{
    match connect_error {
        Option::Some(d) => Result::Err(ConsoleError::ConnectError(d)),
        Option::None => match hello_error {
            Option::Some(d) => Result::Err(ConsoleError::ConnectError(d)),
            Option::None => {
                if logger_installed {
                    Result::Err(ConsoleError::SetLoggerError)
                } else {
                    Result::Ok(())
                }
            },
        },
    }
}

/// The lifecycle of one delivery session.
#[derive(Clone, Copy, Debug, PartialEq, Eq, Structural)]
pub enum SessionState {
    /// The stream is being opened; nothing has been written yet.
    Connecting,
    /// The session descriptor has been written, before any record.
    HandshakeSent,
    /// The loop pulls records from the queue and writes them, in order.
    Streaming,
    /// Terminal: a write failed. The loop reports one diagnostic line and
    /// exits; there is no retry and no reconnection.
    TerminatedByWriteError,
    /// Terminal: the producing side was torn down; the loop drained what was
    /// buffered and exited cleanly.
    TerminatedByQueueClosed,
}

/// What the runtime shell reports back to the state machine.
#[derive(Clone, Copy, Debug, PartialEq, Eq, Structural)]
pub enum SessionEvent {
    /// The descriptor frame was written on the fresh connection.
    HelloWritten,
    /// The background loop took over the connection.
    LoopStarted,
    /// One record frame was written.
    RecordWritten,
    /// A record frame could not be written.
    WriteFailed,
    /// The queue's producing side is gone and the buffer is drained.
    QueueClosed,
}

/// The session transition relation. Any event that a state does not expect
/// leaves the state unchanged; the two terminal states accept no event at
/// all.
pub open spec fn spec_step(s: SessionState, e: SessionEvent) -> SessionState {
    match (s, e) {
        (SessionState::Connecting, SessionEvent::HelloWritten) => SessionState::HandshakeSent,
        (SessionState::HandshakeSent, SessionEvent::LoopStarted) => SessionState::Streaming,
        (SessionState::Streaming, SessionEvent::RecordWritten) => SessionState::Streaming,
        (SessionState::Streaming, SessionEvent::WriteFailed) => SessionState::TerminatedByWriteError,
        (SessionState::Streaming, SessionEvent::QueueClosed) => SessionState::TerminatedByQueueClosed,
        _ => s,
    }
}

/// Advances the session by one reported event: exactly [`spec_step`].
pub fn step(s: SessionState, e: SessionEvent) -> (r: SessionState)
    ensures
        r == spec_step(s, e),
{
    match (s, e) {
        (SessionState::Connecting, SessionEvent::HelloWritten) => SessionState::HandshakeSent,
        (SessionState::HandshakeSent, SessionEvent::LoopStarted) => SessionState::Streaming,
        (SessionState::Streaming, SessionEvent::RecordWritten) => SessionState::Streaming,
        (SessionState::Streaming, SessionEvent::WriteFailed) => SessionState::TerminatedByWriteError,
        (SessionState::Streaming, SessionEvent::QueueClosed) => SessionState::TerminatedByQueueClosed,
        _ => s,
    }
}

/// The terminal states are final: no event leads out of them, in particular
/// none back to streaming.
pub proof fn lemma_terminal_states_final(s: SessionState, e: SessionEvent)
    requires
        s == SessionState::TerminatedByWriteError || s == SessionState::TerminatedByQueueClosed,
    ensures
        spec_step(s, e) == s,
{
}

/// Streaming is reached only through the handshake: the descriptor frame is
/// written before any record, exactly once per session.
pub proof fn lemma_hello_precedes_streaming(s: SessionState, e: SessionEvent)
    requires
        spec_step(s, e) == SessionState::Streaming,
    ensures
        (s == SessionState::HandshakeSent && e == SessionEvent::LoopStarted) || s
            == SessionState::Streaming,
{
}

/// The frames the delivery loop writes for the records `rs`, in order: the
/// wire form of each record, one frame per record.
pub open spec fn spec_frames(rs: Seq<RecordV>) -> Seq<Seq<u8>> {
    Seq::new(rs.len(), |i: int| enc_record(rs[i]))
}

/// Delivery preserves order: exactly one frame per record, and the frame at
/// each position is the encoding of the record enqueued at that position —
/// no reordering, no coalescing, no invention.
pub proof fn lemma_delivery_preserves_order(rs: Seq<RecordV>)
    ensures
        spec_frames(rs).len() == rs.len(),
        forall|i: int| 0 <= i < rs.len() ==> spec_frames(rs)[i] == enc_record(rs[i]),
{
}

/// The complete outgoing message sequence of a session that drains the
/// queue: the descriptor frame first and exactly once, then one frame per
/// buffered record, in queue (enqueue) order. Empties the queue.
pub fn session_frames(hello: &Hello, q: &mut BoundedQueue) -> (frames: Vec<Vec<u8>>)
    requires
        old(q).wf(),
    ensures
        final(q).wf(),
        final(q)@.contents.len() == 0,
        frames.deep_view() == seq![enc_hello(hello@)] + spec_frames(old(q)@.contents),
{
    let mut frames: Vec<Vec<u8>> = Vec::new();
    frames.push(encode_hello(hello));
    proof {
        assert(spec_frames(old(q)@.contents.take(0)) =~= Seq::<Seq<u8>>::empty());
        assert(frames.deep_view() =~~= seq![enc_hello(hello@)] + spec_frames(
            old(q)@.contents.take(0),
        ));
    }
    let n = q.len();
    let mut i: usize = 0;
    while i < n
        invariant
            q.wf(),
            n as nat == old(q)@.contents.len(),
            i <= n,
            q@.contents == old(q)@.contents.skip(i as int),
            frames.deep_view() == seq![enc_hello(hello@)] + spec_frames(
                old(q)@.contents.take(i as int),
            ),
        decreases n - i,
    {
        match q.pop() {
            Option::Some(rec) => {
                let ghost prev = frames.deep_view();
                let frame = encode_record(&rec);
                frames.push(frame);
                proof {
                    assert(rec@ == old(q)@.contents[i as int]);
                    assert(frames.deep_view() =~~= prev.push(
                        enc_record(old(q)@.contents[i as int]),
                    ));
                    assert(spec_frames(old(q)@.contents.take(i as int + 1)) =~= spec_frames(
                        old(q)@.contents.take(i as int),
                    ).push(enc_record(old(q)@.contents[i as int])));
                    assert(frames.deep_view() =~~= seq![enc_hello(hello@)] + spec_frames(
                        old(q)@.contents.take(i as int + 1),
                    ));
                    assert(q@.contents =~= old(q)@.contents.skip(i as int + 1));
                }
                i = i + 1;
            },
            Option::None => {
                proof {
                    assert(false);
                }
            },
        }
    }
    proof {
        assert(old(q)@.contents.take(n as int) =~= old(q)@.contents);
    }
    frames
}

} // verus!
