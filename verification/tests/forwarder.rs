//! End-to-end tests of the forwarding pipeline: filter, queue, codec, and
//! session, exercised sequentially through the library's public interface.

use mirrord_console::codec::{decode_hello, decode_record, encode_hello, encode_record};
use mirrord_console::logger::{target_accepted, ConsoleLogger, LogOutcome};
use mirrord_console::protocol::{env_entry, Hello, Level, Metadata, ProcessInfo, Record};
use mirrord_console::queue::{BoundedQueue, PushOutcome};
use mirrord_console::session::{
    init_outcome, step, ws_url, ConsoleError, SessionEvent, SessionState,
};

fn record(level: Level, target: &str, message: &str) -> Record {
    Record {
        metadata: Metadata {
            level,
            target: target.to_string(),
        },
        message: message.to_string(),
        module: Some("app::sub".to_string()),
        file: Some("src/sub.rs".to_string()),
        line: Some(42),
    }
}

fn sample_hello() -> Hello {
    Hello {
        process_info: ProcessInfo {
            args: vec!["prog".to_string(), "--flag".to_string()],
            env: vec!["HOME=/root".to_string(), "TERM=dumb".to_string()],
            cwd: Some("/tmp".to_string()),
            id: 4242,
        },
    }
}

#[test]
fn enabled_iff_origin_contains_marker() {
    assert!(target_accepted("mirrord"));
    assert!(target_accepted("mirrord::agent::steal"));
    assert!(target_accepted("my_mirrord_fork"));
    assert!(target_accepted("xxmirrordyy"));
    assert!(!target_accepted(""));
    assert!(!target_accepted("other_lib::x"));
    assert!(!target_accepted("tungstenite::protocol"));
    assert!(!target_accepted("mirror"));
    assert!(!target_accepted("mirrorD"));
    assert!(!target_accepted("mirro_rd"));
}

#[test]
fn record_round_trip_every_field() {
    let r = record(Level::Warn, "mirrord::layer", "something happened");
    let bytes = encode_record(&r);
    let back = decode_record(&bytes).expect("round trip must succeed");
    assert_eq!(back.metadata.level, Level::Warn);
    assert_eq!(back.metadata.target, r.metadata.target);
    assert_eq!(back.message, r.message);
    assert_eq!(back.module, r.module);
    assert_eq!(back.file, r.file);
    assert_eq!(back.line, r.line);
}

#[test]
fn record_round_trip_absent_options() {
    let mut r = record(Level::Error, "mirrord", "plain");
    r.module = None;
    r.file = None;
    r.line = None;
    let bytes = encode_record(&r);
    let back = decode_record(&bytes).expect("round trip must succeed");
    assert_eq!(back.module, None);
    assert_eq!(back.file, None);
    assert_eq!(back.line, None);
    assert_eq!(back.message, "plain");
}

#[test]
fn record_round_trip_all_levels() {
    for level in [
        Level::Error,
        Level::Warn,
        Level::Info,
        Level::Debug,
        Level::Trace,
    ] {
        let r = record(level, "mirrord", "m");
        let back = decode_record(&encode_record(&r)).expect("round trip must succeed");
        assert_eq!(back.metadata.level, level);
    }
}

#[test]
fn record_round_trip_unicode_message() {
    let r = record(Level::Info, "mirrord", "héllo wörld — ♞ 日本語");
    let back = decode_record(&encode_record(&r)).expect("round trip must succeed");
    assert_eq!(back.message, "héllo wörld — ♞ 日本語");
}

#[test]
fn hello_round_trip_every_field() {
    let h = sample_hello();
    let bytes = encode_hello(&h);
    let back = decode_hello(&bytes).expect("round trip must succeed");
    assert_eq!(back.process_info.args, h.process_info.args);
    assert_eq!(back.process_info.env, h.process_info.env);
    assert_eq!(back.process_info.cwd, h.process_info.cwd);
    assert_eq!(back.process_info.id, h.process_info.id);
}

#[test]
fn hello_round_trip_empty_lists() {
    let h = Hello {
        process_info: ProcessInfo {
            args: vec![],
            env: vec![],
            cwd: None,
            id: 0,
        },
    };
    let back = decode_hello(&encode_hello(&h)).expect("round trip must succeed");
    assert!(back.process_info.args.is_empty());
    assert!(back.process_info.env.is_empty());
    assert_eq!(back.process_info.cwd, None);
    assert_eq!(back.process_info.id, 0);
}

#[test]
fn decode_rejects_truncated_record() {
    let r = record(Level::Info, "mirrord", "msg");
    let mut bytes = encode_record(&r);
    bytes.pop();
    assert!(decode_record(&bytes).is_none());
}

#[test]
fn decode_rejects_trailing_garbage() {
    let r = record(Level::Info, "mirrord", "msg");
    let mut bytes = encode_record(&r);
    bytes.push(0);
    assert!(decode_record(&bytes).is_none());
}

#[test]
fn decode_rejects_bad_level_tag() {
    let r = record(Level::Info, "mirrord", "msg");
    let mut bytes = encode_record(&r);
    bytes[0] = 9;
    assert!(decode_record(&bytes).is_none());
    bytes[0] = 0;
    assert!(decode_record(&bytes).is_none());
}

#[test]
fn decode_rejects_invalid_utf8() {
    let r = record(Level::Info, "abcd", "msg");
    let mut bytes = encode_record(&r);
    // the target's first byte sits right after the level tag and the
    // eight-byte length prefix
    bytes[9] = 0xFF;
    assert!(decode_record(&bytes).is_none());
}

#[test]
fn decode_preserves_string_content() {
    // guards the UTF-8 boundary: the decoded string holds the encoded
    // characters themselves, not the raw length-prefixed buffer
    let r = record(Level::Info, "mirrord", "héllo");
    let bytes = encode_record(&r);
    let back = decode_record(&bytes).expect("round trip must succeed");
    assert_eq!(back.message.chars().count(), 5);
}

#[test]
fn log_filters_foreign_origin() {
    let mut logger = ConsoleLogger::new(BoundedQueue::new(8));
    let r = record(Level::Info, "other_lib::x", "not ours");
    assert_eq!(logger.log(&r), LogOutcome::Filtered);
    let mut q = logger.into_queue();
    assert_eq!(q.len(), 0);
    assert!(q.pop().is_none());
}

#[test]
fn log_twice_enqueues_two_independent_records() {
    let mut logger = ConsoleLogger::new(BoundedQueue::new(8));
    let r = record(Level::Debug, "mirrord::layer", "same input");
    assert_eq!(logger.log(&r), LogOutcome::Enqueued);
    assert_eq!(logger.log(&r), LogOutcome::Enqueued);
    let mut q = logger.into_queue();
    assert_eq!(q.len(), 2);
    let first = q.pop().expect("two records buffered");
    let second = q.pop().expect("two records buffered");
    assert_eq!(first.message, "same input");
    assert_eq!(second.message, "same input");
    assert_eq!(first.metadata.target, second.metadata.target);
}

#[test]
fn log_after_close_reports_closed_and_returns_normally() {
    let mut q = BoundedQueue::new(8);
    q.close();
    let mut logger = ConsoleLogger::new(q);
    let r = record(Level::Info, "mirrord", "late");
    assert_eq!(logger.log(&r), LogOutcome::Closed);
    assert_eq!(logger.into_queue().len(), 0);
}

#[test]
fn flush_is_a_no_op() {
    let mut logger = ConsoleLogger::new(BoundedQueue::new(4));
    let r = record(Level::Info, "mirrord", "kept");
    logger.log(&r);
    logger.flush();
    assert_eq!(logger.into_queue().len(), 1);
}

#[test]
fn enqueue_boundary_blocks_at_capacity_and_unblocks_after_pop() {
    let mut q = BoundedQueue::new(2);
    let r = record(Level::Info, "mirrord", "r");
    assert_eq!(q.try_push(r.duplicate()), PushOutcome::Pushed);
    assert_eq!(q.try_push(r.duplicate()), PushOutcome::Pushed);
    // at capacity: the attempt neither drops a record nor errors; the
    // producer must wait
    assert_eq!(q.try_push(r.duplicate()), PushOutcome::WouldBlock);
    assert_eq!(q.len(), 2);
    // one removal frees one slot and the attempt succeeds again
    assert!(q.pop().is_some());
    assert_eq!(q.try_push(r.duplicate()), PushOutcome::Pushed);
    assert_eq!(q.len(), 2);
}

#[test]
fn queue_is_fifo() {
    let mut q = BoundedQueue::new(8);
    for i in 0..5 {
        let r = record(Level::Info, "mirrord", &format!("msg-{i}"));
        assert_eq!(q.try_push(r), PushOutcome::Pushed);
    }
    for i in 0..5 {
        let r = q.pop().expect("five records buffered");
        assert_eq!(r.message, format!("msg-{i}"));
    }
    assert!(q.pop().is_none());
}

#[test]
fn session_frames_hello_first_then_records_in_order() {
    let mut logger = ConsoleLogger::new(BoundedQueue::new(8));
    let r1 = record(Level::Info, "mirrord", "first");
    let r2 = record(Level::Warn, "mirrord", "second");
    let r3 = record(Level::Error, "mirrord", "third");
    logger.log(&r1);
    logger.log(&r2);
    logger.log(&r3);
    let hello = sample_hello();
    let mut q = logger.into_queue();
    let frames = mirrord_console::session::session_frames(&hello, &mut q);
    assert_eq!(frames.len(), 4);
    assert_eq!(frames[0], encode_hello(&hello));
    assert_eq!(frames[1], encode_record(&r1));
    assert_eq!(frames[2], encode_record(&r2));
    assert_eq!(frames[3], encode_record(&r3));
    assert_eq!(q.len(), 0);
}

#[test]
fn init_unreachable_address_is_connect_error() {
    let r = init_outcome(Some("connection refused".to_string()), None, false);
    match r {
        Err(ConsoleError::ConnectError(d)) => assert_eq!(d, "connection refused"),
        other => panic!("expected a connect error, got {other:?}"),
    }
}

#[test]
fn init_hello_write_failure_is_connect_error() {
    let r = init_outcome(None, Some("broken pipe".to_string()), false);
    match r {
        Err(ConsoleError::ConnectError(d)) => assert_eq!(d, "broken pipe"),
        other => panic!("expected a connect error, got {other:?}"),
    }
}

#[test]
fn init_twice_is_set_logger_error() {
    let r = init_outcome(None, None, true);
    assert!(matches!(r, Err(ConsoleError::SetLoggerError)));
}

#[test]
fn init_clean_run_succeeds() {
    let r = init_outcome(None, None, false);
    assert!(r.is_ok());
}

#[test]
fn session_transitions_and_terminal_states() {
    let s0 = SessionState::Connecting;
    let s1 = step(s0, SessionEvent::HelloWritten);
    assert_eq!(s1, SessionState::HandshakeSent);
    let s2 = step(s1, SessionEvent::LoopStarted);
    assert_eq!(s2, SessionState::Streaming);
    let s3 = step(s2, SessionEvent::RecordWritten);
    assert_eq!(s3, SessionState::Streaming);
    let s4 = step(s3, SessionEvent::WriteFailed);
    assert_eq!(s4, SessionState::TerminatedByWriteError);
    // terminal states are final
    assert_eq!(step(s4, SessionEvent::LoopStarted), s4);
    assert_eq!(step(s4, SessionEvent::RecordWritten), s4);
    let s5 = step(SessionState::Streaming, SessionEvent::QueueClosed);
    assert_eq!(s5, SessionState::TerminatedByQueueClosed);
    assert_eq!(step(s5, SessionEvent::HelloWritten), s5);
    // records are not written before the handshake
    assert_eq!(
        step(SessionState::Connecting, SessionEvent::RecordWritten),
        SessionState::Connecting
    );
}

#[test]
fn ws_url_wraps_address() {
    assert_eq!(ws_url("127.0.0.1:3344"), "ws://127.0.0.1:3344/ws");
    assert_eq!(ws_url("console.local:80"), "ws://console.local:80/ws");
}

#[test]
fn env_entry_joins_key_and_value() {
    assert_eq!(env_entry("HOME", "/root"), "HOME=/root");
    assert_eq!(env_entry("EMPTY", ""), "EMPTY=");
}

#[test]
fn duplicate_copies_every_field() {
    let r = record(Level::Trace, "mirrord::x", "copy me");
    let d = r.duplicate();
    assert_eq!(d.metadata.level, r.metadata.level);
    assert_eq!(d.metadata.target, r.metadata.target);
    assert_eq!(d.message, r.message);
    assert_eq!(d.module, r.module);
    assert_eq!(d.file, r.file);
    assert_eq!(d.line, r.line);
}
