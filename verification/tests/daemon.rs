use assassinate_ipc::daemon::{
    Action, Backoff, Daemon, ShutdownState, ERROR_PAUSE_MICROS, MAX_BACKOFF_MICROS,
    MIN_BACKOFF_MICROS, STATS_INTERVAL_SECS,
};
use assassinate_ipc::protocol::{
    decode, encode_request, serialize_call, serialize_response, Message,
};
use assassinate_ipc::values::{decode_value, encode_value};
use serde_json::Value;
use assassinate_ipc::ring_buffer::{RingBuffer, Utilization};
use assassinate_ipc::{AssassinateError, IpcClient, IpcError};

#[test]
fn backoff_doubles_up_to_the_ceiling_and_resets() {
    let mut backoff = Backoff::new();
    let delays: Vec<u64> = (0..10).map(|_| backoff.on_empty()).collect();
    assert_eq!(delays, vec![1, 2, 4, 8, 16, 32, 64, 100, 100, 100]);
    assert_eq!(backoff.current(), 100);
    backoff.reset();
    assert_eq!(backoff.current(), 1);
    assert_eq!(backoff.on_empty(), 1);
    assert_eq!(backoff.on_empty(), 2);
}

#[test]
fn backoff_never_shrinks_and_never_passes_the_ceiling() {
    assert_eq!(MIN_BACKOFF_MICROS, 1);
    assert_eq!(MAX_BACKOFF_MICROS, 100);
    let mut backoff = Backoff::new();
    let mut last = 0;
    for _ in 0..200 {
        let delay = backoff.on_empty();
        assert!(delay >= last);
        assert!(delay >= MIN_BACKOFF_MICROS && delay <= MAX_BACKOFF_MICROS);
        last = delay;
    }
}

#[test]
fn empty_polls_idle_with_growing_delay_until_a_frame_arrives() {
    let mut daemon = Daemon::new();
    let mut requests = RingBuffer::create("idle", 256).unwrap();
    assert_eq!(daemon.poll(&mut requests), Action::Idle { micros: 1 });
    assert_eq!(daemon.poll(&mut requests), Action::Idle { micros: 2 });
    assert_eq!(daemon.poll(&mut requests), Action::Idle { micros: 4 });
    requests.try_write(&serialize_call(1, "ping", vec![]).unwrap()).unwrap();
    assert_eq!(
        daemon.poll(&mut requests),
        Action::Dispatch { call_id: 1, method: "ping".to_string(), args: vec![] }
    );
    // The next iteration after a read uses the floor again.
    assert_eq!(daemon.poll(&mut requests), Action::Idle { micros: 1 });
    let stats = daemon.statistics(requests.utilization(), requests.utilization());
    assert_eq!(stats.requests, 1);
    assert_eq!(stats.errors, 0);
}

#[test]
fn frame_that_is_no_request_counts_as_request_and_as_error() {
    let mut daemon = Daemon::new();
    assert_eq!(daemon.on_read(Err(IpcError::RingBufferEmpty)), Action::Idle { micros: 1 });
    assert_eq!(
        daemon.on_read(Ok(b"garbage".to_vec())),
        Action::Pause { micros: ERROR_PAUSE_MICROS }
    );
    assert_eq!(
        daemon.on_read(Ok(serialize_response(1, Value::Null).unwrap())),
        Action::Pause { micros: 10_000 }
    );
    // A request with an argument that is no value.
    assert_eq!(
        daemon.on_read(Ok(encode_request(1, "m", &vec![vec![0xC1]]).unwrap())),
        Action::Pause { micros: 10_000 }
    );
    let idle = Utilization { used: 0, capacity: 1 };
    let stats = daemon.statistics(idle, idle);
    assert_eq!(stats.requests, 3);
    assert_eq!(stats.errors, 3);
    // A frame was read, so the backoff is at its floor.
    assert_eq!(daemon.on_read(Err(IpcError::RingBufferEmpty)), Action::Idle { micros: 1 });
}

#[test]
fn transport_error_pauses_and_keeps_the_backoff() {
    let mut daemon = Daemon::new();
    assert_eq!(daemon.on_read(Err(IpcError::RingBufferEmpty)), Action::Idle { micros: 1 });
    assert_eq!(daemon.on_read(Err(IpcError::RingBufferEmpty)), Action::Idle { micros: 2 });
    assert_eq!(
        daemon.on_read(Err(IpcError::Deserialization("frame header is incomplete".to_string()))),
        Action::Pause { micros: 10_000 }
    );
    assert_eq!(daemon.on_read(Err(IpcError::ConnectionClosed)), Action::Pause { micros: 10_000 });
    assert_eq!(daemon.on_read(Err(IpcError::RingBufferEmpty)), Action::Idle { micros: 4 });
    let idle = Utilization { used: 0, capacity: 1 };
    let stats = daemon.statistics(idle, idle);
    assert_eq!(stats.requests, 0);
    assert_eq!(stats.errors, 2);
}

#[test]
fn outcome_of_a_call_becomes_a_response_or_an_error() {
    let mut daemon = Daemon::new();
    let result = Value::Array(vec![Value::from(1), Value::String("two".to_string())]);
    let frame = daemon.on_outcome(8, Ok(result.clone())).unwrap();
    assert_eq!(
        decode(&frame),
        Ok(Message::Response { call_id: 8, result: encode_value(&result).unwrap() })
    );
    let frame = daemon.on_outcome(9, Err("Unknown method: nope".to_string())).unwrap();
    assert_eq!(
        decode(&frame),
        Ok(Message::Error {
            call_id: 9,
            code: "CallFailed".to_string(),
            message: "Unknown method: nope".to_string(),
        })
    );
    let idle = Utilization { used: 0, capacity: 1 };
    let stats = daemon.statistics(idle, idle);
    assert_eq!(stats.requests, 0);
    assert_eq!(stats.errors, 1);
}

#[test]
fn failed_write_of_an_answer_counts_as_error() {
    let mut daemon = Daemon::new();
    let mut responses = RingBuffer::create("answers", 32).unwrap();
    // [1, 2] is three bytes: 9 + 4 + 3 = 16 bytes of envelope, 20 of frame.
    let pair = Value::Array(vec![Value::from(1), Value::from(2)]);
    assert_eq!(daemon.respond(&mut responses, 1, Ok(pair.clone())), Ok(()));
    assert_eq!(
        daemon.respond(&mut responses, 2, Ok(pair.clone())),
        Err(IpcError::RingBufferFull(32))
    );
    // A text of 30 bytes makes an envelope of 9 + 14 + 34 = 57 bytes, which
    // 32 bytes never take.
    assert_eq!(
        daemon.respond(&mut responses, 3, Err("x".repeat(30))),
        Err(IpcError::MessageTooLarge { size: 57, max: 28 })
    );
    let stats = daemon.statistics(responses.utilization(), responses.utilization());
    // One for the full buffer, two for the failed call that was not
    // answered.
    assert_eq!(stats.errors, 3);
    assert_eq!(stats.response_utilization, Utilization { used: 20, capacity: 32 });
    daemon.on_written(&Err(IpcError::RingBufferFull(32)));
    daemon.on_written(&Ok(()));
    let stats = daemon.statistics(responses.utilization(), responses.utilization());
    assert_eq!(stats.errors, 4);
    let frame = responses.try_read().unwrap();
    assert_eq!(decode(&frame), Ok(Message::Response { call_id: 1, result: vec![0x92, 1, 2] }));
}

#[test]
fn shutdown_is_seen_at_the_start_of_the_next_iteration() {
    let mut daemon = Daemon::new();
    assert_eq!(daemon.shutdown_state(), ShutdownState::Running);
    assert!(daemon.begin_iteration());
    assert!(daemon.begin_iteration());
    assert_eq!(daemon.shutdown_state(), ShutdownState::Running);
    daemon.request_shutdown();
    assert_eq!(daemon.shutdown_state(), ShutdownState::ShuttingDown);
    // What was read before is still answered.
    assert!(daemon.on_outcome(1, Ok(Value::Null)).is_ok());
    assert!(!daemon.begin_iteration());
    assert_eq!(daemon.shutdown_state(), ShutdownState::Stopped);
    assert!(!daemon.begin_iteration());
    daemon.request_shutdown();
    assert_eq!(daemon.shutdown_state(), ShutdownState::Stopped);
    assert!(!daemon.begin_iteration());
}

#[test]
fn statistics_are_due_after_the_interval() {
    assert_eq!(STATS_INTERVAL_SECS, 60);
    assert!(!Daemon::statistics_due(0));
    assert!(!Daemon::statistics_due(59));
    assert!(Daemon::statistics_due(60));
    assert!(Daemon::statistics_due(61));
}

#[test]
fn calls_are_served_in_order_over_a_pair_of_buffers() {
    let mut client = IpcClient::new("pair", 1024).unwrap();
    let mut daemon = Daemon::new();
    let one = Value::String("one".to_string());
    let three = Value::String("three".to_string());
    let more = Value::from(4);
    let first = client.call("echo", vec![one.clone()]).unwrap();
    let second = client.call("fail", vec![]).unwrap();
    let third = client.call("echo", vec![three.clone(), more.clone()]).unwrap();
    assert_eq!((first, second, third), (1, 2, 3));
    let mut served = 0;
    while daemon.begin_iteration() {
        match daemon.poll(client.requests_mut()) {
            Action::Dispatch { call_id, method, args } => {
                let outcome = if method == "echo" {
                    Ok(Value::Array(args))
                } else {
                    Err(format!("Unknown method: {}", method))
                };
                daemon.respond(client.responses_mut(), call_id, outcome).unwrap();
                served += 1;
            }
            Action::Idle { micros } => {
                assert_eq!(micros, 1);
                daemon.request_shutdown();
            }
            Action::Pause { .. } => panic!("no transport error was set up"),
        }
    }
    assert_eq!(served, 3);
    match decode(&client.try_recv().unwrap()) {
        Ok(Message::Response { call_id, result }) => {
            assert_eq!(call_id, 1);
            assert_eq!(decode_value(&result).unwrap(), Value::Array(vec![one]));
        }
        other => panic!("not a response: {:?}", other),
    }
    assert_eq!(
        decode(&client.try_recv().unwrap()),
        Ok(Message::Error {
            call_id: 2,
            code: "CallFailed".to_string(),
            message: "Unknown method: fail".to_string(),
        })
    );
    match decode(&client.try_recv().unwrap()) {
        Ok(Message::Response { call_id, result }) => {
            assert_eq!(call_id, 3);
            assert_eq!(decode_value(&result).unwrap(), Value::Array(vec![three, more]));
        }
        other => panic!("not a response: {:?}", other),
    }
    assert_eq!(client.try_recv(), Err(IpcError::RingBufferEmpty));
    let (requests, responses) = client.into_buffers();
    let stats = daemon.statistics(requests.utilization(), responses.utilization());
    assert_eq!(stats.requests, 3);
    assert_eq!(stats.errors, 1);
    assert_eq!(stats.request_utilization.used, 0);
    assert_eq!(stats.response_utilization.used, 0);
}

#[test]
fn handler_failure_reads_as_its_kind_and_its_detail() {
    assert_eq!(
        AssassinateError::RubyInitError("no vm".to_string()).message(),
        "Ruby initialization failed: no vm"
    );
    assert_eq!(AssassinateError::RubyError("x".to_string()).message(), "Ruby execution error: x");
    assert_eq!(
        AssassinateError::ModuleNotFound("a/b".to_string()).message(),
        "Module not found: a/b"
    );
    assert_eq!(
        AssassinateError::InvalidModuleType("t".to_string()).message(),
        "Invalid module type: t"
    );
    assert_eq!(
        AssassinateError::ModuleValidationError("v".to_string()).message(),
        "Module validation failed: v"
    );
    assert_eq!(
        AssassinateError::ModuleExecutionError("e".to_string()).message(),
        "Module execution failed: e"
    );
    assert_eq!(AssassinateError::SessionError("s".to_string()).message(), "Session error: s");
    assert_eq!(AssassinateError::DataStoreError("d".to_string()).message(), "DataStore error: d");
    assert_eq!(
        AssassinateError::PayloadError("p".to_string()).message(),
        "Payload generation error: p"
    );
    assert_eq!(AssassinateError::DatabaseError("b".to_string()).message(), "Database error: b");
    assert_eq!(AssassinateError::ConfigError("c".to_string()).message(), "Configuration error: c");
    assert_eq!(
        AssassinateError::ConversionError("k".to_string()).message(),
        "Type conversion error: k"
    );
    assert_eq!(AssassinateError::Unknown("".to_string()).message(), "Unknown error: ");
}

#[test]
fn only_full_and_empty_are_answered_by_trying_again() {
    assert!(IpcError::RingBufferFull(8).is_transient());
    assert!(IpcError::RingBufferEmpty.is_transient());
    assert!(!IpcError::MessageTooLarge { size: 9, max: 4 }.is_transient());
    assert!(!IpcError::SharedMemory(String::new()).is_transient());
    assert!(!IpcError::Serialization(String::new()).is_transient());
    assert!(!IpcError::Deserialization(String::new()).is_transient());
    assert!(!IpcError::Timeout(5).is_transient());
    assert!(!IpcError::ConnectionClosed.is_transient());
    assert!(!IpcError::Io(String::new()).is_transient());
}
