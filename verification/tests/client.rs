use assassinate_ipc::client::{request_segment_name, response_segment_name};
use assassinate_ipc::protocol::{decode, deserialize_call, serialize_response, Message};
use assassinate_ipc::values::encode_value;
use serde_json::Value;
use assassinate_ipc::ring_buffer::DATA_OFFSET;
use assassinate_ipc::{IpcClient, IpcError, SharedMemory, DEFAULT_BUFFER_SIZE, DEFAULT_SHM_NAME};

#[test]
fn test_ipc_client() {
    let mut client = IpcClient::new("test_ipc", 4096).unwrap();
    let call_id = client.call("test_method", vec![]).unwrap();
    assert_eq!(call_id, 1);
}

#[test]
fn defaults_are_a_power_of_two_and_a_name() {
    assert_eq!(DEFAULT_BUFFER_SIZE, 67_108_864);
    assert!(DEFAULT_BUFFER_SIZE.is_power_of_two());
    assert_eq!(DEFAULT_SHM_NAME, "/assassinate_msf_ipc");
}

#[test]
fn segment_names_are_derived_from_the_base_name() {
    assert_eq!(request_segment_name("/chan"), "/chan_req");
    assert_eq!(response_segment_name("/chan"), "/chan_resp");
    assert_eq!(request_segment_name(""), "_req");
    let mut client = IpcClient::new("/chan", 64).unwrap();
    assert_eq!(client.requests_mut().name(), "/chan_req");
    assert_eq!(client.responses_mut().name(), "/chan_resp");
}

#[test]
fn call_identifiers_count_up_from_one() {
    let mut client = IpcClient::new("ids", 4096).unwrap();
    for expected in 1u64..=20 {
        assert_eq!(client.call("m", vec![Value::from(expected)]), Ok(expected));
    }
    for expected in 1u64..=20 {
        let frame = client.requests_mut().try_read().unwrap();
        let (call_id, method, args) = deserialize_call(&frame).unwrap();
        assert_eq!(call_id, expected);
        assert_eq!(method, "m");
        assert_eq!(args, vec![Value::from(expected)]);
    }
}

#[test]
fn failed_call_takes_an_identifier_too() {
    let mut client = IpcClient::new("gap", 32).unwrap();
    // 9 + 4 + 1 + 4 = 18 bytes of envelope, 22 of frame.
    assert_eq!(client.call("a", vec![]), Ok(1));
    assert_eq!(client.call("b", vec![]), Err(IpcError::RingBufferFull(32)));
    client.requests_mut().try_read().unwrap();
    assert_eq!(client.call("c", vec![]), Ok(3));
}

#[test]
fn call_that_can_never_fit_is_too_large_not_full() {
    let mut client = IpcClient::new("large", 64).unwrap();
    // A string of 41 bytes is 43 bytes of MessagePack:
    // 9 + (4 + 1) + 4 + (4 + 43) = 65 bytes of envelope, more than 60.
    assert_eq!(
        client.call("m", vec![Value::String("x".repeat(41))]),
        Err(IpcError::MessageTooLarge { size: 65, max: 60 })
    );
    assert_eq!(client.utilization().used, 0);
    // 60 bytes of envelope fill the buffer to the last byte.
    assert_eq!(client.call("m", vec![Value::String("x".repeat(36))]), Ok(2));
    assert_eq!(client.utilization().used, 64);
    // What would fit into an empty buffer is only full now.
    assert_eq!(client.call("m", vec![]), Err(IpcError::RingBufferFull(64)));
}

#[test]
fn try_recv_gives_the_frames_of_the_response_buffer() {
    let mut client = IpcClient::new("recv", 256).unwrap();
    assert_eq!(client.try_recv(), Err(IpcError::RingBufferEmpty));
    let pong = Value::String("pong".to_string());
    let answer = serialize_response(1, pong.clone()).unwrap();
    client.responses_mut().try_write(&answer).unwrap();
    let frame = client.try_recv().unwrap();
    assert_eq!(frame, answer);
    assert_eq!(
        decode(&frame),
        Ok(Message::Response { call_id: 1, result: encode_value(&pong).unwrap() })
    );
    assert_eq!(client.try_recv(), Err(IpcError::RingBufferEmpty));
}

#[test]
fn utilization_is_that_of_the_request_buffer() {
    let mut client = IpcClient::new("util", 128).unwrap();
    assert_eq!(client.utilization().used, 0);
    assert_eq!(client.utilization().capacity, 128);
    client.call("ab", vec![]).unwrap();
    // 9 + 4 + 2 + 4 bytes of envelope behind 4 of header.
    assert_eq!(client.utilization().used, 23);
    client.responses_mut().try_write(b"x").unwrap();
    assert_eq!(client.utilization().used, 23);
}

#[test]
fn capacity_of_a_client_must_be_a_power_of_two() {
    assert!(matches!(IpcClient::new("bad", 1000), Err(IpcError::SharedMemory(_))));
    assert!(matches!(IpcClient::new("bad", 0), Err(IpcError::SharedMemory(_))));
}

#[test]
fn client_opens_over_segments_that_hold_buffers() {
    let mut first = IpcClient::new("again", 64).unwrap();
    first.call("m", vec![]).unwrap();
    first.responses_mut().try_write(b"late").unwrap();
    let (requests, responses) = first.into_buffers();
    let mut second = IpcClient::open(
        requests.into_shared_memory(),
        responses.into_shared_memory(),
        64,
    )
    .unwrap();
    assert_eq!(second.try_recv().unwrap(), b"late");
    assert_eq!(second.utilization().used, 22);
    // A client that opens starts to number its calls at 1 again.
    assert_eq!(second.call("n", vec![]), Ok(1));
}

#[test]
fn client_does_not_open_over_a_segment_of_the_wrong_size() {
    let requests = SharedMemory::create("r", DATA_OFFSET + 64).unwrap();
    let responses = SharedMemory::create("s", DATA_OFFSET + 32).unwrap();
    assert!(matches!(
        IpcClient::open(requests, responses, 64),
        Err(IpcError::SharedMemory(_))
    ));
}
