use assassinate_ipc::protocol::{
    decode, deserialize_call, encode, encode_request, encode_response, serialize_call,
    serialize_error, serialize_response, Message,
};
use assassinate_ipc::values::{decode_value, decode_values, encode_value, encode_values};
use assassinate_ipc::IpcError;
use serde_json::Value;

fn text(s: &str) -> Value {
    Value::String(s.to_string())
}

fn mapping(entries: Vec<(&str, Value)>) -> Value {
    let mut map = serde_json::Map::new();
    for (key, value) in entries {
        map.insert(key.to_string(), value);
    }
    Value::Object(map)
}

#[test]
fn protocol_test_serialize_deserialize_call() {
    let call_id = 42;
    let method = "framework_version";
    let args = vec![];

    let bytes = serialize_call(call_id, method, args.clone()).unwrap();
    let (parsed_id, parsed_method, parsed_args) = deserialize_call(&bytes).unwrap();

    assert_eq!(parsed_id, call_id);
    assert_eq!(parsed_method, method);
    assert_eq!(parsed_args, args);
}

#[test]
fn request_bytes_are_tag_id_method_count_arguments() {
    let bytes = serialize_call(42, "hi", vec![Value::from(5), Value::Null, text("a")]).unwrap();
    let expected: Vec<u8> = vec![
        1, // request
        42, 0, 0, 0, 0, 0, 0, 0, // call identifier
        2, 0, 0, 0, b'h', b'i', // method
        3, 0, 0, 0, // three arguments
        1, 0, 0, 0, 0x05, // 5
        1, 0, 0, 0, 0xC0, // null
        2, 0, 0, 0, 0xA1, b'a', // "a"
    ];
    assert_eq!(bytes, expected);
    assert_eq!(
        encode_request(42, "hi", &vec![vec![0x05], vec![0xC0], vec![0xA1, b'a']]).unwrap(),
        expected
    );
}

#[test]
fn response_bytes_are_tag_id_result() {
    let result = Value::Array(vec![Value::Bool(true), Value::Bool(false)]);
    let bytes = serialize_response(0x0102030405060708, result).unwrap();
    let expected: Vec<u8> = vec![
        2, // response
        8, 7, 6, 5, 4, 3, 2, 1, // call identifier
        3, 0, 0, 0, 0x92, 0xC3, 0xC2, // [true, false]
    ];
    assert_eq!(bytes, expected);
    assert_eq!(encode_response(0x0102030405060708, &vec![0x92, 0xC3, 0xC2]).unwrap(), expected);
}

#[test]
fn error_bytes_are_tag_id_code_message() {
    let bytes = serialize_error(1, "E", "no").unwrap();
    let expected: Vec<u8> = vec![
        3, // error
        1, 0, 0, 0, 0, 0, 0, 0, // call identifier
        1, 0, 0, 0, b'E', // code
        2, 0, 0, 0, b'n', b'o', // message
    ];
    assert_eq!(bytes, expected);
}

#[test]
fn values_are_carried_as_messagepack() {
    assert_eq!(encode_value(&Value::Null).unwrap(), vec![0xC0]);
    assert_eq!(encode_value(&Value::from(200u64)).unwrap(), vec![0xCC, 200]);
    assert_eq!(encode_value(&Value::from(-1)).unwrap(), vec![0xFF]);
    assert_eq!(encode_value(&text("\u{e9}")).unwrap(), vec![0xA2, 0xC3, 0xA9]);
    assert_eq!(
        encode_value(&mapping(vec![("k", Value::from(1))])).unwrap(),
        vec![0x81, 0xA1, b'k', 0x01]
    );
    assert_eq!(decode_value(&[0xC3]).unwrap(), Value::Bool(true));
    assert_eq!(
        decode_value(&[0x92, 0x01, 0xA1, b'x']).unwrap(),
        Value::Array(vec![Value::from(1), text("x")])
    );
    assert_eq!(
        encode_values(&vec![Value::Null, Value::from(7)]).unwrap(),
        vec![vec![0xC0], vec![0x07]]
    );
    assert_eq!(
        decode_values(&vec![vec![0xC0], vec![0x07]]).unwrap(),
        vec![Value::Null, Value::from(7)]
    );
}

#[test]
fn bytes_that_encode_no_value_are_a_deserialization_error() {
    // 0xC1 is the one first byte that MessagePack never uses.
    assert!(matches!(decode_value(&[0xC1]), Err(IpcError::Deserialization(_))));
    // A string of three bytes, of which one is there.
    assert!(matches!(decode_value(&[0xA3, b'a']), Err(IpcError::Deserialization(_))));
    assert!(matches!(decode_value(&[]), Err(IpcError::Deserialization(_))));
    assert!(matches!(
        decode_values(&vec![vec![0x01], vec![0xC1]]),
        Err(IpcError::Deserialization(_))
    ));
    let request = encode_request(1, "m", &vec![vec![0x01], vec![0xC1]]).unwrap();
    assert!(decode(&request).is_ok());
    assert!(matches!(deserialize_call(&request), Err(IpcError::Deserialization(_))));
}

#[test]
fn call_of_every_kind_of_value_round_trips() {
    let args = vec![
        Value::Null,
        Value::Bool(true),
        Value::from(0),
        Value::from(-129),
        Value::from(u64::MAX),
        Value::from(i64::MIN),
        Value::Number(serde_json::Number::from_f64(1.5).unwrap()),
        text(""),
        text("h\u{e9}llo w\u{f6}rld \u{2014} \u{65e5}\u{672c}\u{8a9e} \u{1f980}"),
        Value::Array(vec![]),
        Value::Array(vec![Value::from(1), text("two"), Value::Array(vec![Value::Null])]),
        mapping(vec![]),
        mapping(vec![
            ("name", text("exploit/multi/handler")),
            (
                "options",
                mapping(vec![("LPORT", Value::from(4444)), ("verbose", Value::Bool(false))]),
            ),
            ("targets", Value::Array(vec![text("a"), text("b")])),
        ]),
    ];
    let bytes = serialize_call(u64::MAX, "m\u{e9}thod", args.clone()).unwrap();
    let (call_id, method, read_back) = deserialize_call(&bytes).unwrap();
    assert_eq!(call_id, u64::MAX);
    assert_eq!(method, "m\u{e9}thod");
    assert_eq!(read_back, args);
}

#[test]
fn request_without_arguments_round_trips() {
    let message = Message::Request { call_id: 7, method: "list_modules".to_string(), args: vec![] };
    let bytes = encode(&message).unwrap();
    assert_eq!(bytes, serialize_call(7, "list_modules", vec![]).unwrap());
    assert_eq!(decode(&bytes), Ok(message));
}

#[test]
fn request_with_multi_byte_text_round_trips() {
    let words = "h\u{e9}llo w\u{f6}rld \u{2014} \u{65e5}\u{672c}\u{8a9e} \u{1f980}";
    let message = Message::Request {
        call_id: u64::MAX,
        method: format!("search_{}", words),
        args: vec![encode_value(&text(words)).unwrap(), vec![], vec![0, 255, 128]],
    };
    let bytes = encode(&message).unwrap();
    assert_eq!(decode(&bytes), Ok(message));
}

#[test]
fn response_round_trips() {
    let result = mapping(vec![("version", text("6.4"))]);
    let message = Message::Response { call_id: 99, result: encode_value(&result).unwrap() };
    let bytes = encode(&message).unwrap();
    assert_eq!(bytes, serialize_response(99, result.clone()).unwrap());
    match decode(&bytes) {
        Ok(Message::Response { call_id, result: carried }) => {
            assert_eq!(call_id, 99);
            assert_eq!(decode_value(&carried).unwrap(), result);
        }
        other => panic!("not a response: {:?}", other),
    }
    let empty = Message::Response { call_id: 0, result: vec![] };
    assert_eq!(decode(&encode(&empty).unwrap()), Ok(empty));
}

#[test]
fn error_round_trips() {
    let message = Message::Error {
        call_id: 3,
        code: "CallFailed".to_string(),
        message: "Unknown method: fr\u{fc}h".to_string(),
    };
    let bytes = encode(&message).unwrap();
    assert_eq!(bytes, serialize_error(3, "CallFailed", "Unknown method: fr\u{fc}h").unwrap());
    assert_eq!(decode(&bytes), Ok(message));
}

#[test]
fn call_id_is_read_off_every_kind() {
    assert_eq!(Message::Request { call_id: 1, method: String::new(), args: vec![] }.call_id(), 1);
    assert_eq!(Message::Response { call_id: 2, result: vec![] }.call_id(), 2);
    assert_eq!(
        Message::Error { call_id: 3, code: String::new(), message: String::new() }.call_id(),
        3
    );
}

#[test]
fn deserialize_call_refuses_a_response_and_an_error() {
    let response = serialize_response(5, Value::from(1)).unwrap();
    assert!(matches!(deserialize_call(&response), Err(IpcError::Deserialization(_))));
    let error = serialize_error(5, "c", "m").unwrap();
    assert!(matches!(deserialize_call(&error), Err(IpcError::Deserialization(_))));
}

#[test]
fn bytes_that_are_no_envelope_do_not_decode() {
    let good = encode_request(42, "hi", &vec![vec![1, 2]]).unwrap();
    // Nothing at all, and every proper prefix of an envelope.
    for len in 0..good.len() {
        assert!(matches!(decode(&good[..len]), Err(IpcError::Deserialization(_))));
    }
    // Bytes after the last field.
    let mut longer = good.clone();
    longer.push(0);
    assert!(matches!(decode(&longer), Err(IpcError::Deserialization(_))));
    // A kind that does not exist.
    for tag in [0u8, 4, 255] {
        let mut other = good.clone();
        other[0] = tag;
        assert!(matches!(decode(&other), Err(IpcError::Deserialization(_))));
    }
    // More arguments announced than follow.
    let mut more = good.clone();
    more[15] = 2;
    assert!(matches!(decode(&more), Err(IpcError::Deserialization(_))));
    // Fewer arguments announced than follow.
    let mut fewer = good.clone();
    fewer[15] = 0;
    assert!(matches!(decode(&fewer), Err(IpcError::Deserialization(_))));
    // A length that points past the end.
    let mut far = good.clone();
    far[9] = 200;
    assert!(matches!(decode(&far), Err(IpcError::Deserialization(_))));
}

#[test]
fn text_that_is_not_utf8_does_not_decode() {
    let mut request = serialize_call(1, "ab", vec![]).unwrap();
    request[13] = 0xFF;
    assert!(matches!(decode(&request), Err(IpcError::Deserialization(_))));
    let mut error = serialize_error(1, "c", "mm").unwrap();
    // A continuation byte with nothing before it, in the message.
    error[18] = 0x80;
    assert!(matches!(decode(&error), Err(IpcError::Deserialization(_))));
    // The envelope does not read what it carries: any bytes go.
    let response = encode_response(1, &vec![0xFF, 0x80]).unwrap();
    assert_eq!(decode(&response), Ok(Message::Response { call_id: 1, result: vec![0xFF, 0x80] }));
}

#[test]
fn decoded_text_is_the_text_that_the_bytes_encode() {
    // 0xC3 0xA9 is one character; a decoder that handed the bytes on
    // unread would give two.
    let bytes = vec![3, 9, 0, 0, 0, 0, 0, 0, 0, 2, 0, 0, 0, 0xC3, 0xA9, 0, 0, 0, 0];
    match decode(&bytes) {
        Ok(Message::Error { call_id, code, message }) => {
            assert_eq!(call_id, 9);
            assert_eq!(code, "\u{e9}");
            assert_eq!(code.chars().count(), 1);
            assert_eq!(message, "");
        }
        other => panic!("not an error envelope: {:?}", other),
    }
}
