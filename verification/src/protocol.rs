//! The call envelope and its encoding.
//!
//! An envelope is a call identifier and one of three bodies: a request (a
//! method name and its arguments), a response (a result) or an error (a
//! code and a message). Arguments and results are values; the envelope
//! holds each of them as the byte string that it is encoded to, and is
//! itself encoded and decoded here, byte for byte.
//!
//! On the wire an envelope is a tag byte, the call identifier in eight
//! little-endian bytes, and the fields of the body, each as a frame: its
//! length in four bytes, then its bytes. The arguments of a request follow
//! their count. Text is UTF-8.

use crate::error::IpcError;
use crate::framing::{
    after_frame, first_payload, frame_bytes, frame_end, frames_fit, get_u32, get_u64, has_frame,
    lemma_frame_head, lemma_frame_rebuild, lemma_parse_stream_of_stream,
    lemma_stream_of_parse_stream, lemma_stream_push, parse_stream, payloads, put_frame, put_u32,
    put_u64, stream_bytes, HEADER_SIZE, MAX_PAYLOAD,
};
use crate::values::{
    all_decode, all_encode, decode_values, decoded, encode_value, encode_values, encoded,
    msgpack_bytes, msgpack_value,
};
use vstd::bytes::*;
use vstd::prelude::*;
use vstd::slice::{slice_subrange, slice_to_vec};
use vstd::utf8::*;

verus! {

/// The tag of a request.
pub const TAG_REQUEST: u8 = 1;

/// The tag of a response.
pub const TAG_RESPONSE: u8 = 2;

/// The tag of an error.
pub const TAG_ERROR: u8 = 3;

/// Bytes before the body: the tag and the call identifier.
pub const PREFIX_SIZE: usize = 9;

/// An envelope as a mathematical value.
#[verifier::ext_equal]
pub enum Envelope {
    Request { call_id: u64, method: Seq<char>, args: Seq<Seq<u8>> },
    Response { call_id: u64, result: Seq<u8> },
    Error { call_id: u64, code: Seq<char>, message: Seq<char> },
}

/// The envelope can be put on the wire: every field is short enough for
/// the four bytes that announce its length, and so is the number of
/// arguments.
pub open spec fn encodable(envelope: Envelope) -> bool {
    match envelope {
        Envelope::Request { call_id, method, args } => {
            &&& encode_utf8(method).len() <= MAX_PAYLOAD
            &&& args.len() <= MAX_PAYLOAD
            &&& frames_fit(args)
        },
        Envelope::Response { call_id, result } => result.len() <= MAX_PAYLOAD,
        Envelope::Error { call_id, code, message } => {
            &&& encode_utf8(code).len() <= MAX_PAYLOAD
            &&& encode_utf8(message).len() <= MAX_PAYLOAD
        },
    }
}

/// What every envelope starts with.
pub open spec fn prefix_bytes(tag: u8, call_id: u64) -> Seq<u8> {
    seq![tag] + spec_u64_to_le_bytes(call_id)
}

/// The body of a request on the wire.
pub open spec fn request_body(method: Seq<char>, args: Seq<Seq<u8>>) -> Seq<u8> {
    frame_bytes(encode_utf8(method)) + (spec_u32_to_le_bytes(args.len() as u32) + stream_bytes(
        args,
    ))
}

/// The body of an error on the wire.
pub open spec fn error_body(code: Seq<char>, message: Seq<char>) -> Seq<u8> {
    frame_bytes(encode_utf8(code)) + frame_bytes(encode_utf8(message))
}

/// The envelope on the wire.
pub open spec fn encoding(envelope: Envelope) -> Seq<u8> {
    match envelope {
        Envelope::Request { call_id, method, args } => prefix_bytes(TAG_REQUEST, call_id)
            + request_body(method, args),
        Envelope::Response { call_id, result } => prefix_bytes(TAG_RESPONSE, call_id)
            + frame_bytes(result),
        Envelope::Error { call_id, code, message } => prefix_bytes(TAG_ERROR, call_id)
            + error_body(code, message),
    }
}

/// Reads the body of a request: the method, the count, the arguments, and
/// nothing after them.
pub open spec fn request_of(call_id: u64, body: Seq<u8>) -> Option<Envelope> {
    if !has_frame(body) || !valid_utf8(first_payload(body)) {
        None
    } else if after_frame(body).len() < 4 {
        None
    } else {
        let count = spec_u32_from_le_bytes(after_frame(body).subrange(0, 4));
        match parse_stream(after_frame(body).skip(4), count as nat) {
            Some(args) => Some(
                Envelope::Request { call_id, method: decode_utf8(first_payload(body)), args },
            ),
            None => None,
        }
    }
}

/// Reads the body of a response: the result, and nothing after it.
pub open spec fn response_of(call_id: u64, body: Seq<u8>) -> Option<Envelope> {
    if !has_frame(body) || after_frame(body).len() != 0 {
        None
    } else {
        Some(Envelope::Response { call_id, result: first_payload(body) })
    }
}

/// Reads the body of an error: the code, the message, and nothing after
/// them.
pub open spec fn error_of(call_id: u64, body: Seq<u8>) -> Option<Envelope> {
    if !has_frame(body) || !valid_utf8(first_payload(body)) {
        None
    } else {
        let rest = after_frame(body);
        if !has_frame(rest) || !valid_utf8(first_payload(rest)) || after_frame(rest).len() != 0 {
            None
        } else {
            Some(
                Envelope::Error {
                    call_id,
                    code: decode_utf8(first_payload(body)),
                    message: decode_utf8(first_payload(rest)),
                },
            )
        }
    }
}

/// Reads an envelope off the wire; `None` for bytes that are no envelope.
pub open spec fn decoding(bytes: Seq<u8>) -> Option<Envelope> {
    if bytes.len() < PREFIX_SIZE {
        None
    } else {
        let call_id = spec_u64_from_le_bytes(bytes.subrange(1, PREFIX_SIZE as int));
        let body = bytes.skip(PREFIX_SIZE as int);
        if bytes[0] == TAG_REQUEST {
            request_of(call_id, body)
        } else if bytes[0] == TAG_RESPONSE {
            response_of(call_id, body)
        } else if bytes[0] == TAG_ERROR {
            error_of(call_id, body)
        } else {
            None
        }
    }
}

/// The prefix of an encoding gives the tag and the call identifier back,
/// and the body follows it.
proof fn lemma_prefix(tag: u8, call_id: u64, body: Seq<u8>)
    ensures
        (prefix_bytes(tag, call_id) + body).len() == PREFIX_SIZE + body.len(),
        (prefix_bytes(tag, call_id) + body)[0] == tag,
        spec_u64_from_le_bytes((prefix_bytes(tag, call_id) + body).subrange(1, PREFIX_SIZE as int))
            == call_id,
        (prefix_bytes(tag, call_id) + body).skip(PREFIX_SIZE as int) == body,
{
    lemma_auto_spec_u64_to_from_le_bytes();
    let all = prefix_bytes(tag, call_id) + body;
    assert(spec_u64_to_le_bytes(call_id).len() == 8);
    assert(all.subrange(1, PREFIX_SIZE as int) =~= spec_u64_to_le_bytes(call_id));
    assert(all.skip(PREFIX_SIZE as int) =~= body);
}

/// Round trip: what was encoded decodes to the same envelope.
pub proof fn lemma_decoding_of_encoding(envelope: Envelope)
    requires
        encodable(envelope),
    ensures
        decoding(encoding(envelope)) == Some(envelope),
{
    broadcast use encode_utf8_valid_utf8, encode_utf8_decode_utf8;

    lemma_auto_spec_u32_to_from_le_bytes();
    match envelope {
        Envelope::Request { call_id, method, args } => {
            let body = request_body(method, args);
            lemma_prefix(TAG_REQUEST, call_id, body);
            let count = spec_u32_to_le_bytes(args.len() as u32);
            let tail = count + stream_bytes(args);
            lemma_frame_head(encode_utf8(method), tail);
            assert(count.len() == 4);
            assert(tail.subrange(0, 4) =~= count);
            assert(tail.skip(4) =~= stream_bytes(args));
            lemma_parse_stream_of_stream(args);
        },
        Envelope::Response { call_id, result } => {
            let body = frame_bytes(result);
            lemma_prefix(TAG_RESPONSE, call_id, body);
            lemma_frame_head(result, Seq::empty());
            assert(body + Seq::<u8>::empty() =~= body);
        },
        Envelope::Error { call_id, code, message } => {
            let body = error_body(code, message);
            lemma_prefix(TAG_ERROR, call_id, body);
            lemma_frame_head(encode_utf8(code), frame_bytes(encode_utf8(message)));
            lemma_frame_head(encode_utf8(message), Seq::empty());
            assert(frame_bytes(encode_utf8(message)) + Seq::<u8>::empty() =~= frame_bytes(
                encode_utf8(message),
            ));
        },
    }
}

/// Bytes that decode are the encoding of what they decode to, and of
/// nothing else that can be encoded.
pub proof fn lemma_encoding_of_decoding(bytes: Seq<u8>)
    requires
        decoding(bytes) is Some,
    ensures
        encodable(decoding(bytes)->0),
        encoding(decoding(bytes)->0) == bytes,
{
    broadcast use decode_utf8_encode_utf8;

    lemma_auto_spec_u32_to_from_le_bytes();
    lemma_auto_spec_u64_to_from_le_bytes();
    let call_id = spec_u64_from_le_bytes(bytes.subrange(1, PREFIX_SIZE as int));
    let body = bytes.skip(PREFIX_SIZE as int);
    let envelope = decoding(bytes)->0;
    assert(spec_u64_to_le_bytes(call_id) == bytes.subrange(1, PREFIX_SIZE as int));
    assert(bytes =~= prefix_bytes(bytes[0], call_id) + body);
    lemma_frame_rebuild(body);
    let rest = after_frame(body);
    if bytes[0] == TAG_REQUEST {
        let count = spec_u32_from_le_bytes(rest.subrange(0, 4));
        lemma_stream_of_parse_stream(rest.skip(4), count as nat);
        assert(spec_u32_to_le_bytes(count) == rest.subrange(0, 4));
        assert(rest =~= rest.subrange(0, 4) + rest.skip(4));
    } else if bytes[0] == TAG_RESPONSE {
        assert(rest =~= Seq::<u8>::empty());
        assert(frame_bytes(first_payload(body)) + rest =~= frame_bytes(first_payload(body)));
    } else {
        lemma_frame_rebuild(rest);
        assert(after_frame(rest) =~= Seq::<u8>::empty());
        assert(frame_bytes(first_payload(rest)) + after_frame(rest) =~= frame_bytes(
            first_payload(rest),
        ));
    }
}

/// Bytes that do not decode are the encoding of no envelope.
pub proof fn lemma_no_encoding(bytes: Seq<u8>)
    requires
        decoding(bytes) is None,
    ensures
        forall|envelope: Envelope| encodable(envelope) ==> #[trigger] encoding(envelope) != bytes,
{
    assert forall|envelope: Envelope| encodable(envelope) implies #[trigger] encoding(envelope)
        != bytes by {
        lemma_decoding_of_encoding(envelope);
    }
}

/// No two envelopes share an encoding.
pub proof fn lemma_encoding_is_injective(a: Envelope, b: Envelope)
    requires
        encodable(a),
        encodable(b),
        encoding(a) == encoding(b),
    ensures
        a == b,
{
    lemma_decoding_of_encoding(a);
    lemma_decoding_of_encoding(b);
}

/// An envelope as the program holds it.
#[derive(Debug, PartialEq, Eq)]
pub enum Message {
    Request { call_id: u64, method: String, args: Vec<Vec<u8>> },
    Response { call_id: u64, result: Vec<u8> },
    Error { call_id: u64, code: String, message: String },
}

impl View for Message {
    type V = Envelope;

    open spec fn view(&self) -> Envelope {
        match self {
            Message::Request { call_id, method, args } => Envelope::Request {
                call_id: *call_id,
                method: method@,
                args: payloads(args@),
            },
            Message::Response { call_id, result } => Envelope::Response {
                call_id: *call_id,
                result: result@,
            },
            Message::Error { call_id, code, message } => Envelope::Error {
                call_id: *call_id,
                code: code@,
                message: message@,
            },
        }
    }
}

/// The call identifier of an envelope.
pub open spec fn call_id_of(envelope: Envelope) -> u64 {
    match envelope {
        Envelope::Request { call_id, .. } => call_id,
        Envelope::Response { call_id, .. } => call_id,
        Envelope::Error { call_id, .. } => call_id,
    }
}

impl Message {
    /// The call identifier that the envelope carries.
    pub fn call_id(&self) -> (id: u64)
        ensures
            id == call_id_of(self@),
    {
        match self {
            Message::Request { call_id, .. } => *call_id,
            Message::Response { call_id, .. } => *call_id,
            Message::Error { call_id, .. } => *call_id,
        }
    }
}

/// Turns bytes into text where they are UTF-8.
///
/// Trusted: this is `String::from_utf8` of the standard library, which
/// succeeds exactly on valid UTF-8 and then holds the text that the bytes
/// encode.
#[verifier::external_body]
fn string_from_utf8(bytes: Vec<u8>) -> (text: Option<String>)
    ensures
        text is Some <==> valid_utf8(bytes@),
        text matches Some(s) ==> s@ == decode_utf8(bytes@),
{
    String::from_utf8(bytes).ok()
}

/// Starts an encoding with the tag and the call identifier.
fn start_envelope(tag: u8, call_id: u64) -> (out: Vec<u8>)
    ensures
        out@ == prefix_bytes(tag, call_id),
{
    let mut out: Vec<u8> = Vec::new();
    out.push(tag);
    put_u64(&mut out, call_id);
    assert(out@ =~= prefix_bytes(tag, call_id));
    out
}

/// Every argument is short enough for its header.
fn args_fit(args: &Vec<Vec<u8>>) -> (fit: bool)
    ensures
        fit == frames_fit(payloads(args@)),
{
    let mut i: usize = 0;
    while i < args.len()
        invariant
            i <= args.len(),
            forall|j: int| 0 <= j < i ==> (#[trigger] payloads(args@)[j]).len() <= MAX_PAYLOAD,
        decreases args.len() - i,
    {
        if args[i].len() > MAX_PAYLOAD {
            assert(payloads(args@)[i as int].len() > MAX_PAYLOAD);
            return false;
        }
        i += 1;
    }
    true
}

/// The request that a call of `method` with `args` is sent as.
pub open spec fn call_envelope(
    call_id: u64,
    method: Seq<char>,
    args: Seq<serde_json::Value>,
) -> Envelope {
    Envelope::Request { call_id, method, args: encoded(args) }
}

/// The response that `result` is sent as.
pub open spec fn response_envelope(call_id: u64, result: serde_json::Value) -> Envelope {
    Envelope::Response { call_id, result: msgpack_bytes(result)->0 }
}

/// The call that `data` holds: the identifier, the method and the
/// arguments, where `data` is the encoding of a request and every argument
/// of it the encoding of a value.
pub open spec fn call_in(data: Seq<u8>) -> Option<(u64, Seq<char>, Seq<serde_json::Value>)> {
    match decoding(data) {
        Some(Envelope::Request { call_id, method, args }) => if all_decode(args) {
            Some((call_id, method, decoded(args)))
        } else {
            None
        },
        _ => None,
    }
}

/// A call reads back as it was written, where each of its arguments does.
pub proof fn lemma_call_round_trip(call_id: u64, method: Seq<char>, args: Seq<serde_json::Value>)
    requires
        all_encode(args),
        encodable(call_envelope(call_id, method, args)),
        forall|i: int|
            0 <= i < args.len() ==> msgpack_value(#[trigger] msgpack_bytes(args[i])->0) == Some(
                args[i],
            ),
    ensures
        call_in(encoding(call_envelope(call_id, method, args))) == Some((call_id, method, args)),
{
    lemma_decoding_of_encoding(call_envelope(call_id, method, args));
    assert(decoded(encoded(args)) =~= args);
}

/// Encodes a call of `method` with `args` under `call_id`.
///
/// Fails, with a serialization error, exactly when an argument has no
/// encoding or a field is too long to be announced: the method name or an
/// encoded argument of more than 2^32 - 1 bytes, or more than 2^32 - 1
/// arguments.
pub fn serialize_call(call_id: u64, method: &str, args: Vec<serde_json::Value>) -> (r: Result<
    Vec<u8>,
    IpcError,
>)
    ensures
        match r {
            Ok(bytes) => {
                &&& all_encode(args@)
                &&& encodable(call_envelope(call_id, method@, args@))
                &&& bytes@ == encoding(call_envelope(call_id, method@, args@))
            },
            Err(e) => {
                &&& !all_encode(args@) || !encodable(call_envelope(call_id, method@, args@))
                &&& e is Serialization
            },
        },
{
    match encode_values(&args) {
        Ok(items) => encode_request(call_id, method, &items),
        Err(e) => Err(e),
    }
}

/// Encodes a request whose arguments are encoded already.
///
/// Fails, with a serialization error, exactly when a field is too long to
/// be announced: the method name or an argument of more than 2^32 - 1
/// bytes, or more than 2^32 - 1 arguments.
pub fn encode_request(call_id: u64, method: &str, args: &Vec<Vec<u8>>) -> (r: Result<
    Vec<u8>,
    IpcError,
>)
    ensures
        match r {
            Ok(bytes) => {
                &&& encodable(
                    Envelope::Request { call_id, method: method@, args: payloads(args@) },
                )
                &&& bytes@ == encoding(
                    Envelope::Request { call_id, method: method@, args: payloads(args@) },
                )
            },
            Err(e) => {
                &&& !encodable(
                    Envelope::Request { call_id, method: method@, args: payloads(args@) },
                )
                &&& e is Serialization
            },
        },
{
    let name = method.as_bytes();
    if name.len() > MAX_PAYLOAD {
        return Err(IpcError::Serialization("method name is too long".to_string()));
    }
    if args.len() > MAX_PAYLOAD {
        return Err(IpcError::Serialization("too many arguments".to_string()));
    }
    if !args_fit(args) {
        return Err(IpcError::Serialization("argument is too long".to_string()));
    }
    let mut out = start_envelope(TAG_REQUEST, call_id);
    put_frame(&mut out, name);
    put_u32(&mut out, args.len() as u32);
    let ghost head = out@;
    let ghost all = payloads(args@);
    let mut i: usize = 0;
    assert(stream_bytes(all.take(0)) =~= Seq::<u8>::empty());
    while i < args.len()
        invariant
            i <= args.len(),
            all == payloads(args@),
            frames_fit(all),
            out@ == head + stream_bytes(all.take(i as int)),
        decreases args.len() - i,
    {
        proof {
            lemma_stream_push(all.take(i as int), all[i as int]);
            assert(all.take(i as int).push(all[i as int]) =~= all.take(i + 1));
        }
        put_frame(&mut out, args[i].as_slice());
        i += 1;
    }
    assert(all.take(args.len() as int) =~= all);
    assert(out@ =~= encoding(
        Envelope::Request { call_id, method: method@, args: payloads(args@) },
    ));
    Ok(out)
}

/// Encodes the response to call `call_id`.
///
/// Fails, with a serialization error, exactly when the result has no
/// encoding, or one of more than 2^32 - 1 bytes.
pub fn serialize_response(call_id: u64, result: serde_json::Value) -> (r: Result<Vec<u8>, IpcError>)
    ensures
        match r {
            Ok(bytes) => {
                &&& msgpack_bytes(result) is Some
                &&& encodable(response_envelope(call_id, result))
                &&& bytes@ == encoding(response_envelope(call_id, result))
            },
            Err(e) => {
                &&& msgpack_bytes(result) is None || !encodable(response_envelope(call_id, result))
                &&& e is Serialization
            },
        },
{
    match encode_value(&result) {
        Ok(bytes) => encode_response(call_id, &bytes),
        Err(e) => Err(e),
    }
}

/// Encodes a response whose result is encoded already.
///
/// Fails, with a serialization error, exactly when the result is longer
/// than 2^32 - 1 bytes.
pub fn encode_response(call_id: u64, result: &Vec<u8>) -> (r: Result<Vec<u8>, IpcError>)
    ensures
        match r {
            Ok(bytes) => {
                &&& encodable(Envelope::Response { call_id, result: result@ })
                &&& bytes@ == encoding(Envelope::Response { call_id, result: result@ })
            },
            Err(e) => {
                &&& !encodable(Envelope::Response { call_id, result: result@ })
                &&& e is Serialization
            },
        },
{
    if result.len() > MAX_PAYLOAD {
        return Err(IpcError::Serialization("result is too long".to_string()));
    }
    let mut out = start_envelope(TAG_RESPONSE, call_id);
    put_frame(&mut out, result.as_slice());
    Ok(out)
}

/// Encodes an error for call `call_id`.
///
/// Fails, with a serialization error, exactly when the code or the message
/// is longer than 2^32 - 1 bytes.
pub fn serialize_error(call_id: u64, code: &str, message: &str) -> (r: Result<Vec<u8>, IpcError>)
    ensures
        match r {
            Ok(bytes) => {
                &&& encodable(Envelope::Error { call_id, code: code@, message: message@ })
                &&& bytes@ == encoding(Envelope::Error { call_id, code: code@, message: message@ })
            },
            Err(e) => {
                &&& !encodable(Envelope::Error { call_id, code: code@, message: message@ })
                &&& e is Serialization
            },
        },
{
    let code_bytes = code.as_bytes();
    let message_bytes = message.as_bytes();
    if code_bytes.len() > MAX_PAYLOAD {
        return Err(IpcError::Serialization("error code is too long".to_string()));
    }
    if message_bytes.len() > MAX_PAYLOAD {
        return Err(IpcError::Serialization("error message is too long".to_string()));
    }
    let mut out = start_envelope(TAG_ERROR, call_id);
    put_frame(&mut out, code_bytes);
    put_frame(&mut out, message_bytes);
    assert(out@ =~= encoding(Envelope::Error { call_id, code: code@, message: message@ }));
    Ok(out)
}

/// Encodes any envelope.
pub fn encode(message: &Message) -> (r: Result<Vec<u8>, IpcError>)
    ensures
        match r {
            Ok(bytes) => encodable(message@) && bytes@ == encoding(message@),
            Err(e) => !encodable(message@) && e is Serialization,
        },
{
    match message {
        Message::Request { call_id, method, args } => encode_request(
            *call_id,
            method.as_str(),
            args,
        ),
        Message::Response { call_id, result } => encode_response(*call_id, result),
        Message::Error { call_id, code, message } => serialize_error(
            *call_id,
            code.as_str(),
            message.as_str(),
        ),
    }
}

/// Takes the frame at `pos` off `data`: its payload, and where the next
/// field starts.
fn take_bytes(data: &[u8], pos: usize) -> (r: Option<(Vec<u8>, usize)>)
    requires
        pos <= data.len(),
    ensures
        r is Some <==> has_frame(data@.skip(pos as int)),
        r matches Some((bytes, next)) ==> {
            &&& bytes@ == first_payload(data@.skip(pos as int))
            &&& pos <= next <= data.len()
            &&& data@.skip(next as int) == after_frame(data@.skip(pos as int))
        },
{
    match frame_end(data, pos) {
        None => None,
        Some(end) => {
            let bytes = slice_to_vec(slice_subrange(data, pos + HEADER_SIZE, end));
            proof {
                let tail = data@.skip(pos as int);
                assert(bytes@ =~= first_payload(tail));
                assert(data@.skip(end as int) =~= after_frame(tail));
            }
            Some((bytes, end))
        },
    }
}

/// Takes the frame at `pos` off `data` as text.
fn take_text(data: &[u8], pos: usize) -> (r: Option<(String, usize)>)
    requires
        pos <= data.len(),
    ensures
        r is Some <==> has_frame(data@.skip(pos as int)) && valid_utf8(
            first_payload(data@.skip(pos as int)),
        ),
        r matches Some((text, next)) ==> {
            &&& text@ == decode_utf8(first_payload(data@.skip(pos as int)))
            &&& pos <= next <= data.len()
            &&& data@.skip(next as int) == after_frame(data@.skip(pos as int))
        },
{
    match take_bytes(data, pos) {
        None => None,
        Some((bytes, next)) => match string_from_utf8(bytes) {
            None => None,
            Some(text) => Some((text, next)),
        },
    }
}

/// What is reported for bytes that are no envelope.
fn malformed(what: &str) -> (e: IpcError)
    ensures
        e is Deserialization,
{
    IpcError::Deserialization(what.to_string())
}

/// Decodes the body of a request, which starts at `PREFIX_SIZE`.
fn decode_request(call_id: u64, data: &[u8]) -> (r: Result<Message, IpcError>)
    requires
        PREFIX_SIZE <= data.len(),
    ensures
        match r {
            Ok(message) => request_of(call_id, data@.skip(PREFIX_SIZE as int)) == Some(message@),
            Err(e) => request_of(call_id, data@.skip(PREFIX_SIZE as int)) is None
                && e is Deserialization,
        },
{
    let ghost body = data@.skip(PREFIX_SIZE as int);
    let (method, after_method) = match take_text(data, PREFIX_SIZE) {
        None => { return Err(malformed("request without a method name")); },
        Some(found) => found,
    };
    if data.len() - after_method < 4 {
        return Err(malformed("request without an argument count"));
    }
    let count = get_u32(data, after_method);
    let start = after_method + 4;
    proof {
        assert(data@.subrange(after_method as int, after_method + 4) =~= after_frame(
            body,
        ).subrange(0, 4));
        assert(data@.skip(start as int) =~= after_frame(body).skip(4));
    }
    let ghost whole = parse_stream(data@.skip(start as int), count as nat);
    let mut args: Vec<Vec<u8>> = Vec::new();
    let mut pos = start;
    let mut i: u32 = 0;
    assert(Seq::<Seq<u8>>::empty() + parse_stream(data@.skip(pos as int), count as nat)->0
        =~= parse_stream(data@.skip(pos as int), count as nat)->0);
    while i < count
        invariant
            i <= count,
            pos <= data.len(),
            PREFIX_SIZE <= data.len(),
            body == data@.skip(PREFIX_SIZE as int),
            has_frame(body),
            valid_utf8(first_payload(body)),
            after_frame(body).len() >= 4,
            count == spec_u32_from_le_bytes(after_frame(body).subrange(0, 4)),
            whole == parse_stream(after_frame(body).skip(4), count as nat),
            whole == (match parse_stream(data@.skip(pos as int), (count - i) as nat) {
                Some(rest) => Some(payloads(args@) + rest),
                None => None,
            }),
        decreases count - i,
    {
        let ghost tail = data@.skip(pos as int);
        let ghost before = payloads(args@);
        match take_bytes(data, pos) {
            None => {
                proof {
                    assert(parse_stream(tail, (count - i) as nat) is None);
                    assert(whole is None);
                }
                return Err(malformed("request with fewer arguments than announced"));
            },
            Some((arg, next)) => {
                args.push(arg);
                proof {
                    let later = parse_stream(after_frame(tail), (count - i - 1) as nat);
                    assert(payloads(args@) =~= before.push(first_payload(tail)));
                    if later is Some {
                        assert(before + (seq![first_payload(tail)] + later->0) =~= before.push(
                            first_payload(tail),
                        ) + later->0);
                    }
                }
                pos = next;
                i += 1;
            },
        }
    }
    if pos != data.len() {
        return Err(malformed("request with bytes after its arguments"));
    }
    proof {
        assert(data@.skip(pos as int).len() == 0);
        assert(payloads(args@) + Seq::<Seq<u8>>::empty() =~= payloads(args@));
    }
    Ok(Message::Request { call_id, method, args })
}

/// Decodes the body of a response, which starts at `PREFIX_SIZE`.
fn decode_response(call_id: u64, data: &[u8]) -> (r: Result<Message, IpcError>)
    requires
        PREFIX_SIZE <= data.len(),
    ensures
        match r {
            Ok(message) => response_of(call_id, data@.skip(PREFIX_SIZE as int)) == Some(message@),
            Err(e) => response_of(call_id, data@.skip(PREFIX_SIZE as int)) is None
                && e is Deserialization,
        },
{
    match take_bytes(data, PREFIX_SIZE) {
        None => Err(malformed("response without a result")),
        Some((result, next)) => {
            if next != data.len() {
                return Err(malformed("response with bytes after its result"));
            }
            Ok(Message::Response { call_id, result })
        },
    }
}

/// Decodes the body of an error, which starts at `PREFIX_SIZE`.
fn decode_error(call_id: u64, data: &[u8]) -> (r: Result<Message, IpcError>)
    requires
        PREFIX_SIZE <= data.len(),
    ensures
        match r {
            Ok(message) => error_of(call_id, data@.skip(PREFIX_SIZE as int)) == Some(message@),
            Err(e) => error_of(call_id, data@.skip(PREFIX_SIZE as int)) is None
                && e is Deserialization,
        },
{
    let (code, after_code) = match take_text(data, PREFIX_SIZE) {
        None => { return Err(malformed("error without a code")); },
        Some(found) => found,
    };
    let (message, end) = match take_text(data, after_code) {
        None => { return Err(malformed("error without a message")); },
        Some(found) => found,
    };
    if end != data.len() {
        return Err(malformed("error with bytes after its message"));
    }
    Ok(Message::Error { call_id, code, message })
}

/// Decodes an envelope.
///
/// Succeeds exactly on the bytes that are the encoding of an envelope, and
/// returns that envelope; on all other bytes it fails with a
/// deserialization error.
pub fn decode(data: &[u8]) -> (r: Result<Message, IpcError>)
    ensures
        match r {
            Ok(message) => {
                &&& decoding(data@) == Some(message@)
                &&& encodable(message@)
                &&& encoding(message@) == data@
            },
            Err(e) => {
                &&& decoding(data@) is None
                &&& forall|envelope: Envelope|
                    encodable(envelope) ==> #[trigger] encoding(envelope) != data@
                &&& e is Deserialization
            },
        },
{
    if data.len() < PREFIX_SIZE {
        proof {
            lemma_no_encoding(data@);
        }
        return Err(malformed("envelope is shorter than its prefix"));
    }
    let tag = data[0];
    let call_id = get_u64(data, 1);
    let r = if tag == TAG_REQUEST {
        decode_request(call_id, data)
    } else if tag == TAG_RESPONSE {
        decode_response(call_id, data)
    } else if tag == TAG_ERROR {
        decode_error(call_id, data)
    } else {
        Err(malformed("envelope of an unknown kind"))
    };
    proof {
        if r is Ok {
            lemma_encoding_of_decoding(data@);
        } else {
            lemma_no_encoding(data@);
        }
    }
    r
}

/// Decodes a call: the identifier, the method and the arguments.
///
/// Fails with a deserialization error on bytes that are no envelope, on a
/// response or an error, and on a request with an argument that is not
/// the encoding of a value.
pub fn deserialize_call(data: &[u8]) -> (r: Result<(u64, String, Vec<serde_json::Value>), IpcError>)
    ensures
        match r {
            Ok((call_id, method, args)) => call_in(data@) == Some((call_id, method@, args@)),
            Err(e) => call_in(data@) is None && e is Deserialization,
        },
{
    match decode(data) {
        Ok(Message::Request { call_id, method, args }) => match decode_values(&args) {
            Ok(values) => Ok((call_id, method, values)),
            Err(e) => Err(e),
        },
        Ok(_) => Err(malformed("Expected request message")),
        Err(e) => Err(e),
    }
}

} // verus!
