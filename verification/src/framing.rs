//! Length-prefixed frames: a 32-bit little-endian length, then that many
//! payload bytes. The ring buffer queues such frames; the envelope codec
//! uses the same shape for each of its variable-length fields.

use vstd::bytes::*;
use vstd::prelude::*;
use vstd::slice::slice_subrange;

verus! {

/// Bytes taken by the length that precedes every payload.
pub const HEADER_SIZE: usize = 4;

/// The longest payload whose length a header can announce.
pub const MAX_PAYLOAD: usize = 0xFFFF_FFFF;

/// A payload as it is stored: its length in four bytes, then the payload.
pub open spec fn frame_bytes(payload: Seq<u8>) -> Seq<u8> {
    spec_u32_to_le_bytes(payload.len() as u32) + payload
}

/// Several frames laid end to end, the first of `frames` first.
pub open spec fn stream_bytes(frames: Seq<Seq<u8>>) -> Seq<u8>
    decreases frames.len(),
{
    if frames.len() == 0 {
        Seq::empty()
    } else {
        frame_bytes(frames.first()) + stream_bytes(frames.drop_first())
    }
}

/// The byte strings that a list of byte vectors holds.
pub open spec fn payloads(items: Seq<Vec<u8>>) -> Seq<Seq<u8>> {
    items.map_values(|item: Vec<u8>| item@)
}

/// Every payload is short enough for its header.
pub open spec fn frames_fit(frames: Seq<Seq<u8>>) -> bool {
    forall|i: int| 0 <= i < frames.len() ==> (#[trigger] frames[i]).len() <= MAX_PAYLOAD
}

/// The payload length that the first four bytes announce.
pub open spec fn announced_len(bytes: Seq<u8>) -> int
    recommends
        bytes.len() >= HEADER_SIZE,
{
    spec_u32_from_le_bytes(bytes.subrange(0, HEADER_SIZE as int)) as int
}

/// A whole frame stands at the start of `bytes`.
pub open spec fn has_frame(bytes: Seq<u8>) -> bool {
    bytes.len() >= HEADER_SIZE && HEADER_SIZE + announced_len(bytes) <= bytes.len()
}

/// The payload of the frame at the start of `bytes`.
pub open spec fn first_payload(bytes: Seq<u8>) -> Seq<u8>
    recommends
        has_frame(bytes),
{
    bytes.subrange(HEADER_SIZE as int, HEADER_SIZE + announced_len(bytes))
}

/// What follows the frame at the start of `bytes`.
pub open spec fn after_frame(bytes: Seq<u8>) -> Seq<u8>
    recommends
        has_frame(bytes),
{
    bytes.subrange(HEADER_SIZE + announced_len(bytes), bytes.len() as int)
}

/// A stored frame is four bytes longer than its payload.
pub proof fn lemma_frame_len(payload: Seq<u8>)
    ensures
        frame_bytes(payload).len() == HEADER_SIZE + payload.len(),
{
    lemma_auto_spec_u32_to_from_le_bytes();
}

/// Reading a frame that was just laid down gives the payload back, and
/// leaves exactly what followed it.
pub proof fn lemma_frame_head(payload: Seq<u8>, rest: Seq<u8>)
    requires
        payload.len() <= MAX_PAYLOAD,
    ensures
        has_frame(frame_bytes(payload) + rest),
        announced_len(frame_bytes(payload) + rest) == payload.len(),
        first_payload(frame_bytes(payload) + rest) == payload,
        after_frame(frame_bytes(payload) + rest) == rest,
{
    lemma_auto_spec_u32_to_from_le_bytes();
    let header = spec_u32_to_le_bytes(payload.len() as u32);
    let all = frame_bytes(payload) + rest;
    assert(all.subrange(0, HEADER_SIZE as int) =~= header);
    assert(first_payload(all) =~= payload);
    assert(after_frame(all) =~= rest);
}

/// A byte string that starts with a whole frame is that frame followed by
/// the rest.
pub proof fn lemma_frame_rebuild(bytes: Seq<u8>)
    requires
        has_frame(bytes),
    ensures
        first_payload(bytes).len() == announced_len(bytes),
        first_payload(bytes).len() <= MAX_PAYLOAD,
        bytes == frame_bytes(first_payload(bytes)) + after_frame(bytes),
{
    lemma_auto_spec_u32_to_from_le_bytes();
    let header = bytes.subrange(0, HEADER_SIZE as int);
    assert(spec_u32_to_le_bytes(spec_u32_from_le_bytes(header)) == header);
    assert(bytes =~= frame_bytes(first_payload(bytes)) + after_frame(bytes));
}

/// Appending a frame to a stream appends its bytes.
pub proof fn lemma_stream_push(frames: Seq<Seq<u8>>, payload: Seq<u8>)
    ensures
        stream_bytes(frames.push(payload)) == stream_bytes(frames) + frame_bytes(payload),
    decreases frames.len(),
{
    if frames.len() == 0 {
        let single = frames.push(payload);
        assert(single.first() == payload);
        assert(single.drop_first() =~= Seq::<Seq<u8>>::empty());
        assert(stream_bytes(single.drop_first()) =~= Seq::<u8>::empty());
        assert(stream_bytes(single) =~= frame_bytes(payload));
        assert(stream_bytes(frames) + frame_bytes(payload) =~= frame_bytes(payload));
    } else {
        let longer = frames.push(payload);
        assert(longer.first() == frames.first());
        assert(longer.drop_first() =~= frames.drop_first().push(payload));
        lemma_stream_push(frames.drop_first(), payload);
        assert(stream_bytes(longer) =~= stream_bytes(frames) + frame_bytes(payload));
    }
}

/// The length of a stream is the sum of the lengths of its frames.
pub open spec fn stream_len(frames: Seq<Seq<u8>>) -> nat
    decreases frames.len(),
{
    if frames.len() == 0 {
        0
    } else {
        (HEADER_SIZE + frames.first().len() + stream_len(frames.drop_first())) as nat
    }
}

/// `stream_len` is the length of `stream_bytes`.
pub proof fn lemma_stream_len(frames: Seq<Seq<u8>>)
    ensures
        stream_bytes(frames).len() == stream_len(frames),
    decreases frames.len(),
{
    if frames.len() > 0 {
        lemma_frame_len(frames.first());
        lemma_stream_len(frames.drop_first());
    }
}

/// Splits `bytes` into exactly `count` frames, if that is what they are:
/// `count` whole frames and nothing after them.
pub open spec fn parse_stream(bytes: Seq<u8>, count: nat) -> Option<Seq<Seq<u8>>>
    decreases count,
{
    if count == 0 {
        if bytes.len() == 0 {
            Some(Seq::empty())
        } else {
            None
        }
    } else if !has_frame(bytes) {
        None
    } else {
        match parse_stream(after_frame(bytes), (count - 1) as nat) {
            Some(rest) => Some(seq![first_payload(bytes)] + rest),
            None => None,
        }
    }
}

/// Frames that were laid end to end split into the same frames again.
pub proof fn lemma_parse_stream_of_stream(frames: Seq<Seq<u8>>)
    requires
        frames_fit(frames),
    ensures
        parse_stream(stream_bytes(frames), frames.len()) == Some(frames),
    decreases frames.len(),
{
    if frames.len() > 0 {
        let first = frames.first();
        let rest = frames.drop_first();
        assert(first.len() <= MAX_PAYLOAD);
        assert forall|i: int| 0 <= i < rest.len() implies (#[trigger] rest[i]).len()
            <= MAX_PAYLOAD by {
            assert(rest[i] == frames[i + 1]);
        }
        lemma_frame_head(first, stream_bytes(rest));
        lemma_parse_stream_of_stream(rest);
        assert(seq![first] + rest =~= frames);
    }
}

/// Bytes that split into frames are those frames laid end to end.
pub proof fn lemma_stream_of_parse_stream(bytes: Seq<u8>, count: nat)
    requires
        parse_stream(bytes, count) is Some,
    ensures
        parse_stream(bytes, count)->0.len() == count,
        frames_fit(parse_stream(bytes, count)->0),
        stream_bytes(parse_stream(bytes, count)->0) == bytes,
    decreases count,
{
    let frames = parse_stream(bytes, count)->0;
    if count == 0 {
        assert(bytes =~= Seq::<u8>::empty());
    } else {
        let rest = parse_stream(after_frame(bytes), (count - 1) as nat)->0;
        lemma_stream_of_parse_stream(after_frame(bytes), (count - 1) as nat);
        lemma_frame_rebuild(bytes);
        assert(frames.first() == first_payload(bytes));
        assert(frames.drop_first() =~= rest);
        assert forall|i: int| 0 <= i < frames.len() implies (#[trigger] frames[i]).len()
            <= MAX_PAYLOAD by {
            if i > 0 {
                assert(frames[i] == rest[i - 1]);
            }
        }
    }
}

/// No two sequences of frames lie end to end as the same bytes.
pub proof fn lemma_stream_is_injective(a: Seq<Seq<u8>>, b: Seq<Seq<u8>>)
    requires
        frames_fit(a),
        frames_fit(b),
        stream_bytes(a) == stream_bytes(b),
    ensures
        a == b,
    decreases a.len(),
{
    lemma_stream_len(a);
    lemma_stream_len(b);
    if a.len() == 0 || b.len() == 0 {
        if a.len() > 0 {
            lemma_frame_len(a.first());
        }
        if b.len() > 0 {
            lemma_frame_len(b.first());
        }
        assert(a =~= b);
    } else {
        assert(a.first().len() <= MAX_PAYLOAD);
        assert(b.first().len() <= MAX_PAYLOAD);
        lemma_frame_head(a.first(), stream_bytes(a.drop_first()));
        lemma_frame_head(b.first(), stream_bytes(b.drop_first()));
        assert forall|i: int| 0 <= i < a.drop_first().len() implies (
        #[trigger] a.drop_first()[i]).len() <= MAX_PAYLOAD by {
            assert(a.drop_first()[i] == a[i + 1]);
        }
        assert forall|i: int| 0 <= i < b.drop_first().len() implies (
        #[trigger] b.drop_first()[i]).len() <= MAX_PAYLOAD by {
            assert(b.drop_first()[i] == b[i + 1]);
        }
        lemma_stream_is_injective(a.drop_first(), b.drop_first());
        assert(a =~= seq![a.first()] + a.drop_first());
        assert(b =~= seq![b.first()] + b.drop_first());
    }
}

/// Where a stream of frames starts with the frames of `head`, what follows
/// them is the stream of the remaining frames.
pub proof fn lemma_stream_prefix(head: Seq<Seq<u8>>, rest: Seq<u8>, all: Seq<Seq<u8>>)
    requires
        frames_fit(head),
        frames_fit(all),
        stream_bytes(head) + rest == stream_bytes(all),
    ensures
        head.len() <= all.len(),
        rest == stream_bytes(all.skip(head.len() as int)),
    decreases head.len(),
{
    if head.len() == 0 {
        assert(stream_bytes(head) + rest =~= rest);
        assert(all.skip(0) =~= all);
    } else {
        let first = head.first();
        let tail = stream_bytes(head.drop_first()) + rest;
        assert(first.len() <= MAX_PAYLOAD);
        assert(stream_bytes(head) + rest =~= frame_bytes(first) + tail);
        lemma_frame_head(first, tail);
        lemma_frame_len(first);
        if all.len() == 0 {
            assert(stream_bytes(all).len() == 0);
            assert(false);
        }
        assert(all.first().len() <= MAX_PAYLOAD);
        lemma_frame_head(all.first(), stream_bytes(all.drop_first()));
        assert(first == all.first());
        assert(tail == stream_bytes(all.drop_first()));
        assert forall|i: int| 0 <= i < head.drop_first().len() implies (
        #[trigger] head.drop_first()[i]).len() <= MAX_PAYLOAD by {
            assert(head.drop_first()[i] == head[i + 1]);
        }
        assert forall|i: int| 0 <= i < all.drop_first().len() implies (
        #[trigger] all.drop_first()[i]).len() <= MAX_PAYLOAD by {
            assert(all.drop_first()[i] == all[i + 1]);
        }
        lemma_stream_prefix(head.drop_first(), rest, all.drop_first());
        assert(all.drop_first().skip(head.len() - 1) =~= all.skip(head.len() as int));
    }
}

/// Bytes that follow whole frames of a stream and do not start with a
/// whole frame themselves are the end of the stream: nothing.
pub proof fn lemma_stream_rest_has_frame(head: Seq<Seq<u8>>, rest: Seq<u8>, all: Seq<Seq<u8>>)
    requires
        frames_fit(head),
        frames_fit(all),
        stream_bytes(head) + rest == stream_bytes(all),
        rest.len() > 0,
    ensures
        has_frame(rest),
{
    lemma_stream_prefix(head, rest, all);
    let later = all.skip(head.len() as int);
    if later.len() == 0 {
        assert(stream_bytes(later).len() == 0);
    } else {
        assert(later.first() == all[head.len() as int]);
        assert(later.first().len() <= MAX_PAYLOAD);
        lemma_frame_head(later.first(), stream_bytes(later.drop_first()));
    }
}

/// Appends `x` in little-endian order.
pub(crate) fn put_u32(out: &mut Vec<u8>, x: u32)
    ensures
        final(out)@ == old(out)@ + spec_u32_to_le_bytes(x),
{
    let bytes = u32_to_le_bytes(x);
    out.extend_from_slice(bytes.as_slice());
    assert(out@ =~= old(out)@ + spec_u32_to_le_bytes(x));
}

/// Appends `x` in little-endian order.
pub(crate) fn put_u64(out: &mut Vec<u8>, x: u64)
    ensures
        final(out)@ == old(out)@ + spec_u64_to_le_bytes(x),
{
    let bytes = u64_to_le_bytes(x);
    out.extend_from_slice(bytes.as_slice());
    assert(out@ =~= old(out)@ + spec_u64_to_le_bytes(x));
}

/// Appends `payload` as a frame.
pub(crate) fn put_frame(out: &mut Vec<u8>, payload: &[u8])
    requires
        payload@.len() <= MAX_PAYLOAD,
    ensures
        final(out)@ == old(out)@ + frame_bytes(payload@),
{
    put_u32(out, payload.len() as u32);
    out.extend_from_slice(payload);
    assert(out@ =~= old(out)@ + frame_bytes(payload@));
}

/// The 32-bit little-endian number at `pos`.
pub(crate) fn get_u32(data: &[u8], pos: usize) -> (x: u32)
    requires
        pos + 4 <= data.len(),
    ensures
        x == spec_u32_from_le_bytes(data@.subrange(pos as int, pos + 4)),
{
    u32_from_le_bytes(slice_subrange(data, pos, pos + 4))
}

/// The 64-bit little-endian number at `pos`.
pub(crate) fn get_u64(data: &[u8], pos: usize) -> (x: u64)
    requires
        pos + 8 <= data.len(),
    ensures
        x == spec_u64_from_le_bytes(data@.subrange(pos as int, pos + 8)),
{
    u64_from_le_bytes(slice_subrange(data, pos, pos + 8))
}

/// Finds the frame that starts at `pos`: where its payload ends, if a whole
/// frame is there. The payload then lies from `pos + 4` to the result.
pub(crate) fn frame_end(data: &[u8], pos: usize) -> (end: Option<usize>)
    requires
        pos <= data.len(),
    ensures
        end is Some <==> has_frame(data@.skip(pos as int)),
        end matches Some(e) ==> e == pos + HEADER_SIZE + announced_len(data@.skip(pos as int)),
{
    let ghost tail = data@.skip(pos as int);
    if data.len() - pos < HEADER_SIZE {
        return None;
    }
    let len = get_u32(data, pos);
    assert(data@.subrange(pos as int, pos + 4) =~= tail.subrange(0, HEADER_SIZE as int));
    let room = data.len() - pos - HEADER_SIZE;
    if len as u64 > room as u64 {
        return None;
    }
    Some(pos + HEADER_SIZE + len as usize)
}

} // verus!
