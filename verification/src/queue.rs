//! The queue as a mathematical value: a capacity and the payloads that are
//! queued, oldest first. The contracts of the ring buffer say what a write
//! and a read do to this value; the laws of the queue are proved of it.

use crate::error::IpcError;
use crate::framing::{frames_fit, stream_len, HEADER_SIZE, MAX_PAYLOAD};
use vstd::prelude::*;

verus! {

/// A buffer of `capacity` bytes that holds `queue` has room for one more
/// frame with this payload.
pub open spec fn has_room(capacity: int, queue: Seq<Seq<u8>>, payload: Seq<u8>) -> bool {
    HEADER_SIZE + payload.len() <= capacity - stream_len(queue)
}

/// A write of `payload` succeeds: there is room for the frame, and the
/// header can announce the payload's length.
pub open spec fn accepts(capacity: int, queue: Seq<Seq<u8>>, payload: Seq<u8>) -> bool {
    has_room(capacity, queue, payload) && payload.len() <= MAX_PAYLOAD
}

/// The error that a refused write returns.
pub open spec fn refusal(capacity: int, queue: Seq<Seq<u8>>, payload: Seq<u8>) -> IpcError {
    if !has_room(capacity, queue, payload) {
        IpcError::RingBufferFull(capacity as usize)
    } else {
        IpcError::MessageTooLarge { size: payload.len() as usize, max: MAX_PAYLOAD }
    }
}

/// The queue after a write of `payload` was tried.
pub open spec fn after_write(capacity: int, queue: Seq<Seq<u8>>, payload: Seq<u8>) -> Seq<Seq<u8>> {
    if accepts(capacity, queue, payload) {
        queue.push(payload)
    } else {
        queue
    }
}

/// The queue after writes of `payloads` were tried one after the other.
pub open spec fn after_writes(capacity: int, queue: Seq<Seq<u8>>, payloads: Seq<Seq<u8>>) -> Seq<
    Seq<u8>,
>
    decreases payloads.len(),
{
    if payloads.len() == 0 {
        queue
    } else {
        after_writes(
            capacity,
            after_write(capacity, queue, payloads.first()),
            payloads.drop_first(),
        )
    }
}

/// What a read returns: the oldest payload, or nothing from an empty
/// queue.
pub open spec fn read_result(queue: Seq<Seq<u8>>) -> Option<Seq<u8>> {
    if queue.len() > 0 {
        Some(queue.first())
    } else {
        None
    }
}

/// The queue after a read was tried.
pub open spec fn after_read(queue: Seq<Seq<u8>>) -> Seq<Seq<u8>> {
    if queue.len() > 0 {
        queue.drop_first()
    } else {
        queue
    }
}

/// The queue after `count` reads were tried one after the other.
pub open spec fn after_reads(queue: Seq<Seq<u8>>, count: nat) -> Seq<Seq<u8>>
    decreases count,
{
    if count == 0 {
        queue
    } else {
        after_reads(after_read(queue), (count - 1) as nat)
    }
}

/// Frames laid end to end are as long as their parts together.
pub proof fn lemma_stream_len_add(a: Seq<Seq<u8>>, b: Seq<Seq<u8>>)
    ensures
        stream_len(a + b) == stream_len(a) + stream_len(b),
    decreases a.len(),
{
    if a.len() == 0 {
        assert(a + b =~= b);
    } else {
        assert((a + b).first() == a.first());
        assert((a + b).drop_first() =~= a.drop_first() + b);
        lemma_stream_len_add(a.drop_first(), b);
    }
}

/// Writes that fit together are all accepted, in their order.
pub proof fn lemma_writes_accepted(capacity: int, queue: Seq<Seq<u8>>, payloads: Seq<Seq<u8>>)
    requires
        frames_fit(payloads),
        stream_len(queue) + stream_len(payloads) <= capacity,
    ensures
        after_writes(capacity, queue, payloads) == queue + payloads,
    decreases payloads.len(),
{
    if payloads.len() == 0 {
        assert(queue + payloads =~= queue);
    } else {
        let first = payloads.first();
        let rest = payloads.drop_first();
        assert(first.len() <= MAX_PAYLOAD);
        assert forall|i: int| 0 <= i < rest.len() implies (#[trigger] rest[i]).len()
            <= MAX_PAYLOAD by {
            assert(rest[i] == payloads[i + 1]);
        }
        assert(accepts(capacity, queue, first));
        assert(queue.push(first) =~= queue + seq![first]);
        lemma_stream_len_add(queue, seq![first]);
        assert(seq![first].drop_first() =~= Seq::<Seq<u8>>::empty());
        assert(stream_len(seq![first]) == HEADER_SIZE + first.len()) by {
            reveal_with_fuel(stream_len, 2);
        }
        lemma_writes_accepted(capacity, queue.push(first), rest);
        assert(queue.push(first) + rest =~= queue + payloads);
    }
}

/// After `count` reads the queue has lost its `count` oldest payloads.
pub proof fn lemma_reads_skip(queue: Seq<Seq<u8>>, count: nat)
    requires
        count <= queue.len(),
    ensures
        after_reads(queue, count) == queue.skip(count as int),
    decreases count,
{
    if count == 0 {
        assert(queue.skip(0) =~= queue);
    } else {
        lemma_reads_skip(queue.drop_first(), (count - 1) as nat);
        assert(queue.drop_first().skip(count - 1) =~= queue.skip(count as int));
    }
}

/// First in, first out. When the frames of `payloads` fit together into a
/// buffer that holds `queue`, every write of them is accepted; reads then
/// return what was queued and what was written, each payload byte for
/// byte, in the order of writing, and leave the buffer empty.
pub proof fn lemma_fifo(capacity: int, queue: Seq<Seq<u8>>, payloads: Seq<Seq<u8>>)
    requires
        frames_fit(payloads),
        stream_len(queue) + stream_len(payloads) <= capacity,
    ensures
        after_writes(capacity, queue, payloads) == queue + payloads,
        forall|k: int|
            0 <= k < (queue + payloads).len() ==> read_result(
                #[trigger] after_reads(after_writes(capacity, queue, payloads), k as nat),
            ) == Some((queue + payloads)[k]),
        after_reads(after_writes(capacity, queue, payloads), (queue + payloads).len())
            == Seq::<Seq<u8>>::empty(),
{
    lemma_writes_accepted(capacity, queue, payloads);
    let all = queue + payloads;
    assert forall|k: int| 0 <= k < all.len() implies read_result(
        #[trigger] after_reads(all, k as nat),
    ) == Some(all[k]) by {
        lemma_reads_skip(all, k as nat);
    }
    lemma_reads_skip(all, all.len());
    assert(all.skip(all.len() as int) =~= Seq::<Seq<u8>>::empty());
}

/// A payload of `len` bytes can be sent through a buffer of `capacity`
/// bytes, if only when the buffer is empty: its frame is no longer than the
/// data region, and its length no more than a header can announce.
pub open spec fn can_ever_fit(capacity: int, len: int) -> bool {
    HEADER_SIZE + len <= capacity && len <= MAX_PAYLOAD
}

/// The longest payload that a buffer of `capacity` bytes can ever take,
/// or 0 where it can take none.
pub open spec fn largest_payload(capacity: int) -> int {
    if capacity < HEADER_SIZE {
        0
    } else if capacity - HEADER_SIZE < MAX_PAYLOAD {
        capacity - HEADER_SIZE
    } else {
        MAX_PAYLOAD as int
    }
}

/// The error of a send that did not go through: too large for a payload
/// that the buffer can never take, full for one that only has to wait.
pub open spec fn send_refusal(capacity: int, queue: Seq<Seq<u8>>, payload: Seq<u8>) -> IpcError {
    if !can_ever_fit(capacity, payload.len() as int) {
        IpcError::MessageTooLarge {
            size: payload.len() as usize,
            max: largest_payload(capacity) as usize,
        }
    } else {
        IpcError::RingBufferFull(capacity as usize)
    }
}

} // verus!
