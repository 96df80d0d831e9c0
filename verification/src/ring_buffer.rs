//! The framed byte queue over a segment: one producer appends frames, one
//! consumer takes them off in the order in which they were written.
//!
//! The segment starts with the control block: the producer's counter and
//! the consumer's counter, each at the start of a cache line of its own.
//! The data region follows; its size is the capacity, a power of two. A
//! frame is stored at the offset that the write counter falls on, and goes
//! round to the start of the region where it does not fit before its end.

use crate::error::IpcError;
use crate::framing::{
    frames_fit, get_u64, lemma_frame_head, lemma_frame_len, lemma_frame_rebuild,
    lemma_stream_is_injective, lemma_stream_len, lemma_stream_push, lemma_stream_rest_has_frame,
    stream_bytes, stream_len,
    HEADER_SIZE, MAX_PAYLOAD,
};
use crate::position::{
    advance, check_power_of_two, is_power_of_two, lemma_used_after_read, lemma_used_after_write,
    used_bytes,
};
use crate::queue::{
    accepts, after_read, after_write, can_ever_fit, largest_payload, read_result, refusal,
    send_refusal,
};
use crate::region::{pending, read_frame, write_frame};
use crate::shm::SharedMemory;
use vstd::bytes::*;
use vstd::prelude::*;
use vstd::slice::slice_subrange;

verus! {

/// Offset of the producer's counter in the segment.
pub const WRITE_POS_OFFSET: usize = 0;

/// Offset of the consumer's counter in the segment: one cache line after
/// the producer's, so that the two sides do not contend for a line.
pub const READ_POS_OFFSET: usize = 64;

/// Offset of the data region in the segment.
pub const DATA_OFFSET: usize = 128;

/// The producer's counter as the segment holds it.
pub open spec fn stored_write_pos(segment: Seq<u8>) -> u64 {
    spec_u64_from_le_bytes(segment.subrange(WRITE_POS_OFFSET as int, WRITE_POS_OFFSET + 8))
}

/// The consumer's counter as the segment holds it.
pub open spec fn stored_read_pos(segment: Seq<u8>) -> u64 {
    spec_u64_from_le_bytes(segment.subrange(READ_POS_OFFSET as int, READ_POS_OFFSET + 8))
}

/// The data region of the segment.
pub open spec fn data_region(segment: Seq<u8>) -> Seq<u8> {
    segment.subrange(DATA_OFFSET as int, segment.len() as int)
}

/// The segment holds a consistent buffer of `capacity` bytes with `queue`
/// in it: the capacity is a power of two, the segment is the control block
/// and a data region of that size, the counters are no further apart than
/// the capacity, and the bytes between them are the frames of `queue`,
/// each payload behind its length.
pub open spec fn is_ring_image(segment: Seq<u8>, capacity: int, queue: Seq<Seq<u8>>) -> bool {
    &&& segment.len() == DATA_OFFSET + capacity
    &&& is_power_of_two(capacity)
    &&& used_bytes(stored_read_pos(segment), stored_write_pos(segment)) <= capacity
    &&& pending(data_region(segment), stored_read_pos(segment), stored_write_pos(segment))
        == stream_bytes(queue)
    &&& frames_fit(queue)
}

/// A segment holds at most one queue.
pub proof fn lemma_ring_image_is_unique(
    segment: Seq<u8>,
    capacity: int,
    a: Seq<Seq<u8>>,
    b: Seq<Seq<u8>>,
)
    requires
        is_ring_image(segment, capacity, a),
        is_ring_image(segment, capacity, b),
    ensures
        a == b,
{
    lemma_stream_is_injective(a, b);
}

/// Stores `value` in the eight bytes at `offset`, in little-endian order.
fn store_u64(control: &mut [u8], offset: usize, value: u64)
    requires
        offset + 8 <= old(control).len(),
    ensures
        final(control)@.len() == old(control)@.len(),
        final(control)@.subrange(offset as int, offset + 8) == spec_u64_to_le_bytes(value),
        forall|j: int|
            0 <= j < old(control)@.len() && !(offset <= j < offset + 8) ==> final(control)@[j]
                == old(control)@[j],
{
    let bytes = u64_to_le_bytes(value);
    let mut i: usize = 0;
    while i < 8
        invariant
            i <= 8,
            bytes@.len() == 8,
            control.len() == old(control).len(),
            offset + 8 <= control.len(),
            forall|j: int| offset <= j < offset + i ==> control@[j] == bytes@[j - offset],
            forall|j: int|
                0 <= j < control@.len() && !(offset <= j < offset + i) ==> control@[j] == old(
                    control,
                )@[j],
        decreases 8 - i,
    {
        control[offset + i] = bytes[i];
        i += 1;
    }
    assert(control@.subrange(offset as int, offset + 8) =~= bytes@);
}

/// How full a buffer is: `used` of `capacity` bytes.
#[derive(Clone, Copy, Debug, PartialEq, Eq)]
pub struct Utilization {
    /// Bytes written and not yet read.
    pub used: usize,
    /// Bytes in the data region.
    pub capacity: usize,
}

/// A framed byte queue over one segment, for one producer and one
/// consumer.
///
/// The segment starts with the two counters, each on a cache line of its
/// own, and the data region follows them.
pub struct RingBuffer {
    shm: SharedMemory,
    capacity: usize,
    queue: Ghost<Seq<Seq<u8>>>,
}

impl RingBuffer {
    /// The payloads that are queued, oldest first.
    pub closed spec fn view(&self) -> Seq<Seq<u8>> {
        self.queue@
    }

    /// The size of the data region in bytes.
    pub closed spec fn spec_capacity(&self) -> int {
        self.capacity as int
    }

    /// The bytes of the segment that the buffer lies in.
    pub closed spec fn segment(&self) -> Seq<u8> {
        self.shm@
    }

    /// The producer's counter: how many bytes were ever written, modulo
    /// 2^64.
    pub open spec fn write_position(&self) -> u64 {
        stored_write_pos(self.segment())
    }

    /// The consumer's counter: how many bytes were ever read, modulo 2^64.
    pub open spec fn read_position(&self) -> u64 {
        stored_read_pos(self.segment())
    }

    /// The name of the segment.
    pub closed spec fn spec_name(&self) -> Seq<char> {
        self.shm.spec_name()
    }

    /// Bytes that the queued frames take, headers included.
    pub open spec fn used(&self) -> int {
        stream_len(self@) as int
    }

    /// The buffer is consistent: its segment holds its queue.
    pub open spec fn wf(&self) -> bool {
        is_ring_image(self.segment(), self.spec_capacity(), self@)
    }

    /// In a consistent buffer the counters are as far apart as the queued
    /// frames are long, and that is no more than the capacity.
    pub proof fn lemma_used(&self)
        requires
            self.wf(),
        ensures
            self.used() == used_bytes(self.read_position(), self.write_position()),
            0 <= self.used() <= self.spec_capacity(),
            is_power_of_two(self.spec_capacity()),
            frames_fit(self@),
    {
        lemma_stream_len(self.queue@);
    }

    /// Lays an empty queue of `capacity` bytes over a new segment. The
    /// capacity must be a power of two, and small enough for the segment
    /// to hold the counters too.
    pub fn create(name: &str, capacity: usize) -> (r: Result<RingBuffer, IpcError>)
        ensures
            match r {
                Ok(rb) => {
                    &&& is_power_of_two(capacity as int)
                    &&& capacity <= usize::MAX - DATA_OFFSET
                    &&& rb.wf()
                    &&& rb@ == Seq::<Seq<u8>>::empty()
                    &&& rb.spec_capacity() == capacity
                    &&& rb.spec_name() == name@
                    &&& rb.write_position() == 0
                    &&& rb.read_position() == 0
                },
                Err(e) => {
                    &&& !is_power_of_two(capacity as int) || capacity > usize::MAX - DATA_OFFSET
                    &&& e is SharedMemory
                },
            },
    {
        if !check_power_of_two(capacity) {
            return Err(
                IpcError::SharedMemory("Ring buffer capacity must be power of 2".to_string()),
            );
        }
        if capacity > usize::MAX - DATA_OFFSET {
            return Err(
                IpcError::SharedMemory(
                    "Ring buffer capacity leaves no room for the counters".to_string(),
                ),
            );
        }
        let total_size = DATA_OFFSET + capacity;
        let mut shm = match SharedMemory::create(name, total_size) {
            Ok(shm) => shm,
            Err(e) => { return Err(e); },
        };
        let ghost zeroed = shm@;
        let segment = shm.as_slice_mut();
        store_u64(segment, WRITE_POS_OFFSET, 0);
        store_u64(segment, READ_POS_OFFSET, 0);
        let rb = RingBuffer { shm, capacity, queue: Ghost(Seq::empty()) };
        proof {
            assert(forall|i: int| 0 <= i < zeroed.len() ==> zeroed[i] == 0u8);
            lemma_auto_spec_u64_to_from_le_bytes();
            assert(spec_u64_to_le_bytes(0).len() == 8);
            assert(rb.shm@.len() == zeroed.len());
            assert(rb.shm@.subrange(WRITE_POS_OFFSET as int, WRITE_POS_OFFSET + 8)
                =~= spec_u64_to_le_bytes(0));
            assert(rb.shm@.subrange(READ_POS_OFFSET as int, READ_POS_OFFSET + 8)
                =~= spec_u64_to_le_bytes(0));
            assert(rb.write_position() == 0);
            assert(rb.read_position() == 0);
            assert(used_bytes(0, 0) == 0);
            assert(pending(data_region(rb.shm@), 0, 0) =~= stream_bytes(rb.queue@));
        }
        Ok(rb)
    }

    /// Tries to append `data` as one frame, without blocking.
    ///
    /// The frame goes in whole or not at all. It is refused as full when
    /// the header and the payload together are longer than what is free,
    /// whether or not they could ever fit.
    pub fn try_write(&mut self, data: &[u8]) -> (r: Result<(), IpcError>)
        requires
            old(self).wf(),
        ensures
            final(self).wf(),
            final(self).spec_capacity() == old(self).spec_capacity(),
            final(self).spec_name() == old(self).spec_name(),
            final(self).read_position() == old(self).read_position(),
            r is Ok <==> accepts(old(self).spec_capacity(), old(self)@, data@),
            r matches Err(e) ==> e == refusal(old(self).spec_capacity(), old(self)@, data@),
            final(self)@ == after_write(old(self).spec_capacity(), old(self)@, data@),
            final(self).write_position() == (if r is Ok {
                advance(old(self).write_position(), HEADER_SIZE + data@.len())
            } else {
                old(self).write_position()
            }),
    {
        proof {
            old(self).lemma_used();
        }
        let ghost before = self.shm@;
        let write_pos = get_u64(self.shm.as_slice(), WRITE_POS_OFFSET);
        let read_pos = get_u64(self.shm.as_slice(), READ_POS_OFFSET);
        let segment = self.shm.as_slice_mut();
        let (control, region) = segment.split_at_mut(DATA_OFFSET);
        assert(region@ =~= data_region(before));
        match write_frame(region, write_pos, read_pos, data) {
            Ok(new_write_pos) => {
                store_u64(control, WRITE_POS_OFFSET, new_write_pos);
                self.queue = Ghost(self.queue@.push(data@));
                proof {
                    let after = self.shm@;
                    lemma_auto_spec_u64_to_from_le_bytes();
                    assert(spec_u64_to_le_bytes(new_write_pos).len() == 8);
                    assert(after.subrange(WRITE_POS_OFFSET as int, WRITE_POS_OFFSET + 8)
                        =~= spec_u64_to_le_bytes(new_write_pos));
                    assert(after.subrange(READ_POS_OFFSET as int, READ_POS_OFFSET + 8)
                        =~= before.subrange(READ_POS_OFFSET as int, READ_POS_OFFSET + 8));
                    assert(data_region(after) =~= region@);
                    lemma_stream_push(old(self).queue@, data@);
                    lemma_used_after_write(read_pos, write_pos, HEADER_SIZE + data@.len());
                }
                Ok(())
            },
            Err(e) => {
                proof {
                    assert(self.shm@ =~= before);
                }
                Err(e)
            },
        }
    }

    /// Tries to take the oldest frame off the queue, without blocking.
    ///
    /// The payload is copied out in at most two pieces, so a frame that
    /// goes round the end of the data region comes back whole.
    pub fn try_read(&mut self) -> (r: Result<Vec<u8>, IpcError>)
        requires
            old(self).wf(),
        ensures
            final(self).wf(),
            final(self).spec_capacity() == old(self).spec_capacity(),
            final(self).spec_name() == old(self).spec_name(),
            final(self).write_position() == old(self).write_position(),
            match r {
                Ok(payload) => {
                    &&& read_result(old(self)@) == Some(payload@)
                    &&& final(self).read_position() == advance(
                        old(self).read_position(),
                        HEADER_SIZE + payload@.len(),
                    )
                },
                Err(e) => {
                    &&& read_result(old(self)@) is None
                    &&& e == IpcError::RingBufferEmpty
                    &&& final(self).read_position() == old(self).read_position()
                },
            },
            final(self)@ == after_read(old(self)@),
    {
        proof {
            old(self).lemma_used();
        }
        let ghost before = self.shm@;
        let ghost queued = self.queue@;
        let write_pos = get_u64(self.shm.as_slice(), WRITE_POS_OFFSET);
        let read_pos = get_u64(self.shm.as_slice(), READ_POS_OFFSET);
        proof {
            if queued.len() > 0 {
                assert(queued.first().len() <= MAX_PAYLOAD);
                lemma_frame_head(queued.first(), stream_bytes(queued.drop_first()));
                lemma_frame_len(queued.first());
            }
        }
        let segment = self.shm.as_slice_mut();
        let (control, region) = segment.split_at_mut(DATA_OFFSET);
        assert(region@ =~= data_region(before));
        match read_frame(region, write_pos, read_pos) {
            Ok((payload, new_read_pos)) => {
                store_u64(control, READ_POS_OFFSET, new_read_pos);
                self.queue = Ghost(self.queue@.drop_first());
                proof {
                    let after = self.shm@;
                    lemma_auto_spec_u64_to_from_le_bytes();
                    assert(spec_u64_to_le_bytes(new_read_pos).len() == 8);
                    assert(after.subrange(READ_POS_OFFSET as int, READ_POS_OFFSET + 8)
                        =~= spec_u64_to_le_bytes(new_read_pos));
                    assert(after.subrange(WRITE_POS_OFFSET as int, WRITE_POS_OFFSET + 8)
                        =~= before.subrange(WRITE_POS_OFFSET as int, WRITE_POS_OFFSET + 8));
                    assert(data_region(after) =~= data_region(before));
                    lemma_used_after_read(read_pos, write_pos, HEADER_SIZE + payload@.len());
                    assert forall|i: int| 0 <= i < queued.drop_first().len() implies (
                    #[trigger] queued.drop_first()[i]).len() <= MAX_PAYLOAD by {
                        assert(queued.drop_first()[i] == queued[i + 1]);
                    }
                }
                Ok(payload)
            },
            Err(e) => {
                proof {
                    assert(self.shm@ =~= before);
                }
                Err(e)
            },
        }
    }

    /// Bytes that are free for the next frame, its header included.
    pub fn available(&self) -> (free: usize)
        requires
            self.wf(),
        ensures
            free == self.spec_capacity() - self.used(),
            free == self.spec_capacity() - used_bytes(self.read_position(), self.write_position()),
    {
        proof {
            self.lemma_used();
        }
        let write_pos = get_u64(self.shm.as_slice(), WRITE_POS_OFFSET);
        let read_pos = get_u64(self.shm.as_slice(), READ_POS_OFFSET);
        let used = write_pos.wrapping_sub(read_pos);
        assert(used as int == used_bytes(read_pos, write_pos));
        self.capacity - used as usize
    }

    /// How full the buffer is, as the exact fraction of bytes used over
    /// capacity; it is 0 of the capacity once everything was read.
    pub fn utilization(&self) -> (u: Utilization)
        requires
            self.wf(),
        ensures
            u.used == self.used(),
            u.used == used_bytes(self.read_position(), self.write_position()),
            u.capacity == self.spec_capacity(),
            u.used <= u.capacity,
            u.used == 0 <==> self@.len() == 0,
    {
        proof {
            self.lemma_used();
            if self@.len() > 0 {
                lemma_frame_len(self@.first());
            }
        }
        let write_pos = get_u64(self.shm.as_slice(), WRITE_POS_OFFSET);
        let read_pos = get_u64(self.shm.as_slice(), READ_POS_OFFSET);
        let used = write_pos.wrapping_sub(read_pos);
        assert(used as int == used_bytes(read_pos, write_pos));
        Utilization { used: used as usize, capacity: self.capacity }
    }

    /// The size of the data region in bytes.
    pub fn capacity(&self) -> (capacity: usize)
        ensures
            capacity == self.spec_capacity(),
    {
        self.capacity
    }

    /// The name of the segment that the buffer lies in.
    pub fn name(&self) -> (name: &str)
        ensures
            name@ == self.spec_name(),
    {
        self.shm.name()
    }

    /// Tells apart the payload that can never be sent from the one that
    /// only has to wait: a payload of `len` bytes is too large when its
    /// frame is longer than the whole data region, or its length more than
    /// a header can announce.
    pub fn check_size(&self, len: usize) -> (r: Result<(), IpcError>)
        ensures
            r is Ok <==> can_ever_fit(self.spec_capacity(), len as int),
            r matches Err(e) ==> e == (IpcError::MessageTooLarge {
                size: len,
                max: largest_payload(self.spec_capacity()) as usize,
            }),
    {
        let max = if self.capacity < HEADER_SIZE {
            0
        } else if self.capacity - HEADER_SIZE < MAX_PAYLOAD {
            self.capacity - HEADER_SIZE
        } else {
            MAX_PAYLOAD
        };
        if self.capacity >= HEADER_SIZE && len <= max {
            Ok(())
        } else {
            Err(IpcError::MessageTooLarge { size: len, max })
        }
    }

    /// Appends `data` as one frame like [`RingBuffer::try_write`], but says
    /// of a payload that is refused whether it can never be sent, or only
    /// not now.
    pub fn send(&mut self, data: &[u8]) -> (r: Result<(), IpcError>)
        requires
            old(self).wf(),
        ensures
            final(self).wf(),
            final(self).spec_capacity() == old(self).spec_capacity(),
            final(self).spec_name() == old(self).spec_name(),
            final(self).read_position() == old(self).read_position(),
            r is Ok <==> accepts(old(self).spec_capacity(), old(self)@, data@),
            r matches Err(e) ==> e == send_refusal(old(self).spec_capacity(), old(self)@, data@),
            final(self)@ == after_write(old(self).spec_capacity(), old(self)@, data@),
            final(self).write_position() == (if r is Ok {
                advance(old(self).write_position(), HEADER_SIZE + data@.len())
            } else {
                old(self).write_position()
            }),
    {
        match self.check_size(data.len()) {
            Ok(()) => self.try_write(data),
            Err(e) => Err(e),
        }
    }

    /// Lays a buffer of `capacity` bytes over a segment that already holds
    /// one, and takes the queue as it is found there: the counters are not
    /// reset.
    ///
    /// Fails, with a shared memory error, exactly when the segment holds
    /// no consistent buffer of that capacity: when the capacity is no
    /// power of two, the segment is not the control block and a data
    /// region of that size, the counters are further apart than the
    /// capacity, or the bytes between them are not whole frames.
    pub fn open(shm: SharedMemory, capacity: usize) -> (r: Result<RingBuffer, IpcError>)
        ensures
            match r {
                Ok(rb) => {
                    &&& rb.wf()
                    &&& rb.segment() == shm@
                    &&& rb.spec_capacity() == capacity
                    &&& rb.spec_name() == shm.spec_name()
                },
                Err(e) => {
                    &&& forall|queue: Seq<Seq<u8>>|
                        !#[trigger] is_ring_image(shm@, capacity as int, queue)
                    &&& e is SharedMemory
                },
            },
    {
        if !check_power_of_two(capacity) {
            return Err(
                IpcError::SharedMemory("Ring buffer capacity must be power of 2".to_string()),
            );
        }
        let size = shm.size();
        if capacity > usize::MAX - DATA_OFFSET || size != DATA_OFFSET + capacity {
            assert(shm@.len() != DATA_OFFSET + capacity);
            return Err(
                IpcError::SharedMemory("segment is not of the size of the ring buffer".to_string()),
            );
        }
        let write_pos = get_u64(shm.as_slice(), WRITE_POS_OFFSET);
        let read_pos = get_u64(shm.as_slice(), READ_POS_OFFSET);
        let used = write_pos.wrapping_sub(read_pos);
        assert(used as int == used_bytes(read_pos, write_pos));
        if used > capacity as u64 {
            return Err(
                IpcError::SharedMemory(
                    "ring counters are further apart than the capacity".to_string(),
                ),
            );
        }
        let region = slice_subrange(shm.as_slice(), DATA_OFFSET, size);
        assert(region@ =~= data_region(shm@));
        let ghost all = pending(region@, read_pos, write_pos);
        let ghost mut parsed: Seq<Seq<u8>> = Seq::empty();
        let mut pos = read_pos;
        assert(stream_bytes(parsed) + pending(region@, pos, write_pos) =~= all);
        loop
            invariant
                is_power_of_two(region.len() as int),
                region.len() == capacity,
                region@ == data_region(shm@),
                shm@.len() == DATA_OFFSET + capacity,
                read_pos == stored_read_pos(shm@),
                write_pos == stored_write_pos(shm@),
                used_bytes(read_pos, write_pos) <= capacity,
                all == pending(region@, read_pos, write_pos),
                used_bytes(pos, write_pos) <= region.len(),
                frames_fit(parsed),
                stream_bytes(parsed) + pending(region@, pos, write_pos) == all,
            decreases used_bytes(pos, write_pos),
        {
            let ghost rest = pending(region@, pos, write_pos);
            match read_frame(region, write_pos, pos) {
                Ok((payload, next)) => {
                    proof {
                        lemma_frame_rebuild(rest);
                        lemma_frame_len(payload@);
                        lemma_stream_push(parsed, payload@);
                        lemma_used_after_read(pos, write_pos, HEADER_SIZE + payload@.len());
                        assert(stream_bytes(parsed.push(payload@)) + pending(
                            region@,
                            next,
                            write_pos,
                        ) =~= stream_bytes(parsed) + rest);
                        parsed = parsed.push(payload@);
                    }
                    pos = next;
                },
                Err(IpcError::RingBufferEmpty) => {
                    proof {
                        assert(rest =~= Seq::<u8>::empty());
                        assert(stream_bytes(parsed) =~= all);
                    }
                    return Ok(RingBuffer { shm, capacity, queue: Ghost(parsed) });
                },
                Err(_) => {
                    proof {
                        assert forall|queue: Seq<Seq<u8>>|
                            !#[trigger] is_ring_image(shm@, capacity as int, queue) by {
                            if is_ring_image(shm@, capacity as int, queue) {
                                lemma_stream_rest_has_frame(parsed, rest, queue);
                            }
                        }
                    }
                    return Err(
                        IpcError::SharedMemory("ring holds a frame that is not whole".to_string()),
                    );
                },
            }
        }
    }

    /// Gives the segment up, with the queue as it stands in it; the buffer
    /// can be laid over it again with [`RingBuffer::open`].
    pub fn into_shared_memory(self) -> (shm: SharedMemory)
        ensures
            shm@ == self.segment(),
            shm.spec_name() == self.spec_name(),
    {
        self.shm
    }

    /// The producer's counter: how many bytes were ever written, modulo
    /// 2^64.
    pub fn write_pos(&self) -> (pos: u64)
        requires
            self.wf(),
        ensures
            pos == self.write_position(),
    {
        get_u64(self.shm.as_slice(), WRITE_POS_OFFSET)
    }

    /// The consumer's counter: how many bytes were ever read, modulo 2^64.
    pub fn read_pos(&self) -> (pos: u64)
        requires
            self.wf(),
        ensures
            pos == self.read_position(),
    {
        get_u64(self.shm.as_slice(), READ_POS_OFFSET)
    }
}

} // verus!
