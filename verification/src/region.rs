//! Frames in a data region: the two operations of the queue on plain
//! bytes and plain counters.
//!
//! [`write_frame`] and [`read_frame`] take the data region and the values
//! of the two counters, and hand the new value of the counter that moved
//! back. They hold no state of their own, so the same code serves a region
//! that the caller owns and one that is mapped from a segment whose
//! counters the caller loads and stores itself.

use crate::error::IpcError;
use crate::framing::{
    after_frame, announced_len, first_payload, frame_bytes, has_frame, HEADER_SIZE, MAX_PAYLOAD,
};
use crate::position::{
    advance, counter_modulus, is_power_of_two, lemma_offset_from_read, lemma_position_slot,
    lemma_used_after_read, lemma_used_after_write, slot, used_bytes,
};
use vstd::bytes::*;
use vstd::prelude::*;

verus! {

/// The bytes that were written and not yet read, oldest first. Byte `i` of
/// them is stored at offset `(read_pos + i) % capacity` of the data region.
pub open spec fn pending(data: Seq<u8>, read_pos: u64, write_pos: u64) -> Seq<u8> {
    Seq::new(
        used_bytes(read_pos, write_pos) as nat,
        |i: int| data[(read_pos + i) % (data.len() as int)],
    )
}

/// Offset `j` is one of the `len` offsets that follow `start`, going round.
pub open spec fn in_span(n: int, start: int, len: int, j: int) -> bool {
    if start + len <= n {
        start <= j < start + len
    } else {
        start <= j < n || 0 <= j < start + len - n
    }
}

/// How far offset `j` lies after `start`, going round.
pub open spec fn span_index(n: int, start: int, j: int) -> int {
    if j >= start {
        j - start
    } else {
        j + n - start
    }
}

/// `base` with `src` written over it from offset `start` on, going round.
pub open spec fn overlay(base: Seq<u8>, start: int, src: Seq<u8>) -> Seq<u8> {
    Seq::new(
        base.len(),
        |j: int|
            if in_span(base.len() as int, start, src.len() as int, j) {
                src[span_index(base.len() as int, start, j)]
            } else {
                base[j]
            },
    )
}

/// Writes `src` into the region from offset `start` on, in at most two
/// pieces: up to the end of the region, then from its beginning.
pub(crate) fn copy_in(data: &mut [u8], start: usize, src: &[u8])
    requires
        start < old(data).len(),
        src.len() <= old(data).len(),
    ensures
        final(data)@ == overlay(old(data)@, start as int, src@),
{
    let n = data.len();
    let len = src.len();
    let head = if len <= n - start { len } else { n - start };
    let mut i: usize = 0;
    while i < head
        invariant
            n == data.len(),
            n == old(data).len(),
            len == src.len(),
            start < n,
            head <= len,
            head <= n - start,
            i <= head,
            forall|j: int|
                0 <= j < n ==> data@[j] == (if start <= j < start + i {
                    src@[j - start]
                } else {
                    old(data)@[j]
                }),
        decreases head - i,
    {
        data[start + i] = src[i];
        i += 1;
    }
    let mut k: usize = head;
    while k < len
        invariant
            n == data.len(),
            n == old(data).len(),
            len == src.len(),
            len <= n,
            start < n,
            head <= len,
            head == (if len <= n - start { len } else { (n - start) as usize }),
            head <= k <= len,
            forall|j: int|
                0 <= j < n ==> data@[j] == (if start <= j < start + head {
                    src@[j - start]
                } else if j < k - head {
                    src@[j + head]
                } else {
                    old(data)@[j]
                }),
        decreases len - k,
    {
        data[k - head] = src[k];
        k += 1;
    }
    assert(data@ =~= overlay(old(data)@, start as int, src@));
}

/// Reads `len` bytes of the region from offset `start` on, in at most two
/// pieces: up to the end of the region, then from its beginning.
pub(crate) fn copy_out(data: &[u8], start: usize, len: usize) -> (out: Vec<u8>)
    requires
        start < data.len(),
        len <= data.len(),
    ensures
        out@ == Seq::new(len as nat, |i: int| data@[slot(data.len() as int, start as int, i)]),
{
    let n = data.len();
    let head = if len <= n - start { len } else { n - start };
    let mut out: Vec<u8> = Vec::with_capacity(len);
    let mut i: usize = 0;
    while i < head
        invariant
            n == data.len(),
            start < n,
            head <= n - start,
            i <= head,
            out@.len() == i,
            forall|j: int| 0 <= j < i ==> out@[j] == data@[start + j],
        decreases head - i,
    {
        out.push(data[start + i]);
        i += 1;
    }
    let mut k: usize = head;
    while k < len
        invariant
            n == data.len(),
            len <= n,
            start < n,
            head == (if len <= n - start { len } else { (n - start) as usize }),
            head <= k <= len,
            out@.len() == k,
            forall|j: int| 0 <= j < head ==> out@[j] == data@[start + j],
            forall|j: int| head <= j < k ==> out@[j] == data@[j - head],
        decreases len - k,
    {
        out.push(data[k - head]);
        k += 1;
    }
    assert(out@ =~= Seq::new(len as nat, |i: int| data@[slot(n as int, start as int, i)]));
    out
}

/// What is pending after a frame was laid down behind what was pending.
proof fn lemma_pending_after_write(
    before: Seq<u8>,
    read_pos: u64,
    write_pos: u64,
    header: Seq<u8>,
    payload: Seq<u8>,
    w_off: int,
    p_off: int,
    new_write_pos: u64,
)
    requires
        is_power_of_two(before.len() as int),
        before.len() < counter_modulus(),
        used_bytes(read_pos, write_pos) <= before.len(),
        header.len() == HEADER_SIZE,
        HEADER_SIZE + payload.len() <= before.len() - used_bytes(read_pos, write_pos),
        w_off == write_pos as int % (before.len() as int),
        p_off == slot(before.len() as int, w_off, HEADER_SIZE as int),
        new_write_pos == advance(write_pos, HEADER_SIZE + payload.len()),
    ensures
        pending(overlay(overlay(before, w_off, header), p_off, payload), read_pos, new_write_pos)
            == pending(before, read_pos, write_pos) + (header + payload),
{
    let n = before.len() as int;
    let u = used_bytes(read_pos, write_pos);
    let r = read_pos as int % n;
    let mid = overlay(before, w_off, header);
    let end = overlay(mid, p_off, payload);
    let old_pending = pending(before, read_pos, write_pos);
    let new_pending = pending(end, read_pos, new_write_pos);
    let len = payload.len() as int;
    assert(write_pos == advance(read_pos, u));
    lemma_offset_from_read(n, read_pos, write_pos, u, 0);
    assert(w_off == slot(n, r, u));
    lemma_used_after_write(read_pos, write_pos, HEADER_SIZE + len);
    assert(new_pending.len() == u + HEADER_SIZE + len);
    assert forall|i: int| 0 <= i < new_pending.len() implies new_pending[i] == (old_pending + (
        header + payload))[i] by {
        lemma_position_slot(n, read_pos as int, i);
        let j = slot(n, r, i);
        assert(new_pending[i] == end[j]);
        if i < u {
            assert(!in_span(n, w_off, HEADER_SIZE as int, j));
            assert(!in_span(n, p_off, len, j));
            assert(end[j] == mid[j]);
            assert(mid[j] == before[j]);
            assert(old_pending[i] == before[j]);
        } else if i < u + HEADER_SIZE {
            assert(in_span(n, w_off, HEADER_SIZE as int, j));
            assert(!in_span(n, p_off, len, j));
            assert(span_index(n, w_off, j) == i - u);
            assert(end[j] == mid[j]);
            assert(mid[j] == header[i - u]);
        } else {
            assert(in_span(n, p_off, len, j));
            assert(span_index(n, p_off, j) == i - u - HEADER_SIZE);
            assert(end[j] == payload[i - u - HEADER_SIZE]);
        }
    }
    assert(new_pending =~= old_pending + (header + payload));
}

/// A frame of `payload_len` payload bytes fits into what is free.
pub open spec fn frame_fits(
    capacity: int,
    read_pos: u64,
    write_pos: u64,
    payload_len: int,
) -> bool {
    HEADER_SIZE + payload_len <= capacity - used_bytes(read_pos, write_pos)
}

/// Appends one frame to the queue in `data`, without blocking.
///
/// `data` is the data region, `write_pos` the producer's counter and
/// `read_pos` the consumer's counter as last seen. On success the result is
/// the new value of the producer's counter, to be published after the call.
/// On failure nothing was written.
pub fn write_frame(data: &mut [u8], write_pos: u64, read_pos: u64, payload: &[u8]) -> (r: Result<
    u64,
    IpcError,
>)
    requires
        is_power_of_two(old(data).len() as int),
        used_bytes(read_pos, write_pos) <= old(data).len(),
    ensures
        final(data)@.len() == old(data)@.len(),
        match r {
            Ok(new_write_pos) => {
                &&& frame_fits(old(data).len() as int, read_pos, write_pos, payload@.len() as int)
                &&& payload@.len() <= MAX_PAYLOAD
                &&& new_write_pos == advance(write_pos, HEADER_SIZE + payload@.len())
                &&& pending(final(data)@, read_pos, new_write_pos) == pending(
                    old(data)@,
                    read_pos,
                    write_pos,
                ) + frame_bytes(payload@)
            },
            Err(e) => {
                &&& final(data)@ == old(data)@
                &&& if !frame_fits(
                    old(data).len() as int,
                    read_pos,
                    write_pos,
                    payload@.len() as int,
                ) {
                    e == IpcError::RingBufferFull(old(data).len())
                } else {
                    &&& payload@.len() > MAX_PAYLOAD
                    &&& e == (IpcError::MessageTooLarge { size: payload.len(), max: MAX_PAYLOAD })
                }
            },
        },
{
    let n = data.len();
    let len = payload.len();
    let used = write_pos.wrapping_sub(read_pos);
    assert(used as int == used_bytes(read_pos, write_pos));
    let free = n as u64 - used;
    if free < HEADER_SIZE as u64 || free - (HEADER_SIZE as u64) < len as u64 {
        return Err(IpcError::RingBufferFull(n));
    }
    if len > MAX_PAYLOAD {
        return Err(IpcError::MessageTooLarge { size: len, max: MAX_PAYLOAD });
    }
    let total = HEADER_SIZE + len;
    let w_off = (write_pos % (n as u64)) as usize;
    let p_off = if HEADER_SIZE < n - w_off {
        w_off + HEADER_SIZE
    } else {
        HEADER_SIZE - (n - w_off)
    };
    let header = u32_to_le_bytes(len as u32);
    copy_in(data, w_off, header.as_slice());
    copy_in(data, p_off, payload);
    let new_write_pos = write_pos.wrapping_add(total as u64);
    proof {
        lemma_pending_after_write(
            old(data)@,
            read_pos,
            write_pos,
            header@,
            payload@,
            w_off as int,
            p_off as int,
            new_write_pos,
        );
    }
    Ok(new_write_pos)
}

/// What is pending after the bytes at the head of it were taken off.
proof fn lemma_pending_after_read(data: Seq<u8>, read_pos: u64, write_pos: u64, bytes: int)
    requires
        is_power_of_two(data.len() as int),
        data.len() < counter_modulus(),
        used_bytes(read_pos, write_pos) <= data.len(),
        0 <= bytes <= used_bytes(read_pos, write_pos),
    ensures
        pending(data, advance(read_pos, bytes), write_pos) == pending(
            data,
            read_pos,
            write_pos,
        ).subrange(bytes, used_bytes(read_pos, write_pos)),
{
    let n = data.len() as int;
    let u = used_bytes(read_pos, write_pos);
    let new_read_pos = advance(read_pos, bytes);
    let old_pending = pending(data, read_pos, write_pos);
    let new_pending = pending(data, new_read_pos, write_pos);
    lemma_used_after_read(read_pos, write_pos, bytes);
    assert forall|i: int| 0 <= i < new_pending.len() implies new_pending[i]
        == old_pending.subrange(bytes, u)[i] by {
        lemma_offset_from_read(n, read_pos, new_read_pos, bytes, i);
        lemma_position_slot(n, read_pos as int, bytes + i);
    }
    assert(new_pending =~= old_pending.subrange(bytes, u));
}

/// What `copy_out` reads at `behind` bytes after the read position is the
/// matching part of what is pending.
proof fn lemma_copy_is_pending(
    data: Seq<u8>,
    read_pos: u64,
    write_pos: u64,
    behind: int,
    len: int,
    start: int,
)
    requires
        is_power_of_two(data.len() as int),
        data.len() < counter_modulus(),
        used_bytes(read_pos, write_pos) <= data.len(),
        0 <= behind,
        0 <= len,
        behind + len <= used_bytes(read_pos, write_pos),
        start == slot(data.len() as int, read_pos as int % (data.len() as int), behind),
    ensures
        Seq::new(len as nat, |i: int| data[slot(data.len() as int, start, i)]) == pending(
            data,
            read_pos,
            write_pos,
        ).subrange(behind, behind + len),
{
    let n = data.len() as int;
    let copied = Seq::new(len as nat, |i: int| data[slot(n, start, i)]);
    let part = pending(data, read_pos, write_pos).subrange(behind, behind + len);
    assert forall|i: int| 0 <= i < len implies copied[i] == part[i] by {
        lemma_position_slot(n, read_pos as int, behind + i);
    }
    assert(copied =~= part);
}

/// Takes the oldest frame off the queue in `data`, without blocking.
///
/// `data` is the data region, `write_pos` the producer's counter as last
/// seen and `read_pos` the consumer's counter. On success the result is the
/// payload and the new value of the consumer's counter, to be published
/// after the call. The region itself is never changed by a read.
pub fn read_frame(data: &[u8], write_pos: u64, read_pos: u64) -> (r: Result<
    (Vec<u8>, u64),
    IpcError,
>)
    requires
        is_power_of_two(data.len() as int),
        used_bytes(read_pos, write_pos) <= data.len(),
    ensures
        match r {
            Ok((payload, new_read_pos)) => {
                &&& has_frame(pending(data@, read_pos, write_pos))
                &&& payload@ == first_payload(pending(data@, read_pos, write_pos))
                &&& new_read_pos == advance(read_pos, HEADER_SIZE + payload@.len())
                &&& pending(data@, new_read_pos, write_pos) == after_frame(
                    pending(data@, read_pos, write_pos),
                )
            },
            Err(e) => {
                if write_pos == read_pos {
                    e == IpcError::RingBufferEmpty
                } else {
                    &&& !has_frame(pending(data@, read_pos, write_pos))
                    &&& e is Deserialization
                }
            },
        },
{
    let n = data.len();
    let used = write_pos.wrapping_sub(read_pos);
    assert(used as int == used_bytes(read_pos, write_pos));
    if write_pos == read_pos {
        return Err(IpcError::RingBufferEmpty);
    }
    if used < HEADER_SIZE as u64 {
        return Err(IpcError::Deserialization("frame header is incomplete".to_string()));
    }
    let r_off = (read_pos % (n as u64)) as usize;
    let p_off = if HEADER_SIZE < n - r_off {
        r_off + HEADER_SIZE
    } else {
        HEADER_SIZE - (n - r_off)
    };
    let header = copy_out(data, r_off, HEADER_SIZE);
    let len = u32_from_le_bytes(header.as_slice());
    proof {
        lemma_copy_is_pending(data@, read_pos, write_pos, 0, HEADER_SIZE as int, r_off as int);
        assert(len as int == announced_len(pending(data@, read_pos, write_pos)));
    }
    if len as u64 > used - HEADER_SIZE as u64 {
        return Err(IpcError::Deserialization("frame is longer than what is queued".to_string()));
    }
    let payload = copy_out(data, p_off, len as usize);
    let new_read_pos = read_pos.wrapping_add(HEADER_SIZE as u64 + len as u64);
    proof {
        lemma_copy_is_pending(
            data@,
            read_pos,
            write_pos,
            HEADER_SIZE as int,
            len as int,
            p_off as int,
        );
        lemma_pending_after_read(data@, read_pos, write_pos, HEADER_SIZE + len);
    }
    Ok((payload, new_read_pos))
}

} // verus!
