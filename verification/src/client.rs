//! The calling side: it numbers calls, encodes them and queues them on the
//! request buffer, and takes answers off the response buffer. It keeps no
//! record of calls that are under way; matching answers to calls by their
//! identifier, timing calls out and trying again when the buffer is full
//! are left to the caller.

use crate::error::IpcError;
use crate::protocol::{call_envelope, encodable, encoding, serialize_call, Envelope};
use crate::position::{advance, is_power_of_two};
use crate::queue::{accepts, after_read, read_result, send_refusal};
use crate::ring_buffer::{is_ring_image, RingBuffer, Utilization, DATA_OFFSET};
use crate::shm::SharedMemory;
use crate::values::all_encode;
use vstd::prelude::*;
use vstd::string::*;

verus! {

/// The capacity of a buffer where none is asked for: 64 MiB.
pub const DEFAULT_BUFFER_SIZE: usize = 64 * 1024 * 1024;

/// The base name of a channel where none is asked for.
pub const DEFAULT_SHM_NAME: &'static str = "/assassinate_msf_ipc";

/// The name of the segment that carries the requests of channel `base`.
pub fn request_segment_name(base: &str) -> (name: String)
    ensures
        name@ == base@ + "_req"@,
{
    String::from_str(base).concat("_req")
}

/// The name of the segment that carries the responses of channel `base`.
pub fn response_segment_name(base: &str) -> (name: String)
    ensures
        name@ == base@ + "_resp"@,
{
    String::from_str(base).concat("_resp")
}

/// The calling end of a channel.
pub struct IpcClient {
    requests: RingBuffer,
    responses: RingBuffer,
    next_call_id: u64,
}

impl IpcClient {
    /// The buffer that calls are written to.
    pub closed spec fn outbound(&self) -> RingBuffer {
        self.requests
    }

    /// The buffer that answers are read from.
    pub closed spec fn inbound(&self) -> RingBuffer {
        self.responses
    }

    /// The identifier that the next call gets.
    pub closed spec fn next_id(&self) -> u64 {
        self.next_call_id
    }

    /// Both buffers are consistent.
    pub open spec fn wf(&self) -> bool {
        self.outbound().wf() && self.inbound().wf()
    }

    /// The request that a call of `method` with `args` sends next.
    pub open spec fn request(&self, method: Seq<char>, args: Seq<serde_json::Value>) -> Envelope {
        call_envelope(self.next_id(), method, args)
    }

    /// The calling end of a new channel `name`: two empty buffers of
    /// `capacity` bytes each, and 1 as the first call identifier.
    pub fn new(name: &str, capacity: usize) -> (r: Result<IpcClient, IpcError>)
        ensures
            match r {
                Ok(client) => {
                    &&& is_power_of_two(capacity as int)
                    &&& capacity <= usize::MAX - DATA_OFFSET
                    &&& client.wf()
                    &&& client.next_id() == 1
                    &&& client.outbound()@ == Seq::<Seq<u8>>::empty()
                    &&& client.inbound()@ == Seq::<Seq<u8>>::empty()
                    &&& client.outbound().spec_capacity() == capacity
                    &&& client.inbound().spec_capacity() == capacity
                    &&& client.outbound().spec_name() == name@ + "_req"@
                    &&& client.inbound().spec_name() == name@ + "_resp"@
                },
                Err(e) => {
                    &&& !is_power_of_two(capacity as int) || capacity > usize::MAX - DATA_OFFSET
                    &&& e is SharedMemory
                },
            },
    {
        let request_name = request_segment_name(name);
        let response_name = response_segment_name(name);
        let requests = match RingBuffer::create(request_name.as_str(), capacity) {
            Ok(rb) => rb,
            Err(e) => { return Err(e); },
        };
        let responses = match RingBuffer::create(response_name.as_str(), capacity) {
            Ok(rb) => rb,
            Err(e) => { return Err(e); },
        };
        Ok(IpcClient { requests, responses, next_call_id: 1 })
    }

    /// The calling end of a channel whose two segments exist already: the
    /// buffers are taken as they are found there, and 1 is the first call
    /// identifier.
    ///
    /// Fails, with a shared memory error, exactly when one of the segments
    /// holds no consistent buffer of `capacity` bytes.
    pub fn open(requests: SharedMemory, responses: SharedMemory, capacity: usize) -> (r: Result<
        IpcClient,
        IpcError,
    >)
        ensures
            match r {
                Ok(client) => {
                    &&& client.wf()
                    &&& client.next_id() == 1
                    &&& client.outbound().segment() == requests@
                    &&& client.inbound().segment() == responses@
                    &&& client.outbound().spec_capacity() == capacity
                    &&& client.inbound().spec_capacity() == capacity
                    &&& client.outbound().spec_name() == requests.spec_name()
                    &&& client.inbound().spec_name() == responses.spec_name()
                },
                Err(e) => {
                    &&& (forall|queue: Seq<Seq<u8>>|
                        !#[trigger] is_ring_image(requests@, capacity as int, queue)) || (forall|
                        queue: Seq<Seq<u8>>,
                    |
                        !#[trigger] is_ring_image(responses@, capacity as int, queue))
                    &&& e is SharedMemory
                },
            },
    {
        let requests = match RingBuffer::open(requests, capacity) {
            Ok(rb) => rb,
            Err(e) => { return Err(e); },
        };
        let responses = match RingBuffer::open(responses, capacity) {
            Ok(rb) => rb,
            Err(e) => { return Err(e); },
        };
        Ok(IpcClient { requests, responses, next_call_id: 1 })
    }

    /// Gives the two buffers up: that of the requests, then that of the
    /// responses.
    pub fn into_buffers(self) -> (buffers: (RingBuffer, RingBuffer))
        ensures
            buffers.0 == self.outbound(),
            buffers.1 == self.inbound(),
    {
        (self.requests, self.responses)
    }

    /// Sends a call of `method` with `args` and returns its identifier,
    /// whether or not an answer ever comes.
    ///
    /// The call takes the next identifier, also when it then fails. It is
    /// queued exactly when it can be encoded and its frame fits into what
    /// is free in the request buffer. A call that the buffer could never
    /// take, however empty, is refused as too large; one that only finds
    /// the buffer too full right now, as full.
    pub fn call(&mut self, method: &str, args: Vec<serde_json::Value>) -> (r: Result<
        u64,
        IpcError,
    >)
        requires
            old(self).wf(),
        ensures
            final(self).wf(),
            final(self).next_id() == advance(old(self).next_id(), 1),
            final(self).inbound() == old(self).inbound(),
            final(self).outbound().spec_capacity() == old(self).outbound().spec_capacity(),
            final(self).outbound().read_position() == old(self).outbound().read_position(),
            match r {
                Ok(call_id) => {
                    &&& call_id == old(self).next_id()
                    &&& all_encode(args@)
                    &&& encodable(old(self).request(method@, args@))
                    &&& accepts(
                        old(self).outbound().spec_capacity(),
                        old(self).outbound()@,
                        encoding(old(self).request(method@, args@)),
                    )
                    &&& final(self).outbound()@ == old(self).outbound()@.push(
                        encoding(old(self).request(method@, args@)),
                    )
                },
                Err(e) => {
                    &&& final(self).outbound()@ == old(self).outbound()@
                    &&& final(self).outbound().write_position() == old(
                        self,
                    ).outbound().write_position()
                    &&& if !all_encode(args@) || !encodable(old(self).request(method@, args@)) {
                        e is Serialization
                    } else {
                        &&& !accepts(
                            old(self).outbound().spec_capacity(),
                            old(self).outbound()@,
                            encoding(old(self).request(method@, args@)),
                        )
                        &&& e == send_refusal(
                            old(self).outbound().spec_capacity(),
                            old(self).outbound()@,
                            encoding(old(self).request(method@, args@)),
                        )
                    }
                },
            },
    {
        let call_id = self.next_call_id;
        self.next_call_id = call_id.wrapping_add(1);
        let frame = match serialize_call(call_id, method, args) {
            Ok(frame) => frame,
            Err(e) => { return Err(e); },
        };
        match self.requests.send(frame.as_slice()) {
            Ok(()) => Ok(call_id),
            Err(e) => Err(e),
        }
    }

    /// Takes the oldest answer off the response buffer, as the bytes of its
    /// frame, without blocking; the caller decodes them.
    pub fn try_recv(&mut self) -> (r: Result<Vec<u8>, IpcError>)
        requires
            old(self).wf(),
        ensures
            final(self).wf(),
            final(self).next_id() == old(self).next_id(),
            final(self).outbound() == old(self).outbound(),
            final(self).inbound().spec_capacity() == old(self).inbound().spec_capacity(),
            final(self).inbound().write_position() == old(self).inbound().write_position(),
            final(self).inbound()@ == after_read(old(self).inbound()@),
            match r {
                Ok(frame) => read_result(old(self).inbound()@) == Some(frame@),
                Err(e) => {
                    &&& read_result(old(self).inbound()@) is None
                    &&& e == IpcError::RingBufferEmpty
                    &&& final(self).inbound().read_position() == old(
                        self,
                    ).inbound().read_position()
                },
            },
    {
        self.responses.try_read()
    }

    /// How full the request buffer is.
    pub fn utilization(&self) -> (u: Utilization)
        requires
            self.wf(),
        ensures
            u.used == self.outbound().used(),
            u.capacity == self.outbound().spec_capacity(),
            u.used <= u.capacity,
            u.used == 0 <==> self.outbound()@.len() == 0,
    {
        self.requests.utilization()
    }

    /// The request buffer, for the side that serves the calls.
    pub fn requests_mut(&mut self) -> (requests: &mut RingBuffer)
        ensures
            *requests == old(self).outbound(),
            final(self).outbound() == *final(requests),
            final(self).inbound() == old(self).inbound(),
            final(self).next_id() == old(self).next_id(),
    {
        &mut self.requests
    }

    /// The response buffer, for the side that serves the calls.
    pub fn responses_mut(&mut self) -> (responses: &mut RingBuffer)
        ensures
            *responses == old(self).inbound(),
            final(self).inbound() == *final(responses),
            final(self).outbound() == old(self).outbound(),
            final(self).next_id() == old(self).next_id(),
    {
        &mut self.responses
    }
}

} // verus!
