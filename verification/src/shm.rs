//! A named, fixed-size region of memory, as the two sides of a channel see
//! a mapped segment: a name, a size that both agreed on, and bytes. No
//! structure is imposed here; the ring buffer lays its own over the bytes.
//!
//! The region here is memory of the process that holds it. A segment that
//! two processes map is for the embedding program to create and to open;
//! it hands the mapped bytes to the functions of [`crate::region`] and
//! keeps the counters in the segment itself.

use crate::error::IpcError;
use vstd::prelude::*;

verus! {

/// A region of `size` bytes under a name.
pub struct SharedMemory {
    name: String,
    bytes: Vec<u8>,
}

impl SharedMemory {
    /// The bytes of the region.
    pub closed spec fn view(&self) -> Seq<u8> {
        self.bytes@
    }

    /// The name of the region.
    pub closed spec fn spec_name(&self) -> Seq<char> {
        self.name@
    }

    /// A new region of `size` zero bytes. A region of no bytes cannot be
    /// made.
    pub fn create(name: &str, size: usize) -> (r: Result<SharedMemory, IpcError>)
        ensures
            match r {
                Ok(shm) => {
                    &&& size > 0
                    &&& shm.spec_name() == name@
                    &&& shm@.len() == size
                    &&& forall|i: int| 0 <= i < size ==> shm@[i] == 0u8
                },
                Err(e) => size == 0 && e is SharedMemory,
            },
    {
        if size == 0 {
            return Err(IpcError::SharedMemory("a segment of size 0 cannot be created".to_string()));
        }
        Ok(SharedMemory { name: name.to_string(), bytes: vec![0u8; size] })
    }

    /// Takes over a region that exists already: `bytes` is what it holds.
    /// The two sides of a channel agree on the size beforehand; bytes of
    /// another length, or of none, are refused.
    pub fn open(name: &str, size: usize, bytes: Vec<u8>) -> (r: Result<SharedMemory, IpcError>)
        ensures
            match r {
                Ok(shm) => {
                    &&& size > 0
                    &&& bytes@.len() == size
                    &&& shm.spec_name() == name@
                    &&& shm@ == bytes@
                },
                Err(e) => (size == 0 || bytes@.len() != size) && e is SharedMemory,
            },
    {
        if size == 0 || bytes.len() != size {
            return Err(
                IpcError::SharedMemory("segment is not of the size that was agreed on".to_string()),
            );
        }
        Ok(SharedMemory { name: name.to_string(), bytes })
    }

    /// Gives the bytes of the region up.
    pub fn into_bytes(self) -> (bytes: Vec<u8>)
        ensures
            bytes@ == self@,
    {
        self.bytes
    }

    /// The name that the region was created under.
    pub fn name(&self) -> (name: &str)
        ensures
            name@ == self.spec_name(),
    {
        self.name.as_str()
    }

    /// The number of bytes in the region.
    pub fn size(&self) -> (size: usize)
        ensures
            size == self@.len(),
    {
        self.bytes.len()
    }

    /// The bytes of the region, to read.
    pub fn as_slice(&self) -> (bytes: &[u8])
        ensures
            bytes@ == self@,
    {
        self.bytes.as_slice()
    }

    /// The bytes of the region, to read and write. The region keeps its
    /// name and its size.
    pub fn as_slice_mut(&mut self) -> (bytes: &mut [u8])
        ensures
            bytes@ == old(self)@,
            final(self)@ == final(bytes)@,
            final(self).spec_name() == old(self).spec_name(),
    {
        self.bytes.as_mut_slice()
    }
}

} // verus!
