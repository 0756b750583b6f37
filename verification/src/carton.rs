//! A carton wraps a buffer for shipping across the kernel boundary.
//!
//! The carton itself only describes memory: which range was mapped for it,
//! which part of that range holds valid bytes, and which message lends or
//! gives that part to a server. Mapping the memory and sending the message
//! are left to the caller.

use vstd::prelude::*;

verus! {

/// Granularity in bytes at which memory is mapped.
pub const MAP_GRANULE: usize = 4096;

/// A connection to a server.
pub type CID = u32;

/// A range of mapped memory.
#[derive(Clone, Copy, Debug, PartialEq, Eq, Structural)]
pub struct MemoryRange {
    pub addr: usize,
    pub size: usize,
}

/// A message that passes a range of memory.
#[derive(Clone, Copy, Debug, PartialEq, Eq, Structural)]
pub struct MemoryMessage {
    /// What the server is asked to do with the memory.
    pub id: usize,
    /// The memory passed.
    pub buf: MemoryRange,
    /// Where in `buf` the interesting part starts, if the sender says.
    pub offset: Option<usize>,
    /// How much of `buf` is valid, if the sender says.
    pub valid: Option<usize>,
}

/// How a range of memory is passed to a server.
#[derive(Clone, Copy, Debug, PartialEq, Eq, Structural)]
pub enum Message {
    /// The server may write; the memory comes back when it returns.
    MutableBorrow(MemoryMessage),
    /// The server may read; the memory comes back when it returns.
    Borrow(MemoryMessage),
    /// The memory becomes the server's.
    Move(MemoryMessage),
}

/// A message together with the connection it is to be sent on.
#[derive(Clone, Copy, Debug, PartialEq, Eq, Structural)]
pub struct Envelope {
    pub connection: CID,
    pub message: Message,
}

/// A buffer packed for shipping.
#[derive(Debug)]
pub struct Carton {
    pub range: MemoryRange,
    pub valid: MemoryRange,
    pub data: Vec<u8>,
}

/// The size of the mapping for `len` bytes: `len` plus what is missing to the
/// next multiple of the granule, a whole granule when nothing is missing.
pub open spec fn spec_carton_size(len: nat) -> nat {
    len + (MAP_GRANULE as nat - len % (MAP_GRANULE as nat)) as nat
}

/// Computes the size of the mapping that a carton of `len` bytes needs.
pub fn carton_size(len: usize) -> (size: usize)
    requires
        len <= usize::MAX - MAP_GRANULE,
    ensures
        size == spec_carton_size(len as nat),
        size % MAP_GRANULE == 0,
        len < size <= len + MAP_GRANULE,
{
    let remainder: usize = len % MAP_GRANULE;
    len + (MAP_GRANULE - remainder)
}

impl Carton {
    /// The message that any of the three transfers carries.
    pub open spec fn spec_message(self, id: usize) -> MemoryMessage {
        MemoryMessage { id, buf: self.valid, offset: None, valid: None }
    }

    /// True when the valid part starts the mapped range and holds the data.
    pub open spec fn wf(self) -> bool {
        &&& self.range.addr == self.valid.addr
        &&& self.range.addr != 0
        &&& self.valid.size == self.data@.len()
        &&& self.valid.size > 0
        &&& self.range.size == spec_carton_size(self.data@.len())
    }

    /// Packs `bytes` into a carton whose memory was mapped at `base` with
    /// the size that `carton_size` gives for them.
    pub fn from_bytes(bytes: &[u8], base: usize) -> (carton: Carton)
        requires
            0 < bytes.len() <= usize::MAX - MAP_GRANULE,
            base != 0,
        ensures
            carton.wf(),
            carton.data@ == bytes@,
            carton.range == (MemoryRange { addr: base, size: spec_carton_size(bytes@.len()) as usize }),
            carton.valid == (MemoryRange { addr: base, size: bytes@.len() as usize }),
    {
        let size: usize = carton_size(bytes.len());
        let mut data: Vec<u8> = Vec::new();
        crate::bytes::append_bytes(&mut data, bytes);
        assert(data@ =~= bytes@);
        Carton {
            range: MemoryRange { addr: base, size },
            valid: MemoryRange { addr: base, size: bytes.len() },
            data,
        }
    }

    /// Turns the carton into the message that passes its valid part.
    pub fn into_message(self, id: usize) -> (msg: MemoryMessage)
        ensures
            msg == self.spec_message(id),
    {
        MemoryMessage { id, buf: self.valid, offset: None, valid: None }
    }

    /// The immutable lend of this carton to the server behind `connection`.
    pub fn lend(&self, connection: CID, id: usize) -> (out: Envelope)
        ensures
            out == (Envelope { connection, message: Message::Borrow(self.spec_message(id)) }),
    {
        let msg = MemoryMessage { id, buf: self.valid, offset: None, valid: None };
        Envelope { connection, message: Message::Borrow(msg) }
    }

    /// The mutable lend of this carton to the server behind `connection`.
    /// The carton itself is left as it is.
    pub fn lend_mut(&mut self, connection: CID, id: usize) -> (out: Envelope)
        ensures
            out == (Envelope { connection, message: Message::MutableBorrow(old(self).spec_message(id)) }),
            *final(self) == *old(self),
    {
        let msg = MemoryMessage { id, buf: self.valid, offset: None, valid: None };
        Envelope { connection, message: Message::MutableBorrow(msg) }
    }

    /// The range that holds the valid bytes.
    pub fn valid_range(&self) -> (range: &MemoryRange)
        ensures
            *range == self.valid,
    {
        &self.valid
    }

    /// The bytes packed.
    pub fn as_bytes(&self) -> (bytes: &[u8])
        ensures
            bytes@ == self.data@,
    {
        self.data.as_slice()
    }
}

} // verus!
