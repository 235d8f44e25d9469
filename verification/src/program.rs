//! The 56-byte program-header record, one per loadable segment.

use vstd::prelude::*;

use crate::bytes::{push_u32_le, push_u64_le, spec_u32_le, spec_u64_le};

verus! {

/// A program header. Field order matches the serialized layout:
/// type, flags, file offset, virtual address, physical address,
/// file size, memory size, alignment.
#[derive(Clone, Copy, Debug, Eq, PartialEq)]
pub struct Header {
    /// kind
    pub kind: u32,
    /// flags
    pub flags: u32,
    /// offset
    pub offset: u64,
    /// virtual address
    pub virtual_address: u64,
    /// physical address
    pub physical_address: u64,
    /// physical length
    pub file_size: u64,
    /// virtual length
    pub memory_size: u64,
    /// align
    pub align: u64,
}

/// The exact 56 serialized bytes of a program header.
pub open spec fn spec_program_bytes(h: Header) -> Seq<u8> {
    spec_u32_le(h.kind) + spec_u32_le(h.flags) + spec_u64_le(h.offset) + spec_u64_le(
        h.virtual_address,
    ) + spec_u64_le(h.physical_address) + spec_u64_le(h.file_size) + spec_u64_le(h.memory_size)
        + spec_u64_le(h.align)
}

impl Header {
    /// A fresh record with every field zero.
    pub fn new() -> (r: Header)
        ensures
            r == (Header {
                kind: 0,
                flags: 0,
                offset: 0,
                virtual_address: 0,
                physical_address: 0,
                file_size: 0,
                memory_size: 0,
                align: 0,
            }),
    {
        Header {
            kind: 0,
            flags: 0,
            offset: 0,
            virtual_address: 0,
            physical_address: 0,
            file_size: 0,
            memory_size: 0,
            align: 0,
        }
    }

    pub fn kind(&mut self, kind: u32)
        ensures
            *final(self) == (Header { kind, ..*old(self) }),
    {
        self.kind = kind;
    }

    pub fn flags(&mut self, flags: u32)
        ensures
            *final(self) == (Header { flags, ..*old(self) }),
    {
        self.flags = flags;
    }

    pub fn offset(&mut self, offset: u64)
        ensures
            *final(self) == (Header { offset, ..*old(self) }),
    {
        self.offset = offset;
    }

    pub fn virtual_address(&mut self, address: u64)
        ensures
            *final(self) == (Header { virtual_address: address, ..*old(self) }),
    {
        self.virtual_address = address;
    }

    pub fn physical_address(&mut self, address: u64)
        ensures
            *final(self) == (Header { physical_address: address, ..*old(self) }),
    {
        self.physical_address = address;
    }

    pub fn file_size(&mut self, len: u64)
        ensures
            *final(self) == (Header { file_size: len, ..*old(self) }),
    {
        self.file_size = len;
    }

    pub fn memory_size(&mut self, len: u64)
        ensures
            *final(self) == (Header { memory_size: len, ..*old(self) }),
    {
        self.memory_size = len;
    }

    pub fn align(&mut self, align: u64)
        ensures
            *final(self) == (Header { align, ..*old(self) }),
    {
        self.align = align;
    }

    /// The serialized record: exactly 56 bytes.
    pub fn to_array(self) -> (r: Vec<u8>)
        ensures
            r@ == spec_program_bytes(self),
            r@.len() == 56,
    {
        let mut v: Vec<u8> = Vec::new();
        push_u32_le(&mut v, self.kind);
        push_u32_le(&mut v, self.flags);
        push_u64_le(&mut v, self.offset);
        push_u64_le(&mut v, self.virtual_address);
        push_u64_le(&mut v, self.physical_address);
        push_u64_le(&mut v, self.file_size);
        push_u64_le(&mut v, self.memory_size);
        push_u64_le(&mut v, self.align);
        proof {
            assert(v@ =~= spec_program_bytes(self));
        }
        v
    }
}

} // verus!
