//! The 64-byte section-header record, one per section.

use vstd::prelude::*;

use crate::bytes::{push_u32_le, push_u64_le, spec_u32_le, spec_u64_le};

verus! {

/// A section header. Field order matches the serialized layout:
/// name index, type, flags, address, offset, size, link, info,
/// alignment, entry size.
#[derive(Clone, Copy, Debug, Eq, PartialEq)]
pub struct Header {
    /// name (string table index)
    pub name: u32,
    /// kind
    pub kind: u32,
    /// flags
    pub flags: u64,
    /// virtual address
    pub address: u64,
    /// physical offset
    pub offset: u64,
    /// size
    pub len: u64,
    /// link to another section
    pub link: u32,
    /// additional information
    pub info: u32,
    /// align
    pub align: u64,
    /// entry size (if this section holds a table)
    pub entry_len: u64,
}

/// The exact 64 serialized bytes of a section header.
pub open spec fn spec_section_bytes(h: Header) -> Seq<u8> {
    spec_u32_le(h.name) + spec_u32_le(h.kind) + spec_u64_le(h.flags) + spec_u64_le(h.address)
        + spec_u64_le(h.offset) + spec_u64_le(h.len) + spec_u32_le(h.link) + spec_u32_le(h.info)
        + spec_u64_le(h.align) + spec_u64_le(h.entry_len)
}

impl Header {
    /// A fresh record with every field zero (the null section).
    pub fn new() -> (r: Header)
        ensures
            r == (Header {
                name: 0,
                kind: 0,
                flags: 0,
                address: 0,
                offset: 0,
                len: 0,
                link: 0,
                info: 0,
                align: 0,
                entry_len: 0,
            }),
    {
        Header {
            name: 0,
            kind: 0,
            flags: 0,
            address: 0,
            offset: 0,
            len: 0,
            link: 0,
            info: 0,
            align: 0,
            entry_len: 0,
        }
    }

    pub fn name(&mut self, name: u32)
        ensures
            *final(self) == (Header { name, ..*old(self) }),
    {
        self.name = name;
    }

    pub fn kind(&mut self, kind: u32)
        ensures
            *final(self) == (Header { kind, ..*old(self) }),
    {
        self.kind = kind;
    }

    pub fn flags(&mut self, flags: u64)
        ensures
            *final(self) == (Header { flags, ..*old(self) }),
    {
        self.flags = flags;
    }

    pub fn address(&mut self, address: u64)
        ensures
            *final(self) == (Header { address, ..*old(self) }),
    {
        self.address = address;
    }

    pub fn offset(&mut self, offset: u64)
        ensures
            *final(self) == (Header { offset, ..*old(self) }),
    {
        self.offset = offset;
    }

    pub fn len(&mut self, len: u64)
        ensures
            *final(self) == (Header { len, ..*old(self) }),
    {
        self.len = len;
    }

    pub fn link(&mut self, link: u32)
        ensures
            *final(self) == (Header { link, ..*old(self) }),
    {
        self.link = link;
    }

    pub fn info(&mut self, info: u32)
        ensures
            *final(self) == (Header { info, ..*old(self) }),
    {
        self.info = info;
    }

    pub fn align(&mut self, align: u64)
        ensures
            *final(self) == (Header { align, ..*old(self) }),
    {
        self.align = align;
    }

    pub fn entry_len(&mut self, len: u64)
        ensures
            *final(self) == (Header { entry_len: len, ..*old(self) }),
    {
        self.entry_len = len;
    }

    /// The serialized record: exactly 64 bytes.
    pub fn to_array(self) -> (r: Vec<u8>)
        ensures
            r@ == spec_section_bytes(self),
            r@.len() == 64,
    {
        let mut v: Vec<u8> = Vec::new();
        push_u32_le(&mut v, self.name);
        push_u32_le(&mut v, self.kind);
        push_u64_le(&mut v, self.flags);
        push_u64_le(&mut v, self.address);
        push_u64_le(&mut v, self.offset);
        push_u64_le(&mut v, self.len);
        push_u32_le(&mut v, self.link);
        push_u32_le(&mut v, self.info);
        push_u64_le(&mut v, self.align);
        push_u64_le(&mut v, self.entry_len);
        proof {
            assert(v@ =~= spec_section_bytes(self));
        }
        v
    }
}

} // verus!
