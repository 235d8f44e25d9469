//! The 64-byte executable file header.
//!
//! The header is a fixed-width, fixed-field-order record. It is
//! serialized by explicit little-endian field concatenation; the
//! four magic bytes and the seven reserved bytes are emitted as
//! constants.

use vstd::prelude::*;

use crate::bytes::{push_u16_le, push_u32_le, push_u64_le, spec_u16_le, spec_u32_le, spec_u64_le};

verus! {

/// The executable file header. Field order matches the serialized
/// layout: magic, class, endianness, version, OS/ABI, ABI version,
/// seven reserved bytes, object type, machine, version, entry address,
/// program-header offset, section-header offset, flags, header size,
/// program-header entry size and count, section-header entry size and
/// count, section-name-table index.
#[derive(Clone, Copy, Debug, Eq, PartialEq)]
pub struct Elf {
    pub class: u8,
    pub endian: u8,
    pub version: u8,
    pub abi_sysv: u8,
    pub abi_version: u8,
    pub kind: u16,
    pub machine: u16,
    pub version2: u32,
    pub entry_address: u64,
    pub program_headers_address: u64,
    pub section_headers_address: u64,
    pub flags: u32,
    pub header: u16,
    pub program_size: u16,
    pub program_len: u16,
    pub section_size: u16,
    pub section_len: u16,
    pub section_index: u16,
}

/// The exact 64 serialized bytes of a file header.
pub open spec fn spec_elf_bytes(e: Elf) -> Seq<u8> {
    seq![0x7Fu8, 0x45, 0x4C, 0x46] + seq![
        e.class,
        e.endian,
        e.version,
        e.abi_sysv,
        e.abi_version,
    ] + seq![0u8, 0, 0, 0, 0, 0, 0] + spec_u16_le(e.kind) + spec_u16_le(e.machine) + spec_u32_le(
        e.version2,
    ) + spec_u64_le(e.entry_address) + spec_u64_le(e.program_headers_address) + spec_u64_le(
        e.section_headers_address,
    ) + spec_u32_le(e.flags) + spec_u16_le(e.header) + spec_u16_le(e.program_size) + spec_u16_le(
        e.program_len,
    ) + spec_u16_le(e.section_size) + spec_u16_le(e.section_len) + spec_u16_le(e.section_index)
}

impl Elf {
    /// A fresh header: 64-bit class, little-endian, all other fields zero
    /// apart from the 64-byte header size.
    pub fn new() -> (r: Elf)
        ensures
            r == (Elf {
                class: 2,
                endian: 1,
                version: 0,
                abi_sysv: 0,
                abi_version: 0,
                kind: 0,
                machine: 0,
                version2: 0,
                entry_address: 0,
                program_headers_address: 0,
                section_headers_address: 0,
                flags: 0,
                header: 64,
                program_size: 0,
                program_len: 0,
                section_size: 0,
                section_len: 0,
                section_index: 0,
            }),
    {
        Elf {
            class: 2,
            endian: 1,
            version: 0,
            abi_sysv: 0,
            abi_version: 0,
            kind: 0,
            machine: 0,
            version2: 0,
            entry_address: 0,
            program_headers_address: 0,
            section_headers_address: 0,
            flags: 0,
            header: 64,
            program_size: 0,
            program_len: 0,
            section_size: 0,
            section_len: 0,
            section_index: 0,
        }
    }

    pub fn class32(&mut self)
        ensures
            *final(self) == (Elf { class: 1, ..*old(self) }),
    {
        self.class = 1;
    }

    pub fn class64(&mut self)
        ensures
            *final(self) == (Elf { class: 2, ..*old(self) }),
    {
        self.class = 2;
    }

    pub fn endian_big(&mut self)
        ensures
            *final(self) == (Elf { endian: 2, ..*old(self) }),
    {
        self.endian = 2;
    }

    pub fn endian_little(&mut self)
        ensures
            *final(self) == (Elf { endian: 1, ..*old(self) }),
    {
        self.endian = 1;
    }

    pub fn version(&mut self, version: u8)
        ensures
            *final(self) == (Elf { version, ..*old(self) }),
    {
        self.version = version;
    }

    pub fn abi_sysv(&mut self)
        ensures
            *final(self) == (Elf { abi_sysv: 0, ..*old(self) }),
    {
        self.abi_sysv = 0;
    }

    pub fn abi_version(&mut self)
        ensures
            *final(self) == (Elf { abi_version: 0, ..*old(self) }),
    {
        self.abi_version = 0;
    }

    pub fn kind_exec(&mut self)
        ensures
            *final(self) == (Elf { kind: 2, ..*old(self) }),
    {
        self.kind = 2;
    }

    pub fn machine_x86_64(&mut self)
        ensures
            *final(self) == (Elf { machine: 0x3E, ..*old(self) }),
    {
        self.machine = 0x3E;
    }

    pub fn version2(&mut self)
        ensures
            *final(self) == (Elf { version2: 1, ..*old(self) }),
    {
        self.version2 = 1;
    }

    pub fn entry_address(&mut self, address: u64)
        ensures
            *final(self) == (Elf { entry_address: address, ..*old(self) }),
    {
        self.entry_address = address;
    }

    pub fn program_headers_address(&mut self, address: u64)
        ensures
            *final(self) == (Elf { program_headers_address: address, ..*old(self) }),
    {
        self.program_headers_address = address;
    }

    pub fn section_headers_address(&mut self, address: u64)
        ensures
            *final(self) == (Elf { section_headers_address: address, ..*old(self) }),
    {
        self.section_headers_address = address;
    }

    pub fn flags(&mut self, flags: u32)
        ensures
            *final(self) == (Elf { flags, ..*old(self) }),
    {
        self.flags = flags;
    }

    pub fn header32(&mut self)
        ensures
            *final(self) == (Elf { header: 52, ..*old(self) }),
    {
        self.header = 52;
    }

    pub fn header64(&mut self)
        ensures
            *final(self) == (Elf { header: 64, ..*old(self) }),
    {
        self.header = 64;
    }

    pub fn program_size(&mut self, len: u16)
        ensures
            *final(self) == (Elf { program_size: len, ..*old(self) }),
    {
        self.program_size = len;
    }

    pub fn program_len(&mut self, len: u16)
        ensures
            *final(self) == (Elf { program_len: len, ..*old(self) }),
    {
        self.program_len = len;
    }

    pub fn section_size(&mut self, size: u16)
        ensures
            *final(self) == (Elf { section_size: size, ..*old(self) }),
    {
        self.section_size = size;
    }

    pub fn section_len(&mut self, len: u16)
        ensures
            *final(self) == (Elf { section_len: len, ..*old(self) }),
    {
        self.section_len = len;
    }

    pub fn section_index(&mut self, index: u16)
        ensures
            *final(self) == (Elf { section_index: index, ..*old(self) }),
    {
        self.section_index = index;
    }

    /// The serialized header: exactly 64 bytes, beginning with the
    /// magic `7F 45 4C 46`.
    pub fn to_array(self) -> (r: Vec<u8>)
        ensures
            r@ == spec_elf_bytes(self),
            r@.len() == 64,
            r@[0] == 0x7Fu8 && r@[1] == 0x45u8 && r@[2] == 0x4Cu8 && r@[3] == 0x46u8,
    {
        let mut v: Vec<u8> = vec![0x7Fu8, 0x45, 0x4C, 0x46];
        v.push(self.class);
        v.push(self.endian);
        v.push(self.version);
        v.push(self.abi_sysv);
        v.push(self.abi_version);
        v.push(0);
        v.push(0);
        v.push(0);
        v.push(0);
        v.push(0);
        v.push(0);
        v.push(0);
        push_u16_le(&mut v, self.kind);
        push_u16_le(&mut v, self.machine);
        push_u32_le(&mut v, self.version2);
        push_u64_le(&mut v, self.entry_address);
        push_u64_le(&mut v, self.program_headers_address);
        push_u64_le(&mut v, self.section_headers_address);
        push_u32_le(&mut v, self.flags);
        push_u16_le(&mut v, self.header);
        push_u16_le(&mut v, self.program_size);
        push_u16_le(&mut v, self.program_len);
        push_u16_le(&mut v, self.section_size);
        push_u16_le(&mut v, self.section_len);
        push_u16_le(&mut v, self.section_index);
        proof {
            assert(v@ =~= spec_elf_bytes(self));
        }
        v
    }
}

} // verus!
