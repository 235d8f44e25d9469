//! Binary assembly: the final buffer, by concatenation, in fixed
//! order — file header, four program headers, the encoded code, the
//! string-literal data, the section-name table, three section
//! headers. Every offset, address and size embedded in the records
//! is computed from the actual byte positions of the regions.

use vstd::prelude::*;

use crate::elf::{spec_elf_bytes, Elf};
use crate::ir::byteseqs_of;
use crate::program;
use crate::program::spec_program_bytes;
use crate::section;
use crate::section::spec_section_bytes;

verus! {

/// The concatenation of the string-table entries, in table order.
pub open spec fn spec_cat(strs: Seq<Seq<u8>>) -> Seq<u8>
    decreases strs.len(),
{
    if strs.len() == 0 {
        Seq::empty()
    } else {
        strs[0] + spec_cat(strs.skip(1))
    }
}

/// Concatenates the string-table entries into the data region.
pub fn concat_strings(strings: &Vec<Vec<u8>>) -> (r: Vec<u8>)
    ensures
        r@ == spec_cat(byteseqs_of(strings@)),
{
    let ghost strs = byteseqs_of(strings@);
    let mut out: Vec<u8> = Vec::new();
    let mut i: usize = 0;
    proof {
        assert(strs.skip(0) =~= strs);
        assert(out@ =~= Seq::<u8>::empty());
    }
    while i < strings.len()
        invariant
            i <= strings@.len(),
            strs == byteseqs_of(strings@),
            spec_cat(strs) == out@ + spec_cat(strs.skip(i as int)),
        decreases strings@.len() - i,
    {
        let ghost pre = out@;
        let entry = &strings[i];
        let mut k: usize = 0;
        while k < entry.len()
            invariant
                k <= entry@.len(),
                entry == &strings@[i as int],
                0 <= i < strings@.len(),
                out@ == pre + entry@.take(k as int),
            decreases entry@.len() - k,
        {
            out.push(entry[k]);
            proof {
                assert(entry@.take(k + 1) =~= entry@.take(k as int).push(entry@[k as int]));
            }
            k = k + 1;
        }
        proof {
            assert(entry@.take(entry@.len() as int) =~= entry@);
            assert(strs.skip(i as int)[0] == strs[i as int]);
            assert(strs.skip(i as int).skip(1) =~= strs.skip(i + 1));
            assert(strs[i as int] == entry@);
            assert(spec_cat(strs.skip(i as int)) == entry@ + spec_cat(strs.skip(i + 1)));
            assert(spec_cat(strs) =~= out@ + spec_cat(strs.skip(i + 1)));
        }
        i = i + 1;
    }
    proof {
        assert(strs.skip(strs.len() as int) =~= Seq::<Seq<u8>>::empty());
        assert(spec_cat(strs) =~= out@);
    }
    out
}

/// The section-name string table: an empty name, `.text` and
/// `.shstrtab`, each null-terminated — 17 bytes.
pub open spec fn spec_shstrtab() -> Seq<u8> {
    seq![
        0x00u8,
        0x2E,
        0x74,
        0x65,
        0x78,
        0x74,
        0x00,
        0x2E,
        0x73,
        0x68,
        0x73,
        0x74,
        0x72,
        0x74,
        0x61,
        0x62,
        0x00,
    ]
}

/// The file header of the image: 64-bit class, little-endian,
/// executable, x86-64, entry at the code region's virtual address,
/// with the header counts and the section-name-table index set to
/// match the regions that follow.
pub open spec fn spec_image_elf(seg: int, shoff: int) -> Elf {
    Elf {
        class: 2,
        endian: 1,
        version: 1,
        abi_sysv: 0,
        abi_version: 0,
        kind: 2,
        machine: 0x3E,
        version2: 1,
        entry_address: 0x201120,
        program_headers_address: 64,
        section_headers_address: shoff as u64,
        flags: 0,
        header: 64,
        program_size: 56,
        program_len: 4,
        section_size: 64,
        section_len: 3,
        section_index: 2,
    }
}

/// The whole executable image for a code region and a data region:
/// `seg` is their combined size, mapped read-execute at `0x201120`
/// from file offset `0x120`, and the section headers follow the
/// 17-byte name table.
pub open spec fn spec_image(code: Seq<u8>, data: Seq<u8>) -> Seq<u8> {
    let seg = code.len() + data.len();
    let shoff = 0x120 + seg + 17;
    spec_elf_bytes(spec_image_elf(seg as int, shoff as int)) + spec_program_bytes(
        program::Header {
            kind: 6,
            flags: 4,
            offset: 0x40,
            virtual_address: 0x200040,
            physical_address: 0x200040,
            file_size: 0xE0,
            memory_size: 0xE0,
            align: 8,
        },
    ) + spec_program_bytes(
        program::Header {
            kind: 1,
            flags: 4,
            offset: 0,
            virtual_address: 0x200000,
            physical_address: 0x200000,
            file_size: 0x120,
            memory_size: 0x120,
            align: 0x1000,
        },
    ) + spec_program_bytes(
        program::Header {
            kind: 1,
            flags: 5,
            offset: 0x120,
            virtual_address: 0x201120,
            physical_address: 0x201120,
            file_size: seg as u64,
            memory_size: seg as u64,
            align: 0x1000,
        },
    ) + spec_program_bytes(
        program::Header {
            kind: 0x6474E551,
            flags: 6,
            offset: 0,
            virtual_address: 0,
            physical_address: 0,
            file_size: 0,
            memory_size: 0,
            align: 0,
        },
    ) + code + data + spec_shstrtab() + spec_section_bytes(
        section::Header {
            name: 0,
            kind: 0,
            flags: 0,
            address: 0,
            offset: 0,
            len: 0,
            link: 0,
            info: 0,
            align: 0,
            entry_len: 0,
        },
    ) + spec_section_bytes(
        section::Header {
            name: 1,
            kind: 1,
            flags: 6,
            address: 0x201120,
            offset: 0x120,
            len: seg as u64,
            link: 0,
            info: 0,
            align: 16,
            entry_len: 0,
        },
    ) + spec_section_bytes(
        section::Header {
            name: 7,
            kind: 3,
            flags: 0,
            address: 0,
            offset: (0x120 + seg) as u64,
            len: 0x11,
            link: 0,
            info: 0,
            align: 1,
            entry_len: 0,
        },
    )
}

/// Appends a borrowed byte region to the output buffer.
fn push_bytes(out: &mut Vec<u8>, part: &Vec<u8>)
    ensures
        final(out)@ == old(out)@ + part@,
{
    let ghost pre = out@;
    let mut k: usize = 0;
    while k < part.len()
        invariant
            k <= part@.len(),
            out@ == pre + part@.take(k as int),
        decreases part@.len() - k,
    {
        out.push(part[k]);
        proof {
            assert(part@.take(k + 1) =~= part@.take(k as int).push(part@[k as int]));
        }
        k = k + 1;
    }
    proof {
        assert(part@.take(part@.len() as int) =~= part@);
    }
}

/// Assembles the final image from the encoded code bytes and the
/// concatenated string data.
#[verifier::rlimit(100)]
pub fn assemble(code: &Vec<u8>, data: &Vec<u8>) -> (r: Vec<u8>)
    requires
        code@.len() <= 0xFFFF_FFFF,
        data@.len() <= 0xFFFF_FFFF,
    ensures
        r@ == spec_image(code@, data@),
{
    let seg: u64 = code.len() as u64 + data.len() as u64;
    let shoff: u64 = 0x120 + seg + 17;

    let mut elf = Elf::new();
    elf.class64();
    elf.endian_little();
    elf.version(1);
    elf.abi_sysv();
    elf.abi_version();
    elf.kind_exec();
    elf.machine_x86_64();
    elf.version2();
    elf.entry_address(0x201120);
    elf.program_headers_address(64);
    elf.section_headers_address(shoff);
    elf.flags(0);
    elf.header64();
    elf.program_size(56);
    elf.program_len(4);
    elf.section_size(64);
    elf.section_len(3);
    elf.section_index(2);

    proof {
        assert(elf == spec_image_elf((code@.len() + data@.len()) as int, shoff as int));
    }
    let mut bytes: Vec<u8> = elf.to_array();

    let mut header = program::Header::new();
    header.kind(6);
    header.flags(4);
    header.offset(0x40);
    header.file_size(0xE0);
    header.virtual_address(0x200040);
    header.memory_size(0xE0);
    header.physical_address(0x200040);
    header.align(8);
    proof {
        assert(header == (program::Header {
            kind: 6,
            flags: 4,
            offset: 0x40,
            virtual_address: 0x200040,
            physical_address: 0x200040,
            file_size: 0xE0,
            memory_size: 0xE0,
            align: 8,
        }));
    }
    let mut part = header.to_array();
    bytes.append(&mut part);

    let mut header = program::Header::new();
    header.kind(1);
    header.flags(4);
    header.offset(0);
    header.file_size(0x120);
    header.virtual_address(0x200000);
    header.memory_size(0x120);
    header.physical_address(0x200000);
    header.align(0x1000);
    proof {
        assert(header == (program::Header {
            kind: 1,
            flags: 4,
            offset: 0,
            virtual_address: 0x200000,
            physical_address: 0x200000,
            file_size: 0x120,
            memory_size: 0x120,
            align: 0x1000,
        }));
    }
    let mut part = header.to_array();
    bytes.append(&mut part);

    let mut header = program::Header::new();
    header.kind(1);
    proof {
        assert((1u32 | (1u32 << 2)) == 5) by (bit_vector);
    }
    header.flags(1 | (1 << 2));
    header.offset(0x120);
    header.file_size(seg);
    header.virtual_address(0x201120);
    header.memory_size(seg);
    header.physical_address(0x201120);
    header.align(0x1000);
    proof {
        assert(header == (program::Header {
            kind: 1,
            flags: 5,
            offset: 0x120,
            virtual_address: 0x201120,
            physical_address: 0x201120,
            file_size: seg,
            memory_size: seg,
            align: 0x1000,
        }));
        assert(seg == (code@.len() + data@.len()) as u64);
    }
    let mut part = header.to_array();
    bytes.append(&mut part);

    let mut header = program::Header::new();
    header.kind(0x6474_E551);
    proof {
        assert(((1u32 << 1) | (1u32 << 2)) == 6) by (bit_vector);
    }
    header.flags((1 << 1) | (1 << 2));
    proof {
        assert(header == (program::Header {
            kind: 0x6474E551,
            flags: 6,
            offset: 0,
            virtual_address: 0,
            physical_address: 0,
            file_size: 0,
            memory_size: 0,
            align: 0,
        }));
    }
    let mut part = header.to_array();
    bytes.append(&mut part);

    push_bytes(&mut bytes, code);
    push_bytes(&mut bytes, data);

    let mut names: Vec<u8> = vec![
        0x00u8,
        0x2E,
        0x74,
        0x65,
        0x78,
        0x74,
        0x00,
        0x2E,
        0x73,
        0x68,
        0x73,
        0x74,
        0x72,
        0x74,
        0x61,
        0x62,
        0x00,
    ];
    proof {
        assert(names@ =~= spec_shstrtab());
    }
    bytes.append(&mut names);

    let section_header = section::Header::new();
    proof {
        assert(section_header == (section::Header {
            name: 0,
            kind: 0,
            flags: 0,
            address: 0,
            offset: 0,
            len: 0,
            link: 0,
            info: 0,
            align: 0,
            entry_len: 0,
        }));
    }
    let mut part = section_header.to_array();
    bytes.append(&mut part);

    let mut section_header = section::Header::new();
    section_header.name(1);
    section_header.len(seg);
    section_header.kind(1);
    section_header.align(16);
    section_header.offset(0x120);
    section_header.address(0x201120);
    proof {
        assert((0x2u64 | 0x4u64) == 6) by (bit_vector);
    }
    section_header.flags(0x2 | 0x4);
    proof {
        assert(section_header == (section::Header {
            name: 1,
            kind: 1,
            flags: 6,
            address: 0x201120,
            offset: 0x120,
            len: seg,
            link: 0,
            info: 0,
            align: 16,
            entry_len: 0,
        }));
    }
    let mut part = section_header.to_array();
    bytes.append(&mut part);

    let mut section_header = section::Header::new();
    section_header.name(7);
    section_header.len(0x11);
    section_header.kind(3);
    section_header.align(1);
    section_header.offset(0x120 + seg);
    proof {
        assert(section_header == (section::Header {
            name: 7,
            kind: 3,
            flags: 0,
            address: 0,
            offset: (0x120 + code@.len() + data@.len()) as u64,
            len: 0x11,
            link: 0,
            info: 0,
            align: 1,
            entry_len: 0,
        }));
    }
    let mut part = section_header.to_array();
    bytes.append(&mut part);

    proof {
        assert(bytes@ == spec_image(code@, data@));
    }
    bytes
}

} // verus!
