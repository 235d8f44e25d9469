//! The final instruction vocabulary and its fixed byte encodings.

use vstd::prelude::*;

use crate::bytes::{push_u32_le, push_u64_le, spec_u32_le, spec_u64_le};

verus! {

/// A concrete machine operation. Every variant maps to exactly one
/// fixed-length byte sequence; encoding is pure and total.
#[allow(non_camel_case_types)]
#[derive(Clone, Copy, Debug, Eq, PartialEq)]
pub enum Op {
    /// leaq <int>(%rip), %rsi
    lea64_rip_rsi(u32),
    /// movq <int>, %rax
    mov64_int_rax(u8),
    /// movq <int>, %rdi
    mov64_int_rdi(u8),
    /// movq %rax, %rdi
    mov64_rax_rdi,
    /// popq %rax
    pop64_rax,
    /// popq %rdx
    pop64_rdx,
    /// pushq <int>
    push64(u8),
    /// syscall
    syscall,
    /// xorq %rdi, %rdi
    xor64_rdi_rdi,
}

/// The literal byte encoding of one operation.
pub open spec fn spec_op_bytes(op: Op) -> Seq<u8> {
    match op {
        Op::lea64_rip_rsi(d) => seq![0x48u8, 0x8D, 0x35] + spec_u32_le(d),
        Op::mov64_int_rax(n) => seq![0x48u8, 0xC7, 0xC0, n, 0x00, 0x00, 0x00],
        Op::mov64_int_rdi(n) => seq![0x48u8, 0xC7, 0xC7, n, 0x00, 0x00, 0x00],
        Op::mov64_rax_rdi => seq![0x48u8, 0x89, 0xC7],
        Op::pop64_rax => seq![0x58u8],
        Op::pop64_rdx => seq![0x5Au8],
        Op::push64(n) => seq![0x6Au8, n],
        Op::syscall => seq![0x0Fu8, 0x05],
        Op::xor64_rdi_rdi => seq![0x48u8, 0x31, 0xFF],
    }
}

/// The encoded byte sequences, flattened in program order.
pub open spec fn spec_ops_bytes(ops: Seq<Op>) -> Seq<u8>
    decreases ops.len(),
{
    if ops.len() == 0 {
        Seq::empty()
    } else {
        spec_op_bytes(ops[0]) + spec_ops_bytes(ops.skip(1))
    }
}

impl Op {
    /// The byte encoding of this operation.
    pub fn to_bytes(&self) -> (r: Vec<u8>)
        ensures
            r@ == spec_op_bytes(*self),
    {
        match self {
            Op::lea64_rip_rsi(d) => {
                let mut v: Vec<u8> = vec![0x48u8, 0x8D, 0x35];
                push_u32_le(&mut v, *d);
                proof {
                    assert(v@ =~= spec_op_bytes(*self));
                }
                v
            },
            Op::mov64_int_rax(n) => {
                let v: Vec<u8> = vec![0x48u8, 0xC7, 0xC0, *n, 0x00, 0x00, 0x00];
                proof {
                    assert(v@ =~= spec_op_bytes(*self));
                }
                v
            },
            Op::mov64_int_rdi(n) => {
                let v: Vec<u8> = vec![0x48u8, 0xC7, 0xC7, *n, 0x00, 0x00, 0x00];
                proof {
                    assert(v@ =~= spec_op_bytes(*self));
                }
                v
            },
            Op::mov64_rax_rdi => {
                let v: Vec<u8> = vec![0x48u8, 0x89, 0xC7];
                proof {
                    assert(v@ =~= spec_op_bytes(*self));
                }
                v
            },
            Op::pop64_rax => {
                let v: Vec<u8> = vec![0x58u8];
                proof {
                    assert(v@ =~= spec_op_bytes(*self));
                }
                v
            },
            Op::pop64_rdx => {
                let v: Vec<u8> = vec![0x5Au8];
                proof {
                    assert(v@ =~= spec_op_bytes(*self));
                }
                v
            },
            Op::push64(n) => {
                let v: Vec<u8> = vec![0x6Au8, *n];
                proof {
                    assert(v@ =~= spec_op_bytes(*self));
                }
                v
            },
            Op::syscall => {
                let v: Vec<u8> = vec![0x0Fu8, 0x05];
                proof {
                    assert(v@ =~= spec_op_bytes(*self));
                }
                v
            },
            Op::xor64_rdi_rdi => {
                let v: Vec<u8> = vec![0x48u8, 0x31, 0xFF];
                proof {
                    assert(v@ =~= spec_op_bytes(*self));
                }
                v
            },
        }
    }
}

/// A single encoded instruction as a growable byte buffer.
/// Opcodes have a max encoded length of 15 bytes, and every
/// constructor below stays well under that bound.
#[derive(Clone, Debug)]
pub struct Opcode {
    data: Vec<u8>,
}

impl Opcode {
    /// What the buffer holds, in order.
    pub closed spec fn view(&self) -> Seq<u8> {
        self.data@
    }

    pub(crate) fn new() -> (r: Self)
        ensures
            r@ == Seq::<u8>::empty(),
    {
        Opcode { data: Vec::new() }
    }

    pub fn len(&self) -> (r: usize)
        ensures
            r == self@.len(),
    {
        self.data.len()
    }

    pub fn is_empty(&self) -> (r: bool)
        ensures
            r == (self@.len() == 0),
    {
        self.data.len() == 0
    }

    pub fn as_bytes(&self) -> (r: &[u8])
        ensures
            r@ == self@,
    {
        self.data.as_slice()
    }

    /// leaq <address>(%rip), %rsi with a 4-byte little-endian address field.
    pub fn load_effective_address(address: u32) -> (r: Self)
        ensures
            r@ == seq![0x48u8, 0x8D, 0x35] + spec_u32_le(address),
            r@.len() == 7,
    {
        let mut this = Self::new();
        this.data.push(0x48);
        this.data.push(0x8D);
        this.data.push(0x35);
        push_u32_le(&mut this.data, address);
        proof {
            assert(this.data@ =~= seq![0x48u8, 0x8D, 0x35] + spec_u32_le(address));
        }
        this
    }

    /// movq <integer>, <register> with an 8-byte little-endian immediate.
    pub fn move_to_register(register: u8, integer: u64) -> (r: Self)
        ensures
            r@ == seq![0x48u8, 0xC7, register] + spec_u64_le(integer),
            r@.len() == 11,
    {
        let mut this = Self::new();
        this.data.push(0x48);
        this.data.push(0xC7);
        this.data.push(register);
        push_u64_le(&mut this.data, integer);
        proof {
            assert(this.data@ =~= seq![0x48u8, 0xC7, register] + spec_u64_le(integer));
        }
        this
    }
}

} // verus!
