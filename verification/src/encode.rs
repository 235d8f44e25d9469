//! Instruction encoding: the offset-annotated pseudo-operation
//! program is expanded into the final operation sequence, and the
//! rip-relative string loads get their resolved displacements.
//!
//! A placeholder at expanded offset `o` becomes four operations —
//! push of the string's length plus its terminator, a pop into the
//! count register, the rip-relative load with displacement
//! `total − o' − 5` where `o'` is the load's own offset, and the
//! accumulator move — so the expansion cannot run before the total
//! expanded length of the whole program is known.

use vstd::prelude::*;

use crate::ir::{byteseqs_of, spec_ilen, Intermediate};
use crate::offsets::spec_offset_of;
use crate::op::{spec_op_bytes, spec_ops_bytes, Op};

verus! {

/// The byte length a pseudo-operation expands to: the placeholder
/// becomes four operations totaling 13 bytes; every other operation
/// maps one to one and keeps its fixed length.
pub open spec fn spec_elen(op: Intermediate) -> nat {
    match op {
        Intermediate::lea64_str_rdi_rsi(_) => 13,
        _ => spec_ilen(op),
    }
}

/// The expanded byte offset of position `i`.
pub open spec fn spec_eoff(ops: Seq<Intermediate>, i: int) -> nat
    decreases i,
{
    if i <= 0 {
        0
    } else {
        spec_eoff(ops, i - 1) + spec_elen(ops[i - 1])
    }
}

/// The total expanded byte length of the program.
pub open spec fn spec_total_len(ops: Seq<Intermediate>) -> nat {
    spec_eoff(ops, ops.len() as int)
}

/// Expanded partial sums never decrease.
pub proof fn lemma_eoff_le(ops: Seq<Intermediate>, i: int, j: int)
    requires
        0 <= i <= j <= ops.len(),
    ensures
        spec_eoff(ops, i) <= spec_eoff(ops, j),
    decreases j,
{
    if i < j {
        lemma_eoff_le(ops, i, j - 1);
    }
}

/// The reserved offsets never exceed the expanded offsets.
pub proof fn lemma_offset_le_eoff(ops: Seq<Intermediate>, i: int)
    requires
        0 <= i <= ops.len(),
    ensures
        spec_offset_of(ops, i) <= spec_eoff(ops, i),
    decreases i,
{
    if i > 0 {
        lemma_offset_le_eoff(ops, i - 1);
        assert(spec_ilen(ops[i - 1]) <= spec_elen(ops[i - 1]));
    }
}

fn elen(op: &Intermediate) -> (r: usize)
    ensures
        r == spec_elen(*op),
{
    match op {
        Intermediate::lea64_str_rdi_rsi(_) => 13,
        _ => op.len(),
    }
}

/// The total expanded length, or `None` when it cannot be addressed
/// with the 32-bit offsets the executable template uses.
pub fn total_len_checked(ops: &Vec<Intermediate>) -> (r: Option<u64>)
    ensures
        match r {
            Some(t) => t == spec_total_len(ops@) && t <= 0xFFFF_FFFF,
            None => spec_total_len(ops@) > 0xFFFF_FFFF,
        },
{
    let mut off: u64 = 0;
    let mut i: usize = 0;
    while i < ops.len()
        invariant
            i <= ops@.len(),
            off == spec_eoff(ops@, i as int),
            off <= 0xFFFF_FFFF,
        decreases ops@.len() - i,
    {
        let l = elen(&ops[i]) as u64;
        if off + l > 0xFFFF_FFFF {
            proof {
                lemma_eoff_le(ops@, i + 1, ops@.len() as int);
            }
            return None;
        }
        off = off + l;
        i = i + 1;
    }
    Some(off)
}

/// Every string-table index carried by a placeholder is in range,
/// and the entry it names fits a one-byte push with its terminator.
pub open spec fn spec_code_wf(ops: Seq<Intermediate>, strs: Seq<Seq<u8>>) -> bool {
    forall|k: int|
        0 <= k < ops.len() ==> ((#[trigger] ops[k]) matches Intermediate::lea64_str_rdi_rsi(si)
            ==> si < strs.len() && strs[si as int].len() + 1 <= 255)
}

/// The final operations one pseudo-operation expands to, given its
/// expanded offset, the total expanded length, and the string table.
pub open spec fn spec_expand_op(
    op: Intermediate,
    eoff: int,
    total: int,
    strs: Seq<Seq<u8>>,
) -> Seq<Op> {
    match op {
        Intermediate::lea64_str_rdi_rsi(si) => seq![
            Op::push64((strs[si as int].len() + 1) as u8),
            Op::pop64_rdx,
            Op::lea64_rip_rsi((total - (eoff + 3) - 5) as u32),
            Op::mov64_rax_rdi,
        ],
        Intermediate::mov64_int_rax(n) => seq![Op::mov64_int_rax(n)],
        Intermediate::mov64_int_rdi(n) => seq![Op::mov64_int_rdi(n)],
        Intermediate::mov64_rax_rdi => seq![Op::mov64_rax_rdi],
        Intermediate::pop64_rax => seq![Op::pop64_rax],
        Intermediate::pop64_rdx => seq![Op::pop64_rdx],
        Intermediate::push64(n) => seq![Op::push64(n)],
        Intermediate::syscall => seq![Op::syscall],
        Intermediate::xor64_rdi_rdi => seq![Op::xor64_rdi_rdi],
    }
}

/// The expansion of the program from position `i` on.
pub open spec fn spec_encode_from(ops: Seq<Intermediate>, strs: Seq<Seq<u8>>, i: int) -> Seq<Op>
    decreases ops.len() - i,
    when 0 <= i <= ops.len()
{
    if i >= ops.len() {
        Seq::empty()
    } else {
        spec_expand_op(ops[i], spec_eoff(ops, i) as int, spec_total_len(ops) as int, strs)
            + spec_encode_from(ops, strs, i + 1)
    }
}

/// The final operation sequence of a whole program.
pub open spec fn spec_encode(ops: Seq<Intermediate>, strs: Seq<Seq<u8>>) -> Seq<Op> {
    spec_encode_from(ops, strs, 0)
}

/// The pseudo-operations of an offset table, in order.
pub open spec fn table_ops(t: Seq<(u64, Intermediate)>) -> Seq<Intermediate> {
    Seq::new(t.len(), |i: int| t[i].1)
}

/// Expands the offset-annotated program into the final operation
/// sequence, resolving each placeholder's displacement.
pub fn encode(table: &Vec<(u64, Intermediate)>, strings: &Vec<Vec<u8>>) -> (r: Vec<Op>)
    requires
        spec_code_wf(table_ops(table@), byteseqs_of(strings@)),
        spec_total_len(table_ops(table@)) <= 0xFFFF_FFFF,
    ensures
        r@ == spec_encode(table_ops(table@), byteseqs_of(strings@)),
{
    let ghost ops = table_ops(table@);
    let ghost strs = byteseqs_of(strings@);
    let total = total_len_of_table(table);
    let mut out: Vec<Op> = Vec::new();
    let mut eoff: u64 = 0;
    let mut i: usize = 0;
    proof {
        assert(out@ =~= Seq::<Op>::empty());
    }
    while i < table.len()
        invariant
            i <= table@.len(),
            ops == table_ops(table@),
            strs == byteseqs_of(strings@),
            spec_code_wf(ops, strs),
            spec_total_len(ops) <= 0xFFFF_FFFF,
            total == spec_total_len(ops),
            eoff == spec_eoff(ops, i as int),
            spec_encode(ops, strs) == out@ + spec_encode_from(ops, strs, i as int),
        decreases table@.len() - i,
    {
        let ghost pre = out@;
        let op = table[i].1;
        proof {
            assert(ops[i as int] == op);
            lemma_eoff_le(ops, i + 1, ops.len() as int);
            assert(spec_eoff(ops, i + 1) == eoff + spec_elen(op));
        }
        match op {
            Intermediate::lea64_str_rdi_rsi(si) => {
                let slen = strings[si].len();
                proof {
                    assert(strs[si as int] == strings@[si as int]@);
                    assert(slen + 1 <= 255);
                }
                out.push(Op::push64((slen + 1) as u8));
                out.push(Op::pop64_rdx);
                out.push(Op::lea64_rip_rsi((total - (eoff + 3) - 5) as u32));
                out.push(Op::mov64_rax_rdi);
            },
            Intermediate::mov64_int_rax(n) => {
                out.push(Op::mov64_int_rax(n));
            },
            Intermediate::mov64_int_rdi(n) => {
                out.push(Op::mov64_int_rdi(n));
            },
            Intermediate::mov64_rax_rdi => {
                out.push(Op::mov64_rax_rdi);
            },
            Intermediate::pop64_rax => {
                out.push(Op::pop64_rax);
            },
            Intermediate::pop64_rdx => {
                out.push(Op::pop64_rdx);
            },
            Intermediate::push64(n) => {
                out.push(Op::push64(n));
            },
            Intermediate::syscall => {
                out.push(Op::syscall);
            },
            Intermediate::xor64_rdi_rdi => {
                out.push(Op::xor64_rdi_rdi);
            },
        }
        proof {
            assert(out@ =~= pre + spec_expand_op(
                ops[i as int],
                spec_eoff(ops, i as int) as int,
                spec_total_len(ops) as int,
                strs,
            ));
            assert(spec_encode(ops, strs) =~= out@ + spec_encode_from(ops, strs, i + 1));
        }
        eoff = eoff + elen(&table[i].1) as u64;
        i = i + 1;
    }
    out
}

/// The total expanded length of an offset table's program, already
/// known to fit the 32-bit bound.
fn total_len_of_table(table: &Vec<(u64, Intermediate)>) -> (r: u64)
    requires
        spec_total_len(table_ops(table@)) <= 0xFFFF_FFFF,
    ensures
        r == spec_total_len(table_ops(table@)),
{
    let ghost ops = table_ops(table@);
    let mut off: u64 = 0;
    let mut i: usize = 0;
    while i < table.len()
        invariant
            i <= table@.len(),
            ops == table_ops(table@),
            spec_total_len(ops) <= 0xFFFF_FFFF,
            off == spec_eoff(ops, i as int),
        decreases table@.len() - i,
    {
        proof {
            lemma_eoff_le(ops, i + 1, ops.len() as int);
            assert(ops[i as int] == table@[i as int].1);
        }
        off = off + elen(&table[i].1) as u64;
        i = i + 1;
    }
    off
}

/// Emits the byte encoding of a final operation sequence.
pub fn emit(ops: &Vec<Op>) -> (r: Vec<u8>)
    ensures
        r@ == spec_ops_bytes(ops@),
{
    let mut out: Vec<u8> = Vec::new();
    let mut i: usize = 0;
    proof {
        assert(ops@.skip(0) =~= ops@);
        assert(out@ =~= Seq::<u8>::empty());
    }
    while i < ops.len()
        invariant
            i <= ops@.len(),
            spec_ops_bytes(ops@) == out@ + spec_ops_bytes(ops@.skip(i as int)),
        decreases ops@.len() - i,
    {
        let ghost pre = out@;
        let mut b = ops[i].to_bytes();
        out.append(&mut b);
        proof {
            assert(ops@.skip(i as int)[0] == ops@[i as int]);
            assert(ops@.skip(i as int).skip(1) =~= ops@.skip(i + 1));
            assert(spec_ops_bytes(ops@.skip(i as int)) == spec_op_bytes(ops@[i as int])
                + spec_ops_bytes(ops@.skip(i + 1)));
            assert(spec_ops_bytes(ops@) =~= out@ + spec_ops_bytes(ops@.skip(i + 1)));
        }
        i = i + 1;
    }
    proof {
        assert(ops@.skip(ops@.len() as int) =~= Seq::<Op>::empty());
        assert(spec_ops_bytes(ops@) =~= out@);
    }
    out
}

proof fn lemma_ops_bytes_cons(op: Op, rest: Seq<Op>)
    ensures
        spec_ops_bytes(seq![op] + rest) == spec_op_bytes(op) + spec_ops_bytes(rest),
{
    let s = seq![op] + rest;
    assert(s.len() == 1 + rest.len());
    assert(s[0] == op);
    assert(s.skip(1) =~= rest);
}

proof fn lemma_expand_bytes_len(op: Intermediate, eoff: int, total: int, strs: Seq<Seq<u8>>)
    ensures
        spec_ops_bytes(spec_expand_op(op, eoff, total, strs)).len() == spec_elen(op),
{
    let e = spec_expand_op(op, eoff, total, strs);
    match op {
        Intermediate::lea64_str_rdi_rsi(si) => {
            let a = Op::push64((strs[si as int].len() + 1) as u8);
            let b = Op::pop64_rdx;
            let c = Op::lea64_rip_rsi((total - (eoff + 3) - 5) as u32);
            let d = Op::mov64_rax_rdi;
            assert(e =~= seq![a] + (seq![b] + (seq![c] + (seq![d] + Seq::<Op>::empty()))));
            lemma_ops_bytes_cons(d, Seq::empty());
            lemma_ops_bytes_cons(c, seq![d] + Seq::<Op>::empty());
            lemma_ops_bytes_cons(b, seq![c] + (seq![d] + Seq::<Op>::empty()));
            lemma_ops_bytes_cons(a, seq![b] + (seq![c] + (seq![d] + Seq::<Op>::empty())));
            assert(spec_ops_bytes(Seq::<Op>::empty()) == Seq::<u8>::empty());
        },
        _ => {
            assert(e.len() == 1);
            assert(e =~= seq![e[0]] + Seq::<Op>::empty());
            lemma_ops_bytes_cons(e[0], Seq::empty());
            assert(spec_ops_bytes(Seq::<Op>::empty()) == Seq::<u8>::empty());
        },
    }
}

proof fn lemma_ops_bytes_concat(a: Seq<Op>, b: Seq<Op>)
    ensures
        spec_ops_bytes(a + b) == spec_ops_bytes(a) + spec_ops_bytes(b),
    decreases a.len(),
{
    if a.len() == 0 {
        assert(a + b =~= b);
        assert(spec_ops_bytes(a) == Seq::<u8>::empty());
        assert(spec_ops_bytes(a) + spec_ops_bytes(b) =~= spec_ops_bytes(b));
    } else {
        lemma_ops_bytes_concat(a.skip(1), b);
        assert((a + b).skip(1) =~= a.skip(1) + b);
        assert((a + b)[0] == a[0]);
        assert(spec_ops_bytes(a + b) == spec_op_bytes(a[0]) + spec_ops_bytes(a.skip(1) + b));
        assert(spec_op_bytes(a[0]) + (spec_ops_bytes(a.skip(1)) + spec_ops_bytes(b)) =~= (
        spec_op_bytes(a[0]) + spec_ops_bytes(a.skip(1))) + spec_ops_bytes(b));
    }
}

proof fn lemma_encode_from_bytes_len(ops: Seq<Intermediate>, strs: Seq<Seq<u8>>, i: int)
    requires
        0 <= i <= ops.len(),
    ensures
        spec_ops_bytes(spec_encode_from(ops, strs, i)).len() == spec_total_len(ops) - spec_eoff(
            ops,
            i,
        ),
    decreases ops.len() - i,
{
    lemma_eoff_le(ops, i, ops.len() as int);
    if i < ops.len() {
        lemma_encode_from_bytes_len(ops, strs, i + 1);
        let e = spec_expand_op(ops[i], spec_eoff(ops, i) as int, spec_total_len(ops) as int, strs);
        lemma_expand_bytes_len(ops[i], spec_eoff(ops, i) as int, spec_total_len(ops) as int, strs);
        lemma_ops_bytes_concat(e, spec_encode_from(ops, strs, i + 1));
    }
}

/// The encoded bytes of the expansion fill exactly the total
/// expanded length.
pub proof fn lemma_encode_bytes_len(ops: Seq<Intermediate>, strs: Seq<Seq<u8>>)
    ensures
        spec_ops_bytes(spec_encode(ops, strs)).len() == spec_total_len(ops),
{
    lemma_encode_from_bytes_len(ops, strs, 0);
}

} // verus!
