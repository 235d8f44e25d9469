//! Offset resolution: the pass that assigns each pseudo-operation its
//! byte offset, the running total of the fixed lengths before it.
//!
//! The table is kept as an offset-annotated sequence in program order;
//! offsets are strictly increasing by construction, so they are unique
//! and iterating the table in order reproduces program order exactly.

use vstd::prelude::*;

use crate::ir::{spec_ilen, Intermediate};

verus! {

/// The byte offset of position `i`: the sum of the fixed lengths of
/// all pseudo-operations before it.
pub open spec fn spec_offset_of(ops: Seq<Intermediate>, i: int) -> nat
    decreases i,
{
    if i <= 0 {
        0
    } else {
        spec_offset_of(ops, i - 1) + spec_ilen(ops[i - 1])
    }
}

/// The reserved byte size of the whole pseudo-operation program.
pub open spec fn spec_code_size(ops: Seq<Intermediate>) -> nat {
    spec_offset_of(ops, ops.len() as int)
}

proof fn lemma_offset_lt(ops: Seq<Intermediate>, i: int, j: int)
    requires
        0 <= i < j <= ops.len(),
    ensures
        spec_offset_of(ops, i) < spec_offset_of(ops, j),
    decreases j,
{
    if j == i + 1 {
        assert(spec_ilen(ops[i]) >= 1);
    } else {
        lemma_offset_lt(ops, i, j - 1);
        assert(spec_ilen(ops[j - 1]) >= 1);
    }
}

/// Law: every adjacent pair of table entries satisfies
/// `offset[i + 1] == offset[i] + length(op[i])`, and the offsets are
/// strictly increasing, hence all distinct.
pub proof fn lemma_offsets_monotonic(ops: Seq<Intermediate>)
    ensures
        forall|i: int|
            0 <= i < ops.len() ==> #[trigger] spec_offset_of(ops, i + 1) == spec_offset_of(ops, i)
                + spec_ilen(ops[i]),
        forall|i: int, j: int|
            0 <= i < j <= ops.len() ==> #[trigger] spec_offset_of(ops, i)
                < #[trigger] spec_offset_of(ops, j),
{
    assert forall|i: int, j: int| 0 <= i < j <= ops.len() implies #[trigger] spec_offset_of(ops, i)
        < #[trigger] spec_offset_of(ops, j) by {
        lemma_offset_lt(ops, i, j);
    }
}

/// Non-strict form of the same fact, for bounding partial sums by the
/// total size.
pub proof fn lemma_offset_le(ops: Seq<Intermediate>, i: int, j: int)
    requires
        0 <= i <= j <= ops.len(),
    ensures
        spec_offset_of(ops, i) <= spec_offset_of(ops, j),
{
    if i < j {
        lemma_offset_lt(ops, i, j);
    }
}

/// The reserved size of the program, or `None` when it cannot be
/// addressed with the 32-bit offsets the executable template uses.
pub fn code_size_checked(ops: &Vec<Intermediate>) -> (r: Option<u64>)
    ensures
        match r {
            Some(t) => t == spec_code_size(ops@) && t <= 0xFFFF_FFFF,
            None => spec_code_size(ops@) > 0xFFFF_FFFF,
        },
{
    let mut off: u64 = 0;
    let mut i: usize = 0;
    while i < ops.len()
        invariant
            i <= ops@.len(),
            off == spec_offset_of(ops@, i as int),
            off <= 0xFFFF_FFFF,
        decreases ops@.len() - i,
    {
        let l = ops[i].len() as u64;
        if off + l > 0xFFFF_FFFF {
            proof {
                lemma_offset_le(ops@, i + 1, ops@.len() as int);
            }
            return None;
        }
        off = off + l;
        i = i + 1;
    }
    Some(off)
}

/// Builds the offset table: each pseudo-operation paired with its
/// resolved byte offset, in program order.
pub fn resolve_offsets(ops: &Vec<Intermediate>) -> (r: Vec<(u64, Intermediate)>)
    requires
        spec_code_size(ops@) <= 0xFFFF_FFFF,
    ensures
        r@.len() == ops@.len(),
        forall|i: int|
            0 <= i < ops@.len() ==> (#[trigger] r@[i]).0 == spec_offset_of(ops@, i) && r@[i].1
                == ops@[i],
{
    let mut table: Vec<(u64, Intermediate)> = Vec::new();
    let mut off: u64 = 0;
    let mut i: usize = 0;
    while i < ops.len()
        invariant
            i <= ops@.len(),
            off == spec_offset_of(ops@, i as int),
            spec_code_size(ops@) <= 0xFFFF_FFFF,
            table@.len() == i,
            forall|k: int|
                0 <= k < i ==> (#[trigger] table@[k]).0 == spec_offset_of(ops@, k) && table@[k].1
                    == ops@[k],
        decreases ops@.len() - i,
    {
        proof {
            lemma_offset_le(ops@, i + 1, ops@.len() as int);
        }
        let l = ops[i].len() as u64;
        table.push((off, ops[i]));
        off = off + l;
        i = i + 1;
    }
    table
}

} // verus!
