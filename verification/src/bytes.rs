//! Little-endian field serialization and UTF-8 encoding of string data.
//!
//! The binary image is produced by explicit, endianness-declared
//! field-by-field byte writing; nothing relies on in-memory layout.

use vstd::prelude::*;

verus! {

/// The two little-endian bytes of a 16-bit value.
pub open spec fn spec_u16_le(n: u16) -> Seq<u8> {
    seq![(n & 0xff) as u8, ((n >> 8) & 0xff) as u8]
}

/// The four little-endian bytes of a 32-bit value.
pub open spec fn spec_u32_le(n: u32) -> Seq<u8> {
    seq![
        (n & 0xff) as u8,
        ((n >> 8) & 0xff) as u8,
        ((n >> 16) & 0xff) as u8,
        ((n >> 24) & 0xff) as u8,
    ]
}

/// The eight little-endian bytes of a 64-bit value.
pub open spec fn spec_u64_le(n: u64) -> Seq<u8> {
    seq![
        (n & 0xff) as u8,
        ((n >> 8) & 0xff) as u8,
        ((n >> 16) & 0xff) as u8,
        ((n >> 24) & 0xff) as u8,
        ((n >> 32) & 0xff) as u8,
        ((n >> 40) & 0xff) as u8,
        ((n >> 48) & 0xff) as u8,
        ((n >> 56) & 0xff) as u8,
    ]
}

pub fn push_u16_le(buf: &mut Vec<u8>, n: u16)
    ensures
        final(buf)@ == old(buf)@ + spec_u16_le(n),
{
    assert((n & 0xff) < 0x100 && ((n >> 8) & 0xff) < 0x100) by (bit_vector);
    buf.push((n & 0xff) as u8);
    buf.push(((n >> 8) & 0xff) as u8);
    assert(buf@ =~= old(buf)@ + spec_u16_le(n));
}

pub fn push_u32_le(buf: &mut Vec<u8>, n: u32)
    ensures
        final(buf)@ == old(buf)@ + spec_u32_le(n),
{
    assert((n & 0xff) < 0x100 && ((n >> 8) & 0xff) < 0x100 && ((n >> 16) & 0xff) < 0x100
        && ((n >> 24) & 0xff) < 0x100) by (bit_vector);
    buf.push((n & 0xff) as u8);
    buf.push(((n >> 8) & 0xff) as u8);
    buf.push(((n >> 16) & 0xff) as u8);
    buf.push(((n >> 24) & 0xff) as u8);
    assert(buf@ =~= old(buf)@ + spec_u32_le(n));
}

pub fn push_u64_le(buf: &mut Vec<u8>, n: u64)
    ensures
        final(buf)@ == old(buf)@ + spec_u64_le(n),
{
    assert((n & 0xff) < 0x100 && ((n >> 8) & 0xff) < 0x100 && ((n >> 16) & 0xff) < 0x100
        && ((n >> 24) & 0xff) < 0x100 && ((n >> 32) & 0xff) < 0x100 && ((n >> 40) & 0xff) < 0x100
        && ((n >> 48) & 0xff) < 0x100 && ((n >> 56) & 0xff) < 0x100) by (bit_vector);
    buf.push((n & 0xff) as u8);
    buf.push(((n >> 8) & 0xff) as u8);
    buf.push(((n >> 16) & 0xff) as u8);
    buf.push(((n >> 24) & 0xff) as u8);
    buf.push(((n >> 32) & 0xff) as u8);
    buf.push(((n >> 40) & 0xff) as u8);
    buf.push(((n >> 48) & 0xff) as u8);
    buf.push(((n >> 56) & 0xff) as u8);
    assert(buf@ =~= old(buf)@ + spec_u64_le(n));
}

/// The UTF-8 encoding of one character.
pub open spec fn spec_utf8_char(c: char) -> Seq<u8> {
    let u = c as u32;
    if u < 0x80 {
        seq![u as u8]
    } else if u < 0x800 {
        seq![(0xC0 | (u >> 6)) as u8, (0x80 | (u & 0x3F)) as u8]
    } else if u < 0x10000 {
        seq![
            (0xE0 | (u >> 12)) as u8,
            (0x80 | ((u >> 6) & 0x3F)) as u8,
            (0x80 | (u & 0x3F)) as u8,
        ]
    } else {
        seq![
            (0xF0 | (u >> 18)) as u8,
            (0x80 | ((u >> 12) & 0x3F)) as u8,
            (0x80 | ((u >> 6) & 0x3F)) as u8,
            (0x80 | (u & 0x3F)) as u8,
        ]
    }
}

/// The UTF-8 encoding of a character sequence.
pub open spec fn spec_utf8(s: Seq<char>) -> Seq<u8>
    decreases s.len(),
{
    if s.len() == 0 {
        Seq::empty()
    } else {
        spec_utf8_char(s[0]) + spec_utf8(s.skip(1))
    }
}

/// Appends the UTF-8 encoding of one character to a byte buffer.
pub fn push_utf8_char(buf: &mut Vec<u8>, c: char)
    ensures
        final(buf)@ == old(buf)@ + spec_utf8_char(c),
{
    let u = c as u32;
    if u < 0x80 {
        buf.push(u as u8);
    } else if u < 0x800 {
        assert((0xC0 | (u >> 6)) < 0x100 && (0x80 | (u & 0x3F)) < 0x100) by (bit_vector)
            requires
                u < 0x800,
        ;
        buf.push((0xC0 | (u >> 6)) as u8);
        buf.push((0x80 | (u & 0x3F)) as u8);
    } else if u < 0x10000 {
        assert((0xE0 | (u >> 12)) < 0x100 && (0x80 | ((u >> 6) & 0x3F)) < 0x100
            && (0x80 | (u & 0x3F)) < 0x100) by (bit_vector)
            requires
                u < 0x10000,
        ;
        buf.push((0xE0 | (u >> 12)) as u8);
        buf.push((0x80 | ((u >> 6) & 0x3F)) as u8);
        buf.push((0x80 | (u & 0x3F)) as u8);
    } else {
        assert(c as u32 <= 0x10FFFF);
        assert((0xF0 | (u >> 18)) < 0x100 && (0x80 | ((u >> 12) & 0x3F)) < 0x100
            && (0x80 | ((u >> 6) & 0x3F)) < 0x100 && (0x80 | (u & 0x3F)) < 0x100) by (bit_vector)
            requires
                u <= 0x10FFFF,
        ;
        buf.push((0xF0 | (u >> 18)) as u8);
        buf.push((0x80 | ((u >> 12) & 0x3F)) as u8);
        buf.push((0x80 | ((u >> 6) & 0x3F)) as u8);
        buf.push((0x80 | (u & 0x3F)) as u8);
    }
    assert(buf@ =~= old(buf)@ + spec_utf8_char(c));
}

/// Appends the UTF-8 encoding of a character sequence to a byte buffer.
pub fn push_utf8(buf: &mut Vec<u8>, s: &Vec<char>)
    ensures
        final(buf)@ == old(buf)@ + spec_utf8(s@),
{
    let ghost buf0 = buf@;
    proof {
        assert(s@.skip(0) =~= s@);
    }
    let mut i: usize = 0;
    while i < s.len()
        invariant
            i <= s@.len(),
            buf@ + spec_utf8(s@.skip(i as int)) == buf0 + spec_utf8(s@),
        decreases s@.len() - i,
    {
        let ghost pre = buf@;
        push_utf8_char(buf, s[i]);
        proof {
            assert(s@.skip(i as int)[0] == s@[i as int]);
            assert(s@.skip(i as int).skip(1) =~= s@.skip(i + 1));
            assert(spec_utf8(s@.skip(i as int)) == spec_utf8_char(s@[i as int]) + spec_utf8(
                s@.skip(i + 1),
            ));
            assert(buf@ + spec_utf8(s@.skip(i + 1)) =~= pre + spec_utf8(s@.skip(i as int)));
        }
        i = i + 1;
    }
    proof {
        assert(s@.skip(s@.len() as int) =~= Seq::<char>::empty());
        assert(buf@ =~= buf@ + spec_utf8(s@.skip(s@.len() as int)));
        assert(buf@ =~= buf0 + spec_utf8(s@));
    }
}

} // verus!
