//! The machine-intent intermediate vocabulary and syscall lowering.
//!
//! Every syscall invocation of the source tree is lowered, in flattened
//! program order, to a short run of pseudo-operations plus a side table
//! of string literals. Each pseudo-operation has a statically known
//! encoded byte length.

use vstd::prelude::*;
use vstd::string::StrSliceExecFns;

use crate::bytes::{push_utf8, spec_utf8};
use crate::parser::{ArgModel, Argument, Source, SyscallModel};
use crate::CompileError;

verus! {

/// A machine-intent pseudo-operation. `lea64_str_rdi_rsi` is a
/// placeholder that carries a string-table index; it is never emitted
/// directly and only reserves space until addresses are resolved.
#[allow(non_camel_case_types)]
#[derive(Clone, Copy, Debug, Eq, PartialEq)]
pub enum Intermediate {
    /// placeholder: load the address of a string literal
    lea64_str_rdi_rsi(usize),
    /// movq <int>, %rax
    mov64_int_rax(u8),
    /// movq <int>, %rdi
    mov64_int_rdi(u8),
    /// movq %rax, %rdi
    mov64_rax_rdi,
    /// popq %rax
    pop64_rax,
    /// popq %rdx
    pop64_rdx,
    /// pushq <int>
    push64(u8),
    /// syscall
    syscall,
    /// xorq %rdi, %rdi
    xor64_rdi_rdi,
}

/// The fixed byte length each pseudo-operation stands for in the
/// offset table. The placeholder's length is the space it reserves.
pub open spec fn spec_ilen(op: Intermediate) -> nat {
    match op {
        Intermediate::lea64_str_rdi_rsi(_) => 7,
        Intermediate::mov64_int_rax(_) => 7,
        Intermediate::mov64_int_rdi(_) => 7,
        Intermediate::mov64_rax_rdi => 3,
        Intermediate::pop64_rax => 1,
        Intermediate::pop64_rdx => 1,
        Intermediate::push64(_) => 2,
        Intermediate::syscall => 2,
        Intermediate::xor64_rdi_rdi => 3,
    }
}

impl Intermediate {
    /// The fixed byte length of this pseudo-operation.
    pub fn len(&self) -> (r: usize)
        ensures
            r == spec_ilen(*self),
    {
        match self {
            Intermediate::lea64_str_rdi_rsi(_) => 7,
            Intermediate::mov64_int_rax(_) => 7,
            Intermediate::mov64_int_rdi(_) => 7,
            Intermediate::mov64_rax_rdi => 3,
            Intermediate::pop64_rax => 1,
            Intermediate::pop64_rdx => 1,
            Intermediate::push64(_) => 2,
            Intermediate::syscall => 2,
            Intermediate::xor64_rdi_rdi => 3,
        }
    }
}

/// One code unit: the flat pseudo-operation program and the string
/// literal table its placeholders index into.
#[derive(Clone, Debug)]
pub struct Code {
    pub ops: Vec<Intermediate>,
    pub strings: Vec<Vec<u8>>,
}


/// The two-character escape `\\n` replaced, left to right, by one
/// newline character.
pub open spec fn spec_unescape(s: Seq<char>) -> Seq<char>
    decreases s.len(),
{
    if s.len() == 0 {
        Seq::empty()
    } else if s.len() >= 2 && s[0] == '\\' && s[1] == 'n' {
        seq!['\n'] + spec_unescape(s.skip(2))
    } else {
        seq![s[0]] + spec_unescape(s.skip(1))
    }
}

/// The stored bytes of a string literal: the span without its quote
/// delimiters, escapes replaced, UTF-8 encoded.
pub open spec fn spec_string_bytes(span: Seq<char>) -> Seq<u8> {
    if span.len() >= 2 {
        spec_utf8(spec_unescape(span.subrange(1, span.len() - 1)))
    } else {
        Seq::empty()
    }
}

fn unescape_chars(s: &str) -> (r: Vec<char>)
    ensures
        r@ == spec_unescape(s@),
{
    let n = s.unicode_len();
    let mut out: Vec<char> = Vec::new();
    let mut i: usize = 0;
    proof {
        assert(s@.skip(0) =~= s@);
        assert(out@ =~= Seq::<char>::empty());
    }
    while i < n
        invariant
            i <= n,
            n == s@.len(),
            spec_unescape(s@) == out@ + spec_unescape(s@.skip(i as int)),
        decreases n - i,
    {
        let c = s.get_char(i);
        if i + 1 < n && c == '\\' {
            let c1 = s.get_char(i + 1);
            if c1 == 'n' {
                out.push('\n');
                proof {
                    assert(s@.skip(i as int).skip(2) =~= s@.skip(i + 2));
                    assert(spec_unescape(s@.skip(i as int)) == seq!['\n'] + spec_unescape(
                        s@.skip(i + 2),
                    ));
                    assert(spec_unescape(s@) =~= out@ + spec_unescape(s@.skip(i + 2)));
                }
                i = i + 2;
                continue ;
            }
        }
        out.push(c);
        proof {
            assert(s@.skip(i as int)[0] == s@[i as int]);
            assert(s@.skip(i as int).skip(1) =~= s@.skip(i + 1));
            assert(spec_unescape(s@.skip(i as int)) == seq![s@[i as int]] + spec_unescape(
                s@.skip(i + 1),
            ));
            assert(spec_unescape(s@) =~= out@ + spec_unescape(s@.skip(i + 1)));
        }
        i = i + 1;
    }
    proof {
        assert(s@.skip(n as int) =~= Seq::<char>::empty());
        assert(spec_unescape(s@) =~= out@);
    }
    out
}

/// The string-table entry for a string literal span.
fn string_table_entry(span: &str) -> (r: Vec<u8>)
    ensures
        r@ == spec_string_bytes(span@),
{
    let n = span.unicode_len();
    if n < 2 {
        let r: Vec<u8> = Vec::new();
        proof {
            assert(r@ =~= Seq::<u8>::empty());
        }
        return r;
    }
    let content = span.substring_char(1, n - 1);
    let chars = unescape_chars(content);
    let mut bytes: Vec<u8> = Vec::new();
    push_utf8(&mut bytes, &chars);
    proof {
        assert(bytes@ =~= spec_string_bytes(span@));
    }
    bytes
}

/// Whether a syscall's id and arguments fit the one-byte instruction
/// operands: the id and an integer argument must be at most 255, and
/// a string argument's stored bytes plus its terminator must fit too.
pub open spec fn spec_syscall_encodable(s: SyscallModel) -> bool {
    &&& s.id <= 255
    &&& (s.arg0 matches ArgModel::U64(v) ==> v <= 255)
    &&& (s.arg0 matches ArgModel::Str(sp) ==> spec_string_bytes(sp).len() + 1 <= 255)
}

/// The pseudo-operations one syscall lowers to, with `base` the
/// string-table index its string argument would take. A string
/// argument loads the id through a stack round trip so the later
/// address load may clobber the accumulator; an integer argument
/// uses the cheaper clear idiom when it is zero; an absent argument
/// emits only the id load. Every lowering ends with the trap.
pub open spec fn spec_syscall_ops(s: SyscallModel, base: int) -> Seq<Intermediate> {
    match s.arg0 {
        ArgModel::Str(_) => seq![
            Intermediate::push64(s.id as u8),
            Intermediate::pop64_rax,
            Intermediate::lea64_str_rdi_rsi(base as usize),
            Intermediate::syscall,
        ],
        ArgModel::U64(v) => if v == 0 {
            seq![
                Intermediate::mov64_int_rax(s.id as u8),
                Intermediate::xor64_rdi_rdi,
                Intermediate::syscall,
            ]
        } else {
            seq![
                Intermediate::mov64_int_rax(s.id as u8),
                Intermediate::mov64_int_rdi(v as u8),
                Intermediate::syscall,
            ]
        },
        ArgModel::Absent => seq![Intermediate::mov64_int_rax(s.id as u8), Intermediate::syscall],
    }
}

/// The string-table entries one syscall appends: one for a string
/// argument, none otherwise.
pub open spec fn spec_syscall_strs(s: SyscallModel) -> Seq<Seq<u8>> {
    match s.arg0 {
        ArgModel::Str(sp) => seq![spec_string_bytes(sp)],
        _ => Seq::empty(),
    }
}

/// Lowers a body's syscalls in order onto the accumulators; `None`
/// when a value is out of the encodable range.
pub open spec fn spec_lower_calls(
    calls: Seq<SyscallModel>,
    ops: Seq<Intermediate>,
    strs: Seq<Seq<u8>>,
) -> Option<(Seq<Intermediate>, Seq<Seq<u8>>)>
    decreases calls.len(),
{
    if calls.len() == 0 {
        Some((ops, strs))
    } else {
        let s = calls[0];
        if !spec_syscall_encodable(s) {
            None
        } else {
            spec_lower_calls(
                calls.skip(1),
                ops + spec_syscall_ops(s, strs.len() as int),
                strs + spec_syscall_strs(s),
            )
        }
    }
}

/// Lowers every function's body, in order, onto the accumulators.
pub open spec fn spec_lower_fns(
    fns: Seq<crate::parser::FunctionModel>,
    ops: Seq<Intermediate>,
    strs: Seq<Seq<u8>>,
) -> Option<(Seq<Intermediate>, Seq<Seq<u8>>)>
    decreases fns.len(),
{
    if fns.len() == 0 {
        Some((ops, strs))
    } else {
        match spec_lower_calls(fns[0].body, ops, strs) {
            None => None,
            Some(p) => spec_lower_fns(fns.skip(1), p.0, p.1),
        }
    }
}

/// The lowering of a whole source tree: the flat pseudo-operation
/// program and its string table, or `None` when some syscall value
/// is out of the encodable range.
pub open spec fn spec_lower(src: Seq<crate::parser::FunctionModel>) -> Option<
    (Seq<Intermediate>, Seq<Seq<u8>>),
> {
    spec_lower_fns(src, Seq::empty(), Seq::empty())
}

/// The views of a vector of byte strings, in order.
pub open spec fn byteseqs_of(vs: Seq<Vec<u8>>) -> Seq<Seq<u8>> {
    Seq::new(vs.len(), |i: int| vs[i]@)
}

/// Lowers the source tree to a code unit, rejecting any syscall id
/// or argument value outside the encodable range 0 to 255.
pub fn lower(source: &Source) -> (r: Result<Code, CompileError>)
    ensures
        match r {
            Ok(code) => spec_lower(source@) == Some((code.ops@, byteseqs_of(code.strings@))),
            Err(e) => e == CompileError::ValueOutOfRange && spec_lower(source@) is None,
        },
{
    let ghost src = source@;
    let mut ops: Vec<Intermediate> = Vec::new();
    let mut strings: Vec<Vec<u8>> = Vec::new();
    proof {
        assert(ops@ =~= Seq::<Intermediate>::empty());
        assert(byteseqs_of(strings@) =~= Seq::<Seq<u8>>::empty());
        assert(src.skip(0) =~= src);
    }
    let mut i: usize = 0;
    while i < source.functions.len()
        invariant
            i <= source.functions@.len(),
            src == source@,
            src.len() == source.functions@.len(),
            spec_lower_fns(src.skip(i as int), ops@, byteseqs_of(strings@)) == spec_lower(src),
        decreases source.functions@.len() - i,
    {
        let f = &source.functions[i];
        let ghost fm = src[i as int];
        proof {
            assert(fm == source.functions@[i as int]@);
            assert(src.skip(i as int)[0] == fm);
            assert(src.skip(i as int).skip(1) =~= src.skip(i + 1));
            assert(fm.body.skip(0) =~= fm.body);
        }
        let mut j: usize = 0;
        while j < f.body.len()
            invariant
                j <= f.body@.len(),
                src == source@,
                f == &source.functions@[i as int],
                0 <= i < src.len(),
                fm == src[i as int],
                fm.body.len() == f.body@.len(),
                src.skip(i as int).skip(1) == src.skip(i + 1),
                ({
                    match spec_lower_calls(fm.body.skip(j as int), ops@, byteseqs_of(strings@)) {
                        Some(p) => spec_lower_fns(src.skip(i + 1), p.0, p.1) == spec_lower(src),
                        None => spec_lower(src) is None,
                    }
                }),
            decreases f.body@.len() - j,
        {
            let sc = &f.body[j];
            let ghost scm = fm.body[j as int];
            proof {
                assert(scm == f.body@[j as int]@);
                assert(fm.body.skip(j as int)[0] == scm);
                assert(fm.body.skip(j as int).skip(1) =~= fm.body.skip(j + 1));
            }
            if sc.id > 255 {
                return Err(CompileError::ValueOutOfRange);
            }
            let ghost preops = ops@;
            let ghost prestrs = byteseqs_of(strings@);
            match &sc.arg0 {
                Argument::Str(sp) => {
                    let entry = string_table_entry(sp.as_str());
                    if entry.len() > 254 {
                        return Err(CompileError::ValueOutOfRange);
                    }
                    ops.push(Intermediate::push64(sc.id as u8));
                    ops.push(Intermediate::pop64_rax);
                    ops.push(Intermediate::lea64_str_rdi_rsi(strings.len()));
                    strings.push(entry);
                },
                Argument::U64(v) => {
                    if *v > 255 {
                        return Err(CompileError::ValueOutOfRange);
                    }
                    ops.push(Intermediate::mov64_int_rax(sc.id as u8));
                    if *v == 0 {
                        ops.push(Intermediate::xor64_rdi_rdi);
                    } else {
                        ops.push(Intermediate::mov64_int_rdi(*v as u8));
                    }
                },
                Argument::Absent => {
                    ops.push(Intermediate::mov64_int_rax(sc.id as u8));
                },
            }
            ops.push(Intermediate::syscall);
            proof {
                assert(spec_syscall_encodable(scm));
                assert(ops@ =~= preops + spec_syscall_ops(scm, prestrs.len() as int));
                assert(byteseqs_of(strings@) =~= prestrs + spec_syscall_strs(scm));
            }
            j = j + 1;
        }
        proof {
            assert(fm.body.skip(f.body@.len() as int) =~= Seq::<SyscallModel>::empty());
        }
        i = i + 1;
    }
    proof {
        assert(src.skip(src.len() as int) =~= Seq::<crate::parser::FunctionModel>::empty());
    }
    Ok(Code { ops, strings })
}

} // verus!
