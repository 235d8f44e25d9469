//! The whole pipeline, strictly sequential: lex, parse, lower,
//! resolve offsets, encode, assemble. The compiler consumes a source
//! text and produces the complete executable image as a byte buffer;
//! it performs no input or output of its own.

use vstd::prelude::*;

use crate::assemble::{assemble, concat_strings, spec_cat, spec_image};
use crate::encode::{
    emit, encode, lemma_encode_bytes_len, lemma_offset_le_eoff, spec_code_wf, spec_encode,
    spec_total_len, table_ops, total_len_checked,
};
use crate::ir::{
    byteseqs_of, lower, spec_lower, spec_lower_calls, spec_lower_fns, spec_syscall_ops,
    spec_syscall_strs, Intermediate,
};
use crate::lexer::spec_lex;
use crate::offsets::resolve_offsets;
use crate::op::spec_ops_bytes;
use crate::parser::{sp_parse, FunctionModel, Parser, SyscallModel};
use crate::CompileError;

verus! {

/// What compiling a source text yields: the executable image, or the
/// error the pipeline stops with.
pub enum CompileModel {
    /// The bytes of the complete executable image.
    Image(Seq<u8>),
    /// The error the compilation fails with.
    Fail(CompileError),
}

/// The compilation of a source text, stage by stage: a fatal lexing
/// stop aborts everything; the parsed tree is lowered, and a value
/// out of the encodable range rejects the program; a program whose
/// code or data cannot be addressed with the template's 32-bit
/// offsets is rejected; otherwise the offsets are resolved, the
/// operations encoded, and the image assembled.
pub open spec fn spec_compile(input: Seq<char>) -> CompileModel {
    let lx = spec_lex(input, 0);
    if lx.stop is Fatal {
        CompileModel::Fail(CompileError::IntegerOverflow)
    } else {
        let src = sp_parse(lx.toks, 0);
        match spec_lower(src) {
            None => CompileModel::Fail(CompileError::ValueOutOfRange),
            Some(p) => {
                let ops = p.0;
                let strs = p.1;
                if spec_total_len(ops) > 0xFFFF_FFFF || spec_cat(strs).len() > 0xFFFF_FFFF {
                    CompileModel::Fail(CompileError::ImageTooLarge)
                } else {
                    CompileModel::Image(
                        spec_image(spec_ops_bytes(spec_encode(ops, strs)), spec_cat(strs)),
                    )
                }
            },
        }
    }
}

/// Every entry of a string table fits a one-byte push with its
/// terminator.
pub open spec fn spec_strs_short(strs: Seq<Seq<u8>>) -> bool {
    forall|q: int| 0 <= q < strs.len() ==> (#[trigger] strs[q]).len() + 1 <= 255
}

proof fn lemma_lower_calls_wf(
    calls: Seq<SyscallModel>,
    ops: Seq<Intermediate>,
    strs: Seq<Seq<u8>>,
)
    requires
        spec_code_wf(ops, strs),
        spec_strs_short(strs),
        spec_lower_calls(calls, ops, strs) is Some,
    ensures
        spec_code_wf(
            (spec_lower_calls(calls, ops, strs)->0).0,
            (spec_lower_calls(calls, ops, strs)->0).1,
        ),
        spec_strs_short((spec_lower_calls(calls, ops, strs)->0).1),
    decreases calls.len(),
{
    if calls.len() > 0 {
        let s = calls[0];
        let sops = spec_syscall_ops(s, strs.len() as int);
        let sstrs = spec_syscall_strs(s);
        let ops2 = ops + sops;
        let strs2 = strs + sstrs;
        assert(crate::ir::spec_syscall_encodable(s));
        assert(spec_strs_short(strs2)) by {
            assert forall|q: int| 0 <= q < strs2.len() implies (#[trigger] strs2[q]).len() + 1
                <= 255 by {
                if q < strs.len() {
                    assert(strs2[q] == strs[q]);
                } else {
                    assert(strs2[q] == sstrs[q - strs.len()]);
                }
            }
        }
        assert(spec_code_wf(ops2, strs2)) by {
            assert forall|k: int|
                0 <= k < ops2.len() implies ((#[trigger] ops2[k])
                matches Intermediate::lea64_str_rdi_rsi(si) ==> si < strs2.len() && strs2[
                si as int].len() + 1 <= 255) by {
                if k < ops.len() {
                    assert(ops2[k] == ops[k]);
                    match ops[k] {
                        Intermediate::lea64_str_rdi_rsi(si) => {
                            assert(si < strs.len() && strs[si as int].len() + 1 <= 255);
                            assert(strs2[si as int] == strs[si as int]);
                        },
                        _ => {},
                    }
                } else {
                    let j = k - ops.len();
                    assert(ops2[k] == sops[j]);
                    match s.arg0 {
                        crate::parser::ArgModel::Str(sp) => {
                            let base = strs.len() as usize;
                            if strs.len() <= usize::MAX {
                                assert(base == strs.len());
                            }
                            assert(base <= strs.len());
                            assert(strs2.len() == strs.len() + 1);
                            assert(sops[0] == Intermediate::push64(s.id as u8));
                            assert(sops[1] == Intermediate::pop64_rax);
                            assert(sops[2] == Intermediate::lea64_str_rdi_rsi(base));
                            assert(sops[3] == Intermediate::syscall);
                        },
                        crate::parser::ArgModel::U64(v) => {
                            assert(!(sops[j] matches Intermediate::lea64_str_rdi_rsi(si)));
                        },
                        crate::parser::ArgModel::Absent => {
                            assert(!(sops[j] matches Intermediate::lea64_str_rdi_rsi(si)));
                        },
                    }
                }
            }
        }
        lemma_lower_calls_wf(calls.skip(1), ops2, strs2);
    }
}

proof fn lemma_lower_fns_wf(fns: Seq<FunctionModel>, ops: Seq<Intermediate>, strs: Seq<Seq<u8>>)
    requires
        spec_code_wf(ops, strs),
        spec_strs_short(strs),
        spec_lower_fns(fns, ops, strs) is Some,
    ensures
        spec_code_wf((spec_lower_fns(fns, ops, strs)->0).0, (spec_lower_fns(fns, ops, strs)->0).1),
    decreases fns.len(),
{
    if fns.len() > 0 {
        let p = spec_lower_calls(fns[0].body, ops, strs);
        lemma_lower_calls_wf(fns[0].body, ops, strs);
        lemma_lower_fns_wf(fns.skip(1), (p->0).0, (p->0).1);
    }
}

/// Whatever lowering yields is well formed: every placeholder's
/// string-table index is in range and its entry fits a one-byte push.
pub proof fn lemma_lower_wf(src: Seq<FunctionModel>)
    requires
        spec_lower(src) is Some,
    ensures
        spec_code_wf((spec_lower(src)->0).0, (spec_lower(src)->0).1),
{
    assert(spec_code_wf(Seq::<Intermediate>::empty(), Seq::<Seq<u8>>::empty()));
    assert(spec_strs_short(Seq::<Seq<u8>>::empty()));
    lemma_lower_fns_wf(src, Seq::empty(), Seq::empty());
}

/// Compiles a source text into a complete executable image.
/// Identical source texts always yield byte-identical buffers: the
/// result is a function of the input characters alone.
pub fn compile(input: &str) -> (r: Result<Vec<u8>, CompileError>)
    ensures
        match r {
            Ok(image) => spec_compile(input@) == CompileModel::Image(image@),
            Err(e) => spec_compile(input@) == CompileModel::Fail(e),
        },
{
    let mut parser = Parser::new(input);
    let source = parser.parse();
    if parser.fatal {
        return Err(CompileError::IntegerOverflow);
    }
    let code = match lower(&source) {
        Ok(c) => c,
        Err(e) => {
            return Err(e);
        },
    };
    let ghost src = sp_parse(spec_lex(input@, 0).toks, 0);
    proof {
        assert(spec_lower(src) == Some((code.ops@, byteseqs_of(code.strings@))));
    }
    if total_len_checked(&code.ops).is_none() {
        return Err(CompileError::ImageTooLarge);
    }
    let data = concat_strings(&code.strings);
    if data.len() as u64 > 0xFFFF_FFFF {
        return Err(CompileError::ImageTooLarge);
    }
    proof {
        lemma_offset_le_eoff(code.ops@, code.ops@.len() as int);
        lemma_lower_wf(src);
    }
    let table = resolve_offsets(&code.ops);
    proof {
        assert(table_ops(table@) =~= code.ops@);
    }
    let final_ops = encode(&table, &code.strings);
    let code_bytes = emit(&final_ops);
    proof {
        lemma_encode_bytes_len(code.ops@, byteseqs_of(code.strings@));
    }
    let image = assemble(&code_bytes, &data);
    Ok(image)
}

/// Law: compiling the same source text twice yields byte-identical
/// output; the compilation is a function of the input characters,
/// with no dependence on time, addresses or iteration order.
pub proof fn lemma_compile_deterministic(a: Seq<char>, b: Seq<char>)
    requires
        a == b,
    ensures
        spec_compile(a) == spec_compile(b),
{
}

} // verus!
