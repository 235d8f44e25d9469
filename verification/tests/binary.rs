use syscomp::elf::Elf;
use syscomp::encode::{encode, total_len_checked};
use syscomp::ir::{lower, Intermediate};
use syscomp::offsets::resolve_offsets;
use syscomp::op::{Op, Opcode};
use syscomp::parser::Parser;
use syscomp::pipeline::compile;
use syscomp::program;
use syscomp::section;
use syscomp::CompileError;

fn lower_of(input: &str) -> syscomp::ir::Code {
    let mut parser = Parser::new(input);
    let source = parser.parse();
    lower(&source).expect("lowering should succeed")
}

#[test]
fn file_header_is_64_bytes_with_magic() {
    let bytes = Elf::new().to_array();
    assert_eq!(bytes.len(), 64);
    assert_eq!(&bytes[0..4], &[0x7F, 0x45, 0x4C, 0x46]);
}

#[test]
fn program_header_is_56_bytes() {
    let bytes = program::Header::new().to_array();
    assert_eq!(bytes.len(), 56);
    assert_eq!(bytes, vec![0u8; 56]);
}

#[test]
fn section_header_is_64_bytes() {
    let bytes = section::Header::new().to_array();
    assert_eq!(bytes.len(), 64);
    assert_eq!(bytes, vec![0u8; 64]);
}

#[test]
fn elf_setters_place_fields_little_endian() {
    let mut elf = Elf::new();
    elf.class32();
    elf.endian_big();
    elf.version(1);
    elf.kind_exec();
    elf.machine_x86_64();
    elf.version2();
    elf.entry_address(0x201120);
    elf.program_headers_address(64);
    elf.section_headers_address(0x1234);
    elf.header32();
    elf.program_size(56);
    elf.program_len(4);
    elf.section_size(64);
    elf.section_len(3);
    elf.section_index(2);
    let b = elf.to_array();
    assert_eq!(b[4], 1); // 32-bit class
    assert_eq!(b[5], 2); // big-endian mark
    assert_eq!(b[6], 1); // version
    assert_eq!(&b[16..18], &[2, 0]); // executable type
    assert_eq!(&b[18..20], &[0x3E, 0]); // x86-64
    assert_eq!(&b[20..24], &[1, 0, 0, 0]); // version again
    assert_eq!(&b[24..32], &[0x20, 0x11, 0x20, 0, 0, 0, 0, 0]); // entry
    assert_eq!(&b[32..40], &[64, 0, 0, 0, 0, 0, 0, 0]); // phoff
    assert_eq!(&b[40..48], &[0x34, 0x12, 0, 0, 0, 0, 0, 0]); // shoff
    assert_eq!(&b[52..54], &[52, 0]); // 32-bit header size
    assert_eq!(&b[54..56], &[56, 0]);
    assert_eq!(&b[56..58], &[4, 0]);
    assert_eq!(&b[58..60], &[64, 0]);
    assert_eq!(&b[60..62], &[3, 0]);
    assert_eq!(&b[62..64], &[2, 0]);
}

#[test]
fn op_encodings_are_exact() {
    assert_eq!(Op::push64(3).to_bytes(), vec![0x6A, 0x03]);
    assert_eq!(Op::pop64_rax.to_bytes(), vec![0x58]);
    assert_eq!(Op::pop64_rdx.to_bytes(), vec![0x5A]);
    assert_eq!(Op::mov64_rax_rdi.to_bytes(), vec![0x48, 0x89, 0xC7]);
    assert_eq!(Op::xor64_rdi_rdi.to_bytes(), vec![0x48, 0x31, 0xFF]);
    assert_eq!(Op::syscall.to_bytes(), vec![0x0F, 0x05]);
    assert_eq!(
        Op::mov64_int_rax(60).to_bytes(),
        vec![0x48, 0xC7, 0xC0, 0x3C, 0x00, 0x00, 0x00]
    );
    assert_eq!(
        Op::mov64_int_rdi(5).to_bytes(),
        vec![0x48, 0xC7, 0xC7, 0x05, 0x00, 0x00, 0x00]
    );
    assert_eq!(
        Op::lea64_rip_rsi(7).to_bytes(),
        vec![0x48, 0x8D, 0x35, 0x07, 0x00, 0x00, 0x00]
    );
}

#[test]
fn opcode_buffers_hold_exact_encodings() {
    let lea = Opcode::load_effective_address(0x11223344);
    assert_eq!(lea.len(), 7);
    assert!(!lea.is_empty());
    assert_eq!(lea.as_bytes(), &[0x48, 0x8D, 0x35, 0x44, 0x33, 0x22, 0x11]);
    let mov = Opcode::move_to_register(0xC0, 60);
    assert_eq!(mov.len(), 11);
    assert_eq!(
        mov.as_bytes(),
        &[0x48, 0xC7, 0xC0, 0x3C, 0, 0, 0, 0, 0, 0, 0]
    );
}

#[test]
fn zero_argument_syscall_lowers_to_two_ops() {
    let code = lower_of("fn main() { sys::syscall(60) }");
    assert_eq!(
        code.ops,
        vec![Intermediate::mov64_int_rax(60), Intermediate::syscall]
    );
    assert!(code.strings.is_empty());
    assert_eq!(total_len_checked(&code.ops), Some(9));
}

#[test]
fn zero_integer_argument_uses_the_clear_idiom() {
    let code = lower_of("fn main() { sys::syscall(60, 0) }");
    assert_eq!(
        code.ops,
        vec![
            Intermediate::mov64_int_rax(60),
            Intermediate::xor64_rdi_rdi,
            Intermediate::syscall,
        ]
    );
}

#[test]
fn nonzero_integer_argument_moves_into_the_secondary_register() {
    let code = lower_of("fn main() { sys::syscall(60, 7) }");
    assert_eq!(
        code.ops,
        vec![
            Intermediate::mov64_int_rax(60),
            Intermediate::mov64_int_rdi(7),
            Intermediate::syscall,
        ]
    );
}

#[test]
fn string_argument_lowers_through_the_stack_round_trip() {
    let code = lower_of("fn main() { sys::syscall(1, 'hi\\n') }");
    assert_eq!(
        code.ops,
        vec![
            Intermediate::push64(1),
            Intermediate::pop64_rax,
            Intermediate::lea64_str_rdi_rsi(0),
            Intermediate::syscall,
        ]
    );
    assert_eq!(code.strings, vec![b"hi\n".to_vec()]);
}

#[test]
fn offsets_accumulate_the_fixed_lengths() {
    let code = lower_of("fn main() { sys::syscall(1, 'hi\\n') }");
    let table = resolve_offsets(&code.ops);
    let offsets: Vec<u64> = table.iter().map(|e| e.0).collect();
    assert_eq!(offsets, vec![0, 2, 3, 10]);
    for i in 0..table.len() - 1 {
        assert_eq!(table[i + 1].0, table[i].0 + table[i].1.len() as u64);
    }
    let mut distinct = offsets.clone();
    distinct.dedup();
    assert_eq!(distinct.len(), offsets.len());
}

#[test]
fn displacement_is_resolved_from_the_expanded_layout() {
    let code = lower_of("fn main() { sys::syscall(1, 'hi\\n') }");
    let table = resolve_offsets(&code.ops);
    let ops = encode(&table, &code.strings);
    assert_eq!(
        ops,
        vec![
            Op::push64(1),
            Op::pop64_rax,
            Op::push64(4),
            Op::pop64_rdx,
            Op::lea64_rip_rsi(7),
            Op::mov64_rax_rdi,
            Op::syscall,
        ]
    );
    let bytes = syscomp::encode::emit(&ops);
    assert_eq!(bytes.len(), 18);
    assert_eq!(&bytes[6..13], &[0x48, 0x8D, 0x35, 0x07, 0x00, 0x00, 0x00]);
}

#[test]
fn compiling_twice_is_byte_identical() {
    let input = "fn main() {\n    sys::syscall(1, 'hello\\n')\n    sys::syscall(60, 0)\n}\n";
    let a = compile(input).expect("compiles");
    let b = compile(input).expect("compiles");
    assert_eq!(a, b);
}

#[test]
fn image_layout_is_consistent() {
    let image = compile("fn main() { sys::syscall(60) }").expect("compiles");
    // 64-byte file header, 4 * 56-byte program headers, 9 code bytes,
    // no data, the 17-byte name table, 3 * 64-byte section headers.
    assert_eq!(image.len(), 64 + 224 + 9 + 17 + 192);
    assert_eq!(&image[0..4], &[0x7F, 0x45, 0x4C, 0x46]);
    // the code region at file offset 0x120
    assert_eq!(
        &image[0x120..0x129],
        &[0x48, 0xC7, 0xC0, 0x3C, 0x00, 0x00, 0x00, 0x0F, 0x05]
    );
    // the section-name table right after the code
    assert_eq!(&image[0x129..0x13A], b"\0.text\0.shstrtab\0");
    // the section headers follow the name table
    let shoff = 64 + 224 + 9 + 17;
    assert_eq!(
        &image[40..48],
        &(shoff as u64).to_le_bytes(),
        "section-header offset field"
    );
    assert_eq!(&image[56..58], &[4, 0]); // program-header count
    assert_eq!(&image[60..62], &[3, 0]); // section-header count
    assert_eq!(&image[62..64], &[2, 0]); // name-table section index
}

#[test]
fn string_data_follows_the_code_with_escapes_applied() {
    let image = compile("fn main() { sys::syscall(1, 'hi\\n') }").expect("compiles");
    assert_eq!(image.len(), 64 + 224 + 18 + 3 + 17 + 192);
    assert_eq!(&image[0x120 + 18..0x120 + 21], b"hi\n");
}

#[test]
fn syscall_id_out_of_range_is_rejected() {
    assert_eq!(
        compile("fn main() { sys::syscall(256) }"),
        Err(CompileError::ValueOutOfRange)
    );
}

#[test]
fn integer_argument_out_of_range_is_rejected() {
    assert_eq!(
        compile("fn main() { sys::syscall(1, 300) }"),
        Err(CompileError::ValueOutOfRange)
    );
}

#[test]
fn oversized_string_argument_is_rejected() {
    let long = "x".repeat(255);
    let input = format!("fn main() {{ sys::syscall(1, '{}') }}", long);
    assert_eq!(compile(&input), Err(CompileError::ValueOutOfRange));
}

#[test]
fn longest_encodable_string_argument_passes() {
    let long = "x".repeat(254);
    let input = format!("fn main() {{ sys::syscall(1, '{}') }}", long);
    let image = compile(&input).expect("compiles");
    assert_eq!(image.len(), 64 + 224 + 18 + 254 + 17 + 192);
}

#[test]
fn integer_literal_overflow_aborts_compilation() {
    assert_eq!(
        compile("fn main() { sys::syscall(99999999999999999999) }"),
        Err(CompileError::IntegerOverflow)
    );
}

#[test]
fn empty_input_compiles_to_an_empty_code_region() {
    let image = compile("").expect("compiles");
    assert_eq!(image.len(), 64 + 224 + 17 + 192);
}

#[test]
fn only_arg0_influences_generated_code() {
    let a = compile("fn main() { sys::syscall(60, 0) }").expect("compiles");
    let b = compile("fn main() { sys::syscall(60, 0, 9, 'x') }").expect("compiles");
    assert_eq!(a, b);
}

#[test]
fn two_string_arguments_get_distinct_table_indices_and_displacements() {
    let code = lower_of("fn main() { sys::syscall(1, 'a\\n') sys::syscall(1, 'bc') }");
    assert_eq!(
        code.ops,
        vec![
            Intermediate::push64(1),
            Intermediate::pop64_rax,
            Intermediate::lea64_str_rdi_rsi(0),
            Intermediate::syscall,
            Intermediate::push64(1),
            Intermediate::pop64_rax,
            Intermediate::lea64_str_rdi_rsi(1),
            Intermediate::syscall,
        ]
    );
    assert_eq!(code.strings, vec![b"a\n".to_vec(), b"bc".to_vec()]);
    let table = resolve_offsets(&code.ops);
    let ops = encode(&table, &code.strings);
    assert_eq!(
        ops,
        vec![
            Op::push64(1),
            Op::pop64_rax,
            Op::push64(3),
            Op::pop64_rdx,
            Op::lea64_rip_rsi(25),
            Op::mov64_rax_rdi,
            Op::syscall,
            Op::push64(1),
            Op::pop64_rax,
            Op::push64(3),
            Op::pop64_rdx,
            Op::lea64_rip_rsi(7),
            Op::mov64_rax_rdi,
            Op::syscall,
        ]
    );
    assert_eq!(syscomp::encode::emit(&ops).len(), 36);
}
