use lunacore::binary::{bytes_from_words, words_from_bytes};
use lunacore::components::{ByteRAM, CondUnit, Flags, RegFile, WordROM};
use lunacore::cpu::{alu_compute, CPU};
use lunacore::disasm::disassemble;
use lunacore::instructions::{decode_words, Instruction, Offset, Src2};
use lunacore::labels::LabelMap;
use lunacore::debugger::run_stops;
use lunacore::parser::{parse_alias, Parser};

#[test]
fn condition_unit_truth_table() {
    for bits in 0..16u8 {
        let f = Flags {
            n: bits & 8 != 0,
            z: bits & 4 != 0,
            c: bits & 2 != 0,
            v: bits & 1 != 0,
        };
        let mut unit = CondUnit::new();
        unit.write_flags(&f);
        let expected = [
            f.z,
            !f.z,
            f.n != f.v,
            f.z || f.n != f.v,
            !f.z && f.n == f.v,
            f.n == f.v,
            !f.c,
            !f.c || !f.z,
            f.c && !f.z,
            f.c,
            f.n,
            !f.n,
            f.v,
            !f.v,
            true,
            false,
        ];
        for cond in 0..16u16 {
            assert_eq!(unit.check(cond), expected[cond as usize], "cond {} flags {:04b}", cond, bits);
        }
    }
}

#[test]
fn alu_flag_examples() {
    let (r, f) = alu_compute(0x7fff, 1, 0);
    assert_eq!(r, 0x8000);
    assert_eq!(f, Flags { n: true, z: false, c: false, v: true });
    let (r, f) = alu_compute(0xffff, 1, 0);
    assert_eq!(r, 0);
    assert_eq!(f, Flags { n: false, z: true, c: true, v: false });
    let (r, f) = alu_compute(5, 3, 1);
    assert_eq!(r, 2);
    assert!(!f.n && !f.z && !f.c);
    let (r, f) = alu_compute(3, 5, 1);
    assert_eq!(r, 0xfffe);
    assert!(f.n && f.c && !f.v);
    let (r, f) = alu_compute(0x8000, 1, 1);
    assert_eq!(r, 0x7fff);
    assert!(f.v);
    assert_eq!(alu_compute(0b0011, 1, 6).0, 0b0110);
    assert_eq!(alu_compute(0b1100, 1, 7).0, 0b0110);
    assert_eq!(alu_compute(0x8001, 17, 6).0, 0x0002);
    assert_eq!(alu_compute(0x1234, 0x00ff, 5).0, 0x00ff);
    assert!(alu_compute(0x8000, 1, 5).1.c);
    assert!(!alu_compute(0x8000, 16, 5).1.c);
}

#[test]
fn encode_then_decode_gives_instruction_back() {
    let cases = vec![
        Instruction::Dp { cmd: 5, td: 1, tn: 0, src2: Src2::WideImm16(-30000) },
        Instruction::Dp { cmd: 1, td: 7, tn: 2, src2: Src2::OneImm3(-8) },
        Instruction::Dp { cmd: 4, td: 3, tn: 3, src2: Src2::ZeroImm3(7) },
        Instruction::Mem { bsl: 6, td: 0, tn: 5, src2: Src2::OneImm3(-1) },
        Instruction::Mem { bsl: 3, td: 6, tn: 5, src2: Src2::Reg(0) },
        Instruction::BranchOffset { cond: 9, offset: Offset::SignImm9(-256) },
        Instruction::BranchOffset { cond: 14, offset: Offset::WideImm16(-9) },
    ];
    for i in cases {
        let words = i.to_binary();
        assert_eq!(words.len(), if i.is_wide() { 2 } else { 1 });
        let next = if words.len() == 2 { words[1] } else { 0xabcd };
        assert_eq!(decode_words(words[0], next), Some(i));
    }
}

#[test]
fn short_branch_encodes_nine_bits() {
    let i = Instruction::BranchOffset { cond: 1, offset: Offset::SignImm9(-6) };
    assert_eq!(i.to_binary(), vec![0b1000_0011_1111_1010]);
}

#[test]
fn label_branch_is_counted_wide() {
    let i = Instruction::BranchLabel { cond: 14, label: String::from("x") };
    assert!(i.is_wide());
}

#[test]
fn disassembly_examples() {
    assert_eq!(disassemble(0x1a01, 0, 0), "MOV  t0, !1");
    assert_eq!(disassemble(0x0000 | (4 << 9) | (3 << 6) | (3 << 3) | 3, 0, 0), "XOR  t3, t3, t3");
    assert_eq!(disassemble(0x2a07, 0, 0), "MOV  t0, !-1");
    assert_eq!(disassemble(0x0001, 0, 0), "ADD  t0, t0, t1");
    assert_eq!(disassemble(0x0a40, 0, 0), "MOV  t1, t0");
    assert_eq!(disassemble(0x3a40, 0xffe0, 0), "MOV  t1, !0xffe0");
    assert_eq!(disassemble(0x52aa, 0, 0), "LOD  t2, [sp + 2]");
    assert_eq!(disassemble(0x7c28, 0x00d5, 0), "PUSHB 0x00d5");
    assert_eq!(disassemble(0x45a8, 0, 0), "PUSH  pc");
    assert_eq!(disassemble(0x47a8, 0, 0), "POP  pc");
    assert_eq!(disassemble(0xbc00, 0x0004, 3), "JMP  0x0004 => [0x0007]");
    assert_eq!(disassemble(0x83fa, 0, 20), "JNZ  -6 => [0x000e]");
    assert_eq!(disassemble(0xc123, 0, 0), "INVALID 0xc123");
}

#[test]
fn debug_output() {
    let mut cpu = CPU::new();
    cpu.imem.load_binary(&[0x1a05]);
    cpu.fetch();
    cpu.decode();
    assert_eq!(cpu.debug_instruction(), "PC=0x0000: MOV  t0, !5");
    cpu.execute();
    assert_eq!(
        cpu.debug_state(),
        "T: [0005, 0000, 0000, 0000]\nBP: 0000, SP: 0000\nPC: 0002, IN: 0000\nNZCV: 0000"
    );
}

#[test]
fn register_file_read_write() {
    let mut regs = RegFile::new();
    for i in 0..7u16 {
        regs.write(i, 100 + i);
    }
    regs.write(7, 999);
    for i in 0..7u16 {
        assert_eq!(regs.read(i), 100 + i);
    }
    assert_eq!(regs.read(7), 0);
    assert_eq!(regs.t, [100, 101, 102, 103]);
    assert_eq!((regs.bp, regs.sp, regs.pc), (104, 105, 106));
}

#[test]
fn byte_ram_is_little_endian() {
    let mut ram = ByteRAM::new();
    ram.write(0x10, 0xbeef, 0);
    assert_eq!(ram.data[0x10], 0xef);
    assert_eq!(ram.data[0x11], 0xbe);
    assert_eq!(ram.read(0x10, 0), 0xbeef);
    assert_eq!(ram.read(0x11, 1), 0x00be);
    ram.write(0xffff, 0x1234, 1);
    assert_eq!(ram.data[0xffff], 0x34);
}

#[test]
fn byte_ram_loads() {
    let mut ram = ByteRAM::new();
    ram.data[5] = 9;
    ram.load_binary(&[1, 2, 3]);
    assert_eq!(&ram.data[0..6], &[1, 2, 3, 0, 0, 9]);
    ram.load_binary_str("00000000000001010000000000000001");
    assert_eq!(&ram.data[0..3], &[5, 1, 3]);
}

#[test]
fn word_rom_loads() {
    let mut rom = WordROM::new();
    rom.load_binary_str("00010010001101001111111111111111");
    assert_eq!(rom.read(0), [0x1234, 0xffff]);
    rom.load_binary(&[7]);
    assert_eq!(rom.read(0), [7, 0xffff]);
    assert_eq!(rom.read(0xffff), [0, 7]);
}

#[test]
fn label_map_basics() {
    let mut m = LabelMap::new();
    assert_eq!(m.len(), 0);
    m.insert(String::from("a"), 3);
    m.insert(String::from("b"), 7);
    assert_eq!(m.len(), 2);
    assert_eq!(m.get("a"), Some(&3));
    assert_eq!(m.get("b"), Some(&7));
    assert_eq!(m.get("c"), None);
}

fn error_of(source: &str) -> String {
    let mut parser = Parser::new();
    let r = parser.parse_program(source, "prog.luna");
    assert_eq!(parser.program.len(), 0);
    assert_eq!(parser.label_map.len(), 0);
    r.unwrap_err()
}

#[test]
fn assembler_errors() {
    assert_eq!(error_of("a:\nnop\na: nop\n"), "Error in prog.luna line 3\nDuplicate label: a");
    assert_eq!(error_of("A:\nA:\n"), "Error in prog.luna line 2\nDuplicate label: A");
    assert_eq!(error_of("loop:\n  Loop :  nop\n"), "Error in prog.luna line 2\nDuplicate label: Loop");
    assert_eq!(error_of("nop\njmp nowhere\n"), "Error in prog.luna line 2\nLabel nowhere not found");
    assert_eq!(error_of("\n\nfoo t0\n"), "Error in prog.luna line 3\nInvalid opcode foo");
    assert_eq!(error_of("mov t9, t0"), "Error in prog.luna line 1\nInvalid register t9");
    assert_eq!(error_of("add t0"), "Error in prog.luna line 1\nInvalid operands for add");
    assert_eq!(error_of("mov t0, t1, t2"), "Error in prog.luna line 1\nInvalid operands for mov");
    assert_eq!(error_of("lod t0, ( t1 ]"), "Error in prog.luna line 1\nExpected '[', found '('");
    assert_eq!(error_of("lod t0, [ t1 + ]"), "Error in prog.luna line 1\nInvalid operands for lod");
    assert_eq!(error_of("lod t0, t1 t2 ]"), "Error in prog.luna line 1\nExpected '[', found 't1'");
    assert_eq!(error_of("sav t0, [t1 + t2 t3"), "Error in prog.luna line 1\nExpected ']', found 't3'");
    assert_eq!(error_of("mov t0, !40000"), "Error in prog.luna line 1\nInvalid decimal immediate: 40000");
    assert_eq!(error_of("mov t0, !0x1ffff"), "Error in prog.luna line 1\nInvalid hexadecimal immediate: 0x1ffff");
    assert_eq!(error_of("mov t0, 12"), "Error in prog.luna line 1\nInvalid register or immediate: 12");
    assert_eq!(error_of("jxx a\na:"), "Error in prog.luna line 1\nInvalid conditional for JMP instruction: xx");
    assert_eq!(error_of("inc"), "Error in prog.luna line 1\nInvalid arguments for inc");
    assert_eq!(error_of("ret t0"), "Error in prog.luna line 1\nUnexpected token 't0' after ret");
    assert_eq!(error_of("push t0, t1"), "Error in prog.luna line 1\nInvalid operands for push");
    assert_eq!(error_of("pop !3"), "Error in prog.luna line 1\nInvalid register !3");
    assert_eq!(error_of(" , "), "Error in prog.luna line 1\nInvalid opcode ");
    assert_eq!(error_of("é"), "Error in prog.luna line 1\nInvalid opcode é");
    assert_eq!(error_of("É"), "Error in prog.luna line 1\nInvalid opcode é");
    assert_eq!(error_of("é:\nÉ: nop"), "Error in prog.luna line 2\nDuplicate label: É");
}

#[test]
fn assembler_immediates_and_aliases() {
    let mut parser = Parser::new();
    let source = "
        MOV T0, !7        ; short zero-extended
        mov t0, !-8       // short one-extended
        mov t0, !8
        mov t0, !-9
        mov t0, !0xFFFF
        not t1
        cmp t1, !0
        tst t2, t3
        shl t1, !3
        label: lod t0, [t1]
        Label2:
        dec t3
        jmp LABEL
    ";
    assert_eq!(parser.parse_program(source, "x"), Ok(()));
    let p = parser.get_program();
    assert_eq!(p[0], Instruction::Dp { cmd: 5, td: 0, tn: 0, src2: Src2::ZeroImm3(7) });
    assert_eq!(p[1], Instruction::Dp { cmd: 5, td: 0, tn: 0, src2: Src2::OneImm3(-8) });
    assert_eq!(p[2], Instruction::Dp { cmd: 5, td: 0, tn: 0, src2: Src2::WideImm16(8) });
    assert_eq!(p[3], Instruction::Dp { cmd: 5, td: 0, tn: 0, src2: Src2::WideImm16(-9) });
    assert_eq!(p[4], Instruction::Dp { cmd: 5, td: 0, tn: 0, src2: Src2::WideImm16(-1) });
    assert_eq!(p[5], Instruction::Dp { cmd: 4, td: 1, tn: 1, src2: Src2::OneImm3(-1) });
    assert_eq!(p[6], Instruction::Dp { cmd: 1, td: 7, tn: 1, src2: Src2::ZeroImm3(0) });
    assert_eq!(p[7], Instruction::Dp { cmd: 2, td: 7, tn: 2, src2: Src2::Reg(3) });
    assert_eq!(p[8], Instruction::Dp { cmd: 6, td: 1, tn: 1, src2: Src2::ZeroImm3(3) });
    assert_eq!(p[9], Instruction::Mem { bsl: 1, td: 0, tn: 1, src2: Src2::ZeroImm3(0) });
    assert_eq!(p[10], Instruction::Dp { cmd: 1, td: 3, tn: 3, src2: Src2::ZeroImm3(1) });
    // label at word 12, branch at word 14: offset 12 - (14 + 3)
    assert_eq!(p[11], Instruction::BranchOffset { cond: 14, offset: Offset::WideImm16(-5) });
    assert_eq!(parser.label_map.get("label"), Some(&12));
    assert_eq!(parser.label_map.get("label2"), Some(&13));
    assert_eq!(parser.program[11].0, 14);
}

#[test]
fn empty_source_assembles_to_nothing() {
    let mut parser = Parser::new();
    assert_eq!(parser.parse_program("", "e"), Ok(()));
    assert_eq!(parser.program.len(), 0);
    assert_eq!(parser.label_map.len(), 0);
}

#[test]
fn full_size_images_load() {
    let mut rom = WordROM::new();
    let words: Vec<u16> = (0..65536u32).map(|i| (i as u16) ^ 0x5a5a).collect();
    rom.load_binary(&words);
    assert_eq!(rom.read(0xffff), [0xffff ^ 0x5a5a, 0x5a5a]);
    let mut ram = ByteRAM::new();
    let bytes: Vec<u8> = (0..65536u32).map(|i| i as u8).collect();
    ram.load_binary(&bytes);
    assert_eq!(ram.read(0xfffe, 0), 0xfffe);
}

#[test]
fn binary_format_is_little_endian() {
    assert_eq!(bytes_from_words(&[0x1234, 0xbc00]), vec![0x34, 0x12, 0x00, 0xbc]);
    assert_eq!(words_from_bytes(&[0x34, 0x12, 0x00, 0xbc]), Some(vec![0x1234, 0xbc00]));
    assert_eq!(words_from_bytes(&[1, 2, 3]), None);
    assert_eq!(words_from_bytes(&[]), Some(vec![]));
}

#[test]
fn non_ascii_labels_fold_case() {
    let mut parser = Parser::new();
    assert_eq!(parser.parse_program("JMP ÉTAPE\nnop\nétape: nop\n", "u"), Ok(()));
    assert_eq!(parser.label_map.get("étape"), Some(&3));
    assert_eq!(
        parser.program[0],
        (0, Instruction::BranchOffset { cond: 14, offset: Offset::WideImm16(0) })
    );
}

#[test]
fn unknown_alias_is_an_error() {
    let opcode: Vec<char> = "foo".chars().collect();
    assert_eq!(parse_alias(&opcode, &Vec::new()), Err(String::from("Parsing non-existant Alias foo")));
}

#[test]
fn run_stop_test() {
    assert!(run_stops(5, 5, &vec![]));
    assert!(run_stops(2, 5, &vec![7, 2]));
    assert!(!run_stops(3, 5, &vec![7, 2]));
}
