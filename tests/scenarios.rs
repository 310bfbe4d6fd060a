use lunacore::compiler::compile;
use lunacore::cpu::CPU;
use lunacore::parser::Parser;

fn assemble(source: &str) -> Vec<u16> {
    let mut parser = Parser::new();
    assert_eq!(parser.parse_program(source, "scenario"), Ok(()));
    compile(&parser.get_program())
}

fn run(cpu: &mut CPU, cycles: usize) {
    for _ in 0..cycles {
        cpu.fetch();
        cpu.decode();
        assert!(!cpu.will_fault());
        cpu.execute();
        cpu.next_cycle();
    }
}

const NATURAL_SUM: &str = "
    main:
        push !104
        push pc
        jmp natural_sum
        mov t3, t0
        jmp end

    natural_sum:
        mov t0, !1
        mov t1, !1
        lod t2, [sp + !0x02]
    while:
        cmp t1, t2
        jge endwhile
        add t1, t1, !1
        nop
        add t0, t0, t1
        jmp while

    endwhile:
        ret

    end:
    ";

#[test]
fn natural_sum_assembled_and_run() {
    let binary = assemble(NATURAL_SUM);
    assert_eq!(binary.len(), 20);
    let mut cpu = CPU::new();
    cpu.imem.load_binary(&binary);
    run(&mut cpu, 1000);
    assert_eq!(cpu.regs.t[3], 5460);
    assert_eq!(cpu.regs.t[3], 104 * 105 / 2);
    // the argument pushed by `main` is never popped
    assert_eq!(cpu.regs.sp, 0x0000u16.wrapping_sub(2));
}

#[test]
fn natural_sum_releasing_its_argument_restores_sp() {
    let source = "
        main:
            push !104
            push pc
            jmp natural_sum
            add sp, sp, !2
            mov t3, t0
            jmp end
        natural_sum:
            mov t0, !1
            mov t1, !1
            lod t2, [sp + !0x02]
        while:
            cmp t1, t2
            jge endwhile
            add t1, t1, !1
            add t0, t0, t1
            jmp while
        endwhile:
            ret
        end:
        ";
    let binary = assemble(source);
    let mut cpu = CPU::new();
    cpu.imem.load_binary(&binary);
    run(&mut cpu, 1000);
    assert_eq!(cpu.regs.t[3], 5460);
    assert_eq!(cpu.regs.sp, 0x0000);
}

#[test]
fn multiplication_assembled_and_run() {
    let source = "
        main:
            pushb !213
            pushb !71
            push pc
            jmp mul_8b
            add sp, sp, !2
            mov t3, t0
            jmp end
        mul_8b:
            mov t0, !0
            lodb t1, [sp + !2]
            lodb t2, [sp + !3]
        mul_loop:
            tst t2, !1
            jz skip_add
            add t0, t0, t1
        skip_add:
            shl t1, t1, !1
            shr t2, t2, !1
            jnz mul_loop
            ret
        end:
        ";
    let binary = assemble(source);
    let mut cpu = CPU::new();
    cpu.imem.load_binary(&binary);
    run(&mut cpu, 200);
    assert_eq!(cpu.regs.t[3], 213 * 71);
    assert_eq!(cpu.regs.t[3], 15123);
    assert_eq!(cpu.regs.sp, 0x0000);
}

#[test]
fn wide_jump_with_small_offset_assembled() {
    let binary = assemble("jmp label\nmov t0, !0x9999\nlabel: mov t1, !0x8888\n");
    assert_eq!(binary, vec![0xbc00, 0x0001, 0x3a00, 0x9999, 0x3a40, 0x8888]);
    let mut cpu = CPU::new();
    cpu.imem.load_binary(&binary);
    run(&mut cpu, 2);
    assert_eq!(cpu.regs.t, [0, 0x8888, 0, 0]);
}

#[test]
fn byte_stack_zero_extends() {
    let binary = assemble("pushb !-1\npopb t3\n");
    let mut cpu = CPU::new();
    cpu.imem.load_binary(&binary);
    run(&mut cpu, 2);
    assert_eq!(cpu.regs.t[3], 0x00ff);
    assert_eq!(cpu.regs.sp, 0);
}

#[test]
fn word_push_then_pop_restores() {
    let binary = assemble("mov t0, !0x1234\npush t0\npop t1\n");
    let mut cpu = CPU::new();
    cpu.imem.load_binary(&binary);
    run(&mut cpu, 3);
    assert_eq!(cpu.regs.t[1], 0x1234);
    assert_eq!(cpu.regs.sp, 0);
}

#[test]
fn byte_push_keeps_low_byte_only() {
    let binary = assemble("mov t0, !0x1234\npushb t0\npopb t1\n");
    let mut cpu = CPU::new();
    cpu.imem.load_binary(&binary);
    run(&mut cpu, 3);
    assert_eq!(cpu.regs.t[1], 0x0034);
    assert_eq!(cpu.regs.sp, 0);
}

#[test]
fn push_pc_before_wide_pushes_address_after_it() {
    let binary = assemble("push pc\njmp target\nmov t0, !-1\ntarget: ret\n");
    let mut cpu = CPU::new();
    cpu.imem.load_binary(&binary);
    run(&mut cpu, 1);
    assert_eq!(cpu.dmem.read(cpu.regs.sp, 0), 3);
    run(&mut cpu, 3);
    assert_eq!(cpu.regs.t[0], 0xffff);
}

#[test]
fn write_to_input_register_is_dropped() {
    let binary = assemble("mov in, !5\ncmp t0, !1\n");
    let mut cpu = CPU::new();
    cpu.imem.load_binary(&binary);
    run(&mut cpu, 2);
    assert_eq!(cpu.regs.input, 0);
    assert!(cpu.cond_unit.flags.n);
    assert!(cpu.cond_unit.flags.c);
}

#[test]
fn memory_operations_do_not_commit_flags() {
    let binary = assemble("sub t0, t0, !1\nsav t0, [t1 + !2]\nlod t2, [t1 + !2]\n");
    let mut cpu = CPU::new();
    cpu.imem.load_binary(&binary);
    run(&mut cpu, 1);
    assert!(cpu.cond_unit.flags.n);
    assert!(cpu.cond_unit.flags.c);
    run(&mut cpu, 2);
    assert!(cpu.cond_unit.flags.n);
    assert_eq!(cpu.regs.t[2], 0xffff);
    assert_eq!(cpu.dmem.data[2], 0xff);
    assert_eq!(cpu.dmem.data[3], 0xff);
}

#[test]
fn misaligned_word_access_faults() {
    let binary = assemble("lod t0, [t1 + !1]\n");
    let mut cpu = CPU::new();
    cpu.imem.load_binary(&binary);
    cpu.fetch();
    cpu.decode();
    assert!(cpu.will_fault());
}

#[test]
fn unused_op_faults() {
    let mut cpu = CPU::new();
    cpu.imem.load_binary(&[0xc000]);
    cpu.fetch();
    cpu.decode();
    assert!(cpu.will_fault());
}

#[test]
fn retire_advances_past_wide() {
    let mut cpu = CPU::new();
    cpu.imem.load_binary(&[0x3a00, 0x1234, 0x0000]);
    run(&mut cpu, 1);
    assert_eq!(cpu.pc, 2);
    assert_eq!(cpu.regs.t[0], 0x1234);
}

#[test]
fn decode_sets_register_file_pc() {
    let mut cpu = CPU::new();
    cpu.imem.load_binary(&[0x0000, 0x3a00, 0x1234]);
    cpu.fetch();
    cpu.decode();
    assert!(!cpu.wide);
    assert!(cpu.next_wide);
    assert_eq!(cpu.regs.pc, 3);
}

#[test]
fn fetch_wraps_at_end_of_memory() {
    let mut cpu = CPU::new();
    cpu.imem.data[0xffff] = 0x1111;
    cpu.imem.data[0] = 0x2222;
    cpu.pc = 0xffff;
    cpu.fetch();
    assert_eq!(cpu.instr, [0x1111, 0x2222]);
}
