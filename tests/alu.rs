use lunacore::cpu::CPU;

#[test]
fn cpu_test_alu_add() {
    let mut cpu = CPU::new();
    let result = cpu.alu(5, 3, 0b000); // ADD
    assert_eq!(result, 8);
    assert!(!cpu.alu_flags.n);
    assert!(!cpu.alu_flags.z);
    assert!(!cpu.alu_flags.c);
    assert!(!cpu.alu_flags.v);

    let result = cpu.alu(0, 0, 0b000); // ADD
    assert_eq!(result, 0);
    assert!(!cpu.alu_flags.n);
    assert!(cpu.alu_flags.z);
    assert!(!cpu.alu_flags.c);
    assert!(!cpu.alu_flags.v);

    let result = cpu.alu(-3i16 as u16, 4, 0b000);
    assert_eq!(result, 1);
    assert!(!cpu.alu_flags.n);
    assert!(!cpu.alu_flags.z);
    assert!(cpu.alu_flags.c);
    assert!(!cpu.alu_flags.v);

    let result = cpu.alu(i16::MAX as u16, 1, 0b000);
    assert_eq!(result, i16::MIN as u16);
    assert!(cpu.alu_flags.n);
    assert!(!cpu.alu_flags.z);
    assert!(!cpu.alu_flags.c);
    assert!(cpu.alu_flags.v);

    let result = cpu.alu(-1i16 as u16, 1, 0b000); // ADD
    assert_eq!(result, 0);
    assert!(!cpu.alu_flags.n); // Not Negative
    assert!(cpu.alu_flags.z); // Zero
    assert!(cpu.alu_flags.c); // Carry
    assert!(!cpu.alu_flags.v); // Not Overflow (a and b have different signs in add)
}

#[test]
fn cpu_test_alu_sub() {
    let mut cpu = CPU::new();
    let result = cpu.alu(5, 3, 0b001); // SUB
    assert_eq!(result, 2);
    assert!(!cpu.alu_flags.n);
    assert!(!cpu.alu_flags.z);
}

#[test]
fn cpu_test_alu_logic_ops() {
    let mut cpu = CPU::new();
    assert_eq!(cpu.alu(0b1100, 0b1010, 0b010), 0b1000); // AND
    assert_eq!(cpu.alu(0b1100, 0b1010, 0b011), 0b1110); // OR
    assert_eq!(cpu.alu(0b1100, 0b1010, 0b100), 0b0110); // XOR
}

#[test]
fn cpu_test_alu_shift_ops() {
    let mut cpu = CPU::new();
    assert_eq!(cpu.alu(0b0011, 1, 0b110), 0b0110); // SHL
    assert_eq!(cpu.alu(0b1100, 1, 0b111), 0b0110); // SHR
}
