//! The CPU core: fetch, decode, execute and retire, over the architectural
//! state of the components.

use crate::bits::{get_bit, get_bits, is_word_aligned};
use crate::components::{
    access_ok, cond_holds, ram_read, ram_written, regs_written, ByteRAM, CondUnit, Flags, RegFile,
    WordROM, IN, PC, SP,
};
use crate::disasm::{disassemble, disassembly, hex4, push_hex4};
use crate::instructions::{
    decode_words, decoding, lemma_decode_encoding, signed_of, to_word, word_of, Instruction, Offset,
    Src2,
};
use crate::parser::branch_offset;
use vstd::arithmetic::div_mod::{lemma_add_mod_noop, lemma_small_mod};
use vstd::arithmetic::power2::{lemma2_to64, pow2};
use vstd::bits::{lemma_u16_shr_is_div, lemma_u32_pow2_no_overflow, lemma_u32_shl_is_mul};
use vstd::prelude::*;
use vstd::string::StringExecFns;

verus! {

/// The whole state of a CPU as mathematical values.
pub ghost struct CpuView {
    /// The eight registers in index order; `regs[6]` is the register-file view of pc.
    pub regs: Seq<u16>,
    pub imem: Seq<u16>,
    pub dmem: Seq<u8>,
    /// The committed flags.
    pub flags: Flags,
    /// The fetch pc.
    pub pc: u16,
    /// The flags of the last ALU operation of this cycle.
    pub alu_flags: Flags,
    pub instr: Seq<u16>,
    pub wide: bool,
    pub next_wide: bool,
    pub pc_overwritten: bool,
    pub run: bool,
    pub debug: bool,
}

/// The result of ALU operation `op` on `a` and `b`, truncated to 16 bits.
pub open spec fn alu_value(a: u16, b: u16, op: int) -> u16 {
    let sh = (b % 16) as nat;
    if op == 0 {
        ((a + b) % 0x10000) as u16
    } else if op == 1 {
        ((a + 0x10000 - b) % 0x10000) as u16
    } else if op == 2 {
        a & b
    } else if op == 3 {
        a | b
    } else if op == 4 {
        a ^ b
    } else if op == 5 {
        b
    } else if op == 6 {
        ((a * pow2(sh)) % 0x10000) as u16
    } else {
        (a as nat / pow2(sh)) as u16
    }
}

/// Whether a word is negative as a two's-complement number.
pub open spec fn negative(x: u16) -> bool {
    x >= 0x8000
}

/// The flags that ALU operation `op` on `a` and `b` produces.
pub open spec fn alu_flags_of(a: u16, b: u16, op: int) -> Flags {
    let r = alu_value(a, b, op);
    Flags {
        n: negative(r),
        z: r == 0,
        c: if op == 0 {
            a + b > 0xffff
        } else if op == 1 {
            a < b
        } else if op == 5 {
            (a as nat / pow2((16 - b % 16) as nat)) % 2 == 1
        } else {
            false
        },
        v: if op == 0 {
            negative(a) == negative(b) && negative(r) != negative(a)
        } else if op == 1 {
            negative(a) != negative(b) && negative(r) != negative(a)
        } else {
            false
        },
    }
}

/// The value a second source stands for.
pub open spec fn src_value(s: Src2, regs: Seq<u16>) -> u16 {
    match s {
        Src2::Reg(r) => regs[r as int],
        Src2::ZeroImm3(i) => i as u16,
        Src2::OneImm3(i) => (i + 0x10000) as u16,
        Src2::WideImm16(v) => word_of(v),
    }
}

/// Whether word `w` opens a two-word instruction.
pub open spec fn word_is_wide(w: u16) -> bool {
    let op = (w / 0x4000) % 4;
    if op <= 1 {
        (w / 0x1000) % 4 == 3
    } else if op == 2 {
        (w / 0x2000) % 2 == 1
    } else {
        false
    }
}

/// The value of an offset as a 16-bit word.
pub open spec fn offset_value(o: Offset) -> u16 {
    match o {
        Offset::SignImm9(v) => word_of(v),
        Offset::WideImm16(v) => word_of(v),
    }
}

/// Bytes that a push or a pop moves the stack pointer by: one in byte mode, else two.
pub open spec fn stack_step(byte_mode: int) -> u16 {
    if byte_mode == 1 {
        1
    } else {
        2
    }
}

impl CpuView {
    /// The state after `value` is written to register `td`; a write to pc also
    /// redirects the fetch pc.
    pub open spec fn with_result(self, td: int, value: u16) -> CpuView {
        let s = CpuView { regs: regs_written(self.regs, td, value), ..self };
        if td == PC {
            CpuView { pc: value, pc_overwritten: true, ..s }
        } else {
            s
        }
    }

    /// A data-processing instruction: `regs[td] := regs[tn] cmd src2`, flags committed.
    pub open spec fn dp_done(self, cmd: int, td: int, tn: int, src2: Src2) -> CpuView {
        let a = self.regs[tn];
        let b = src_value(src2, self.regs);
        let f = alu_flags_of(a, b, cmd);
        CpuView { flags: f, alu_flags: f, ..self }.with_result(td, alu_value(a, b, cmd))
    }

    /// The address that a load or a store with these operands reaches.
    pub open spec fn mem_addr(self, tn: int, src2: Src2) -> u16 {
        alu_value(self.regs[tn], src_value(src2, self.regs), 0)
    }

    /// A store of `regs[td]` at `regs[tn] + src2`.
    pub open spec fn sav_done(self, b: int, td: int, tn: int, src2: Src2) -> CpuView {
        let f = alu_flags_of(self.regs[tn], src_value(src2, self.regs), 0);
        CpuView {
            dmem: ram_written(self.dmem, self.mem_addr(tn, src2) as int, self.regs[td], b),
            alu_flags: f,
            ..self
        }
    }

    /// A load of `regs[td]` from `regs[tn] + src2`.
    pub open spec fn lod_done(self, b: int, td: int, tn: int, src2: Src2) -> CpuView {
        let f = alu_flags_of(self.regs[tn], src_value(src2, self.regs), 0);
        let v = ram_read(self.dmem, self.mem_addr(tn, src2) as int, b);
        CpuView { alu_flags: f, ..self }.with_result(td, v)
    }

    /// The stack pointer after a push.
    pub open spec fn pushed_sp(self, b: int) -> u16 {
        alu_value(self.regs[SP as int], stack_step(b), 1)
    }

    /// A push of `data`: the stack pointer drops first, then `data` is stored there.
    pub open spec fn push_done(self, b: int, data: u16) -> CpuView {
        let sp = self.regs[SP as int];
        CpuView {
            dmem: ram_written(self.dmem, self.pushed_sp(b) as int, data, b),
            regs: regs_written(self.regs, SP as int, self.pushed_sp(b)),
            alu_flags: alu_flags_of(sp, stack_step(b), 1),
            ..self
        }
    }

    /// A pop into `td`: the value at the stack pointer is read, then the pointer rises.
    pub open spec fn pop_done(self, b: int, td: int) -> CpuView {
        let sp = self.regs[SP as int];
        let v = ram_read(self.dmem, sp as int, b);
        let s = CpuView { alu_flags: alu_flags_of(sp, stack_step(b), 0), ..self }.with_result(td, v);
        CpuView { regs: regs_written(s.regs, SP as int, alu_value(sp, stack_step(b), 0)), ..s }
    }

    /// A branch: when `cond` holds, the fetch pc becomes the register-file pc plus the offset.
    pub open spec fn branch_done(self, cond: int, offset: Offset) -> CpuView {
        let base = self.regs[PC as int];
        let off = offset_value(offset);
        if cond_holds(cond, self.flags) {
            CpuView {
                pc: alu_value(base, off, 0),
                pc_overwritten: true,
                alu_flags: alu_flags_of(base, off, 0),
                ..self
            }
        } else {
            self
        }
    }

    /// The data written by a push: register `td` in register mode, else the immediate.
    pub open spec fn push_data(self, td: int, src2: Src2) -> u16 {
        if src2 is Reg {
            self.regs[td]
        } else {
            src_value(src2, self.regs)
        }
    }

    /// Whether executing the current instruction is an architectural fault: the unused
    /// `op` 11, a push or pop not on `sp`, or a word access at an odd address.
    pub open spec fn faults(self) -> bool {
        match decoding(self.instr[0], self.instr[1]) {
            None => true,
            Some(Instruction::Mem { bsl, td, tn, src2 }) => {
                let b = bsl / 4;
                let sl = bsl % 4;
                if sl <= 1 {
                    !access_ok(self.mem_addr(tn as int, src2) as int, b as int)
                } else if tn != SP {
                    true
                } else if sl == 2 {
                    !access_ok(self.pushed_sp(b as int) as int, b as int)
                } else {
                    !access_ok(self.regs[SP as int] as int, b as int)
                }
            },
            _ => false,
        }
    }

    /// The state after the current instruction executes.
    pub open spec fn executed(self) -> CpuView {
        match decoding(self.instr[0], self.instr[1]) {
            Some(Instruction::Dp { cmd, td, tn, src2 }) => self.dp_done(cmd as int, td as int, tn as int, src2),
            Some(Instruction::Mem { bsl, td, tn, src2 }) => {
                let b = (bsl / 4) as int;
                let sl = bsl % 4;
                if sl == 0 {
                    self.sav_done(b, td as int, tn as int, src2)
                } else if sl == 1 {
                    self.lod_done(b, td as int, tn as int, src2)
                } else if sl == 2 {
                    self.push_done(b, self.push_data(td as int, src2))
                } else {
                    self.pop_done(b, td as int)
                }
            },
            Some(Instruction::BranchOffset { cond, offset }) => self.branch_done(cond as int, offset),
            _ => self,
        }
    }

    /// The state after the instruction words at the fetch pc are read.
    pub open spec fn fetched(self) -> CpuView {
        CpuView { instr: seq![self.imem[self.pc as int], self.imem[(self.pc + 1) % 0x10000]], ..self }
    }

    /// The state after decode: the width flags are set and the register-file pc is the
    /// fetch pc plus two, plus one more when this or the next instruction is wide.
    pub open spec fn decoded(self) -> CpuView {
        let wide = word_is_wide(self.instr[0]);
        let next_wide = word_is_wide(self.instr[1]) && !wide;
        let view_pc = ((self.pc + 2 + (if wide || next_wide { 1int } else { 0int })) % 0x10000) as u16;
        CpuView { wide, next_wide, regs: self.regs.update(PC as int, view_pc), ..self }
    }

    /// The state after retirement: the fetch pc moves past the instruction unless it was
    /// written, and the per-cycle state is cleared.
    pub open spec fn retired(self) -> CpuView {
        CpuView {
            pc: if self.pc_overwritten {
                self.pc
            } else {
                ((self.pc + 1 + (if self.wide { 1int } else { 0int })) % 0x10000) as u16
            },
            wide: false,
            next_wide: false,
            pc_overwritten: false,
            alu_flags: Flags { n: false, z: false, c: false, v: false },
            ..self
        }
    }
}

/// A flag as a digit.
pub open spec fn flag_text(f: bool) -> Seq<char> {
    if f {
        "1"@
    } else {
        "0"@
    }
}

/// The registers in hexadecimal and the flags as digits.
pub open spec fn state_text(regs: Seq<u16>, f: Flags) -> Seq<char> {
    "T: ["@ + hex4(regs[0]) + ", "@ + hex4(regs[1]) + ", "@ + hex4(regs[2]) + ", "@ + hex4(regs[3])
        + "]\nBP: "@ + hex4(regs[4]) + ", SP: "@ + hex4(regs[5]) + "\nPC: "@ + hex4(regs[6]) + ", IN: "@
        + hex4(regs[7]) + "\nNZCV: "@ + flag_text(f.n) + flag_text(f.z) + flag_text(f.c) + flag_text(f.v)
}

/// The emulated machine.
pub struct CPU {
    pub regs: RegFile,
    pub imem: WordROM,
    pub dmem: ByteRAM,
    pub cond_unit: CondUnit,
    /// The fetch pc.
    pub pc: u16,
    pub alu_flags: Flags,
    pub instr: [u16; 2],
    pub wide: bool,
    pub next_wide: bool,
    pub pc_overwritten: bool,
    pub run: bool,
    pub debug: bool,
}

impl View for CPU {
    type V = CpuView;

    open spec fn view(&self) -> CpuView {
        CpuView {
            regs: self.regs@,
            imem: self.imem.data@,
            dmem: self.dmem.data@,
            flags: self.cond_unit.flags,
            pc: self.pc,
            alu_flags: self.alu_flags,
            instr: self.instr@,
            wide: self.wide,
            next_wide: self.next_wide,
            pc_overwritten: self.pc_overwritten,
            run: self.run,
            debug: self.debug,
        }
    }
}

impl CPU {
    /// A machine with every register, memory word and flag zero, about to fetch at 0.
    pub fn new() -> (r: Self)
        ensures
            r@.regs == seq![0u16, 0, 0, 0, 0, 0, 0, 0],
            r@.imem == Seq::new(0x10000, |i: int| 0u16),
            r@.dmem == Seq::new(0x10000, |i: int| 0u8),
            r@.flags == (Flags { n: false, z: false, c: false, v: false }),
            r@.alu_flags == (Flags { n: false, z: false, c: false, v: false }),
            r@.pc == 0,
            r@.instr == seq![0u16, 0],
            !r@.wide,
            !r@.next_wide,
            !r@.pc_overwritten,
            r@.run,
            !r@.debug,
    {
        let r = CPU {
            regs: RegFile::new(),
            imem: WordROM::new(),
            dmem: ByteRAM::new(),
            cond_unit: CondUnit::new(),
            pc: 0,
            alu_flags: Flags::new(),
            instr: [0, 0],
            wide: false,
            next_wide: false,
            pc_overwritten: false,
            run: true,
            debug: false,
        };
        assert(r.instr@ =~= seq![0u16, 0]);
        r
    }

    /// Reads the instruction words at the fetch pc.
    pub fn fetch(&mut self)
        ensures
            final(self)@ == old(self)@.fetched(),
    {
        self.instr = self.imem.read(self.pc);
    }

    /// Sets the width flags and the register-file view of pc.
    pub fn decode(&mut self)
        ensures
            final(self)@ == old(self)@.decoded(),
    {
        self.wide = self.is_wide(self.instr[0]);
        self.next_wide = self.is_wide(self.instr[1]) && !self.wide;
        let extra: u32 = if self.wide || self.next_wide {
            1
        } else {
            0
        };
        self.regs.pc = ((self.pc as u32 + 2 + extra) % 0x10000) as u16;
        assert(self@.regs =~= old(self)@.decoded().regs);
    }

    /// Whether executing the current instruction would be an architectural fault.
    pub fn will_fault(&self) -> (r: bool)
        ensures
            r == self@.faults(),
    {
        match decode_words(self.instr[0], self.instr[1]) {
            None => true,
            Some(Instruction::Mem { bsl, td, tn, src2 }) => {
                let b = (bsl / 4) as u16;
                let sl = bsl % 4;
                if sl <= 1 {
                    let addr = alu_add(self.regs.read(tn as u16), self.src_value(src2));
                    !(b == 1 || is_word_aligned(addr))
                } else if tn as u16 != SP {
                    true
                } else if sl == 2 {
                    let new_sp = alu_sub(self.regs.sp, if b == 1 { 1 } else { 2 });
                    !(b == 1 || is_word_aligned(new_sp))
                } else {
                    !(b == 1 || is_word_aligned(self.regs.sp))
                }
            },
            _ => false,
        }
    }

    /// Executes the decoded instruction.
    pub fn execute(&mut self)
        requires
            !old(self)@.faults(),
        ensures
            final(self)@ == old(self)@.executed(),
    {
        match decode_words(self.instr[0], self.instr[1]) {
            Some(Instruction::Dp { cmd, td, tn, src2 }) => self.dp(cmd as u16, td as u16, tn as u16, src2),
            Some(Instruction::Mem { bsl, td, tn, src2 }) => {
                let b = (bsl / 4) as u16;
                let sl = bsl % 4;
                if sl == 0 {
                    self.sav(b, td as u16, tn as u16, src2);
                } else if sl == 1 {
                    self.lod(b, td as u16, tn as u16, src2);
                } else if sl == 2 {
                    self.push(b, td as u16, src2);
                } else {
                    self.pop(b, td as u16);
                }
            },
            Some(Instruction::BranchOffset { cond, offset }) => self.branch(cond as u16, offset),
            _ => {},
        }
    }

    /// Decodes and then executes the fetched instruction.
    pub fn decode_and_execute(&mut self)
        requires
            !old(self)@.decoded().faults(),
        ensures
            final(self)@ == old(self)@.decoded().executed(),
    {
        self.decode();
        self.execute();
    }

    /// Moves the fetch pc past the instruction unless it was written, and clears the
    /// per-cycle state.
    pub fn next_cycle(&mut self)
        ensures
            final(self)@ == old(self)@.retired(),
    {
        if !self.pc_overwritten {
            let step: u32 = if self.wide {
                2
            } else {
                1
            };
            self.pc = ((self.pc as u32 + step) % 0x10000) as u16;
        }
        self.wide = false;
        self.next_wide = false;
        self.pc_overwritten = false;
        self.alu_flags = Flags::new();
    }

    /// Whether `instr` opens a two-word instruction.
    pub fn is_wide(&self, instr: u16) -> (r: bool)
        ensures
            r == word_is_wide(instr),
    {
        proof {
            lemma2_to64();
        }
        let instr_op = get_bits(instr, 15, 14);
        if instr_op <= 1 {
            get_bits(instr, 13, 12) == 3
        } else if instr_op == 2 {
            get_bit(instr, 13) == 1
        } else {
            false
        }
    }

    /// The trace line of the current instruction: the fetch pc and the disassembly of
    /// the fetched words, branch targets taken from the register-file pc.
    pub fn debug_instruction(&self) -> (r: String)
        ensures
            r@ == "PC=0x"@ + hex4(self.pc) + ": "@ + disassembly(self.instr@[0], self.instr@[1], self@.regs[PC as int]),
    {
        let mut s = String::from_str("PC=0x");
        push_hex4(&mut s, self.pc);
        s.append(": ");
        let text = disassemble(self.instr[0], self.instr[1], self.regs.pc);
        s.append(text.as_str());
        s
    }

    /// The fetch pc, the first instruction word, the registers and the flags, as text.
    pub fn debug(&self) -> (r: String)
        ensures
            r@ == "pc: "@ + hex4(self.pc) + "\nInstr: "@ + hex4(self.instr@[0]) + "\n"@ + state_text(
                self@.regs,
                self@.flags,
            ),
    {
        let mut s = String::from_str("pc: ");
        push_hex4(&mut s, self.pc);
        s.append("\nInstr: ");
        push_hex4(&mut s, self.instr[0]);
        s.append("\n");
        let state = self.debug_state();
        s.append(state.as_str());
        s
    }

    /// The registers and the committed flags, as text.
    #[verifier::rlimit(30)]
    pub fn debug_state(&self) -> (r: String)
        ensures
            r@ == state_text(self@.regs, self@.flags),
    {
        let mut s = String::from_str("T: [");
        push_hex4(&mut s, self.regs.t[0]);
        s.append(", ");
        push_hex4(&mut s, self.regs.t[1]);
        s.append(", ");
        push_hex4(&mut s, self.regs.t[2]);
        s.append(", ");
        push_hex4(&mut s, self.regs.t[3]);
        s.append("]\nBP: ");
        push_hex4(&mut s, self.regs.bp);
        s.append(", SP: ");
        push_hex4(&mut s, self.regs.sp);
        s.append("\nPC: ");
        push_hex4(&mut s, self.regs.pc);
        s.append(", IN: ");
        push_hex4(&mut s, self.regs.input);
        s.append("\nNZCV: ");
        s.append(if self.cond_unit.flags.n { "1" } else { "0" });
        s.append(if self.cond_unit.flags.z { "1" } else { "0" });
        s.append(if self.cond_unit.flags.c { "1" } else { "0" });
        s.append(if self.cond_unit.flags.v { "1" } else { "0" });
        s
    }

    /// Runs ALU operation `aluop` on `a` and `b` and records its flags in `alu_flags`.
    pub fn alu(&mut self, a: u16, b: u16, aluop: u16) -> (r: u16)
        requires
            aluop < 8,
        ensures
            r == alu_value(a, b, aluop as int),
            final(self)@ == (CpuView { alu_flags: alu_flags_of(a, b, aluop as int), ..old(self)@ }),
    {
        let (result, flags) = alu_compute(a, b, aluop);
        self.alu_flags = flags;
        result
    }

    /// The value a second source stands for.
    fn src_value(&self, s: Src2) -> (r: u16)
        requires
            s is Reg ==> s->Reg_0 < 8,
            s is ZeroImm3 ==> s->ZeroImm3_0 < 8,
            s is OneImm3 ==> -8 <= s->OneImm3_0 < 0,
        ensures
            r == src_value(s, self@.regs),
    {
        match s {
            Src2::Reg(r) => self.regs.read(r as u16),
            Src2::ZeroImm3(i) => i as u16,
            Src2::OneImm3(i) => (i as i32 + 0x10000) as u16,
            Src2::WideImm16(v) => to_word(v),
        }
    }

    /// Writes `value` to register `td`, and to the fetch pc when `td` is pc.
    fn write_result(&mut self, td: u16, value: u16)
        requires
            td < 8,
        ensures
            final(self)@ == old(self)@.with_result(td as int, value),
    {
        self.regs.write(td, value);
        if td == PC {
            self.pc = value;
            self.pc_overwritten = true;
        }
    }

    fn dp(&mut self, cmd: u16, td: u16, tn: u16, src2: Src2)
        requires
            cmd < 8,
            td < 8,
            tn < 8,
            src2 is Reg ==> src2->Reg_0 < 8,
            src2 is ZeroImm3 ==> src2->ZeroImm3_0 < 8,
            src2 is OneImm3 ==> -8 <= src2->OneImm3_0 < 0,
        ensures
            final(self)@ == old(self)@.dp_done(cmd as int, td as int, tn as int, src2),
    {
        let src_a = self.regs.read(tn);
        let src_b = self.src_value(src2);
        let result = self.alu(src_a, src_b, cmd);
        let flags = self.alu_flags;
        self.cond_unit.write_flags(&flags);
        self.write_result(td, result);
    }

    fn sav(&mut self, b: u16, td: u16, tn: u16, src2: Src2)
        requires
            b <= 1,
            td < 8,
            tn < 8,
            src2 is Reg ==> src2->Reg_0 < 8,
            src2 is ZeroImm3 ==> src2->ZeroImm3_0 < 8,
            src2 is OneImm3 ==> -8 <= src2->OneImm3_0 < 0,
            access_ok(old(self)@.mem_addr(tn as int, src2) as int, b as int),
        ensures
            final(self)@ == old(self)@.sav_done(b as int, td as int, tn as int, src2),
    {
        let src_a = self.regs.read(tn);
        let src_b = self.src_value(src2);
        let addr = self.alu(src_a, src_b, 0);
        let write_data = self.regs.read(td);
        self.dmem.write(addr, write_data, b);
    }

    fn lod(&mut self, b: u16, td: u16, tn: u16, src2: Src2)
        requires
            b <= 1,
            td < 8,
            tn < 8,
            src2 is Reg ==> src2->Reg_0 < 8,
            src2 is ZeroImm3 ==> src2->ZeroImm3_0 < 8,
            src2 is OneImm3 ==> -8 <= src2->OneImm3_0 < 0,
            access_ok(old(self)@.mem_addr(tn as int, src2) as int, b as int),
        ensures
            final(self)@ == old(self)@.lod_done(b as int, td as int, tn as int, src2),
    {
        let src_a = self.regs.read(tn);
        let src_b = self.src_value(src2);
        let addr = self.alu(src_a, src_b, 0);
        let read_data = self.dmem.read(addr, b);
        self.write_result(td, read_data);
    }

    fn push(&mut self, b: u16, td: u16, src2: Src2)
        requires
            b <= 1,
            td < 8,
            src2 is Reg ==> src2->Reg_0 < 8,
            src2 is ZeroImm3 ==> src2->ZeroImm3_0 < 8,
            src2 is OneImm3 ==> -8 <= src2->OneImm3_0 < 0,
            access_ok(old(self)@.pushed_sp(b as int) as int, b as int),
        ensures
            final(self)@ == old(self)@.push_done(b as int, old(self)@.push_data(td as int, src2)),
    {
        let sp = self.regs.read(SP);
        let step: u16 = if b == 1 {
            1
        } else {
            2
        };
        let new_sp = self.alu(sp, step, 1);
        let write_data = match src2 {
            Src2::Reg(_) => self.regs.read(td),
            _ => self.src_value(src2),
        };
        self.dmem.write(new_sp, write_data, b);
        self.regs.write(SP, new_sp);
    }

    fn pop(&mut self, b: u16, td: u16)
        requires
            b <= 1,
            td < 8,
            access_ok(old(self)@.regs[SP as int] as int, b as int),
        ensures
            final(self)@ == old(self)@.pop_done(b as int, td as int),
    {
        let sp = self.regs.read(SP);
        let step: u16 = if b == 1 {
            1
        } else {
            2
        };
        let new_sp = self.alu(sp, step, 0);
        let read_data = self.dmem.read(sp, b);
        self.write_result(td, read_data);
        self.regs.write(SP, new_sp);
    }

    fn branch(&mut self, cond: u16, offset: Offset)
        requires
            cond < 16,
        ensures
            final(self)@ == old(self)@.branch_done(cond as int, offset),
    {
        let off = match offset {
            Offset::SignImm9(v) => to_word(v),
            Offset::WideImm16(v) => to_word(v),
        };
        if self.cond_unit.check(cond) {
            let base = self.regs.pc;
            let target = self.alu(base, off, 0);
            self.pc = target;
            self.pc_overwritten = true;
        }
    }
}

/// Sixteen-bit wrapping addition, as the ALU computes addresses.
fn alu_add(a: u16, b: u16) -> (r: u16)
    ensures
        r == alu_value(a, b, 0),
{
    ((a as u32 + b as u32) % 0x10000) as u16
}

/// Sixteen-bit wrapping subtraction, as the ALU moves the stack pointer down.
fn alu_sub(a: u16, b: u16) -> (r: u16)
    ensures
        r == alu_value(a, b, 1),
{
    ((a as u32 + (0x10000 - b as u32)) % 0x10000) as u16
}

/// The result and the flags of ALU operation `aluop` on `a` and `b`.
pub fn alu_compute(a: u16, b: u16, aluop: u16) -> (r: (u16, Flags))
    requires
        aluop < 8,
    ensures
        r.0 == alu_value(a, b, aluop as int),
        r.1 == alu_flags_of(a, b, aluop as int),
{
    let sh: u16 = b % 16;
    proof {
        lemma2_to64();
        lemma_u32_pow2_no_overflow(sh as nat);
        assert(a * pow2(sh as nat) <= u32::MAX) by (nonlinear_arith)
            requires
                a < 0x10000,
                pow2(sh as nat) <= 0x8000,
        ;
        lemma_u32_shl_is_mul(a as u32, sh as u32);
        lemma_u16_shr_is_div(a, sh);
    }
    let result: u16 = match aluop {
        0 => alu_add(a, b),
        1 => alu_sub(a, b),
        2 => a & b,
        3 => a | b,
        4 => a ^ b,
        5 => b,
        6 => (((a as u32) << (sh as u32)) % 0x10000) as u16,
        _ => a >> sh,
    };
    let c = match aluop {
        0 => a as u32 + b as u32 > 0xffff,
        1 => a < b,
        5 => if sh == 0 {
            false
        } else {
            get_bit(a, 16 - sh) == 1
        },
        _ => false,
    };
    assert(aluop == 5 ==> c == ((a as nat / pow2((16 - b % 16) as nat)) % 2 == 1)) by {
        if aluop == 5 && sh == 0 {
            assert(pow2(16) == 0x10000);
            assert(a as nat / 0x10000 == 0);
        }
    }
    let sign_a = a >= 0x8000;
    let sign_b = b >= 0x8000;
    let sign_r = result >= 0x8000;
    let v = match aluop {
        0 => sign_a == sign_b && sign_r != sign_a,
        1 => sign_a != sign_b && sign_r != sign_a,
        _ => false,
    };
    (result, Flags { n: sign_r, z: result == 0, c, v })
}

/// A push of `v` followed by a pop into register `r` with the same byte mode leaves
/// `v` in `r` (only its low byte in byte mode) and the stack pointer where it was.
pub proof fn lemma_push_then_pop(s: CpuView, b: int, v: u16, r: int)
    requires
        s.regs.len() == 8,
        s.dmem.len() == 0x10000,
        b == 0 || b == 1,
        access_ok(s.pushed_sp(b) as int, b),
        0 <= r < 8,
        r != SP,
        r != IN,
    ensures
        s.push_done(b, v).pop_done(b, r).regs[r] == (if b == 1 { v % 256 } else { v }),
        s.push_done(b, v).pop_done(b, r).regs[SP as int] == s.regs[SP as int],
{
    let t = s.push_done(b, v);
    let a = s.pushed_sp(b) as int;
    assert(t.regs[SP as int] == a);
    assert(t.dmem == ram_written(s.dmem, a, v, b));
    if b == 0 {
        assert(a + 1 < 0x10000);
        assert(t.dmem[a] == (v % 256) as u8);
        assert(t.dmem[a + 1] == (v / 256) as u8);
        assert(ram_read(t.dmem, a, b) == v);
    } else {
        assert(ram_read(t.dmem, a, b) == v % 256);
    }
}

/// When `push pc` immediately precedes a wide instruction, the address it pushes is the
/// fetch pc of the instruction after the wide one: three words past its own.
pub proof fn lemma_push_pc_before_wide(s: CpuView)
    requires
        s.regs.len() == 8,
        s.imem.len() == 0x10000,
        s.dmem.len() == 0x10000,
        decoding(s.imem[s.pc as int], 0) matches Some(Instruction::Mem { bsl, td, tn, src2 }) && bsl == 2
            && td == PC && tn == SP && src2 is Reg,
        word_is_wide(s.imem[(s.pc + 1) % 0x10000]),
        s.regs[SP as int] % 2 == 0,
    ensures
        !s.fetched().decoded().faults(),
        ram_read(
            s.fetched().decoded().executed().dmem,
            s.fetched().decoded().executed().regs[SP as int] as int,
            0,
        ) == (s.pc + 3) % 0x10000,
{
    let d = s.fetched().decoded();
    let w = s.imem[s.pc as int];
    assert(d.instr[0] == w);
    assert(decoding(w, d.instr[1]) == decoding(w, 0));
    assert((w / 0x1000) % 4 == 0);
    assert(!word_is_wide(w));
    assert(d.regs[PC as int] == (s.pc + 3) % 0x10000);
    let a = d.pushed_sp(0) as int;
    assert(a % 2 == 0 && a + 1 < 0x10000);
    let e = d.executed();
    assert(e == d.push_done(0, d.regs[PC as int]));
    assert(e.regs[SP as int] == a);
    let v = d.regs[PC as int];
    assert(e.dmem[a] == (v % 256) as u8);
    assert(e.dmem[a + 1] == (v / 256) as u8);
}

/// A taken wide branch whose offset is `target - (pc + 3)` (as the assembler lowers a
/// label branch at `pc`) moves the fetch pc to `target`.
pub proof fn lemma_wide_branch_reaches(s: CpuView, cond: u8, target: u16)
    requires
        s.regs.len() == 8,
        s.imem.len() == 0x10000,
        decoding(s.imem[s.pc as int], s.imem[(s.pc + 1) % 0x10000]) == Some(
            Instruction::BranchOffset { cond, offset: Offset::WideImm16(branch_offset(target, s.pc)) },
        ),
        cond_holds(cond as int, s.flags),
    ensures
        s.fetched().decoded().executed().pc == target,
{
    let d = s.fetched().decoded();
    let w = s.imem[s.pc as int];
    assert((w / 0x4000) % 4 == 2 && (w / 0x2000) % 2 == 1);
    assert(word_is_wide(w));
    let base = d.regs[PC as int];
    assert(base == (s.pc + 3) % 0x10000);
    let raw = ((target - s.pc - 3) % 0x10000) as u16;
    assert(word_of(signed_of(raw)) == raw);
    let e = d.executed();
    assert(e.pc == alu_value(base, raw, 0));
    assert((((s.pc + 3) % 0x10000) + (target - s.pc - 3) % 0x10000) % 0x10000 == target) by {
        lemma_add_mod_noop(s.pc + 3, target - s.pc - 3, 0x10000);
        lemma_small_mod(target as nat, 0x10000);
    }
}

/// The first word of an encoded instruction tells the emulator that it is wide exactly
/// when the instruction takes two words.
pub proof fn lemma_wide_word(i: Instruction)
    requires
        i.wf(),
        !(i is BranchLabel),
    ensures
        word_is_wide(i.encoding()[0]) == i.spec_wide(),
{
    lemma_decode_encoding(i, 0);
    let w = i.encoding()[0];
    match i {
        Instruction::BranchOffset { .. } => {},
        _ => {
            let n = if i.spec_wide() { i.encoding()[1] } else { 0 };
            assert(decoding(w, n) == Some(i));
        },
    }
}

} // verus!
