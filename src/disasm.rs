//! The disassembler: a readable form of the instruction words, for traces.

use crate::instructions::{decode_words, decoding, to_word, word_of, Instruction, Offset, Src2};
use crate::cpu::offset_value;
use crate::text::{decimal, push_char, push_decimal};
use vstd::prelude::*;
use vstd::string::StringExecFns;

verus! {

/// The assembler name of a register.
pub open spec fn reg_name(r: int) -> Seq<char> {
    if r == 0 {
        "t0"@
    } else if r == 1 {
        "t1"@
    } else if r == 2 {
        "t2"@
    } else if r == 3 {
        "t3"@
    } else if r == 4 {
        "bp"@
    } else if r == 5 {
        "sp"@
    } else if r == 6 {
        "pc"@
    } else {
        "in"@
    }
}

/// A lower-case hexadecimal digit.
pub open spec fn hex_digit(d: u16) -> char {
    if d < 10 {
        (('0' as u32) + d) as char
    } else {
        (('a' as u32) + d - 10) as char
    }
}

/// A word as four hexadecimal digits.
pub open spec fn hex4(w: u16) -> Seq<char> {
    seq![hex_digit((w / 0x1000) % 16), hex_digit((w / 0x100) % 16), hex_digit((w / 0x10) % 16), hex_digit(w % 16)]
}

/// A signed number in decimal.
pub open spec fn signed_text(v: int) -> Seq<char> {
    if v < 0 {
        "-"@ + decimal((-v) as nat)
    } else {
        decimal(v as nat)
    }
}

/// A second source as the disassembler shows it, without the `!` of an immediate.
pub open spec fn src2_text(s: Src2) -> Seq<char> {
    match s {
        Src2::Reg(r) => reg_name(r as int),
        Src2::ZeroImm3(i) => decimal(i as nat),
        Src2::OneImm3(i) => signed_text(i as int),
        Src2::WideImm16(v) => "0x"@ + hex4(word_of(v)),
    }
}

/// A data-processing second source: a register by name, an immediate after `!`.
pub open spec fn operand_text(s: Src2) -> Seq<char> {
    if s is Reg {
        src2_text(s)
    } else {
        "!"@ + src2_text(s)
    }
}

/// The padded mnemonic of an ALU command.
pub open spec fn cmd_name(cmd: int) -> Seq<char> {
    if cmd == 0 {
        "ADD  "@
    } else if cmd == 1 {
        "SUB  "@
    } else if cmd == 2 {
        "AND  "@
    } else if cmd == 3 {
        "OR   "@
    } else if cmd == 4 {
        "XOR  "@
    } else if cmd == 5 {
        "MOV  "@
    } else if cmd == 6 {
        "SHL  "@
    } else {
        "SHR  "@
    }
}

/// The name of a condition code.
pub open spec fn cond_name(c: int) -> Seq<char> {
    if c == 0 {
        "Z  "@
    } else if c == 1 {
        "NZ "@
    } else if c == 2 {
        "LT "@
    } else if c == 3 {
        "LE "@
    } else if c == 4 {
        "GT "@
    } else if c == 5 {
        "GE "@
    } else if c == 6 {
        "ULT"@
    } else if c == 7 {
        "ULE"@
    } else if c == 8 {
        "UGT"@
    } else if c == 9 {
        "UGE"@
    } else if c == 10 {
        "MI "@
    } else if c == 11 {
        "PL "@
    } else if c == 12 {
        "VS "@
    } else if c == 13 {
        "VC "@
    } else if c == 14 {
        "MP "@
    } else {
        "NV "@
    }
}

/// The readable form of a decoded instruction; a branch shows its absolute target
/// from the register-file pc `view_pc`.
pub open spec fn instruction_text(i: Instruction, view_pc: u16) -> Seq<char> {
    match i {
        Instruction::Dp { cmd, td, tn, src2 } => if cmd == 5 {
            cmd_name(cmd as int) + reg_name(td as int) + ", "@ + operand_text(src2)
        } else {
            cmd_name(cmd as int) + reg_name(td as int) + ", "@ + reg_name(tn as int) + ", "@ + operand_text(src2)
        },
        Instruction::Mem { bsl, td, tn, src2 } => {
            let b = if bsl / 4 == 1 { "B"@ } else { " "@ };
            let sl = bsl % 4;
            if sl == 0 {
                "SAV"@ + b + " "@ + reg_name(td as int) + ", ["@ + reg_name(tn as int) + " + "@ + src2_text(src2) + "]"@
            } else if sl == 1 {
                "LOD"@ + b + " "@ + reg_name(td as int) + ", ["@ + reg_name(tn as int) + " + "@ + src2_text(src2) + "]"@
            } else if sl == 2 {
                "PUSH"@ + b + " "@ + (if src2 is Reg { reg_name(td as int) } else { src2_text(src2) })
            } else {
                "POP"@ + b + " "@ + reg_name(td as int)
            }
        },
        Instruction::BranchOffset { cond, offset } => {
            let target = ((view_pc + offset_value(offset)) % 0x10000) as u16;
            "J"@ + cond_name(cond as int) + " "@ + match offset {
                Offset::SignImm9(v) => signed_text(v as int),
                Offset::WideImm16(v) => "0x"@ + hex4(word_of(v)),
            } + " => [0x"@ + hex4(target) + "]"@
        },
        Instruction::BranchLabel { .. } => "J"@,
    }
}

/// The readable form of the instruction words `w`, `next`; the unused `op` 11 shows as
/// `INVALID` and the word.
pub open spec fn disassembly(w: u16, next: u16, view_pc: u16) -> Seq<char> {
    match decoding(w, next) {
        Some(i) => instruction_text(i, view_pc),
        None => "INVALID 0x"@ + hex4(w),
    }
}

/// Appends a word as four hexadecimal digits.
pub fn push_hex4(s: &mut String, w: u16)
    ensures
        final(s)@ == old(s)@ + hex4(w),
{
    let digits: [u16; 4] = [(w / 0x1000) % 16, (w / 0x100) % 16, (w / 0x10) % 16, w % 16];
    let mut i: usize = 0;
    while i < 4
        invariant
            i <= 4,
            digits@ == seq![(w / 0x1000) % 16, (w / 0x100) % 16, (w / 0x10) % 16, w % 16],
            s@ == old(s)@ + hex4(w).take(i as int),
        decreases 4 - i,
    {
        let d = digits[i];
        let c = if d < 10 {
            (('0' as u8) + d as u8) as char
        } else {
            (('a' as u8) + d as u8 - 10) as char
        };
        assert(c == hex_digit(d));
        push_char(s, c);
        i += 1;
        assert(s@ =~= old(s)@ + hex4(w).take(i as int));
    }
    assert(hex4(w).take(4) =~= hex4(w));
}

/// Appends a signed number in decimal.
pub fn push_signed(s: &mut String, v: i32)
    requires
        v > i32::MIN,
    ensures
        final(s)@ == old(s)@ + signed_text(v as int),
{
    if v < 0 {
        s.append("-");
        push_decimal(s, (-v) as usize);
    } else {
        push_decimal(s, v as usize);
    }
}

/// The assembler name of a register.
fn push_reg(s: &mut String, r: u8)
    ensures
        final(s)@ == old(s)@ + reg_name(r as int),
{
    let name = if r == 0 {
        "t0"
    } else if r == 1 {
        "t1"
    } else if r == 2 {
        "t2"
    } else if r == 3 {
        "t3"
    } else if r == 4 {
        "bp"
    } else if r == 5 {
        "sp"
    } else if r == 6 {
        "pc"
    } else {
        "in"
    };
    s.append(name);
}

/// Appends a second source as the disassembler shows it.
fn push_src2(s: &mut String, src2: Src2)
    ensures
        final(s)@ == old(s)@ + src2_text(src2),
{
    match src2 {
        Src2::Reg(r) => push_reg(s, r),
        Src2::ZeroImm3(i) => push_decimal(s, i as usize),
        Src2::OneImm3(i) => push_signed(s, i as i32),
        Src2::WideImm16(v) => {
            s.append("0x");
            push_hex4(s, to_word(v));
        },
    }
}

/// Appends the padded mnemonic of an ALU command.
fn push_cmd(s: &mut String, cmd: u8)
    ensures
        final(s)@ == old(s)@ + cmd_name(cmd as int),
{
    let name = if cmd == 0 {
        "ADD  "
    } else if cmd == 1 {
        "SUB  "
    } else if cmd == 2 {
        "AND  "
    } else if cmd == 3 {
        "OR   "
    } else if cmd == 4 {
        "XOR  "
    } else if cmd == 5 {
        "MOV  "
    } else if cmd == 6 {
        "SHL  "
    } else {
        "SHR  "
    };
    s.append(name);
}

/// Appends the name of a condition code.
fn push_cond(s: &mut String, c: u8)
    ensures
        final(s)@ == old(s)@ + cond_name(c as int),
{
    let name = if c == 0 {
        "Z  "
    } else if c == 1 {
        "NZ "
    } else if c == 2 {
        "LT "
    } else if c == 3 {
        "LE "
    } else if c == 4 {
        "GT "
    } else if c == 5 {
        "GE "
    } else if c == 6 {
        "ULT"
    } else if c == 7 {
        "ULE"
    } else if c == 8 {
        "UGT"
    } else if c == 9 {
        "UGE"
    } else if c == 10 {
        "MI "
    } else if c == 11 {
        "PL "
    } else if c == 12 {
        "VS "
    } else if c == 13 {
        "VC "
    } else if c == 14 {
        "MP "
    } else {
        "NV "
    };
    s.append(name);
}

/// The readable form of the instruction words `w`, `next`, with branch targets taken from
/// the register-file pc `view_pc`.
pub fn disassemble(w: u16, next: u16, view_pc: u16) -> (r: String)
    ensures
        r@ == disassembly(w, next, view_pc),
{
    let mut s = String::new();
    match decode_words(w, next) {
        None => {
            s.append("INVALID 0x");
            push_hex4(&mut s, w);
        },
        Some(Instruction::Dp { cmd, td, tn, src2 }) => {
            push_cmd(&mut s, cmd);
            push_reg(&mut s, td);
            if cmd != 5 {
                s.append(", ");
                push_reg(&mut s, tn);
            }
            s.append(", ");
            if !matches!(src2, Src2::Reg(_)) {
                s.append("!");
            }
            push_src2(&mut s, src2);
        },
        Some(Instruction::Mem { bsl, td, tn, src2 }) => {
            let sl = bsl % 4;
            let b = if bsl / 4 == 1 {
                "B"
            } else {
                " "
            };
            if sl <= 1 {
                s.append(if sl == 0 {
                    "SAV"
                } else {
                    "LOD"
                });
                s.append(b);
                s.append(" ");
                push_reg(&mut s, td);
                s.append(", [");
                push_reg(&mut s, tn);
                s.append(" + ");
                push_src2(&mut s, src2);
                s.append("]");
            } else if sl == 2 {
                s.append("PUSH");
                s.append(b);
                s.append(" ");
                match src2 {
                    Src2::Reg(_) => push_reg(&mut s, td),
                    _ => push_src2(&mut s, src2),
                }
            } else {
                s.append("POP");
                s.append(b);
                s.append(" ");
                push_reg(&mut s, td);
            }
        },
        Some(Instruction::BranchOffset { cond, offset }) => {
            let off = match offset {
                Offset::SignImm9(v) => to_word(v),
                Offset::WideImm16(v) => to_word(v),
            };
            let target = ((view_pc as u32 + off as u32) % 0x10000) as u16;
            s.append("J");
            push_cond(&mut s, cond);
            s.append(" ");
            match offset {
                Offset::SignImm9(v) => push_signed(&mut s, v as i32),
                Offset::WideImm16(_) => {
                    s.append("0x");
                    push_hex4(&mut s, off);
                },
            }
            s.append(" => [0x");
            push_hex4(&mut s, target);
            s.append("]");
        },
        Some(Instruction::BranchLabel { .. }) => {
            s.append("J");
        },
    }
    s
}

} // verus!
