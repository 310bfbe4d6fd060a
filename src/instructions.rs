//! The decoded instruction model and its 16-bit encoding.

use vstd::arithmetic::div_mod::lemma_fundamental_div_mod_converse;
use crate::bits::{get_bit, get_bits, imm_extend, sign_extend};
use vstd::arithmetic::power2::lemma2_to64;
use vstd::prelude::*;

verus! {

/// Second source operand of a data-processing or memory instruction.
#[derive(Debug, Clone, Copy, PartialEq, Eq, Structural)]
pub enum Src2 {
    /// A register index.
    Reg(u8),
    /// A 3-bit immediate, zero-extended.
    ZeroImm3(u8),
    /// A 3-bit immediate, one-extended (a value in -8..=-1).
    OneImm3(i8),
    /// A 16-bit immediate carried by a second word.
    WideImm16(i16),
}

/// Branch offset, relative to the register-file view of pc.
#[derive(Debug, Clone, Copy, PartialEq, Eq, Structural)]
pub enum Offset {
    /// A 9-bit signed offset held in the opcode word.
    SignImm9(i16),
    /// A 16-bit offset carried by a second word.
    WideImm16(i16),
}

/// A decoded instruction.
#[derive(Debug, Clone, PartialEq)]
pub enum Instruction {
    Dp { cmd: u8, td: u8, tn: u8, src2: Src2 },
    Mem { bsl: u8, td: u8, tn: u8, src2: Src2 },
    /// A branch to a named label; the assembler lowers it before encoding.
    BranchLabel { cond: u8, label: String },
    BranchOffset { cond: u8, offset: Offset },
}

/// Whether every field of a second source fits its encoding.
pub open spec fn src2_wf(s: Src2) -> bool {
    match s {
        Src2::Reg(r) => r < 8,
        Src2::ZeroImm3(i) => i < 8,
        Src2::OneImm3(i) => -8 <= i < 0,
        Src2::WideImm16(_) => true,
    }
}

/// Whether an offset fits its encoding.
pub open spec fn offset_wf(o: Offset) -> bool {
    match o {
        Offset::SignImm9(i) => -256 <= i < 256,
        Offset::WideImm16(_) => true,
    }
}

/// The two-bit `imm` mode field that encodes a second source.
pub open spec fn src2_mode(s: Src2) -> int {
    match s {
        Src2::Reg(_) => 0,
        Src2::ZeroImm3(_) => 1,
        Src2::OneImm3(_) => 2,
        Src2::WideImm16(_) => 3,
    }
}

/// The three low bits of the opcode word that encode a second source.
pub open spec fn src2_payload(s: Src2) -> int {
    match s {
        Src2::Reg(r) => r as int,
        Src2::ZeroImm3(i) => i as int,
        Src2::OneImm3(i) => i + 8,
        Src2::WideImm16(_) => 0,
    }
}

/// The 16-bit pattern of a signed 16-bit value.
pub open spec fn word_of(v: i16) -> u16 {
    if v < 0 {
        (v + 0x10000) as u16
    } else {
        v as u16
    }
}

/// The signed value of a 16-bit pattern.
pub open spec fn signed_of(w: u16) -> i16 {
    if w >= 0x8000 {
        (w - 0x10000) as i16
    } else {
        w as i16
    }
}

/// The opcode word of a data-processing (`op` 0) or memory (`op` 1) instruction.
pub open spec fn op_word(op: int, s: Src2, sel: u8, td: u8, tn: u8) -> u16 {
    (op * 0x4000 + src2_mode(s) * 0x1000 + sel * 0x200 + td * 0x40 + tn * 8 + src2_payload(s)) as u16
}

/// The words of a data-processing or memory instruction.
pub open spec fn op_words(op: int, s: Src2, sel: u8, td: u8, tn: u8) -> Seq<u16> {
    match s {
        Src2::WideImm16(v) => seq![op_word(op, s, sel, td, tn), word_of(v)],
        _ => seq![op_word(op, s, sel, td, tn)],
    }
}

/// The words of a branch with a resolved offset.
pub open spec fn branch_words(cond: u8, o: Offset) -> Seq<u16> {
    match o {
        Offset::SignImm9(v) => seq![(0x8000 + cond * 0x200 + (if v < 0 { v + 0x200 } else { v as int })) as u16],
        Offset::WideImm16(v) => seq![(0x8000 + 0x2000 + cond * 0x200) as u16, word_of(v)],
    }
}

impl Instruction {
    /// Whether every field fits its bit width.
    pub open spec fn wf(&self) -> bool {
        match self {
            Instruction::Dp { cmd, td, tn, src2 } => *cmd < 8 && *td < 8 && *tn < 8 && src2_wf(*src2),
            Instruction::Mem { bsl, td, tn, src2 } => *bsl < 8 && *td < 8 && *tn < 8 && src2_wf(*src2),
            Instruction::BranchLabel { cond, .. } => *cond < 16,
            Instruction::BranchOffset { cond, offset } => *cond < 16 && offset_wf(*offset),
        }
    }

    /// The machine words of an instruction; a label branch has none until lowered.
    pub open spec fn encoding(&self) -> Seq<u16> {
        match self {
            Instruction::Dp { cmd, td, tn, src2 } => op_words(0, *src2, *cmd, *td, *tn),
            Instruction::Mem { bsl, td, tn, src2 } => op_words(1, *src2, *bsl, *td, *tn),
            Instruction::BranchLabel { .. } => Seq::empty(),
            Instruction::BranchOffset { cond, offset } => branch_words(*cond, *offset),
        }
    }

    /// Whether the instruction occupies two words (a label branch is always counted wide).
    pub open spec fn spec_wide(&self) -> bool {
        match self {
            Instruction::Dp { src2, .. } => src2 is WideImm16,
            Instruction::Mem { src2, .. } => src2 is WideImm16,
            Instruction::BranchLabel { .. } => true,
            Instruction::BranchOffset { offset, .. } => offset is WideImm16,
        }
    }

    /// Number of words the instruction takes in the layout.
    pub open spec fn size(&self) -> int {
        if self.spec_wide() {
            2
        } else {
            1
        }
    }

    /// Encodes the instruction as one word, or two when it is wide.
    pub fn to_binary(&self) -> (r: Vec<u16>)
        requires
            self.wf(),
            !(self is BranchLabel),
        ensures
            r@ == self.encoding(),
            r@.len() == self.size(),
    {
        match self {
            Instruction::Dp { cmd, td, tn, src2 } => encode_op(0, *src2, *cmd, *td, *tn),
            Instruction::Mem { bsl, td, tn, src2 } => encode_op(1, *src2, *bsl, *td, *tn),
            Instruction::BranchOffset { cond, offset } => {
                let head: u16 = 0x8000 + (*cond as u16) * 0x200;
                match offset {
                    Offset::SignImm9(v) => {
                        let low: u16 = if *v < 0 {
                            (*v + 0x200) as u16
                        } else {
                            *v as u16
                        };
                        vec![head + low]
                    },
                    Offset::WideImm16(v) => vec![head + 0x2000, to_word(*v)],
                }
            },
            Instruction::BranchLabel { .. } => Vec::new(),
        }
    }

    /// Whether the instruction occupies two words (a label branch is always counted wide).
    pub fn is_wide(&self) -> (r: bool)
        ensures
            r == self.spec_wide(),
    {
        match self {
            Instruction::Dp { src2, .. } => matches!(src2, Src2::WideImm16(_)),
            Instruction::Mem { src2, .. } => matches!(src2, Src2::WideImm16(_)),
            Instruction::BranchLabel { .. } => true,
            Instruction::BranchOffset { offset, .. } => matches!(offset, Offset::WideImm16(_)),
        }
    }

    /// A field-by-field copy.
    pub fn duplicate(&self) -> (r: Instruction)
        ensures
            r == *self,
    {
        match self {
            Instruction::Dp { cmd, td, tn, src2 } => Instruction::Dp { cmd: *cmd, td: *td, tn: *tn, src2: *src2 },
            Instruction::Mem { bsl, td, tn, src2 } => Instruction::Mem { bsl: *bsl, td: *td, tn: *tn, src2: *src2 },
            Instruction::BranchLabel { cond, label } => Instruction::BranchLabel { cond: *cond, label: label.clone() },
            Instruction::BranchOffset { cond, offset } => Instruction::BranchOffset { cond: *cond, offset: *offset },
        }
    }
}

/// The 16-bit pattern of a signed value.
pub fn to_word(v: i16) -> (r: u16)
    ensures
        r == word_of(v),
{
    if v < 0 {
        (v as i32 + 0x10000) as u16
    } else {
        v as u16
    }
}

/// The signed value of a 16-bit pattern.
pub fn to_signed(w: u16) -> (r: i16)
    ensures
        r == signed_of(w),
{
    if w >= 0x8000 {
        (w as i32 - 0x10000) as i16
    } else {
        w as i16
    }
}

fn encode_op(op: u16, s: Src2, sel: u8, td: u8, tn: u8) -> (r: Vec<u16>)
    requires
        op <= 1,
        sel < 8,
        td < 8,
        tn < 8,
        src2_wf(s),
    ensures
        r@ == op_words(op as int, s, sel, td, tn),
{
    let (mode, payload): (u16, u16) = match s {
        Src2::Reg(r) => (0, r as u16),
        Src2::ZeroImm3(i) => (1, i as u16),
        Src2::OneImm3(i) => (2, (i + 8) as u16),
        Src2::WideImm16(_) => (3, 0),
    };
    let head: u16 = op * 0x4000 + mode * 0x1000 + (sel as u16) * 0x200 + (td as u16) * 0x40 + (tn as u16) * 8 + payload;
    match s {
        Src2::WideImm16(v) => vec![head, to_word(v)],
        _ => vec![head],
    }
}

/// The second source that the `imm` mode, the payload bits and the following word select.
pub open spec fn src2_of(mode: u16, payload: u16, next: u16) -> Src2 {
    if mode == 0 {
        Src2::Reg(payload as u8)
    } else if mode == 1 {
        Src2::ZeroImm3(payload as u8)
    } else if mode == 2 {
        Src2::OneImm3((payload - 8) as i8)
    } else {
        Src2::WideImm16(signed_of(next))
    }
}

/// The instruction that starts with word `w`, followed by `next`; `None` for `op == 11`.
pub open spec fn decoding(w: u16, next: u16) -> Option<Instruction> {
    let op = (w / 0x4000) % 4;
    if op == 0 {
        Some(
            Instruction::Dp {
                cmd: ((w / 0x200) % 8) as u8,
                td: ((w / 0x40) % 8) as u8,
                tn: ((w / 8) % 8) as u8,
                src2: src2_of((w / 0x1000) % 4, w % 8, next),
            },
        )
    } else if op == 1 {
        Some(
            Instruction::Mem {
                bsl: ((w / 0x200) % 8) as u8,
                td: ((w / 0x40) % 8) as u8,
                tn: ((w / 8) % 8) as u8,
                src2: src2_of((w / 0x1000) % 4, w % 8, next),
            },
        )
    } else if op == 2 {
        let cond = ((w / 0x200) % 16) as u8;
        if (w / 0x2000) % 2 == 1 {
            Some(Instruction::BranchOffset { cond, offset: Offset::WideImm16(signed_of(next)) })
        } else {
            let low = w % 0x200;
            let v = if low >= 0x100 { low - 0x200 } else { low as int };
            Some(Instruction::BranchOffset { cond, offset: Offset::SignImm9(v as i16) })
        }
    } else {
        None
    }
}

/// Decoding the words of an encoded instruction gives it back; the word after a
/// one-word instruction is not read.
pub proof fn lemma_decode_encoding(i: Instruction, next: u16)
    requires
        i.wf(),
        !(i is BranchLabel),
    ensures
        decoding(i.encoding()[0], if i.spec_wide() { i.encoding()[1] } else { next }) == Some(i),
{
    match i {
        Instruction::Dp { cmd, td, tn, src2 } => {
            lemma_src2_round_trip(0, src2, cmd, td, tn, next);
        },
        Instruction::Mem { bsl, td, tn, src2 } => {
            lemma_src2_round_trip(1, src2, bsl, td, tn, next);
        },
        Instruction::BranchOffset { cond, offset } => {
            let w = i.encoding()[0];
            match offset {
                Offset::SignImm9(v) => {
                    let low = if v < 0 { v + 0x200 } else { v as int };
                    assert(w == 0x8000 + cond * 0x200 + low);
                    assert((w / 0x4000) % 4 == 2);
                    assert((w / 0x2000) % 2 == 0);
                    assert((w / 0x200) % 16 == cond);
                    assert(w % 0x200 == low);
                },
                Offset::WideImm16(v) => {
                    assert(w == 0xa000 + cond * 0x200);
                    assert((w / 0x4000) % 4 == 2);
                    assert((w / 0x2000) % 2 == 1);
                    assert((w / 0x200) % 16 == cond);
                },
            }
        },
        Instruction::BranchLabel { .. } => {},
    }
}

proof fn lemma_src2_round_trip(op: int, s: Src2, sel: u8, td: u8, tn: u8, next: u16)
    requires
        0 <= op <= 1,
        sel < 8,
        td < 8,
        tn < 8,
        src2_wf(s),
    ensures
        ({
            let w = op_word(op, s, sel, td, tn);
            let n = if s is WideImm16 { op_words(op, s, sel, td, tn)[1] } else { next };
            &&& (w / 0x4000) % 4 == op
            &&& (w / 0x200) % 8 == sel
            &&& (w / 0x40) % 8 == td
            &&& (w / 8) % 8 == tn
            &&& src2_of((w / 0x1000) % 4, w % 8, n) == s
        }),
{
    let m = src2_mode(s);
    let p = src2_payload(s);
    assert(0 <= m < 4 && 0 <= p < 8);
    let w = op_word(op, s, sel, td, tn);
    assert(w == op * 0x4000 + m * 0x1000 + sel * 0x200 + td * 0x40 + tn * 8 + p);
    lemma_word_fields(op, m, sel as int, td as int, tn as int, p);
}

/// The fields of an opcode word built from in-range parts read back as those parts.
proof fn lemma_word_fields(op: int, m: int, sel: int, td: int, tn: int, p: int)
    requires
        0 <= op < 4,
        0 <= m < 4,
        0 <= sel < 8,
        0 <= td < 8,
        0 <= tn < 8,
        0 <= p < 8,
    ensures
        ({
            let w = op * 0x4000 + m * 0x1000 + sel * 0x200 + td * 0x40 + tn * 8 + p;
            &&& (w / 0x4000) % 4 == op
            &&& (w / 0x1000) % 4 == m
            &&& (w / 0x200) % 8 == sel
            &&& (w / 0x40) % 8 == td
            &&& (w / 8) % 8 == tn
            &&& w % 8 == p
        }),
{
    let w = op * 0x4000 + m * 0x1000 + sel * 0x200 + td * 0x40 + tn * 8 + p;
    let r0 = tn * 8 + p;
    let r1 = td * 0x40 + r0;
    let r2 = sel * 0x200 + r1;
    let r3 = m * 0x1000 + r2;
    lemma_fundamental_div_mod_converse(w, 0x4000, op, r3);
    lemma_fundamental_div_mod_converse(op, 4, 0, op);
    lemma_fundamental_div_mod_converse(w, 0x1000, op * 4 + m, r2);
    lemma_fundamental_div_mod_converse(op * 4 + m, 4, op, m);
    lemma_fundamental_div_mod_converse(w, 0x200, (op * 4 + m) * 8 + sel, r1);
    lemma_fundamental_div_mod_converse((op * 4 + m) * 8 + sel, 8, op * 4 + m, sel);
    lemma_fundamental_div_mod_converse(w, 0x40, ((op * 4 + m) * 8 + sel) * 8 + td, r0);
    lemma_fundamental_div_mod_converse(((op * 4 + m) * 8 + sel) * 8 + td, 8, (op * 4 + m) * 8 + sel, td);
    lemma_fundamental_div_mod_converse(w, 8, (((op * 4 + m) * 8 + sel) * 8 + td) * 8 + tn, p);
    lemma_fundamental_div_mod_converse((((op * 4 + m) * 8 + sel) * 8 + td) * 8 + tn, 8, ((op * 4 + m) * 8 + sel) * 8 + td, tn);
    lemma_fundamental_div_mod_converse(w, 8, (((op * 4 + m) * 8 + sel) * 8 + td) * 8 + tn, p);
}

/// Decodes the instruction that starts with `w`, followed by `next`; `None` for the
/// unused `op` 11.
pub fn decode_words(w: u16, next: u16) -> (r: Option<Instruction>)
    ensures
        r == decoding(w, next),
{
    proof {
        lemma2_to64();
    }
    let op = get_bits(w, 15, 14);
    if op <= 1 {
        let mode = get_bits(w, 13, 12);
        let sel = get_bits(w, 11, 9) as u8;
        let td = get_bits(w, 8, 6) as u8;
        let tn = get_bits(w, 5, 3) as u8;
        let payload = get_bits(w, 2, 0);
        assert(w / 1 == w);
        let src2 = if mode == 0 {
            Src2::Reg(payload as u8)
        } else if mode == 1 {
            Src2::ZeroImm3(payload as u8)
        } else if mode == 2 {
            Src2::OneImm3(to_signed(imm_extend(payload, 3, 1)) as i8)
        } else {
            Src2::WideImm16(to_signed(next))
        };
        if op == 0 {
            Some(Instruction::Dp { cmd: sel, td, tn, src2 })
        } else {
            Some(Instruction::Mem { bsl: sel, td, tn, src2 })
        }
    } else if op == 2 {
        let cond = get_bits(w, 12, 9) as u8;
        if get_bit(w, 13) == 1 {
            Some(Instruction::BranchOffset { cond, offset: Offset::WideImm16(to_signed(next)) })
        } else {
            let low = get_bits(w, 8, 0);
            assert(w / 1 == w);
            let v = to_signed(sign_extend(low, 9));
            Some(Instruction::BranchOffset { cond, offset: Offset::SignImm9(v) })
        }
    } else {
        None
    }
}

} // verus!
