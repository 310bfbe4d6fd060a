//! The assembler: source text to instructions, with labels resolved.

use crate::components::chars_of;
use crate::instructions::{signed_of, src2_wf, Instruction, Offset, Src2};
use crate::labels::LabelMap;
use crate::instructions::to_signed;
use crate::text::{
    decimal, eq_lit, find_char, first_index, lines, lower_of, lowered, message, parse_int, parse_number,
    push_chars, push_decimal, slice_of, split_lines, strip_comment, string_of, tokenize,
    tokens, trim, trimmed, views, without_comment,
};
use vstd::arithmetic::div_mod::lemma_mod_multiples_vanish;
use vstd::prelude::*;
use vstd::string::StringExecFns;

verus! {

/// What one line's instruction parses to: a finished instruction, or a branch whose
/// label is still to be resolved.
pub ghost enum Parsed {
    Plain(Instruction),
    Branch(u8, Seq<char>),
}

/// The register a token names.
pub open spec fn reg_of(t: Seq<char>) -> Option<u8> {
    if t == "t0"@ {
        Some(0u8)
    } else if t == "t1"@ {
        Some(1u8)
    } else if t == "t2"@ {
        Some(2u8)
    } else if t == "t3"@ {
        Some(3u8)
    } else if t == "bp"@ {
        Some(4u8)
    } else if t == "sp"@ {
        Some(5u8)
    } else if t == "pc"@ {
        Some(6u8)
    } else if t == "in"@ {
        Some(7u8)
    } else {
        None
    }
}

/// The register a token names, or the error that it names none.
pub open spec fn reg_result(t: Seq<char>) -> Result<u8, Seq<char>> {
    match reg_of(t) {
        Some(r) => Ok(r),
        None => Err("Invalid register "@ + t),
    }
}

/// The ALU command of a data-processing mnemonic.
pub open spec fn cmd_of(t: Seq<char>) -> Option<u8> {
    if t == "add"@ {
        Some(0u8)
    } else if t == "sub"@ {
        Some(1u8)
    } else if t == "and"@ {
        Some(2u8)
    } else if t == "or"@ {
        Some(3u8)
    } else if t == "xor"@ {
        Some(4u8)
    } else if t == "mov"@ {
        Some(5u8)
    } else if t == "shl"@ {
        Some(6u8)
    } else if t == "shr"@ {
        Some(7u8)
    } else {
        None
    }
}

/// The `bsl` selector of a load or store mnemonic.
pub open spec fn bsl_of(t: Seq<char>) -> Option<u8> {
    if t == "sav"@ {
        Some(0u8)
    } else if t == "savb"@ {
        Some(4u8)
    } else if t == "lod"@ {
        Some(1u8)
    } else if t == "lodb"@ {
        Some(5u8)
    } else {
        None
    }
}

/// The condition code a branch suffix names.
pub open spec fn cond_of(t: Seq<char>) -> Option<u8> {
    if t == "z"@ || t == "eq"@ {
        Some(0u8)
    } else if t == "nz"@ || t == "ne"@ {
        Some(1u8)
    } else if t == "lt"@ {
        Some(2u8)
    } else if t == "le"@ {
        Some(3u8)
    } else if t == "gt"@ {
        Some(4u8)
    } else if t == "ge"@ {
        Some(5u8)
    } else if t == "ult"@ || t == "cc"@ {
        Some(6u8)
    } else if t == "ule"@ {
        Some(7u8)
    } else if t == "ugt"@ {
        Some(8u8)
    } else if t == "uge"@ || t == "cs"@ {
        Some(9u8)
    } else if t == "mi"@ || t == "ns"@ {
        Some(10u8)
    } else if t == "pl"@ || t == "nc"@ {
        Some(11u8)
    } else if t == "vs"@ {
        Some(12u8)
    } else if t == "vc"@ {
        Some(13u8)
    } else if t == "al"@ || t == "mp"@ {
        Some(14u8)
    } else if t == "nv"@ {
        Some(15u8)
    } else {
        None
    }
}

/// The narrowest second source that holds an immediate value.
pub open spec fn imm_src2(v: int) -> Src2 {
    if 0 <= v <= 7 {
        Src2::ZeroImm3(v as u8)
    } else if -8 <= v < 0 {
        Src2::OneImm3(v as i8)
    } else {
        Src2::WideImm16((if v > 32767 { v - 65536 } else { v }) as i16)
    }
}

/// A register or an immediate (`!` then a decimal number, or `0x` and a 16-bit hex
/// number) as a second source.
pub open spec fn src2_result(t: Seq<char>) -> Result<Src2, Seq<char>> {
    if reg_of(t) is Some {
        Ok(Src2::Reg(reg_of(t)->Some_0))
    } else if t.len() > 0 && t[0] == '!' {
        let imm = t.drop_first();
        if imm.len() >= 2 && imm[0] == '0' && imm[1] == 'x' {
            match parse_int(imm.skip(2), 16) {
                Some(v) => if -32768 <= v <= 65535 {
                    Ok(imm_src2(v))
                } else {
                    Err("Invalid hexadecimal immediate: "@ + imm)
                },
                None => Err("Invalid hexadecimal immediate: "@ + imm),
            }
        } else {
            match parse_int(imm, 10) {
                Some(v) => if -32768 <= v <= 32767 {
                    Ok(imm_src2(v))
                } else {
                    Err("Invalid decimal immediate: "@ + imm)
                },
                None => Err("Invalid decimal immediate: "@ + imm),
            }
        }
    } else {
        Err("Invalid register or immediate: "@ + t)
    }
}

/// A data-processing instruction: `op td, tn, src2`; `mov td, src2`; or `op td, src2`
/// for `td = td op src2`.
pub open spec fn dp_result(opcode: Seq<char>, ops: Seq<Seq<char>>) -> Result<Instruction, Seq<char>> {
    let cmd = cmd_of(opcode)->Some_0;
    if ops.len() == 3 && cmd != 5 {
        match reg_result(ops[0]) {
            Err(e) => Err(e),
            Ok(td) => match reg_result(ops[1]) {
                Err(e) => Err(e),
                Ok(tn) => match src2_result(ops[2]) {
                    Err(e) => Err(e),
                    Ok(src2) => Ok(Instruction::Dp { cmd, td, tn, src2 }),
                },
            },
        }
    } else if ops.len() == 2 {
        match reg_result(ops[0]) {
            Err(e) => Err(e),
            Ok(td) => match src2_result(ops[1]) {
                Err(e) => Err(e),
                Ok(src2) => Ok(Instruction::Dp { cmd, td, tn: if cmd == 5 { 0 } else { td }, src2 }),
            },
        }
    } else {
        Err("Invalid operands for "@ + opcode)
    }
}

/// The error of a token that is not the expected punctuation.
pub open spec fn token_error(pat: Seq<char>, t: Seq<char>) -> Seq<char> {
    "Expected '"@ + pat + "', found '"@ + t + "'"@
}

/// A load or store: `op td, [ tn ]` or `op td, [ tn + src2 ]`.
pub open spec fn mem_result(opcode: Seq<char>, ops: Seq<Seq<char>>) -> Result<Instruction, Seq<char>> {
    let bsl = bsl_of(opcode)->Some_0;
    if ops.len() == 4 {
        match reg_result(ops[0]) {
            Err(e) => Err(e),
            Ok(td) => if ops[1] != "["@ {
                Err(token_error("["@, ops[1]))
            } else {
                match reg_result(ops[2]) {
                    Err(e) => Err(e),
                    Ok(tn) => if ops[3] != "]"@ {
                        Err(token_error("]"@, ops[3]))
                    } else {
                        Ok(Instruction::Mem { bsl, td, tn, src2: Src2::ZeroImm3(0) })
                    },
                }
            },
        }
    } else if ops.len() == 6 {
        match reg_result(ops[0]) {
            Err(e) => Err(e),
            Ok(td) => if ops[1] != "["@ {
                Err(token_error("["@, ops[1]))
            } else {
                match reg_result(ops[2]) {
                    Err(e) => Err(e),
                    Ok(tn) => if ops[3] != "+"@ {
                        Err(token_error("+"@, ops[3]))
                    } else {
                        match src2_result(ops[4]) {
                            Err(e) => Err(e),
                            Ok(src2) => if ops[5] != "]"@ {
                                Err(token_error("]"@, ops[5]))
                            } else {
                                Ok(Instruction::Mem { bsl, td, tn, src2 })
                            },
                        }
                    },
                }
            },
        }
    } else {
        Err("Invalid operands for "@ + opcode)
    }
}

/// `push src` (word) or `pushb src` (byte), on `sp`.
pub open spec fn push_result(ops: Seq<Seq<char>>, byte: bool) -> Result<Instruction, Seq<char>> {
    let bsl: u8 = if byte { 6 } else { 2 };
    if ops.len() == 1 {
        match src2_result(ops[0]) {
            Err(e) => Err(e),
            Ok(Src2::Reg(r)) => Ok(Instruction::Mem { bsl, td: r, tn: 5, src2: Src2::Reg(0) }),
            Ok(data) => Ok(Instruction::Mem { bsl, td: 0, tn: 5, src2: data }),
        }
    } else {
        Err("Invalid operands for push"@)
    }
}

/// `pop dst` (word) or `popb dst` (byte), on `sp`.
pub open spec fn pop_result(ops: Seq<Seq<char>>, byte: bool) -> Result<Instruction, Seq<char>> {
    let bsl: u8 = if byte { 7 } else { 3 };
    if ops.len() == 1 {
        match reg_result(ops[0]) {
            Err(e) => Err(e),
            Ok(td) => Ok(Instruction::Mem { bsl, td, tn: 5, src2: Src2::Reg(0) }),
        }
    } else {
        Err("Invalid operands for pop"@)
    }
}

/// A data-processing alias: the parse of `base` on the operands, or the alias's own error.
pub open spec fn alias_dp(base: Seq<char>, ops: Seq<Seq<char>>, err: Seq<char>) -> Result<Instruction, Seq<char>> {
    match dp_result(base, ops) {
        Ok(i) => Ok(i),
        Err(_) => Err(err),
    }
}

/// The aliases `inc dec not cmp tst ret nop`.
pub open spec fn alias_result(opcode: Seq<char>, ops: Seq<Seq<char>>) -> Result<Instruction, Seq<char>> {
    if opcode == "inc"@ {
        alias_dp("add"@, ops.push("!1"@), "Invalid arguments for inc"@)
    } else if opcode == "dec"@ {
        alias_dp("sub"@, ops.push("!1"@), "Invalid arguments for dec"@)
    } else if opcode == "not"@ {
        alias_dp("xor"@, ops.push("!-1"@), "Invalid arguments for not"@)
    } else if opcode == "cmp"@ {
        alias_dp("sub"@, seq!["in"@] + ops, "Invalid arguments for cmp"@)
    } else if opcode == "tst"@ {
        alias_dp("and"@, seq!["in"@] + ops, "Invalid arguments for tst"@)
    } else if opcode == "ret"@ {
        if ops.len() == 0 {
            Ok(Instruction::Mem { bsl: 3, td: 6, tn: 5, src2: Src2::Reg(0) })
        } else {
            Err("Unexpected token '"@ + ops[0] + "' after ret"@)
        }
    } else if opcode == "nop"@ {
        if ops.len() == 0 {
            Ok(Instruction::BranchOffset { cond: 15, offset: Offset::SignImm9(0) })
        } else {
            Err("Unexpected token '"@ + ops[0] + "' after nop"@)
        }
    } else {
        Err("Parsing non-existant Alias "@ + opcode)
    }
}

/// Whether a mnemonic is one of the aliases.
pub open spec fn is_alias(t: Seq<char>) -> bool {
    t == "inc"@ || t == "dec"@ || t == "not"@ || t == "cmp"@ || t == "tst"@ || t == "ret"@ || t
        == "nop"@
}

/// A branch `j<cc> label`.
pub open spec fn branch_result(opcode: Seq<char>, ops: Seq<Seq<char>>) -> Result<Parsed, Seq<char>> {
    if ops.len() == 1 {
        let cc = opcode.drop_first();
        match cond_of(cc) {
            Some(cond) => Ok(Parsed::Branch(cond, ops[0])),
            None => Err("Invalid conditional for JMP instruction: "@ + cc),
        }
    } else {
        Err("Invalid operands for "@ + opcode)
    }
}

/// A plain instruction result as a parse result.
pub open spec fn plain(r: Result<Instruction, Seq<char>>) -> Result<Parsed, Seq<char>> {
    match r {
        Ok(i) => Ok(Parsed::Plain(i)),
        Err(e) => Err(e),
    }
}

/// What the text of one instruction parses to.
pub open spec fn instruction_result(text: Seq<char>) -> Result<Parsed, Seq<char>> {
    let toks = tokens(text);
    if toks.len() == 0 {
        Err("Invalid opcode "@)
    } else {
        let op = toks[0];
        let ops = toks.drop_first();
        if cmd_of(op) is Some {
            plain(dp_result(op, ops))
        } else if bsl_of(op) is Some {
            plain(mem_result(op, ops))
        } else if op == "push"@ || op == "pushb"@ {
            plain(push_result(ops, op == "pushb"@))
        } else if op == "pop"@ || op == "popb"@ {
            plain(pop_result(ops, op == "popb"@))
        } else if is_alias(op) {
            plain(alias_result(op, ops))
        } else if op.len() > 0 && op[0] == 'j' {
            branch_result(op, ops)
        } else {
            Err("Invalid opcode "@ + op)
        }
    }
}

/// Whether an executable result is the given one: equal instructions, or an error with
/// the given text.
pub open spec fn same_result(r: Result<Instruction, String>, s: Result<Instruction, Seq<char>>) -> bool {
    match s {
        Ok(i) => r == Ok::<Instruction, String>(i),
        Err(e) => r is Err && r->Err_0@ == e,
    }
}

/// Whether an executable result is the given parse: a label branch stands for a
/// `Branch` with its label's characters.
pub open spec fn same_parse(r: Result<Instruction, String>, s: Result<Parsed, Seq<char>>) -> bool {
    match s {
        Ok(Parsed::Plain(i)) => r == Ok::<Instruction, String>(i),
        Ok(Parsed::Branch(c, l)) => r is Ok && r->Ok_0 is BranchLabel && r->Ok_0->BranchLabel_cond == c
            && r->Ok_0->BranchLabel_label@ == l,
        Err(e) => r is Err && r->Err_0@ == e,
    }
}

/// The register a token names.
pub fn parse_register(token: &Vec<char>) -> (r: Result<u8, String>)
    ensures
        match reg_result(token@) {
            Ok(v) => r == Ok::<u8, String>(v),
            Err(e) => r is Err && r->Err_0@ == e,
        },
        r is Ok ==> r->Ok_0 < 8,
{
    if eq_lit(token, "t0") {
        Ok(0)
    } else if eq_lit(token, "t1") {
        Ok(1)
    } else if eq_lit(token, "t2") {
        Ok(2)
    } else if eq_lit(token, "t3") {
        Ok(3)
    } else if eq_lit(token, "bp") {
        Ok(4)
    } else if eq_lit(token, "sp") {
        Ok(5)
    } else if eq_lit(token, "pc") {
        Ok(6)
    } else if eq_lit(token, "in") {
        Ok(7)
    } else {
        Err(message("Invalid register ", token))
    }
}

/// The ALU command of a data-processing mnemonic.
pub fn parse_cmd(token: &Vec<char>) -> (r: Option<u8>)
    ensures
        r == cmd_of(token@),
{
    if eq_lit(token, "add") {
        Some(0)
    } else if eq_lit(token, "sub") {
        Some(1)
    } else if eq_lit(token, "and") {
        Some(2)
    } else if eq_lit(token, "or") {
        Some(3)
    } else if eq_lit(token, "xor") {
        Some(4)
    } else if eq_lit(token, "mov") {
        Some(5)
    } else if eq_lit(token, "shl") {
        Some(6)
    } else if eq_lit(token, "shr") {
        Some(7)
    } else {
        None
    }
}

/// The `bsl` selector of a load or store mnemonic.
fn parse_bsl(token: &Vec<char>) -> (r: Option<u8>)
    ensures
        r == bsl_of(token@),
{
    if eq_lit(token, "sav") {
        Some(0)
    } else if eq_lit(token, "savb") {
        Some(4)
    } else if eq_lit(token, "lod") {
        Some(1)
    } else if eq_lit(token, "lodb") {
        Some(5)
    } else {
        None
    }
}

/// The condition code a branch suffix names.
pub fn parse_cond(t: &Vec<char>) -> (r: Result<u8, String>)
    ensures
        match cond_of(t@) {
            Some(c) => r == Ok::<u8, String>(c),
            None => r is Err && r->Err_0@ == "Invalid conditional for JMP instruction: "@ + t@,
        },
{
    if eq_lit(t, "z") || eq_lit(t, "eq") {
        Ok(0)
    } else if eq_lit(t, "nz") || eq_lit(t, "ne") {
        Ok(1)
    } else if eq_lit(t, "lt") {
        Ok(2)
    } else if eq_lit(t, "le") {
        Ok(3)
    } else if eq_lit(t, "gt") {
        Ok(4)
    } else if eq_lit(t, "ge") {
        Ok(5)
    } else if eq_lit(t, "ult") || eq_lit(t, "cc") {
        Ok(6)
    } else if eq_lit(t, "ule") {
        Ok(7)
    } else if eq_lit(t, "ugt") {
        Ok(8)
    } else if eq_lit(t, "uge") || eq_lit(t, "cs") {
        Ok(9)
    } else if eq_lit(t, "mi") || eq_lit(t, "ns") {
        Ok(10)
    } else if eq_lit(t, "pl") || eq_lit(t, "nc") {
        Ok(11)
    } else if eq_lit(t, "vs") {
        Ok(12)
    } else if eq_lit(t, "vc") {
        Ok(13)
    } else if eq_lit(t, "al") || eq_lit(t, "mp") {
        Ok(14)
    } else if eq_lit(t, "nv") {
        Ok(15)
    } else {
        Err(message("Invalid conditional for JMP instruction: ", t))
    }
}

/// Checks that a token is the expected punctuation.
pub fn match_token(token: &Vec<char>, pat: &str) -> (r: Result<(), String>)
    ensures
        token@ == pat@ ==> r is Ok,
        token@ != pat@ ==> r is Err && r->Err_0@ == token_error(pat@, token@),
{
    if eq_lit(token, pat) {
        Ok(())
    } else {
        let mut m = String::from_str("Expected '");
        m.append(pat);
        m.append("', found '");
        push_chars(&mut m, token);
        m.append("'");
        Err(m)
    }
}

/// The narrowest second source that holds an immediate value.
fn imm_to_src2(v: i32) -> (r: Src2)
    requires
        -32768 <= v <= 65535,
    ensures
        r == imm_src2(v as int),
        src2_wf(r),
{
    if 0 <= v && v <= 7 {
        Src2::ZeroImm3(v as u8)
    } else if -8 <= v && v < 0 {
        Src2::OneImm3(v as i8)
    } else if v > 32767 {
        Src2::WideImm16((v - 65536) as i16)
    } else {
        Src2::WideImm16(v as i16)
    }
}

/// A register or an immediate as a second source.
pub fn parse_register_or_imm(token: &Vec<char>) -> (r: Result<Src2, String>)
    ensures
        match src2_result(token@) {
            Ok(v) => r == Ok::<Src2, String>(v),
            Err(e) => r is Err && r->Err_0@ == e,
        },
        r is Ok ==> src2_wf(r->Ok_0),
{
    if let Ok(reg) = parse_register(token) {
        return Ok(Src2::Reg(reg));
    }
    if token.len() > 0 && token[0] == '!' {
        let imm = crate::text::slice_of(token, 1, token.len());
        assert(imm@ == token@.drop_first());
        if imm.len() >= 2 && imm[0] == '0' && imm[1] == 'x' {
            let digits = crate::text::slice_of(&imm, 2, imm.len());
            assert(digits@ == imm@.skip(2));
            match parse_number(&digits, 16, 65535) {
                Some(v) => Ok(imm_to_src2(v)),
                None => Err(message("Invalid hexadecimal immediate: ", &imm)),
            }
        } else {
            match parse_number(&imm, 10, 32767) {
                Some(v) => Ok(imm_to_src2(v)),
                None => Err(message("Invalid decimal immediate: ", &imm)),
            }
        }
    } else {
        Err(message("Invalid register or immediate: ", token))
    }
}

/// A data-processing instruction.
pub fn parse_dp(opcode: &Vec<char>, operands: &Vec<Vec<char>>) -> (r: Result<Instruction, String>)
    requires
        cmd_of(opcode@) is Some,
    ensures
        same_result(r, dp_result(opcode@, views(operands@))),
        r is Ok ==> r->Ok_0 is Dp && r->Ok_0.wf(),
{
    let cmd = match parse_cmd(opcode) {
        Some(c) => c,
        None => 0,
    };
    let ghost ops = views(operands@);
    if operands.len() == 3 && cmd != 0b101 {
        assert(operands[0]@ == ops[0] && operands[1]@ == ops[1] && operands[2]@ == ops[2]);
        let td = parse_register(&operands[0])?;
        let tn = parse_register(&operands[1])?;
        let src2 = parse_register_or_imm(&operands[2])?;
        Ok(Instruction::Dp { cmd, td, tn, src2 })
    } else if operands.len() == 2 {
        assert(operands[0]@ == ops[0] && operands[1]@ == ops[1]);
        let td = parse_register(&operands[0])?;
        let src2 = parse_register_or_imm(&operands[1])?;
        let tn = if cmd == 0b101 {
            0
        } else {
            td
        };
        Ok(Instruction::Dp { cmd, td, tn, src2 })
    } else {
        Err(message("Invalid operands for ", opcode))
    }
}

/// A load or store.
pub fn parse_mem(opcode: &Vec<char>, operands: &Vec<Vec<char>>) -> (r: Result<Instruction, String>)
    requires
        bsl_of(opcode@) is Some,
    ensures
        same_result(r, mem_result(opcode@, views(operands@))),
        r is Ok ==> r->Ok_0 is Mem && r->Ok_0.wf(),
{
    let bsl = match parse_bsl(opcode) {
        Some(b) => b,
        None => 0,
    };
    let ghost ops = views(operands@);
    if operands.len() == 4 {
        assert(forall|i: int| 0 <= i < 4 ==> operands@[i]@ == ops[i]);
        let td = parse_register(&operands[0])?;
        match_token(&operands[1], "[")?;
        let tn = parse_register(&operands[2])?;
        match_token(&operands[3], "]")?;
        Ok(Instruction::Mem { bsl, td, tn, src2: Src2::ZeroImm3(0) })
    } else if operands.len() == 6 {
        assert(forall|i: int| 0 <= i < 6 ==> operands@[i]@ == ops[i]);
        let td = parse_register(&operands[0])?;
        match_token(&operands[1], "[")?;
        let tn = parse_register(&operands[2])?;
        match_token(&operands[3], "+")?;
        let src2 = parse_register_or_imm(&operands[4])?;
        match_token(&operands[5], "]")?;
        Ok(Instruction::Mem { bsl, td, tn, src2 })
    } else {
        Err(message("Invalid operands for ", opcode))
    }
}

/// `push` or `pushb`.
pub fn parse_push(operands: &Vec<Vec<char>>, byte: bool) -> (r: Result<Instruction, String>)
    ensures
        same_result(r, push_result(views(operands@), byte)),
        r is Ok ==> r->Ok_0 is Mem && r->Ok_0.wf(),
{
    if operands.len() == 1 {
        let bsl: u8 = if byte {
            0b110
        } else {
            0b010
        };
        assert(operands[0]@ == views(operands@)[0]);
        let write_data = parse_register_or_imm(&operands[0])?;
        match write_data {
            Src2::Reg(r) => Ok(Instruction::Mem { bsl, td: r, tn: 0b101, src2: Src2::Reg(0) }),
            _ => Ok(Instruction::Mem { bsl, td: 0, tn: 0b101, src2: write_data }),
        }
    } else {
        Err(String::from_str("Invalid operands for push"))
    }
}

/// `pop` or `popb`.
pub fn parse_pop(operands: &Vec<Vec<char>>, byte: bool) -> (r: Result<Instruction, String>)
    ensures
        same_result(r, pop_result(views(operands@), byte)),
        r is Ok ==> r->Ok_0 is Mem && r->Ok_0.wf(),
{
    if operands.len() == 1 {
        let bsl: u8 = if byte {
            0b111
        } else {
            0b011
        };
        assert(operands[0]@ == views(operands@)[0]);
        let td = parse_register(&operands[0])?;
        Ok(Instruction::Mem { bsl, td, tn: 0b101, src2: Src2::Reg(0) })
    } else {
        Err(String::from_str("Invalid operands for pop"))
    }
}

proof fn lemma_views_push(v: Seq<Vec<char>>, t: Vec<char>)
    ensures
        views(v.push(t)) == views(v).push(t@),
{
    assert(views(v.push(t)) =~= views(v).push(t@));
}

/// The operands with an extra token appended.
fn with_last(operands: &Vec<Vec<char>>, extra: &str) -> (r: Vec<Vec<char>>)
    ensures
        views(r@) == views(operands@).push(extra@),
{
    let mut v: Vec<Vec<char>> = Vec::new();
    let mut i: usize = 0;
    while i < operands.len()
        invariant
            i <= operands@.len(),
            views(v@) == views(operands@).take(i as int),
        decreases operands@.len() - i,
    {
        let t = crate::text::slice_of(&operands[i], 0, operands[i].len());
        assert(t@ =~= operands@[i as int]@);
        proof {
            lemma_views_push(v@, t);
            assert(views(operands@).take(i + 1) =~= views(operands@).take(i as int).push(t@));
        }
        v.push(t);
        i += 1;
    }
    let e = chars_of(extra);
    proof {
        lemma_views_push(v@, e);
        assert(views(operands@).take(i as int) =~= views(operands@));
    }
    v.push(e);
    v
}

/// The operands with an extra token in front.
fn with_first(operands: &Vec<Vec<char>>, extra: &str) -> (r: Vec<Vec<char>>)
    ensures
        views(r@) == seq![extra@] + views(operands@),
{
    let mut v: Vec<Vec<char>> = Vec::new();
    let e = chars_of(extra);
    proof {
        lemma_views_push(v@, e);
        assert(views(v@) =~= Seq::<Seq<char>>::empty());
        assert(seq![extra@] + views(operands@).take(0) =~= Seq::<Seq<char>>::empty().push(e@));
    }
    v.push(e);
    let mut i: usize = 0;
    while i < operands.len()
        invariant
            i <= operands@.len(),
            views(v@) == seq![extra@] + views(operands@).take(i as int),
        decreases operands@.len() - i,
    {
        let t = crate::text::slice_of(&operands[i], 0, operands[i].len());
        assert(t@ =~= operands@[i as int]@);
        proof {
            lemma_views_push(v@, t);
            assert(seq![extra@] + views(operands@).take(i + 1) =~= (seq![extra@] + views(operands@).take(i as int)).push(t@));
        }
        v.push(t);
        i += 1;
    }
    assert(views(operands@).take(i as int) =~= views(operands@));
    v
}

/// A data-processing alias: the parse of `base` on the operands, or the alias's own error.
fn parse_alias_dp(base: &str, operands: &Vec<Vec<char>>, err: &str) -> (r: Result<Instruction, String>)
    requires
        cmd_of(base@) is Some,
    ensures
        same_result(r, alias_dp(base@, views(operands@), err@)),
        r is Ok ==> r->Ok_0 is Dp && r->Ok_0.wf(),
{
    let b = chars_of(base);
    match parse_dp(&b, operands) {
        Ok(i) => Ok(i),
        Err(_) => Err(String::from_str(err)),
    }
}

/// The aliases `inc dec not cmp tst ret nop`.
pub fn parse_alias(opcode: &Vec<char>, operands: &Vec<Vec<char>>) -> (r: Result<Instruction, String>)
    ensures
        same_result(r, alias_result(opcode@, views(operands@))),
        r is Ok ==> !(r->Ok_0 is BranchLabel) && r->Ok_0.wf(),
{
    proof {
        reveal_strlit("add");
        reveal_strlit("sub");
        reveal_strlit("and");
        reveal_strlit("xor");
    }
    if eq_lit(opcode, "inc") {
        parse_alias_dp("add", &with_last(operands, "!1"), "Invalid arguments for inc")
    } else if eq_lit(opcode, "dec") {
        parse_alias_dp("sub", &with_last(operands, "!1"), "Invalid arguments for dec")
    } else if eq_lit(opcode, "not") {
        parse_alias_dp("xor", &with_last(operands, "!-1"), "Invalid arguments for not")
    } else if eq_lit(opcode, "cmp") {
        parse_alias_dp("sub", &with_first(operands, "in"), "Invalid arguments for cmp")
    } else if eq_lit(opcode, "tst") {
        parse_alias_dp("and", &with_first(operands, "in"), "Invalid arguments for tst")
    } else if eq_lit(opcode, "ret") {
        if operands.len() == 0 {
            Ok(Instruction::Mem { bsl: 0b011, td: 0b110, tn: 0b101, src2: Src2::Reg(0) })
        } else {
            let mut m = message("Unexpected token '", &operands[0]);
            m.append("' after ret");
            Err(m)
        }
    } else if eq_lit(opcode, "nop") {
        if operands.len() == 0 {
            Ok(Instruction::BranchOffset { cond: 0b1111, offset: Offset::SignImm9(0) })
        } else {
            let mut m = message("Unexpected token '", &operands[0]);
            m.append("' after nop");
            Err(m)
        }
    } else {
        Err(message("Parsing non-existant Alias ", opcode))
    }
}

/// A branch to a label.
pub fn parse_branch(opcode: &Vec<char>, operands: &Vec<Vec<char>>) -> (r: Result<Instruction, String>)
    requires
        opcode@.len() > 0,
    ensures
        same_parse(r, branch_result(opcode@, views(operands@))),
{
    if operands.len() == 1 {
        assert(operands[0]@ == views(operands@)[0]);
        let label = string_of(&operands[0]);
        let cc = crate::text::slice_of(opcode, 1, opcode.len());
        assert(cc@ == opcode@.drop_first());
        let cond = parse_cond(&cc)?;
        Ok(Instruction::BranchLabel { cond, label })
    } else {
        Err(message("Invalid operands for ", opcode))
    }
}

/// Parses the text of one instruction.
pub fn parse_instruction(line: &Vec<char>) -> (r: Result<Instruction, String>)
    ensures
        same_parse(r, instruction_result(line@)),
        instruction_result(line@) matches Ok(Parsed::Plain(i)) ==> !(i is BranchLabel) && i.wf(),
        instruction_result(line@) matches Ok(Parsed::Branch(c, _)) ==> c < 16,
{
    let toks = tokenize(line);
    if toks.len() == 0 {
        return Err(String::from_str("Invalid opcode "));
    }
    let ghost ts = views(toks@);
    let opcode = &toks[0];
    assert(opcode@ == ts[0]);
    let mut operands: Vec<Vec<char>> = Vec::new();
    let mut i: usize = 1;
    while i < toks.len()
        invariant
            1 <= i <= toks@.len(),
            ts == views(toks@),
            views(operands@) == ts.subrange(1, i as int),
        decreases toks@.len() - i,
    {
        let t = crate::text::slice_of(&toks[i], 0, toks[i].len());
        assert(t@ =~= ts[i as int]);
        proof {
            lemma_views_push(operands@, t);
            assert(ts.subrange(1, i + 1) =~= ts.subrange(1, i as int).push(t@));
        }
        operands.push(t);
        i += 1;
    }
    assert(ts.subrange(1, i as int) =~= ts.drop_first());
    assert(views(operands@) == tokens(line@).drop_first());
    assert(opcode@ == tokens(line@)[0]);
    if parse_cmd(opcode).is_some() {
        let r = parse_dp(opcode, &operands);
        assert(same_parse(r, plain(dp_result(opcode@, views(operands@)))));
        r
    } else if parse_bsl(opcode).is_some() {
        let r = parse_mem(opcode, &operands);
        assert(same_parse(r, plain(mem_result(opcode@, views(operands@)))));
        r
    } else if eq_lit(opcode, "push") || eq_lit(opcode, "pushb") {
        let r = parse_push(&operands, eq_lit(opcode, "pushb"));
        assert(same_parse(r, plain(push_result(views(operands@), opcode@ == "pushb"@))));
        r
    } else if eq_lit(opcode, "pop") || eq_lit(opcode, "popb") {
        let r = parse_pop(&operands, eq_lit(opcode, "popb"));
        assert(same_parse(r, plain(pop_result(views(operands@), opcode@ == "popb"@))));
        r
    } else if eq_lit(opcode, "inc") || eq_lit(opcode, "dec") || eq_lit(opcode, "not") || eq_lit(opcode, "cmp")
        || eq_lit(opcode, "tst") || eq_lit(opcode, "ret") || eq_lit(opcode, "nop") {
        let r = parse_alias(opcode, &operands);
        assert(same_parse(r, plain(alias_result(opcode@, views(operands@)))));
        r
    } else if opcode.len() > 0 && opcode[0] == 'j' {
        parse_branch(opcode, &operands)
    } else {
        Err(message("Invalid opcode ", opcode))
    }
}

/// The words an instruction takes in the layout; a label branch is counted wide.
pub open spec fn parsed_size(p: Parsed) -> int {
    match p {
        Parsed::Plain(i) => i.size(),
        Parsed::Branch(..) => 2,
    }
}

/// A line without its comment and the white space around it.
pub open spec fn line_text(raw: Seq<char>) -> Seq<char> {
    trim(strip_comment(raw))
}

/// Whether a line defines a label.
pub open spec fn has_label(raw: Seq<char>) -> bool {
    first_index(line_text(raw), ':') < line_text(raw).len()
}

/// The label a line defines, as written.
pub open spec fn label_text(raw: Seq<char>) -> Seq<char> {
    trim(line_text(raw).take(first_index(line_text(raw), ':')))
}

/// The label a line defines, in lower case: its key in the label map.
pub open spec fn label_of(raw: Seq<char>) -> Seq<char> {
    lower_of(label_text(raw))
}

/// The instruction text of a line, after any label.
pub open spec fn instr_text(raw: Seq<char>) -> Seq<char> {
    if has_label(raw) {
        trim(line_text(raw).skip(first_index(line_text(raw), ':') + 1))
    } else {
        line_text(raw)
    }
}

/// The state of the first pass after some lines: the words laid out, the instructions
/// with their line numbers and word offsets, the labels, and the first error.
pub ghost struct Layout {
    pub words: int,
    pub entries: Seq<(int, u16, Parsed)>,
    pub labels: Map<Seq<char>, u16>,
    pub error: Option<(int, Seq<char>)>,
}

/// The first pass over line number `n`: a label is recorded at the current offset, and
/// an instruction is placed there and moves the offset on by its size.
pub open spec fn layout_step(st: Layout, n: int, raw: Seq<char>) -> Layout {
    if has_label(raw) && st.labels.contains_key(label_of(raw)) {
        Layout { error: Some((n, "Duplicate label: "@ + label_text(raw))), ..st }
    } else {
        let st1 = if has_label(raw) {
            Layout { labels: st.labels.insert(label_of(raw), (st.words % 0x10000) as u16), ..st }
        } else {
            st
        };
        let text = instr_text(raw);
        if text.len() == 0 {
            st1
        } else {
            match instruction_result(text) {
                Err(e) => Layout { error: Some((n, e)), ..st1 },
                Ok(p) => Layout {
                    words: st1.words + parsed_size(p),
                    entries: st1.entries.push((n, (st1.words % 0x10000) as u16, p)),
                    ..st1
                },
            }
        }
    }
}

/// The first pass over the first `n` lines; it stops at the first error.
pub open spec fn layout(ls: Seq<Seq<char>>, n: nat) -> Layout
    decreases n,
{
    if n == 0 {
        Layout { words: 0, entries: Seq::empty(), labels: Map::empty(), error: None }
    } else {
        let st = layout(ls, (n - 1) as nat);
        if st.error is Some {
            st
        } else {
            layout_step(st, n as int, ls[n - 1])
        }
    }
}

/// The first branch among the first `n` entries whose label is not defined, as an error.
pub open spec fn missing_label(
    entries: Seq<(int, u16, Parsed)>,
    labels: Map<Seq<char>, u16>,
    n: nat,
) -> Option<(int, Seq<char>)>
    decreases n,
{
    if n == 0 {
        None
    } else {
        let prev = missing_label(entries, labels, (n - 1) as nat);
        if prev is Some {
            prev
        } else {
            match entries[n - 1].2 {
                Parsed::Branch(_, l) => if labels.contains_key(l) {
                    None
                } else {
                    Some((entries[n - 1].0, "Label "@ + l + " not found"@))
                },
                _ => None,
            }
        }
    }
}

/// The wide offset from a branch at word `pc` to word `target`: `target - (pc + 3)`,
/// taken as a 16-bit two's-complement number.
pub open spec fn branch_offset(target: u16, pc: u16) -> i16 {
    signed_of(((target - pc - 3) % 0x10000) as u16)
}

/// An entry with its label branch lowered to a wide branch to the label's offset.
pub open spec fn resolve(e: (int, u16, Parsed), labels: Map<Seq<char>, u16>) -> (u16, Instruction) {
    match e.2 {
        Parsed::Plain(i) => (e.1, i),
        Parsed::Branch(c, l) => (
            e.1,
            Instruction::BranchOffset { cond: c, offset: Offset::WideImm16(branch_offset(labels[l], e.1)) },
        ),
    }
}

/// What a source text assembles to: the program as (word offset, instruction) pairs and
/// the labels, or the line number and cause of the first error.
pub open spec fn assembly(input: Seq<char>) -> Result<(Seq<(u16, Instruction)>, Map<Seq<char>, u16>), (int, Seq<char>)> {
    let ls = lines(input);
    let st = layout(ls, ls.len());
    if st.error is Some {
        Err(st.error->Some_0)
    } else if missing_label(st.entries, st.labels, st.entries.len()) is Some {
        Err(missing_label(st.entries, st.labels, st.entries.len())->Some_0)
    } else {
        Ok((st.entries.map_values(|e: (int, u16, Parsed)| resolve(e, st.labels)), st.labels))
    }
}

/// The diagnostic for an error: the file, the line and the cause.
pub open spec fn error_text(filename: Seq<char>, line: int, cause: Seq<char>) -> Seq<char> {
    "Error in "@ + filename + " line "@ + decimal(line as nat) + "\n"@ + cause
}

/// Whether an instruction is what a parse result describes.
pub open spec fn matches_parsed(i: Instruction, p: Parsed) -> bool {
    match p {
        Parsed::Plain(x) => i == x && !(i is BranchLabel) && i.wf(),
        Parsed::Branch(c, l) => i is BranchLabel && i->BranchLabel_cond == c && i->BranchLabel_label@ == l
            && c < 16,
    }
}

/// Splits one line into the label it defines, if any, as written, and its instruction
/// text.
fn split_line(raw: &Vec<char>) -> (r: (Option<Vec<char>>, Vec<char>))
    ensures
        r.0 is Some == has_label(raw@),
        r.0 matches Some(l) ==> l@ == label_text(raw@),
        r.1@ == instr_text(raw@),
{
    let text = trimmed(&without_comment(raw));
    let k = find_char(&text, ':');
    if k < text.len() {
        let head = slice_of(&text, 0, k);
        assert(head@ =~= text@.take(k as int));
        let label = trimmed(&head);
        let tail = slice_of(&text, k + 1, text.len());
        assert(tail@ =~= text@.skip(k + 1));
        (Some(label), trimmed(&tail))
    } else {
        (None, text)
    }
}

/// The diagnostic for an error at a line.
fn error_at(filename: &str, line: usize, cause: &Vec<char>) -> (r: String)
    ensures
        r@ == error_text(filename@, line as int, cause@),
{
    let mut m = String::from_str("Error in ");
    m.append(filename);
    m.append(" line ");
    push_decimal(&mut m, line);
    m.append("\n");
    push_chars(&mut m, cause);
    m
}

/// The characters of a string.
fn chars_of_string(s: &String) -> (r: Vec<char>)
    ensures
        r@ == s@,
{
    chars_of(s.as_str())
}

/// Words that the instruction on a line takes: its size when it parses (a label branch
/// counted wide), else none.
pub open spec fn line_words(raw: Seq<char>) -> int {
    let text = instr_text(raw);
    if text.len() > 0 && instruction_result(text) is Ok {
        parsed_size(instruction_result(text)->Ok_0)
    } else {
        0
    }
}

/// Words that the instructions on the first `n` lines take.
pub open spec fn words_before(ls: Seq<Seq<char>>, n: nat) -> int
    decreases n,
{
    if n == 0 {
        0
    } else {
        words_before(ls, (n - 1) as nat) + line_words(ls[n - 1])
    }
}

proof fn lemma_layout_no_error_before(ls: Seq<Seq<char>>, n: nat, m: nat)
    requires
        n <= m,
        layout(ls, m).error is None,
    ensures
        layout(ls, n).error is None,
{
    if layout(ls, n).error is Some {
        lemma_layout_error_stays(ls, n, m);
    }
}

proof fn lemma_layout_words(ls: Seq<Seq<char>>, n: nat)
    requires
        n <= ls.len(),
        layout(ls, n).error is None,
    ensures
        layout(ls, n).words == words_before(ls, n),
        forall|k: int|
            0 <= k < layout(ls, n).entries.len() ==> {
                let e = #[trigger] layout(ls, n).entries[k];
                &&& 1 <= e.0 <= n
                &&& e.1 == words_before(ls, (e.0 - 1) as nat) % 0x10000
            },
    decreases n,
{
    if n > 0 {
        lemma_layout_no_error_before(ls, (n - 1) as nat, n);
        lemma_layout_words(ls, (n - 1) as nat);
        let st = layout(ls, (n - 1) as nat);
        let st2 = layout(ls, n);
        assert forall|k: int| 0 <= k < st2.entries.len() implies {
            let e = #[trigger] st2.entries[k];
            &&& 1 <= e.0 <= n
            &&& e.1 == words_before(ls, (e.0 - 1) as nat) % 0x10000
        } by {
            if k < st.entries.len() {
                assert(st2.entries[k] == st.entries[k]);
            }
        }
    }
}

proof fn lemma_layout_label(ls: Seq<Seq<char>>, n: nat, l: int)
    requires
        n <= ls.len(),
        0 <= l < n,
        has_label(ls[l]),
        layout(ls, n).error is None,
    ensures
        layout(ls, n).labels.contains_key(label_of(ls[l])),
        layout(ls, n).labels[label_of(ls[l])] == words_before(ls, l as nat) % 0x10000,
    decreases n,
{
    lemma_layout_no_error_before(ls, (n - 1) as nat, n);
    if l == n - 1 {
        lemma_layout_words(ls, (n - 1) as nat);
    } else {
        lemma_layout_label(ls, (n - 1) as nat, l);
    }
}

/// Every label stands at the word offset of the first instruction after it: the words
/// that the instructions on the lines before it take, each label branch counted wide,
/// modulo 2^16.
pub proof fn lemma_label_offset(input: Seq<char>, l: int)
    requires
        assembly(input) is Ok,
        0 <= l < lines(input).len(),
        has_label(lines(input)[l]),
    ensures
        assembly(input)->Ok_0.1.contains_key(label_of(lines(input)[l])),
        assembly(input)->Ok_0.1[label_of(lines(input)[l])] == words_before(lines(input), l as nat)
            % 0x10000,
{
    let ls = lines(input);
    lemma_layout_label(ls, ls.len(), l);
}

/// Each instruction stands at the words that the instructions on the lines before its
/// own take, modulo 2^16; a label branch at word `p` to a label at word `q` becomes a
/// wide branch with offset `q - (p + 3)`.
pub proof fn lemma_branch_lowering(input: Seq<char>, k: int)
    requires
        assembly(input) is Ok,
        0 <= k < layout(lines(input), lines(input).len()).entries.len(),
    ensures
        ({
            let ls = lines(input);
            let e = layout(ls, ls.len()).entries[k];
            let (program, labels) = assembly(input)->Ok_0;
            &&& 0 <= e.0 - 1 < ls.len()
            &&& program[k].0 == words_before(ls, (e.0 - 1) as nat) % 0x10000
            &&& e.2 matches Parsed::Branch(cond, name) ==> labels.contains_key(name) && program[k].1
                == (Instruction::BranchOffset {
                cond,
                offset: Offset::WideImm16(branch_offset(labels[name], program[k].0)),
            })
        }),
{
    let ls = lines(input);
    let st = layout(ls, ls.len());
    lemma_layout_words(ls, ls.len());
    if st.entries[k].2 is Branch {
        lemma_no_missing_label(st.entries, st.labels, st.entries.len(), k);
    }
}

/// Whether the executable first-pass entries are the given ones.
pub open spec fn pending_matches(pending: Seq<(usize, u16, Instruction)>, entries: Seq<(int, u16, Parsed)>) -> bool {
    &&& pending.len() == entries.len()
    &&& forall|k: int|
        0 <= k < pending.len() ==> {
            let e = #[trigger] entries[k];
            &&& pending[k].0 == e.0
            &&& pending[k].1 == e.1
            &&& matches_parsed(pending[k].2, e.2)
        }
}

proof fn lemma_missing_label_stays(
    entries: Seq<(int, u16, Parsed)>,
    labels: Map<Seq<char>, u16>,
    n: nat,
    m: nat,
)
    requires
        n <= m,
        missing_label(entries, labels, n) is Some,
    ensures
        missing_label(entries, labels, m) == missing_label(entries, labels, n),
    decreases m - n,
{
    if n < m {
        lemma_missing_label_stays(entries, labels, n, (m - 1) as nat);
    }
}

proof fn lemma_no_missing_label(
    entries: Seq<(int, u16, Parsed)>,
    labels: Map<Seq<char>, u16>,
    n: nat,
    j: int,
)
    requires
        0 <= j < n,
        missing_label(entries, labels, n) is None,
        entries[j].2 is Branch,
    ensures
        labels.contains_key(entries[j].2->Branch_1),
    decreases n,
{
    if j < n - 1 {
        lemma_no_missing_label(entries, labels, (n - 1) as nat, j);
    }
}

/// Lays out one line of the first pass: records its label at the current offset and
/// places its instruction there. Returns the cause of an error, if any.
fn place_line(
    raw: &Vec<char>,
    n: usize,
    labels: &mut LabelMap,
    pending: &mut Vec<(usize, u16, Instruction)>,
    pc: &mut u16,
    st: Ghost<Layout>,
) -> (r: Option<Vec<char>>)
    requires
        old(labels).wf(),
        old(labels)@ == st@.labels,
        *old(pc) == st@.words % 0x10000,
        pending_matches(old(pending)@, st@.entries),
        st@.error is None,
    ensures
        ({
            let st2 = layout_step(st@, n as int, raw@);
            &&& r is Some <==> st2.error is Some
            &&& r matches Some(c) ==> st2.error == Some((n as int, c@))
            &&& r is None ==> {
                &&& final(labels).wf()
                &&& final(labels)@ == st2.labels
                &&& *final(pc) == st2.words % 0x10000
                &&& pending_matches(final(pending)@, st2.entries)
            }
        }),
{
    let (label, rest) = split_line(raw);
    match label {
        Some(written) => {
            let key = lowered(&written);
            if labels.contains(&key) {
                let mut m = String::from_str("Duplicate label: ");
                push_chars(&mut m, &written);
                return Some(chars_of_string(&m));
            }
            labels.insert(string_of(&key), *pc);
        },
        None => {},
    }
    if rest.len() > 0 {
        match parse_instruction(&rest) {
            Err(e) => {
                return Some(chars_of_string(&e));
            },
            Ok(ins) => {
                let size: u32 = if ins.is_wide() {
                    2
                } else {
                    1
                };
                let ghost before = pending@;
                pending.push((n, *pc, ins));
                *pc = ((*pc as u32 + size) % 0x10000) as u16;
                proof {
                    let st2 = layout_step(st@, n as int, raw@);
                    assert(st2.entries.drop_last() =~= st@.entries);
                    assert(pending@.drop_last() =~= before);
                    assert forall|k: int| 0 <= k < pending@.len() implies {
                        let e = #[trigger] st2.entries[k];
                        &&& pending@[k].0 == e.0
                        &&& pending@[k].1 == e.1
                        &&& matches_parsed(pending@[k].2, e.2)
                    } by {
                        if k < before.len() {
                            assert(st2.entries[k] == st@.entries[k]);
                            assert(pending@[k] == before[k]);
                        }
                    }
                }
            },
        }
    }
    None
}

proof fn lemma_layout_error_stays(ls: Seq<Seq<char>>, n: nat, m: nat)
    requires
        n <= m,
        layout(ls, n).error is Some,
    ensures
        layout(ls, m) == layout(ls, n),
    decreases m - n,
{
    if n < m {
        lemma_layout_error_stays(ls, n, (m - 1) as nat);
    }
}

/// The assembler's state: the program laid out so far and its labels.
pub struct Parser {
    pub program: Vec<(u16, Instruction)>,
    pub label_map: LabelMap,
}

impl Parser {
    /// A parser with no program and no labels.
    pub fn new() -> (r: Self)
        ensures
            r.program@.len() == 0,
            r.label_map@ == Map::<Seq<char>, u16>::empty(),
            r.label_map.wf(),
    {
        Parser { label_map: LabelMap::new(), program: Vec::new() }
    }

    /// Assembles a source text. On success the program holds every instruction with its
    /// word offset, label branches lowered to wide branches, and the label map holds
    /// every label; on error both are empty and the message names the file and line.
    #[verifier::rlimit(40)]
    pub fn parse_program(&mut self, input: &str, filename: &str) -> (r: Result<(), String>)
        ensures
            final(self).label_map.wf(),
            match assembly(input@) {
                Ok((prog, labels)) => r is Ok && final(self).program@ == prog && final(self).label_map@
                    == labels && forall|k: int|
                    0 <= k < prog.len() ==> (#[trigger] prog[k]).1.wf() && !(prog[k].1 is BranchLabel),
                Err((line, cause)) => r is Err && r->Err_0@ == error_text(filename@, line, cause)
                    && final(self).program@.len() == 0 && final(self).label_map@ == Map::<
                    Seq<char>,
                    u16,
                >::empty(),
            },
    {
        self.program = Vec::new();
        self.label_map = LabelMap::new();
        let chars = chars_of(input);
        let ls = split_lines(&chars);
        let ghost gls = lines(input@);
        let mut labels = LabelMap::new();
        let mut pending: Vec<(usize, u16, Instruction)> = Vec::new();
        let mut pc: u16 = 0;
        let mut i: usize = 0;
        // first pass: lay out every line, every label branch counted wide
        while i < ls.len()
            invariant
                views(ls@) == gls,
                gls == lines(input@),
                i <= ls@.len(),
                layout(gls, i as nat).error is None,
                labels.wf(),
                labels@ == layout(gls, i as nat).labels,
                pc == layout(gls, i as nat).words % 0x10000,
                pending_matches(pending@, layout(gls, i as nat).entries),
                self.program@.len() == 0,
                self.label_map@ == Map::<Seq<char>, u16>::empty(),
                self.label_map.wf(),
            decreases ls@.len() - i,
        {
            let ghost st = layout(gls, i as nat);
            assert(ls@[i as int]@ == gls[i as int]);
            let failed = place_line(&ls[i], i + 1, &mut labels, &mut pending, &mut pc, Ghost(st));
            if let Some(cause) = failed {
                proof {
                    assert(layout(gls, (i + 1) as nat).error == Some(((i + 1) as int, cause@)));
                    lemma_layout_error_stays(gls, (i + 1) as nat, gls.len());
                }
                return Err(error_at(filename, i + 1, &cause));
            }
            i += 1;
        }
        let ghost st = layout(gls, gls.len());
        // second pass: every label branch must name a label
        let mut k: usize = 0;
        while k < pending.len()
            invariant
                st == layout(gls, gls.len()),
                gls == lines(input@),
                st.error is None,
                labels.wf(),
                labels@ == st.labels,
                k <= pending@.len(),
                pending_matches(pending@, st.entries),
                missing_label(st.entries, st.labels, k as nat) is None,
                self.program@.len() == 0,
                self.label_map@ == Map::<Seq<char>, u16>::empty(),
                self.label_map.wf(),
            decreases pending@.len() - k,
        {
            assert(matches_parsed(pending@[k as int].2, st.entries[k as int].2));
            match &pending[k].2 {
                Instruction::BranchLabel { label, .. } => {
                    let lv = chars_of_string(label);
                    if !labels.contains(&lv) {
                        let mut m = String::from_str("Label ");
                        push_chars(&mut m, &lv);
                        m.append(" not found");
                        let mv = chars_of_string(&m);
                        proof {
                            lemma_missing_label_stays(st.entries, st.labels, (k + 1) as nat, st.entries.len());
                        }
                        return Err(error_at(filename, pending[k].0, &mv));
                    }
                },
                _ => {},
            }
            k += 1;
        }
        // third pass: lower label branches to wide offsets
        let ghost resolved = st.entries.map_values(|e: (int, u16, Parsed)| resolve(e, st.labels));
        let mut program: Vec<(u16, Instruction)> = Vec::new();
        let mut k: usize = 0;
        while k < pending.len()
            invariant
                labels.wf(),
                labels@ == st.labels,
                k <= pending@.len(),
                pending@.len() == st.entries.len(),
                resolved == st.entries.map_values(|e: (int, u16, Parsed)| resolve(e, st.labels)),
                forall|j: int|
                    0 <= j < pending@.len() ==> {
                        let e = #[trigger] st.entries[j];
                        &&& pending@[j].0 == e.0
                        &&& pending@[j].1 == e.1
                        &&& matches_parsed(pending@[j].2, e.2)
                    },
                missing_label(st.entries, st.labels, st.entries.len()) is None,
                program@ == resolved.take(k as int),
                forall|j: int| 0 <= j < k ==> (#[trigger] program@[j]).1.wf() && !(program@[j].1 is BranchLabel),
            decreases pending@.len() - k,
        {
            assert(matches_parsed(pending@[k as int].2, st.entries[k as int].2));
            let at = pending[k].1;
            let entry = match &pending[k].2 {
                Instruction::BranchLabel { cond, label } => {
                    let lv = chars_of_string(label);
                    let target = match labels.lookup(&lv) {
                        Some(q) => q,
                        None => 0,
                    };
                    proof {
                        lemma_no_missing_label(st.entries, st.labels, st.entries.len(), k as int);
                        lemma_mod_multiples_vanish(2, target - at - 3, 0x10000);
                    }
                    let off = to_signed(((target as u32 + 0x20000 - at as u32 - 3) % 0x10000) as u16);
                    (at, Instruction::BranchOffset { cond: *cond, offset: Offset::WideImm16(off) })
                },
                other => (at, other.duplicate()),
            };
            assert(entry == resolve(st.entries[k as int], st.labels));
            program.push(entry);
            k += 1;
            assert(program@ =~= resolved.take(k as int));
        }
        assert(resolved.take(k as int) =~= resolved);
        self.program = program;
        self.label_map = labels;
        Ok(())
    }

    /// The instructions of the program, in order.
    pub fn get_program(&self) -> (r: Vec<Instruction>)
        ensures
            r@.len() == self.program@.len(),
            forall|i: int| 0 <= i < r@.len() ==> r@[i] == self.program@[i].1,
    {
        let mut out: Vec<Instruction> = Vec::new();
        let mut i: usize = 0;
        while i < self.program.len()
            invariant
                i <= self.program@.len(),
                out@.len() == i,
                forall|j: int| 0 <= j < i ==> out@[j] == self.program@[j].1,
            decreases self.program@.len() - i,
        {
            out.push(self.program[i].1.duplicate());
            i += 1;
        }
        out
    }
}

} // verus!
