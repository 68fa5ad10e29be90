//! One line of text for one instruction word.
//!
//! A line is the mnemonic followed, where the instruction has operands, by a
//! space and the operands.  A word that the interpreter would refuse as
//! invalid has no line.

use crate::instructions::{
    abi_name_of, law_field_bits, numeric_name_of, opcode_of, signed, BType, IType, JType, RType,
    Reg, SType, UType,
};
use crate::semantics::{
    execute, law_shift_right_signed, lemma_shift_amount, shift_amount, shift_kind, wrap,
    EmulatorExit, MachineView,
};
use crate::text::{decimal, format_decimal, format_hex, format_signed, prefixed_hex, signed_decimal};
use vstd::prelude::*;
use vstd::string::StringExecFns;

verus! {

/// The mnemonic of a conditional branch.
pub open spec fn branch_mnemonic(funct3: u8) -> Option<Seq<char>> {
    if funct3 == 0 {
        Some("beq"@)
    } else if funct3 == 1 {
        Some("bne"@)
    } else if funct3 == 4 {
        Some("blt"@)
    } else if funct3 == 5 {
        Some("bge"@)
    } else if funct3 == 6 {
        Some("bltu"@)
    } else if funct3 == 7 {
        Some("bgeu"@)
    } else {
        None
    }
}

/// The mnemonic of a load.
pub open spec fn load_mnemonic(funct3: u8) -> Option<Seq<char>> {
    if funct3 == 0 {
        Some("lb"@)
    } else if funct3 == 1 {
        Some("lh"@)
    } else if funct3 == 2 {
        Some("lw"@)
    } else if funct3 == 4 {
        Some("lbu"@)
    } else if funct3 == 5 {
        Some("lhu"@)
    } else {
        None
    }
}

/// The mnemonic of a store.
pub open spec fn store_mnemonic(funct3: u8) -> Option<Seq<char>> {
    if funct3 == 0 {
        Some("sb"@)
    } else if funct3 == 1 {
        Some("sh"@)
    } else if funct3 == 2 {
        Some("sw"@)
    } else {
        None
    }
}

/// The mnemonic of an operation on a register and an immediate, where `kind`
/// is bits 11..5 of the immediate.
pub open spec fn op_imm_mnemonic(funct3: u8, kind: u32) -> Option<Seq<char>> {
    if funct3 == 0 {
        Some("addi"@)
    } else if funct3 == 2 {
        Some("slti"@)
    } else if funct3 == 3 {
        Some("sltiu"@)
    } else if funct3 == 4 {
        Some("xori"@)
    } else if funct3 == 6 {
        Some("ori"@)
    } else if funct3 == 7 {
        Some("andi"@)
    } else if funct3 == 1 && kind == 0 {
        Some("slli"@)
    } else if funct3 == 5 && kind == 0 {
        Some("srli"@)
    } else if funct3 == 5 && kind == 0x20 {
        Some("srai"@)
    } else {
        None
    }
}

/// The mnemonic of an operation on two registers.
pub open spec fn op_mnemonic(funct3: u8, funct7: u8) -> Option<Seq<char>> {
    if funct7 == 0 {
        if funct3 == 0 {
            Some("add"@)
        } else if funct3 == 1 {
            Some("sll"@)
        } else if funct3 == 2 {
            Some("slt"@)
        } else if funct3 == 3 {
            Some("sltu"@)
        } else if funct3 == 4 {
            Some("xor"@)
        } else if funct3 == 5 {
            Some("srl"@)
        } else if funct3 == 6 {
            Some("or"@)
        } else if funct3 == 7 {
            Some("and"@)
        } else {
            None
        }
    } else if funct7 == 0x20 && funct3 == 0 {
        Some("sub"@)
    } else if funct7 == 0x20 && funct3 == 5 {
        Some("sra"@)
    } else {
        None
    }
}

/// The mnemonic of `word`; `None` where `word` is no RV32I instruction.
pub open spec fn mnemonic(word: u32) -> Option<Seq<char>> {
    let op = opcode_of(word);
    let i = IType::decode(word);
    if op == 0x37 {
        Some("lui"@)
    } else if op == 0x17 {
        Some("auipc"@)
    } else if op == 0x6f {
        Some("jal"@)
    } else if op == 0x67 {
        if i.funct3 == 0 {
            Some("jalr"@)
        } else {
            None
        }
    } else if op == 0x63 {
        branch_mnemonic(BType::decode(word).funct3)
    } else if op == 0x03 {
        load_mnemonic(i.funct3)
    } else if op == 0x23 {
        store_mnemonic(SType::decode(word).funct3)
    } else if op == 0x13 {
        op_imm_mnemonic(i.funct3, shift_kind(i.imm))
    } else if op == 0x33 {
        op_mnemonic(RType::decode(word).funct3, RType::decode(word).funct7)
    } else if op == 0x0f {
        if i.funct3 == 0 {
            Some("fence"@)
        } else {
            None
        }
    } else if op == 0x73 {
        if i.rs1.0 != 0 || i.rd.0 != 0 || i.funct3 != 0 {
            None
        } else if i.imm == 0 {
            Some("ecall"@)
        } else if i.imm == 1 {
            Some("ebreak"@)
        } else {
            None
        }
    } else {
        None
    }
}

/// The name of register `r`: its ABI name or its numeric name.
pub open spec fn reg_text(r: Reg, abi: bool) -> Seq<char> {
    if abi {
        abi_name_of(r.0)
    } else {
        numeric_name_of(r.0)
    }
}

/// The immediate of an operation on a register and an immediate: signed for
/// `addi` and `slti`, unsigned for `sltiu`, hexadecimal for the bitwise
/// operations, and the shift amount for the shifts.
pub open spec fn op_imm_text(funct3: u8, imm: u32) -> Seq<char> {
    if funct3 == 0 || funct3 == 2 {
        signed_decimal(signed(imm))
    } else if funct3 == 3 {
        decimal(imm as nat)
    } else if funct3 == 1 || funct3 == 5 {
        decimal(shift_amount(imm) as nat)
    } else {
        prefixed_hex(imm as nat)
    }
}

/// The operands of the instruction `word` at address `addr`, with a leading
/// space; empty for the instructions without operands.  Jump and branch
/// targets are shown relative (`rel=`) and absolute (`abs=`); the relative
/// target of `bltu`, like the offsets of loads, stores and `jalr`, is signed,
/// that of `jal` and of the other branches is the unsigned 32-bit offset.
pub open spec fn operands(addr: u32, word: u32, abi: bool) -> Seq<char> {
    let op = opcode_of(word);
    if op == 0x37 || op == 0x17 {
        let t = UType::decode(word);
        " "@ + reg_text(t.rd, abi) + ", imm="@ + prefixed_hex(t.imm as nat)
    } else if op == 0x6f {
        let t = JType::decode(word);
        " "@ + reg_text(t.rd, abi) + ", rel="@ + decimal(t.imm as nat) + ", abs="@ + prefixed_hex(
            wrap(addr + t.imm) as nat,
        )
    } else if op == 0x67 || op == 0x03 {
        let t = IType::decode(word);
        " "@ + reg_text(t.rd, abi) + ", "@ + reg_text(t.rs1, abi) + ", rel="@ + signed_decimal(
            signed(t.imm),
        )
    } else if op == 0x63 {
        let t = BType::decode(word);
        " "@ + reg_text(t.rs1, abi) + ", "@ + reg_text(t.rs2, abi) + ", rel="@ + (if t.funct3 == 6 {
            signed_decimal(signed(t.imm))
        } else {
            decimal(t.imm as nat)
        }) + ", abs="@ + prefixed_hex(wrap(addr + t.imm) as nat)
    } else if op == 0x23 {
        let t = SType::decode(word);
        " "@ + reg_text(t.rs2, abi) + ", "@ + reg_text(t.rs1, abi) + ", rel="@ + signed_decimal(
            signed(t.imm),
        )
    } else if op == 0x13 {
        let t = IType::decode(word);
        " "@ + reg_text(t.rd, abi) + ", "@ + reg_text(t.rs1, abi) + ", "@ + op_imm_text(
            t.funct3,
            t.imm,
        )
    } else if op == 0x33 {
        let t = RType::decode(word);
        " "@ + reg_text(t.rd, abi) + ", "@ + reg_text(t.rs1, abi) + ", "@ + reg_text(t.rs2, abi)
    } else {
        Seq::<char>::empty()
    }
}

/// The line for the instruction `word` at address `addr`.
pub open spec fn disassembly(addr: u32, word: u32, abi: bool) -> Option<Seq<char>> {
    match mnemonic(word) {
        None => None,
        Some(name) => Some(name + operands(addr, word, abi)),
    }
}

/// A word has a line exactly when the interpreter does not refuse it as an
/// invalid instruction.
pub proof fn law_lines_for_valid_words(s: MachineView, addr: u32, word: u32, abi: bool)
    ensures
        disassembly(addr, word, abi) is None <==> execute(s, word).1 == Some(
            EmulatorExit::InvalidInstruction(word),
        ),
{
}

/// The mnemonic of a conditional branch.
fn branch_name(funct3: u8) -> (name: Option<&'static str>)
    ensures
        name matches Some(n) ==> branch_mnemonic(funct3) == Some(n@),
        name is None ==> branch_mnemonic(funct3) is None,
{
    if funct3 == 0 {
        Some("beq")
    } else if funct3 == 1 {
        Some("bne")
    } else if funct3 == 4 {
        Some("blt")
    } else if funct3 == 5 {
        Some("bge")
    } else if funct3 == 6 {
        Some("bltu")
    } else if funct3 == 7 {
        Some("bgeu")
    } else {
        None
    }
}

/// The mnemonic of a load.
fn load_name(funct3: u8) -> (name: Option<&'static str>)
    ensures
        name matches Some(n) ==> load_mnemonic(funct3) == Some(n@),
        name is None ==> load_mnemonic(funct3) is None,
{
    if funct3 == 0 {
        Some("lb")
    } else if funct3 == 1 {
        Some("lh")
    } else if funct3 == 2 {
        Some("lw")
    } else if funct3 == 4 {
        Some("lbu")
    } else if funct3 == 5 {
        Some("lhu")
    } else {
        None
    }
}

/// The mnemonic of a store.
fn store_name(funct3: u8) -> (name: Option<&'static str>)
    ensures
        name matches Some(n) ==> store_mnemonic(funct3) == Some(n@),
        name is None ==> store_mnemonic(funct3) is None,
{
    if funct3 == 0 {
        Some("sb")
    } else if funct3 == 1 {
        Some("sh")
    } else if funct3 == 2 {
        Some("sw")
    } else {
        None
    }
}

/// The mnemonic of an operation on a register and an immediate.
fn op_imm_name(funct3: u8, kind: u32) -> (name: Option<&'static str>)
    ensures
        name matches Some(n) ==> op_imm_mnemonic(funct3, kind) == Some(n@),
        name is None ==> op_imm_mnemonic(funct3, kind) is None,
{
    if funct3 == 0 {
        Some("addi")
    } else if funct3 == 2 {
        Some("slti")
    } else if funct3 == 3 {
        Some("sltiu")
    } else if funct3 == 4 {
        Some("xori")
    } else if funct3 == 6 {
        Some("ori")
    } else if funct3 == 7 {
        Some("andi")
    } else if funct3 == 1 && kind == 0 {
        Some("slli")
    } else if funct3 == 5 && kind == 0 {
        Some("srli")
    } else if funct3 == 5 && kind == 0x20 {
        Some("srai")
    } else {
        None
    }
}

/// The mnemonic of an operation on two registers.
fn op_name(funct3: u8, funct7: u8) -> (name: Option<&'static str>)
    ensures
        name matches Some(n) ==> op_mnemonic(funct3, funct7) == Some(n@),
        name is None ==> op_mnemonic(funct3, funct7) is None,
{
    if funct7 == 0 {
        if funct3 == 0 {
            Some("add")
        } else if funct3 == 1 {
            Some("sll")
        } else if funct3 == 2 {
            Some("slt")
        } else if funct3 == 3 {
            Some("sltu")
        } else if funct3 == 4 {
            Some("xor")
        } else if funct3 == 5 {
            Some("srl")
        } else if funct3 == 6 {
            Some("or")
        } else if funct3 == 7 {
            Some("and")
        } else {
            None
        }
    } else if funct7 == 0x20 && funct3 == 0 {
        Some("sub")
    } else if funct7 == 0x20 && funct3 == 5 {
        Some("sra")
    } else {
        None
    }
}

/// The mnemonic of `instr`.
fn mnemonic_of(instr: u32) -> (name: Option<&'static str>)
    ensures
        name matches Some(n) ==> mnemonic(instr) == Some(n@),
        name is None ==> mnemonic(instr) is None,
{
    let opcode = instr & 0x7f;
    let i = IType::parse(instr);
    proof {
        law_field_bits(instr);
        lemma_shift_amount(i.imm);
    }
    if opcode == 0x37 {
        Some("lui")
    } else if opcode == 0x17 {
        Some("auipc")
    } else if opcode == 0x6f {
        Some("jal")
    } else if opcode == 0x67 {
        if i.funct3 == 0 {
            Some("jalr")
        } else {
            None
        }
    } else if opcode == 0x63 {
        branch_name(BType::parse(instr).funct3)
    } else if opcode == 0x03 {
        load_name(i.funct3)
    } else if opcode == 0x23 {
        store_name(SType::parse(instr).funct3)
    } else if opcode == 0x13 {
        op_imm_name(i.funct3, (i.imm & 0xfff) >> 5)
    } else if opcode == 0x33 {
        let r = RType::parse(instr);
        op_name(r.funct3, r.funct7)
    } else if opcode == 0x0f {
        if i.funct3 == 0 {
            Some("fence")
        } else {
            None
        }
    } else if opcode == 0x73 {
        if i.rs1.0 != 0 || i.rd.0 != 0 || i.funct3 != 0 {
            None
        } else if i.imm == 0 {
            Some("ecall")
        } else if i.imm == 1 {
            Some("ebreak")
        } else {
            None
        }
    } else {
        None
    }
}

/// The name of `r`.
fn reg_name(r: Reg, abi: bool) -> (name: &'static str)
    requires
        r.valid(),
    ensures
        name@ == reg_text(r, abi),
{
    if abi {
        r.abi_name()
    } else {
        r.name()
    }
}

/// `imm` as a signed decimal number.
fn signed_text(imm: u32) -> (text: String)
    ensures
        text@ == signed_decimal(signed(imm)),
{
    proof {
        law_shift_right_signed(imm, 0);
    }
    format_signed(imm as i32)
}

/// The text of the immediate of an operation on a register and an immediate.
fn op_imm_operand(funct3: u8, imm: u32) -> (text: String)
    ensures
        text@ == op_imm_text(funct3, imm),
{
    if funct3 == 0 || funct3 == 2 {
        signed_text(imm)
    } else if funct3 == 3 {
        format_decimal(imm)
    } else if funct3 == 1 || funct3 == 5 {
        proof {
            lemma_shift_amount(imm);
        }
        format_decimal(imm & 0x1f)
    } else {
        format_hex(imm)
    }
}

/// The operands of `instr`.
fn operands_of(addr: u32, instr: u32, abi: bool) -> (text: String)
    ensures
        text@ == operands(addr, instr, abi),
{
    let opcode = instr & 0x7f;
    proof {
        law_field_bits(instr);
    }
    if opcode == 0x37 || opcode == 0x17 {
        let t = UType::parse(instr);
        let mut text = String::from_str(" ");
        text.append(reg_name(t.rd, abi));
        text.append(", imm=");
        text.append(format_hex(t.imm).as_str());
        text
    } else if opcode == 0x6f {
        let t = JType::parse(instr);
        let mut text = String::from_str(" ");
        text.append(reg_name(t.rd, abi));
        text.append(", rel=");
        text.append(format_decimal(t.imm).as_str());
        text.append(", abs=");
        text.append(format_hex(addr.wrapping_add(t.imm)).as_str());
        text
    } else if opcode == 0x67 || opcode == 0x03 {
        let t = IType::parse(instr);
        let mut text = String::from_str(" ");
        text.append(reg_name(t.rd, abi));
        text.append(", ");
        text.append(reg_name(t.rs1, abi));
        text.append(", rel=");
        text.append(signed_text(t.imm).as_str());
        text
    } else if opcode == 0x63 {
        let t = BType::parse(instr);
        let mut text = String::from_str(" ");
        text.append(reg_name(t.rs1, abi));
        text.append(", ");
        text.append(reg_name(t.rs2, abi));
        text.append(", rel=");
        if t.funct3 == 6 {
            text.append(signed_text(t.imm).as_str());
        } else {
            text.append(format_decimal(t.imm).as_str());
        }
        text.append(", abs=");
        text.append(format_hex(addr.wrapping_add(t.imm)).as_str());
        text
    } else if opcode == 0x23 {
        let t = SType::parse(instr);
        let mut text = String::from_str(" ");
        text.append(reg_name(t.rs2, abi));
        text.append(", ");
        text.append(reg_name(t.rs1, abi));
        text.append(", rel=");
        text.append(signed_text(t.imm).as_str());
        text
    } else if opcode == 0x13 {
        let t = IType::parse(instr);
        let mut text = String::from_str(" ");
        text.append(reg_name(t.rd, abi));
        text.append(", ");
        text.append(reg_name(t.rs1, abi));
        text.append(", ");
        text.append(op_imm_operand(t.funct3, t.imm).as_str());
        text
    } else if opcode == 0x33 {
        let t = RType::parse(instr);
        let mut text = String::from_str(" ");
        text.append(reg_name(t.rd, abi));
        text.append(", ");
        text.append(reg_name(t.rs1, abi));
        text.append(", ");
        text.append(reg_name(t.rs2, abi));
        text
    } else {
        String::new()
    }
}

/// The line for the instruction `instr` at address `addr`, with ABI register
/// names if `abi_name` is set and numeric ones otherwise; `None` where
/// `instr` is no RV32I instruction.
pub fn disassemble_one(addr: u32, instr: u32, abi_name: bool) -> (line: Option<String>)
    ensures
        line matches Some(text) ==> disassembly(addr, instr, abi_name) == Some(text@),
        line is None ==> disassembly(addr, instr, abi_name) is None,
{
    match mnemonic_of(instr) {
        None => None,
        Some(name) => {
            let mut text = String::from_str(name);
            text.append(operands_of(addr, instr, abi_name).as_str());
            Some(text)
        },
    }
}

/// The instruction word that starts at byte `4 * i` of `bytes`.
pub open spec fn word_at(bytes: Seq<u8>, i: int) -> u32 {
    (bytes[4 * i] + 256 * bytes[4 * i + 1] + 65536 * bytes[4 * i + 2] + 16777216 * bytes[4 * i
        + 3]) as u32
}

/// `line` is the line for word `i` of `bytes`, where word 0 lies at address
/// `addr`, with numeric register names.
#[verifier::opaque]
spec fn describes(line: Option<String>, addr: u32, bytes: Seq<u8>, i: int) -> bool {
    match line {
        Some(text) => disassembly(wrap(addr + 4 * i), word_at(bytes, i), false) == Some(text@),
        None => disassembly(wrap(addr + 4 * i), word_at(bytes, i), false) is None,
    }
}

/// The lines for the instruction words in `instrs`, the first of which lies
/// at address `addr`, with numeric register names.  Trailing bytes that do
/// not make up a word are left out.
pub fn disassemble(addr: u32, instrs: &[u8]) -> (lines: Vec<Option<String>>)
    ensures
        lines@.len() == instrs@.len() / 4,
        forall|i: int|
            0 <= i < lines@.len() ==> match #[trigger] lines@[i] {
                Some(text) => disassembly(wrap(addr + 4 * i), word_at(instrs@, i), false) == Some(
                    text@,
                ),
                None => disassembly(wrap(addr + 4 * i), word_at(instrs@, i), false) is None,
            },
{
    let count = instrs.len() / 4;
    let mut lines: Vec<Option<String>> = Vec::new();
    let mut i: usize = 0;
    while i < count
        invariant
            count == instrs@.len() / 4,
            i <= count,
            lines@.len() == i,
            forall|k: int| 0 <= k < i ==> describes(#[trigger] lines@[k], addr, instrs@, k),
        decreases count - i,
    {
        let line = line_of_word(addr, instrs, i);
        lines.push(line);
        i = i + 1;
    }
    proof {
        assert forall|k: int| 0 <= k < lines@.len() implies match #[trigger] lines@[k] {
            Some(text) => disassembly(wrap(addr + 4 * k), word_at(instrs@, k), false) == Some(
                text@,
            ),
            None => disassembly(wrap(addr + 4 * k), word_at(instrs@, k), false) is None,
        } by {
            assert(describes(lines@[k], addr, instrs@, k));
            reveal(describes);
        }
    }
    lines
}

/// The line for word `i` of `instrs`.
fn line_of_word(addr: u32, instrs: &[u8], i: usize) -> (line: Option<String>)
    requires
        i < instrs@.len() / 4,
    ensures
        describes(line, addr, instrs@, i as int),
{
    let word = read_word(instrs, i);
    let at = address_of_word(addr, i);
    let line = disassemble_one(at, word, false);
    proof {
        reveal(describes);
    }
    line
}

/// The address of word `i`, modulo `2^32`.
fn address_of_word(addr: u32, i: usize) -> (at: u32)
    ensures
        at == wrap(addr + 4 * i),
{
    let low = (i % 0x4000_0000) as u32;
    proof {
        lemma_address_of_word(addr, i as int, low as int);
    }
    addr.wrapping_add(low * 4)
}

/// Multiples of `2^32` do not count in an address.
proof fn lemma_address_of_word(addr: u32, i: int, low: int)
    requires
        0 <= i,
        low == i % 0x4000_0000,
    ensures
        wrap(addr + 4 * i) == wrap(addr + 4 * low),
{
    let high = i / 0x4000_0000;
    assert(i == high * 0x4000_0000 + low);
    assert(addr + 4 * i == (addr + 4 * low) + high * 0x1_0000_0000);
    assert(((addr + 4 * low) + high * 0x1_0000_0000) % 0x1_0000_0000 == (addr + 4 * low)
        % 0x1_0000_0000) by (nonlinear_arith);
}

/// The word that starts at byte `4 * i` of `instrs`.
fn read_word(instrs: &[u8], i: usize) -> (word: u32)
    requires
        i < instrs@.len() / 4,
    ensures
        word == word_at(instrs@, i as int),
{
    let len = instrs.len();
    assert(4 * i + 4 <= len);
    let base = 4 * i;
    instrs[base] as u32 + 256 * (instrs[base + 1] as u32) + 65536 * (instrs[base + 2] as u32)
        + 16777216 * (instrs[base + 3] as u32)
}

} // verus!
