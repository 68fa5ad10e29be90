//! The six RV32I instruction formats and the fields they carry.
//!
//! Decoding never fails: every 32-bit word has a reading in every format.
//! Immediates are rebuilt from their scattered bits and sign-extended to 32
//! bits where the format calls for it.

use crate::text::decimal;
use vstd::prelude::*;

verus! {

/// Bits 6..0 of a word: the major opcode.
pub open spec fn opcode_of(word: u32) -> u32 {
    word % 128
}

/// Bits 11..7 of a word: the destination register.
pub open spec fn rd_of(word: u32) -> u32 {
    (word / 128) % 32
}

/// Bits 14..12 of a word.
pub open spec fn funct3_of(word: u32) -> u32 {
    (word / 4096) % 8
}

/// Bits 19..15 of a word: the first source register.
pub open spec fn rs1_of(word: u32) -> u32 {
    (word / 32768) % 32
}

/// Bits 24..20 of a word: the second source register.
pub open spec fn rs2_of(word: u32) -> u32 {
    (word / 0x10_0000) % 32
}

/// Bits 31..25 of a word.
pub open spec fn funct7_of(word: u32) -> u32 {
    word / 0x200_0000
}

/// `ones` where bit 31 of `word`, the sign of every immediate, is set, and
/// zero where it is clear.
pub open spec fn sign_fill(word: u32, ones: u32) -> u32 {
    if word >= 0x8000_0000 {
        ones
    } else {
        0
    }
}

/// The U-format immediate: bits 31..12 of the word, in place.
pub open spec fn imm_u(word: u32) -> u32 {
    ((word / 4096) * 4096) as u32
}

/// The I-format immediate: bits 31..20 of the word moved down to bit 0, with
/// ones above them where bit 31 is set.
pub open spec fn imm_i(word: u32) -> u32 {
    (word / 0x10_0000 + sign_fill(word, 0xFFFF_F000)) as u32
}

/// The S-format immediate: bits 31..25 of the word from bit 5 on, bits 11..7
/// from bit 0 on, with ones above them where bit 31 is set.
pub open spec fn imm_s(word: u32) -> u32 {
    ((word / 0x200_0000) * 32 + (word / 128) % 32 + sign_fill(word, 0xFFFF_F000)) as u32
}

/// The B-format immediate: bit 7 of the word at bit 11, bits 30..25 from bit
/// 5 on, bits 11..8 from bit 1 on, zero at bit 0, and bit 31 of the word at
/// bit 12 and every bit above.
pub open spec fn imm_b(word: u32) -> u32 {
    (((word / 128) % 2) * 2048 + ((word / 0x200_0000) % 64) * 32 + ((word / 256) % 16) * 2
        + sign_fill(word, 0xFFFF_F000)) as u32
}

/// The J-format immediate: bits 19..12 of the word in place, bit 20 at bit
/// 11, bits 30..21 from bit 1 on, zero at bit 0, and bit 31 of the word at
/// bit 20 and every bit above.
pub open spec fn imm_j(word: u32) -> u32 {
    (((word / 4096) % 256) * 4096 + ((word / 0x10_0000) % 2) * 2048 + ((word / 0x20_0000) % 1024)
        * 2 + sign_fill(word, 0xFFF0_0000)) as u32
}

/// `value` with every bit above bit `top` set to the value of bit `top`.
pub open spec fn sign_extend(value: u32, top: u32) -> u32 {
    if (value >> top) & 1 == 1 {
        value | (0xFFFF_FFFFu32 << top)
    } else {
        value
    }
}

/// The two's-complement number that the bits of `x` stand for.
pub open spec fn signed(x: u32) -> int {
    if x < 0x8000_0000 {
        x as int
    } else {
        x as int - 0x1_0000_0000
    }
}

/// The fields of a word are as narrow as their names say.
pub proof fn law_field_widths(word: u32)
    ensures
        opcode_of(word) < 128,
        rd_of(word) < 32,
        funct3_of(word) < 8,
        rs1_of(word) < 32,
        rs2_of(word) < 32,
        funct7_of(word) < 128,
{
}

/// The register and function fields in terms of the bit operations: each is
/// the word shifted right to the field and masked to its width.
pub proof fn law_field_bits(word: u32)
    by (bit_vector)
    ensures
        opcode_of(word) == word & 0x7f,
        rd_of(word) == (word >> 7) & 0x1f,
        funct3_of(word) == (word >> 12) & 0x7,
        rs1_of(word) == (word >> 15) & 0x1f,
        rs2_of(word) == (word >> 20) & 0x1f,
        funct7_of(word) == word >> 25,
        imm_u(word) == word & 0xFFFF_F000,
{
}

/// The I and S immediates in terms of the bit operations: the bits of the
/// immediate gathered from the word and extended from bit 11, which is the
/// word shifted right as a two's-complement number.
pub proof fn law_short_immediate_bits(word: u32)
    by (bit_vector)
    ensures
        imm_i(word) == sign_extend(word >> 20, 11),
        imm_i(word) == ((word as i32) >> 20) as u32,
        imm_s(word) == sign_extend(((word >> 25) << 5) | ((word >> 7) & 0x1f), 11),
        imm_s(word) == ((((word as i32) >> 25) as u32) << 5) | ((word >> 7) & 0x1F),
{
}

/// The B and J immediates in terms of the bit operations: the bits of the
/// immediate gathered from the word and extended from bit 12 and from bit 20.
pub proof fn law_long_immediate_bits(word: u32)
    by (bit_vector)
    ensures
        imm_b(word) == sign_extend(
            (((word >> 31) & 1) << 12) | (((word >> 7) & 1) << 11) | (((word >> 25) & 0x3f) << 5)
                | (((word >> 8) & 0xf) << 1),
            12,
        ),
        imm_j(word) == sign_extend(
            (((word >> 31) & 1) << 20) | (((word >> 12) & 0xff) << 12) | (((word >> 20) & 1) << 11)
                | (((word >> 21) & 0x3ff) << 1),
            20,
        ),
{
}

/// Sign extension fills an immediate from above: where bit 31 of the word is
/// set, every bit of an I, S, B or J immediate from its sign bit up is one;
/// where it is clear, every one of them is zero.  The U immediate keeps bits
/// 31..12 and has zeros below; B and J immediates are even.
pub proof fn law_sign_extension(word: u32)
    by (bit_vector)
    ensures
        word & 0x8000_0000 != 0 ==> imm_i(word) & 0xFFFF_F800 == 0xFFFF_F800,
        word & 0x8000_0000 == 0 ==> imm_i(word) & 0xFFFF_F800 == 0,
        word & 0x8000_0000 != 0 ==> imm_s(word) & 0xFFFF_F800 == 0xFFFF_F800,
        word & 0x8000_0000 == 0 ==> imm_s(word) & 0xFFFF_F800 == 0,
        word & 0x8000_0000 != 0 ==> imm_b(word) & 0xFFFF_F000 == 0xFFFF_F000,
        word & 0x8000_0000 == 0 ==> imm_b(word) & 0xFFFF_F000 == 0,
        word & 0x8000_0000 != 0 ==> imm_j(word) & 0xFFF0_0000 == 0xFFF0_0000,
        word & 0x8000_0000 == 0 ==> imm_j(word) & 0xFFF0_0000 == 0,
        imm_u(word) & 0xFFF == 0,
        imm_b(word) & 1 == 0,
        imm_j(word) & 1 == 0,
{
}

/// Below the sign, every immediate bit is the instruction bit that the format
/// assigns to it.
pub proof fn law_immediate_bits(word: u32)
    by (bit_vector)
    ensures
        imm_i(word) & 0x7FF == (word >> 20) & 0x7FF,
        imm_s(word) & 0x1F == (word >> 7) & 0x1F,
        (imm_s(word) >> 5) & 0x3F == (word >> 25) & 0x3F,
        (imm_b(word) >> 1) & 0xF == (word >> 8) & 0xF,
        (imm_b(word) >> 5) & 0x3F == (word >> 25) & 0x3F,
        (imm_b(word) >> 11) & 1 == (word >> 7) & 1,
        (imm_j(word) >> 1) & 0x3FF == (word >> 21) & 0x3FF,
        (imm_j(word) >> 11) & 1 == (word >> 20) & 1,
        (imm_j(word) >> 12) & 0xFF == (word >> 12) & 0xFF,
{
}

/// What the sign bit of `word` weighs in an immediate whose sign bit has the
/// weight `weight`.
pub open spec fn sign_weight(word: u32, weight: int) -> int {
    if word >= 0x8000_0000 {
        weight
    } else {
        0
    }
}

/// The I immediate as a two's-complement number: bits 30..20 of the word,
/// less 2048 for bit 31.
pub open spec fn offset_i(word: u32) -> int {
    (word / 0x10_0000) % 2048 - sign_weight(word, 2048)
}

/// The S immediate as a two's-complement number: bits 30..25 above bits
/// 11..7, less 2048 for bit 31.
pub open spec fn offset_s(word: u32) -> int {
    ((word / 0x200_0000) % 64) * 32 + (word / 128) % 32 - sign_weight(word, 2048)
}

/// The B immediate as a two's-complement number: bit 7 with weight 2048,
/// bits 30..25 with weight 32, bits 11..8 with weight 2, less 4096 for bit
/// 31.
pub open spec fn offset_b(word: u32) -> int {
    ((word / 128) % 2) * 2048 + ((word / 0x200_0000) % 64) * 32 + ((word / 256) % 16) * 2
        - sign_weight(word, 4096)
}

/// The J immediate as a two's-complement number: bits 19..12 with weight
/// 4096, bit 20 with weight 2048, bits 30..21 with weight 2, less `2^20` for
/// bit 31.
pub open spec fn offset_j(word: u32) -> int {
    ((word / 4096) % 256) * 4096 + ((word / 0x10_0000) % 2) * 2048 + ((word / 0x20_0000) % 1024)
        * 2 - sign_weight(word, 0x10_0000)
}

/// The immediates as two's-complement numbers: each is the weighted sum of
/// its bits, with a negative weight for the sign bit, and lies in the range of
/// its width.
pub proof fn law_offsets(word: u32)
    ensures
        signed(imm_i(word)) == offset_i(word),
        signed(imm_s(word)) == offset_s(word),
        signed(imm_b(word)) == offset_b(word),
        signed(imm_j(word)) == offset_j(word),
        -2048 <= offset_i(word) < 2048,
        -2048 <= offset_s(word) < 2048,
        -4096 <= offset_b(word) < 4096,
        -0x10_0000 <= offset_j(word) < 0x10_0000,
        offset_b(word) % 2 == 0,
        offset_j(word) % 2 == 0,
{
}

/// The ABI name of register `n`.
pub open spec fn abi_name_of(n: u8) -> Seq<char> {
    if n == 0 {
        "zero"@
    } else if n == 1 {
        "ra"@
    } else if n == 2 {
        "sp"@
    } else if n == 3 {
        "gp"@
    } else if n == 4 {
        "tp"@
    } else if n == 5 {
        "t0"@
    } else if n == 6 {
        "t1"@
    } else if n == 7 {
        "t2"@
    } else if n == 8 {
        "s0"@
    } else if n == 9 {
        "s1"@
    } else if n == 10 {
        "a0"@
    } else if n == 11 {
        "a1"@
    } else if n == 12 {
        "a2"@
    } else if n == 13 {
        "a3"@
    } else if n == 14 {
        "a4"@
    } else if n == 15 {
        "a5"@
    } else if n == 16 {
        "a6"@
    } else if n == 17 {
        "a7"@
    } else if n == 18 {
        "s2"@
    } else if n == 19 {
        "s3"@
    } else if n == 20 {
        "s4"@
    } else if n == 21 {
        "s5"@
    } else if n == 22 {
        "s6"@
    } else if n == 23 {
        "s7"@
    } else if n == 24 {
        "s8"@
    } else if n == 25 {
        "s9"@
    } else if n == 26 {
        "s10"@
    } else if n == 27 {
        "s11"@
    } else if n == 28 {
        "t3"@
    } else if n == 29 {
        "t4"@
    } else if n == 30 {
        "t5"@
    } else {
        "t6"@
    }
}

/// The numeric name of register `n`: `x` and the number in decimal.
pub open spec fn numeric_name_of(n: u8) -> Seq<char> {
    seq!['x'] + decimal(n as nat)
}

/// One of the registers `x0` to `x31`, by its number.
#[derive(Debug, Clone, Copy, PartialEq, Eq, Structural)]
pub struct Reg(pub u8);

impl Reg {
    /// The register is one of the 32 that exist.
    pub open spec fn valid(self) -> bool {
        self.0 < 32
    }

    /// The name `x0` to `x31`.
    pub fn name(self) -> (text: &'static str)
        requires
            self.valid(),
        ensures
            text@ == numeric_name_of(self.0),
    {
        let n = self.0;
        proof {
            reveal_with_fuel(decimal, 2);
        }
        if n < 8 {
            proof {
                reveal_strlit("x0");
                reveal_strlit("x1");
                reveal_strlit("x2");
                reveal_strlit("x3");
                reveal_strlit("x4");
                reveal_strlit("x5");
                reveal_strlit("x6");
                reveal_strlit("x7");
            }
            let text = if n == 0 {
                "x0"
            } else if n == 1 {
                "x1"
            } else if n == 2 {
                "x2"
            } else if n == 3 {
                "x3"
            } else if n == 4 {
                "x4"
            } else if n == 5 {
                "x5"
            } else if n == 6 {
                "x6"
            } else {
                "x7"
            };
            assert(text@ =~= numeric_name_of(n));
            text
        } else if n < 16 {
            proof {
                reveal_strlit("x8");
                reveal_strlit("x9");
                reveal_strlit("x10");
                reveal_strlit("x11");
                reveal_strlit("x12");
                reveal_strlit("x13");
                reveal_strlit("x14");
                reveal_strlit("x15");
            }
            let text = if n == 8 {
                "x8"
            } else if n == 9 {
                "x9"
            } else if n == 10 {
                "x10"
            } else if n == 11 {
                "x11"
            } else if n == 12 {
                "x12"
            } else if n == 13 {
                "x13"
            } else if n == 14 {
                "x14"
            } else {
                "x15"
            };
            assert(text@ =~= numeric_name_of(n));
            text
        } else if n < 24 {
            proof {
                reveal_strlit("x16");
                reveal_strlit("x17");
                reveal_strlit("x18");
                reveal_strlit("x19");
                reveal_strlit("x20");
                reveal_strlit("x21");
                reveal_strlit("x22");
                reveal_strlit("x23");
            }
            let text = if n == 16 {
                "x16"
            } else if n == 17 {
                "x17"
            } else if n == 18 {
                "x18"
            } else if n == 19 {
                "x19"
            } else if n == 20 {
                "x20"
            } else if n == 21 {
                "x21"
            } else if n == 22 {
                "x22"
            } else {
                "x23"
            };
            assert(text@ =~= numeric_name_of(n));
            text
        } else {
            proof {
                reveal_strlit("x24");
                reveal_strlit("x25");
                reveal_strlit("x26");
                reveal_strlit("x27");
                reveal_strlit("x28");
                reveal_strlit("x29");
                reveal_strlit("x30");
                reveal_strlit("x31");
            }
            let text = if n == 24 {
                "x24"
            } else if n == 25 {
                "x25"
            } else if n == 26 {
                "x26"
            } else if n == 27 {
                "x27"
            } else if n == 28 {
                "x28"
            } else if n == 29 {
                "x29"
            } else if n == 30 {
                "x30"
            } else {
                "x31"
            };
            assert(text@ =~= numeric_name_of(n));
            text
        }
    }

    /// The ABI name: `zero`, `ra`, `sp`, `gp`, `tp`, `t0` to `t6`, `s0` to
    /// `s11`, `a0` to `a7`.
    pub fn abi_name(self) -> (text: &'static str)
        requires
            self.valid(),
        ensures
            text@ == abi_name_of(self.0),
    {
        let n = self.0;
        if n == 0 {
            "zero"
        } else if n == 1 {
            "ra"
        } else if n == 2 {
            "sp"
        } else if n == 3 {
            "gp"
        } else if n == 4 {
            "tp"
        } else if n == 5 {
            "t0"
        } else if n == 6 {
            "t1"
        } else if n == 7 {
            "t2"
        } else if n == 8 {
            "s0"
        } else if n == 9 {
            "s1"
        } else if n == 10 {
            "a0"
        } else if n == 11 {
            "a1"
        } else if n == 12 {
            "a2"
        } else if n == 13 {
            "a3"
        } else if n == 14 {
            "a4"
        } else if n == 15 {
            "a5"
        } else if n == 16 {
            "a6"
        } else if n == 17 {
            "a7"
        } else if n == 18 {
            "s2"
        } else if n == 19 {
            "s3"
        } else if n == 20 {
            "s4"
        } else if n == 21 {
            "s5"
        } else if n == 22 {
            "s6"
        } else if n == 23 {
            "s7"
        } else if n == 24 {
            "s8"
        } else if n == 25 {
            "s9"
        } else if n == 26 {
            "s10"
        } else if n == 27 {
            "s11"
        } else if n == 28 {
            "t3"
        } else if n == 29 {
            "t4"
        } else if n == 30 {
            "t5"
        } else {
            "t6"
        }
    }
}

/// Reads bits 11..7 as a register.
fn parse_rd(instr: u32) -> (r: Reg)
    ensures
        r.0 == rd_of(instr),
        r.valid(),
{
    proof {
        law_field_bits(instr);
    }
    Reg(((instr >> 7) & 0x1f) as u8)
}

/// Reads bits 19..15 as a register.
fn parse_rs1(instr: u32) -> (r: Reg)
    ensures
        r.0 == rs1_of(instr),
        r.valid(),
{
    proof {
        law_field_bits(instr);
    }
    Reg(((instr >> 15) & 0x1f) as u8)
}

/// Reads bits 24..20 as a register.
fn parse_rs2(instr: u32) -> (r: Reg)
    ensures
        r.0 == rs2_of(instr),
        r.valid(),
{
    proof {
        law_field_bits(instr);
    }
    Reg(((instr >> 20) & 0x1f) as u8)
}

/// Reads bits 14..12.
fn parse_funct3(instr: u32) -> (f: u8)
    ensures
        f == funct3_of(instr),
        f < 8,
{
    proof {
        law_field_bits(instr);
    }
    ((instr >> 12) & 0x7) as u8
}

/// Extends `value` from its sign bit `top` upwards.
fn extend(value: u32, top: u32) -> (r: u32)
    requires
        top < 32,
    ensures
        r == sign_extend(value, top),
{
    if (value >> top) & 1 == 1 {
        value | (0xFFFF_FFFFu32 << top)
    } else {
        value
    }
}

/// An upper-immediate instruction (LUI, AUIPC).
#[derive(Debug, Clone, Copy, PartialEq, Eq, Structural)]
pub struct UType {
    pub imm: u32,
    pub rd: Reg,
}

impl UType {
    /// The U-format reading of `instr`.
    pub open spec fn decode(instr: u32) -> UType {
        UType { imm: imm_u(instr), rd: Reg(rd_of(instr) as u8) }
    }

    /// Reads `instr` in the U format.
    pub fn parse(instr: u32) -> (t: Self)
        ensures
            t == Self::decode(instr),
            t.rd.valid(),
            t.imm == (instr / 4096) * 4096,
            t.rd.0 == (instr / 128) % 32,
    {
        proof {
            law_field_bits(instr);
        }
        UType { imm: instr & 0xFFFF_F000, rd: parse_rd(instr) }
    }
}

/// A jump instruction (JAL).
#[derive(Debug, Clone, Copy, PartialEq, Eq, Structural)]
pub struct JType {
    pub imm: u32,
    pub rd: Reg,
}

impl JType {
    /// The J-format reading of `instr`.
    pub open spec fn decode(instr: u32) -> JType {
        JType { imm: imm_j(instr), rd: Reg(rd_of(instr) as u8) }
    }

    /// Reads `instr` in the J format.
    pub fn parse(instr: u32) -> (t: Self)
        ensures
            t == Self::decode(instr),
            t.rd.valid(),
            signed(t.imm) == offset_j(instr),
            t.rd.0 == (instr / 128) % 32,
    {
        proof {
            law_long_immediate_bits(instr);
        }
        let raw = (((instr >> 31) & 1) << 20) | (((instr >> 12) & 0xff) << 12) | (((instr >> 20)
            & 1) << 11) | (((instr >> 21) & 0x3ff) << 1);
        JType { imm: extend(raw, 20), rd: parse_rd(instr) }
    }
}

/// An instruction with a 12-bit immediate (JALR, loads, OP-IMM, FENCE,
/// SYSTEM).
#[derive(Debug, Clone, Copy, PartialEq, Eq, Structural)]
pub struct IType {
    pub imm: u32,
    pub rs1: Reg,
    pub funct3: u8,
    pub rd: Reg,
}

impl IType {
    /// The I-format reading of `instr`.
    pub open spec fn decode(instr: u32) -> IType {
        IType {
            imm: imm_i(instr),
            rs1: Reg(rs1_of(instr) as u8),
            funct3: funct3_of(instr) as u8,
            rd: Reg(rd_of(instr) as u8),
        }
    }

    /// Reads `instr` in the I format.
    pub fn parse(instr: u32) -> (t: Self)
        ensures
            t == Self::decode(instr),
            t.rs1.valid(),
            t.rd.valid(),
            t.funct3 < 8,
            signed(t.imm) == offset_i(instr),
            t.rs1.0 == (instr / 32768) % 32,
            t.funct3 == (instr / 4096) % 8,
            t.rd.0 == (instr / 128) % 32,
    {
        proof {
            law_short_immediate_bits(instr);
        }
        IType {
            imm: extend(instr >> 20, 11),
            rs1: parse_rs1(instr),
            funct3: parse_funct3(instr),
            rd: parse_rd(instr),
        }
    }
}

/// A conditional branch.
#[derive(Debug, Clone, Copy, PartialEq, Eq, Structural)]
pub struct BType {
    pub imm: u32,
    pub rs2: Reg,
    pub rs1: Reg,
    pub funct3: u8,
}

impl BType {
    /// The B-format reading of `instr`.
    pub open spec fn decode(instr: u32) -> BType {
        BType {
            imm: imm_b(instr),
            rs2: Reg(rs2_of(instr) as u8),
            rs1: Reg(rs1_of(instr) as u8),
            funct3: funct3_of(instr) as u8,
        }
    }

    /// Reads `instr` in the B format.
    pub fn parse(instr: u32) -> (t: Self)
        ensures
            t == Self::decode(instr),
            t.rs1.valid(),
            t.rs2.valid(),
            t.funct3 < 8,
            signed(t.imm) == offset_b(instr),
            t.rs2.0 == (instr / 0x10_0000) % 32,
            t.rs1.0 == (instr / 32768) % 32,
            t.funct3 == (instr / 4096) % 8,
    {
        proof {
            law_long_immediate_bits(instr);
        }
        let raw = (((instr >> 31) & 1) << 12) | (((instr >> 7) & 1) << 11) | (((instr >> 25)
            & 0x3f) << 5) | (((instr >> 8) & 0xf) << 1);
        BType {
            imm: extend(raw, 12),
            rs2: parse_rs2(instr),
            rs1: parse_rs1(instr),
            funct3: parse_funct3(instr),
        }
    }
}

/// A store.
#[derive(Debug, Clone, Copy, PartialEq, Eq, Structural)]
pub struct SType {
    pub imm: u32,
    pub rs2: Reg,
    pub rs1: Reg,
    pub funct3: u8,
}

impl SType {
    /// The S-format reading of `instr`.
    pub open spec fn decode(instr: u32) -> SType {
        SType {
            imm: imm_s(instr),
            rs2: Reg(rs2_of(instr) as u8),
            rs1: Reg(rs1_of(instr) as u8),
            funct3: funct3_of(instr) as u8,
        }
    }

    /// Reads `instr` in the S format.
    pub fn parse(instr: u32) -> (t: Self)
        ensures
            t == Self::decode(instr),
            t.rs1.valid(),
            t.rs2.valid(),
            t.funct3 < 8,
            signed(t.imm) == offset_s(instr),
            t.rs2.0 == (instr / 0x10_0000) % 32,
            t.rs1.0 == (instr / 32768) % 32,
            t.funct3 == (instr / 4096) % 8,
    {
        proof {
            law_short_immediate_bits(instr);
        }
        let raw = ((instr >> 25) << 5) | ((instr >> 7) & 0x1f);
        SType {
            imm: extend(raw, 11),
            rs2: parse_rs2(instr),
            rs1: parse_rs1(instr),
            funct3: parse_funct3(instr),
        }
    }
}

/// A register-register operation.
#[derive(Debug, Clone, Copy, PartialEq, Eq, Structural)]
pub struct RType {
    pub funct7: u8,
    pub rs2: Reg,
    pub rs1: Reg,
    pub funct3: u8,
    pub rd: Reg,
}

impl RType {
    /// The R-format reading of `instr`.
    pub open spec fn decode(instr: u32) -> RType {
        RType {
            funct7: funct7_of(instr) as u8,
            rs2: Reg(rs2_of(instr) as u8),
            rs1: Reg(rs1_of(instr) as u8),
            funct3: funct3_of(instr) as u8,
            rd: Reg(rd_of(instr) as u8),
        }
    }

    /// Reads `instr` in the R format.
    pub fn parse(instr: u32) -> (t: Self)
        ensures
            t == Self::decode(instr),
            t.rs1.valid(),
            t.rs2.valid(),
            t.rd.valid(),
            t.funct3 < 8,
            t.funct7 < 128,
            t.funct7 == instr / 0x200_0000,
            t.rs2.0 == (instr / 0x10_0000) % 32,
            t.rs1.0 == (instr / 32768) % 32,
            t.funct3 == (instr / 4096) % 8,
            t.rd.0 == (instr / 128) % 32,
    {
        proof {
            law_field_bits(instr);
        }
        RType {
            funct7: (instr >> 25) as u8,
            rs2: parse_rs2(instr),
            rs1: parse_rs1(instr),
            funct3: parse_funct3(instr),
            rd: parse_rd(instr),
        }
    }
}

} // verus!
