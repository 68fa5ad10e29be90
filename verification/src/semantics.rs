//! What one RV32I instruction does to the machine.
//!
//! The machine is modelled as a program counter, the 31 registers `x1` to
//! `x31` and the memory.  `step_result` maps a machine to the machine after
//! one instruction, together with the reason for leaving the interpreter, if
//! there is one.  An instruction that leaves the interpreter changes nothing.

use crate::instructions::{opcode_of, rd_of, signed, BType, IType, JType, RType, Reg, SType, UType};
use crate::memory::{
    law_load_outcome, law_memory_kept, le_bytes, span, widen, MemoryError, MemoryView, PERM_EXEC,
    PERM_READ, PERM_WRITE,
};
use vstd::prelude::*;

verus! {

/// Why the interpreter stopped.
#[derive(Debug, PartialEq, Eq)]
pub enum EmulatorExit {
    /// An `ECALL` was reached.
    Syscall,
    /// An `EBREAK` was reached.
    Break,
    /// The word at `pc` is no RV32I instruction.
    InvalidInstruction(u32),
    /// An instruction fetch, a load or a store failed.
    InvalidMemoryAccess(MemoryError),
}

/// The state of the machine.
pub struct MachineView {
    pub pc: u32,
    /// `x1` to `x31`, `x1` first.
    pub regs: Seq<u32>,
    pub mem: MemoryView,
}

impl MachineView {
    /// There are 31 registers and the memory is consistent.
    pub open spec fn wf(self) -> bool {
        self.regs.len() == 31 && self.mem.wf()
    }
}

/// `x` reduced modulo `2^32`.
pub open spec fn wrap(x: int) -> u32 {
    (x % 0x1_0000_0000) as u32
}

/// The part of a shift operand that counts: its five low bits.
pub open spec fn shift_amount(x: u32) -> u32 {
    x % 32
}

/// `a` shifted right by `amount` with copies of its sign bit moving in.
pub open spec fn shift_right_signed(a: u32, amount: u32) -> u32 {
    if a & 0x8000_0000 != 0 {
        (a >> amount) | !(0xFFFF_FFFFu32 >> amount)
    } else {
        a >> amount
    }
}

/// The value of register `r`: zero for `x0`.
pub open spec fn reg(regs: Seq<u32>, r: Reg) -> u32 {
    if r.0 == 0 {
        0
    } else {
        regs[r.0 - 1]
    }
}

/// The registers after `value` is written to `r`: unchanged for `x0`.
pub open spec fn set_reg(regs: Seq<u32>, r: Reg, value: u32) -> Seq<u32> {
    if r.0 == 0 {
        regs
    } else {
        regs.update(r.0 - 1, value)
    }
}

/// The result of the integer operation selected by `funct3`, where `alt`
/// selects subtraction in place of addition and the arithmetic in place of
/// the logical right shift.
pub open spec fn alu(funct3: u8, alt: bool, a: u32, b: u32) -> u32 {
    if funct3 == 0 {
        if alt {
            wrap(a - b)
        } else {
            wrap(a + b)
        }
    } else if funct3 == 1 {
        a << shift_amount(b)
    } else if funct3 == 2 {
        if signed(a) < signed(b) {
            1
        } else {
            0
        }
    } else if funct3 == 3 {
        if a < b {
            1
        } else {
            0
        }
    } else if funct3 == 4 {
        a ^ b
    } else if funct3 == 5 {
        if alt {
            shift_right_signed(a, shift_amount(b))
        } else {
            a >> shift_amount(b)
        }
    } else if funct3 == 6 {
        a | b
    } else {
        a & b
    }
}

/// Whether the branch selected by `funct3` is taken; `None` where `funct3`
/// selects no branch.
pub open spec fn branch_taken(funct3: u8, a: u32, b: u32) -> Option<bool> {
    if funct3 == 0 {
        Some(a == b)
    } else if funct3 == 1 {
        Some(a != b)
    } else if funct3 == 4 {
        Some(signed(a) < signed(b))
    } else if funct3 == 5 {
        Some(signed(a) >= signed(b))
    } else if funct3 == 6 {
        Some(a < b)
    } else if funct3 == 7 {
        Some(a >= b)
    } else {
        None
    }
}

/// The machine stays as it is and the interpreter is left.
pub open spec fn leave(s: MachineView, exit: EmulatorExit) -> (MachineView, Option<EmulatorExit>) {
    (s, Some(exit))
}

/// The machine goes on at `pc` with `value` in register `rd`.
pub open spec fn proceed(s: MachineView, pc: u32, rd: Reg, value: u32) -> (
    MachineView,
    Option<EmulatorExit>,
) {
    (MachineView { pc, regs: set_reg(s.regs, rd, value), mem: s.mem }, None)
}

/// A conditional branch: `pc` moves by the immediate when the comparison of
/// `rs1` and `rs2` holds, and to the next instruction otherwise.
pub open spec fn branch_result(s: MachineView, word: u32) -> (MachineView, Option<EmulatorExit>) {
    let t = BType::decode(word);
    match branch_taken(t.funct3, reg(s.regs, t.rs1), reg(s.regs, t.rs2)) {
        None => leave(s, EmulatorExit::InvalidInstruction(word)),
        Some(taken) => (
            MachineView {
                pc: if taken {
                    wrap(s.pc + t.imm)
                } else {
                    wrap(s.pc + 4)
                },
                ..s
            },
            None,
        ),
    }
}

/// What a load of width `funct3` reads at `addr`; `None` where `funct3`
/// selects no load.
pub open spec fn loaded(mem: MemoryView, funct3: u8, addr: u32) -> Option<Result<u32, MemoryError>> {
    if funct3 == 0 {
        Some(mem.load_signed(addr, 1, PERM_READ))
    } else if funct3 == 1 {
        Some(mem.load_signed(addr, 2, PERM_READ))
    } else if funct3 == 2 {
        Some(mem.load_value(addr, 4, PERM_READ))
    } else if funct3 == 4 {
        Some(mem.load_value(addr, 1, PERM_READ))
    } else if funct3 == 5 {
        Some(mem.load_value(addr, 2, PERM_READ))
    } else {
        None
    }
}

/// A load: `rd` receives what is read at `rs1 + imm`.
pub open spec fn load_result(s: MachineView, word: u32) -> (MachineView, Option<EmulatorExit>) {
    let t = IType::decode(word);
    match loaded(s.mem, t.funct3, wrap(reg(s.regs, t.rs1) + t.imm)) {
        None => leave(s, EmulatorExit::InvalidInstruction(word)),
        Some(Err(e)) => leave(s, EmulatorExit::InvalidMemoryAccess(e)),
        Some(Ok(value)) => proceed(s, wrap(s.pc + 4), t.rd, value),
    }
}

/// The number of bytes that a store of width `funct3` writes; `None` where
/// `funct3` selects no store.
pub open spec fn store_width(funct3: u8) -> Option<nat> {
    if funct3 == 0 {
        Some(1)
    } else if funct3 == 1 {
        Some(2)
    } else if funct3 == 2 {
        Some(4)
    } else {
        None
    }
}

/// A store: the low bytes of `rs2` go to `rs1 + imm`.
pub open spec fn store_result(s: MachineView, word: u32) -> (MachineView, Option<EmulatorExit>) {
    let t = SType::decode(word);
    let addr = wrap(reg(s.regs, t.rs1) + t.imm);
    match store_width(t.funct3) {
        None => leave(s, EmulatorExit::InvalidInstruction(word)),
        Some(width) => {
            let (mem, res) = s.mem.write_result(
                addr,
                PERM_WRITE,
                le_bytes(reg(s.regs, t.rs2) as nat, width),
            );
            match res {
                Err(e) => leave(s, EmulatorExit::InvalidMemoryAccess(e)),
                Ok(_) => (MachineView { pc: wrap(s.pc + 4), regs: s.regs, mem }, None),
            }
        },
    }
}

/// Bits 11..5 of an I-format immediate: what tells the shifts apart.
pub open spec fn shift_kind(imm: u32) -> u32 {
    (imm / 32) % 128
}

/// An operation on a register and an immediate.  The shifts take the amount
/// from the five low bits of the immediate, and bits 11..5 must be zero, or
/// `0x20` for the arithmetic right shift.
pub open spec fn op_imm_result(s: MachineView, word: u32) -> (MachineView, Option<EmulatorExit>) {
    let t = IType::decode(word);
    let a = reg(s.regs, t.rs1);
    let kind = shift_kind(t.imm);
    let next = wrap(s.pc + 4);
    if t.funct3 == 1 && kind != 0 {
        leave(s, EmulatorExit::InvalidInstruction(word))
    } else if t.funct3 == 5 && kind != 0 && kind != 0x20 {
        leave(s, EmulatorExit::InvalidInstruction(word))
    } else {
        proceed(s, next, t.rd, alu(t.funct3, t.funct3 == 5 && kind == 0x20, a, t.imm))
    }
}

/// An operation on two registers.  `funct7` must be zero, or `0x20` for
/// subtraction and the arithmetic right shift.
pub open spec fn op_result(s: MachineView, word: u32) -> (MachineView, Option<EmulatorExit>) {
    let t = RType::decode(word);
    let a = reg(s.regs, t.rs1);
    let b = reg(s.regs, t.rs2);
    if t.funct7 == 0 || (t.funct7 == 0x20 && (t.funct3 == 0 || t.funct3 == 5)) {
        proceed(s, wrap(s.pc + 4), t.rd, alu(t.funct3, t.funct7 == 0x20, a, b))
    } else {
        leave(s, EmulatorExit::InvalidInstruction(word))
    }
}

/// `ECALL` and `EBREAK`: both leave the interpreter.
pub open spec fn system_result(s: MachineView, word: u32) -> (MachineView, Option<EmulatorExit>) {
    let t = IType::decode(word);
    if t.rs1.0 != 0 || t.rd.0 != 0 || t.funct3 != 0 {
        leave(s, EmulatorExit::InvalidInstruction(word))
    } else if t.imm == 0 {
        leave(s, EmulatorExit::Syscall)
    } else if t.imm == 1 {
        leave(s, EmulatorExit::Break)
    } else {
        leave(s, EmulatorExit::InvalidInstruction(word))
    }
}

/// The effect of the instruction `word` on the machine `s`.
pub open spec fn execute(s: MachineView, word: u32) -> (MachineView, Option<EmulatorExit>) {
    let op = opcode_of(word);
    let next = wrap(s.pc + 4);
    if op == 0x37 {
        let t = UType::decode(word);
        proceed(s, next, t.rd, t.imm)
    } else if op == 0x17 {
        let t = UType::decode(word);
        proceed(s, next, t.rd, wrap(s.pc + t.imm))
    } else if op == 0x6f {
        let t = JType::decode(word);
        proceed(s, wrap(s.pc + t.imm), t.rd, next)
    } else if op == 0x67 {
        let t = IType::decode(word);
        if t.funct3 != 0 {
            leave(s, EmulatorExit::InvalidInstruction(word))
        } else {
            proceed(s, wrap(reg(s.regs, t.rs1) + t.imm), t.rd, next)
        }
    } else if op == 0x63 {
        branch_result(s, word)
    } else if op == 0x03 {
        load_result(s, word)
    } else if op == 0x23 {
        store_result(s, word)
    } else if op == 0x13 {
        op_imm_result(s, word)
    } else if op == 0x33 {
        op_result(s, word)
    } else if op == 0x0f {
        if IType::decode(word).funct3 != 0 {
            leave(s, EmulatorExit::InvalidInstruction(word))
        } else {
            (MachineView { pc: next, ..s }, None)
        }
    } else if op == 0x73 {
        system_result(s, word)
    } else {
        leave(s, EmulatorExit::InvalidInstruction(word))
    }
}

/// One turn of the interpreter: fetch the four bytes at `pc` with execute
/// permission, then execute them.
#[verifier::opaque]
pub open spec fn step_result(s: MachineView) -> (MachineView, Option<EmulatorExit>) {
    match s.mem.load_value(s.pc, 4, PERM_EXEC) {
        Err(e) => leave(s, EmulatorExit::InvalidMemoryAccess(e)),
        Ok(word) => execute(s, word),
    }
}

/// At most `fuel` turns of the interpreter, ending at the first that leaves
/// it.
pub open spec fn run_result(s: MachineView, fuel: nat) -> (MachineView, Option<EmulatorExit>)
    decreases fuel,
{
    if fuel == 0 {
        (s, None)
    } else {
        let (t, exit) = step_result(s);
        if exit is Some {
            (t, exit)
        } else {
            run_result(t, (fuel - 1) as nat)
        }
    }
}

/// The instruction at `pc` can be fetched: its four bytes lie inside the
/// memory and may be executed.
pub open spec fn fetchable(s: MachineView) -> bool {
    s.mem.holds_span(s.pc, 4) && s.mem.permits(s.pc as int, s.pc + 4, PERM_EXEC)
}

/// One turn of the interpreter executes the word at `pc` where it can be
/// fetched, and else leaves the interpreter with the memory error and the
/// machine as it was.
pub proof fn law_fetch(s: MachineView)
    requires
        s.wf(),
    ensures
        fetchable(s) ==> step_result(s) == execute(s, s.mem.word_at(s.pc as int)),
        !fetchable(s) ==> step_result(s).0 == s && step_result(s).1 is Some && step_result(
            s,
        ).1->0 is InvalidMemoryAccess,
        !s.mem.holds_span(s.pc, 4) ==> step_result(s).1 == Some(
            EmulatorExit::InvalidMemoryAccess(MemoryError::OutOfBounds { addr: span(s.pc, 4) }),
        ),
{
    reveal(step_result);
    law_load_outcome(s.mem, s.pc, 4, PERM_EXEC);
}

/// A machine that is consistent stays consistent, and an instruction that
/// leaves the interpreter changes nothing: `pc` still points at it.  The
/// memory keeps its size and its free list, free addresses stay without
/// permissions if they were so, and no byte becomes both readable and
/// read-after-write.
pub proof fn law_step_keeps_machine(s: MachineView)
    requires
        s.wf(),
    ensures
        step_result(s).0.wf(),
        step_result(s).1 is Some ==> step_result(s).0 == s,
        step_result(s).0.mem.size() == s.mem.size(),
        step_result(s).0.mem.free == s.mem.free,
        s.mem.free_is_blank() ==> step_result(s).0.mem.free_is_blank(),
        s.mem.raw_is_unreadable() ==> step_result(s).0.mem.raw_is_unreadable(),
{
    reveal(step_result);
    match s.mem.load_value(s.pc, 4, PERM_EXEC) {
        Err(e) => {},
        Ok(word) => {
            let t = SType::decode(word);
            let addr = wrap(reg(s.regs, t.rs1) + t.imm);
            if store_width(t.funct3) is Some {
                let data = le_bytes(reg(s.regs, t.rs2) as nat, store_width(t.funct3)->0);
                law_memory_kept(s.mem, addr, PERM_WRITE, data, 0, 0, 0, 0);
            }
        },
    }
}

/// Register `x0` cannot be written: an instruction whose destination field
/// is zero leaves every register as it was.
pub proof fn law_x0_immutable(s: MachineView, word: u32)
    requires
        rd_of(word) == 0,
    ensures
        execute(s, word).0.regs == s.regs,
        forall|regs: Seq<u32>, value: u32| set_reg(regs, Reg(0), value) == regs,
        forall|regs: Seq<u32>| reg(regs, Reg(0)) == 0,
{
}

/// Addition and subtraction wrap around at `2^32`.
pub proof fn law_wrapping_arithmetic(a: u32, b: u32)
    ensures
        alu(0, false, a, b) == (a + b) % 0x1_0000_0000,
        alu(0, true, a, b) == (a - b) % 0x1_0000_0000,
        alu(0, false, 0xFFFF_FFFF, 1) == 0,
        alu(0, true, 0, 1) == 0xFFFF_FFFF,
{
}

/// The shift amount and the shift kind in terms of the bit operations.
pub proof fn lemma_shift_amount(b: u32)
    by (bit_vector)
    ensures
        shift_amount(b) == b & 0x1f,
        shift_amount(b) < 32,
        shift_kind(b) == (b & 0xfff) >> 5,
{
}

/// The shifts use only the five low bits of the shift operand: two operands
/// that agree modulo 32 give the same result.
pub proof fn law_shift_masking(a: u32, b: u32, c: u32)
    requires
        b % 32 == c % 32,
    ensures
        alu(1, false, a, b) == alu(1, false, a, c),
        alu(5, false, a, b) == alu(5, false, a, c),
        alu(5, true, a, b) == alu(5, true, a, c),
        alu(1, false, a, b) == a << (b & 0x1f),
        alu(5, false, a, b) == a >> (b & 0x1f),
        alu(5, true, a, b) == shift_right_signed(a, b & 0x1f),
{
    lemma_shift_amount(b);
}

/// `SLT` orders its operands as two's-complement numbers and `SLTU` as
/// unsigned numbers, so the two disagree exactly when the sign bits differ.
pub proof fn law_signed_order(a: u32, b: u32)
    ensures
        alu(2, false, a, b) == (if signed(a) < signed(b) {
            1u32
        } else {
            0u32
        }),
        alu(3, false, a, b) == (if a < b {
            1u32
        } else {
            0u32
        }),
        (a < 0x8000_0000) == (b < 0x8000_0000) ==> alu(2, false, a, b) == alu(3, false, a, b),
        (a < 0x8000_0000) != (b < 0x8000_0000) ==> alu(2, false, a, b) != alu(3, false, a, b),
        alu(2, false, 0xFFFF_FFFF, 1) == 1,
        alu(3, false, 0xFFFF_FFFF, 1) == 0,
{
}

/// The arithmetic right shift is the right shift of the word read as a
/// two's-complement number, and that reading is what `signed` gives.
pub proof fn law_shift_right_signed(a: u32, amount: u32)
    by (bit_vector)
    requires
        amount < 32,
    ensures
        shift_right_signed(a, amount) == ((a as i32) >> amount) as u32,
        a < 0x8000_0000 ==> shift_right_signed(a, amount) == a >> amount,
        a < 0x8000_0000 ==> (a as i32) == a,
        a >= 0x8000_0000 ==> (a as i32) == a - 0x1_0000_0000,
{
}

/// The product of a number and a power of two: what the left shift keeps,
/// and above it what the left shift drops.
proof fn lemma_shift_left_parts(a: u32, amount: u32)
    by (bit_vector)
    requires
        amount < 32,
    ensures
        a * (1u32 << amount) == (a << amount) + 0x1_0000_0000 * ((a as u64) >> ((32 - amount) as u64)),
{
}

/// The logical right shift as a quotient.
proof fn lemma_shift_right_parts(a: u32, amount: u32)
    by (bit_vector)
    requires
        amount < 32,
    ensures
        a >> amount == a / (1u32 << amount),
        1u32 << amount >= 1,
{
}

/// The arithmetic right shift of a word with the sign bit set, by way of the
/// logical shift of its complement.
proof fn lemma_shift_right_negative(a: u32, amount: u32)
    by (bit_vector)
    requires
        amount < 32,
        a >= 0x8000_0000,
    ensures
        shift_right_signed(a, amount) == !((!a) >> amount),
        a + !a == 0xFFFF_FFFF,
        !((!a) >> amount) + ((!a) >> amount) == 0xFFFF_FFFF,
        !((!a) >> amount) >= 0x8000_0000,
{
}

/// Rounding down and negation: the quotient of `-(n + 1)` is `-(q + 1)`
/// where `q` is the quotient of `n`.
proof fn lemma_floor_of_negative(n: int, p: int, q: int)
    by (nonlinear_arith)
    requires
        0 <= n,
        1 <= p,
        q == n / p,
    ensures
        (-1 - q) * p <= -n - 1,
        -n - 1 < (-1 - q + 1) * p,
{
    assert(q * p <= n < (q + 1) * p);
}

/// The quotient of a number that is not negative, rounded down.
proof fn lemma_floor(n: int, p: int, q: int)
    by (nonlinear_arith)
    requires
        0 <= n,
        1 <= p,
        q == n / p,
    ensures
        q * p <= n,
        n < (q + 1) * p,
{
}

/// Shifting left multiplies by a power of two modulo `2^32`.  Shifting right
/// divides by a power of two and rounds down: the logical shift the unsigned
/// number, the arithmetic shift the two's-complement number.
pub proof fn law_shifts_scale(a: u32, amount: u32)
    requires
        amount < 32,
    ensures
        1u32 << amount >= 1,
        a << amount == (a * (1u32 << amount)) % 0x1_0000_0000,
        a >> amount == a / (1u32 << amount),
        signed(shift_right_signed(a, amount)) * (1u32 << amount) <= signed(a),
        signed(a) < (signed(shift_right_signed(a, amount)) + 1) * (1u32 << amount),
{
    let p = (1u32 << amount) as int;
    lemma_shift_left_parts(a, amount);
    lemma_shift_right_parts(a, amount);
    law_shift_right_signed(a, amount);
    if a >= 0x8000_0000 {
        lemma_shift_right_negative(a, amount);
        lemma_shift_right_parts(!a, amount);
        lemma_floor_of_negative((!a) as int, p, ((!a) >> amount) as int);
    } else {
        lemma_floor(a as int, p, (a >> amount) as int);
    }
}

/// A signed load widens by copying the sign bit of what was read, an unsigned
/// load by filling with zeros.
pub proof fn law_load_extension(value: nat)
    ensures
        value < 0x80 ==> widen(value, 8) == value,
        0x80 <= value < 0x100 ==> widen(value, 8) == value + 0xFFFF_FF00,
        value < 0x8000 ==> widen(value, 16) == value,
        0x8000 <= value < 0x1_0000 ==> widen(value, 16) == value + 0xFFFF_0000,
        widen(0x80, 8) == 0xFFFF_FF80,
{
}

} // verus!
