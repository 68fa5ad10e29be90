//! The interpreter: registers, program counter, memory, and the
//! fetch-decode-execute step.

use crate::instructions::{law_field_bits, BType, IType, JType, RType, Reg, SType, UType};
use crate::memory::{le_bytes, Memory, PERM_EXEC, PERM_READ, PERM_WRITE};
use crate::semantics::{
    alu, branch_result, branch_taken, execute, fetchable, law_fetch, law_shift_right_signed,
    lemma_shift_amount, load_result, op_imm_result, op_result, reg, run_result, set_reg,
    step_result, store_result, system_result, wrap, EmulatorExit, MachineView,
};
use vstd::prelude::*;

verus! {

/// `a + b` modulo `2^32`.
fn add32(a: u32, b: u32) -> (r: u32)
    ensures
        r == wrap(a + b),
{
    a.wrapping_add(b)
}

/// The integer operation selected by `funct3` and `alt`.
fn compute(funct3: u8, alt: bool, a: u32, b: u32) -> (r: u32)
    requires
        funct3 < 8,
    ensures
        r == alu(funct3, alt, a, b),
{
    let amount = b & 0x1f;
    proof {
        lemma_shift_amount(b);
        law_shift_right_signed(a, amount);
        law_shift_right_signed(b, 0);
    }
    if funct3 == 0 {
        if alt {
            a.wrapping_sub(b)
        } else {
            a.wrapping_add(b)
        }
    } else if funct3 == 1 {
        a << amount
    } else if funct3 == 2 {
        if (a as i32) < (b as i32) {
            1
        } else {
            0
        }
    } else if funct3 == 3 {
        if a < b {
            1
        } else {
            0
        }
    } else if funct3 == 4 {
        a ^ b
    } else if funct3 == 5 {
        if alt {
            ((a as i32) >> amount) as u32
        } else {
            a >> amount
        }
    } else if funct3 == 6 {
        a | b
    } else {
        a & b
    }
}

/// Whether the branch selected by `funct3` is taken.
fn decide(funct3: u8, a: u32, b: u32) -> (taken: Option<bool>)
    ensures
        taken == branch_taken(funct3, a, b),
{
    proof {
        law_shift_right_signed(a, 0);
        law_shift_right_signed(b, 0);
    }
    if funct3 == 0 {
        Some(a == b)
    } else if funct3 == 1 {
        Some(a != b)
    } else if funct3 == 4 {
        Some((a as i32) < (b as i32))
    } else if funct3 == 5 {
        Some((a as i32) >= (b as i32))
    } else if funct3 == 6 {
        Some(a < b)
    } else if funct3 == 7 {
        Some(a >= b)
    } else {
        None
    }
}

/// Reducing a word to its low part keeps the low bytes.
proof fn lemma_low_part(data: u32)
    by (bit_vector)
    ensures
        (data % 256) % 256 == data % 256,
        (data % 65536) % 256 == data % 256,
        ((data % 65536) / 256) % 256 == (data / 256) % 256,
{
}

/// The low bytes of a word are the bytes of its low part.
proof fn lemma_low_bytes(data: u32)
    ensures
        le_bytes((data % 256) as nat, 1) == le_bytes(data as nat, 1),
        le_bytes((data % 65536) as nat, 2) == le_bytes(data as nat, 2),
{
    lemma_low_part(data);
}

/// An RV32I machine: the program counter, the registers `x1` to `x31` and
/// the memory.
#[derive(Debug)]
pub struct Emulator {
    pub pc: u32,
    pub regs: [u32; 31],
    pub mem: Memory,
}

impl View for Emulator {
    type V = MachineView;

    open spec fn view(&self) -> MachineView {
        MachineView { pc: self.pc, regs: self.regs@, mem: self.mem@ }
    }
}

impl Emulator {
    /// The memory of the machine is consistent.
    pub open spec fn wf(&self) -> bool {
        self.mem.wf()
    }

    /// A machine with `memory_size` bytes of fresh memory, every register
    /// zero and `pc` at zero.
    pub fn new(memory_size: u32) -> (emu: Self)
        ensures
            emu.wf(),
            emu@.wf(),
            emu@.pc == 0,
            emu@.regs == Seq::new(31, |i: int| 0u32),
            emu@.mem.bytes == Seq::new(memory_size as nat, |a: int| 0u8),
            emu@.mem.perms == Seq::new(memory_size as nat, |a: int| 0u8),
            emu@.mem.free == seq![(0u32, memory_size)],
    {
        let emu = Emulator { pc: 0, regs: [0u32; 31], mem: Memory::new(memory_size) };
        proof {
            assert(emu.regs@ =~= Seq::new(31, |i: int| 0u32));
        }
        emu
    }

    /// Writes `val` to `reg`, unless `reg` is `x0`.
    pub fn write_reg(&mut self, reg: Reg, val: u32)
        requires
            reg.valid(),
        ensures
            final(self)@ == (MachineView { regs: set_reg(old(self)@.regs, reg, val), ..old(self)@ }),
            final(self).mem == old(self).mem,
    {
        if reg.0 != 0 {
            self.regs[reg.0 as usize - 1] = val;
        }
    }

    /// The value of `reg`: zero for `x0`.
    pub fn read_reg(&self, reg: Reg) -> (val: u32)
        requires
            reg.valid(),
        ensures
            val == crate::semantics::reg(self@.regs, reg),
    {
        if reg.0 != 0 {
            self.regs[reg.0 as usize - 1]
        } else {
            0
        }
    }

    /// Goes on at `pc` with `value` in `rd`.
    fn proceed(&mut self, pc: u32, rd: Reg, value: u32)
        requires
            rd.valid(),
        ensures
            (final(self)@, None::<EmulatorExit>) == crate::semantics::proceed(
                old(self)@,
                pc,
                rd,
                value,
            ),
            final(self).mem == old(self).mem,
    {
        self.write_reg(rd, value);
        self.pc = pc;
    }

    /// A conditional branch.
    fn step_branch(&mut self, instr: u32) -> (exit: Option<EmulatorExit>)
        ensures
            (final(self)@, exit) == branch_result(old(self)@, instr),
            final(self).mem == old(self).mem,
    {
        let typ = BType::parse(instr);
        match decide(typ.funct3, self.read_reg(typ.rs1), self.read_reg(typ.rs2)) {
            None => Some(EmulatorExit::InvalidInstruction(instr)),
            Some(taken) => {
                if taken {
                    self.pc = add32(self.pc, typ.imm);
                } else {
                    self.pc = add32(self.pc, 4);
                }
                None
            },
        }
    }

    /// A load.
    fn step_load(&mut self, instr: u32) -> (exit: Option<EmulatorExit>)
        requires
            old(self).wf(),
        ensures
            (final(self)@, exit) == load_result(old(self)@, instr),
            final(self).mem == old(self).mem,
    {
        let typ = IType::parse(instr);
        let addr = add32(self.read_reg(typ.rs1), typ.imm);
        let data = if typ.funct3 == 0 {
            self.mem.read_i8(addr, PERM_READ)
        } else if typ.funct3 == 1 {
            self.mem.read_i16(addr, PERM_READ)
        } else if typ.funct3 == 2 {
            self.mem.read_u32(addr, PERM_READ)
        } else if typ.funct3 == 4 {
            self.mem.read_u8(addr, PERM_READ)
        } else if typ.funct3 == 5 {
            self.mem.read_u16(addr, PERM_READ)
        } else {
            return Some(EmulatorExit::InvalidInstruction(instr));
        };
        match data {
            Err(memerr) => Some(EmulatorExit::InvalidMemoryAccess(memerr)),
            Ok(value) => {
                let next = add32(self.pc, 4);
                self.proceed(next, typ.rd, value);
                None
            },
        }
    }

    /// A store.
    fn step_store(&mut self, instr: u32) -> (exit: Option<EmulatorExit>)
        requires
            old(self).wf(),
        ensures
            final(self).wf(),
            (final(self)@, exit) == store_result(old(self)@, instr),
    {
        let typ = SType::parse(instr);
        let addr = add32(self.read_reg(typ.rs1), typ.imm);
        let data = self.read_reg(typ.rs2);
        proof {
            lemma_low_bytes(data);
        }
        let res = if typ.funct3 == 0 {
            self.mem.write_u8(addr, PERM_WRITE, (data % 256) as u8)
        } else if typ.funct3 == 1 {
            self.mem.write_u16(addr, PERM_WRITE, (data % 65536) as u16)
        } else if typ.funct3 == 2 {
            self.mem.write_u32(addr, PERM_WRITE, data)
        } else {
            return Some(EmulatorExit::InvalidInstruction(instr));
        };
        match res {
            Err(memerr) => Some(EmulatorExit::InvalidMemoryAccess(memerr)),
            Ok(()) => {
                self.pc = add32(self.pc, 4);
                None
            },
        }
    }

    /// An operation on a register and an immediate.
    fn step_op_imm(&mut self, instr: u32) -> (exit: Option<EmulatorExit>)
        ensures
            (final(self)@, exit) == op_imm_result(old(self)@, instr),
            final(self).mem == old(self).mem,
    {
        let typ = IType::parse(instr);
        let kind = (typ.imm & 0xfff) >> 5;
        proof {
            lemma_shift_amount(typ.imm);
        }
        if typ.funct3 == 1 && kind != 0 {
            return Some(EmulatorExit::InvalidInstruction(instr));
        }
        if typ.funct3 == 5 && kind != 0 && kind != 0x20 {
            return Some(EmulatorExit::InvalidInstruction(instr));
        }
        let value = compute(
            typ.funct3,
            typ.funct3 == 5 && kind == 0x20,
            self.read_reg(typ.rs1),
            typ.imm,
        );
        let next = add32(self.pc, 4);
        self.proceed(next, typ.rd, value);
        None
    }

    /// An operation on two registers.
    fn step_op(&mut self, instr: u32) -> (exit: Option<EmulatorExit>)
        ensures
            (final(self)@, exit) == op_result(old(self)@, instr),
            final(self).mem == old(self).mem,
    {
        let typ = RType::parse(instr);
        if typ.funct7 == 0 || (typ.funct7 == 0x20 && (typ.funct3 == 0 || typ.funct3 == 5)) {
            let value = compute(
                typ.funct3,
                typ.funct7 == 0x20,
                self.read_reg(typ.rs1),
                self.read_reg(typ.rs2),
            );
            let next = add32(self.pc, 4);
            self.proceed(next, typ.rd, value);
            None
        } else {
            Some(EmulatorExit::InvalidInstruction(instr))
        }
    }

    /// `ECALL` and `EBREAK`.
    fn step_system(&self, instr: u32) -> (exit: Option<EmulatorExit>)
        ensures
            (self@, exit) == system_result(self@, instr),
    {
        let typ = IType::parse(instr);
        if typ.rs1.0 != 0 || typ.rd.0 != 0 || typ.funct3 != 0 {
            Some(EmulatorExit::InvalidInstruction(instr))
        } else if typ.imm == 0 {
            Some(EmulatorExit::Syscall)
        } else if typ.imm == 1 {
            Some(EmulatorExit::Break)
        } else {
            Some(EmulatorExit::InvalidInstruction(instr))
        }
    }

    /// Executes the instruction `instr` at the current `pc`.
    fn execute_word(&mut self, instr: u32) -> (exit: Option<EmulatorExit>)
        requires
            old(self).wf(),
        ensures
            final(self).wf(),
            (final(self)@, exit) == execute(old(self)@, instr),
    {
        let opcode = instr & 0x7f;
        proof {
            law_field_bits(instr);
        }
        let next = add32(self.pc, 4);
        if opcode == 0x37 {
            let typ = UType::parse(instr);
            self.proceed(next, typ.rd, typ.imm);
            None
        } else if opcode == 0x17 {
            let typ = UType::parse(instr);
            let value = add32(self.pc, typ.imm);
            self.proceed(next, typ.rd, value);
            None
        } else if opcode == 0x6f {
            let typ = JType::parse(instr);
            let target = add32(self.pc, typ.imm);
            self.proceed(target, typ.rd, next);
            None
        } else if opcode == 0x67 {
            let typ = IType::parse(instr);
            if typ.funct3 != 0 {
                return Some(EmulatorExit::InvalidInstruction(instr));
            }
            let target = add32(self.read_reg(typ.rs1), typ.imm);
            self.proceed(target, typ.rd, next);
            None
        } else if opcode == 0x63 {
            self.step_branch(instr)
        } else if opcode == 0x03 {
            self.step_load(instr)
        } else if opcode == 0x23 {
            self.step_store(instr)
        } else if opcode == 0x13 {
            self.step_op_imm(instr)
        } else if opcode == 0x33 {
            self.step_op(instr)
        } else if opcode == 0x0f {
            let typ = IType::parse(instr);
            if typ.funct3 != 0 {
                return Some(EmulatorExit::InvalidInstruction(instr));
            }
            self.pc = next;
            None
        } else if opcode == 0x73 {
            self.step_system(instr)
        } else {
            Some(EmulatorExit::InvalidInstruction(instr))
        }
    }

    /// One turn of the interpreter: fetches the word at `pc` with execute
    /// permission and executes it.  Returns the reason for leaving the
    /// interpreter, if the instruction gives one; the machine is then as it
    /// was, with `pc` at that instruction.
    pub fn step(&mut self) -> (exit: Option<EmulatorExit>)
        requires
            old(self).wf(),
        ensures
            final(self).wf(),
            (final(self)@, exit) == step_result(old(self)@),
            fetchable(old(self)@) ==> (final(self)@, exit) == execute(
                old(self)@,
                old(self)@.mem.word_at(old(self)@.pc as int),
            ),
            !fetchable(old(self)@) ==> final(self)@ == old(self)@ && exit is Some && exit->0
                is InvalidMemoryAccess,
    {
        proof {
            reveal(step_result);
            law_fetch(self@);
        }
        match self.mem.read_u32(self.pc, PERM_EXEC) {
            Err(memerr) => Some(EmulatorExit::InvalidMemoryAccess(memerr)),
            Ok(instr) => self.execute_word(instr),
        }
    }

    /// Runs the interpreter for at most `fuel` instructions.  Returns the
    /// reason for leaving it, or `None` when `fuel` instructions were
    /// executed and none of them left it.
    pub fn run(&mut self, fuel: u64) -> (exit: Option<EmulatorExit>)
        requires
            old(self).wf(),
        ensures
            final(self).wf(),
            (final(self)@, exit) == run_result(old(self)@, fuel as nat),
    {
        let ghost start = self@;
        let mut left = fuel;
        while left > 0
            invariant
                self.wf(),
                start == old(self)@,
                run_result(start, fuel as nat) == run_result(self@, left as nat),
            decreases left,
        {
            let ghost before = self@;
            let exit = self.step();
            proof {
                assert(step_result(before) == (self@, exit));
                assert(run_result(before, left as nat) == if exit is Some {
                    (self@, exit)
                } else {
                    run_result(self@, (left - 1) as nat)
                });
            }
            if exit.is_some() {
                return exit;
            }
            left = left - 1;
        }
        None
    }
}

} // verus!
