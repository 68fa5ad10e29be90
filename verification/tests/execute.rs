use rv::emulator::Emulator;
use rv::instructions::Reg;
use rv::memory::{MemoryError, PERM_EXEC, PERM_RAW, PERM_READ, PERM_WRITE};
use rv::semantics::EmulatorExit;

const BASE: u32 = 0x10000;

fn enc_r(funct7: u32, rs2: u32, rs1: u32, funct3: u32, rd: u32, opcode: u32) -> u32 {
    (funct7 << 25) | (rs2 << 20) | (rs1 << 15) | (funct3 << 12) | (rd << 7) | opcode
}

fn enc_i(imm: i32, rs1: u32, funct3: u32, rd: u32, opcode: u32) -> u32 {
    (((imm as u32) & 0xfff) << 20) | (rs1 << 15) | (funct3 << 12) | (rd << 7) | opcode
}

fn enc_s(imm: i32, rs2: u32, rs1: u32, funct3: u32) -> u32 {
    let imm = imm as u32;
    (((imm >> 5) & 0x7f) << 25) | (rs2 << 20) | (rs1 << 15) | (funct3 << 12) | ((imm & 0x1f) << 7)
        | 0x23
}

fn enc_b(imm: i32, rs2: u32, rs1: u32, funct3: u32) -> u32 {
    let imm = imm as u32;
    (((imm >> 12) & 1) << 31) | (((imm >> 5) & 0x3f) << 25) | (rs2 << 20) | (rs1 << 15)
        | (funct3 << 12) | (((imm >> 1) & 0xf) << 8) | (((imm >> 11) & 1) << 7) | 0x63
}

fn enc_u(imm: u32, rd: u32, opcode: u32) -> u32 {
    (imm & 0xffff_f000) | (rd << 7) | opcode
}

fn enc_j(imm: i32, rd: u32) -> u32 {
    let imm = imm as u32;
    (((imm >> 20) & 1) << 31) | (((imm >> 1) & 0x3ff) << 21) | (((imm >> 11) & 1) << 20)
        | (((imm >> 12) & 0xff) << 12) | (rd << 7) | 0x6f
}

/// A machine with `code` at `BASE` (readable and executable) and 256 bytes of
/// readable and writable data at `BASE + 0x1000`.
fn machine(code: &[u32]) -> Emulator {
    let mut emu = Emulator::new(0x20000);
    let mut at = BASE;
    for word in code {
        emu.mem.write_u32(at, 0, *word).unwrap();
        at += 4;
    }
    emu.mem.set_permissions(BASE..at, PERM_READ | PERM_EXEC).unwrap();
    emu.mem.set_permissions(BASE + 0x1000..BASE + 0x1100, PERM_READ | PERM_WRITE).unwrap();
    emu.pc = BASE;
    emu
}

/// The value of `x7` after the register operation with `x5 = a`, `x6 = b`.
fn op(funct7: u32, funct3: u32, a: u32, b: u32) -> u32 {
    let mut emu = machine(&[enc_r(funct7, 6, 5, funct3, 7, 0x33)]);
    emu.write_reg(Reg(5), a);
    emu.write_reg(Reg(6), b);
    assert_eq!(emu.step(), None);
    assert_eq!(emu.pc, BASE + 4);
    assert_eq!(emu.read_reg(Reg(5)), a);
    assert_eq!(emu.read_reg(Reg(6)), b);
    emu.read_reg(Reg(7))
}

/// The value of `x7` after the immediate operation with `x5 = a`.
fn op_imm(funct3: u32, a: u32, imm: i32) -> u32 {
    let mut emu = machine(&[enc_i(imm, 5, funct3, 7, 0x13)]);
    emu.write_reg(Reg(5), a);
    assert_eq!(emu.step(), None);
    assert_eq!(emu.pc, BASE + 4);
    emu.read_reg(Reg(7))
}

/// Whether the branch with `x5 = a`, `x6 = b` is taken.
fn branch(funct3: u32, a: u32, b: u32) -> bool {
    let mut emu = machine(&[enc_b(16, 6, 5, funct3)]);
    emu.write_reg(Reg(5), a);
    emu.write_reg(Reg(6), b);
    assert_eq!(emu.step(), None);
    assert!(emu.pc == BASE + 16 || emu.pc == BASE + 4);
    emu.pc == BASE + 16
}

#[test]
fn new_machine_is_blank() {
    let emu = Emulator::new(4096);
    assert_eq!(emu.pc, 0);
    assert_eq!(emu.regs, [0u32; 31]);
    assert_eq!(emu.mem.size(), 4096);
    for n in 0..32 {
        assert_eq!(emu.read_reg(Reg(n)), 0);
    }
}

#[test]
fn registers_hold_what_is_written() {
    let mut emu = Emulator::new(16);
    for n in 1..32u8 {
        emu.write_reg(Reg(n), 1000 + n as u32);
    }
    for n in 1..32u8 {
        assert_eq!(emu.read_reg(Reg(n)), 1000 + n as u32);
        assert_eq!(emu.regs[n as usize - 1], 1000 + n as u32);
    }
}

#[test]
fn x0_reads_zero_and_discards_writes() {
    let mut emu = Emulator::new(16);
    emu.write_reg(Reg(1), 11);
    let before = emu.regs;
    emu.write_reg(Reg(0), 0xdead_beef);
    assert_eq!(emu.read_reg(Reg(0)), 0);
    assert_eq!(emu.regs, before);
}

#[test]
fn instructions_with_rd_zero_leave_registers_alone() {
    let code = [
        enc_u(0xfffff000, 0, 0x37),
        enc_u(0xfffff000, 0, 0x17),
        enc_i(-1, 5, 0, 0, 0x13),
        enc_r(0, 6, 5, 0, 0, 0x33),
        enc_r(0x20, 6, 5, 5, 0, 0x33),
        enc_i(0, 8, 2, 0, 0x03),
        enc_j(8, 0),
        0,
        enc_i(4, 9, 0, 0, 0x67),
    ];
    let mut emu = machine(&code);
    emu.write_reg(Reg(5), 123);
    emu.write_reg(Reg(6), 456);
    emu.write_reg(Reg(8), BASE + 0x1000);
    emu.write_reg(Reg(9), BASE + 0x40);
    let before = emu.regs;
    for _ in 0..8 {
        assert_eq!(emu.step(), None);
        assert_eq!(emu.regs, before);
    }
    assert_eq!(emu.pc, BASE + 0x44);
}

#[test]
fn lui_loads_the_upper_immediate() {
    let mut emu = machine(&[enc_u(0x11000, 10, 0x37)]);
    assert_eq!(emu.step(), None);
    assert_eq!(emu.read_reg(Reg(10)), 0x11000);
    assert_eq!(emu.pc, BASE + 4);
}

#[test]
fn auipc_adds_pc() {
    let mut emu = machine(&[0x13, enc_u(0x2000, 10, 0x17), enc_u(0xffff_f000, 11, 0x17)]);
    assert_eq!(emu.step(), None);
    assert_eq!(emu.step(), None);
    assert_eq!(emu.read_reg(Reg(10)), BASE + 4 + 0x2000);
    assert_eq!(emu.step(), None);
    assert_eq!(emu.read_reg(Reg(11)), BASE + 8 - 0x1000);
}

#[test]
fn jal_links_and_jumps() {
    let mut emu = machine(&[enc_j(8, 1), 0, enc_j(-8, 2)]);
    assert_eq!(emu.step(), None);
    assert_eq!(emu.pc, BASE + 8);
    assert_eq!(emu.read_reg(Reg(1)), BASE + 4);
    assert_eq!(emu.step(), None);
    assert_eq!(emu.pc, BASE);
    assert_eq!(emu.read_reg(Reg(2)), BASE + 12);
}

#[test]
fn jalr_links_and_jumps() {
    let mut emu = machine(&[enc_i(-4, 5, 0, 1, 0x67)]);
    emu.write_reg(Reg(5), BASE + 0x104);
    assert_eq!(emu.step(), None);
    assert_eq!(emu.pc, BASE + 0x100);
    assert_eq!(emu.read_reg(Reg(1)), BASE + 4);
}

#[test]
fn jalr_through_its_own_destination() {
    let mut emu = machine(&[enc_i(8, 1, 0, 1, 0x67)]);
    emu.write_reg(Reg(1), 0x4000);
    assert_eq!(emu.step(), None);
    assert_eq!(emu.pc, 0x4008);
    assert_eq!(emu.read_reg(Reg(1)), BASE + 4);
}

#[test]
fn jalr_with_funct3_is_invalid() {
    let word = enc_i(0, 5, 1, 1, 0x67);
    let mut emu = machine(&[word]);
    assert_eq!(emu.step(), Some(EmulatorExit::InvalidInstruction(word)));
    assert_eq!(emu.pc, BASE);
    assert_eq!(emu.read_reg(Reg(1)), 0);
}

#[test]
fn beq_taken() {
    let mut emu = machine(&[enc_b(8, 6, 5, 0)]);
    assert_eq!(enc_b(8, 6, 5, 0), 0x00628463);
    emu.write_reg(Reg(5), 7);
    emu.write_reg(Reg(6), 7);
    assert_eq!(emu.pc, 0x10000);
    assert_eq!(emu.step(), None);
    assert_eq!(emu.pc, 0x10008);
}

#[test]
fn beq_not_taken() {
    let mut emu = machine(&[enc_b(8, 6, 5, 0)]);
    emu.write_reg(Reg(5), 7);
    emu.write_reg(Reg(6), 8);
    assert_eq!(emu.step(), None);
    assert_eq!(emu.pc, 0x10004);
}

#[test]
fn branch_backwards() {
    let mut emu = machine(&[0x13, 0x13, enc_b(-8, 0, 0, 0)]);
    emu.pc = BASE + 8;
    assert_eq!(emu.step(), None);
    assert_eq!(emu.pc, BASE);
}

#[test]
fn branch_conditions() {
    let neg = 0xffff_ffffu32;
    assert!(branch(0, 5, 5) && !branch(0, 5, 6));
    assert!(!branch(1, 5, 5) && branch(1, 5, 6));
    assert!(branch(4, neg, 1) && !branch(4, 1, neg) && !branch(4, 3, 3));
    assert!(!branch(5, neg, 1) && branch(5, 1, neg) && branch(5, 3, 3));
    assert!(!branch(6, neg, 1) && branch(6, 1, neg) && !branch(6, 3, 3));
    assert!(branch(7, neg, 1) && !branch(7, 1, neg) && branch(7, 3, 3));
}

#[test]
fn bgeu_adds_the_offset_once() {
    let mut emu = machine(&[enc_b(16, 6, 5, 7)]);
    emu.write_reg(Reg(5), 9);
    emu.write_reg(Reg(6), 3);
    assert_eq!(emu.step(), None);
    assert_eq!(emu.pc, BASE + 16);
}

#[test]
fn unknown_branch_is_invalid() {
    for funct3 in [2, 3] {
        let word = enc_b(8, 6, 5, funct3);
        let mut emu = machine(&[word]);
        assert_eq!(emu.step(), Some(EmulatorExit::InvalidInstruction(word)));
        assert_eq!(emu.pc, BASE);
    }
}

#[test]
fn add_wraps() {
    assert_eq!(op(0, 0, 0xffff_ffff, 1), 0);
    assert_eq!(op(0, 0, 0x8000_0000, 0x8000_0000), 0);
    assert_eq!(op(0, 0, 2, 3), 5);
}

#[test]
fn sub_wraps() {
    assert_eq!(op(0x20, 0, 0, 1), 0xffff_ffff);
    assert_eq!(op(0x20, 0, 10, 3), 7);
    assert_eq!(op(0x20, 0, 3, 10), 0xffff_fff9);
}

#[test]
fn addi_wraps() {
    // x5 = 0xFFFFFFFF; addi x6, x5, 1
    let mut emu = machine(&[enc_i(1, 5, 0, 6, 0x13)]);
    emu.write_reg(Reg(5), 0xffff_ffff);
    assert_eq!(emu.step(), None);
    assert_eq!(emu.read_reg(Reg(6)), 0);
    assert_eq!(op_imm(0, 5, -7), 0xffff_fffe);
    assert_eq!(op_imm(0, 0, 2047), 2047);
    assert_eq!(op_imm(0, 0, -2048), 0xffff_f800);
}

#[test]
fn srai_keeps_the_sign() {
    // x5 = 0x80000000; srai x6, x5, 1
    let mut emu = machine(&[enc_i(0x400 | 1, 5, 5, 6, 0x13)]);
    emu.write_reg(Reg(5), 0x8000_0000);
    assert_eq!(emu.step(), None);
    assert_eq!(emu.read_reg(Reg(6)), 0xc000_0000);
    assert_eq!(op_imm(5, 0x8000_0000, 0x400 | 31), 0xffff_ffff);
    assert_eq!(op_imm(5, 0x4000_0000, 0x400 | 30), 1);
    assert_eq!(op_imm(5, 0xffff_fff0, 0x400), 0xffff_fff0);
}

#[test]
fn shifts_by_immediate() {
    assert_eq!(op_imm(1, 1, 31), 0x8000_0000);
    assert_eq!(op_imm(1, 0xffff_ffff, 4), 0xffff_fff0);
    assert_eq!(op_imm(5, 0x8000_0000, 1), 0x4000_0000);
    assert_eq!(op_imm(5, 0x8000_0000, 31), 1);
    assert_eq!(op_imm(1, 0x1234, 0), 0x1234);
}

#[test]
fn shifts_by_immediate_reject_other_upper_bits() {
    for (funct3, imm) in [(1, 0x20), (1, 0x400), (1, 0x7e0), (5, 0x20), (5, 0x420), (5, -32)] {
        let word = enc_i(imm, 5, funct3, 6, 0x13);
        let mut emu = machine(&[word]);
        emu.write_reg(Reg(5), 0xff);
        assert_eq!(emu.step(), Some(EmulatorExit::InvalidInstruction(word)));
        assert_eq!(emu.pc, BASE);
        assert_eq!(emu.read_reg(Reg(6)), 0);
    }
}

#[test]
fn register_shifts_use_five_bits() {
    for (a, b) in [(0x8000_0001u32, 1u32), (0xdead_beef, 13), (1, 31), (0xffff_ffff, 0)] {
        for high in [0u32, 32, 64, 0xffff_ffe0, 0x8000_0000] {
            assert_eq!(op(0, 1, a, b | high), a << b);
            assert_eq!(op(0, 5, a, b | high), a >> b);
            assert_eq!(op(0x20, 5, a, b | high), ((a as i32) >> b) as u32);
        }
    }
    assert_eq!(op(0, 1, 1, 32), 1);
    assert_eq!(op(0, 5, 0x8000_0000, 33), 0x4000_0000);
    assert_eq!(op(0x20, 5, 0x8000_0000, 33), 0xc000_0000);
}

#[test]
fn slt_is_signed_and_sltu_is_not() {
    assert_eq!(op(0, 2, 0xffff_ffff, 1), 1);
    assert_eq!(op(0, 3, 0xffff_ffff, 1), 0);
    assert_eq!(op(0, 2, 1, 0xffff_ffff), 0);
    assert_eq!(op(0, 3, 1, 0xffff_ffff), 1);
    assert_eq!(op(0, 2, 4, 4), 0);
    assert_eq!(op(0, 3, 4, 4), 0);
    assert_eq!(op(0, 2, 0x8000_0000, 0x7fff_ffff), 1);
}

#[test]
fn slti_and_sltiu() {
    assert_eq!(op_imm(2, 0xffff_fffe, -1), 1);
    assert_eq!(op_imm(2, 5, -1), 0);
    assert_eq!(op_imm(2, 5, 6), 1);
    assert_eq!(op_imm(3, 5, -1), 1);
    assert_eq!(op_imm(3, 0xffff_ffff, -1), 0);
    assert_eq!(op_imm(3, 0, 1), 1);
}

#[test]
fn bitwise_operations() {
    assert_eq!(op(0, 4, 0b1100, 0b1010), 0b0110);
    assert_eq!(op(0, 6, 0b1100, 0b1010), 0b1110);
    assert_eq!(op(0, 7, 0b1100, 0b1010), 0b1000);
    assert_eq!(op_imm(4, 0xff, -1), 0xffff_ff00);
    assert_eq!(op_imm(6, 0xf000, 0x0f), 0xf00f);
    assert_eq!(op_imm(7, 0xffff_ffff, 0x7f0), 0x7f0);
}

#[test]
fn register_operations_reject_other_funct7() {
    for (funct7, funct3) in [(1, 0), (0x20, 1), (0x20, 7), (0x40, 0), (0x21, 5), (0x20, 2)] {
        let word = enc_r(funct7, 6, 5, funct3, 7, 0x33);
        let mut emu = machine(&[word]);
        emu.write_reg(Reg(5), 1);
        assert_eq!(emu.step(), Some(EmulatorExit::InvalidInstruction(word)));
        assert_eq!(emu.pc, BASE);
        assert_eq!(emu.read_reg(Reg(7)), 0);
    }
}

#[test]
fn loads_extend() {
    let data = BASE + 0x1000;
    let mut emu = machine(&[
        enc_i(0, 8, 0, 10, 0x03),
        enc_i(0, 8, 4, 11, 0x03),
        enc_i(0, 8, 1, 12, 0x03),
        enc_i(0, 8, 5, 13, 0x03),
        enc_i(0, 8, 2, 14, 0x03),
        enc_i(-4, 9, 2, 15, 0x03),
    ]);
    emu.mem.write(data, 0, &[0x80, 0x90, 0xa0, 0xb0]).unwrap();
    emu.write_reg(Reg(8), data);
    emu.write_reg(Reg(9), data + 4);
    for _ in 0..6 {
        assert_eq!(emu.step(), None);
    }
    assert_eq!(emu.read_reg(Reg(10)), 0xffff_ff80);
    assert_eq!(emu.read_reg(Reg(11)), 0x0000_0080);
    assert_eq!(emu.read_reg(Reg(12)), 0xffff_9080);
    assert_eq!(emu.read_reg(Reg(13)), 0x0000_9080);
    assert_eq!(emu.read_reg(Reg(14)), 0xb0a0_9080);
    assert_eq!(emu.read_reg(Reg(15)), 0xb0a0_9080);
    assert_eq!(emu.pc, BASE + 24);
}

#[test]
fn unknown_load_is_invalid() {
    for funct3 in [3, 6, 7] {
        let word = enc_i(0, 8, funct3, 10, 0x03);
        let mut emu = machine(&[word]);
        emu.write_reg(Reg(8), BASE + 0x1000);
        assert_eq!(emu.step(), Some(EmulatorExit::InvalidInstruction(word)));
        assert_eq!(emu.pc, BASE);
    }
}

#[test]
fn stores_write_the_low_bytes() {
    let data = BASE + 0x1000;
    let mut emu = machine(&[enc_s(0, 6, 8, 2), enc_s(4, 6, 8, 1), enc_s(8, 6, 8, 0), enc_s(-4, 6, 9, 0)]);
    emu.write_reg(Reg(6), 0xdead_beef);
    emu.write_reg(Reg(8), data);
    emu.write_reg(Reg(9), data + 16);
    for _ in 0..4 {
        assert_eq!(emu.step(), None);
    }
    assert_eq!(
        emu.mem.read(data..data + 16, 0).map(|b| b.to_vec()),
        Ok(vec![0xef, 0xbe, 0xad, 0xde, 0xef, 0xbe, 0, 0, 0xef, 0, 0, 0, 0xef, 0, 0, 0])
    );
    assert_eq!(emu.pc, BASE + 16);
}

#[test]
fn store_address_wraps() {
    let data = BASE + 0x1000;
    let mut emu = machine(&[enc_s(-16, 6, 8, 2), enc_s(16, 6, 9, 2)]);
    emu.write_reg(Reg(6), 0x0102_0304);
    emu.write_reg(Reg(8), data + 16);
    emu.write_reg(Reg(9), 0xffff_fff0u32.wrapping_add(data));
    assert_eq!(emu.step(), None);
    assert_eq!(emu.mem.read_u32(data, 0), Ok(0x0102_0304));
    emu.mem.write_u32(data, 0, 0).unwrap();
    assert_eq!(emu.step(), None);
    assert_eq!(emu.mem.read_u32(data, 0), Ok(0x0102_0304));
}

#[test]
fn unknown_store_is_invalid() {
    for funct3 in [3, 4, 7] {
        let word = enc_s(0, 6, 8, funct3);
        let mut emu = machine(&[word]);
        emu.write_reg(Reg(8), BASE + 0x1000);
        assert_eq!(emu.step(), Some(EmulatorExit::InvalidInstruction(word)));
        assert_eq!(emu.pc, BASE);
        assert_eq!(emu.mem.read_u32(BASE + 0x1000, 0), Ok(0));
    }
}

#[test]
fn store_without_permission_exits() {
    let mut emu = machine(&[enc_s(0, 6, 8, 2)]);
    emu.write_reg(Reg(8), BASE);
    emu.write_reg(Reg(6), 7);
    assert_eq!(
        emu.step(),
        Some(EmulatorExit::InvalidMemoryAccess(MemoryError::BadPermissions {
            addr: BASE..BASE + 1,
            access: PERM_WRITE,
            perms: PERM_READ | PERM_EXEC
        }))
    );
    assert_eq!(emu.pc, BASE);
    assert_eq!(emu.mem.read_u32(BASE, 0), Ok(enc_s(0, 6, 8, 2)));
}

#[test]
fn load_out_of_bounds_exits() {
    let mut emu = machine(&[enc_i(0, 8, 2, 10, 0x03)]);
    emu.write_reg(Reg(8), 0x1fffe);
    assert_eq!(
        emu.step(),
        Some(EmulatorExit::InvalidMemoryAccess(MemoryError::OutOfBounds { addr: 0x1fffe..0x20002 }))
    );
    assert_eq!(emu.pc, BASE);
    assert_eq!(emu.read_reg(Reg(10)), 0);
}

#[test]
fn load_from_fresh_heap_traps() {
    let mut emu = machine(&[enc_i(0, 8, 2, 10, 0x03), enc_s(0, 6, 8, 2), enc_i(0, 8, 2, 10, 0x03)]);
    let (heap, _) = emu.mem.allocate(0x1000, PERM_RAW | PERM_WRITE).unwrap();
    emu.write_reg(Reg(8), heap);
    emu.write_reg(Reg(6), 0x55aa);
    assert_eq!(
        emu.step(),
        Some(EmulatorExit::InvalidMemoryAccess(MemoryError::BadPermissions {
            addr: heap..heap + 1,
            access: PERM_READ,
            perms: PERM_RAW | PERM_WRITE
        }))
    );
    assert_eq!(emu.pc, BASE);
    emu.pc = BASE + 4;
    assert_eq!(emu.step(), None);
    assert_eq!(emu.step(), None);
    assert_eq!(emu.read_reg(Reg(10)), 0x55aa);
}

#[test]
fn fetch_needs_exec_permission() {
    let mut emu = machine(&[0x13]);
    emu.mem.set_permissions(BASE..BASE + 4, PERM_READ | PERM_WRITE).unwrap();
    assert_eq!(
        emu.step(),
        Some(EmulatorExit::InvalidMemoryAccess(MemoryError::BadPermissions {
            addr: BASE..BASE + 1,
            access: PERM_EXEC,
            perms: PERM_READ | PERM_WRITE
        }))
    );
    assert_eq!(emu.pc, BASE);
}

#[test]
fn fetch_out_of_bounds_exits() {
    let mut emu = Emulator::new(64);
    emu.pc = 62;
    assert_eq!(
        emu.step(),
        Some(EmulatorExit::InvalidMemoryAccess(MemoryError::OutOfBounds { addr: 62..66 }))
    );
    emu.pc = 0xffff_fffe;
    assert_eq!(
        emu.step(),
        Some(EmulatorExit::InvalidMemoryAccess(MemoryError::OutOfBounds {
            addr: 0xffff_fffe..u32::MAX
        }))
    );
}

#[test]
fn fence_is_a_no_op() {
    let mut emu = machine(&[0x0ff0000f]);
    let before = emu.regs;
    assert_eq!(emu.step(), None);
    assert_eq!(emu.pc, BASE + 4);
    assert_eq!(emu.regs, before);
    let word = 0x0000100f;
    let mut emu = machine(&[word]);
    assert_eq!(emu.step(), Some(EmulatorExit::InvalidInstruction(word)));
}

#[test]
fn ecall_and_ebreak_exit() {
    let mut emu = machine(&[0x00000073, 0x00100073]);
    assert_eq!(emu.step(), Some(EmulatorExit::Syscall));
    assert_eq!(emu.pc, BASE);
    emu.pc = BASE + 4;
    assert_eq!(emu.step(), Some(EmulatorExit::Break));
    assert_eq!(emu.pc, BASE + 4);
}

#[test]
fn malformed_system_instructions_are_invalid() {
    for word in [0x00200073u32, 0x00008073, 0x000000f3, 0x00001073, 0xfff00073] {
        let mut emu = machine(&[word]);
        assert_eq!(emu.step(), Some(EmulatorExit::InvalidInstruction(word)));
        assert_eq!(emu.pc, BASE);
    }
}

#[test]
fn unknown_opcodes_are_invalid() {
    for word in [0u32, 0xffff_ffff, 0x0000_007f, 0x0000_0053, 0x0000_002f, 0x0000_0001] {
        let mut emu = machine(&[word]);
        assert_eq!(emu.step(), Some(EmulatorExit::InvalidInstruction(word)));
        assert_eq!(emu.pc, BASE);
    }
}

#[test]
fn run_stops_at_the_first_exit() {
    // lui a0, 0x11; addi a7, zero, 93; ecall
    let mut emu = machine(&[0x00011537, 0x05d00893, 0x00000073]);
    assert_eq!(emu.run(1000), Some(EmulatorExit::Syscall));
    assert_eq!(emu.pc, BASE + 8);
    assert_eq!(emu.read_reg(Reg(10)), 0x11000);
    assert_eq!(emu.read_reg(Reg(17)), 93);
    assert_eq!(emu.run(1000), Some(EmulatorExit::Syscall));
    assert_eq!(emu.pc, BASE + 8);
}

#[test]
fn run_stops_when_fuel_is_spent() {
    // loop: addi x5, x5, 1; jal x0, loop
    let mut emu = machine(&[enc_i(1, 5, 0, 5, 0x13), enc_j(-4, 0)]);
    assert_eq!(emu.run(0), None);
    assert_eq!(emu.pc, BASE);
    assert_eq!(emu.run(7), None);
    assert_eq!(emu.read_reg(Reg(5)), 4);
    assert_eq!(emu.pc, BASE + 4);
    assert_eq!(emu.run(1), None);
    assert_eq!(emu.pc, BASE);
}

#[test]
fn pc_wraps_at_the_top() {
    let mut emu = machine(&[enc_j(-0x10004, 1)]);
    assert_eq!(emu.step(), None);
    assert_eq!(emu.pc, 0xffff_fffc);
    assert_eq!(emu.read_reg(Reg(1)), BASE + 4);
}
