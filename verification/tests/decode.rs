use rv::instructions::{BType, IType, JType, RType, Reg, SType, UType};

#[test]
fn register_names() {
    let numeric = [
        "x0", "x1", "x2", "x3", "x4", "x5", "x6", "x7", "x8", "x9", "x10", "x11", "x12", "x13",
        "x14", "x15", "x16", "x17", "x18", "x19", "x20", "x21", "x22", "x23", "x24", "x25", "x26",
        "x27", "x28", "x29", "x30", "x31",
    ];
    let abi = [
        "zero", "ra", "sp", "gp", "tp", "t0", "t1", "t2", "s0", "s1", "a0", "a1", "a2", "a3", "a4",
        "a5", "a6", "a7", "s2", "s3", "s4", "s5", "s6", "s7", "s8", "s9", "s10", "s11", "t3", "t4",
        "t5", "t6",
    ];
    for n in 0..32u8 {
        assert_eq!(Reg(n).name(), numeric[n as usize]);
        assert_eq!(Reg(n).name(), format!("x{}", n));
        assert_eq!(Reg(n).abi_name(), abi[n as usize]);
    }
}

#[test]
fn parse_lui() {
    // lui a0, 0x11
    let t = UType::parse(0x00011537);
    assert_eq!(t, UType { imm: 0x11000, rd: Reg(10) });
}

#[test]
fn parse_u_keeps_upper_bits_only() {
    let t = UType::parse(0xffff_ffff);
    assert_eq!(t, UType { imm: 0xffff_f000, rd: Reg(31) });
    let t = UType::parse(0x8000_0fb7);
    assert_eq!(t, UType { imm: 0x8000_0000, rd: Reg(31) });
}

#[test]
fn parse_addi() {
    // addi a7, zero, 93
    let t = IType::parse(0x05d00893);
    assert_eq!(t, IType { imm: 93, rs1: Reg(0), funct3: 0, rd: Reg(17) });
}

#[test]
fn parse_i_sign_extends() {
    // addi x6, x5, -1
    let t = IType::parse(0xfff28313);
    assert_eq!(t, IType { imm: 0xffff_ffff, rs1: Reg(5), funct3: 0, rd: Reg(6) });
    // addi x1, x2, -2048
    let t = IType::parse(0x80010093);
    assert_eq!(t, IType { imm: 0xffff_f800, rs1: Reg(2), funct3: 0, rd: Reg(1) });
    // addi x1, x2, 2047
    let t = IType::parse(0x7ff10093);
    assert_eq!(t, IType { imm: 0x7ff, rs1: Reg(2), funct3: 0, rd: Reg(1) });
}

#[test]
fn parse_i_is_arithmetic_shift() {
    for word in [0u32, 0x8000_0000, 0x7ff0_0000, 0xfff0_0000, 0x0010_0000, 0xdead_beef] {
        assert_eq!(IType::parse(word).imm, ((word as i32) >> 20) as u32);
    }
}

#[test]
fn parse_store() {
    // sw x6, 8(x5)
    let t = SType::parse(0x0062a423);
    assert_eq!(t, SType { imm: 8, rs2: Reg(6), rs1: Reg(5), funct3: 2 });
    // sw x6, -4(x5)
    let t = SType::parse(0xfe62ae23);
    assert_eq!(t, SType { imm: 0xffff_fffc, rs2: Reg(6), rs1: Reg(5), funct3: 2 });
}

#[test]
fn parse_branch() {
    // beq x5, x6, +8
    let t = BType::parse(0x00628463);
    assert_eq!(t, BType { imm: 8, rs2: Reg(6), rs1: Reg(5), funct3: 0 });
    // bne x5, x6, -8
    let t = BType::parse(0xfe629ce3);
    assert_eq!(t, BType { imm: 0xffff_fff8, rs2: Reg(6), rs1: Reg(5), funct3: 1 });
    // beq x0, x0, +2048 (imm[11] comes from bit 7)
    let t = BType::parse(0x00000063 | (1 << 7));
    assert_eq!(t.imm, 0x800);
    // largest forward branch: +4094
    let t = BType::parse(0x7e000fe3);
    assert_eq!(t.imm, 4094);
}

#[test]
fn parse_jal() {
    // jal ra, +16
    let t = JType::parse(0x010000ef);
    assert_eq!(t, JType { imm: 16, rd: Reg(1) });
    // jal x0, -8
    let t = JType::parse(0xff9ff06f);
    assert_eq!(t, JType { imm: 0xffff_fff8, rd: Reg(0) });
    // jal x0, +0x800 (imm[11] comes from bit 20)
    let t = JType::parse(0x0010006f);
    assert_eq!(t.imm, 0x800);
    // jal x0, +0xff000 (imm[19:12] stay in place)
    let t = JType::parse(0x000ff06f);
    assert_eq!(t.imm, 0xff000);
}

#[test]
fn parse_r() {
    // sub x7, x5, x6
    let t = RType::parse(0x406283b3);
    assert_eq!(t, RType { funct7: 0x20, rs2: Reg(6), rs1: Reg(5), funct3: 0, rd: Reg(7) });
    // and x31, x31, x31
    let t = RType::parse(0x01ffffb3);
    assert_eq!(t, RType { funct7: 0, rs2: Reg(31), rs1: Reg(31), funct3: 7, rd: Reg(31) });
}

#[test]
fn sign_bit_fills_the_upper_bits() {
    let words = [
        0u32, 0xffff_ffff, 0x8000_0000, 0x7fff_ffff, 0x8000_0080, 0x0010_0000, 0x8010_0000,
        0xdead_beef, 0x1234_5678, 0x0000_0f80, 0xfe00_0000, 0x7e00_0f80,
    ];
    for word in words {
        let set = word & 0x8000_0000 != 0;
        let fill = |mask: u32| if set { mask } else { 0 };
        assert_eq!(IType::parse(word).imm & 0xffff_f800, fill(0xffff_f800));
        assert_eq!(SType::parse(word).imm & 0xffff_f800, fill(0xffff_f800));
        assert_eq!(BType::parse(word).imm & 0xffff_f000, fill(0xffff_f000));
        assert_eq!(JType::parse(word).imm & 0xfff0_0000, fill(0xfff0_0000));
        assert_eq!(BType::parse(word).imm & 1, 0);
        assert_eq!(JType::parse(word).imm & 1, 0);
        assert_eq!(UType::parse(word).imm & 0xfff, 0);
    }
}

#[test]
fn fields_are_projections() {
    let word = 0b1010101_10101_01010_101_11011_0110011u32;
    let t = RType::parse(word);
    assert_eq!(t.funct7, 0b1010101);
    assert_eq!(t.rs2, Reg(0b10101));
    assert_eq!(t.rs1, Reg(0b01010));
    assert_eq!(t.funct3, 0b101);
    assert_eq!(t.rd, Reg(0b11011));
}
