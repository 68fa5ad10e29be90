use rv::disassemble::{disassemble, disassemble_one};

fn line(addr: u32, word: u32, abi: bool) -> String {
    disassemble_one(addr, word, abi).unwrap()
}

#[test]
fn upper_immediates() {
    assert_eq!(line(0, 0x00011537, true), "lui a0, imm=0x011000");
    assert_eq!(line(0, 0x00011537, false), "lui x10, imm=0x011000");
    assert_eq!(line(0, 0xfffff517, false), "auipc x10, imm=0xfffff000");
    assert_eq!(line(0, 0x00000097, true), "auipc ra, imm=0x000000");
}

#[test]
fn jumps() {
    assert_eq!(line(0x10000, 0x010000ef, true), "jal ra, rel=16, abs=0x010010");
    assert_eq!(line(0x10000, 0xff9ff06f, false), "jal x0, rel=4294967288, abs=0x00fff8");
    assert_eq!(line(0, 0xff9ff06f, false), "jal x0, rel=4294967288, abs=0xfffffff8");
    assert_eq!(line(0, 0x00008067, true), "jalr zero, ra, rel=0");
    assert_eq!(line(0, 0xffc28067, false), "jalr x0, x5, rel=-4");
    assert_eq!(disassemble_one(0, 0x00009067, false), None);
}

#[test]
fn branches() {
    assert_eq!(line(0x10000, 0x00628463, false), "beq x5, x6, rel=8, abs=0x010008");
    assert_eq!(line(0x10000, 0xfe629ce3, true), "bne t0, t1, rel=4294967288, abs=0x00fff8");
    assert_eq!(line(0x10000, 0x0062c463, false), "blt x5, x6, rel=8, abs=0x010008");
    assert_eq!(line(0x10000, 0x0062d463, false), "bge x5, x6, rel=8, abs=0x010008");
    assert_eq!(line(0x10000, 0x0062e463, false), "bltu x5, x6, rel=8, abs=0x010008");
    assert_eq!(line(0x10000, 0xfe62ece3, false), "bltu x5, x6, rel=-8, abs=0x00fff8");
    assert_eq!(line(0x10000, 0x0062f463, false), "bgeu x5, x6, rel=8, abs=0x010008");
    assert_eq!(disassemble_one(0, 0x0062a463, false), None);
    assert_eq!(disassemble_one(0, 0x0062b463, false), None);
}

#[test]
fn loads_and_stores() {
    assert_eq!(line(0, 0x00040503, true), "lb a0, s0, rel=0");
    assert_eq!(line(0, 0xffc41503, true), "lh a0, s0, rel=-4");
    assert_eq!(line(0, 0x7ff42503, true), "lw a0, s0, rel=2047");
    assert_eq!(line(0, 0x80044503, true), "lbu a0, s0, rel=-2048");
    assert_eq!(line(0, 0x00445503, false), "lhu x10, x8, rel=4");
    assert_eq!(disassemble_one(0, 0x00043503, true), None);
    assert_eq!(line(0, 0x00640023, false), "sb x6, x8, rel=0");
    assert_eq!(line(0, 0x00641223, false), "sh x6, x8, rel=4");
    assert_eq!(line(0, 0xfe642e23, true), "sw t1, s0, rel=-4");
    assert_eq!(disassemble_one(0, 0x00643023, true), None);
}

#[test]
fn immediate_operations() {
    assert_eq!(line(0, 0x05d00893, true), "addi a7, zero, 93");
    assert_eq!(line(0, 0xfff28313, false), "addi x6, x5, -1");
    assert_eq!(line(0, 0xfff2a313, false), "slti x6, x5, -1");
    assert_eq!(line(0, 0xfff2b313, false), "sltiu x6, x5, 4294967295");
    assert_eq!(line(0, 0x0ff2c313, false), "xori x6, x5, 0x0000ff");
    assert_eq!(line(0, 0xfff2e313, false), "ori x6, x5, 0xffffffff");
    assert_eq!(line(0, 0x00f2f313, false), "andi x6, x5, 0x00000f");
    assert_eq!(line(0, 0x01f29313, false), "slli x6, x5, 31");
    assert_eq!(line(0, 0x0012d313, false), "srli x6, x5, 1");
    assert_eq!(line(0, 0x4012d313, false), "srai x6, x5, 1");
    assert_eq!(disassemble_one(0, 0x40129313, false), None);
    assert_eq!(disassemble_one(0, 0x0212d313, false), None);
}

#[test]
fn register_operations() {
    let names = [
        (0, 0, "add"),
        (0x20, 0, "sub"),
        (0, 1, "sll"),
        (0, 2, "slt"),
        (0, 3, "sltu"),
        (0, 4, "xor"),
        (0, 5, "srl"),
        (0x20, 5, "sra"),
        (0, 6, "or"),
        (0, 7, "and"),
    ];
    for (funct7, funct3, name) in names {
        let word = (funct7 << 25) | (6 << 20) | (5 << 15) | (funct3 << 12) | (7 << 7) | 0x33;
        assert_eq!(line(0, word, false), format!("{} x7, x5, x6", name));
        assert_eq!(line(0, word, true), format!("{} t2, t0, t1", name));
    }
    assert_eq!(disassemble_one(0, 0x026283b3, false), None);
    assert_eq!(disassemble_one(0, 0x406293b3, false), None);
}

#[test]
fn fence_and_system() {
    assert_eq!(line(0, 0x0ff0000f, true), "fence");
    assert_eq!(disassemble_one(0, 0x0000100f, true), None);
    assert_eq!(line(0, 0x00000073, true), "ecall");
    assert_eq!(line(0, 0x00100073, false), "ebreak");
    assert_eq!(disassemble_one(0, 0x00200073, false), None);
    assert_eq!(disassemble_one(0, 0x00008073, false), None);
    assert_eq!(disassemble_one(0, 0x000000f3, false), None);
}

#[test]
fn unknown_words_have_no_line() {
    assert_eq!(disassemble_one(0, 0, false), None);
    assert_eq!(disassemble_one(0, 0xffff_ffff, true), None);
    assert_eq!(disassemble_one(0, 0x0000_0053, true), None);
}

#[test]
fn disassemble_walks_the_words() {
    let code = [
        0x37, 0x15, 0x01, 0x00, // lui a0, 0x11
        0x93, 0x08, 0xd0, 0x05, // addi a7, zero, 93
        0x00, 0x00, 0x00, 0x00, // not an instruction
        0x6f, 0xf0, 0x9f, 0xff, // jal x0, -8
        0x73, 0x00, // half a word
    ];
    let lines = disassemble(0xffff_fff8, &code);
    assert_eq!(
        lines,
        vec![
            Some("lui x10, imm=0x011000".to_string()),
            Some("addi x17, x0, 93".to_string()),
            None,
            Some("jal x0, rel=4294967288, abs=0xfffffffc".to_string()),
        ]
    );
    assert_eq!(disassemble(0, &[]), vec![]);
    assert_eq!(disassemble(0, &[0x73, 0, 0]), vec![]);
}
