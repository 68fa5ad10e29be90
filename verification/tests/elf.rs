use rv::elf::{Elf, Error, Flags, Segment};

fn put16(bytes: &mut [u8], at: usize, value: u16) {
    bytes[at..at + 2].copy_from_slice(&value.to_le_bytes());
}

fn put32(bytes: &mut [u8], at: usize, value: u32) {
    bytes[at..at + 4].copy_from_slice(&value.to_le_bytes());
}

/// A file header with `count` program headers of 32 bytes right behind it.
fn file_header(entry: u32, count: u16) -> Vec<u8> {
    let mut bytes = vec![0u8; 52];
    bytes[0..4].copy_from_slice(&[0x7f, 0x45, 0x4c, 0x46]);
    bytes[4] = 1;
    bytes[5] = 1;
    bytes[6] = 1;
    put16(&mut bytes, 16, 2);
    put16(&mut bytes, 18, 0xf3);
    put32(&mut bytes, 20, 1);
    put32(&mut bytes, 24, entry);
    put32(&mut bytes, 28, 52);
    put16(&mut bytes, 40, 52);
    put16(&mut bytes, 42, 32);
    put16(&mut bytes, 44, count);
    bytes
}

fn program_header(kind: u32, offset: u32, addr: u32, filesz: u32, memsz: u32, flags: u32) -> Vec<u8> {
    let mut bytes = vec![0u8; 32];
    put32(&mut bytes, 0, kind);
    put32(&mut bytes, 4, offset);
    put32(&mut bytes, 8, addr);
    put32(&mut bytes, 12, 0x5555_5555);
    put32(&mut bytes, 16, filesz);
    put32(&mut bytes, 20, memsz);
    put32(&mut bytes, 24, flags);
    put32(&mut bytes, 28, 0x1000);
    bytes
}

fn sample_file() -> Vec<u8> {
    let mut bytes = file_header(0x100dc, 3);
    bytes.extend(program_header(0x7000_0003, 200, 0, 4, 0, 4));
    bytes.extend(program_header(1, 148, 0x10000, 8, 8, 5));
    bytes.extend(program_header(1, 156, 0x14670, 4, 0x20, 6));
    assert_eq!(bytes.len(), 148);
    bytes.extend([1, 2, 3, 4, 5, 6, 7, 8, 9, 10, 11, 12]);
    bytes
}

#[test]
fn flags_bits() {
    assert!(Flags(4).r() && !Flags(4).w() && !Flags(4).x());
    assert!(!Flags(2).r() && Flags(2).w() && !Flags(2).x());
    assert!(!Flags(1).r() && !Flags(1).w() && Flags(1).x());
    assert!(Flags(7).r() && Flags(7).w() && Flags(7).x());
    assert!(!Flags(0xffff_fff8).r() && !Flags(0xffff_fff8).w() && !Flags(0xffff_fff8).x());
}

#[test]
fn flags_text() {
    assert_eq!(Flags(0).text(), "---");
    assert_eq!(Flags(5).text(), "R-X");
    assert_eq!(Flags(6).text(), "RW-");
    assert_eq!(Flags(7).text(), "RWX");
    assert_eq!(Flags(1).text(), "--X");
}

#[test]
fn parse_collects_load_segments() {
    let elf = Elf::parse(&sample_file()).unwrap();
    assert_eq!(
        elf,
        Elf {
            entry: 0x100dc,
            load_segments: vec![
                Segment {
                    file_offset: 148,
                    file_size: 8,
                    load_address: 0x10000,
                    size: 8,
                    flags: Flags(5),
                    data: vec![1, 2, 3, 4, 5, 6, 7, 8],
                },
                Segment {
                    file_offset: 156,
                    file_size: 4,
                    load_address: 0x14670,
                    size: 0x20,
                    flags: Flags(6),
                    data: vec![9, 10, 11, 12],
                },
            ],
        }
    );
}

#[test]
fn parse_without_program_headers() {
    let elf = Elf::parse(&file_header(0x4000, 0)).unwrap();
    assert_eq!(elf, Elf { entry: 0x4000, load_segments: vec![] });
}

#[test]
fn parse_uses_the_header_size_of_the_file() {
    let mut bytes = file_header(0, 2);
    put16(&mut bytes, 42, 40);
    bytes.extend(program_header(1, 0, 0x1000, 2, 2, 4));
    bytes.extend([0xee; 8]);
    bytes.extend(program_header(1, 1, 0x2000, 3, 3, 2));
    let elf = Elf::parse(&bytes).unwrap();
    assert_eq!(elf.load_segments.len(), 2);
    assert_eq!(elf.load_segments[0].data, vec![0x7f, 0x45]);
    assert_eq!(elf.load_segments[1].load_address, 0x2000);
    assert_eq!(elf.load_segments[1].data, vec![0x45, 0x4c, 0x46]);
}

#[test]
fn short_file_is_a_read_failure() {
    assert_eq!(Elf::parse(&[]), Err(Error::ReadFailure));
    assert_eq!(Elf::parse(&[0x7f, 0x45, 0x4c, 0x46]), Err(Error::ReadFailure));
    assert_eq!(Elf::parse(&sample_file()[..51]), Err(Error::ReadFailure));
    assert_eq!(Elf::parse(&[0u8; 51]), Err(Error::ReadFailure));
}

#[test]
fn wrong_magic() {
    for at in 0..4 {
        let mut bytes = sample_file();
        bytes[at] ^= 0x20;
        assert_eq!(Elf::parse(&bytes), Err(Error::InvalidElfMagic));
    }
    assert_eq!(Elf::parse(&[0u8; 52]), Err(Error::InvalidElfMagic));
}

#[test]
fn wrong_class() {
    let mut bytes = sample_file();
    bytes[4] = 2;
    bytes[5] = 2;
    assert_eq!(Elf::parse(&bytes), Err(Error::InvalidBitness));
}

#[test]
fn wrong_byte_order() {
    let mut bytes = sample_file();
    bytes[5] = 2;
    bytes[7] = 3;
    assert_eq!(Elf::parse(&bytes), Err(Error::InvalidEndianness));
}

#[test]
fn wrong_os() {
    let mut bytes = sample_file();
    bytes[7] = 3;
    bytes[16] = 3;
    assert_eq!(Elf::parse(&bytes), Err(Error::InvalidOs(3)));
}

#[test]
fn wrong_type() {
    let mut bytes = sample_file();
    bytes[16] = 3;
    bytes[18] = 0x3e;
    assert_eq!(Elf::parse(&bytes), Err(Error::InvalidElfType));
    let mut bytes = sample_file();
    bytes[17] = 1;
    assert_eq!(Elf::parse(&bytes), Err(Error::InvalidElfType));
}

#[test]
fn wrong_machine() {
    let mut bytes = sample_file();
    bytes[18] = 0x3e;
    assert_eq!(Elf::parse(&bytes), Err(Error::InvalidMachine));
    let mut bytes = sample_file();
    bytes[19] = 1;
    assert_eq!(Elf::parse(&bytes), Err(Error::InvalidMachine));
}

#[test]
fn version_bytes_are_not_checked() {
    let mut bytes = sample_file();
    bytes[6] = 9;
    bytes[8] = 9;
    put32(&mut bytes, 20, 77);
    assert!(Elf::parse(&bytes).is_ok());
}

#[test]
fn missing_program_header_is_a_read_failure() {
    let mut bytes = file_header(0, 2);
    bytes.extend(program_header(1, 0, 0, 0, 0, 0));
    bytes.extend(&program_header(1, 0, 0, 0, 0, 0)[..31]);
    assert_eq!(Elf::parse(&bytes), Err(Error::ReadFailure));
    let mut bytes = file_header(0, 1);
    put32(&mut bytes, 28, 0xffff_fff0);
    assert_eq!(Elf::parse(&bytes), Err(Error::ReadFailure));
}

#[test]
fn missing_segment_data_is_a_read_failure() {
    let mut bytes = file_header(0, 1);
    bytes.extend(program_header(1, 84, 0, 5, 5, 4));
    bytes.extend([0; 4]);
    assert_eq!(Elf::parse(&bytes), Err(Error::ReadFailure));
    bytes.push(0);
    assert!(Elf::parse(&bytes).is_ok());
    let mut bytes = file_header(0, 1);
    bytes.extend(program_header(1, 0xffff_ffff, 0, 0xffff_ffff, 5, 4));
    assert_eq!(Elf::parse(&bytes), Err(Error::ReadFailure));
}

#[test]
fn other_program_headers_are_skipped_unread() {
    let mut bytes = file_header(0, 1);
    bytes.extend(program_header(2, 0xffff_0000, 0, 0xffff, 5, 4));
    assert_eq!(Elf::parse(&bytes), Ok(Elf { entry: 0, load_segments: vec![] }));
}
