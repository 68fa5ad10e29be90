//! ELF32 executables for RISC-V: the file header and the loadable segments.
//!
//! The input is the whole file as bytes.  Only little-endian, 32-bit, System V
//! executables for RISC-V are accepted, and of their program headers only
//! those of type `PT_LOAD` are used.

use crate::memory::{le_value, lemma_le_value};
use vstd::prelude::*;
use vstd::slice::{slice_subrange, slice_to_vec};
use vstd::string::StringExecFns;

verus! {

/// Why a file was refused.
#[derive(Debug, Clone, Copy, PartialEq, Eq, Structural)]
pub enum Error {
    /// The file ends before the header, a program header or the data of a
    /// segment that it announces.
    ReadFailure,
    /// The file does not start with the ELF magic number.
    InvalidElfMagic,
    /// The file is not a 32-bit ELF file.
    InvalidBitness,
    /// The file is not little-endian.
    InvalidEndianness,
    /// The OS/ABI byte, given here, is not that of System V.
    InvalidOs(u8),
    /// The file is not an executable.
    InvalidElfType,
    /// The file is not for RISC-V.
    InvalidMachine,
}

/// Size of the ELF32 file header.
pub const HEADER_SIZE: usize = 52;

/// Size of an ELF32 program header.
pub const PROGRAM_HEADER_SIZE: usize = 32;

/// The program header type of a loadable segment.
pub const PT_LOAD: u32 = 1;

/// The flag bits as the bit operations see them.
proof fn lemma_flag_bits(bits: u32)
    by (bit_vector)
    ensures
        (bits / 4) % 2 == 1 <==> bits & 0x4 != 0,
        (bits / 2) % 2 == 1 <==> bits & 0x2 != 0,
        bits % 2 == 1 <==> bits & 0x1 != 0,
{
}

/// The access flags of a segment: bit 0 execute, bit 1 write, bit 2 read.
#[derive(Debug, Clone, Copy, PartialEq, Eq, Structural)]
pub struct Flags(pub u32);

impl Flags {
    /// Is the segment readable?
    pub fn r(self) -> (set: bool)
        ensures
            set == self.readable(),
            set == (self.0 & 0x4 != 0),
    {
        proof {
            lemma_flag_bits(self.0);
        }
        self.0 & 0x4 != 0
    }

    /// Is the segment writable?
    pub fn w(self) -> (set: bool)
        ensures
            set == self.writable(),
            set == (self.0 & 0x2 != 0),
    {
        proof {
            lemma_flag_bits(self.0);
        }
        self.0 & 0x2 != 0
    }

    /// Is the segment executable?
    pub fn x(self) -> (set: bool)
        ensures
            set == self.executable(),
            set == (self.0 & 0x1 != 0),
    {
        proof {
            lemma_flag_bits(self.0);
        }
        self.0 & 0x1 != 0
    }

    /// Bit 2 is set: the segment may be read.
    pub open spec fn readable(self) -> bool {
        (self.0 / 4) % 2 == 1
    }

    /// Bit 1 is set: the segment may be written.
    pub open spec fn writable(self) -> bool {
        (self.0 / 2) % 2 == 1
    }

    /// Bit 0 is set: the segment may be executed.
    pub open spec fn executable(self) -> bool {
        self.0 % 2 == 1
    }

    /// The three letters that [`Flags::text`] gives.
    pub open spec fn letters(self) -> Seq<char> {
        (if self.readable() {
            "R"@
        } else {
            "-"@
        }) + (if self.writable() {
            "W"@
        } else {
            "-"@
        }) + (if self.executable() {
            "X"@
        } else {
            "-"@
        })
    }

    /// The flags as three characters: `R`, `W` and `X` for what is granted
    /// and `-` for what is not.
    pub fn text(self) -> (text: String)
        ensures
            text@ == self.letters(),
    {
        let mut text = String::from_str(if self.r() {
            "R"
        } else {
            "-"
        });
        text.append(if self.w() {
            "W"
        } else {
            "-"
        });
        text.append(if self.x() {
            "X"
        } else {
            "-"
        });
        text
    }
}

/// A loadable segment.
#[derive(Debug, Clone, PartialEq, Eq)]
pub struct Segment {
    /// Offset of the data in the file.
    pub file_offset: u32,
    /// Number of bytes in the file.
    pub file_size: u32,
    /// Address to load at.
    pub load_address: u32,
    /// Number of bytes in memory.
    pub size: u32,
    /// Access flags.
    pub flags: Flags,
    /// The bytes of the segment in the file: `file_size` of them.
    pub data: Vec<u8>,
}

/// What a [`Segment`] holds.
pub struct SegmentView {
    pub file_offset: u32,
    pub file_size: u32,
    pub load_address: u32,
    pub size: u32,
    pub flags: Flags,
    pub data: Seq<u8>,
}

impl View for Segment {
    type V = SegmentView;

    open spec fn view(&self) -> SegmentView {
        SegmentView {
            file_offset: self.file_offset,
            file_size: self.file_size,
            load_address: self.load_address,
            size: self.size,
            flags: self.flags,
            data: self.data@,
        }
    }
}

/// An executable: where it starts and what has to be loaded.
#[derive(Debug, PartialEq, Eq)]
pub struct Elf {
    /// Entry point of the program.
    pub entry: u32,
    /// Loadable segments, in the order of their program headers.
    pub load_segments: Vec<Segment>,
}

/// What an [`Elf`] holds.
pub struct ElfView {
    pub entry: u32,
    pub load_segments: Seq<SegmentView>,
}

impl View for Elf {
    type V = ElfView;

    open spec fn view(&self) -> ElfView {
        ElfView {
            entry: self.entry,
            load_segments: Seq::new(
                self.load_segments@.len(),
                |i: int| self.load_segments@[i]@,
            ),
        }
    }
}

/// The little-endian 16-bit number at offset `at`.
pub open spec fn u16_at(bytes: Seq<u8>, at: int) -> u16 {
    (bytes[at] + 256 * bytes[at + 1]) as u16
}

/// The little-endian 32-bit number at offset `at`.
pub open spec fn u32_at(bytes: Seq<u8>, at: int) -> u32 {
    (bytes[at] + 256 * bytes[at + 1] + 65536 * bytes[at + 2] + 16777216 * bytes[at + 3]) as u32
}

/// The numbers in a file follow the little-endian rule.
pub proof fn law_numbers_little_endian(bytes: Seq<u8>, at: int)
    requires
        0 <= at,
    ensures
        at + 2 <= bytes.len() ==> u16_at(bytes, at) == le_value(bytes.subrange(at, at + 2)),
        at + 4 <= bytes.len() ==> u32_at(bytes, at) == le_value(bytes.subrange(at, at + 4)),
{
    if at + 2 <= bytes.len() {
        lemma_le_value(bytes.subrange(at, at + 2));
    }
    if at + 4 <= bytes.len() {
        lemma_le_value(bytes.subrange(at, at + 4));
    }
}

/// Why the file header of `bytes` is refused, if it is.  The checks are made
/// in the order of the fields in the file.
pub open spec fn header_error(bytes: Seq<u8>) -> Option<Error> {
    if bytes.len() < HEADER_SIZE {
        Some(Error::ReadFailure)
    } else if bytes[0] != 0x7f || bytes[1] != 0x45 || bytes[2] != 0x4c || bytes[3] != 0x46 {
        Some(Error::InvalidElfMagic)
    } else if bytes[4] != 1 {
        Some(Error::InvalidBitness)
    } else if bytes[5] != 1 {
        Some(Error::InvalidEndianness)
    } else if bytes[7] != 0 {
        Some(Error::InvalidOs(bytes[7]))
    } else if u16_at(bytes, 16) != 2 {
        Some(Error::InvalidElfType)
    } else if u16_at(bytes, 18) != 0xf3 {
        Some(Error::InvalidMachine)
    } else {
        None
    }
}

/// Offset of program header `k`.
pub open spec fn program_header_offset(bytes: Seq<u8>, k: int) -> int {
    u32_at(bytes, 28) + k * u16_at(bytes, 42)
}

/// The segment that the program header at offset `at` describes: `None` for
/// a header of another type than `PT_LOAD`.
pub open spec fn segment_at(bytes: Seq<u8>, at: int) -> Result<Option<SegmentView>, Error> {
    let file_offset = u32_at(bytes, at + 4);
    let file_size = u32_at(bytes, at + 16);
    if at + PROGRAM_HEADER_SIZE > bytes.len() {
        Err(Error::ReadFailure)
    } else if u32_at(bytes, at) != PT_LOAD {
        Ok(None)
    } else if file_offset + file_size > bytes.len() {
        Err(Error::ReadFailure)
    } else {
        Ok(
            Some(
                SegmentView {
                    file_offset,
                    file_size,
                    load_address: u32_at(bytes, at + 8),
                    size: u32_at(bytes, at + 20),
                    flags: Flags(u32_at(bytes, at + 24)),
                    data: bytes.subrange(file_offset as int, file_offset + file_size),
                },
            ),
        )
    }
}

/// The loadable segments among the first `count` program headers, or the
/// error of the first header that cannot be read.
pub open spec fn segments(bytes: Seq<u8>, count: nat) -> Result<Seq<SegmentView>, Error>
    decreases count,
{
    if count == 0 {
        Ok(Seq::<SegmentView>::empty())
    } else {
        match segments(bytes, (count - 1) as nat) {
            Err(e) => Err(e),
            Ok(found) => match segment_at(bytes, program_header_offset(bytes, count - 1)) {
                Err(e) => Err(e),
                Ok(None) => Ok(found),
                Ok(Some(segment)) => Ok(found.push(segment)),
            },
        }
    }
}

/// The executable that `bytes` hold, or why they are refused.
pub open spec fn parse_result(bytes: Seq<u8>) -> Result<ElfView, Error> {
    match header_error(bytes) {
        Some(e) => Err(e),
        None => match segments(bytes, u16_at(bytes, 44) as nat) {
            Err(e) => Err(e),
            Ok(load_segments) => Ok(ElfView { entry: u32_at(bytes, 24), load_segments }),
        },
    }
}

/// The little-endian 16-bit number at offset `at`.
fn read_u16(bytes: &[u8], at: usize) -> (value: u16)
    requires
        at + 2 <= bytes@.len(),
    ensures
        value == u16_at(bytes@, at as int),
{
    bytes[at] as u16 + 256 * (bytes[at + 1] as u16)
}

/// The little-endian 32-bit number at offset `at`.
fn read_u32(bytes: &[u8], at: usize) -> (value: u32)
    requires
        at + 4 <= bytes@.len(),
    ensures
        value == u32_at(bytes@, at as int),
{
    bytes[at] as u32 + 256 * (bytes[at + 1] as u32) + 65536 * (bytes[at + 2] as u32) + 16777216 * (
    bytes[at + 3] as u32)
}

/// Checks the file header.
fn check_header(bytes: &[u8]) -> (res: Result<(), Error>)
    ensures
        res is Ok <==> header_error(bytes@) is None,
        res matches Err(e) ==> header_error(bytes@) == Some(e),
{
    if bytes.len() < HEADER_SIZE {
        return Err(Error::ReadFailure);
    }
    if bytes[0] != 0x7f || bytes[1] != 0x45 || bytes[2] != 0x4c || bytes[3] != 0x46 {
        return Err(Error::InvalidElfMagic);
    }
    if bytes[4] != 1 {
        return Err(Error::InvalidBitness);
    }
    if bytes[5] != 1 {
        return Err(Error::InvalidEndianness);
    }
    if bytes[7] != 0 {
        return Err(Error::InvalidOs(bytes[7]));
    }
    if read_u16(bytes, 16) != 2 {
        return Err(Error::InvalidElfType);
    }
    if read_u16(bytes, 18) != 0xf3 {
        return Err(Error::InvalidMachine);
    }
    Ok(())
}

/// Reads the program header at offset `at`.
fn read_segment(bytes: &[u8], at: u64) -> (res: Result<Option<Segment>, Error>)
    requires
        at < 0x2_0000_0000,
    ensures
        res matches Ok(Some(segment)) ==> segment_at(bytes@, at as int) == Ok::<
            Option<SegmentView>,
            Error,
        >(Some(segment@)),
        res matches Ok(None) ==> segment_at(bytes@, at as int) == Ok::<Option<SegmentView>, Error>(
            None,
        ),
        res matches Err(e) ==> segment_at(bytes@, at as int) == Err::<Option<SegmentView>, Error>(e),
{
    let len = bytes.len();
    if at + PROGRAM_HEADER_SIZE as u64 > len as u64 {
        return Err(Error::ReadFailure);
    }
    let at = at as usize;
    if read_u32(bytes, at) != PT_LOAD {
        return Ok(None);
    }
    let file_offset = read_u32(bytes, at + 4);
    let file_size = read_u32(bytes, at + 16);
    if file_offset as u64 + file_size as u64 > len as u64 {
        return Err(Error::ReadFailure);
    }
    let first = file_offset as usize;
    let last = (file_offset as u64 + file_size as u64) as usize;
    let data = slice_to_vec(slice_subrange(bytes, first, last));
    Ok(
        Some(
            Segment {
                file_offset,
                file_size,
                load_address: read_u32(bytes, at + 8),
                size: read_u32(bytes, at + 20),
                flags: Flags(read_u32(bytes, at + 24)),
                data,
            },
        ),
    )
}

/// Header `k + 1` lies one header size behind header `k`.
proof fn lemma_next_header(start: int, size: int, k: int)
    by (nonlinear_arith)
    requires
        0 <= k < 0x1_0000,
        0 <= size < 0x1_0000,
    ensures
        start + (k + 1) * size == (start + k * size) + size,
        0 <= k * size <= 0xFFFF * 0xFFFF,
{
}

impl Elf {
    /// Reads an executable from the bytes of its file: checks that it is a
    /// little-endian 32-bit System V executable for RISC-V and collects its
    /// loadable segments with their data.
    pub fn parse(bytes: &[u8]) -> (res: Result<Elf, Error>)
        ensures
            res matches Ok(elf) ==> parse_result(bytes@) == Ok::<ElfView, Error>(elf@),
            res matches Err(e) ==> parse_result(bytes@) == Err::<ElfView, Error>(e),
    {
        match check_header(bytes) {
            Err(e) => {
                return Err(e);
            },
            Ok(()) => {},
        }
        let entry = read_u32(bytes, 24);
        let start = read_u32(bytes, 28);
        let size = read_u16(bytes, 42);
        let count = read_u16(bytes, 44);
        let mut load_segments: Vec<Segment> = Vec::new();
        let mut at: u64 = start as u64;
        let mut k: u16 = 0;
        while k < count
            invariant
                k <= count,
                start == u32_at(bytes@, 28),
                size == u16_at(bytes@, 42),
                at == program_header_offset(bytes@, k as int),
                at <= 0xFFFF_FFFF + 0xFFFF * 0xFFFF,
                header_error(bytes@) is None,
                count == u16_at(bytes@, 44),
                entry == u32_at(bytes@, 24),
                segments(bytes@, k as nat) is Ok,
                segments(bytes@, k as nat)->Ok_0 == Seq::new(
                    load_segments@.len(),
                    |i: int| load_segments@[i]@,
                ),
            decreases count - k,
        {
            let ghost found = Seq::new(load_segments@.len(), |i: int| load_segments@[i]@);
            proof {
                lemma_next_header(start as int, size as int, k as int);
                lemma_next_header(start as int, size as int, k as int + 1);
            }
            match read_segment(bytes, at) {
                Err(e) => {
                    proof {
                        lemma_segments_fail(bytes@, k as nat, count as nat);
                    }
                    return Err(e);
                },
                Ok(None) => {},
                Ok(Some(segment)) => {
                    load_segments.push(segment);
                    proof {
                        assert(Seq::new(load_segments@.len(), |i: int| load_segments@[i]@)
                            =~= found.push(segment@));
                    }
                },
            }
            at = at + size as u64;
            k = k + 1;
        }
        Ok(Elf { entry, load_segments })
    }
}

/// Once a program header cannot be read, no longer list of headers can.
proof fn lemma_segments_fail(bytes: Seq<u8>, k: nat, count: nat)
    requires
        k < count,
        segments(bytes, k) is Ok,
        segment_at(bytes, program_header_offset(bytes, k as int)) is Err,
    ensures
        segments(bytes, count) == Err::<Seq<SegmentView>, Error>(
            segment_at(bytes, program_header_offset(bytes, k as int))->Err_0,
        ),
    decreases count - k,
{
    if count == k + 1 {
    } else {
        lemma_segments_fail(bytes, k, (count - 1) as nat);
    }
}

} // verus!
