//! Byte-addressable guest memory with one permission byte per data byte and
//! a free list from which regions are carved first-fit.

use crate::rangeset;
use crate::rangeset::RangeSet;
use std::ops::Range;
use vstd::prelude::*;
use vstd::slice::slice_subrange;

verus! {

/// No access.
pub const PERM_NONE: u8 = 0b0;

/// The byte may be read.
pub const PERM_READ: u8 = 0b1;

/// The byte may be written.
pub const PERM_WRITE: u8 = 0b10;

/// The byte may be fetched as part of an instruction.
pub const PERM_EXEC: u8 = 0b100;

/// Read-after-write: the byte becomes readable once it has been written.
pub const PERM_RAW: u8 = 0b1000;

/// The bit with the weight `weight`, a power of two, is set in `byte`.
pub open spec fn has_bit(byte: u8, weight: u8) -> bool {
    (byte / weight) % 2 == 1
}

/// A permission byte that does not grant reading while a read-after-write is
/// pending.
pub open spec fn raw_excludes_read(byte: u8) -> bool {
    has_bit(byte, PERM_RAW) ==> !has_bit(byte, PERM_READ)
}

/// A byte tagged `byte` grants at least one of the permissions in `mask`:
/// some bit is set in both.
pub open spec fn allows(mask: u8, byte: u8) -> bool {
    ||| has_bit(mask, 1) && has_bit(byte, 1)
    ||| has_bit(mask, 2) && has_bit(byte, 2)
    ||| has_bit(mask, 4) && has_bit(byte, 4)
    ||| has_bit(mask, 8) && has_bit(byte, 8)
    ||| has_bit(mask, 16) && has_bit(byte, 16)
    ||| has_bit(mask, 32) && has_bit(byte, 32)
    ||| has_bit(mask, 64) && has_bit(byte, 64)
    ||| has_bit(mask, 128) && has_bit(byte, 128)
}

/// The permission byte of a byte that has just been written: a pending
/// read-after-write turns into read permission, nothing else changes.
pub open spec fn touched(byte: u8) -> u8 {
    if !has_bit(byte, PERM_RAW) {
        byte
    } else if has_bit(byte, PERM_READ) {
        (byte - PERM_RAW) as u8
    } else {
        (byte - PERM_RAW + PERM_READ) as u8
    }
}

/// Permissions in terms of the bit operations: a mask allows a byte when
/// their bitwise conjunction is not zero, and a write clears the
/// read-after-write bit and sets the read bit where the former was set.
pub proof fn law_permission_bits(mask: u8, byte: u8)
    by (bit_vector)
    ensures
        allows(mask, byte) <==> mask & byte != 0,
        has_bit(byte, PERM_READ) <==> byte & PERM_READ != 0,
        has_bit(byte, PERM_WRITE) <==> byte & PERM_WRITE != 0,
        has_bit(byte, PERM_EXEC) <==> byte & PERM_EXEC != 0,
        has_bit(byte, PERM_RAW) <==> byte & PERM_RAW != 0,
        touched(byte) == (if byte & PERM_RAW != 0 {
            (byte & !PERM_RAW) | PERM_READ
        } else {
            byte
        }),
{
}

/// Does a byte tagged `byte` grant one of the permissions in `permission`?
pub fn test_perm(permission: u8, byte: u8) -> (ok: bool)
    ensures
        ok == allows(permission, byte),
{
    proof {
        law_permission_bits(permission, byte);
    }
    (permission & byte) != 0
}

/// Why a memory operation failed.
#[derive(Debug, PartialEq, Eq)]
pub enum MemoryError {
    /// A byte of the accessed range grants none of the permissions in
    /// `access`: `addr` is the first such byte, as a range of one byte, and
    /// `perms` is its permission byte.
    BadPermissions { addr: Range<u32>, access: u8, perms: u8 },
    /// A byte of `addr` lies outside the memory.
    OutOfBounds { addr: Range<u32> },
    /// The free list could not provide the region.
    OutOfMemory { err: rangeset::Error },
}

impl MemoryError {
    /// The memory error that stands for a failure of the free list.
    pub fn from_range_error(err: rangeset::Error) -> (e: Self)
        ensures
            e == (MemoryError::OutOfMemory { err }),
    {
        MemoryError::OutOfMemory { err }
    }
}

/// The first address in `[start, end)` whose permission byte grants nothing
/// of `mask`, or `end` when there is none.
pub open spec fn first_denied(perms: Seq<u8>, start: int, end: int, mask: u8) -> int
    decreases end - start,
{
    if start >= end {
        end
    } else if !allows(mask, perms[start]) {
        start
    } else {
        first_denied(perms, start + 1, end, mask)
    }
}

/// The error of an access to `[start, end)` that asks for a permission of
/// `mask` which not every byte grants: it names the first byte that does
/// not, as a range of one byte, the mask, and the permission byte of that
/// byte.
pub open spec fn denial(perms: Seq<u8>, start: int, end: int, mask: u8) -> MemoryError {
    let denied = first_denied(perms, start, end, mask);
    MemoryError::BadPermissions {
        addr: (denied as u32)..((denied + 1) as u32),
        access: mask,
        perms: perms[denied],
    }
}

/// `perms` with `perm` written over `[start, end)`.
pub open spec fn stamp(perms: Seq<u8>, start: int, end: int, perm: u8) -> Seq<u8> {
    Seq::new(
        perms.len(),
        |a: int|
            if start <= a < end {
                perm
            } else {
                perms[a]
            },
    )
}

/// `bytes` with `data` copied in from address `addr` on.
pub open spec fn overwrite(bytes: Seq<u8>, addr: int, data: Seq<u8>) -> Seq<u8> {
    Seq::new(
        bytes.len(),
        |a: int|
            if addr <= a < addr + data.len() {
                data[a - addr]
            } else {
                bytes[a]
            },
    )
}

/// `perms` after a write to `[start, end)`.
pub open spec fn touch(perms: Seq<u8>, start: int, end: int) -> Seq<u8> {
    Seq::new(
        perms.len(),
        |a: int|
            if start <= a < end {
                touched(perms[a])
            } else {
                perms[a]
            },
    )
}

/// The range of `len` bytes from `addr` on, cut off at the top of the address
/// space.
pub open spec fn span(addr: u32, len: nat) -> Range<u32> {
    addr..(if addr + len > u32::MAX {
        u32::MAX
    } else {
        (addr + len) as u32
    })
}

/// The number that `bytes` spell in little-endian order.
pub open spec fn le_value(bytes: Seq<u8>) -> nat
    decreases bytes.len(),
{
    if bytes.len() == 0 {
        0
    } else {
        bytes[0] as nat + 256 * le_value(bytes.skip(1))
    }
}

/// The `count` low bytes of `value` in little-endian order, whatever `count`
/// is.
pub open spec fn little_endian(value: nat, count: nat) -> Seq<u8>
    decreases count,
{
    if count == 0 {
        Seq::<u8>::empty()
    } else {
        seq![(value % 256) as u8] + little_endian(value / 256, (count - 1) as nat)
    }
}

/// The `count` low bytes of `value` in little-endian order, for a `count` of
/// one, two or four.
pub open spec fn le_bytes(value: nat, count: nat) -> Seq<u8> {
    if count == 1 {
        seq![(value % 256) as u8]
    } else if count == 2 {
        seq![(value % 256) as u8, ((value / 256) % 256) as u8]
    } else {
        seq![
            (value % 256) as u8,
            ((value / 256) % 256) as u8,
            ((value / 65536) % 256) as u8,
            ((value / 16777216) % 256) as u8,
        ]
    }
}

/// A two's-complement number of `bits` bits, given by its unsigned value,
/// widened to 32 bits.
pub open spec fn widen(value: nat, bits: nat) -> u32 {
    if bits == 8 && value >= 0x80 {
        (value + 0xFFFF_FF00) as u32
    } else if bits == 16 && value >= 0x8000 {
        (value + 0xFFFF_0000) as u32
    } else {
        value as u32
    }
}

/// What a [`Memory`] holds: its bytes, their permission bytes, and the
/// intervals that no region has claimed yet.
pub struct MemoryView {
    pub bytes: Seq<u8>,
    pub perms: Seq<u8>,
    pub free: Seq<(u32, u32)>,
}

impl MemoryView {
    /// Every address has one data byte and one permission byte, addresses fit
    /// in 32 bits, and the free list is ordered and lies inside the memory.
    pub open spec fn wf(self) -> bool {
        &&& self.bytes.len() == self.perms.len()
        &&& self.bytes.len() <= u32::MAX
        &&& rangeset::ordered(self.free)
        &&& rangeset::within(self.free, self.bytes.len() as int)
    }

    /// Number of bytes.
    pub open spec fn size(self) -> int {
        self.bytes.len() as int
    }

    /// No byte of `[start, end)` lies outside the memory.
    pub open spec fn in_bounds(self, start: int, end: int) -> bool {
        start >= end || (0 <= start && end <= self.size())
    }

    /// No free address carries a permission.
    pub open spec fn free_is_blank(self) -> bool {
        forall|a: int|
            0 <= a < self.size() && rangeset::holds(self.free, a) ==> #[trigger] self.perms[a] == 0
    }

    /// No byte is marked readable and read-after-write at once.
    pub open spec fn raw_is_unreadable(self) -> bool {
        forall|a: int| 0 <= a < self.size() ==> raw_excludes_read(#[trigger] self.perms[a])
    }

    /// Every byte of `[start, end)` grants a permission of `mask`.
    pub open spec fn grants(self, start: int, end: int, mask: u8) -> bool {
        forall|a: int| start <= a < end ==> allows(mask, #[trigger] self.perms[a])
    }

    /// Every byte of `[start, end)` grants a permission of `mask`, or `mask`
    /// asks for none.
    pub open spec fn permits(self, start: int, end: int, mask: u8) -> bool {
        mask == 0 || self.grants(start, end, mask)
    }

    /// The `len` bytes from `addr` on all lie inside the memory.
    pub open spec fn holds_span(self, addr: u32, len: nat) -> bool {
        len == 0 || addr + len <= self.size()
    }

    /// `e` is the `BadPermissions` error that names the first byte of
    /// `[start, end)` that grants nothing of `mask`: its address, the mask
    /// and its permission byte.
    pub open spec fn names_first_denied(
        self,
        e: MemoryError,
        start: int,
        end: int,
        mask: u8,
    ) -> bool {
        &&& e matches MemoryError::BadPermissions { addr, access, perms }
        &&& start <= addr.start < end
        &&& addr.end == addr.start + 1
        &&& access == mask
        &&& perms == self.perms[addr.start as int]
        &&& !allows(mask, perms)
        &&& forall|a: int| start <= a < addr.start ==> allows(mask, #[trigger] self.perms[a])
    }

    /// The outcome of checking `range` for a permission of `mask`: a failure
    /// names the first byte that does not grant it.
    pub open spec fn permission_result(self, range: Range<u32>, mask: u8) -> Result<
        (),
        MemoryError,
    > {
        if !self.in_bounds(range.start as int, range.end as int) {
            Err(MemoryError::OutOfBounds { addr: range })
        } else if !self.grants(range.start as int, range.end as int, mask) {
            Err(denial(self.perms, range.start as int, range.end as int, mask))
        } else {
            Ok(())
        }
    }

    /// The outcome of reading `range` with a permission of `mask`, where a
    /// mask of zero asks for no permission.
    pub open spec fn read_result(self, range: Range<u32>, mask: u8) -> Result<
        Seq<u8>,
        MemoryError,
    > {
        if !self.in_bounds(range.start as int, range.end as int) {
            Err(MemoryError::OutOfBounds { addr: range })
        } else if !self.permits(range.start as int, range.end as int, mask) {
            Err(denial(self.perms, range.start as int, range.end as int, mask))
        } else if range.start < range.end {
            Ok(self.bytes.subrange(range.start as int, range.end as int))
        } else {
            Ok(Seq::<u8>::empty())
        }
    }

    /// The outcome of reading `len` bytes from `addr` on with a permission of
    /// `mask`.  The bytes must all lie inside the memory, also where
    /// `addr + len` passes the top of the address space.
    pub open spec fn load(self, addr: u32, len: nat, mask: u8) -> Result<Seq<u8>, MemoryError> {
        if addr + len > u32::MAX && len > 0 {
            Err(MemoryError::OutOfBounds { addr: span(addr, len) })
        } else {
            self.read_result(span(addr, len), mask)
        }
    }

    /// The memory after, and the outcome of, writing `data` at `addr` with a
    /// permission of `mask`.  A failed write changes nothing.
    pub open spec fn write_result(self, addr: u32, mask: u8, data: Seq<u8>) -> (
        MemoryView,
        Result<(), MemoryError>,
    ) {
        let end = addr + data.len();
        if !self.holds_span(addr, data.len()) {
            (self, Err(MemoryError::OutOfBounds { addr: span(addr, data.len()) }))
        } else if !self.permits(addr as int, end, mask) {
            (self, Err(denial(self.perms, addr as int, end, mask)))
        } else {
            (
                MemoryView {
                    bytes: overwrite(self.bytes, addr as int, data),
                    perms: touch(self.perms, addr as int, end),
                    free: self.free,
                },
                Ok(()),
            )
        }
    }

    /// The memory after, and the outcome of, giving every byte of `range`
    /// the permission byte `perm`.
    pub open spec fn set_permissions_result(self, range: Range<u32>, perm: u8) -> (
        MemoryView,
        Result<(), MemoryError>,
    ) {
        if self.in_bounds(range.start as int, range.end as int) {
            (
                MemoryView {
                    perms: stamp(self.perms, range.start as int, range.end as int, perm),
                    ..self
                },
                Ok(()),
            )
        } else {
            (self, Err(MemoryError::OutOfBounds { addr: range }))
        }
    }

    /// The memory after, and the outcome of, claiming the first `size` bytes
    /// of the first free interval that is long enough, with `perm` as their
    /// permission byte.
    pub open spec fn allocate_result(self, size: u32, perm: u8) -> (
        MemoryView,
        Result<(u32, u32), MemoryError>,
    ) {
        match rangeset::first_fit(self.free, size) {
            Some(block) => (
                MemoryView {
                    bytes: self.bytes,
                    perms: stamp(self.perms, block.0 as int, block.1 as int, perm),
                    free: rangeset::without_first_fit(self.free, size),
                },
                Ok(block),
            ),
            None => (self, Err(MemoryError::OutOfMemory { err: rangeset::Error::NoFit })),
        }
    }

    /// The memory after, and the outcome of, taking `[start, end)` out of the
    /// free list: it must not be inverted, and one free interval must cover
    /// it.
    pub open spec fn reserve_result(self, start: u32, end: u32) -> (
        MemoryView,
        Result<(), MemoryError>,
    ) {
        match rangeset::without(self.free, start, end) {
            Some(free) if start <= end => (MemoryView { free, ..self }, Ok(())),
            _ => (self, Err(MemoryError::OutOfMemory { err: rangeset::Error::OutOfBounds })),
        }
    }

    /// The number that the `len` bytes from `addr` on spell in little-endian
    /// order, for a `len` of one, two or four.
    pub open spec fn value_at(self, addr: int, len: nat) -> nat {
        if len == 1 {
            self.bytes[addr] as nat
        } else if len == 2 {
            (self.bytes[addr] + 256 * self.bytes[addr + 1]) as nat
        } else {
            (self.bytes[addr] + 256 * self.bytes[addr + 1] + 65536 * self.bytes[addr + 2] + 16777216
                * self.bytes[addr + 3]) as nat
        }
    }

    /// The little-endian 32-bit number in the four bytes from `addr` on.
    pub open spec fn word_at(self, addr: int) -> u32 {
        self.value_at(addr, 4) as u32
    }

    /// The outcome of loading a little-endian number of `len` bytes, for a
    /// `len` of one, two or four.
    pub open spec fn load_value(self, addr: u32, len: nat, mask: u8) -> Result<u32, MemoryError> {
        match self.load(addr, len, mask) {
            Ok(_) => Ok(self.value_at(addr as int, len) as u32),
            Err(e) => Err(e),
        }
    }

    /// The outcome of loading a little-endian two's-complement number of
    /// `len` bytes, widened to 32 bits, for a `len` of one or two.
    pub open spec fn load_signed(self, addr: u32, len: nat, mask: u8) -> Result<u32, MemoryError> {
        match self.load(addr, len, mask) {
            Ok(_) => Ok(widen(self.value_at(addr as int, len), 8 * len)),
            Err(e) => Err(e),
        }
    }
}

/// `first_denied` finds the first address of `[start, end)` that `mask` does
/// not open: everything below its result is allowed, and its result, unless it
/// is `end`, is not.
pub proof fn law_first_denied(perms: Seq<u8>, start: int, end: int, mask: u8)
    requires
        start <= end,
    ensures
        start <= first_denied(perms, start, end, mask) <= end,
        forall|a: int|
            start <= a < first_denied(perms, start, end, mask) ==> allows(mask, #[trigger] perms[a]),
        first_denied(perms, start, end, mask) < end ==> !allows(
            mask,
            perms[first_denied(perms, start, end, mask)],
        ),
    decreases end - start,
{
    if start < end && allows(mask, perms[start]) {
        law_first_denied(perms, start + 1, end, mask);
    }
}

/// Where not every byte of a range inside the memory grants a permission,
/// the error of the access names the first byte that does not.
pub proof fn law_denial(m: MemoryView, start: int, end: int, mask: u8)
    requires
        m.wf(),
        0 <= start <= end <= m.size(),
        !m.grants(start, end, mask),
    ensures
        m.names_first_denied(denial(m.perms, start, end, mask), start, end, mask),
{
    law_first_denied(m.perms, start, end, mask);
}

/// An access fails with `OutOfBounds` whenever one of its bytes lies outside
/// the memory, whatever the permissions are.
pub proof fn law_bounds_enforced(m: MemoryView, range: Range<u32>, mask: u8, data: Seq<u8>)
    requires
        m.wf(),
    ensures
        !m.in_bounds(range.start as int, range.end as int) ==> m.read_result(range, mask) == Err::<
            Seq<u8>,
            MemoryError,
        >(MemoryError::OutOfBounds { addr: range }) && m.permission_result(range, mask) == Err::<
            (),
            MemoryError,
        >(MemoryError::OutOfBounds { addr: range }),
        data.len() > 0 && range.start + data.len() > m.size() ==> m.write_result(
            range.start,
            mask,
            data,
        ) == (m, Err::<(), MemoryError>(MemoryError::OutOfBounds { addr: span(range.start, data.len()) })),
        data.len() > 0 && range.start + data.len() > m.size() ==> m.load(
            range.start,
            data.len(),
            mask,
        ) == Err::<Seq<u8>, MemoryError>(
            MemoryError::OutOfBounds { addr: span(range.start, data.len()) },
        ),
{
}

/// Inside the memory, a read or a write that asks for a permission succeeds
/// exactly when every byte of its range grants it; otherwise it fails with
/// `BadPermissions` and reports the first byte of the range that does not
/// grant it: its address, as a range of one byte, and its permission byte.
pub proof fn law_permission_enforced(m: MemoryView, addr: u32, mask: u8, data: Seq<u8>)
    requires
        m.wf(),
        mask != 0,
        data.len() > 0,
        addr + data.len() <= m.size(),
    ensures
        (forall|a: int| addr <= a < addr + data.len() ==> allows(mask, #[trigger] m.perms[a]))
            <==> m.load(addr, data.len(), mask) is Ok,
        m.load(addr, data.len(), mask) is Ok <==> m.write_result(addr, mask, data).1 is Ok,
        m.load(addr, data.len(), mask) matches Err(e) ==> e matches MemoryError::BadPermissions {
            addr: r,
            access,
            perms,
        } && addr <= r.start < addr + data.len() && r.end == r.start + 1 && access == mask
            && perms == m.perms[r.start as int] && !allows(mask, perms) && (forall|a: int|
            addr <= a < r.start ==> allows(mask, #[trigger] m.perms[a])) && m.write_result(
            addr,
            mask,
            data,
        ).1 == Err::<(), MemoryError>(e),
{
    law_first_denied(m.perms, addr as int, addr + data.len(), mask);
}

/// A check for permission succeeds exactly when no byte of the range lies
/// outside the memory and every byte grants the permission.
pub proof fn law_check_outcome(m: MemoryView, range: Range<u32>, mask: u8)
    requires
        m.wf(),
    ensures
        m.permission_result(range, mask) is Ok <==> m.in_bounds(
            range.start as int,
            range.end as int,
        ) && forall|a: int| range.start <= a < range.end ==> allows(mask, #[trigger] m.perms[a]),
{
    if range.start <= range.end {
        law_first_denied(m.perms, range.start as int, range.end as int, mask);
    }
}

/// A read succeeds exactly when no byte of the range lies outside the memory
/// and every byte grants the permission, if one is asked for.  It returns
/// the bytes of the range.
pub proof fn law_read_outcome(m: MemoryView, range: Range<u32>, mask: u8)
    requires
        m.wf(),
    ensures
        m.read_result(range, mask) is Ok <==> m.in_bounds(range.start as int, range.end as int)
            && m.permits(range.start as int, range.end as int, mask),
        m.read_result(range, mask) matches Ok(bytes) ==> bytes.len() == (if range.start
            < range.end {
            range.end - range.start
        } else {
            0
        }) && forall|i: int| 0 <= i < bytes.len() ==> #[trigger] bytes[i] == m.bytes[range.start + i],
{
    if range.start <= range.end {
        law_first_denied(m.perms, range.start as int, range.end as int, mask);
    }
}

/// A load succeeds exactly when all of its bytes lie inside the memory and
/// every one of them grants the permission, if one is asked for.  It returns
/// the bytes from `addr` on.
pub proof fn law_load_outcome(m: MemoryView, addr: u32, len: nat, mask: u8)
    requires
        m.wf(),
    ensures
        m.load(addr, len, mask) is Ok <==> m.holds_span(addr, len) && m.permits(
            addr as int,
            addr + len,
            mask,
        ),
        m.load(addr, len, mask) matches Ok(bytes) ==> bytes.len() == len && forall|i: int|
            0 <= i < len ==> #[trigger] bytes[i] == m.bytes[addr + i],
        !m.holds_span(addr, len) ==> m.load(addr, len, mask) == Err::<Seq<u8>, MemoryError>(
            MemoryError::OutOfBounds { addr: span(addr, len) },
        ),
{
    if addr + len <= u32::MAX {
        law_read_outcome(m, span(addr, len), mask);
    }
}

/// A write succeeds exactly when all of its bytes lie inside the memory and
/// every one of them grants the permission, if one is asked for.
pub proof fn law_write_outcome(m: MemoryView, addr: u32, mask: u8, data: Seq<u8>)
    requires
        m.wf(),
    ensures
        m.write_result(addr, mask, data).1 is Ok <==> m.holds_span(addr, data.len()) && m.permits(
            addr as int,
            addr + data.len(),
            mask,
        ),
        m.write_result(addr, mask, data).1 is Err ==> m.write_result(addr, mask, data).0 == m,
        !m.holds_span(addr, data.len()) ==> m.write_result(addr, mask, data).1 == Err::<
            (),
            MemoryError,
        >(MemoryError::OutOfBounds { addr: span(addr, data.len()) }),
{
    law_first_denied(m.perms, addr as int, addr + data.len(), mask);
}

/// A write makes a byte readable exactly where read-after-write was pending,
/// clears the pending mark, and leaves every other permission bit alone.
pub proof fn law_touched(byte: u8)
    by (bit_vector)
    ensures
        touched(byte) & PERM_RAW == 0,
        byte & PERM_RAW != 0 ==> touched(byte) & PERM_READ != 0,
        byte & PERM_RAW == 0 ==> touched(byte) == byte,
        touched(byte) & PERM_WRITE == byte & PERM_WRITE,
        touched(byte) & PERM_EXEC == byte & PERM_EXEC,
        touched(byte) & 0xF0 == byte & 0xF0,
{
}

/// A write keeps permission bytes free of the combination of read and
/// read-after-write, and leaves a byte without permissions without any.
pub proof fn law_touched_keeps(byte: u8)
    by (bit_vector)
    ensures
        raw_excludes_read(touched(byte)),
        touched(0) == 0,
        raw_excludes_read(0),
        raw_excludes_read(PERM_RAW | PERM_WRITE),
        PERM_RAW | PERM_WRITE == 0b1010,
        raw_excludes_read(PERM_READ | PERM_WRITE | PERM_EXEC),
{
}

/// Writing, allocating and reserving keep a consistent memory consistent.
/// They leave free addresses without permissions if they were so before, and
/// they never make a byte both readable and read-after-write; allocating, as
/// long as the permission byte that it stamps is not that combination.
pub proof fn law_memory_kept(
    m: MemoryView,
    addr: u32,
    mask: u8,
    data: Seq<u8>,
    size: u32,
    perm: u8,
    start: u32,
    end: u32,
)
    requires
        m.wf(),
    ensures
        m.write_result(addr, mask, data).0.wf(),
        m.allocate_result(size, perm).0.wf(),
        m.reserve_result(start, end).0.wf(),
        m.write_result(addr, mask, data).0.size() == m.size(),
        m.allocate_result(size, perm).0.size() == m.size(),
        m.reserve_result(start, end).0.size() == m.size(),
        m.free_is_blank() ==> m.write_result(addr, mask, data).0.free_is_blank()
            && m.allocate_result(size, perm).0.free_is_blank() && m.reserve_result(
            start,
            end,
        ).0.free_is_blank(),
        m.raw_is_unreadable() ==> m.write_result(addr, mask, data).0.raw_is_unreadable()
            && m.reserve_result(start, end).0.raw_is_unreadable(),
        m.raw_is_unreadable() && raw_excludes_read(perm) ==> m.allocate_result(
            size,
            perm,
        ).0.raw_is_unreadable(),
{
    let written = m.write_result(addr, mask, data).0;
    assert forall|a: int| 0 <= a < m.size() implies raw_excludes_read(
        touched(#[trigger] m.perms[a]),
    ) && touched(0) == 0 by {
        law_touched_keeps(m.perms[a]);
    }
    law_touched_keeps(0);
    if m.free_is_blank() {
        assert forall|a: int| 0 <= a < written.size() && rangeset::holds(
            written.free,
            a,
        ) implies #[trigger] written.perms[a] == 0 by {
            assert(m.perms[a] == 0);
        }
    }
    if m.raw_is_unreadable() {
        assert forall|a: int| 0 <= a < written.size() implies raw_excludes_read(
            #[trigger] written.perms[a],
        ) by {
            assert(raw_excludes_read(m.perms[a]));
        }
    }
    rangeset::law_fit_index(m.free, 0, size);
    let i = rangeset::fit_index(m.free, 0, size);
    if i < m.free.len() {
        let first = m.free[i].0;
        let last = (first + size) as u32;
        rangeset::law_carve_holds(m.free, i, first, last);
        rangeset::law_carve_within(m.free, i, first, last, m.size());
        let allocated = m.allocate_result(size, perm).0;
        if m.free_is_blank() {
            assert forall|a: int| 0 <= a < allocated.size() && rangeset::holds(
                allocated.free,
                a,
            ) implies #[trigger] allocated.perms[a] == 0 by {
                assert(m.perms[a] == 0);
            }
        }
        if m.raw_is_unreadable() && raw_excludes_read(perm) {
            assert forall|a: int| 0 <= a < allocated.size() implies raw_excludes_read(
                #[trigger] allocated.perms[a],
            ) by {
                assert(raw_excludes_read(m.perms[a]));
            }
        }
    }
    rangeset::law_covering_index(m.free, 0, start, end);
    let i = rangeset::covering_index(m.free, 0, start, end);
    if start <= end && i < m.free.len() {
        rangeset::law_carve_holds(m.free, i, start, end);
        rangeset::law_carve_within(m.free, i, start, end, m.size());
        let reserved = m.reserve_result(start, end).0;
        if m.free_is_blank() {
            assert forall|a: int| 0 <= a < reserved.size() && rangeset::holds(
                reserved.free,
                a,
            ) implies #[trigger] reserved.perms[a] == 0 by {
                assert(m.perms[a] == 0);
            }
        }
    }
}

/// A successful write stores the data, marks exactly the bytes with a
/// pending read-after-write as readable, and touches nothing outside its
/// range.
pub proof fn law_write_effect(m: MemoryView, addr: u32, mask: u8, data: Seq<u8>)
    requires
        m.wf(),
        m.write_result(addr, mask, data).1 is Ok,
    ensures
        m.write_result(addr, mask, data).0.wf(),
        forall|a: int|
            addr <= a < addr + data.len() ==> (#[trigger] m.write_result(addr, mask, data).0.bytes[a])
                == data[a - addr],
        forall|a: int|
            addr <= a < addr + data.len() ==> (#[trigger] m.write_result(addr, mask, data).0.perms[a])
                == touched(m.perms[a]),
        forall|a: int|
            0 <= a < m.size() && !(addr <= a < addr + data.len()) ==> (#[trigger] m.write_result(
                addr,
                mask,
                data,
            ).0.bytes[a]) == m.bytes[a] && m.write_result(addr, mask, data).0.perms[a] == m.perms[a],
{
}

/// A block that was allocated lies inside the memory, was free before and is
/// not free after, and carries the permission byte that was asked for.
/// Outside the block nothing has changed: the free list holds what it held,
/// and the permission bytes are as they were.  The data bytes are untouched.
pub proof fn law_allocated(m: MemoryView, size: u32, perm: u8)
    requires
        m.wf(),
        m.allocate_result(size, perm).1 is Ok,
    ensures
        ({
            let after = m.allocate_result(size, perm).0;
            let block = m.allocate_result(size, perm).1->Ok_0;
            &&& block.0 + size == block.1
            &&& block.1 <= m.size()
            &&& after.bytes == m.bytes
            &&& after.size() == m.size()
            &&& forall|a: int|
                block.0 <= a < block.1 ==> (#[trigger] after.perms[a]) == perm && rangeset::holds(
                    m.free,
                    a,
                ) && !rangeset::holds(after.free, a)
            &&& forall|a: int|
                0 <= a < m.size() && !(block.0 <= a < block.1) ==> (#[trigger] after.perms[a])
                    == m.perms[a]
            &&& forall|a: int|
                !(block.0 <= a < block.1) ==> rangeset::holds(after.free, a) == rangeset::holds(
                    m.free,
                    a,
                )
        }),
{
    rangeset::law_fit_index(m.free, 0, size);
    let i = rangeset::fit_index(m.free, 0, size);
    let start = m.free[i].0;
    let end = (start + size) as u32;
    rangeset::law_carve_holds(m.free, i, start, end);
    assert forall|a: int| start <= a < end implies rangeset::holds(m.free, a) by {
        assert(m.free[i].0 <= a && a < m.free[i].1);
    }
}

/// What was written can be read: after a successful write, a read of the
/// same range succeeds and returns the data, provided every byte of the range
/// was readable or marked read-after-write before.
pub proof fn law_write_then_read(m: MemoryView, addr: u32, mask: u8, data: Seq<u8>)
    requires
        m.wf(),
        m.write_result(addr, mask, data).1 is Ok,
        forall|a: int|
            addr <= a < addr + data.len() ==> (#[trigger] m.perms[a]) & (PERM_READ | PERM_RAW) != 0,
    ensures
        m.write_result(addr, mask, data).0.load(addr, data.len(), PERM_READ) == Ok::<
            Seq<u8>,
            MemoryError,
        >(data),
{
    let after = m.write_result(addr, mask, data).0;
    let end = addr + data.len();
    law_first_denied(after.perms, addr as int, end, PERM_READ);
    let denied = first_denied(after.perms, addr as int, end, PERM_READ);
    if denied < end {
        lemma_touched_reads(m.perms[denied]);
    }
    if data.len() > 0 {
        assert(after.bytes.subrange(addr as int, end) =~= data);
    } else {
        assert(data =~= Seq::<u8>::empty());
    }
}

/// A byte that was readable or marked read-after-write is readable once it
/// has been written.
proof fn lemma_touched_reads(byte: u8)
    by (bit_vector)
    requires
        byte & (PERM_READ | PERM_RAW) != 0,
    ensures
        allows(PERM_READ, touched(byte)),
{
}

/// The typed loads follow the little-endian rule: the value of one, two or
/// four bytes in memory is the number that they spell with the low byte
/// first.
pub proof fn law_value_at(m: MemoryView, addr: int, len: nat)
    requires
        len == 1 || len == 2 || len == 4,
        0 <= addr,
        addr + len <= m.size(),
    ensures
        m.value_at(addr, len) == le_value(m.bytes.subrange(addr, addr + len)),
        m.value_at(addr, len) < 0x1_0000_0000,
        len == 1 ==> m.value_at(addr, len) < 0x100,
        len == 2 ==> m.value_at(addr, len) < 0x1_0000,
{
    lemma_le_value(m.bytes.subrange(addr, addr + len));
}

/// The value of one, two and four bytes in little-endian order.
pub proof fn lemma_le_value(bytes: Seq<u8>)
    ensures
        bytes.len() == 1 ==> le_value(bytes) == bytes[0],
        bytes.len() == 2 ==> le_value(bytes) == bytes[0] + 256 * bytes[1],
        bytes.len() == 4 ==> le_value(bytes) == bytes[0] + 256 * bytes[1] + 65536 * bytes[2]
            + 16777216 * bytes[3],
{
    reveal_with_fuel(le_value, 5);
    if bytes.len() == 2 {
        assert(bytes.skip(1)[0] == bytes[1]);
    }
    if bytes.len() == 4 {
        let b1 = bytes.skip(1);
        let b2 = b1.skip(1);
        let b3 = b2.skip(1);
        assert(b1[0] == bytes[1]);
        assert(b2[0] == bytes[2]);
        assert(b3[0] == bytes[3]);
        assert(b3.skip(1).len() == 0);
    }
}

/// The typed stores follow the little-endian rule: the one, two or four
/// bytes that they write are the low bytes of the number, low byte first.
pub proof fn lemma_le_bytes(value: nat)
    ensures
        le_bytes(value, 1) == little_endian(value, 1),
        le_bytes(value, 2) == little_endian(value, 2),
        le_bytes(value, 4) == little_endian(value, 4),
        le_bytes(value, 1).len() == 1,
        le_bytes(value, 2).len() == 2,
        le_bytes(value, 4).len() == 4,
{
    reveal_with_fuel(little_endian, 5);
    assert(value / 256 / 256 == value / 65536);
    assert(value / 256 / 256 / 256 == value / 16777216);
    assert(le_bytes(value, 1) =~= little_endian(value, 1));
    assert(le_bytes(value, 2) =~= little_endian(value, 2));
    assert(le_bytes(value, 4) =~= little_endian(value, 4));
}

/// Bytes written in little-endian order spell the number they were made
/// from.
pub proof fn law_le_round_trip(value: u32)
    ensures
        le_value(le_bytes(value as nat, 4)) == value,
        le_value(le_bytes(value as nat, 2)) == value % 65536,
        le_value(le_bytes(value as nat, 1)) == value % 256,
{
    lemma_le_bytes(value as nat);
    lemma_le_value(le_bytes(value as nat, 4));
    lemma_le_value(le_bytes(value as nat, 2));
    lemma_le_value(le_bytes(value as nat, 1));
}

/// Guest memory: `size` bytes, one permission byte for each, and the list of
/// intervals that are still free.
#[derive(Debug)]
pub struct Memory {
    mem: Vec<u8>,
    perms: Vec<u8>,
    free: RangeSet,
}

impl View for Memory {
    type V = MemoryView;

    closed spec fn view(&self) -> MemoryView {
        MemoryView { bytes: self.mem@, perms: self.perms@, free: self.free@ }
    }
}

impl Memory {
    /// The memory is consistent: see [`MemoryView::wf`].
    pub open spec fn wf(&self) -> bool {
        self@.wf()
    }

    /// A memory of `size` zero bytes without any permission, all of it free.
    pub fn new(size: u32) -> (memory: Self)
        ensures
            memory.wf(),
            memory@.bytes == Seq::new(size as nat, |a: int| 0u8),
            memory@.perms == Seq::new(size as nat, |a: int| 0u8),
            memory@.free == seq![(0u32, size)],
    {
        let mem = vec![0u8; size as usize];
        let perms = vec![0u8; size as usize];
        let free = RangeSet::new(0, size);
        proof {
            assert(mem@ =~= Seq::new(size as nat, |a: int| 0u8));
            assert(perms@ =~= Seq::new(size as nat, |a: int| 0u8));
        }
        Memory { mem, perms, free }
    }

    /// Number of bytes.
    pub fn size(&self) -> (n: u32)
        requires
            self.wf(),
        ensures
            n == self@.size(),
    {
        self.mem.len() as u32
    }

    /// The byte at `addr`, whatever its permissions.
    pub fn byte(&self, addr: u32) -> (b: Option<u8>)
        requires
            self.wf(),
        ensures
            b == (if addr < self@.size() {
                Some(self@.bytes[addr as int])
            } else {
                None
            }),
    {
        if (addr as usize) < self.mem.len() {
            Some(self.mem[addr as usize])
        } else {
            None
        }
    }

    /// The permission byte of the byte at `addr`.
    pub fn permission(&self, addr: u32) -> (p: Option<u8>)
        requires
            self.wf(),
        ensures
            p == (if addr < self@.size() {
                Some(self@.perms[addr as int])
            } else {
                None
            }),
    {
        if (addr as usize) < self.perms.len() {
            Some(self.perms[addr as usize])
        } else {
            None
        }
    }

    /// The intervals that no region has claimed.
    pub fn free(&self) -> (set: &RangeSet)
        ensures
            set@ == self@.free,
    {
        &self.free
    }

    /// Writes `perm` over the permission bytes of `[start, end)`.
    fn stamp_range(&mut self, start: u32, end: u32, perm: u8)
        requires
            old(self).wf(),
            start <= end <= old(self)@.size(),
        ensures
            final(self)@ == (MemoryView {
                perms: stamp(old(self)@.perms, start as int, end as int, perm),
                ..old(self)@
            }),
    {
        let mut a: usize = start as usize;
        while a < end as usize
            invariant
                start <= a <= end <= self.perms@.len(),
                self.perms@.len() == old(self).perms@.len(),
                self.mem == old(self).mem,
                self.free == old(self).free,
                self.perms@ == stamp(old(self).perms@, start as int, a as int, perm),
            decreases end - a,
        {
            self.perms[a] = perm;
            a = a + 1;
            proof {
                assert(self.perms@ =~= stamp(old(self).perms@, start as int, a as int, perm));
            }
        }
        proof {
            assert(stamp(old(self).perms@, start as int, start as int, perm) =~= old(self).perms@);
        }
    }

    /// Takes the first free interval of at least `size` bytes, claims its
    /// first `size` bytes and gives every one of them the permission byte
    /// `perms`.  Returns the claimed block as `(start, end)`; fails with
    /// `OutOfMemory`, and changes nothing, when no free interval is long
    /// enough.
    pub fn allocate(&mut self, size: u32, perms: u8) -> (res: Result<(u32, u32), MemoryError>)
        requires
            old(self).wf(),
        ensures
            final(self).wf(),
            (final(self)@, res) == old(self)@.allocate_result(size, perms),
            res is Ok <==> exists|i: int|
                0 <= i < old(self)@.free.len() && rangeset::fits(
                    #[trigger] old(self)@.free[i],
                    size,
                ),
    {
        proof {
            rangeset::law_fit_index(self.free@, 0, size);
            law_memory_kept(self@, 0, 0, Seq::<u8>::empty(), size, perms, 0, 0);
        }
        match self.free.remove_first_fit(size) {
            Err(err) => Err(MemoryError::from_range_error(err)),
            Ok((start, end)) => {
                self.stamp_range(start, end, perms);
                Ok((start, end))
            },
        }
    }

    /// Takes `[start, end)` out of the free list without touching bytes or
    /// permissions.  Succeeds when `start <= end` and one free interval
    /// `[a, b)` has `a <= start < b` and `end <= b`; fails with `OutOfMemory`,
    /// and changes nothing, otherwise.
    pub fn reserve(&mut self, start: u32, end: u32) -> (res: Result<(), MemoryError>)
        requires
            old(self).wf(),
        ensures
            final(self).wf(),
            (final(self)@, res) == old(self)@.reserve_result(start, end),
            res is Ok <==> start <= end && exists|i: int|
                0 <= i < old(self)@.free.len() && rangeset::covers(
                    #[trigger] old(self)@.free[i],
                    start,
                    end,
                ),
    {
        proof {
            rangeset::law_covering_index(self.free@, 0, start, end);
        }
        if start > end {
            return Err(MemoryError::from_range_error(rangeset::Error::OutOfBounds));
        }
        proof {
            law_memory_kept(self@, 0, 0, Seq::<u8>::empty(), 0, 0, start, end);
        }
        match self.free.remove(start, end) {
            Err(err) => Err(MemoryError::from_range_error(err)),
            Ok(()) => Ok(()),
        }
    }

    /// Fails with `OutOfBounds` when a byte of `range` lies outside the
    /// memory.  A range without bytes is inside.
    pub fn check_bounds(&self, range: Range<u32>) -> (res: Result<(), MemoryError>)
        requires
            self.wf(),
        ensures
            res is Ok <==> self@.in_bounds(range.start as int, range.end as int),
            res matches Err(e) ==> e == (MemoryError::OutOfBounds { addr: range }),
    {
        if range.start < range.end && range.end as usize > self.mem.len() {
            return Err(MemoryError::OutOfBounds { addr: range });
        }
        Ok(())
    }

    /// Gives every byte of `range` the permission byte `perm`, replacing
    /// what it had.
    pub fn set_permissions(&mut self, range: Range<u32>, perm: u8) -> (res: Result<
        (),
        MemoryError,
    >)
        requires
            old(self).wf(),
        ensures
            final(self).wf(),
            (final(self)@, res) == old(self)@.set_permissions_result(range, perm),
            res is Ok <==> old(self)@.in_bounds(range.start as int, range.end as int),
            res is Ok ==> final(self)@ == (MemoryView {
                perms: stamp(old(self)@.perms, range.start as int, range.end as int, perm),
                ..old(self)@
            }),
            res matches Err(e) ==> e == (MemoryError::OutOfBounds { addr: range }) && final(self)@
                == old(self)@,
    {
        let start = range.start;
        let end = range.end;
        if start < end && end as usize > self.mem.len() {
            return Err(MemoryError::OutOfBounds { addr: range });
        }
        if start < end {
            self.stamp_range(start, end, perm);
        } else {
            proof {
                assert(stamp(self.perms@, start as int, end as int, perm) =~= self.perms@);
            }
        }
        Ok(())
    }

    /// The first address of `[start, end)` that grants nothing of `mask`.
    fn find_denied(&self, start: usize, end: usize, mask: u8) -> (a: usize)
        requires
            start <= end <= self.perms@.len(),
        ensures
            a == first_denied(self.perms@, start as int, end as int, mask),
            start <= a <= end,
    {
        let mut a: usize = start;
        while a < end
            invariant
                start <= a <= end <= self.perms@.len(),
                first_denied(self.perms@, start as int, end as int, mask) == first_denied(
                    self.perms@,
                    a as int,
                    end as int,
                    mask,
                ),
            decreases end - a,
        {
            if !test_perm(mask, self.perms[a]) {
                return a;
            }
            a = a + 1;
        }
        a
    }

    /// Checks that every byte of `range` grants at least one permission of
    /// `perm`.  Reports the first byte that does not: its address, `perm`, and
    /// its permission byte.
    pub fn check_permission(&self, range: Range<u32>, perm: u8) -> (res: Result<(), MemoryError>)
        requires
            self.wf(),
        ensures
            res == self@.permission_result(range, perm),
            res is Ok <==> self@.in_bounds(range.start as int, range.end as int) && forall|a: int|
                range.start <= a < range.end ==> allows(perm, #[trigger] self@.perms[a]),
            res matches Err(e) ==> if self@.in_bounds(range.start as int, range.end as int) {
                self@.names_first_denied(e, range.start as int, range.end as int, perm)
            } else {
                e == MemoryError::OutOfBounds { addr: range }
            },
    {
        proof {
            law_check_outcome(self@, range, perm);
            if range.start < range.end && range.end <= self@.size() && !self@.grants(
                range.start as int,
                range.end as int,
                perm,
            ) {
                law_denial(self@, range.start as int, range.end as int, perm);
            }
        }
        let start = range.start;
        let end = range.end;
        if start < end && end as usize > self.mem.len() {
            return Err(MemoryError::OutOfBounds { addr: range });
        }
        if start < end {
            let denied = self.find_denied(start as usize, end as usize, perm);
            proof {
                law_first_denied(self.perms@, start as int, end as int, perm);
            }
            if denied < end as usize {
                let at = denied as u32;
                return Err(
                    MemoryError::BadPermissions {
                        addr: at..(at + 1),
                        access: perm,
                        perms: self.perms[denied],
                    },
                );
            }
        }
        Ok(())
    }

    /// The bytes of `range`, provided all of them lie inside the memory and,
    /// unless `perm` is zero, each grants a permission of `perm`.
    pub fn read(&self, range: Range<u32>, perm: u8) -> (res: Result<&[u8], MemoryError>)
        requires
            self.wf(),
        ensures
            res matches Ok(bytes) ==> self@.read_result(range, perm) == Ok::<Seq<u8>, MemoryError>(
                bytes@,
            ),
            res matches Err(e) ==> self@.read_result(range, perm) == Err::<Seq<u8>, MemoryError>(e),
            res is Ok <==> self@.in_bounds(range.start as int, range.end as int)
                && self@.permits(range.start as int, range.end as int, perm),
            res matches Ok(bytes) ==> bytes@.len() == (if range.start < range.end {
                range.end - range.start
            } else {
                0
            }) && forall|i: int|
                0 <= i < bytes@.len() ==> #[trigger] bytes@[i] == self@.bytes[range.start + i],
            res matches Err(e) ==> if self@.in_bounds(range.start as int, range.end as int) {
                self@.names_first_denied(e, range.start as int, range.end as int, perm)
            } else {
                e == MemoryError::OutOfBounds { addr: range }
            },
    {
        proof {
            law_read_outcome(self@, range, perm);
            if range.start < range.end && range.end <= self@.size() && !self@.grants(
                range.start as int,
                range.end as int,
                perm,
            ) {
                law_denial(self@, range.start as int, range.end as int, perm);
            }
        }
        let start = range.start;
        let end = range.end;
        if start < end && end as usize > self.mem.len() {
            return Err(MemoryError::OutOfBounds { addr: range });
        }
        if start >= end {
            let bytes = slice_subrange(self.mem.as_slice(), 0, 0);
            proof {
                assert(bytes@ =~= Seq::<u8>::empty());
            }
            return Ok(bytes);
        }
        if perm != PERM_NONE {
            let denied = self.find_denied(start as usize, end as usize, perm);
            proof {
                law_first_denied(self.perms@, start as int, end as int, perm);
            }
            if denied < end as usize {
                let at = denied as u32;
                return Err(
                    MemoryError::BadPermissions {
                        addr: at..(at + 1),
                        access: perm,
                        perms: self.perms[denied],
                    },
                );
            }
        }
        Ok(slice_subrange(self.mem.as_slice(), start as usize, end as usize))
    }

    /// The `len` bytes from `addr` on, under the rules of [`Memory::read`].
    /// Bytes beyond the top of the address space count as outside the memory.
    pub fn read_at(&self, addr: u32, len: u32, perm: u8) -> (res: Result<&[u8], MemoryError>)
        requires
            self.wf(),
        ensures
            res matches Ok(bytes) ==> self@.load(addr, len as nat, perm) == Ok::<
                Seq<u8>,
                MemoryError,
            >(bytes@) && bytes@.len() == len,
            res matches Err(e) ==> self@.load(addr, len as nat, perm) == Err::<Seq<u8>, MemoryError>(
                e,
            ),
            res is Ok <==> self@.holds_span(addr, len as nat) && self@.permits(
                addr as int,
                addr + len,
                perm,
            ),
            res matches Ok(bytes) ==> forall|i: int|
                0 <= i < len ==> #[trigger] bytes@[i] == self@.bytes[addr + i],
            res matches Err(e) ==> if self@.holds_span(addr, len as nat) {
                self@.names_first_denied(e, addr as int, addr + len, perm)
            } else {
                e == MemoryError::OutOfBounds { addr: span(addr, len as nat) }
            },
    {
        proof {
            law_load_outcome(self@, addr, len as nat, perm);
            if len > 0 && addr + len <= self@.size() && !self@.grants(
                addr as int,
                addr + len,
                perm,
            ) {
                law_denial(self@, addr as int, addr + len, perm);
            }
        }
        if len > u32::MAX - addr {
            return Err(MemoryError::OutOfBounds { addr: addr..u32::MAX });
        }
        let res = self.read(addr..(addr + len), perm);
        proof {
            if res is Ok && len > 0 {
                assert(res->Ok_0@.len() == len);
            }
        }
        res
    }

    /// The byte at `addr`, as a number.
    pub fn read_u8(&self, addr: u32, perm: u8) -> (res: Result<u32, MemoryError>)
        requires
            self.wf(),
        ensures
            res == self@.load_value(addr, 1, perm),
            res is Ok <==> addr + 1 <= self@.size() && self@.permits(
                addr as int,
                addr + 1,
                perm,
            ),
            res matches Ok(value) ==> value == self@.bytes[addr as int],
            addr + 1 > self@.size() ==> res == Err::<u32, MemoryError>(
                MemoryError::OutOfBounds { addr: span(addr, 1) },
            ),
            res matches Err(e) ==> (addr + 1 <= self@.size() ==> self@.names_first_denied(
                e,
                addr as int,
                addr + 1,
                perm,
            )),
    {
        proof {
            law_load_outcome(self@, addr, 1, perm);
            if addr + 1 <= self@.size() && !self@.grants(addr as int, addr + 1, perm) {
                law_denial(self@, addr as int, addr + 1, perm);
            }
        }
        match self.read_at(addr, 1, perm) {
            Err(e) => Err(e),
            Ok(bytes) => {
                Ok(bytes[0] as u32)
            },
        }
    }

    /// The two bytes at `addr`, as a little-endian number.
    pub fn read_u16(&self, addr: u32, perm: u8) -> (res: Result<u32, MemoryError>)
        requires
            self.wf(),
        ensures
            res == self@.load_value(addr, 2, perm),
            res is Ok <==> addr + 2 <= self@.size() && self@.permits(
                addr as int,
                addr + 2,
                perm,
            ),
            res matches Ok(value) ==> value == self@.bytes[addr as int] + 256 * self@.bytes[addr + 1],
            addr + 2 > self@.size() ==> res == Err::<u32, MemoryError>(
                MemoryError::OutOfBounds { addr: span(addr, 2) },
            ),
            res matches Err(e) ==> (addr + 2 <= self@.size() ==> self@.names_first_denied(
                e,
                addr as int,
                addr + 2,
                perm,
            )),
    {
        proof {
            law_load_outcome(self@, addr, 2, perm);
            if addr + 2 <= self@.size() && !self@.grants(addr as int, addr + 2, perm) {
                law_denial(self@, addr as int, addr + 2, perm);
            }
        }
        match self.read_at(addr, 2, perm) {
            Err(e) => Err(e),
            Ok(bytes) => {
                Ok(bytes[0] as u32 + 256 * (bytes[1] as u32))
            },
        }
    }

    /// The four bytes at `addr`, as a little-endian number.
    pub fn read_u32(&self, addr: u32, perm: u8) -> (res: Result<u32, MemoryError>)
        requires
            self.wf(),
        ensures
            res == self@.load_value(addr, 4, perm),
            res is Ok <==> addr + 4 <= self@.size() && self@.permits(
                addr as int,
                addr + 4,
                perm,
            ),
            res matches Ok(value) ==> value == self@.word_at(addr as int),
            addr + 4 > self@.size() ==> res == Err::<u32, MemoryError>(
                MemoryError::OutOfBounds { addr: span(addr, 4) },
            ),
            res matches Err(e) ==> (addr + 4 <= self@.size() ==> self@.names_first_denied(
                e,
                addr as int,
                addr + 4,
                perm,
            )),
    {
        proof {
            law_load_outcome(self@, addr, 4, perm);
            if addr + 4 <= self@.size() && !self@.grants(addr as int, addr + 4, perm) {
                law_denial(self@, addr as int, addr + 4, perm);
            }
        }
        match self.read_at(addr, 4, perm) {
            Err(e) => Err(e),
            Ok(bytes) => {
                Ok(
                    bytes[0] as u32 + 256 * (bytes[1] as u32) + 65536 * (bytes[2] as u32) + 16777216
                        * (bytes[3] as u32),
                )
            },
        }
    }

    /// The byte at `addr`, as a two's-complement number widened to 32 bits.
    pub fn read_i8(&self, addr: u32, perm: u8) -> (res: Result<u32, MemoryError>)
        requires
            self.wf(),
        ensures
            res == self@.load_signed(addr, 1, perm),
            res is Ok <==> addr + 1 <= self@.size() && self@.permits(
                addr as int,
                addr + 1,
                perm,
            ),
            res matches Ok(value) ==> value == (if self@.bytes[addr as int] >= 0x80 {
                self@.bytes[addr as int] + 0xFFFF_FF00
            } else {
                self@.bytes[addr as int] as int
            }),
            addr + 1 > self@.size() ==> res == Err::<u32, MemoryError>(
                MemoryError::OutOfBounds { addr: span(addr, 1) },
            ),
            res matches Err(e) ==> (addr + 1 <= self@.size() ==> self@.names_first_denied(
                e,
                addr as int,
                addr + 1,
                perm,
            )),
    {
        proof {
            law_load_outcome(self@, addr, 1, perm);
            if addr + 1 <= self@.size() && !self@.grants(addr as int, addr + 1, perm) {
                law_denial(self@, addr as int, addr + 1, perm);
            }
        }
        match self.read_at(addr, 1, perm) {
            Err(e) => Err(e),
            Ok(bytes) => {
                let value = bytes[0] as u32;
                if value >= 0x80 {
                    Ok(value + 0xFFFF_FF00)
                } else {
                    Ok(value)
                }
            },
        }
    }

    /// The two bytes at `addr`, as a little-endian two's-complement number
    /// widened to 32 bits.
    pub fn read_i16(&self, addr: u32, perm: u8) -> (res: Result<u32, MemoryError>)
        requires
            self.wf(),
        ensures
            res == self@.load_signed(addr, 2, perm),
            res is Ok <==> addr + 2 <= self@.size() && self@.permits(
                addr as int,
                addr + 2,
                perm,
            ),
            res matches Ok(value) ==> value == widen(self@.value_at(addr as int, 2), 16),
            addr + 2 > self@.size() ==> res == Err::<u32, MemoryError>(
                MemoryError::OutOfBounds { addr: span(addr, 2) },
            ),
            res matches Err(e) ==> (addr + 2 <= self@.size() ==> self@.names_first_denied(
                e,
                addr as int,
                addr + 2,
                perm,
            )),
    {
        proof {
            law_load_outcome(self@, addr, 2, perm);
            if addr + 2 <= self@.size() && !self@.grants(addr as int, addr + 2, perm) {
                law_denial(self@, addr as int, addr + 2, perm);
            }
        }
        match self.read_at(addr, 2, perm) {
            Err(e) => Err(e),
            Ok(bytes) => {
                let value = bytes[0] as u32 + 256 * (bytes[1] as u32);
                if value >= 0x8000 {
                    Ok(value + 0xFFFF_0000)
                } else {
                    Ok(value)
                }
            },
        }
    }

    /// Copies `data` to `addr`, provided all of its bytes lie inside the
    /// memory and, unless `perm` is zero, each of them grants a permission of
    /// `perm`.  Every written byte with a pending read-after-write becomes
    /// readable.
    pub fn write(&mut self, addr: u32, perm: u8, data: &[u8]) -> (res: Result<(), MemoryError>)
        requires
            old(self).wf(),
        ensures
            final(self).wf(),
            (final(self)@, res) == old(self)@.write_result(addr, perm, data@),
            res is Ok <==> old(self)@.holds_span(addr, data@.len()) && old(self)@.permits(
                addr as int,
                addr + data@.len(),
                perm,
            ),
            res is Ok ==> final(self)@.free == old(self)@.free && final(self)@.size() == old(
                self,
            )@.size() && forall|a: int|
                0 <= a < old(self)@.size() ==> (#[trigger] final(self)@.bytes[a]) == (if addr <= a
                    < addr + data@.len() {
                    data@[a - addr]
                } else {
                    old(self)@.bytes[a]
                }) && (#[trigger] final(self)@.perms[a]) == (if addr <= a < addr + data@.len() {
                    touched(old(self)@.perms[a])
                } else {
                    old(self)@.perms[a]
                }),
            res is Err ==> final(self)@ == old(self)@,
            res matches Err(e) ==> if old(self)@.holds_span(addr, data@.len()) {
                old(self)@.names_first_denied(e, addr as int, addr + data@.len(), perm)
            } else {
                e == MemoryError::OutOfBounds { addr: span(addr, data@.len()) }
            },
    {
        proof {
            law_write_outcome(self@, addr, perm, data@);
            if data@.len() > 0 && addr + data@.len() <= self@.size() && !self@.grants(
                addr as int,
                addr + data@.len(),
                perm,
            ) {
                law_denial(self@, addr as int, addr + data@.len(), perm);
            }
        }
        let len = data.len();
        let size = self.mem.len();
        let first = addr as usize;
        if len == 0 {
            proof {
                assert(overwrite(self.mem@, addr as int, data@) =~= self.mem@);
                assert(touch(self.perms@, addr as int, addr as int) =~= self.perms@);
            }
            return Ok(());
        }
        if len > size || first > size - len {
            let end = if len > (u32::MAX - addr) as usize {
                u32::MAX
            } else {
                addr + len as u32
            };
            return Err(MemoryError::OutOfBounds { addr: addr..end });
        }
        let last = first + len;
        if perm != PERM_NONE {
            let denied = self.find_denied(first, last, perm);
            proof {
                law_first_denied(self.perms@, first as int, last as int, perm);
            }
            if denied < last {
                let at = denied as u32;
                return Err(
                    MemoryError::BadPermissions {
                        addr: at..(at + 1),
                        access: perm,
                        perms: self.perms[denied],
                    },
                );
            }
        }
        let mut i: usize = 0;
        while i < len
            invariant
                i <= len,
                len == data@.len(),
                last == first + len,
                first == addr,
                last <= self.mem@.len(),
                self.mem@.len() == old(self).mem@.len(),
                self.perms@.len() == old(self).perms@.len(),
                self.mem@.len() == self.perms@.len(),
                self.free == old(self).free,
                self.mem@ == overwrite(old(self).mem@, addr as int, data@.take(i as int)),
                self.perms@ == touch(old(self).perms@, addr as int, addr + i),
            decreases len - i,
        {
            let at = first + i;
            let p = self.perms[at];
            proof {
                law_permission_bits(0, p);
            }
            if p & PERM_RAW != 0 {
                self.perms[at] = (p & !PERM_RAW) | PERM_READ;
            }
            self.mem[at] = data[i];
            i = i + 1;
            proof {
                assert(self.mem@ =~= overwrite(old(self).mem@, addr as int, data@.take(i as int)));
                assert(self.perms@ =~= touch(old(self).perms@, addr as int, addr + i));
            }
        }
        proof {
            assert(data@.take(len as int) =~= data@);
        }
        Ok(())
    }

    /// Stores the low byte of `val` at `addr`.
    pub fn write_u8(&mut self, addr: u32, perm: u8, val: u8) -> (res: Result<(), MemoryError>)
        requires
            old(self).wf(),
        ensures
            final(self).wf(),
            (final(self)@, res) == old(self)@.write_result(addr, perm, le_bytes(val as nat, 1)),
            le_bytes(val as nat, 1) == seq![val],
            res is Ok <==> addr + 1 <= old(self)@.size() && old(self)@.permits(
                addr as int,
                addr + 1,
                perm,
            ),
            res is Ok ==> final(self)@.free == old(self)@.free && final(self)@.size() == old(
                self,
            )@.size() && forall|a: int|
                0 <= a < old(self)@.size() ==> (#[trigger] final(self)@.bytes[a]) == (if addr <= a
                    < addr + 1 {
                    le_bytes(val as nat, 1)[a - addr]
                } else {
                    old(self)@.bytes[a]
                }) && (#[trigger] final(self)@.perms[a]) == (if addr <= a < addr + 1 {
                    touched(old(self)@.perms[a])
                } else {
                    old(self)@.perms[a]
                }),
            res is Err ==> final(self)@ == old(self)@,
            res matches Err(e) ==> if addr + 1 <= old(self)@.size() {
                old(self)@.names_first_denied(e, addr as int, addr + 1, perm)
            } else {
                e == MemoryError::OutOfBounds { addr: span(addr, 1) }
            },
    {
        let data = [val];
        proof {
            assert(data@ =~= le_bytes(val as nat, 1));
        }
        self.write(addr, perm, data.as_slice())
    }

    /// Stores `val` at `addr` as two bytes, low byte first.
    pub fn write_u16(&mut self, addr: u32, perm: u8, val: u16) -> (res: Result<(), MemoryError>)
        requires
            old(self).wf(),
        ensures
            final(self).wf(),
            (final(self)@, res) == old(self)@.write_result(addr, perm, le_bytes(val as nat, 2)),
            le_bytes(val as nat, 2) == seq![(val % 256) as u8, (val / 256) as u8],
            res is Ok <==> addr + 2 <= old(self)@.size() && old(self)@.permits(
                addr as int,
                addr + 2,
                perm,
            ),
            res is Ok ==> final(self)@.free == old(self)@.free && final(self)@.size() == old(
                self,
            )@.size() && forall|a: int|
                0 <= a < old(self)@.size() ==> (#[trigger] final(self)@.bytes[a]) == (if addr <= a
                    < addr + 2 {
                    le_bytes(val as nat, 2)[a - addr]
                } else {
                    old(self)@.bytes[a]
                }) && (#[trigger] final(self)@.perms[a]) == (if addr <= a < addr + 2 {
                    touched(old(self)@.perms[a])
                } else {
                    old(self)@.perms[a]
                }),
            res is Err ==> final(self)@ == old(self)@,
            res matches Err(e) ==> if addr + 2 <= old(self)@.size() {
                old(self)@.names_first_denied(e, addr as int, addr + 2, perm)
            } else {
                e == MemoryError::OutOfBounds { addr: span(addr, 2) }
            },
    {
        let data = [(val % 256) as u8, (val / 256) as u8];
        proof {
            assert(data@ =~= le_bytes(val as nat, 2));
        }
        self.write(addr, perm, data.as_slice())
    }

    /// Stores `val` at `addr` as four bytes, low byte first.
    pub fn write_u32(&mut self, addr: u32, perm: u8, val: u32) -> (res: Result<(), MemoryError>)
        requires
            old(self).wf(),
        ensures
            final(self).wf(),
            (final(self)@, res) == old(self)@.write_result(addr, perm, le_bytes(val as nat, 4)),
            le_bytes(val as nat, 4) == seq![
                (val % 256) as u8,
                ((val / 256) % 256) as u8,
                ((val / 65536) % 256) as u8,
                (val / 16777216) as u8,
            ],
            res is Ok <==> addr + 4 <= old(self)@.size() && old(self)@.permits(
                addr as int,
                addr + 4,
                perm,
            ),
            res is Ok ==> final(self)@.free == old(self)@.free && final(self)@.size() == old(
                self,
            )@.size() && forall|a: int|
                0 <= a < old(self)@.size() ==> (#[trigger] final(self)@.bytes[a]) == (if addr <= a
                    < addr + 4 {
                    le_bytes(val as nat, 4)[a - addr]
                } else {
                    old(self)@.bytes[a]
                }) && (#[trigger] final(self)@.perms[a]) == (if addr <= a < addr + 4 {
                    touched(old(self)@.perms[a])
                } else {
                    old(self)@.perms[a]
                }),
            res is Err ==> final(self)@ == old(self)@,
            res matches Err(e) ==> if addr + 4 <= old(self)@.size() {
                old(self)@.names_first_denied(e, addr as int, addr + 4, perm)
            } else {
                e == MemoryError::OutOfBounds { addr: span(addr, 4) }
            },
    {
        let data = [
            (val % 256) as u8,
            ((val / 256) % 256) as u8,
            ((val / 65536) % 256) as u8,
            (val / 16777216) as u8,
        ];
        proof {
            assert(data@ =~= le_bytes(val as nat, 4));
        }
        self.write(addr, perm, data.as_slice())
    }
}


} // verus!
