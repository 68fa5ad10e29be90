//! Placing the loadable segments of an executable in memory.

use crate::elf::{Elf, Flags, SegmentView};
use crate::emulator::Emulator;
use crate::memory::{
    law_memory_kept, law_write_effect, raw_excludes_read, stamp, Memory, MemoryError, MemoryView,
    PERM_EXEC, PERM_NONE, PERM_READ, PERM_WRITE,
};
use crate::rangeset;
use vstd::prelude::*;

verus! {

/// The permission byte for the flag bits of a segment: read for bit 2,
/// write for bit 1, execute for bit 0.
pub open spec fn flag_permissions(bits: u32) -> u8 {
    ((if (bits / 4) % 2 == 1 {
        PERM_READ
    } else {
        PERM_NONE
    }) + (if (bits / 2) % 2 == 1 {
        PERM_WRITE
    } else {
        PERM_NONE
    }) + (if bits % 2 == 1 {
        PERM_EXEC
    } else {
        PERM_NONE
    })) as u8
}

/// The permission byte that the flags of a segment ask for.
pub open spec fn segment_permissions(flags: Flags) -> u8 {
    flag_permissions(flags.0)
}

/// `x` rounded up to a multiple of four.
pub open spec fn round_up_4(x: int) -> int {
    (x + 3) / 4 * 4
}

/// The address behind the last byte that a segment claims: the end of its
/// memory image, rounded up to a word boundary.
pub open spec fn segment_end(segment: SegmentView) -> int {
    round_up_4(segment.load_address + segment.size)
}

/// The memory after, and the outcome of, loading one segment: its data is
/// copied to its load address without asking for any permission, the range
/// up to its end is taken out of the free list, and every byte of that range
/// receives the permission byte of the segment.  The first step that fails
/// ends the load.
pub open spec fn load_segment_result(m: MemoryView, segment: SegmentView) -> (
    MemoryView,
    Result<(), MemoryError>,
) {
    let (written, copied) = m.write_result(segment.load_address, PERM_NONE, segment.data);
    let end = segment_end(segment);
    if copied is Err {
        (m, copied)
    } else if end > u32::MAX {
        (written, Err(MemoryError::OutOfMemory { err: rangeset::Error::OutOfBounds }))
    } else {
        let (reserved, claimed) = written.reserve_result(segment.load_address, end as u32);
        if claimed is Err {
            (written, claimed)
        } else {
            reserved.set_permissions_result(
                segment.load_address..(end as u32),
                segment_permissions(segment.flags),
            )
        }
    }
}

/// The memory after, and the outcome of, loading segments in order, ending
/// at the first that fails.
pub open spec fn load_segments_result(m: MemoryView, segments: Seq<SegmentView>) -> (
    MemoryView,
    Result<(), MemoryError>,
)
    decreases segments.len(),
{
    if segments.len() == 0 {
        (m, Ok(()))
    } else {
        let (before, res) = load_segments_result(m, segments.drop_last());
        if res is Err {
            (before, res)
        } else {
            load_segment_result(before, segments.last())
        }
    }
}

/// A segment that was loaded lies in memory as the file gives it, every byte
/// up to its end has the permissions of the segment and was free before but
/// is not any more.  Outside the segment the free list holds what it held,
/// and permissions and bytes are as they were, except where the data of the
/// file reaches beyond the end of the segment.
pub proof fn law_segment_loaded(m: MemoryView, segment: SegmentView)
    requires
        m.wf(),
        load_segment_result(m, segment).1 is Ok,
    ensures
        load_segment_result(m, segment).0.wf(),
        segment.load_address <= segment_end(segment) <= m.size(),
        forall|a: int|
            segment.load_address <= a < segment.load_address + segment.data.len() ==> (
            #[trigger] load_segment_result(m, segment).0.bytes[a]) == segment.data[a
                - segment.load_address],
        forall|a: int|
            segment.load_address <= a < segment_end(segment) ==> (#[trigger] load_segment_result(
                m,
                segment,
            ).0.perms[a]) == segment_permissions(segment.flags) && !rangeset::holds(
                load_segment_result(m, segment).0.free,
                a,
            ) && rangeset::holds(m.free, a),
        forall|a: int|
            0 <= a < m.size() && !(segment.load_address <= a < segment_end(segment)) ==> (
            #[trigger] load_segment_result(m, segment).0.perms[a]) == (if a < segment.load_address
                + segment.data.len() && segment.load_address <= a {
                crate::memory::touched(m.perms[a])
            } else {
                m.perms[a]
            }) && rangeset::holds(load_segment_result(m, segment).0.free, a) == rangeset::holds(
                m.free,
                a,
            ),
        forall|a: int|
            0 <= a < m.size() && !(segment.load_address <= a < segment.load_address
                + segment.data.len()) ==> (#[trigger] load_segment_result(m, segment).0.bytes[a])
                == m.bytes[a],
{
    let start = segment.load_address;
    let end = segment_end(segment) as u32;
    let written = m.write_result(start, PERM_NONE, segment.data).0;
    law_write_effect(m, start, PERM_NONE, segment.data);
    rangeset::law_covering_index(written.free, 0, start, end);
    let i = rangeset::covering_index(written.free, 0, start, end);
    rangeset::law_carve_holds(written.free, i, start, end);
    rangeset::law_carve_within(written.free, i, start, end, m.size());
    assert forall|a: int| start <= a < end implies rangeset::holds(m.free, a) by {
        assert(m.free[i].0 <= a && a < m.free[i].1);
    }
}

/// The permission byte of a segment holds nothing but read, write and
/// execute.
proof fn lemma_flag_permissions(bits: u32)
    ensures
        raw_excludes_read(flag_permissions(bits)),
        flag_permissions(bits) < 8,
{
}

/// The union of the permission bits of a segment is their sum.
proof fn lemma_permission_union()
    by (bit_vector)
    ensures
        0u8 | 0u8 | 0u8 == 0,
        0u8 | 0u8 | 4u8 == 4,
        0u8 | 2u8 | 0u8 == 2,
        0u8 | 2u8 | 4u8 == 6,
        1u8 | 0u8 | 0u8 == 1,
        1u8 | 0u8 | 4u8 == 5,
        1u8 | 2u8 | 0u8 == 3,
        1u8 | 2u8 | 4u8 == 7,
{
}

/// Loading segments keeps a consistent memory consistent, leaves free
/// addresses without permissions if they were so before, and never makes a
/// byte both readable and read-after-write; whether the load succeeds or
/// not.
pub proof fn law_load_keeps_memory(m: MemoryView, segments: Seq<SegmentView>)
    requires
        m.wf(),
    ensures
        load_segments_result(m, segments).0.wf(),
        load_segments_result(m, segments).0.size() == m.size(),
        m.free_is_blank() ==> load_segments_result(m, segments).0.free_is_blank(),
        m.raw_is_unreadable() ==> load_segments_result(m, segments).0.raw_is_unreadable(),
    decreases segments.len(),
{
    if segments.len() > 0 {
        law_load_keeps_memory(m, segments.drop_last());
        let (before, res) = load_segments_result(m, segments.drop_last());
        if res is Ok {
            lemma_segment_keeps_memory(before, segments.last());
        }
    }
}

/// Loading one segment keeps what `law_load_keeps_memory` names.
proof fn lemma_segment_keeps_memory(m: MemoryView, segment: SegmentView)
    requires
        m.wf(),
    ensures
        load_segment_result(m, segment).0.wf(),
        load_segment_result(m, segment).0.size() == m.size(),
        m.free_is_blank() ==> load_segment_result(m, segment).0.free_is_blank(),
        m.raw_is_unreadable() ==> load_segment_result(m, segment).0.raw_is_unreadable(),
{
    let start = segment.load_address;
    let end = segment_end(segment);
    let perm = segment_permissions(segment.flags);
    let (written, copied) = m.write_result(start, PERM_NONE, segment.data);
    law_memory_kept(m, start, PERM_NONE, segment.data, 0, 0, start, 0);
    lemma_flag_permissions(segment.flags.0);
    if copied is Ok && end <= u32::MAX {
        law_memory_kept(written, 0, 0, Seq::<u8>::empty(), 0, 0, start, end as u32);
        let (reserved, claimed) = written.reserve_result(start, end as u32);
        if claimed is Ok {
            let last = end as u32;
            rangeset::law_covering_index(written.free, 0, start, last);
            let i = rangeset::covering_index(written.free, 0, start, last);
            rangeset::law_carve_holds(written.free, i, start, last);
            let loaded = load_segment_result(m, segment).0;
            assert(loaded.perms == stamp(reserved.perms, start as int, end, perm));
            if m.free_is_blank() {
                assert forall|a: int| 0 <= a < loaded.size() && rangeset::holds(
                    loaded.free,
                    a,
                ) implies #[trigger] loaded.perms[a] == 0 by {
                    assert(reserved.perms[a] == 0);
                }
            }
            if m.raw_is_unreadable() {
                assert forall|a: int| 0 <= a < loaded.size() implies raw_excludes_read(
                    #[trigger] loaded.perms[a],
                ) by {
                    assert(raw_excludes_read(reserved.perms[a]));
                }
            }
        }
    }
}

impl Emulator {
    /// Loads one segment.
    fn load_segment(
        mem: &mut Memory,
        load_address: u32,
        size: u32,
        flags: Flags,
        data: &[u8],
    ) -> (res: Result<(), MemoryError>)
        requires
            old(mem).wf(),
        ensures
            final(mem).wf(),
            forall|segment: SegmentView|
                segment.load_address == load_address && segment.size == size && segment.flags
                    == flags && segment.data == data@ ==> (final(mem)@, res)
                    == #[trigger] load_segment_result(old(mem)@, segment),
    {
        match mem.write(load_address, PERM_NONE, data) {
            Err(e) => {
                return Err(e);
            },
            Ok(()) => {},
        }
        let end: u64 = (load_address as u64 + size as u64 + 3) / 4 * 4;
        if end > u32::MAX as u64 {
            return Err(MemoryError::from_range_error(rangeset::Error::OutOfBounds));
        }
        let end = end as u32;
        match mem.reserve(load_address, end) {
            Err(e) => {
                return Err(e);
            },
            Ok(()) => {},
        }
        proof {
            lemma_permission_union();
        }
        let perm = (if flags.r() {
            PERM_READ
        } else {
            PERM_NONE
        }) | (if flags.w() {
            PERM_WRITE
        } else {
            PERM_NONE
        }) | (if flags.x() {
            PERM_EXEC
        } else {
            PERM_NONE
        });
        mem.set_permissions(load_address..end, perm)
    }

    /// Sets `pc` to the entry point of `elf` and loads its segments in
    /// order.  The first segment that cannot be loaded ends the load with its
    /// error; the segments before it stay loaded.
    pub fn load(&mut self, elf: &Elf) -> (res: Result<(), MemoryError>)
        requires
            old(self).wf(),
        ensures
            final(self).wf(),
            final(self)@.pc == elf@.entry,
            final(self)@.regs == old(self)@.regs,
            (final(self)@.mem, res) == load_segments_result(old(self)@.mem, elf@.load_segments),
    {
        self.pc = elf.entry;
        let ghost segments = elf@.load_segments;
        let count = elf.load_segments.len();
        let mut k: usize = 0;
        while k < count
            invariant
                k <= count,
                count == elf.load_segments@.len(),
                segments == elf@.load_segments,
                self.wf(),
                self.pc == elf.entry,
                self.regs == old(self).regs,
                (self.mem@, Ok::<(), MemoryError>(())) == load_segments_result(
                    old(self)@.mem,
                    segments.take(k as int),
                ),
            decreases count - k,
        {
            let segment = &elf.load_segments[k];
            let ghost before = self.mem@;
            let res = Self::load_segment(
                &mut self.mem,
                segment.load_address,
                segment.size,
                segment.flags,
                segment.data.as_slice(),
            );
            proof {
                assert(segments.take(k + 1).drop_last() =~= segments.take(k as int));
                assert(segments.take(k + 1).last() == segment@);
                assert((self.mem@, res) == load_segment_result(before, segment@));
            }
            match res {
                Err(e) => {
                    proof {
                        lemma_load_stops(old(self)@.mem, segments, k + 1);
                    }
                    return Err(e);
                },
                Ok(()) => {},
            }
            k = k + 1;
        }
        proof {
            assert(segments.take(count as int) =~= segments);
        }
        Ok(())
    }
}

/// A load that has failed after `k` segments has failed for good.
proof fn lemma_load_stops(m: MemoryView, segments: Seq<SegmentView>, k: int)
    requires
        0 <= k <= segments.len(),
        load_segments_result(m, segments.take(k)).1 is Err,
    ensures
        load_segments_result(m, segments) == load_segments_result(m, segments.take(k)),
    decreases segments.len() - k,
{
    if k == segments.len() {
        assert(segments.take(k) =~= segments);
    } else {
        assert(segments.take(k + 1).drop_last() =~= segments.take(k));
        lemma_load_stops(m, segments, k + 1);
    }
}

} // verus!
