//! A guest process: its machine, its initial stack, its heap, and the system
//! calls that the host answers for it.

use crate::elf::{Elf, ElfView};
use crate::emulator::Emulator;
use crate::instructions::{signed, Reg};
use crate::loader::{law_load_keeps_memory, load_segments_result};
use crate::memory::{
    allows, law_allocated, law_first_denied, law_le_round_trip, law_memory_kept, law_touched,
    law_touched_keeps, law_value_at, law_write_effect, le_bytes, touched, MemoryError, MemoryView,
    PERM_RAW, PERM_READ, PERM_WRITE,
};
use crate::rangeset;
use crate::semantics::{law_shift_right_signed, reg, set_reg, wrap, MachineView};
use vstd::prelude::*;
use vstd::slice::slice_to_vec;

verus! {

/// Size of the guest address space unless the host asks for another.
pub const DEFAULT_MEMORY_SIZE: u32 = 25 * 1024 * 1024;

/// Size of the stack unless the host asks for another: a little over one
/// mebibyte.
pub const DEFAULT_STACK_SIZE: u32 = 1024 * 1096;

/// Size of the heap unless the host asks for another.
pub const DEFAULT_HEAP_SIZE: u32 = 2 * 1024 * 1024;

/// The permissions of fresh stack and heap: writable, and readable once
/// written.
pub const PERM_FRESH: u8 = PERM_RAW | PERM_WRITE;

/// The number of `close(fd)`.
pub const SYS_CLOSE: u32 = 57;

/// The number of `write(fd, buf, count)`.
pub const SYS_WRITE: u32 = 64;

/// The number of `fstat(fd, statbuf)`.
pub const SYS_FSTAT: u32 = 80;

/// The number of `exit(code)`.
pub const SYS_EXIT: u32 = 93;

/// The number of `brk(address)`.
pub const SYS_BRK: u32 = 214;

/// What `write` returns for a file descriptor that is not served.
pub const WRITE_REFUSED: u32 = 0xFFFF_FFFE;

/// Size of the buffer that `fstat` clears.
pub const STAT_SIZE: usize = 128;

/// The stack pointer `sp`.
pub open spec fn sp() -> Reg {
    Reg(2)
}

/// The first argument and the return value of a system call.
pub open spec fn a0() -> Reg {
    Reg(10)
}

/// The second argument of a system call.
pub open spec fn a1() -> Reg {
    Reg(11)
}

/// The third argument of a system call.
pub open spec fn a2() -> Reg {
    Reg(12)
}

/// The number of a system call.
pub open spec fn a7() -> Reg {
    Reg(17)
}

/// The initial stack of a process with the single argument `name`, where
/// `name_addr` is the address of the copy of `name` in the image.  From the
/// bottom: `argc`, `argv[0]`, the end of `argv`, the end of `envp`, the two
/// words that end the auxiliary vector, and `name` with its final zero byte.
pub open spec fn initial_stack(name: Seq<u8>, name_addr: u32) -> Seq<u8> {
    le_bytes(1, 4) + le_bytes(name_addr as nat, 4) + le_bytes(0, 4) + le_bytes(0, 4) + le_bytes(
        0,
        4,
    ) + le_bytes(0, 4) + name + seq![0u8]
}

/// Number of bytes of the initial stack for a name of `len` bytes.
pub open spec fn initial_stack_size(len: int) -> int {
    25 + len
}

/// What a [`Process`] holds.
pub struct ProcessView {
    pub machine: MachineView,
    /// The program break as the guest sees it.
    pub brk: u32,
    /// The address behind the heap.
    pub heap_end: u32,
}

/// The process that `start` makes, or the error that ends the attempt: the
/// segments are loaded into fresh memory, the stack is allocated and the
/// initial stack written at its top, `sp` points at it, the heap is
/// allocated, and the program break is the start of the heap.
pub open spec fn start_result(
    elf: ElfView,
    memory_size: u32,
    stack_size: u32,
    heap_size: u32,
    name: Seq<u8>,
) -> Result<ProcessView, MemoryError> {
    let fresh = MemoryView {
        bytes: Seq::new(memory_size as nat, |a: int| 0u8),
        perms: Seq::new(memory_size as nat, |a: int| 0u8),
        free: seq![(0u32, memory_size)],
    };
    let (loaded, load) = load_segments_result(fresh, elf.load_segments);
    let (stacked, stack) = loaded.allocate_result(stack_size, PERM_FRESH);
    let stack_end = stack->Ok_0.1;
    let size = initial_stack_size(name.len() as int);
    let top = (stack_end - size) as u32;
    let image = initial_stack(name, (stack_end - name.len() - 1) as u32);
    let (written, write) = stacked.write_result(top, PERM_WRITE, image);
    let (heaped, heap) = written.allocate_result(heap_size, PERM_FRESH);
    if load is Err {
        Err(load->Err_0)
    } else if stack is Err {
        Err(stack->Err_0)
    } else if size > stack_end {
        Err(MemoryError::OutOfBounds { addr: 0..stack_end })
    } else if write is Err {
        Err(write->Err_0)
    } else if heap is Err {
        Err(heap->Err_0)
    } else {
        Ok(
            ProcessView {
                machine: MachineView {
                    pc: elf.entry,
                    regs: set_reg(Seq::new(31, |i: int| 0u32), sp(), top),
                    mem: heaped,
                },
                brk: heap->Ok_0.0,
                heap_end: heap->Ok_0.1,
            },
        )
    }
}

/// A process starts with a consistent memory in which no free address
/// carries a permission and no byte is both readable and read-after-write,
/// with its program break at the start of its heap, and with a heap that lies
/// inside the memory.
pub proof fn law_start_state(
    elf: ElfView,
    memory_size: u32,
    stack_size: u32,
    heap_size: u32,
    name: Seq<u8>,
)
    requires
        start_result(elf, memory_size, stack_size, heap_size, name) is Ok,
    ensures
        ({
            let p = start_result(elf, memory_size, stack_size, heap_size, name)->Ok_0;
            &&& p.machine.wf()
            &&& p.machine.mem.size() == memory_size
            &&& p.machine.mem.free_is_blank()
            &&& p.machine.mem.raw_is_unreadable()
            &&& p.machine.pc == elf.entry
            &&& p.brk + heap_size == p.heap_end
            &&& p.heap_end <= memory_size
            &&& forall|a: int| p.brk <= a < p.heap_end ==> p.machine.mem.perms[a] == PERM_FRESH
        }),
{
    let fresh = MemoryView {
        bytes: Seq::new(memory_size as nat, |a: int| 0u8),
        perms: Seq::new(memory_size as nat, |a: int| 0u8),
        free: seq![(0u32, memory_size)],
    };
    law_touched_keeps(0);
    assert(fresh.wf());
    law_load_keeps_memory(fresh, elf.load_segments);
    let loaded = load_segments_result(fresh, elf.load_segments).0;
    law_memory_kept(loaded, 0, 0, Seq::<u8>::empty(), stack_size, PERM_FRESH, 0, 0);
    let (stacked, stack) = loaded.allocate_result(stack_size, PERM_FRESH);
    let stack_end = stack->Ok_0.1;
    let top = (stack_end - initial_stack_size(name.len() as int)) as u32;
    let image = initial_stack(name, (stack_end - name.len() - 1) as u32);
    law_memory_kept(stacked, top, PERM_WRITE, image, 0, 0, 0, 0);
    let written = stacked.write_result(top, PERM_WRITE, image).0;
    law_memory_kept(written, 0, 0, Seq::<u8>::empty(), heap_size, PERM_FRESH, 0, 0);
    law_allocated(written, heap_size, PERM_FRESH);
}

/// A word that lies readable in memory is what a load of it returns.
proof fn lemma_word_readable(mem: MemoryView, at: int, word: u32)
    requires
        mem.wf(),
        0 <= at,
        at + 4 <= mem.size(),
        forall|a: int| at <= a < at + 4 ==> allows(PERM_READ, #[trigger] mem.perms[a]),
        mem.bytes.subrange(at, at + 4) == le_bytes(word as nat, 4),
    ensures
        mem.load_value(at as u32, 4, PERM_READ) == Ok::<u32, MemoryError>(word),
{
    law_first_denied(mem.perms, at, at + 4, PERM_READ);
    law_le_round_trip(word);
    law_value_at(mem, at, 4);
}

/// The parts of the image of the initial stack.
proof fn lemma_image_parts(name: Seq<u8>, name_addr: u32)
    ensures
        ({
            let image = initial_stack(name, name_addr);
            &&& image.len() == 25 + name.len()
            &&& image.subrange(0, 4) == le_bytes(1, 4)
            &&& image.subrange(4, 8) == le_bytes(name_addr as nat, 4)
            &&& image.subrange(8, 12) == le_bytes(0, 4)
            &&& image.subrange(12, 16) == le_bytes(0, 4)
            &&& image.subrange(16, 20) == le_bytes(0, 4)
            &&& image.subrange(20, 24) == le_bytes(0, 4)
            &&& image.subrange(24, 25 + name.len() as int) == name.push(0)
        }),
{
    let image = initial_stack(name, name_addr);
    assert(image.len() == 25 + name.len());
    assert(image.subrange(0, 4) =~= le_bytes(1, 4));
    assert(image.subrange(4, 8) =~= le_bytes(name_addr as nat, 4));
    assert(image.subrange(8, 12) =~= le_bytes(0, 4));
    assert(image.subrange(12, 16) =~= le_bytes(0, 4));
    assert(image.subrange(16, 20) =~= le_bytes(0, 4));
    assert(image.subrange(20, 24) =~= le_bytes(0, 4));
    assert(image.subrange(24, 25 + name.len() as int) =~= name.push(0));
}

/// After the image of the initial stack has been written into a fresh stack
/// and the heap has been allocated, the image lies readable in memory.
proof fn lemma_image_in_memory(
    loaded: MemoryView,
    stack_size: u32,
    heap_size: u32,
    top: u32,
    image: Seq<u8>,
)
    requires
        loaded.wf(),
        loaded.allocate_result(stack_size, PERM_FRESH).1 is Ok,
        image.len() <= stack_size,
        top + image.len() == loaded.allocate_result(stack_size, PERM_FRESH).1->Ok_0.1,
        loaded.allocate_result(stack_size, PERM_FRESH).0.write_result(top, PERM_WRITE, image).1
            is Ok,
        loaded.allocate_result(stack_size, PERM_FRESH).0.write_result(
            top,
            PERM_WRITE,
            image,
        ).0.allocate_result(heap_size, PERM_FRESH).1 is Ok,
    ensures
        ({
            let mem = loaded.allocate_result(stack_size, PERM_FRESH).0.write_result(
                top,
                PERM_WRITE,
                image,
            ).0.allocate_result(heap_size, PERM_FRESH).0;
            &&& mem.wf()
            &&& mem.size() == loaded.size()
            &&& top + image.len() <= mem.size()
            &&& forall|a: int|
                top <= a < top + image.len() ==> allows(PERM_READ, #[trigger] mem.perms[a])
            &&& forall|a: int|
                top <= a < top + image.len() ==> (#[trigger] mem.bytes[a]) == image[a - top]
        }),
{
    law_allocated(loaded, stack_size, PERM_FRESH);
    law_memory_kept(loaded, 0, 0, Seq::<u8>::empty(), stack_size, PERM_FRESH, 0, 0);
    let stacked = loaded.allocate_result(stack_size, PERM_FRESH).0;
    law_write_effect(stacked, top, PERM_WRITE, image);
    law_memory_kept(stacked, top, PERM_WRITE, image, 0, 0, 0, 0);
    let written = stacked.write_result(top, PERM_WRITE, image).0;
    law_allocated(written, heap_size, PERM_FRESH);
    law_memory_kept(written, 0, 0, Seq::<u8>::empty(), heap_size, PERM_FRESH, 0, 0);
    let mem = written.allocate_result(heap_size, PERM_FRESH).0;
    law_touched(PERM_FRESH);
    assert(PERM_FRESH & PERM_RAW != 0) by (bit_vector);
    let readable = touched(PERM_FRESH);
    assert(PERM_READ & readable == readable & PERM_READ) by (bit_vector);
    assert forall|a: int| top <= a < top + image.len() implies allows(
        PERM_READ,
        #[trigger] mem.perms[a],
    ) by {
        assert(stacked.perms[a] == PERM_FRESH);
        assert(written.perms[a] == readable);
        assert(!rangeset::holds(written.free, a));
    }
    assert forall|a: int| top <= a < top + image.len() implies (#[trigger] mem.bytes[a])
        == image[a - top] by {
        assert(written.bytes[a] == image[a - top]);
    }
}

/// The initial stack as the guest finds it, where it fits into the stack:
/// `sp` points at `argc`, which is one; above it lie the address of the
/// program name, the word that ends `argv`, the word that ends `envp`, the
/// two words that end the auxiliary vector, and the program name with its
/// final zero byte, which ends where the stack ends.  All of it can be read.
pub proof fn law_initial_stack(
    elf: ElfView,
    memory_size: u32,
    stack_size: u32,
    heap_size: u32,
    name: Seq<u8>,
)
    requires
        start_result(elf, memory_size, stack_size, heap_size, name) is Ok,
        initial_stack_size(name.len() as int) <= stack_size,
    ensures
        ({
            let p = start_result(elf, memory_size, stack_size, heap_size, name)->Ok_0;
            let mem = p.machine.mem;
            let top = reg(p.machine.regs, sp());
            &&& top + 25 + name.len() <= memory_size
            &&& mem.load_value(top, 4, PERM_READ) == Ok::<u32, MemoryError>(1)
            &&& mem.load_value((top + 4) as u32, 4, PERM_READ) == Ok::<u32, MemoryError>(
                (top + 24) as u32,
            )
            &&& mem.load_value((top + 8) as u32, 4, PERM_READ) == Ok::<u32, MemoryError>(0)
            &&& mem.load_value((top + 12) as u32, 4, PERM_READ) == Ok::<u32, MemoryError>(0)
            &&& mem.load_value((top + 16) as u32, 4, PERM_READ) == Ok::<u32, MemoryError>(0)
            &&& mem.load_value((top + 20) as u32, 4, PERM_READ) == Ok::<u32, MemoryError>(0)
            &&& mem.load((top + 24) as u32, name.len() + 1, PERM_READ) == Ok::<
                Seq<u8>,
                MemoryError,
            >(name.push(0))
        }),
{
    let fresh = MemoryView {
        bytes: Seq::new(memory_size as nat, |a: int| 0u8),
        perms: Seq::new(memory_size as nat, |a: int| 0u8),
        free: seq![(0u32, memory_size)],
    };
    assert(fresh.wf());
    law_load_keeps_memory(fresh, elf.load_segments);
    let loaded = load_segments_result(fresh, elf.load_segments).0;
    let stack_end = loaded.allocate_result(stack_size, PERM_FRESH).1->Ok_0.1;
    let top = (stack_end - initial_stack_size(name.len() as int)) as u32;
    let name_addr = (stack_end - name.len() - 1) as u32;
    let image = initial_stack(name, name_addr);
    lemma_image_parts(name, name_addr);
    lemma_image_in_memory(loaded, stack_size, heap_size, top, image);
    let p = start_result(elf, memory_size, stack_size, heap_size, name)->Ok_0;
    let mem = p.machine.mem;
    assert(reg(p.machine.regs, sp()) == top);
    lemma_part_in_memory(mem, top as int, image, 0, 4);
    lemma_part_in_memory(mem, top as int, image, 4, 8);
    lemma_part_in_memory(mem, top as int, image, 8, 12);
    lemma_part_in_memory(mem, top as int, image, 12, 16);
    lemma_part_in_memory(mem, top as int, image, 16, 20);
    lemma_part_in_memory(mem, top as int, image, 20, 24);
    lemma_part_in_memory(mem, top as int, image, 24, 25 + name.len() as int);
    lemma_word_readable(mem, top as int, 1);
    lemma_word_readable(mem, top + 4, name_addr);
    lemma_word_readable(mem, top + 8, 0);
    lemma_word_readable(mem, top + 12, 0);
    lemma_word_readable(mem, top + 16, 0);
    lemma_word_readable(mem, top + 20, 0);
    law_first_denied(mem.perms, top + 24, stack_end as int, PERM_READ);
}

/// A part of an image that lies in memory lies in memory.
proof fn lemma_part_in_memory(mem: MemoryView, top: int, image: Seq<u8>, from: int, to: int)
    requires
        mem.wf(),
        0 <= top,
        0 <= from <= to <= image.len(),
        top + image.len() <= mem.size(),
        forall|a: int| top <= a < top + image.len() ==> allows(PERM_READ, #[trigger] mem.perms[a]),
        forall|a: int| top <= a < top + image.len() ==> (#[trigger] mem.bytes[a]) == image[a - top],
    ensures
        mem.bytes.subrange(top + from, top + to) == image.subrange(from, to),
        forall|a: int| top + from <= a < top + to ==> allows(PERM_READ, #[trigger] mem.perms[a]),
{
    assert(mem.bytes.subrange(top + from, top + to) =~= image.subrange(from, to));
}

/// What the host has to do after a system call.
#[derive(Debug, PartialEq, Eq)]
pub enum SyscallOutcome {
    /// Nothing: the call was answered and the guest goes on.
    Resume,
    /// Write `bytes` to standard output (`fd` 1) or standard error (`fd` 2);
    /// the guest goes on.
    Output { fd: u32, bytes: Vec<u8> },
    /// End the process with `code`.
    Exit { code: i32 },
    /// The call `number` is not served: the process cannot go on.
    Unhandled { number: u32 },
    /// The guest handed over a buffer that it may not use: the process cannot
    /// go on.
    Fault { err: MemoryError },
}

/// What a [`SyscallOutcome`] holds.
pub enum OutcomeView {
    Resume,
    Output { fd: u32, bytes: Seq<u8> },
    Exit { code: i32 },
    Unhandled { number: u32 },
    Fault { err: MemoryError },
}

impl View for SyscallOutcome {
    type V = OutcomeView;

    open spec fn view(&self) -> OutcomeView {
        match self {
            SyscallOutcome::Resume => OutcomeView::Resume,
            SyscallOutcome::Output { fd, bytes } => OutcomeView::Output { fd: *fd, bytes: bytes@ },
            SyscallOutcome::Exit { code } => OutcomeView::Exit { code: *code },
            SyscallOutcome::Unhandled { number } => OutcomeView::Unhandled { number: *number },
            SyscallOutcome::Fault { err } => OutcomeView::Fault { err: *err },
        }
    }
}

/// The program break after `brk(request)`: unchanged for a request of zero
/// and for one beyond the end of the heap, and else the request.
pub open spec fn brk_result(brk: u32, heap_end: u32, request: u32) -> u32 {
    if request == 0 || request > heap_end {
        brk
    } else {
        request
    }
}

/// The process after a system call that was answered with `value`: `a0`
/// holds `value` and `pc` points behind the `ECALL`.
pub open spec fn answered(p: ProcessView, value: u32) -> ProcessView {
    ProcessView {
        machine: MachineView {
            pc: wrap(p.machine.pc + 4),
            regs: set_reg(p.machine.regs, a0(), value),
            mem: p.machine.mem,
        },
        ..p
    }
}

/// The process after, and the outcome of, the system call that the
/// registers of `p` ask for.  A call that cannot be answered leaves the
/// process as it is.
///
/// - `close` does nothing and returns zero.
/// - `write` to descriptor 1 or 2 hands the `count` bytes at `buf`, which
///   must be readable, to the host and returns zero, not the number of bytes
///   written; to any other descriptor it returns `WRITE_REFUSED`.
/// - `fstat` clears the `STAT_SIZE` bytes at `statbuf`, which must be
///   writable, and returns zero.
/// - `exit` ends the process with the code in `a0`.
/// - `brk` moves the program break as `brk_result` says and returns it.
pub open spec fn syscall_result(p: ProcessView) -> (ProcessView, OutcomeView) {
    let regs = p.machine.regs;
    let number = reg(regs, a7());
    let arg0 = reg(regs, a0());
    let arg1 = reg(regs, a1());
    let arg2 = reg(regs, a2());
    if number == SYS_CLOSE {
        (answered(p, 0), OutcomeView::Resume)
    } else if number == SYS_WRITE {
        if arg0 == 1 || arg0 == 2 {
            match p.machine.mem.load(arg1, arg2 as nat, PERM_READ) {
                Ok(bytes) => (answered(p, 0), OutcomeView::Output { fd: arg0, bytes }),
                Err(err) => (p, OutcomeView::Fault { err }),
            }
        } else {
            (answered(p, WRITE_REFUSED), OutcomeView::Resume)
        }
    } else if number == SYS_FSTAT {
        let (mem, res) = p.machine.mem.write_result(
            arg1,
            PERM_WRITE,
            Seq::new(STAT_SIZE as nat, |i: int| 0u8),
        );
        match res {
            Ok(_) => (
                answered(ProcessView { machine: MachineView { mem, ..p.machine }, ..p }, 0),
                OutcomeView::Resume,
            ),
            Err(err) => (p, OutcomeView::Fault { err }),
        }
    } else if number == SYS_EXIT {
        (p, OutcomeView::Exit { code: signed(arg0) as i32 })
    } else if number == SYS_BRK {
        let brk = brk_result(p.brk, p.heap_end, arg0);
        (answered(ProcessView { brk, ..p }, brk), OutcomeView::Resume)
    } else {
        (p, OutcomeView::Unhandled { number })
    }
}

/// The program break moves only inside the heap: a request of zero and a
/// request beyond the end of the heap both return the break as it is, any
/// other request becomes the break.
pub proof fn law_brk(brk: u32, heap_end: u32, request: u32)
    ensures
        brk_result(brk, heap_end, 0) == brk,
        request > heap_end ==> brk_result(brk, heap_end, request) == brk,
        0 < request <= heap_end ==> brk_result(brk, heap_end, request) == request,
        brk <= heap_end ==> brk_result(brk, heap_end, request) <= heap_end,
{
}

/// Appends `word` in little-endian order.
fn push_word(image: &mut Vec<u8>, word: u32)
    ensures
        final(image)@ == old(image)@ + le_bytes(word as nat, 4),
{
    let ghost before = image@;
    image.push((word % 256) as u8);
    image.push(((word / 256) % 256) as u8);
    image.push(((word / 65536) % 256) as u8);
    image.push((word / 16777216) as u8);
    proof {
        assert(image@ =~= before + le_bytes(word as nat, 4));
    }
}

/// The image of the initial stack.
fn build_initial_stack(name: &[u8], name_addr: u32) -> (image: Vec<u8>)
    ensures
        image@ == initial_stack(name@, name_addr),
{
    let mut image: Vec<u8> = Vec::new();
    push_word(&mut image, 1);
    push_word(&mut image, name_addr);
    push_word(&mut image, 0);
    push_word(&mut image, 0);
    push_word(&mut image, 0);
    push_word(&mut image, 0);
    let ghost words = image@;
    let mut i: usize = 0;
    while i < name.len()
        invariant
            i <= name@.len(),
            image@ == words + name@.take(i as int),
        decreases name@.len() - i,
    {
        image.push(name[i]);
        i = i + 1;
        proof {
            assert(image@ =~= words + name@.take(i as int));
        }
    }
    image.push(0);
    proof {
        assert(name@.take(name@.len() as int) =~= name@);
        assert(image@ =~= initial_stack(name@, name_addr));
    }
    image
}

/// A guest process.
#[derive(Debug)]
pub struct Process {
    /// The machine that runs the guest.
    pub emu: Emulator,
    /// The program break as the guest sees it.
    pub brk: u32,
    /// The address behind the heap.
    pub heap_end: u32,
}

impl View for Process {
    type V = ProcessView;

    open spec fn view(&self) -> ProcessView {
        ProcessView { machine: self.emu@, brk: self.brk, heap_end: self.heap_end }
    }
}

impl Process {
    /// The machine of the process is consistent.
    pub open spec fn wf(&self) -> bool {
        self.emu.wf()
    }

    /// Makes the process for `elf` in a memory of `memory_size` bytes, with
    /// a stack of `stack_size` bytes, a heap of `heap_size` bytes and the
    /// program name `name` as its only argument.
    pub fn start(elf: &Elf, memory_size: u32, stack_size: u32, heap_size: u32, name: &[u8]) -> (res:
        Result<Process, MemoryError>)
        ensures
            res matches Ok(p) ==> p.wf() && start_result(
                elf@,
                memory_size,
                stack_size,
                heap_size,
                name@,
            ) == Ok::<ProcessView, MemoryError>(p@),
            res matches Err(e) ==> start_result(elf@, memory_size, stack_size, heap_size, name@)
                == Err::<ProcessView, MemoryError>(e),
    {
        let mut emu = Emulator::new(memory_size);
        match emu.load(elf) {
            Err(e) => {
                return Err(e);
            },
            Ok(()) => {},
        }
        let stack_end = match emu.mem.allocate(stack_size, PERM_RAW | PERM_WRITE) {
            Err(e) => {
                return Err(e);
            },
            Ok((_, end)) => end,
        };
        assert(PERM_RAW | PERM_WRITE == PERM_FRESH) by (bit_vector);
        let len = name.len();
        if len > u32::MAX as usize - 25 || len as u32 + 25 > stack_end {
            return Err(MemoryError::OutOfBounds { addr: 0..stack_end });
        }
        let top = stack_end - (len as u32 + 25);
        let image = build_initial_stack(name, stack_end - len as u32 - 1);
        match emu.mem.write(top, PERM_WRITE, image.as_slice()) {
            Err(e) => {
                return Err(e);
            },
            Ok(()) => {},
        }
        emu.write_reg(Reg(2), top);
        let (heap_start, heap_end) = match emu.mem.allocate(heap_size, PERM_RAW | PERM_WRITE) {
            Err(e) => {
                return Err(e);
            },
            Ok(block) => block,
        };
        Ok(Process { emu, brk: heap_start, heap_end })
    }

    /// Answers `brk(request)`: returns the program break after the call.
    pub fn brk(&mut self, request: u32) -> (brk: u32)
        ensures
            brk == brk_result(old(self)@.brk, old(self)@.heap_end, request),
            final(self)@ == (ProcessView { brk, ..old(self)@ }),
            final(self).emu == old(self).emu,
    {
        if request == 0 {
        } else if request > self.heap_end {
        } else {
            self.brk = request;
        }
        self.brk
    }

    /// Hands `value` back to the guest and moves `pc` behind the `ECALL`.
    fn answer(&mut self, value: u32)
        ensures
            final(self)@ == answered(old(self)@, value),
            final(self).emu.mem == old(self).emu.mem,
    {
        self.emu.write_reg(Reg(10), value);
        self.emu.pc = self.emu.pc.wrapping_add(4);
    }

    /// Answers the system call that the guest has made: reads its number
    /// from `a7` and its arguments from `a0` to `a2`, does what can be done
    /// inside the process, and tells the host what is left for it to do.
    /// After a call that was answered, `a0` holds the return value and `pc`
    /// points behind the `ECALL`.
    pub fn syscall(&mut self) -> (outcome: SyscallOutcome)
        requires
            old(self).wf(),
        ensures
            final(self).wf(),
            (final(self)@, outcome@) == syscall_result(old(self)@),
    {
        let number = self.emu.read_reg(Reg(17));
        let arg0 = self.emu.read_reg(Reg(10));
        let arg1 = self.emu.read_reg(Reg(11));
        let arg2 = self.emu.read_reg(Reg(12));
        if number == SYS_CLOSE {
            self.answer(0);
            SyscallOutcome::Resume
        } else if number == SYS_WRITE {
            if arg0 == 1 || arg0 == 2 {
                let bytes = match self.emu.mem.read_at(arg1, arg2, PERM_READ) {
                    Err(err) => {
                        return SyscallOutcome::Fault { err };
                    },
                    Ok(bytes) => slice_to_vec(bytes),
                };
                self.answer(0);
                SyscallOutcome::Output { fd: arg0, bytes }
            } else {
                self.answer(WRITE_REFUSED);
                SyscallOutcome::Resume
            }
        } else if number == SYS_FSTAT {
            let zeros = vec![0u8; STAT_SIZE];
            proof {
                assert(zeros@ =~= Seq::new(STAT_SIZE as nat, |i: int| 0u8));
            }
            match self.emu.mem.write(arg1, PERM_WRITE, zeros.as_slice()) {
                Err(err) => SyscallOutcome::Fault { err },
                Ok(()) => {
                    self.answer(0);
                    SyscallOutcome::Resume
                },
            }
        } else if number == SYS_EXIT {
            proof {
                law_shift_right_signed(arg0, 0);
            }
            SyscallOutcome::Exit { code: arg0 as i32 }
        } else if number == SYS_BRK {
            let brk = self.brk(arg0);
            self.answer(brk);
            SyscallOutcome::Resume
        } else {
            SyscallOutcome::Unhandled { number }
        }
    }
}

} // verus!
