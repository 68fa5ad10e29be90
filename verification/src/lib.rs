//! A user-mode emulator core for 32-bit RISC-V (RV32I) programs.
//!
//! - [`rangeset`]: sets of address intervals with first-fit removal.
//! - [`instructions`]: the six instruction formats and their fields.
//! - [`memory`]: guest memory with a permission byte for every data byte.
//! - [`semantics`]: what one instruction does to the machine.
//! - [`emulator`]: the interpreter that follows those semantics.
//! - [`disassemble`]: one line of text for one instruction.
//! - [`elf`]: ELF32 executables and their loadable segments.
//! - [`loader`]: placing segments in memory.
//! - [`process`]: the initial stack, the heap and the system calls.
//! - [`il`]: a small intermediate language and its listing.
//! - [`text`]: numbers as text.
//!
//! Every function states what it returns or changes over a model of plain
//! sequences and numbers; the laws that relate the functions are proof
//! functions named `law_...`.

pub mod disassemble;
pub mod elf;
pub mod emulator;
pub mod il;
pub mod instructions;
pub mod loader;
pub mod memory;
pub mod process;
pub mod rangeset;
pub mod semantics;
pub mod text;
