//! An instruction-level emulator of a small x86-64 machine: a register file
//! with sub-register views, a cache in front of physical memory, a page-table
//! walker, and an engine that decodes and executes instruction text.
#![allow(non_camel_case_types)]

pub mod address;
pub mod error;
pub mod dram;
pub mod sram;
pub mod memory;
pub mod registers;
pub mod mmu;
pub mod number;
pub mod decode;
pub mod isa;
pub mod quota;
pub mod elf;
