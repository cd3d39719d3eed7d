//! Core of the alea virtual machine: the instruction set, its 32-bit
//! instruction encoding, a byte-addressed memory map and the CPU that
//! fetches, decodes and executes instructions from it.
pub mod isa;
pub mod decode;
pub mod encode;
pub mod vcore;
pub mod roundtrip;
pub mod bytes_buf;
pub mod memory;
pub mod cpu_laws;
pub mod console;
pub mod listing;
pub mod assembly;
pub mod text;
pub mod format_laws;
pub mod instruction_laws;
