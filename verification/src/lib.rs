//! Driver core for programming a serial NOR flash chip (MT25QL512ABB) over a
//! quad-wire bus.
//!
//! The crate is organised leaf-first:
//! - [`cmds`]: the chip's one-byte instruction opcodes;
//! - [`chip`]: a model of the chip behind the bus -- its memory array,
//!   write-enable latch, busy flag and transaction log -- against which every
//!   driver operation is verified, including injected bus-transaction failures;
//! - [`driver`]: the command primitives (write-enable, chunked read, chunked
//!   page program, sector/bulk erase), the status poller, and the
//!   five-operation facade [`driver::Algorithm`] that a host programming tool
//!   drives;
//! - [`laws`]: proofs of the driver-wide guarantees (erase/program round
//!   trips, write-enable discipline, chunk coverage).

pub mod chip;
pub mod cmds;
pub mod driver;
pub mod laws;

use vstd::prelude::*;

verus! {

/// Base address at which the flash is memory-mapped into the host's space.
pub const FLASH_ADDRESS: u32 = 0x9000_0000;

/// Total size of the flash device in bytes (64 MiB).
pub const FLASH_SIZE: u32 = 0x400_0000;

/// Largest contiguous unit writable by one program operation (256 B).
pub const PAGE_SIZE: u32 = 0x100;

/// Smallest erasable unit: one 4 KiB subsector.
pub const SECTOR_SIZE: u32 = 0x1000;

/// Value of every byte of an erased region.
pub const EMPTY_VALUE: u8 = 0xFF;

/// Largest data payload of a single bus transaction, in bytes.
pub const MAX_CHUNK: usize = 32;

/// Host-facing budget for one program operation, in host time units.
pub const PROGRAM_TIME_OUT: u32 = 1000;

/// Host-facing budget for one erase operation, in host time units.
pub const ERASE_TIME_OUT: u32 = 20000;

/// Identifier of the target flash device.
pub fn device_name() -> (s: &'static str) {
    "MT25QL512ABB"
}

} // verus!
