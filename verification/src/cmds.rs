//! Instruction opcodes of the target chip.
//!
//! Each opcode is fixed by the device's datasheet and must be preserved
//! exactly for wire compatibility; opcodes are only looked up, never computed.

use vstd::prelude::*;

verus! {

/// Opcode of the write-enable command.
pub const OP_WRITE_ENABLE: u8 = 0x06;

/// Opcode of the normal-read command.
pub const OP_READ: u8 = 0x03;

/// Opcode of the page-program command.
pub const OP_PAGE_PROGRAM: u8 = 0x02;

/// Opcode of the 4 KiB subsector-erase command.
pub const OP_SUBSECTOR_ERASE: u8 = 0x20;

/// Opcode of the bulk-erase (whole chip) command.
pub const OP_BULK_ERASE: u8 = 0xC7;

/// Opcode of the read-status-register command.
pub const OP_READ_STATUS: u8 = 0x05;

/// The chip's command set.
#[derive(Clone, Copy, PartialEq, Eq, Structural, Debug)]
pub enum Cmds {
    WriteEnable,
    Read,
    PageProgram,
    Subsector4KbErase,
    BulkErase,
    ReadStatusRegister,
}

impl Cmds {
    /// The one-byte opcode this command puts on the wire.
    pub open spec fn spec_opcode(self) -> u8 {
        match self {
            Cmds::WriteEnable => OP_WRITE_ENABLE,
            Cmds::Read => OP_READ,
            Cmds::PageProgram => OP_PAGE_PROGRAM,
            Cmds::Subsector4KbErase => OP_SUBSECTOR_ERASE,
            Cmds::BulkErase => OP_BULK_ERASE,
            Cmds::ReadStatusRegister => OP_READ_STATUS,
        }
    }

    /// Look the opcode up (never computed).
    pub fn opcode(self) -> (r: u8)
        ensures
            r == self.spec_opcode(),
    {
        match self {
            Cmds::WriteEnable => OP_WRITE_ENABLE,
            Cmds::Read => OP_READ,
            Cmds::PageProgram => OP_PAGE_PROGRAM,
            Cmds::Subsector4KbErase => OP_SUBSECTOR_ERASE,
            Cmds::BulkErase => OP_BULK_ERASE,
            Cmds::ReadStatusRegister => OP_READ_STATUS,
        }
    }
}

} // verus!
