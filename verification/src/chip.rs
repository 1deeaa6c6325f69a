//! A model of the flash chip as seen through the quad-wire bus.
//!
//! The driver in [`crate::driver`] is verified against this model: a byte
//! array, the write-enable latch (set by the write-enable command, consumed
//! by every write-class command), a busy countdown sampled through the
//! status register, a transaction log recording every wire exchange, and a
//! fault plan that makes a chosen bus transaction fail, so that the driver's
//! behaviour under a bus-transaction failure is part of its contract.

use vstd::prelude::*;
use vstd::pervasive::VecAdditionalExecFns;
use vstd::slice::{slice_index_get, slice_to_vec};
use crate::cmds::{OP_WRITE_ENABLE, OP_READ, OP_PAGE_PROGRAM, OP_SUBSECTOR_ERASE, OP_BULK_ERASE,
    OP_READ_STATUS};
use crate::SECTOR_SIZE;

verus! {

/// A failed bus transaction: the transaction had no effect on the chip.
#[derive(Clone, Copy, PartialEq, Eq, Structural, Debug)]
pub struct BusError;

/// One wire exchange, as the chip saw it: the instruction byte, the optional
/// 24-bit address phase, the data phase (host-to-chip bytes in `payload`,
/// chip-to-host length in `read_len`), and whether the bus reported success.
pub struct TxRecord {
    pub instruction: u8,
    pub address: Option<u32>,
    pub payload: Vec<u8>,
    pub read_len: usize,
    pub ok: bool,
}

/// Pins every field of a logged transaction.
pub open spec fn tx_is(
    r: TxRecord,
    instruction: u8,
    address: Option<u32>,
    payload: Seq<u8>,
    read_len: int,
    ok: bool,
) -> bool {
    &&& r.instruction == instruction
    &&& r.address == address
    &&& r.payload@ == payload
    &&& r.read_len == read_len
    &&& r.ok == ok
}

/// `n` erased bytes.
pub open spec fn all_ff(n: nat) -> Seq<u8> {
    Seq::new(n, |i: int| 0xFFu8)
}

/// Contents after programming `d` at address `a`: programming can only clear
/// bits, so each programmed byte is the bitwise AND of the old byte and the
/// new one (an erased, all-ones byte takes the new value exactly).
pub open spec fn program_bytes(mem: Seq<u8>, a: int, d: Seq<u8>) -> Seq<u8> {
    Seq::new(mem.len(), |i: int| if a <= i < a + d.len() {
        (mem[i] & d[i - a]) as u8
    } else {
        mem[i]
    })
}

/// First byte of the erase sector that address `a` falls in.
pub open spec fn sector_base(a: int) -> int {
    (a / (SECTOR_SIZE as int)) * (SECTOR_SIZE as int)
}

/// Contents after erasing the subsector that address `a` falls in.
pub open spec fn erase_sector_bytes(mem: Seq<u8>, a: int) -> Seq<u8> {
    Seq::new(mem.len(), |i: int| if sector_base(a) <= i < sector_base(a) + SECTOR_SIZE as int {
        0xFFu8
    } else {
        mem[i]
    })
}

/// The fault plan after `n` more successful-or-failed transactions: the plan
/// counts down, and is spent once the failure has been delivered.
pub open spec fn fail_sub(f: Option<u64>, n: int) -> Option<u64> {
    match f {
        Option::None => Option::None,
        Option::Some(k) => if k >= n {
            Option::Some((k - n) as u64)
        } else {
            Option::None
        },
    }
}

/// Whether the fault plan makes one of the next `n` transactions fail.
pub open spec fn fail_hits(f: Option<u64>, n: int) -> bool {
    match f {
        Option::None => false,
        Option::Some(k) => k < n,
    }
}

/// Is this opcode a write-class command (one that consumes the write-enable
/// latch and leaves the chip busy)?
pub open spec fn is_write_command(instruction: u8) -> bool {
    ||| instruction == OP_PAGE_PROGRAM
    ||| instruction == OP_SUBSECTOR_ERASE
    ||| instruction == OP_BULK_ERASE
}

/// Memory contents after one successful write-direction transaction. A
/// write-class command issued with the latch clear is silently ignored.
pub open spec fn write_effect_mem(
    mem: Seq<u8>,
    we: bool,
    instruction: u8,
    address: Option<u32>,
    data: Seq<u8>,
) -> Seq<u8> {
    if !we {
        mem
    } else if instruction == OP_PAGE_PROGRAM {
        match address {
            Option::Some(a) => program_bytes(mem, a as int, data),
            Option::None => mem,
        }
    } else if instruction == OP_SUBSECTOR_ERASE {
        match address {
            Option::Some(a) => erase_sector_bytes(mem, a as int),
            Option::None => mem,
        }
    } else if instruction == OP_BULK_ERASE {
        all_ff(mem.len())
    } else {
        mem
    }
}

/// Write-enable latch after one successful write-direction transaction:
/// write-enable sets it, a write-class command consumes it.
pub open spec fn write_effect_we(we: bool, instruction: u8) -> bool {
    if instruction == OP_WRITE_ENABLE {
        true
    } else if is_write_command(instruction) && we {
        false
    } else {
        we
    }
}

/// Busy countdown after one successful write-direction transaction: an
/// executed write-class command leaves the chip busy for `budget` polls.
pub open spec fn write_effect_busy(busy: u32, budget: u32, we: bool, instruction: u8) -> u32 {
    if is_write_command(instruction) && we {
        budget
    } else {
        busy
    }
}

/// The chip model. `mem` is the flash array; `write_enabled` the one-shot
/// write-enable latch; `busy` how many more status reads will still report
/// the write-in-progress bit; `busy_budget` the busy countdown a write-class
/// command starts; `fail_in` the fault plan (the transaction that many
/// exchanges ahead fails); `log` every transaction issued so far.
pub struct Chip {
    pub mem: Vec<u8>,
    pub write_enabled: bool,
    pub busy: u32,
    pub busy_budget: u32,
    pub fail_in: Option<u64>,
    pub log: Vec<TxRecord>,
}

impl Chip {
    /// A fresh, fully erased chip of `size` bytes, idle, latch clear.
    pub fn new(size: usize, busy_budget: u32, fail_in: Option<u64>) -> (c: Chip)
        ensures
            c.mem@ == all_ff(size as nat),
            c.write_enabled == false,
            c.busy == 0,
            c.busy_budget == busy_budget,
            c.fail_in == fail_in,
            c.log@ == Seq::<TxRecord>::empty(),
    {
        let mut mem: Vec<u8> = Vec::new();
        let mut i: usize = 0;
        while i < size
            invariant
                i <= size,
                mem@.len() == i,
                forall|m: int| 0 <= m < i ==> mem@[m] == 0xFFu8,
            decreases size - i,
        {
            mem.push(0xFF);
            i = i + 1;
        }
        proof {
            assert(mem@ =~= all_ff(size as nat));
        }
        Chip { mem, write_enabled: false, busy: 0, busy_budget, fail_in, log: Vec::new() }
    }

    /// Step the fault plan past one transaction; returns whether that
    /// transaction fails.
    fn step_fault(&mut self) -> (fails: bool)
        ensures
            fails == fail_hits(old(self).fail_in, 1),
            final(self).fail_in == fail_sub(old(self).fail_in, 1),
            final(self).mem == old(self).mem,
            final(self).write_enabled == old(self).write_enabled,
            final(self).busy == old(self).busy,
            final(self).busy_budget == old(self).busy_budget,
            final(self).log == old(self).log,
    {
        match self.fail_in {
            Option::Some(k) => {
                if k == 0 {
                    self.fail_in = None;
                    true
                } else {
                    self.fail_in = Some(k - 1);
                    false
                }
            },
            Option::None => false,
        }
    }

    /// One write-direction transaction: instruction byte, optional 24-bit
    /// address, host-to-chip data phase. On failure the chip is untouched.
    pub fn issue_write(&mut self, instruction: u8, address: Option<u32>, data: &[u8]) -> (r:
        Result<(), BusError>)
        requires
            (match address {
                Option::Some(a) => a < 0x100_0000,
                Option::None => true,
            }),
            instruction == OP_PAGE_PROGRAM ==> (match address {
                Option::Some(a) => a + data@.len() <= old(self).mem@.len(),
                Option::None => false,
            }),
            instruction == OP_SUBSECTOR_ERASE ==> (match address {
                Option::Some(a) => sector_base(a as int) + SECTOR_SIZE as int
                    <= old(self).mem@.len(),
                Option::None => false,
            }),
        ensures
            final(self).busy_budget == old(self).busy_budget,
            final(self).log@.len() == old(self).log@.len() + 1,
            final(self).log@.drop_last() == old(self).log@,
            tx_is(final(self).log@.last(), instruction, address, data@, 0, r is Ok),
            r is Ok <==> !fail_hits(old(self).fail_in, 1),
            final(self).fail_in == fail_sub(old(self).fail_in, 1),
            r is Ok ==> final(self).mem@ == write_effect_mem(
                old(self).mem@,
                old(self).write_enabled,
                instruction,
                address,
                data@,
            ),
            r is Ok ==> final(self).write_enabled == write_effect_we(
                old(self).write_enabled,
                instruction,
            ),
            r is Ok ==> final(self).busy == write_effect_busy(
                old(self).busy,
                old(self).busy_budget,
                old(self).write_enabled,
                instruction,
            ),
            r is Err ==> final(self).mem@ == old(self).mem@
                && final(self).write_enabled == old(self).write_enabled
                && final(self).busy == old(self).busy,
    {
        let fails = self.step_fault();
        if fails {
            let rec = TxRecord {
                instruction,
                address,
                payload: slice_to_vec(data),
                read_len: 0,
                ok: false,
            };
            self.log.push(rec);
            proof {
                assert(self.log@.drop_last() =~= old(self).log@);
            }
            return Err(BusError);
        }
        let _mem_len = self.mem.len();
        proof {
            assert(self.mem@.len() <= usize::MAX);
        }
        if instruction == OP_WRITE_ENABLE {
            self.write_enabled = true;
        } else if self.write_enabled && instruction == OP_PAGE_PROGRAM {
            let a = address.unwrap() as usize;
            let mut i: usize = 0;
            while i < data.len()
                invariant
                    i <= data@.len(),
                    a + data@.len() <= self.mem@.len(),
                    self.mem@.len() <= usize::MAX,
                    self.mem@.len() == old(self).mem@.len(),
                    forall|m: int| a <= m < a + i ==> self.mem@[m] == (old(self).mem@[m]
                        & data@[m - a]),
                    forall|m: int| 0 <= m < self.mem@.len() && !(a <= m < a + i)
                        ==> self.mem@[m] == old(self).mem@[m],
                    self.write_enabled == old(self).write_enabled,
                    self.busy == old(self).busy,
                    self.busy_budget == old(self).busy_budget,
                    self.log == old(self).log,
                    self.fail_in == fail_sub(old(self).fail_in, 1),
                decreases data@.len() - i,
            {
                let b = self.mem[a + i] & *slice_index_get(data, i);
                self.mem.set(a + i, b);
                i = i + 1;
            }
            proof {
                assert(self.mem@ =~= program_bytes(
                    old(self).mem@,
                    address.unwrap() as int,
                    data@,
                ));
            }
            self.write_enabled = false;
            self.busy = self.busy_budget;
        } else if self.write_enabled && instruction == OP_SUBSECTOR_ERASE {
            let base = ((address.unwrap() / SECTOR_SIZE) * SECTOR_SIZE) as usize;
            let mut i: usize = 0;
            while i < SECTOR_SIZE as usize
                invariant
                    i <= SECTOR_SIZE,
                    base == sector_base(address.unwrap() as int),
                    base + SECTOR_SIZE <= self.mem@.len(),
                    self.mem@.len() <= usize::MAX,
                    self.mem@.len() == old(self).mem@.len(),
                    forall|m: int| base <= m < base + i ==> self.mem@[m] == 0xFFu8,
                    forall|m: int| 0 <= m < self.mem@.len() && !(base <= m < base + i)
                        ==> self.mem@[m] == old(self).mem@[m],
                    self.write_enabled == old(self).write_enabled,
                    self.busy == old(self).busy,
                    self.busy_budget == old(self).busy_budget,
                    self.log == old(self).log,
                    self.fail_in == fail_sub(old(self).fail_in, 1),
                decreases SECTOR_SIZE - i,
            {
                self.mem.set(base + i, 0xFF);
                i = i + 1;
            }
            proof {
                assert(self.mem@ =~= erase_sector_bytes(old(self).mem@, address.unwrap() as int));
            }
            self.write_enabled = false;
            self.busy = self.busy_budget;
        } else if self.write_enabled && instruction == OP_BULK_ERASE {
            let n = self.mem.len();
            let mut i: usize = 0;
            while i < n
                invariant
                    i <= n,
                    n == self.mem@.len(),
                    self.mem@.len() == old(self).mem@.len(),
                    forall|m: int| 0 <= m < i ==> self.mem@[m] == 0xFFu8,
                    forall|m: int| i <= m < self.mem@.len() ==> self.mem@[m] == old(self).mem@[m],
                    self.write_enabled == old(self).write_enabled,
                    self.busy == old(self).busy,
                    self.busy_budget == old(self).busy_budget,
                    self.log == old(self).log,
                    self.fail_in == fail_sub(old(self).fail_in, 1),
                decreases n - i,
            {
                self.mem.set(i, 0xFF);
                i = i + 1;
            }
            proof {
                assert(self.mem@ =~= all_ff(old(self).mem@.len()));
            }
            self.write_enabled = false;
            self.busy = self.busy_budget;
        }
        let rec = TxRecord {
            instruction,
            address,
            payload: slice_to_vec(data),
            read_len: 0,
            ok: true,
        };
        self.log.push(rec);
        proof {
            assert(self.log@.drop_last() =~= old(self).log@);
        }
        Ok(())
    }

    /// One read-direction transaction: a status-register read (one byte,
    /// reporting and stepping the busy countdown) or a normal read of
    /// `read_len` bytes from `address`. On failure the chip is untouched.
    pub fn issue_read(&mut self, instruction: u8, address: Option<u32>, read_len: usize) -> (r:
        Result<Vec<u8>, BusError>)
        requires
            instruction == OP_READ_STATUS || instruction == OP_READ,
            instruction == OP_READ_STATUS ==> address is None && read_len == 1,
            instruction == OP_READ ==> (match address {
                Option::Some(a) => a < 0x100_0000 && a + read_len <= old(self).mem@.len(),
                Option::None => false,
            }),
        ensures
            final(self).mem@ == old(self).mem@,
            final(self).write_enabled == old(self).write_enabled,
            final(self).busy_budget == old(self).busy_budget,
            final(self).log@.len() == old(self).log@.len() + 1,
            final(self).log@.drop_last() == old(self).log@,
            tx_is(final(self).log@.last(), instruction, address, Seq::<u8>::empty(),
                read_len as int, r is Ok),
            r is Ok <==> !fail_hits(old(self).fail_in, 1),
            final(self).fail_in == fail_sub(old(self).fail_in, 1),
            r is Err ==> final(self).busy == old(self).busy,
            r matches Ok(v) ==> ({
                &&& v@.len() == read_len
                &&& instruction == OP_READ_STATUS ==> {
                    &&& v@ == seq![if old(self).busy > 0 { 1u8 } else { 0u8 }]
                    &&& final(self).busy == (if old(self).busy > 0 {
                        (old(self).busy - 1) as u32
                    } else {
                        0u32
                    })
                }
                &&& instruction == OP_READ ==> (match address {
                    Option::Some(a) => v@ == old(self).mem@.subrange(a as int, a + read_len)
                        && final(self).busy == old(self).busy,
                    Option::None => false,
                })
            }),
    {
        let fails = self.step_fault();
        if fails {
            let rec = TxRecord {
                instruction,
                address,
                payload: Vec::new(),
                read_len,
                ok: false,
            };
            self.log.push(rec);
            proof {
                assert(self.log@.drop_last() =~= old(self).log@);
            }
            return Err(BusError);
        }
        let _mem_len = self.mem.len();
        proof {
            assert(self.mem@.len() <= usize::MAX);
        }
        let mut out: Vec<u8> = Vec::new();
        if instruction == OP_READ_STATUS {
            if self.busy > 0 {
                out.push(1);
                self.busy = self.busy - 1;
            } else {
                out.push(0);
            }
        } else {
            let a = address.unwrap() as usize;
            let mut i: usize = 0;
            while i < read_len
                invariant
                    i <= read_len,
                    a + read_len <= self.mem@.len(),
                    self.mem@.len() <= usize::MAX,
                    out@.len() == i,
                    forall|m: int| 0 <= m < i ==> out@[m] == self.mem@[a + m],
                    self.mem == old(self).mem,
                    self.write_enabled == old(self).write_enabled,
                    self.busy == old(self).busy,
                    self.busy_budget == old(self).busy_budget,
                    self.log == old(self).log,
                    self.fail_in == fail_sub(old(self).fail_in, 1),
                decreases read_len - i,
            {
                let b = self.mem[a + i];
                out.push(b);
                i = i + 1;
            }
            proof {
                assert(out@ =~= self.mem@.subrange(a as int, a + read_len));
            }
        }
        let rec = TxRecord {
            instruction,
            address,
            payload: Vec::new(),
            read_len,
            ok: true,
        };
        self.log.push(rec);
        proof {
            assert(self.log@.drop_last() =~= old(self).log@);
        }
        Ok(out)
    }
}

} // verus!
