//! The driver core: status poller, command primitives (write-enable, chunked
//! normal-read, chunked page-program, sector/bulk erase) and the
//! five-operation facade that a host programming tool drives.
//!
//! Every primitive is specified down to the exact wire traffic it produces
//! (see the transaction log of [`crate::chip::Chip`]) and to its behaviour
//! when any single bus transaction fails: a failure aborts the enclosing
//! operation at once, leaving exactly the chunks before it applied.

use vstd::prelude::*;
use vstd::arithmetic::div_mod::lemma_fundamental_div_mod_converse;
use vstd::pervasive::VecAdditionalExecFns;
use vstd::slice::slice_subrange;
use crate::chip::{BusError, Chip, TxRecord, all_ff, erase_sector_bytes, fail_hits, fail_sub,
    is_write_command, program_bytes, sector_base, tx_is, write_effect_mem};
use crate::cmds::{Cmds, OP_WRITE_ENABLE, OP_READ, OP_PAGE_PROGRAM, OP_SUBSECTOR_ERASE,
    OP_BULK_ERASE, OP_READ_STATUS};
use crate::{MAX_CHUNK, PAGE_SIZE, SECTOR_SIZE};

verus! {

/// Number of bus transactions a span of `n` bytes is split into.
pub open spec fn num_chunks(n: int) -> int {
    (n + MAX_CHUNK - 1) / (MAX_CHUNK as int)
}

/// Length of chunk `c` of a span of `n` bytes: the transaction payload limit,
/// except for a shorter final chunk.
pub open spec fn chunk_len(n: int, c: int) -> int {
    if n - MAX_CHUNK * c < MAX_CHUNK {
        n - MAX_CHUNK * c
    } else {
        MAX_CHUNK as int
    }
}

/// Chunk `c` of the span `d`.
pub open spec fn chunk_of(d: Seq<u8>, c: int) -> Seq<u8> {
    d.subrange(MAX_CHUNK * c, MAX_CHUNK * c + chunk_len(d.len() as int, c))
}

/// Bus transactions per write-class command: write-enable, its settle poll,
/// the command itself, then `busy_budget + 1` status polls.
pub open spec fn txs_per_wcmd(budget: u32) -> int {
    budget + 4
}

/// The `pos`-th transaction of one write-class command sequence: write-enable
/// first, one settle poll, the command (instruction, address, payload), then
/// status polls until the busy bit clears.
pub open spec fn wseq_tx_shape(
    r: TxRecord,
    pos: int,
    instruction: u8,
    address: Option<u32>,
    payload: Seq<u8>,
    ok: bool,
) -> bool {
    if pos == 0 {
        tx_is(r, OP_WRITE_ENABLE, Option::None, Seq::<u8>::empty(), 0, ok)
    } else if pos == 1 {
        tx_is(r, OP_READ_STATUS, Option::None, Seq::<u8>::empty(), 1, ok)
    } else if pos == 2 {
        tx_is(r, instruction, address, payload, 0, ok)
    } else {
        tx_is(r, OP_READ_STATUS, Option::None, Seq::<u8>::empty(), 1, ok)
    }
}

/// The `j`-th transaction of a chunked page program of `d` at `addr`.
pub open spec fn pp_tx_shape(
    r: TxRecord,
    j: int,
    addr: int,
    d: Seq<u8>,
    budget: u32,
    ok: bool,
) -> bool {
    let t = txs_per_wcmd(budget);
    wseq_tx_shape(
        r,
        j % t,
        OP_PAGE_PROGRAM,
        Option::Some((addr + MAX_CHUNK * (j / t)) as u32),
        chunk_of(d, j / t),
        ok,
    )
}

/// Stepping the fault plan in pieces is the same as stepping it at once.
pub proof fn lemma_fail_sub_add(f: Option<u64>, m: int, n: int)
    requires
        m >= 0,
        n >= 0,
    ensures
        fail_sub(fail_sub(f, m), n) == fail_sub(f, m + n),
        fail_hits(f, m + n) == (fail_hits(f, m) || fail_hits(fail_sub(f, m), n)),
{
}

/// A log that kept a prefix intact agrees with it pointwise.
pub proof fn lemma_log_prefix(pre: Seq<TxRecord>, post: Seq<TxRecord>)
    requires
        pre.len() <= post.len(),
        post.subrange(0, pre.len() as int) == pre,
    ensures
        forall|j: int| 0 <= j < pre.len() ==> post[j] == pre[j],
{
    assert forall|j: int| 0 <= j < pre.len() implies post[j] == pre[j] by {
        assert(post.subrange(0, pre.len() as int)[j] == post[j]);
    }
}

/// Appending one record keeps the whole previous log as a prefix.
pub proof fn lemma_log_push_prefix(pre: Seq<TxRecord>, post: Seq<TxRecord>)
    requires
        post.len() == pre.len() + 1,
        post.drop_last() == pre,
    ensures
        post.subrange(0, pre.len() as int) == pre,
        forall|j: int| 0 <= j < pre.len() ==> post[j] == pre[j],
    {
    assert(post.subrange(0, pre.len() as int) =~= pre);
    lemma_log_prefix(pre, post);
}

/// Poll the status register until the write-in-progress bit clears; return
/// the final status byte. A bus failure during a poll is propagated to the
/// caller rather than aborting, so every caller can surface it.
pub fn wait_for_finish(chip: &mut Chip) -> (r: Result<u8, BusError>)
    ensures
        final(chip).mem@ == old(chip).mem@,
        final(chip).write_enabled == old(chip).write_enabled,
        final(chip).busy_budget == old(chip).busy_budget,
        r is Ok <==> !fail_hits(old(chip).fail_in, old(chip).busy + 1),
        r matches Ok(st) ==> st == 0u8 && st & 1 == 0u8,
        r is Ok ==> ({
            &&& final(chip).busy == 0
            &&& final(chip).fail_in == fail_sub(old(chip).fail_in, old(chip).busy + 1)
            &&& final(chip).log@.len() == old(chip).log@.len() + old(chip).busy + 1
        }),
        r is Err ==> (match old(chip).fail_in {
            Option::Some(k) => {
                &&& k <= old(chip).busy
                &&& final(chip).busy == old(chip).busy - k
                &&& final(chip).fail_in is None
                &&& final(chip).log@.len() == old(chip).log@.len() + k + 1
            },
            Option::None => false,
        }),
        final(chip).log@.subrange(0, old(chip).log@.len() as int) == old(chip).log@,
        forall|j: int| old(chip).log@.len() <= j < final(chip).log@.len() ==> tx_is(
            #[trigger] final(chip).log@[j],
            OP_READ_STATUS,
            Option::None,
            Seq::<u8>::empty(),
            1,
            r is Ok || j < final(chip).log@.len() - 1,
        ),
{
    let ghost b0 = old(chip).busy as int;
    let ghost f0 = old(chip).fail_in;
    let ghost l0 = old(chip).log@.len() as int;
    let mut status: u8 = 1;
    let ghost mut iters: int = 0;
    proof {
        assert((1u8 & 1u8) == 1u8) by (bit_vector);
    }
    while status & 1 == 1
        invariant
            status == 0u8 || status == 1u8,
            status & 1 == status,
            0 <= iters <= b0 + 1,
            b0 == old(chip).busy,
            f0 == old(chip).fail_in,
            l0 == old(chip).log@.len(),
            chip.busy as int == (if iters <= b0 {
                b0 - iters
            } else {
                0
            }),
            status == (if iters == b0 + 1 {
                0u8
            } else {
                1u8
            }),
            !fail_hits(f0, iters),
            chip.fail_in == fail_sub(f0, iters),
            chip.mem@ == old(chip).mem@,
            chip.write_enabled == old(chip).write_enabled,
            chip.busy_budget == old(chip).busy_budget,
            chip.log@.len() == l0 + iters,
            chip.log@.subrange(0, l0) == old(chip).log@,
            forall|j: int| l0 <= j < chip.log@.len() ==> tx_is(
                #[trigger] chip.log@[j],
                OP_READ_STATUS,
                Option::None,
                Seq::<u8>::empty(),
                1,
                true,
            ),
        decreases b0 + 1 - iters,
    {
        let ghost log_pre = chip.log@;
        let res = chip.issue_read(OP_READ_STATUS, None, 1);
        match res {
            Ok(v) => {
                status = v[0];
                proof {
                    iters = iters + 1;
                    lemma_fail_sub_add(f0, iters - 1, 1);
                    lemma_log_push_prefix(log_pre, chip.log@);
                    assert(chip.log@.subrange(0, l0) =~= old(chip).log@);
                    assert((0u8 & 1u8) == 0u8) by (bit_vector);
                    assert((1u8 & 1u8) == 1u8) by (bit_vector);
                }
            },
            Err(e) => {
                proof {
                    lemma_fail_sub_add(f0, iters, 1);
                    lemma_log_push_prefix(log_pre, chip.log@);
                    assert(chip.log@.subrange(0, l0) =~= old(chip).log@);
                }
                return Err(e);
            },
        }
    }
    Ok(status)
}

/// Issue the write-enable command (zero payload), then poll once so the
/// enable latch settles, as every write-class command requires immediately
/// beforehand.
pub fn wren(chip: &mut Chip) -> (r: Result<(), BusError>)
    requires
        old(chip).busy == 0,
    ensures
        final(chip).mem@ == old(chip).mem@,
        final(chip).busy_budget == old(chip).busy_budget,
        final(chip).busy == 0,
        r is Ok <==> !fail_hits(old(chip).fail_in, 2),
        r is Ok ==> ({
            &&& final(chip).write_enabled == true
            &&& final(chip).fail_in == fail_sub(old(chip).fail_in, 2)
            &&& final(chip).log@.len() == old(chip).log@.len() + 2
        }),
        r is Err ==> (match old(chip).fail_in {
            Option::Some(k) => {
                &&& k < 2
                &&& final(chip).fail_in is None
                &&& final(chip).log@.len() == old(chip).log@.len() + k + 1
                &&& final(chip).write_enabled == (if k == 0 {
                    old(chip).write_enabled
                } else {
                    true
                })
            },
            Option::None => false,
        }),
        final(chip).log@.subrange(0, old(chip).log@.len() as int) == old(chip).log@,
        // Only positions 0 and 1 of a write-class sequence are produced here,
        // and their shape does not depend on the command that follows.
        forall|j: int| old(chip).log@.len() <= j < final(chip).log@.len() ==> wseq_tx_shape(
            #[trigger] final(chip).log@[j],
            j - old(chip).log@.len(),
            0u8,
            Option::None,
            Seq::<u8>::empty(),
            r is Ok || j < final(chip).log@.len() - 1,
        ),
{
    let ghost f0 = old(chip).fail_in;
    let ghost l0 = old(chip).log@.len() as int;
    let empty: Vec<u8> = Vec::new();
    let res = chip.issue_write(OP_WRITE_ENABLE, None, empty.as_slice());
    let ghost log1 = chip.log@;
    proof {
        lemma_log_push_prefix(old(chip).log@, chip.log@);
    }
    match res {
        Ok(_) => {},
        Err(e) => {
            return Err(e);
        },
    }
    let res2 = wait_for_finish(chip);
    proof {
        lemma_fail_sub_add(f0, 1, 1);
        lemma_log_prefix(log1, chip.log@);
        assert(chip.log@.subrange(0, l0) =~= old(chip).log@);
    }
    match res2 {
        Ok(_) => Ok(()),
        Err(e) => Err(e),
    }
}

/// One complete write-class command: write-enable, settle poll, the command
/// itself, then poll to completion. The contract pins the wire traffic, the
/// memory effect, and the exact state after a bus failure at any of the
/// `busy_budget + 4` transactions.
fn wcmd(chip: &mut Chip, instruction: u8, address: Option<u32>, data: &[u8]) -> (r: Result<
    (),
    BusError,
>)
    requires
        old(chip).busy == 0,
        is_write_command(instruction),
        (match address {
            Option::Some(a) => a < 0x100_0000,
            Option::None => true,
        }),
        instruction == OP_PAGE_PROGRAM ==> (match address {
            Option::Some(a) => a + data@.len() <= old(chip).mem@.len(),
            Option::None => false,
        }),
        instruction == OP_SUBSECTOR_ERASE ==> (match address {
            Option::Some(a) => sector_base(a as int) + SECTOR_SIZE as int <= old(chip).mem@.len(),
            Option::None => false,
        }),
    ensures
        final(chip).busy_budget == old(chip).busy_budget,
        final(chip).mem@.len() == old(chip).mem@.len(),
        r is Ok <==> !fail_hits(old(chip).fail_in, txs_per_wcmd(old(chip).busy_budget)),
        r is Ok ==> ({
            &&& final(chip).mem@ == write_effect_mem(
                old(chip).mem@,
                true,
                instruction,
                address,
                data@,
            )
            &&& final(chip).write_enabled == false
            &&& final(chip).busy == 0
            &&& final(chip).fail_in == fail_sub(
                old(chip).fail_in,
                txs_per_wcmd(old(chip).busy_budget),
            )
            &&& final(chip).log@.len() == old(chip).log@.len() + txs_per_wcmd(
                old(chip).busy_budget,
            )
        }),
        r is Err ==> (match old(chip).fail_in {
            Option::Some(k) => {
                &&& k < txs_per_wcmd(old(chip).busy_budget)
                &&& final(chip).fail_in is None
                &&& final(chip).log@.len() == old(chip).log@.len() + k + 1
                &&& final(chip).mem@ == (if k >= 3 {
                    write_effect_mem(old(chip).mem@, true, instruction, address, data@)
                } else {
                    old(chip).mem@
                })
                &&& final(chip).busy as int == (if k >= 3 {
                    old(chip).busy_budget - (k - 3)
                } else {
                    0
                })
                &&& final(chip).write_enabled == (if k == 0 {
                    old(chip).write_enabled
                } else if k <= 2 {
                    true
                } else {
                    false
                })
            },
            Option::None => false,
        }),
        final(chip).log@.subrange(0, old(chip).log@.len() as int) == old(chip).log@,
        forall|j: int| old(chip).log@.len() <= j < final(chip).log@.len() ==> wseq_tx_shape(
            #[trigger] final(chip).log@[j],
            j - old(chip).log@.len(),
            instruction,
            address,
            data@,
            r is Ok || j < final(chip).log@.len() - 1,
        ),
{
    let ghost f0 = old(chip).fail_in;
    let ghost l0 = old(chip).log@.len() as int;
    let ghost budget = old(chip).busy_budget;
    match wren(chip) {
        Ok(_) => {},
        Err(e) => {
            proof {
                lemma_fail_sub_add(f0, 0, 2);
            }
            return Err(e);
        },
    }
    let ghost log1 = chip.log@;
    let res = chip.issue_write(instruction, address, data);
    proof {
        lemma_fail_sub_add(f0, 2, 1);
        lemma_log_push_prefix(log1, chip.log@);
        lemma_log_prefix(old(chip).log@, log1);
        assert(chip.log@.subrange(0, l0) =~= old(chip).log@);
    }
    match res {
        Ok(_) => {},
        Err(e) => {
            return Err(e);
        },
    }
    let ghost log2 = chip.log@;
    let res2 = wait_for_finish(chip);
    proof {
        lemma_fail_sub_add(f0, 3, budget + 1);
        lemma_log_prefix(log2, chip.log@);
        assert(chip.log@.subrange(0, l0) =~= old(chip).log@);
    }
    match res2 {
        Ok(_) => Ok(()),
        Err(e) => Err(e),
    }
}

/// Normal read: split the buffer into consecutive chunks of at most
/// [`MAX_CHUNK`] bytes, issue one read transaction per chunk in ascending
/// address order, and write each result into the matching buffer slice. The
/// first bus failure aborts the call: earlier chunks are already in the
/// buffer, the rest of the buffer is untouched, and no later chunk is
/// attempted. Addresses are not validated against the device size; callers
/// stay in range.
pub fn nord(chip: &mut Chip, addr: u32, data: &mut Vec<u8>) -> (r: Result<(), BusError>)
    requires
        addr + old(data)@.len() <= old(chip).mem@.len(),
        addr + old(data)@.len() <= 0x100_0000,
    ensures
        final(chip).mem@ == old(chip).mem@,
        final(chip).write_enabled == old(chip).write_enabled,
        final(chip).busy == old(chip).busy,
        final(chip).busy_budget == old(chip).busy_budget,
        final(data)@.len() == old(data)@.len(),
        r is Ok <==> !fail_hits(old(chip).fail_in, num_chunks(old(data)@.len() as int)),
        r is Ok ==> ({
            &&& final(data)@ == old(chip).mem@.subrange(addr as int, addr + old(data)@.len())
            &&& final(chip).fail_in == fail_sub(
                old(chip).fail_in,
                num_chunks(old(data)@.len() as int),
            )
            &&& final(chip).log@.len() == old(chip).log@.len() + num_chunks(
                old(data)@.len() as int,
            )
        }),
        r is Err ==> (match old(chip).fail_in {
            Option::Some(k) => {
                &&& k < num_chunks(old(data)@.len() as int)
                &&& final(data)@ == old(chip).mem@.subrange(
                    addr as int,
                    addr + MAX_CHUNK * k,
                ) + old(data)@.skip(MAX_CHUNK * k)
                &&& final(chip).fail_in is None
                &&& final(chip).log@.len() == old(chip).log@.len() + k + 1
            },
            Option::None => false,
        }),
        final(chip).log@.subrange(0, old(chip).log@.len() as int) == old(chip).log@,
        forall|j: int| old(chip).log@.len() <= j < final(chip).log@.len() ==> tx_is(
            #[trigger] final(chip).log@[j],
            OP_READ,
            Option::Some((addr + MAX_CHUNK * (j - old(chip).log@.len())) as u32),
            Seq::<u8>::empty(),
            chunk_len(old(data)@.len() as int, j - old(chip).log@.len()),
            r is Ok || j < final(chip).log@.len() - 1,
        ),
{
    let ghost f0 = old(chip).fail_in;
    let ghost l0 = old(chip).log@.len() as int;
    let ghost n = old(data)@.len() as int;
    let mut offset: usize = 0;
    let ghost mut cg: int = 0;
    while offset < data.len()
        invariant
            addr + n <= chip.mem@.len(),
            addr + n <= 0x100_0000,
            n == old(data)@.len(),
            data@.len() == n,
            0 <= cg <= num_chunks(n),
            offset as int == (if MAX_CHUNK * cg <= n {
                MAX_CHUNK * cg
            } else {
                n
            }),
            offset < n ==> cg < num_chunks(n) && offset == MAX_CHUNK * cg,
            offset >= n ==> cg == num_chunks(n),
            forall|m: int| 0 <= m < offset ==> data@[m] == old(chip).mem@[addr + m],
            forall|m: int| offset <= m < n ==> data@[m] == old(data)@[m],
            !fail_hits(f0, cg),
            chip.fail_in == fail_sub(f0, cg),
            chip.mem@ == old(chip).mem@,
            chip.write_enabled == old(chip).write_enabled,
            chip.busy == old(chip).busy,
            chip.busy_budget == old(chip).busy_budget,
            l0 == old(chip).log@.len(),
            f0 == old(chip).fail_in,
            chip.log@.len() == l0 + cg,
            chip.log@.subrange(0, l0) == old(chip).log@,
            forall|j: int| l0 <= j < chip.log@.len() ==> tx_is(
                #[trigger] chip.log@[j],
                OP_READ,
                Option::Some((addr + MAX_CHUNK * (j - l0)) as u32),
                Seq::<u8>::empty(),
                chunk_len(n, j - l0),
                true,
            ),
        decreases n - offset,
    {
        let remaining = data.len() - offset;
        let chunk_size = if remaining < MAX_CHUNK {
            remaining
        } else {
            MAX_CHUNK
        };
        proof {
            assert(chunk_size == chunk_len(n, cg));
            assert(num_chunks(n) >= cg + 1) by {
                assert(MAX_CHUNK * cg + 1 <= n);
                assert((n + MAX_CHUNK - 1) / (MAX_CHUNK as int) >= cg + 1) by (nonlinear_arith)
                    requires
                        MAX_CHUNK * cg + 1 <= n,
                        MAX_CHUNK == 32,
                        cg >= 0,
                ;
            }
        }
        let ghost log_pre = chip.log@;
        let res = chip.issue_read(OP_READ, Some(addr + offset as u32), chunk_size);
        proof {
            lemma_fail_sub_add(f0, cg, 1);
            lemma_log_push_prefix(log_pre, chip.log@);
            assert(chip.log@.subrange(0, l0) =~= old(chip).log@);
        }
        match res {
            Ok(v) => {
                let mut i: usize = 0;
                while i < chunk_size
                    invariant
                        i <= chunk_size,
                        offset + chunk_size <= n,
                        n == data@.len(),
                        n <= usize::MAX,
                        v@.len() == chunk_size,
                        addr + n <= chip.mem@.len(),
                        v@ == chip.mem@.subrange(
                            addr + offset,
                            addr + offset + chunk_size,
                        ),
                        forall|m: int| 0 <= m < offset + i ==> data@[m] == chip.mem@[addr + m],
                        forall|m: int| offset + i <= m < n ==> data@[m] == old(data)@[m],
                    decreases chunk_size - i,
                {
                    let b = v[i];
                    data.set(offset + i, b);
                    i = i + 1;
                }
                offset = offset + chunk_size;
                proof {
                    cg = cg + 1;
                    if MAX_CHUNK * cg <= n {
                        assert(offset == MAX_CHUNK * cg);
                    } else {
                        assert(offset as int == n);
                    }
                }
            },
            Err(e) => {
                proof {
                    assert(f0 == Option::Some(cg as u64));
                    assert(data@ =~= old(chip).mem@.subrange(addr as int, addr + MAX_CHUNK * cg)
                        + old(data)@.skip(MAX_CHUNK * cg));
                }
                return Err(e);
            },
        }
    }
    proof {
        assert(data@ =~= old(chip).mem@.subrange(addr as int, addr + n));
    }
    Ok(())
}

/// Programming one more chunk on top of an already-programmed prefix is the
/// same as programming the longer prefix at once (the chunks touch disjoint
/// bytes).
pub proof fn lemma_program_bytes_chunk(m: Seq<u8>, a: int, d: Seq<u8>, o: int, c: int)
    requires
        0 <= a,
        0 <= o,
        0 <= c,
        o + c <= d.len(),
        a + d.len() <= m.len(),
    ensures
        program_bytes(program_bytes(m, a, d.take(o)), a + o, d.subrange(o, o + c))
            == program_bytes(m, a, d.take(o + c)),
{
    assert(program_bytes(program_bytes(m, a, d.take(o)), a + o, d.subrange(o, o + c))
        =~= program_bytes(m, a, d.take(o + c)));
}

/// Page program: for each chunk of at most [`MAX_CHUNK`] bytes, in ascending
/// address order: write-enable, one page-program transaction, then poll to
/// completion before the next chunk. The first bus failure aborts the whole
/// call; chunks before it are already applied (program is not atomic across
/// chunks) and no later chunk is attempted. Spans that cross a physical page
/// boundary are the caller's responsibility to pre-split.
pub fn pp(chip: &mut Chip, addr: u32, data: &[u8]) -> (r: Result<(), BusError>)
    requires
        old(chip).busy == 0,
        addr + data@.len() <= old(chip).mem@.len(),
        addr + data@.len() <= 0x100_0000,
    ensures
        final(chip).busy_budget == old(chip).busy_budget,
        final(chip).mem@.len() == old(chip).mem@.len(),
        r is Ok <==> !fail_hits(
            old(chip).fail_in,
            num_chunks(data@.len() as int) * txs_per_wcmd(old(chip).busy_budget),
        ),
        r is Ok ==> ({
            &&& final(chip).mem@ == program_bytes(old(chip).mem@, addr as int, data@)
            &&& final(chip).fail_in == fail_sub(
                old(chip).fail_in,
                num_chunks(data@.len() as int) * txs_per_wcmd(old(chip).busy_budget),
            )
            &&& final(chip).log@.len() == old(chip).log@.len() + num_chunks(data@.len() as int)
                * txs_per_wcmd(old(chip).busy_budget)
            &&& final(chip).busy == (if data@.len() > 0 {
                0u32
            } else {
                old(chip).busy
            })
            &&& final(chip).write_enabled == (if data@.len() > 0 {
                false
            } else {
                old(chip).write_enabled
            })
        }),
        r is Err ==> (match old(chip).fail_in {
            Option::Some(k) => {
                let t = txs_per_wcmd(old(chip).busy_budget);
                let c = k as int / t;
                let pos = k as int % t;
                let n = data@.len() as int;
                &&& k < num_chunks(n) * t
                &&& final(chip).fail_in is None
                &&& final(chip).log@.len() == old(chip).log@.len() + k + 1
                &&& final(chip).mem@ == program_bytes(old(chip).mem@, addr as int, data@.take(
                    if pos >= 3 {
                        if MAX_CHUNK * (c + 1) <= n {
                            MAX_CHUNK * (c + 1)
                        } else {
                            n
                        }
                    } else {
                        MAX_CHUNK * c
                    },
                ))
                &&& final(chip).busy as int == (if pos >= 3 {
                    old(chip).busy_budget - (pos - 3)
                } else {
                    0
                })
                &&& final(chip).write_enabled == (if pos == 1 || pos == 2 {
                    true
                } else if pos == 0 && c == 0 {
                    old(chip).write_enabled
                } else {
                    false
                })
            },
            Option::None => false,
        }),
        final(chip).log@.subrange(0, old(chip).log@.len() as int) == old(chip).log@,
        forall|j: int| old(chip).log@.len() <= j < final(chip).log@.len() ==> pp_tx_shape(
            #[trigger] final(chip).log@[j],
            j - old(chip).log@.len(),
            addr as int,
            data@,
            old(chip).busy_budget,
            r is Ok || j < final(chip).log@.len() - 1,
        ),
{
    let ghost f0 = old(chip).fail_in;
    let ghost l0 = old(chip).log@.len() as int;
    let ghost n = data@.len() as int;
    let ghost budget = old(chip).busy_budget;
    let ghost t = txs_per_wcmd(budget);
    let mut offset: usize = 0;
    let ghost mut cg: int = 0;
    while offset < data.len()
        invariant
            addr + n <= chip.mem@.len(),
            addr + n <= 0x100_0000,
            n == data@.len(),
            chip.mem@.len() == old(chip).mem@.len(),
            0 <= cg <= num_chunks(n),
            offset as int == (if MAX_CHUNK * cg <= n {
                MAX_CHUNK * cg
            } else {
                n
            }),
            offset < n ==> cg < num_chunks(n) && offset == MAX_CHUNK * cg,
            offset >= n ==> cg == num_chunks(n),
            budget == old(chip).busy_budget,
            t == txs_per_wcmd(budget),
            f0 == old(chip).fail_in,
            l0 == old(chip).log@.len(),
            !fail_hits(f0, cg * t),
            chip.fail_in == fail_sub(f0, cg * t),
            chip.mem@ == program_bytes(old(chip).mem@, addr as int, data@.take(offset as int)),
            chip.busy == 0,
            chip.busy_budget == old(chip).busy_budget,
            chip.write_enabled == (if cg == 0 {
                old(chip).write_enabled
            } else {
                false
            }),
            chip.log@.len() == l0 + cg * t,
            chip.log@.subrange(0, l0) == old(chip).log@,
            forall|j: int| l0 <= j < chip.log@.len() ==> pp_tx_shape(
                #[trigger] chip.log@[j],
                j - l0,
                addr as int,
                data@,
                budget,
                true,
            ),
        decreases n - offset,
    {
        let remaining = data.len() - offset;
        let chunk_size = if remaining < MAX_CHUNK {
            remaining
        } else {
            MAX_CHUNK
        };
        proof {
            assert(chunk_size == chunk_len(n, cg));
            assert(num_chunks(n) >= cg + 1) by {
                assert(MAX_CHUNK * cg + 1 <= n);
                assert((n + MAX_CHUNK - 1) / (MAX_CHUNK as int) >= cg + 1) by (nonlinear_arith)
                    requires
                        MAX_CHUNK * cg + 1 <= n,
                        MAX_CHUNK == 32,
                        cg >= 0,
                ;
            }
            assert((cg + 1) * t <= num_chunks(n) * t) by (nonlinear_arith)
                requires
                    cg + 1 <= num_chunks(n),
                    t >= 4,
            ;
        }
        let chunk = slice_subrange(data, offset, offset + chunk_size);
        let ghost mem_pre = chip.mem@;
        let ghost log_pre = chip.log@;
        let ghost we_pre = chip.write_enabled;
        let res = wcmd(chip, OP_PAGE_PROGRAM, Some(addr + offset as u32), chunk);
        proof {
            lemma_fail_sub_add(f0, cg * t, t);
            lemma_log_prefix(log_pre, chip.log@);
            assert(chip.log@.subrange(0, l0) =~= old(chip).log@);
            assert(chunk_of(data@, cg) == chunk@);
        }
        match res {
            Ok(_) => {
                proof {
                    assert((cg + 1) * t == cg * t + t) by (nonlinear_arith);
                    lemma_program_bytes_chunk(
                        old(chip).mem@,
                        addr as int,
                        data@,
                        offset as int,
                        chunk_size as int,
                    );
                    assert(chip.mem@ == program_bytes(
                        old(chip).mem@,
                        addr as int,
                        data@.take(offset + chunk_size),
                    ));
                    assert forall|j: int| l0 + cg * t <= j < l0 + (cg + 1) * t implies
                        pp_tx_shape(#[trigger] chip.log@[j], j - l0, addr as int, data@, budget,
                        true) by {
                        lemma_fundamental_div_mod_converse(j - l0, t, cg, j - l0 - cg * t);
                    }
                }
                offset = offset + chunk_size;
                proof {
                    cg = cg + 1;
                }
            },
            Err(e) => {
                proof {
                    assert((cg + 1) * t == cg * t + t) by (nonlinear_arith);
                    let fl = fail_sub(f0, cg * t);
                    assert(fail_hits(fl, t));
                    let k_local = fl.unwrap() as int;
                    assert(0 <= k_local < t);
                    let k = f0.unwrap() as int;
                    assert(k == cg * t + k_local);
                    lemma_fundamental_div_mod_converse(k, t, cg, k_local);
                    assert(k < num_chunks(n) * t);
                    if k_local >= 3 {
                        lemma_program_bytes_chunk(
                            old(chip).mem@,
                            addr as int,
                            data@,
                            offset as int,
                            chunk_size as int,
                        );
                    }
                    assert forall|j: int| l0 <= j < chip.log@.len() implies pp_tx_shape(
                        #[trigger] chip.log@[j], j - l0, addr as int, data@, budget,
                        j < chip.log@.len() - 1) by {
                        if j - l0 >= cg * t {
                            lemma_fundamental_div_mod_converse(j - l0, t, cg, j - l0 - cg * t);
                        }
                    }
                }
                return Err(e);
            },
        }
    }
    proof {
        assert(data@.take(n) =~= data@);
    }
    Ok(())
}

/// State after a write-class command sequence completed without a bus
/// failure: the command's memory effect is applied, the latch is consumed,
/// the chip is idle again, and the sequence's transactions are logged.
pub open spec fn wcmd_ok_state(pre: Chip, post: Chip, effect_mem: Seq<u8>) -> bool {
    &&& post.mem@ == effect_mem
    &&& post.write_enabled == false
    &&& post.busy == 0
    &&& post.busy_budget == pre.busy_budget
    &&& post.fail_in == fail_sub(pre.fail_in, txs_per_wcmd(pre.busy_budget))
    &&& post.log@.len() == pre.log@.len() + txs_per_wcmd(pre.busy_budget)
}

/// State after a write-class command sequence was aborted by a bus failure
/// at its `k`-th transaction: before the command transaction completed
/// (`k < 3`) nothing is applied; from the first completion poll on
/// (`k >= 3`) the effect is already applied and only polling was cut short.
pub open spec fn wcmd_fail_state(pre: Chip, post: Chip, k: int, effect_mem: Seq<u8>) -> bool {
    &&& post.fail_in is None
    &&& post.busy_budget == pre.busy_budget
    &&& post.log@.len() == pre.log@.len() + k + 1
    &&& post.mem@ == (if k >= 3 {
        effect_mem
    } else {
        pre.mem@
    })
    &&& post.busy as int == (if k >= 3 {
        pre.busy_budget - (k - 3)
    } else {
        0
    })
    &&& post.write_enabled == (if k == 0 {
        pre.write_enabled
    } else if k <= 2 {
        true
    } else {
        false
    })
}

/// The log grew by one write-class command sequence of the given shape; on
/// failure only the last logged transaction is the failed one.
pub open spec fn log_extended_wseq(
    pre: Seq<TxRecord>,
    post: Seq<TxRecord>,
    instruction: u8,
    address: Option<u32>,
    payload: Seq<u8>,
    all_ok: bool,
) -> bool {
    &&& post.subrange(0, pre.len() as int) == pre
    &&& forall|j: int| pre.len() <= j < post.len() ==> wseq_tx_shape(
        #[trigger] post[j],
        j - pre.len(),
        instruction,
        address,
        payload,
        all_ok || j < post.len() - 1,
    )
}

/// The log grew by one read transaction per chunk of a span of `n` bytes at
/// `addr`, in ascending address order.
pub open spec fn log_extended_reads(
    pre: Seq<TxRecord>,
    post: Seq<TxRecord>,
    addr: int,
    n: int,
    all_ok: bool,
) -> bool {
    &&& post.subrange(0, pre.len() as int) == pre
    &&& forall|j: int| pre.len() <= j < post.len() ==> tx_is(
        #[trigger] post[j],
        OP_READ,
        Option::Some((addr + MAX_CHUNK * (j - pre.len())) as u32),
        Seq::<u8>::empty(),
        chunk_len(n, j - pre.len()),
        all_ok || j < post.len() - 1,
    )
}

/// The log grew by the transactions of a chunked page program of `d` at
/// `addr`.
pub open spec fn log_extended_pp(
    pre: Seq<TxRecord>,
    post: Seq<TxRecord>,
    addr: int,
    d: Seq<u8>,
    budget: u32,
    all_ok: bool,
) -> bool {
    &&& post.subrange(0, pre.len() as int) == pre
    &&& forall|j: int| pre.len() <= j < post.len() ==> pp_tx_shape(
        #[trigger] post[j],
        j - pre.len(),
        addr,
        d,
        budget,
        all_ok || j < post.len() - 1,
    )
}

/// Sector erase: write-enable, then one zero-payload transaction carrying
/// the subsector-erase opcode and the 24-bit sector address, then poll to
/// completion. The whole subsector containing `addr` is erased to 0xFF.
pub fn ser(chip: &mut Chip, instruction: Cmds, addr: u32) -> (r: Result<(), BusError>)
    requires
        old(chip).busy == 0,
        instruction == Cmds::Subsector4KbErase,
        addr < 0x100_0000,
        sector_base(addr as int) + SECTOR_SIZE as int <= old(chip).mem@.len(),
    ensures
        final(chip).mem@.len() == old(chip).mem@.len(),
        final(chip).busy_budget == old(chip).busy_budget,
        r is Ok <==> !fail_hits(old(chip).fail_in, txs_per_wcmd(old(chip).busy_budget)),
        r is Ok ==> wcmd_ok_state(
            *old(chip),
            *final(chip),
            erase_sector_bytes(old(chip).mem@, addr as int),
        ),
        r is Err ==> (match old(chip).fail_in {
            Option::Some(k) => k < txs_per_wcmd(old(chip).busy_budget) && wcmd_fail_state(
                *old(chip),
                *final(chip),
                k as int,
                erase_sector_bytes(old(chip).mem@, addr as int),
            ),
            Option::None => false,
        }),
        log_extended_wseq(
            old(chip).log@,
            final(chip).log@,
            OP_SUBSECTOR_ERASE,
            Option::Some(addr),
            Seq::<u8>::empty(),
            r is Ok,
        ),
{
    let empty: Vec<u8> = Vec::new();
    let op = instruction.opcode();
    wcmd(chip, op, Some(addr), empty.as_slice())
}

/// Bulk erase: write-enable, then one zero-payload, zero-address transaction
/// carrying the bulk-erase opcode, then poll to completion. Polling has no
/// internal bound; the host imposes its own erase timeout.
pub fn ser_all(chip: &mut Chip, instruction: Cmds) -> (r: Result<(), BusError>)
    requires
        old(chip).busy == 0,
        instruction == Cmds::BulkErase,
    ensures
        final(chip).mem@.len() == old(chip).mem@.len(),
        final(chip).busy_budget == old(chip).busy_budget,
        r is Ok <==> !fail_hits(old(chip).fail_in, txs_per_wcmd(old(chip).busy_budget)),
        r is Ok ==> wcmd_ok_state(*old(chip), *final(chip), all_ff(old(chip).mem@.len())),
        r is Err ==> (match old(chip).fail_in {
            Option::Some(k) => k < txs_per_wcmd(old(chip).busy_budget) && wcmd_fail_state(
                *old(chip),
                *final(chip),
                k as int,
                all_ff(old(chip).mem@.len()),
            ),
            Option::None => false,
        }),
        log_extended_wseq(
            old(chip).log@,
            final(chip).log@,
            OP_BULK_ERASE,
            Option::None,
            Seq::<u8>::empty(),
            r is Ok,
        ),
{
    let empty: Vec<u8> = Vec::new();
    let op = instruction.opcode();
    wcmd(chip, op, None, empty.as_slice())
}

/// The coarse-grained error codes the host sees, one per failed operation
/// kind. A bus-transaction failure is never retried: it aborts the enclosing
/// operation and is translated to the operation's code. Initialization
/// failures belong to the platform bring-up outside this core.
#[derive(Clone, Copy, PartialEq, Eq, Structural, Debug)]
pub enum ErrorCode {
    EraseFailure,
    SectorEraseFailure,
    ProgramFailure,
    VerifyMismatch,
    ReadFailure,
}

impl ErrorCode {
    /// The numeric code put on the host wire for this error.
    pub open spec fn spec_code(self) -> u32 {
        match self {
            ErrorCode::EraseFailure => 42,
            ErrorCode::SectorEraseFailure => 0x70D0,
            ErrorCode::ProgramFailure => 42,
            ErrorCode::VerifyMismatch => 42,
            ErrorCode::ReadFailure => 42,
        }
    }

    /// Look the numeric code up.
    pub fn code(self) -> (r: u32)
        ensures
            r == self.spec_code(),
    {
        match self {
            ErrorCode::EraseFailure => 42,
            ErrorCode::SectorEraseFailure => 0x70D0,
            ErrorCode::ProgramFailure => 42,
            ErrorCode::VerifyMismatch => 42,
            ErrorCode::ReadFailure => 42,
        }
    }
}

/// Byte-for-byte comparison of two buffers (false when the lengths differ).
pub fn bytes_equal(a: &Vec<u8>, b: &Vec<u8>) -> (r: bool)
    ensures
        r == (a@ == b@),
{
    if a.len() != b.len() {
        proof {
            assert(a@.len() != b@.len());
        }
        return false;
    }
    let mut i: usize = 0;
    while i < a.len()
        invariant
            i <= a@.len(),
            a@.len() == b@.len(),
            forall|m: int| 0 <= m < i ==> a@[m] == b@[m],
        decreases a@.len() - i,
    {
        if a[i] != b[i] {
            proof {
                assert(a@ != b@);
            }
            return false;
        }
        i = i + 1;
    }
    proof {
        assert(a@ =~= b@);
    }
    true
}

/// The driver facade: owns the bus/chip handle for the whole programming
/// session and exposes the five-operation contract a host tool drives. Every
/// mutating call polls the chip to completion before returning, so the chip
/// is idle between operations.
pub struct Algorithm {
    pub bus: Chip,
}

impl Algorithm {
    /// Acquire the session's exclusive bus handle. Platform bring-up (clock
    /// tree, pin multiplexing) happens outside this core, before the handle
    /// is handed in.
    pub fn new(bus: Chip) -> (a: Algorithm)
        ensures
            a.bus == bus,
    {
        Algorithm { bus }
    }

    /// Erase the whole chip to 0xFF. A bus failure maps to the generic erase
    /// error; a partial erase is possible then and is not rolled back.
    pub fn erase_all(&mut self) -> (r: Result<(), ErrorCode>)
        requires
            old(self).bus.busy == 0,
        ensures
            final(self).bus.mem@.len() == old(self).bus.mem@.len(),
            final(self).bus.busy_budget == old(self).bus.busy_budget,
            r is Ok <==> !fail_hits(
                old(self).bus.fail_in,
                txs_per_wcmd(old(self).bus.busy_budget),
            ),
            r is Ok ==> wcmd_ok_state(
                old(self).bus,
                final(self).bus,
                all_ff(old(self).bus.mem@.len()),
            ),
            r matches Err(c) ==> c == ErrorCode::EraseFailure,
            r is Err ==> (match old(self).bus.fail_in {
                Option::Some(k) => k < txs_per_wcmd(old(self).bus.busy_budget)
                    && wcmd_fail_state(
                    old(self).bus,
                    final(self).bus,
                    k as int,
                    all_ff(old(self).bus.mem@.len()),
                ),
                Option::None => false,
            }),
            log_extended_wseq(
                old(self).bus.log@,
                final(self).bus.log@,
                OP_BULK_ERASE,
                Option::None,
                Seq::<u8>::empty(),
                r is Ok,
            ),
    {
        let res = ser_all(&mut self.bus, Cmds::BulkErase);
        match res {
            Ok(_) => Ok(()),
            Err(_) => Err(ErrorCode::EraseFailure),
        }
    }

    /// Erase the 4 KiB subsector at the sector-aligned address `addr` to
    /// 0xFF. A bus failure maps to the sector-scoped erase error, distinct
    /// from the generic one.
    pub fn erase_sector(&mut self, addr: u32) -> (r: Result<(), ErrorCode>)
        requires
            old(self).bus.busy == 0,
            addr % SECTOR_SIZE == 0,
            addr + SECTOR_SIZE <= old(self).bus.mem@.len(),
            addr + SECTOR_SIZE <= 0x100_0000,
        ensures
            final(self).bus.mem@.len() == old(self).bus.mem@.len(),
            final(self).bus.busy_budget == old(self).bus.busy_budget,
            r is Ok <==> !fail_hits(
                old(self).bus.fail_in,
                txs_per_wcmd(old(self).bus.busy_budget),
            ),
            r is Ok ==> wcmd_ok_state(
                old(self).bus,
                final(self).bus,
                erase_sector_bytes(old(self).bus.mem@, addr as int),
            ),
            r matches Err(c) ==> c == ErrorCode::SectorEraseFailure,
            r is Err ==> (match old(self).bus.fail_in {
                Option::Some(k) => k < txs_per_wcmd(old(self).bus.busy_budget)
                    && wcmd_fail_state(
                    old(self).bus,
                    final(self).bus,
                    k as int,
                    erase_sector_bytes(old(self).bus.mem@, addr as int),
                ),
                Option::None => false,
            }),
            log_extended_wseq(
                old(self).bus.log@,
                final(self).bus.log@,
                OP_SUBSECTOR_ERASE,
                Option::Some(addr),
                Seq::<u8>::empty(),
                r is Ok,
            ),
    {
        proof {
            assert(sector_base(addr as int) == addr as int) by {
                vstd::arithmetic::div_mod::lemma_fundamental_div_mod(
                    addr as int,
                    SECTOR_SIZE as int,
                );
            }
        }
        let res = ser(&mut self.bus, Cmds::Subsector4KbErase, addr);
        match res {
            Ok(_) => Ok(()),
            Err(_) => Err(ErrorCode::SectorEraseFailure),
        }
    }

    /// Program `data` at `addr`, chunk by chunk in ascending address order.
    /// Any chunk failure aborts the whole call and maps to the program
    /// error, leaving the chunks before the failing one already written
    /// (program is not atomic across chunks). Callers pre-split spans at
    /// page boundaries.
    pub fn program_page(&mut self, addr: u32, data: &[u8]) -> (r: Result<(), ErrorCode>)
        requires
            old(self).bus.busy == 0,
            addr + data@.len() <= old(self).bus.mem@.len(),
            addr + data@.len() <= 0x100_0000,
        ensures
            final(self).bus.mem@.len() == old(self).bus.mem@.len(),
            final(self).bus.busy_budget == old(self).bus.busy_budget,
            r is Ok <==> !fail_hits(
                old(self).bus.fail_in,
                num_chunks(data@.len() as int) * txs_per_wcmd(old(self).bus.busy_budget),
            ),
            r is Ok ==> ({
                &&& final(self).bus.mem@ == program_bytes(old(self).bus.mem@, addr as int, data@)
                &&& final(self).bus.fail_in == fail_sub(
                    old(self).bus.fail_in,
                    num_chunks(data@.len() as int) * txs_per_wcmd(old(self).bus.busy_budget),
                )
                &&& final(self).bus.log@.len() == old(self).bus.log@.len() + num_chunks(
                    data@.len() as int,
                ) * txs_per_wcmd(old(self).bus.busy_budget)
                &&& final(self).bus.busy == (if data@.len() > 0 {
                    0u32
                } else {
                    old(self).bus.busy
                })
            }),
            r matches Err(c) ==> c == ErrorCode::ProgramFailure,
            r is Err ==> (match old(self).bus.fail_in {
                Option::Some(k) => {
                    let t = txs_per_wcmd(old(self).bus.busy_budget);
                    let c = k as int / t;
                    let pos = k as int % t;
                    let n = data@.len() as int;
                    &&& k < num_chunks(n) * t
                    &&& final(self).bus.fail_in is None
                    &&& final(self).bus.log@.len() == old(self).bus.log@.len() + k + 1
                    &&& final(self).bus.busy as int == (if pos >= 3 {
                        old(self).bus.busy_budget - (pos - 3)
                    } else {
                        0
                    })
                    &&& final(self).bus.mem@ == program_bytes(
                        old(self).bus.mem@,
                        addr as int,
                        data@.take(
                            if pos >= 3 {
                                if MAX_CHUNK * (c + 1) <= n {
                                    MAX_CHUNK * (c + 1)
                                } else {
                                    n
                                }
                            } else {
                                MAX_CHUNK * c
                            },
                        ),
                    )
                },
                Option::None => false,
            }),
            log_extended_pp(
                old(self).bus.log@,
                final(self).bus.log@,
                addr as int,
                data@,
                old(self).bus.busy_budget,
                r is Ok,
            ),
    {
        let res = pp(&mut self.bus, addr, data);
        match res {
            Ok(_) => Ok(()),
            Err(_) => Err(ErrorCode::ProgramFailure),
        }
    }

    /// Read back exactly the first [`crate::PAGE_SIZE`] bytes starting at
    /// `address` into a fixed-size scratch buffer, then -- only if expected
    /// data was supplied -- compare the two byte strings; the comparison
    /// size is fixed by the scratch buffer, independent of `_size` and of
    /// the supplied span's length. Without expected data the call always
    /// succeeds, even when the read-back itself fails on the bus; with
    /// expected data a bus failure maps to the read error and a differing
    /// byte string to the verify-mismatch error.
    pub fn verify(&mut self, address: u32, _size: u32, data: Option<&Vec<u8>>) -> (r: Result<
        (),
        ErrorCode,
    >)
        requires
            address + PAGE_SIZE <= old(self).bus.mem@.len(),
            address + PAGE_SIZE <= 0x100_0000,
        ensures
            final(self).bus.mem@ == old(self).bus.mem@,
            final(self).bus.write_enabled == old(self).bus.write_enabled,
            final(self).bus.busy == old(self).bus.busy,
            final(self).bus.busy_budget == old(self).bus.busy_budget,
            data is None ==> r is Ok,
            !fail_hits(old(self).bus.fail_in, num_chunks(PAGE_SIZE as int)) ==> ({
                &&& final(self).bus.fail_in == fail_sub(
                    old(self).bus.fail_in,
                    num_chunks(PAGE_SIZE as int),
                )
                &&& final(self).bus.log@.len() == old(self).bus.log@.len() + num_chunks(
                    PAGE_SIZE as int,
                )
                &&& (match data {
                    Option::Some(expected) => r == (if expected@ == old(self).bus.mem@.subrange(
                        address as int,
                        address + PAGE_SIZE,
                    ) {
                        Result::<(), ErrorCode>::Ok(())
                    } else {
                        Result::<(), ErrorCode>::Err(ErrorCode::VerifyMismatch)
                    }),
                    Option::None => r is Ok,
                })
            }),
            fail_hits(old(self).bus.fail_in, num_chunks(PAGE_SIZE as int)) ==> (match old(
                self,
            ).bus.fail_in {
                Option::Some(k) => {
                    &&& final(self).bus.fail_in is None
                    &&& final(self).bus.log@.len() == old(self).bus.log@.len() + k + 1
                    &&& (match data {
                        Option::Some(expected) => r == Result::<(), ErrorCode>::Err(
                            ErrorCode::ReadFailure,
                        ),
                        Option::None => r is Ok,
                    })
                },
                Option::None => false,
            }),
            log_extended_reads(
                old(self).bus.log@,
                final(self).bus.log@,
                address as int,
                PAGE_SIZE as int,
                !fail_hits(old(self).bus.fail_in, num_chunks(PAGE_SIZE as int)),
            ),
    {
        let mut scratch: Vec<u8> = Vec::new();
        let mut i: usize = 0;
        while i < PAGE_SIZE as usize
            invariant
                i <= PAGE_SIZE,
                scratch@.len() == i,
            decreases PAGE_SIZE - i,
        {
            scratch.push(0);
            i = i + 1;
        }
        let res = nord(&mut self.bus, address, &mut scratch);
        match data {
            None => Ok(()),
            Some(expected) => {
                match res {
                    Err(_) => Err(ErrorCode::ReadFailure),
                    Ok(_) => {
                        if bytes_equal(&scratch, expected) {
                            Ok(())
                        } else {
                            Err(ErrorCode::VerifyMismatch)
                        }
                    },
                }
            },
        }
    }

    /// Read exactly `data.len()` bytes starting at `address` into the
    /// caller-owned buffer. The first bus failure aborts the call and maps
    /// to the read error, with the chunks before it already delivered and
    /// the rest of the buffer untouched.
    pub fn read_flash(&mut self, address: u32, data: &mut Vec<u8>) -> (r: Result<(), ErrorCode>)
        requires
            address + old(data)@.len() <= old(self).bus.mem@.len(),
            address + old(data)@.len() <= 0x100_0000,
        ensures
            final(self).bus.mem@ == old(self).bus.mem@,
            final(self).bus.write_enabled == old(self).bus.write_enabled,
            final(self).bus.busy == old(self).bus.busy,
            final(self).bus.busy_budget == old(self).bus.busy_budget,
            final(data)@.len() == old(data)@.len(),
            r is Ok <==> !fail_hits(old(self).bus.fail_in, num_chunks(old(data)@.len() as int)),
            r is Ok ==> ({
                &&& final(data)@ == old(self).bus.mem@.subrange(
                    address as int,
                    address + old(data)@.len(),
                )
                &&& final(self).bus.fail_in == fail_sub(
                    old(self).bus.fail_in,
                    num_chunks(old(data)@.len() as int),
                )
                &&& final(self).bus.log@.len() == old(self).bus.log@.len() + num_chunks(
                    old(data)@.len() as int,
                )
            }),
            r matches Err(c) ==> c == ErrorCode::ReadFailure,
            r is Err ==> (match old(self).bus.fail_in {
                Option::Some(k) => {
                    &&& k < num_chunks(old(data)@.len() as int)
                    &&& final(data)@ == old(self).bus.mem@.subrange(
                        address as int,
                        address + MAX_CHUNK * k,
                    ) + old(data)@.skip(MAX_CHUNK * k)
                    &&& final(self).bus.fail_in is None
                    &&& final(self).bus.log@.len() == old(self).bus.log@.len() + k + 1
                },
                Option::None => false,
            }),
            log_extended_reads(
                old(self).bus.log@,
                final(self).bus.log@,
                address as int,
                old(data)@.len() as int,
                r is Ok,
            ),
    {
        let res = nord(&mut self.bus, address, data);
        match res {
            Ok(_) => Ok(()),
            Err(_) => Err(ErrorCode::ReadFailure),
        }
    }
}

} // verus!
