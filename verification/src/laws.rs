//! Driver-wide guarantees, stated and proved once.
//!
//! Each law is a public proof function over the spec-level effects that the
//! contracts in [`crate::driver`] establish: together with those contracts
//! it pins down the observable behaviour of a whole programming session.

use vstd::prelude::*;
use vstd::arithmetic::div_mod::{lemma_fundamental_div_mod, lemma_fundamental_div_mod_converse};
use crate::chip::{TxRecord, all_ff, erase_sector_bytes, is_write_command, program_bytes,
    sector_base, tx_is};
use crate::cmds::{OP_WRITE_ENABLE, OP_READ, OP_PAGE_PROGRAM, OP_READ_STATUS};
use crate::driver::{chunk_len, chunk_of, num_chunks, pp_tx_shape, txs_per_wcmd, wseq_tx_shape};
use crate::{MAX_CHUNK, PAGE_SIZE, SECTOR_SIZE};

verus! {

/// Round trip: programming a span of at most one page into a previously
/// erased (all-0xFF) region and reading the same span back yields the data
/// unchanged. Programming clears bits (old AND new), and an all-ones byte
/// takes the new value exactly; `read_flash` then returns this subrange
/// verbatim.
pub proof fn lemma_program_read_round_trip(mem: Seq<u8>, a: int, d: Seq<u8>)
    requires
        0 <= a,
        a + d.len() <= mem.len(),
        d.len() <= PAGE_SIZE,
        forall|i: int| a <= i < a + d.len() ==> mem[i] == 0xFFu8,
    ensures
        program_bytes(mem, a, d).subrange(a, a + d.len() as int) == d,
{
    assert forall|m: int| 0 <= m < d.len() implies program_bytes(mem, a, d)[a + m] == d[m] by {
        let x = d[m];
        assert((0xFFu8 & x) == x) by (bit_vector);
    }
    assert(program_bytes(mem, a, d).subrange(a, a + d.len() as int) =~= d);
}

/// Erasing a sector leaves every byte of that sector equal to 0xFF, so a
/// sector-sized read-back after `erase_sector` yields all 0xFF; bytes
/// outside the sector are untouched.
pub proof fn lemma_erase_sector_blank(mem: Seq<u8>, a: int)
    requires
        0 <= a,
        sector_base(a) + SECTOR_SIZE as int <= mem.len(),
    ensures
        erase_sector_bytes(mem, a).subrange(sector_base(a), sector_base(a) + SECTOR_SIZE as int)
            == all_ff(SECTOR_SIZE as nat),
        forall|i: int|
            0 <= i < mem.len() && !(sector_base(a) <= i < sector_base(a) + SECTOR_SIZE as int)
                ==> erase_sector_bytes(mem, a)[i] == mem[i],
{
    assert(erase_sector_bytes(mem, a).subrange(
        sector_base(a),
        sector_base(a) + SECTOR_SIZE as int,
    ) =~= all_ff(SECTOR_SIZE as nat));
}

/// After a bulk erase every byte of the device is 0xFF, so a read of any
/// in-range span yields all 0xFF.
pub proof fn lemma_erase_all_blank(n: nat, a: int, b: int)
    requires
        0 <= a <= b <= n,
    ensures
        forall|i: int| 0 <= i < n ==> all_ff(n)[i] == 0xFFu8,
        all_ff(n).subrange(a, b) == all_ff((b - a) as nat),
{
    assert(all_ff(n).subrange(a, b) =~= all_ff((b - a) as nat));
}

/// Erasing a sector is idempotent: erasing an already-erased sector leaves
/// the contents identical (together with the facade contract, both calls
/// also succeed whenever no bus failure is injected).
pub proof fn lemma_erase_sector_idempotent(mem: Seq<u8>, a: int)
    requires
        0 <= a,
        sector_base(a) + SECTOR_SIZE as int <= mem.len(),
    ensures
        erase_sector_bytes(erase_sector_bytes(mem, a), a) == erase_sector_bytes(mem, a),
{
    assert(erase_sector_bytes(erase_sector_bytes(mem, a), a) =~= erase_sector_bytes(mem, a));
}

/// How a span of `n` bytes is split into transaction chunks: `ceil(n / 32)`
/// chunks, every chunk non-empty and at most the payload limit, all but the
/// last exactly the limit, the last ending exactly at `n`, and every byte
/// covered by exactly the chunk `i / 32`.
pub proof fn lemma_chunk_partition(n: int)
    requires
        0 <= n,
    ensures
        num_chunks(n) >= 0,
        (num_chunks(n) == 0) <==> (n == 0),
        MAX_CHUNK * (num_chunks(n) - 1) < n <= MAX_CHUNK * num_chunks(n) || n == 0,
        forall|c: int| 0 <= c < num_chunks(n) ==> 0 < #[trigger] chunk_len(n, c) <= MAX_CHUNK,
        forall|c: int| 0 <= c < num_chunks(n) - 1 ==> #[trigger] chunk_len(n, c)
            == MAX_CHUNK as int,
        num_chunks(n) > 0 ==> MAX_CHUNK * (num_chunks(n) - 1) + chunk_len(n, num_chunks(n) - 1)
            == n,
        forall|i: int|
            #![trigger i / (MAX_CHUNK as int)]
            0 <= i < n ==> 0 <= i / (MAX_CHUNK as int) < num_chunks(n) && MAX_CHUNK * (i / (
            MAX_CHUNK as int)) <= i < MAX_CHUNK * (i / (MAX_CHUNK as int)) + chunk_len(
                n,
                i / (MAX_CHUNK as int),
            ),
{
    lemma_fundamental_div_mod(n + MAX_CHUNK - 1, MAX_CHUNK as int);
    assert forall|i: int| #![trigger i / (MAX_CHUNK as int)] 0 <= i < n implies 0 <= i / (
    MAX_CHUNK as int) < num_chunks(n) && MAX_CHUNK * (i / (MAX_CHUNK as int)) <= i < MAX_CHUNK * (
    i / (MAX_CHUNK as int)) + chunk_len(n, i / (MAX_CHUNK as int)) by {
        lemma_fundamental_div_mod(i, MAX_CHUNK as int);
    }
}

/// Each chunk of `d` reads back the matching bytes of `d` itself: chunk `c`
/// holds exactly `d[32c], d[32c + 1], ...`.
pub proof fn lemma_chunk_of_tiles(d: Seq<u8>)
    ensures
        forall|c: int, m: int|
            0 <= c < num_chunks(d.len() as int) && 0 <= m < chunk_len(d.len() as int, c)
                ==> #[trigger] chunk_of(d, c)[m] == d[MAX_CHUNK * c + m],
{
    lemma_chunk_partition(d.len() as int);
}

/// Chunk coverage of a read: the logged read transactions of one
/// `read_flash`/`nord` call are exactly `ceil(n / 32)`, in ascending address
/// order, each picking up where the previous one ended, the first at `addr`
/// and the last ending at `addr + n`: no gaps, no overlaps.
pub proof fn lemma_read_trace_coverage(ext: Seq<TxRecord>, addr: int, n: int)
    requires
        0 <= addr,
        0 <= n,
        addr + n <= 0x100_0000,
        ext.len() == num_chunks(n),
        forall|j: int|
            0 <= j < ext.len() ==> tx_is(
                #[trigger] ext[j],
                OP_READ,
                Option::Some((addr + MAX_CHUNK * j) as u32),
                Seq::<u8>::empty(),
                chunk_len(n, j),
                true,
            ),
    ensures
        forall|j: int|
            0 <= j < ext.len() ==> (#[trigger] ext[j]).address == Option::Some(
                (addr + MAX_CHUNK * j) as u32,
            ) && ext[j].read_len == chunk_len(n, j),
        n > 0 ==> ext[0].address == Option::Some(addr as u32),
        forall|j1: int, j2: int|
            #![trigger ext[j1], ext[j2]]
            0 <= j1 < j2 < ext.len() ==> ((addr + MAX_CHUNK * j1) as u32) < ((addr + MAX_CHUNK
                * j2) as u32),
        forall|j: int|
            0 <= j < ext.len() - 1 ==> addr + MAX_CHUNK * j + ext[j].read_len == addr + MAX_CHUNK
                * (j + 1),
        ext.len() > 0 ==> addr + MAX_CHUNK * (ext.len() - 1) + ext[ext.len() - 1].read_len
            == addr + n,
{
    lemma_chunk_partition(n);
}

/// Write-enable discipline of a single write-class command (sector erase,
/// bulk erase, or one program chunk): in its logged traffic the write-enable
/// command appears exactly once, at the head, and the write-class
/// transaction exactly two positions later, separated only by the settle
/// poll -- never batched, never omitted.
pub proof fn lemma_wseq_discipline(
    ext: Seq<TxRecord>,
    instruction: u8,
    address: Option<u32>,
    payload: Seq<u8>,
    budget: u32,
)
    requires
        is_write_command(instruction),
        ext.len() == txs_per_wcmd(budget),
        forall|j: int|
            0 <= j < ext.len() ==> wseq_tx_shape(#[trigger] ext[j], j, instruction, address,
            payload, true),
    ensures
        forall|j: int|
            0 <= j < ext.len() ==> (((#[trigger] ext[j]).instruction == OP_WRITE_ENABLE) <==> j
                == 0),
        forall|j: int|
            0 <= j < ext.len() ==> (((#[trigger] ext[j]).instruction == instruction) <==> j == 2),
        ext[0].instruction == OP_WRITE_ENABLE,
        ext[1].instruction == OP_READ_STATUS,
        ext[2].instruction == instruction && ext[2].address == address && ext[2].payload@
            == payload,
        forall|j: int| 3 <= j < ext.len() ==> (#[trigger] ext[j]).instruction == OP_READ_STATUS,
{
}

/// Write-enable discipline and chunk coverage of a page program: in the
/// logged traffic of one successful `program_page`/`pp` call, the
/// write-enable command appears exactly at the head of each per-chunk
/// sequence and the program transaction exactly two positions later --
/// separated only by the settle poll -- so write-enable is issued exactly
/// once immediately before each program transaction, never batched, never
/// omitted. The program transactions themselves are one per chunk, at
/// ascending chunk addresses, carrying exactly the chunk's bytes.
pub proof fn lemma_pp_trace_discipline(ext: Seq<TxRecord>, addr: int, d: Seq<u8>, budget: u32)
    requires
        0 <= addr,
        addr + d.len() <= 0x100_0000,
        ext.len() == num_chunks(d.len() as int) * txs_per_wcmd(budget),
        forall|j: int|
            0 <= j < ext.len() ==> pp_tx_shape(#[trigger] ext[j], j, addr, d, budget, true),
    ensures
        forall|j: int|
            0 <= j < ext.len() ==> (((#[trigger] ext[j]).instruction == OP_WRITE_ENABLE) <==> j
                % txs_per_wcmd(budget) == 0),
        forall|j: int|
            0 <= j < ext.len() ==> (((#[trigger] ext[j]).instruction == OP_PAGE_PROGRAM) <==> j
                % txs_per_wcmd(budget) == 2),
        forall|j: int|
            0 <= j < ext.len() && j % txs_per_wcmd(budget) == 2 ==> (#[trigger] ext[j - 2])
                .instruction == OP_WRITE_ENABLE && ext[j - 1].instruction == OP_READ_STATUS,
        forall|j: int|
            0 <= j < ext.len() && j % txs_per_wcmd(budget) == 0 ==> j + 2 < ext.len() && (
            #[trigger] ext[j + 2]).instruction == OP_PAGE_PROGRAM && ext[j + 1].instruction
                == OP_READ_STATUS,
        forall|j: int|
            0 <= j < ext.len() && j % txs_per_wcmd(budget) == 2 ==> (#[trigger] ext[j]).address
                == Option::Some((addr + MAX_CHUNK * (j / txs_per_wcmd(budget))) as u32)
                && ext[j].payload@ == chunk_of(d, j / txs_per_wcmd(budget)),
{
    let t = txs_per_wcmd(budget);
    let nch = num_chunks(d.len() as int);
    assert forall|j: int| #![trigger ext[j]] 0 <= j < ext.len() && j % t == 2 implies (ext[j
        - 2]).instruction == OP_WRITE_ENABLE && ext[j - 1].instruction == OP_READ_STATUS by {
        let q = j / t;
        lemma_fundamental_div_mod(j, t);
        lemma_fundamental_div_mod_converse(j - 2, t, q, 0);
        lemma_fundamental_div_mod_converse(j - 1, t, q, 1);
    }
    assert forall|j: int| #![trigger ext[j]] 0 <= j < ext.len() && j % t == 0 implies j + 2
        < ext.len() && (ext[j + 2]).instruction == OP_PAGE_PROGRAM && ext[j + 1].instruction
        == OP_READ_STATUS by {
        let q = j / t;
        lemma_fundamental_div_mod(j, t);
        assert(q < nch) by (nonlinear_arith)
            requires
                q * t < nch * t,
                t > 0,
        ;
        assert(j + 2 < (q + 1) * t) by (nonlinear_arith)
            requires
                j == q * t,
                t >= 4,
        ;
        assert((q + 1) * t <= nch * t) by (nonlinear_arith)
            requires
                q + 1 <= nch,
                t > 0,
        ;
        lemma_fundamental_div_mod_converse(j + 1, t, q, 1);
        lemma_fundamental_div_mod_converse(j + 2, t, q, 2);
    }
}

} // verus!
