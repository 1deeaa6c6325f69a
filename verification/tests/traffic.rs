// The wire traffic itself: opcodes, write-enable discipline, chunking, and
// the status poller, read off the chip model's transaction log.

use qspi_nor::chip::Chip;
use qspi_nor::cmds::Cmds;
use qspi_nor::driver::{wait_for_finish, Algorithm};

#[test]
fn opcodes_match_datasheet() {
    assert_eq!(Cmds::WriteEnable.opcode(), 0x06);
    assert_eq!(Cmds::Read.opcode(), 0x03);
    assert_eq!(Cmds::PageProgram.opcode(), 0x02);
    assert_eq!(Cmds::Subsector4KbErase.opcode(), 0x20);
    assert_eq!(Cmds::BulkErase.opcode(), 0xC7);
    assert_eq!(Cmds::ReadStatusRegister.opcode(), 0x05);
}

#[test]
fn program_chunk_traffic_shape() {
    // Two chunks with busy budget 1: each chunk is write-enable, settle
    // poll, program, then budget + 1 completion polls.
    let mut algo = Algorithm::new(Chip::new(0x3000, 1, None));
    let data = vec![0x5Au8; 64];
    assert!(algo.program_page(0x40, &data).is_ok());
    let expected_per_chunk = [0x06u8, 0x05, 0x02, 0x05, 0x05];
    assert_eq!(algo.bus.log.len(), 10);
    for (j, rec) in algo.bus.log.iter().enumerate() {
        assert_eq!(rec.instruction, expected_per_chunk[j % 5], "transaction {}", j);
        assert!(rec.ok);
    }
}

#[test]
fn write_enable_immediately_before_each_write_transaction() {
    // Write-enable appears exactly once before each program, sector-erase
    // and bulk-erase transaction, separated only by the settle poll --
    // never batched, never omitted.
    let mut algo = Algorithm::new(Chip::new(0x3000, 2, None));
    assert!(algo.program_page(0, &vec![0u8; 96]).is_ok());
    assert!(algo.erase_sector(0x1000).is_ok());
    assert!(algo.erase_all().is_ok());
    let log = &algo.bus.log;
    let write_classes = [0x02u8, 0x20, 0xC7];
    let mut wren_positions = Vec::new();
    let mut write_positions = Vec::new();
    for (j, rec) in log.iter().enumerate() {
        if rec.instruction == 0x06 {
            wren_positions.push(j);
        }
        if write_classes.contains(&rec.instruction) {
            write_positions.push(j);
        }
    }
    // One write-enable per write-class transaction.
    assert_eq!(wren_positions.len(), write_positions.len());
    assert_eq!(write_positions.len(), 5); // 3 program chunks + 2 erases
    for (&w, &p) in wren_positions.iter().zip(write_positions.iter()) {
        assert_eq!(p, w + 2, "write-enable two slots before its command");
        assert_eq!(log[w + 1].instruction, 0x05, "only the settle poll between");
    }
}

#[test]
fn read_chunking_covers_span_in_order() {
    // 100 bytes from address 0x20: ceil(100/32) = 4 transactions covering
    // exactly [0x20, 0x84), ascending, no gaps, no overlaps.
    let mut algo = Algorithm::new(Chip::new(0x3000, 1, None));
    let mut buf = vec![0u8; 100];
    assert!(algo.read_flash(0x20, &mut buf).is_ok());
    let log = &algo.bus.log;
    assert_eq!(log.len(), 4);
    let mut next = 0x20u32;
    for rec in log.iter() {
        assert_eq!(rec.instruction, 0x03);
        assert_eq!(rec.address, Some(next));
        assert!(rec.read_len <= 32 && rec.read_len > 0);
        next += rec.read_len as u32;
    }
    assert_eq!(next, 0x20 + 100);
    assert_eq!(log[0].read_len, 32);
    assert_eq!(log[3].read_len, 4);
}

#[test]
fn program_chunking_covers_span_in_order() {
    let mut algo = Algorithm::new(Chip::new(0x3000, 1, None));
    let data: Vec<u8> = (0..100u32).map(|i| i as u8).collect();
    assert!(algo.program_page(0x20, &data).is_ok());
    let progs: Vec<_> = algo.bus.log.iter().filter(|r| r.instruction == 0x02).collect();
    assert_eq!(progs.len(), 4);
    let mut next = 0x20u32;
    let mut gathered: Vec<u8> = Vec::new();
    for rec in progs {
        assert_eq!(rec.address, Some(next));
        next += rec.payload.len() as u32;
        gathered.extend_from_slice(&rec.payload);
    }
    assert_eq!(next, 0x20 + 100);
    assert_eq!(gathered, data, "payloads tile the span exactly");
}

#[test]
fn single_chunk_boundaries() {
    let mut algo = Algorithm::new(Chip::new(0x3000, 1, None));
    let mut buf = vec![0u8; 32];
    assert!(algo.read_flash(0, &mut buf).is_ok());
    assert_eq!(algo.bus.log.len(), 1, "exactly one transaction for 32 bytes");
    let mut buf33 = vec![0u8; 33];
    assert!(algo.read_flash(0, &mut buf33).is_ok());
    assert_eq!(algo.bus.log.len(), 3, "33 bytes take two transactions");
    assert_eq!(algo.bus.log[2].read_len, 1);
}

#[test]
fn poller_reads_status_until_ready() {
    // Make the chip busy through a real program command, then poll: with
    // busy budget 3 the poller issues exactly 4 status reads and returns
    // the final, ready status byte.
    let mut chip = Chip::new(0x1000, 3, None);
    assert!(chip.issue_write(0x06, None, &[]).is_ok());
    assert!(chip.issue_write(0x02, Some(0), &[0x12u8]).is_ok());
    let before = chip.log.len();
    let status = wait_for_finish(&mut chip);
    assert_eq!(status, Ok(0));
    assert_eq!(chip.busy, 0);
    assert_eq!(chip.log.len(), before + 4);
    for rec in &chip.log[before..] {
        assert_eq!(rec.instruction, 0x05);
        assert_eq!(rec.read_len, 1);
    }
}

#[test]
fn write_without_enable_is_silently_ignored() {
    // The write-enable latch auto-clears after one write-class command; a
    // program command without a fresh write-enable does nothing.
    let mut chip = Chip::new(0x1000, 1, None);
    assert!(chip.issue_write(0x02, Some(0), &[0x00u8; 4]).is_ok());
    let mut algo = Algorithm::new(chip);
    let mut buf = vec![0u8; 4];
    assert!(algo.read_flash(0, &mut buf).is_ok());
    assert!(buf.iter().all(|&b| b == 0xFF), "command was ignored");
}

#[test]
fn latch_is_consumed_by_one_command() {
    // One write-enable arms exactly one write-class command.
    let mut chip = Chip::new(0x1000, 1, None);
    assert!(chip.issue_write(0x06, None, &[]).is_ok());
    assert!(chip.issue_write(0x02, Some(0), &[0x00u8; 2]).is_ok());
    assert!(chip.issue_write(0x02, Some(8), &[0x00u8; 2]).is_ok());
    let mut algo = Algorithm::new(chip);
    let mut buf = vec![0u8; 10];
    assert!(algo.read_flash(0, &mut buf).is_ok());
    assert_eq!(&buf[..2], &[0x00, 0x00], "armed command applied");
    assert_eq!(&buf[8..10], &[0xFF, 0xFF], "second command ignored");
}

#[test]
fn failed_transaction_is_logged_and_has_no_effect() {
    let mut algo = Algorithm::new(Chip::new(0x3000, 1, Some(2)));
    // The program transaction itself (third of the sequence) fails.
    assert!(algo.program_page(0, &[0x00u8; 4]).is_err());
    assert_eq!(algo.bus.log.len(), 3);
    assert!(algo.bus.log[0].ok && algo.bus.log[1].ok);
    assert!(!algo.bus.log[2].ok, "the failed transaction is the last logged");
    let mut buf = vec![0u8; 4];
    assert!(algo.read_flash(0, &mut buf).is_ok());
    assert!(buf.iter().all(|&b| b == 0xFF), "no effect on the array");
}
