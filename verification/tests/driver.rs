// Behaviour of the five-operation facade against the chip model: round
// trips, erase semantics, verify, and aborts on injected bus failures.

use qspi_nor::chip::Chip;
use qspi_nor::driver::{Algorithm, ErrorCode};

fn fresh(size: usize, budget: u32, fail_in: Option<u64>) -> Algorithm {
    Algorithm::new(Chip::new(size, budget, fail_in))
}

#[test]
fn fresh_chip_reads_blank() {
    let mut algo = fresh(0x3000, 2, None);
    let mut buf = vec![0u8; 64];
    assert!(algo.read_flash(0, &mut buf).is_ok());
    assert!(buf.iter().all(|&b| b == 0xFF));
}

#[test]
fn program_then_read_round_trip() {
    // A span of at most one page written into an erased region reads back
    // unchanged.
    let mut algo = fresh(0x3000, 2, None);
    let data: Vec<u8> = (0..100u32).map(|i| (i * 7 % 251) as u8).collect();
    assert!(algo.program_page(0x120, &data).is_ok());
    let mut buf = vec![0u8; 100];
    assert!(algo.read_flash(0x120, &mut buf).is_ok());
    assert_eq!(buf, data);
}

#[test]
fn program_full_page_round_trip() {
    let mut algo = fresh(0x3000, 1, None);
    let data: Vec<u8> = (0..256u32).map(|i| (255 - i) as u8).collect();
    assert!(algo.program_page(0x200, &data).is_ok());
    let mut buf = vec![0u8; 256];
    assert!(algo.read_flash(0x200, &mut buf).is_ok());
    assert_eq!(buf, data);
}

#[test]
fn program_is_bitwise_and() {
    // Programming only clears bits: writing over non-blank contents ANDs.
    let mut algo = fresh(0x3000, 1, None);
    assert!(algo.program_page(0x40, &[0xF0u8]).is_ok());
    assert!(algo.program_page(0x40, &[0x3Cu8]).is_ok());
    let mut buf = vec![0u8; 1];
    assert!(algo.read_flash(0x40, &mut buf).is_ok());
    assert_eq!(buf[0], 0xF0 & 0x3C);
}

#[test]
fn erase_sector_blanks_whole_sector() {
    let mut algo = fresh(0x3000, 2, None);
    let data = vec![0x00u8; 64];
    assert!(algo.program_page(0x1000, &data).is_ok());
    assert!(algo.program_page(0x1FC0, &data).is_ok());
    assert!(algo.erase_sector(0x1000).is_ok());
    let mut buf = vec![0u8; 0x1000];
    assert!(algo.read_flash(0x1000, &mut buf).is_ok());
    assert!(buf.iter().all(|&b| b == 0xFF));
}

#[test]
fn erase_sector_leaves_other_sectors() {
    let mut algo = fresh(0x3000, 2, None);
    assert!(algo.program_page(0x800, &[0x11u8, 0x22, 0x33]).is_ok());
    assert!(algo.erase_sector(0x1000).is_ok());
    let mut buf = vec![0u8; 3];
    assert!(algo.read_flash(0x800, &mut buf).is_ok());
    assert_eq!(buf, vec![0x11, 0x22, 0x33]);
}

#[test]
fn erase_all_blanks_everything() {
    let mut algo = fresh(0x3000, 2, None);
    assert!(algo.program_page(0x0, &[0u8; 32]).is_ok());
    assert!(algo.program_page(0x2F00, &[0u8; 32]).is_ok());
    assert!(algo.erase_all().is_ok());
    let mut buf = vec![0u8; 0x40];
    assert!(algo.read_flash(0x0, &mut buf).is_ok());
    assert!(buf.iter().all(|&b| b == 0xFF));
    assert!(algo.read_flash(0x2F00, &mut buf).is_ok());
    assert!(buf.iter().all(|&b| b == 0xFF));
}

#[test]
fn erase_sector_twice_is_idempotent() {
    // Both calls succeed and the contents are identical (all 0xFF).
    let mut algo = fresh(0x3000, 2, None);
    assert!(algo.program_page(0x1100, &[0u8; 16]).is_ok());
    assert!(algo.erase_sector(0x1000).is_ok());
    let mut first = vec![0u8; 0x1000];
    assert!(algo.read_flash(0x1000, &mut first).is_ok());
    assert!(algo.erase_sector(0x1000).is_ok());
    let mut second = vec![0u8; 0x1000];
    assert!(algo.read_flash(0x1000, &mut second).is_ok());
    assert_eq!(first, second);
    assert!(second.iter().all(|&b| b == 0xFF));
}

#[test]
fn verify_matching_page_succeeds() {
    let mut algo = fresh(0x3000, 1, None);
    let data: Vec<u8> = (0..256u32).map(|i| (i % 200) as u8).collect();
    assert!(algo.program_page(0x100, &data).is_ok());
    assert_eq!(algo.verify(0x100, 256, Some(&data)), Ok(()));
}

#[test]
fn verify_mismatch_in_first_page_fails() {
    let mut algo = fresh(0x3000, 1, None);
    let data: Vec<u8> = (0..256u32).map(|i| (i % 200) as u8).collect();
    assert!(algo.program_page(0x100, &data).is_ok());
    let mut wrong = data.clone();
    wrong[255] ^= 0x01;
    assert_eq!(algo.verify(0x100, 256, Some(&wrong)), Err(ErrorCode::VerifyMismatch));
}

#[test]
fn verify_compares_fixed_page_regardless_of_size() {
    // The comparison size is fixed by the scratch page, independent of the
    // requested size argument and of the supplied span's length.
    let mut algo = fresh(0x3000, 1, None);
    let data: Vec<u8> = (0..256u32).map(|i| (i % 200) as u8).collect();
    assert!(algo.program_page(0x100, &data).is_ok());
    // A shorter expected span never equals the 256 read bytes.
    let short: Vec<u8> = data[..100].to_vec();
    assert_eq!(algo.verify(0x100, 100, Some(&short)), Err(ErrorCode::VerifyMismatch));
    // The size argument is ignored: a full match passes whatever it says.
    assert_eq!(algo.verify(0x100, 13, Some(&data)), Ok(()));
}

#[test]
fn verify_without_expected_always_succeeds() {
    let mut algo = fresh(0x3000, 1, None);
    assert_eq!(algo.verify(0x500, 256, None), Ok(()));
    // Even a bus failure during the read-back does not fail it.
    let mut failing = fresh(0x3000, 1, Some(3));
    assert_eq!(failing.verify(0x500, 256, None), Ok(()));
}

#[test]
fn verify_read_failure_with_expected_is_distinct() {
    let mut algo = fresh(0x3000, 1, Some(3));
    let data = vec![0xFFu8; 256];
    assert_eq!(algo.verify(0x0, 256, Some(&data)), Err(ErrorCode::ReadFailure));
}

#[test]
fn program_failure_aborts_and_keeps_earlier_chunks() {
    // 96 bytes = 3 chunks; with busy budget 1 each chunk takes 5
    // transactions; transaction 7 is the second chunk's program command.
    let mut algo = fresh(0x3000, 1, Some(7));
    let data = vec![0x00u8; 96];
    assert_eq!(algo.program_page(0, &data), Err(ErrorCode::ProgramFailure));
    let mut buf = vec![0u8; 96];
    assert!(algo.read_flash(0, &mut buf).is_ok());
    assert!(buf[..32].iter().all(|&b| b == 0x00), "first chunk applied");
    assert!(buf[32..].iter().all(|&b| b == 0xFF), "later chunks not attempted");
}

#[test]
fn program_failure_during_poll_keeps_that_chunk() {
    // Transaction 8 is the first completion poll of the second chunk: the
    // chunk itself is already applied when the poll fails.
    let mut algo = fresh(0x3000, 1, Some(8));
    let data = vec![0x00u8; 96];
    assert_eq!(algo.program_page(0, &data), Err(ErrorCode::ProgramFailure));
    let mut buf = vec![0u8; 96];
    assert!(algo.read_flash(0, &mut buf).is_ok());
    assert!(buf[..64].iter().all(|&b| b == 0x00));
    assert!(buf[64..].iter().all(|&b| b == 0xFF));
}

#[test]
fn read_failure_aborts_and_keeps_earlier_chunks() {
    let mut algo = fresh(0x3000, 1, None);
    assert!(algo.program_page(0, &vec![0x00u8; 96]).is_ok());
    // The second read transaction fails (the log already holds the program
    // traffic, so count failures from the read call itself).
    algo.bus.fail_in = Some(1);
    let mut buf = vec![0xAAu8; 96];
    assert_eq!(algo.read_flash(0, &mut buf), Err(ErrorCode::ReadFailure));
    assert!(buf[..32].iter().all(|&b| b == 0x00), "first chunk delivered");
    assert!(buf[32..].iter().all(|&b| b == 0xAA), "rest of buffer untouched");
}

#[test]
fn error_codes_match_host_wire_values() {
    let mut a1 = fresh(0x3000, 1, Some(0));
    let e1 = a1.erase_all().unwrap_err();
    assert_eq!(e1, ErrorCode::EraseFailure);
    assert_eq!(e1.code(), 42);

    let mut a2 = fresh(0x3000, 1, Some(0));
    let e2 = a2.erase_sector(0x1000).unwrap_err();
    assert_eq!(e2, ErrorCode::SectorEraseFailure);
    assert_eq!(e2.code(), 0x70D0);

    let mut a3 = fresh(0x3000, 1, Some(0));
    let e3 = a3.program_page(0, &[0u8; 4]).unwrap_err();
    assert_eq!(e3, ErrorCode::ProgramFailure);
    assert_eq!(e3.code(), 42);

    let mut a4 = fresh(0x3000, 1, Some(0));
    let mut buf = vec![0u8; 4];
    let e4 = a4.read_flash(0, &mut buf).unwrap_err();
    assert_eq!(e4, ErrorCode::ReadFailure);
    assert_eq!(e4.code(), 42);

    let mut a5 = fresh(0x3000, 1, None);
    let e5 = a5.verify(0, 256, Some(&vec![0u8; 256])).unwrap_err();
    assert_eq!(e5, ErrorCode::VerifyMismatch);
    assert_eq!(e5.code(), 42);
}

#[test]
fn empty_spans_are_no_ops() {
    let mut algo = fresh(0x3000, 1, None);
    assert!(algo.program_page(0x100, &[]).is_ok());
    let mut buf: Vec<u8> = Vec::new();
    assert!(algo.read_flash(0x100, &mut buf).is_ok());
    assert_eq!(algo.bus.log.len(), 0, "no transactions issued");
}

#[test]
fn geometry_constants() {
    assert_eq!(qspi_nor::FLASH_ADDRESS, 0x9000_0000);
    assert_eq!(qspi_nor::FLASH_SIZE, 0x400_0000);
    assert_eq!(qspi_nor::PAGE_SIZE, 0x100);
    assert_eq!(qspi_nor::SECTOR_SIZE, 0x1000);
    assert_eq!(qspi_nor::EMPTY_VALUE, 0xFF);
    assert_eq!(qspi_nor::MAX_CHUNK, 32);
    assert_eq!(qspi_nor::PROGRAM_TIME_OUT, 1000);
    assert_eq!(qspi_nor::ERASE_TIME_OUT, 20000);
    assert_eq!(qspi_nor::device_name(), "MT25QL512ABB");
}
