//! End-to-end tests of the flash driver against the simulated chip.

use flashprog::dump;
use flashprog::FlashError;
use flashprog::FlashProgrammer;
use flashprog::SimFlash;

fn erased_chip(size: usize, busy: u32, busy_per_op: u32) -> SimFlash {
    SimFlash::new(vec![0xFF; size], busy, busy_per_op)
}

#[test]
fn round_trip_flash_then_verify() {
    let mut data = vec![0u8; 70000];
    for (i, b) in data.iter_mut().enumerate() {
        *b = (i % 251) as u8;
    }
    let sim = SimFlash::new(vec![0u8; 131072], 3, 2);
    let mut p = FlashProgrammer::new(sim, 10);
    assert!(p.flash_data(&data, 0).is_ok());
    assert!(p.verify_data(&data, 0).is_ok());
}

#[test]
fn combined_flash_and_verify_round_trip() {
    let mut data = vec![0u8; 300];
    for (i, b) in data.iter_mut().enumerate() {
        *b = (i % 7) as u8;
    }
    let mut p = FlashProgrammer::new(SimFlash::new(vec![0u8; 65536], 2, 1), 4);
    assert!(p.flash_and_verify(&data, 0).is_ok());
    // With too small a poll budget the same pass reports an
    // unresponsive device instead.
    let mut q = FlashProgrammer::new(SimFlash::new(vec![0u8; 65536], 5, 1), 4);
    assert_eq!(q.flash_and_verify(&data, 0), Err(FlashError::DeviceNotResponding));
}

#[test]
fn page_size_guard() {
    let mut p = FlashProgrammer::new(erased_chip(65536, 0, 0), 1);
    let too_long = vec![0xAA; 257];
    assert_eq!(p.program_page(&too_long, 0), Err(FlashError::InvalidArgument));
    let exact = vec![0xAA; 256];
    assert!(p.program_page(&exact, 0).is_ok());
    let out = p.read_arbitrary(0, 256);
    assert!(out.iter().all(|b| *b == 0xAA));
}

#[test]
fn program_only_clears_bits() {
    // On a chip full of zeros a program cannot set any bit back.
    let mut p = FlashProgrammer::new(SimFlash::new(vec![0x00; 65536], 0, 0), 1);
    let data = vec![0xFF; 16];
    p.program_page(&data, 0).unwrap();
    let out = p.read_arbitrary(0, 16);
    assert!(out.iter().all(|b| *b == 0x00));
    // The programming pass erases first, so the same data lands exactly.
    let mut p2 = FlashProgrammer::new(SimFlash::new(vec![0x00; 65536], 0, 0), 1);
    p2.flash_data(&data, 0).unwrap();
    let out2 = p2.read_arbitrary(0, 16);
    assert!(out2.iter().all(|b| *b == 0xFF));
}

#[test]
fn busy_gating_polls() {
    // A chip busy for the first 3 polls takes exactly 4 status reads.
    let mut p = FlashProgrammer::new(erased_chip(65536, 3, 0), 10);
    p.await_ready().unwrap();
    assert_eq!(p.port.status_read_ops(), 4);
    // An idle chip takes exactly one more.
    p.await_ready().unwrap();
    assert_eq!(p.port.status_read_ops(), 5);
}

#[test]
fn status_reports_busy_flag() {
    let mut p = FlashProgrammer::new(erased_chip(65536, 2, 0), 5);
    assert_eq!(p.read_status(), 1);
    assert_eq!(p.read_status(), 1);
    assert_eq!(p.read_status(), 0);
}

#[test]
fn unresponsive_chip_times_out() {
    let mut p = FlashProgrammer::new(erased_chip(65536, 50, 0), 10);
    assert_eq!(p.await_ready(), Err(FlashError::DeviceNotResponding));
    assert_eq!(p.port.status_read_ops(), 10);
    let mut p2 = FlashProgrammer::new(erased_chip(65536, 50, 0), 10);
    assert_eq!(p2.flash_data(&[1, 2, 3], 0), Err(FlashError::DeviceNotResponding));
}

#[test]
fn per_operation_busy_exhausts_budget() {
    // Each operation leaves the chip busy for longer than the poll
    // budget: the pass erases once, then gives up waiting.
    let mut p = FlashProgrammer::new(erased_chip(65536, 0, 5), 3);
    assert_eq!(p.flash_data(&[9u8; 4], 0), Err(FlashError::DeviceNotResponding));
    assert_eq!(p.port.erase_ops(), 1);
    assert_eq!(p.port.program_ops(), 0);
}

#[test]
fn mismatch_cites_page_and_index() {
    let mut p = FlashProgrammer::new(SimFlash::new(vec![0x00; 65536], 0, 0), 1);
    let mut expected = vec![0x00u8; 400];
    expected[300] = 0x5A;
    assert_eq!(
        p.verify_data(&expected, 0),
        Err(FlashError::Verification { page: 1, index: 300, expected: 0x5A, actual: 0x00 })
    );
}

#[test]
fn verify_stops_at_first_divergence() {
    let mut p = FlashProgrammer::new(SimFlash::new(vec![0x00; 65536], 0, 0), 1);
    let mut expected = vec![0x00u8; 600];
    expected[10] = 1;
    expected[500] = 2;
    assert_eq!(
        p.verify_data(&expected, 0),
        Err(FlashError::Verification { page: 0, index: 10, expected: 1, actual: 0 })
    );
}

#[test]
fn chunk_partition_counts() {
    // 70000 bytes at address 0: two erases, ceil(70000 / 256) = 274
    // page programs, and with a chip that is never busy one status
    // poll per wait: 2 + 274 = 276.
    let mut p = FlashProgrammer::new(erased_chip(131072, 0, 0), 1);
    let data = vec![0x42u8; 70000];
    p.flash_data(&data, 0).unwrap();
    assert_eq!(p.port.erase_ops(), 2);
    assert_eq!(p.port.program_ops(), 274);
    assert_eq!(p.port.status_read_ops(), 276);
}

#[test]
fn flash_poll_count_is_exact() {
    // Initially busy 3 polls, 2 busy polls per operation, 16 bytes:
    // one erase and one page means two waits, costing (3 + 1) and
    // (2 + 1) status reads.
    let mut p = FlashProgrammer::new(erased_chip(65536, 3, 2), 10);
    p.flash_data(&[7u8; 16], 0).unwrap();
    assert_eq!(p.port.status_read_ops(), 7);
}

#[test]
fn erase_granularity_is_destructive() {
    let mut p = FlashProgrammer::new(SimFlash::new(vec![0x11; 131072], 0, 0), 1);
    p.flash_data(&[0x22; 10], 0).unwrap();
    assert_eq!(p.port.memory_byte(5), 0x22);
    // The rest of the touched block is left erased...
    assert_eq!(p.port.memory_byte(100), 0xFF);
    assert_eq!(p.port.memory_byte(65535), 0xFF);
    // ...and the next block keeps its contents.
    assert_eq!(p.port.memory_byte(65536), 0x11);
}

#[test]
fn flash_at_block_aligned_address() {
    let mut data = vec![0u8; 70000];
    for (i, b) in data.iter_mut().enumerate() {
        *b = (i % 17) as u8;
    }
    let mut p = FlashProgrammer::new(SimFlash::new(vec![0x33; 262144], 1, 1), 5);
    p.flash_data(&data, 65536).unwrap();
    assert!(p.verify_data(&data, 65536).is_ok());
    assert_eq!(p.port.memory_byte(65535), 0x33);
    assert_eq!(p.port.memory_byte(65536 + 70000), 0xFF);
}

#[test]
fn verify_empty_buffer_succeeds() {
    let mut p = FlashProgrammer::new(erased_chip(65536, 0, 0), 1);
    assert!(p.verify_data(&[], 0).is_ok());
    assert!(p.flash_data(&[], 0).is_ok());
    assert_eq!(p.port.erase_ops(), 0);
    assert_eq!(p.port.program_ops(), 0);
}

#[test]
fn dump_spans_boundaries() {
    let mut mem = vec![0u8; 131072];
    for (i, b) in mem.iter_mut().enumerate() {
        *b = (i % 241) as u8;
    }
    let sim = SimFlash::new(mem.clone(), 0, 0);
    let out = dump(sim, 65000, 1000);
    assert_eq!(out.len(), 1000);
    assert_eq!(&out[..], &mem[65000..66000]);
}

#[test]
fn read_arbitrary_exact_length() {
    let mut mem = vec![0u8; 65536];
    for (i, b) in mem.iter_mut().enumerate() {
        *b = (i % 13) as u8;
    }
    let mut p = FlashProgrammer::new(SimFlash::new(mem.clone(), 0, 0), 1);
    let out = p.read_arbitrary(250, 600);
    assert_eq!(out.len(), 600);
    assert_eq!(&out[..], &mem[250..850]);
}
