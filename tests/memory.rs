use proc_patch::error::ToolError;
use proc_patch::memory::{splice_word, word_from_chunk};
use proc_patch::simulated::SimulatedTracee;
use proc_patch::tracee::Tracee;
use proc_patch::writer::write_process_memory;

fn stopped(base: usize, bytes: Vec<u8>) -> SimulatedTracee {
    let mut t = SimulatedTracee::new(base, bytes);
    t.attach().unwrap();
    t.wait_for_stop().unwrap();
    t
}

#[test]
fn word_from_chunk_is_little_endian() {
    assert_eq!(word_from_chunk(&[1, 2, 3, 4, 5, 6, 7, 8]), 0x0807060504030201);
    assert_eq!(word_from_chunk(&[0xff, 0, 0, 0, 0, 0, 0, 0x80]), 0x80000000000000ff);
}

#[test]
fn splice_keeps_trailing_bytes() {
    assert_eq!(splice_word(0x1122334455667788, &[0xaa, 0xbb]), 0x112233445566bbaa);
    assert_eq!(splice_word(0x1122334455667788, &[]), 0x1122334455667788);
    assert_eq!(
        splice_word(0, &[1, 2, 3, 4, 5, 6, 7]),
        0x0007060504030201
    );
}

#[test]
fn full_word_round_trip() {
    let mut t = stopped(0x1000, vec![0u8; 32]);
    let b = vec![9u8, 8, 7, 6, 5, 4, 3, 2];
    write_process_memory(&mut t, 0x1008, &b).unwrap();
    let w = t.read_word(0x1008).unwrap();
    assert_eq!(w.to_le_bytes().to_vec(), b);
    assert_eq!(t.read_bytes(0x1000, 24).unwrap()[8..16].to_vec(), b);
}

#[test]
fn short_write_keeps_rest_of_word() {
    let mut t = stopped(0x1000, (0u8..32).collect());
    write_process_memory(&mut t, 0x1004, &[0xaa, 0xbb, 0xcc]).unwrap();
    let got = t.read_bytes(0x1000, 16).unwrap();
    assert_eq!(got, vec![0, 1, 2, 3, 0xaa, 0xbb, 0xcc, 7, 8, 9, 10, 11, 12, 13, 14, 15]);
}

#[test]
fn repeated_full_word_write_is_idempotent() {
    let mut once = stopped(0x2000, (0u8..24).collect());
    let mut twice = stopped(0x2000, (0u8..24).collect());
    let b = [0x90u8; 8];
    write_process_memory(&mut once, 0x2003, &b).unwrap();
    write_process_memory(&mut twice, 0x2003, &b).unwrap();
    write_process_memory(&mut twice, 0x2003, &b).unwrap();
    assert_eq!(once.read_bytes(0x2000, 24), twice.read_bytes(0x2000, 24));
}

#[test]
fn multi_word_buffer_with_tail() {
    let mut t = stopped(0, vec![0xee; 40]);
    let buffer: Vec<u8> = (1u8..=19).collect();
    write_process_memory(&mut t, 5, &buffer).unwrap();
    let got = t.read_bytes(0, 40).unwrap();
    assert_eq!(&got[0..5], &[0xee; 5]);
    assert_eq!(&got[5..24], buffer.as_slice());
    assert_eq!(&got[24..40], &[0xee; 16]);
}

#[test]
fn failed_write_keeps_committed_words() {
    // The region ends 12 bytes after the write address: the first word fits, the
    // tail's word does not.
    let mut t = stopped(0x100, vec![0u8; 16]);
    let r = write_process_memory(&mut t, 0x104, &[1, 2, 3, 4, 5, 6, 7, 8, 9, 10]);
    assert_eq!(r, Err(ToolError::WriteError));
    assert_eq!(
        t.read_bytes(0x100, 16).unwrap(),
        vec![0, 0, 0, 0, 1, 2, 3, 4, 5, 6, 7, 8, 0, 0, 0, 0]
    );
    assert!(t.is_traced() && t.is_stopped());
}

#[test]
fn read_outside_region_fails() {
    let t = stopped(0x100, vec![0u8; 16]);
    assert_eq!(t.read_word(0x109), Err(ToolError::WriteError));
    assert_eq!(t.read_word(0xff), Err(ToolError::WriteError));
    assert_eq!(t.read_bytes(0x10f, 2), None);
    assert_eq!(t.read_bytes(0x10f, 1), Some(vec![0]));
}

#[test]
fn write_to_untraced_or_running_target_is_refused() {
    let mut t = SimulatedTracee::new(0x100, vec![0u8; 16]);
    assert_eq!(write_process_memory(&mut t, 0x100, &[1, 2, 3]), Err(ToolError::WriteError));
    assert_eq!(write_process_memory(&mut t, 0x100, &[]), Ok(()));
    t.attach().unwrap();
    assert_eq!(write_process_memory(&mut t, 0x100, &[1; 8]), Err(ToolError::WriteError));
    assert_eq!(t.read_bytes(0x100, 16), Some(vec![0u8; 16]));
}

#[test]
fn stub_scenario_patch_bytes_read_back() {
    let mut t = stopped(0x1000, vec![0u8; 0x100]);
    let addr = 0x1000 + 0x20 + 0x4f;
    assert_eq!(write_process_memory(&mut t, addr, &[0xF3, 0x0F, 0x10, 0xCA]), Ok(()));
    assert_eq!(t.read_bytes(addr, 4), Some(vec![0xF3, 0x0F, 0x10, 0xCA]));
}
