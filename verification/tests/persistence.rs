use linura::persistence::{
    fill_reserve_bytes, is_physical_storage_exhaustion, physical_allocation_ok, released_headroom_ok,
    reserve_result, reserve_slot_bytes, slot_aligned, sqlite_page_size_from_header,
    storage_detail_is_full, target_len, StoreFailure, MIN_RECOVERY_RESERVE_SLOT_BYTES,
};

#[test]
fn explicit_physical_storage_failures_are_recognized() {
    assert!(is_physical_storage_exhaustion(
        &StoreFailure::Storage("database or disk is full".to_string()),
        false
    ));
    assert!(is_physical_storage_exhaustion(
        &StoreFailure::Storage("No space left on device (os error 28)".to_string()),
        false
    ));
    assert!(!is_physical_storage_exhaustion(
        &StoreFailure::Storage("permission denied".to_string()),
        false
    ));
}

#[test]
fn non_capacity_failures_never_enter_terminal_recovery() {
    assert!(!is_physical_storage_exhaustion(&StoreFailure::Other, false));
    assert!(!is_physical_storage_exhaustion(&StoreFailure::Other, true));
}

#[test]
fn logical_capacity_failure_counts_only_on_a_full_filesystem() {
    assert!(is_physical_storage_exhaustion(&StoreFailure::CapacityExceeded, true));
    assert!(!is_physical_storage_exhaustion(&StoreFailure::CapacityExceeded, false));
    assert!(storage_detail_is_full("write failed: ENOSPC"));
    assert!(storage_detail_is_full("PHYSICAL STORAGE EXHAUSTED"));
    assert!(!storage_detail_is_full("disk quota"));
}

#[test]
fn reserve_slots_hold_thirty_two_pages_and_at_least_one_mebibyte() {
    assert_eq!(reserve_slot_bytes(4096), Some(MIN_RECOVERY_RESERVE_SLOT_BYTES));
    assert_eq!(reserve_slot_bytes(65536), Some(2 * 1024 * 1024));
    assert_eq!(reserve_slot_bytes(u64::MAX), None);
    assert_eq!(target_len(1024, 3), Some(3072));
    assert_eq!(target_len(u64::MAX, 2), None);
    assert!(slot_aligned(3 * 4096, 4096));
    assert!(!slot_aligned(3 * 4096 + 1, 4096));
    assert!(slot_aligned(0, 4096));
}

#[test]
fn reserve_fill_pattern_is_deterministic_per_offset() {
    let mut first = vec![0u8; 8];
    fill_reserve_bytes(&mut first, 0);
    assert_eq!(first, vec![11, 2, 229, 54, 161, 78, 214, 26]);
    let mut other = vec![0xffu8; 4];
    fill_reserve_bytes(&mut other, 4096);
    assert_eq!(other, vec![41, 3, 22, 63]);
    let mut empty: Vec<u8> = Vec::new();
    fill_reserve_bytes(&mut empty, 7);
    assert!(empty.is_empty());
}

fn header(page: [u8; 2]) -> Vec<u8> {
    let mut h = b"SQLite format 3\0".to_vec();
    h.extend_from_slice(&page);
    h.extend_from_slice(&[0u8; 82]);
    h
}

#[test]
fn sqlite_header_declares_a_power_of_two_page_size() {
    assert_eq!(sqlite_page_size_from_header(&header([0x10, 0x00])), Some(4096));
    assert_eq!(sqlite_page_size_from_header(&header([0x00, 0x01])), Some(65536));
    assert_eq!(sqlite_page_size_from_header(&header([0x02, 0x00])), Some(512));
    assert_eq!(sqlite_page_size_from_header(&header([0x03, 0x00])), None);
    assert_eq!(sqlite_page_size_from_header(&header([0x01, 0x00])), None);
    let mut wrong = header([0x10, 0x00]);
    wrong[0] = b's';
    assert_eq!(sqlite_page_size_from_header(&wrong), None);
}

#[test]
fn reserve_sql_results_distinguish_a_full_disk() {
    assert_eq!(reserve_result(Ok(())), 1);
    assert_eq!(reserve_result(Err(Some(28))), 0);
    assert_eq!(reserve_result(Err(Some(5))), -1);
    assert_eq!(reserve_result(Err(None)), -1);
}

#[test]
fn released_headroom_keeps_all_but_one_slot() {
    let slot = 1024;
    assert!(released_headroom_ok(3 * slot, 2 * slot, 3 * slot, slot));
    assert!(!released_headroom_ok(3 * slot, 3 * slot, 3 * slot, slot));
    assert!(!released_headroom_ok(3 * slot, 2 * slot - 1, 3 * slot, slot));
    assert!(!released_headroom_ok(2 * slot, 2 * slot, 3 * slot, slot));
    assert!(physical_allocation_ok(4096, 4096, 4096));
    assert!(physical_allocation_ok(4096, 8192, 4096));
    assert!(!physical_allocation_ok(4096, 4095, 4096));
    assert!(!physical_allocation_ok(4095, 4096, 4096));
}
