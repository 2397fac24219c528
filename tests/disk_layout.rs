use bustub_storage::disk_manager::{log_file_name, log_offset_in_file, page_in_file, page_offset};

#[test]
fn page_offsets_are_page_sized() {
    assert_eq!(page_offset(0), 0);
    assert_eq!(page_offset(1), 4096);
    assert_eq!(page_offset(3), 12288);
    assert_eq!(page_offset(u32::MAX), u32::MAX as u64 * 4096);
}

#[test]
fn page_read_past_end_is_refused() {
    assert!(page_in_file(1, 4096));
    assert!(page_in_file(1, 5000));
    assert!(!page_in_file(2, 8191));
    assert!(page_in_file(2, 8192));
    assert!(page_in_file(0, 0));
}

#[test]
fn log_read_needs_bytes_at_offset() {
    assert!(!log_offset_in_file(0, 0));
    assert!(log_offset_in_file(0, 1));
    assert!(!log_offset_in_file(16, 16));
    assert!(log_offset_in_file(15, 16));
}

#[test]
fn log_name_replaces_last_extension() {
    assert_eq!(log_file_name(b"target/test.db"), Some(b"target/test.log".to_vec()));
    assert_eq!(log_file_name(b"a.b.db"), Some(b"a.b.log".to_vec()));
    assert_eq!(log_file_name(b"x."), Some(b"x.log".to_vec()));
    assert_eq!(log_file_name(b"noext"), None);
    assert_eq!(log_file_name(b""), None);
}
