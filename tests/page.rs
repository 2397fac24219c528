use bustub_storage::{Page, INVALID_PAGE_ID, PAGE_SIZE};

#[test]
fn new_page_is_zeroed_pinned_and_clean() {
    let p = Page::new(5);
    assert_eq!(p.get_id(), 5);
    assert_eq!(p.get_pin_count(), 1);
    assert!(!p.is_dirty());
    assert!(p.get_data().iter().all(|b| *b == 0));
    assert_eq!(p.get_data().len(), PAGE_SIZE);
}

#[test]
fn page_set_data_pin_unpin_and_dirty() {
    let mut p = Page::new(2);
    let mut data = [0u8; PAGE_SIZE];
    data[0] = 9;
    data[PAGE_SIZE - 1] = 7;
    p.set_data(&data);
    assert_eq!(p.get_data().to_vec(), data.to_vec());
    assert!(!p.is_dirty());
    p.mark_dirty(true);
    assert!(p.is_dirty());
    p.pin();
    assert_eq!(p.get_pin_count(), 2);
    p.unpin();
    p.unpin();
    assert_eq!(p.get_pin_count(), 0);
    p.mark_dirty(false);
    assert!(!p.is_dirty());
}

#[test]
fn default_page_has_invalid_id() {
    let p = Page::default();
    assert_eq!(p.get_id(), INVALID_PAGE_ID);
    assert_eq!(p.get_pin_count(), 1);
}
