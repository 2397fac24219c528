use bustub_storage::{BufferPoolManager, Fetch, FrameId, PageId, Replacement, INVALID_PAGE_ID, PAGE_SIZE};
use rand::rngs::StdRng;
use rand::{RngCore, SeedableRng};
use std::collections::HashMap;

const BUFFER_POOL_SIZE: usize = 10;

/// A database file kept in memory: page id to page bytes, and a write count.
#[derive(Default)]
struct MemDisk {
    pages: HashMap<PageId, [u8; PAGE_SIZE]>,
    writes: usize,
}

impl MemDisk {
    fn write_page(&mut self, page_id: PageId, data: [u8; PAGE_SIZE]) {
        self.pages.insert(page_id, data);
        self.writes += 1;
    }

    fn read_page(&self, page_id: PageId) -> [u8; PAGE_SIZE] {
        self.pages.get(&page_id).copied().unwrap_or([0u8; PAGE_SIZE])
    }

    fn write_back(&mut self, rep: &Replacement) {
        if let Some(page) = &rep.write_back {
            self.write_page(page.get_id(), page.get_data());
        }
    }
}

fn new_page(bpm: &mut BufferPoolManager, disk: &mut MemDisk) -> (Option<FrameId>, PageId) {
    if let Some(rep) = bpm.replacement() {
        disk.write_back(&rep);
    }
    bpm.new_page()
}

fn fetch_page(bpm: &mut BufferPoolManager, disk: &mut MemDisk, page_id: PageId) -> Option<FrameId> {
    match bpm.fetch_page(page_id) {
        Fetch::Hit(frame_id) => Some(frame_id),
        Fetch::Exhausted => None,
        Fetch::Miss(rep) => {
            disk.write_back(&rep);
            let data = disk.read_page(page_id);
            bpm.load_page(page_id, &data)
        }
    }
}

fn flush_page(bpm: &mut BufferPoolManager, disk: &mut MemDisk, page_id: PageId) -> bool {
    match bpm.flush_page(page_id) {
        Some(data) => {
            disk.write_page(page_id, data);
            assert!(bpm.mark_flushed(page_id));
            true
        }
        None => false,
    }
}

fn page_bytes(bpm: &BufferPoolManager, page_id: PageId) -> Vec<u8> {
    bpm.page(page_id).unwrap().get_data().to_vec()
}

#[test]
fn test_buffer_pool_manager() {
    let mut disk = MemDisk::default();
    let mut bpm = BufferPoolManager::new(BUFFER_POOL_SIZE);

    // The buffer pool is empty: a new page can be created.
    let (page1, page1_id) = new_page(&mut bpm, &mut disk);
    assert!(page1.is_some());
    assert_eq!(page1_id, 1);

    let mut rng: StdRng = SeedableRng::seed_from_u64(42);
    let mut random_binary_data = [0u8; PAGE_SIZE];
    rng.fill_bytes(&mut random_binary_data);

    // Once we have a page, we can write and read its content.
    assert!(bpm.set_data(page1_id, &random_binary_data));
    assert_eq!(page_bytes(&bpm, page1_id), random_binary_data.to_vec());

    // New pages can be created until the pool is full.
    for i in 2..=BUFFER_POOL_SIZE {
        let (page, page_id) = new_page(&mut bpm, &mut disk);
        assert!(page.is_some());
        assert_eq!(page_id, i as PageId);
    }

    // Once the pool is full of pinned pages, no new page can be created.
    for _ in BUFFER_POOL_SIZE + 1..=BUFFER_POOL_SIZE * 2 {
        let (page, page_id) = new_page(&mut bpm, &mut disk);
        assert!(page.is_none());
        assert_eq!(page_id, INVALID_PAGE_ID);
    }

    // Unpinning pages 1-5 drops their pins to zero; flushing writes them out.
    for i in 1..=5 {
        assert!(!bpm.unpin_page(i, true));
        assert!(flush_page(&mut bpm, &mut disk, i));
    }
    assert_eq!(disk.read_page(1).to_vec(), random_binary_data.to_vec());

    // Pages 11..15 take the freed frames; unpinning each drops it to zero.
    for i in 11..=15 {
        let (page, page_id) = new_page(&mut bpm, &mut disk);
        assert!(page.is_some());
        assert_eq!(page_id, i);
        assert!(!bpm.unpin_page(page_id, false));
    }

    // Page 1 comes back from disk intact.
    assert!(fetch_page(&mut bpm, &mut disk, 1).is_some());
    assert_eq!(page_bytes(&bpm, 1), random_binary_data.to_vec());
    assert!(!bpm.unpin_page(1, true));

    // Pinning pages 16..19 leaves one frame, the one of page 1.
    for i in 16..20 {
        let (page, page_id) = new_page(&mut bpm, &mut disk);
        assert!(page.is_some());
        assert_eq!(page_id, i as PageId);
    }

    assert!(fetch_page(&mut bpm, &mut disk, 1).is_some());
    assert_eq!(page_bytes(&bpm, 1), random_binary_data.to_vec());

    // Unpin page 1 and create page 20 in its frame: fetching page 1 then fails.
    assert!(!bpm.unpin_page(1, true));
    let (page, page_id) = new_page(&mut bpm, &mut disk);
    assert!(page.is_some());
    assert_eq!(page_id, 20);
    assert!(fetch_page(&mut bpm, &mut disk, 1).is_none());
    assert_eq!(disk.read_page(1).to_vec(), random_binary_data.to_vec());
}

#[test]
fn saturated_pool_hands_out_no_page_id() {
    let mut bpm = BufferPoolManager::new(2);
    assert_eq!(bpm.new_page(), (Some(1), 1));
    assert_eq!(bpm.new_page(), (Some(2), 2));
    assert!(bpm.replacement().is_none());
    assert_eq!(bpm.new_page(), (None, INVALID_PAGE_ID));
    assert_eq!(bpm.last_page_id(), 2);
    assert!(!bpm.unpin_page(1, false));
    assert_eq!(bpm.new_page(), (Some(1), 3));
}

#[test]
fn free_frames_are_used_in_order() {
    let mut bpm = BufferPoolManager::new(3);
    assert_eq!(bpm.pool_size(), 3);
    assert_eq!(bpm.new_page().0, Some(1));
    assert_eq!(bpm.new_page().0, Some(2));
    assert_eq!(bpm.new_page().0, Some(3));
    assert_eq!(bpm.lookup(2), Some(2));
    assert_eq!(bpm.lookup(9), None);
}

#[test]
fn eviction_removes_old_mapping_and_reports_dirty_page() {
    let mut bpm = BufferPoolManager::new(1);
    let (_, id) = bpm.new_page();
    let mut data = [0u8; PAGE_SIZE];
    data[10] = 77;
    assert!(bpm.set_data(id, &data));
    assert!(!bpm.unpin_page(id, true));
    let rep = bpm.replacement().unwrap();
    assert_eq!(rep.frame_id, 1);
    let evicted = rep.write_back.unwrap();
    assert_eq!(evicted.get_id(), id);
    assert_eq!(evicted.get_data()[10], 77);
    let (frame, id2) = bpm.new_page();
    assert_eq!(frame, Some(1));
    assert_eq!(id2, 2);
    assert_eq!(bpm.lookup(id), None);
    assert_eq!(bpm.lookup(id2), Some(1));
    assert!(bpm.flush_page(id).is_none());
}

#[test]
fn clean_victim_needs_no_write_back() {
    let mut bpm = BufferPoolManager::new(1);
    let (_, id) = bpm.new_page();
    assert!(!bpm.unpin_page(id, false));
    let rep = bpm.replacement().unwrap();
    assert!(rep.write_back.is_none());
}

#[test]
fn dirty_flag_is_sticky() {
    let mut bpm = BufferPoolManager::new(2);
    let (_, id) = bpm.new_page();
    assert!(matches!(bpm.fetch_page(id), Fetch::Hit(1)));
    assert!(bpm.unpin_page(id, true));
    assert!(!bpm.unpin_page(id, false));
    assert!(bpm.page(id).unwrap().is_dirty());
    assert_eq!(bpm.page(id).unwrap().get_pin_count(), 0);
}

#[test]
fn fetch_hit_pins_again_and_blocks_eviction() {
    let mut bpm = BufferPoolManager::new(1);
    let (_, id) = bpm.new_page();
    assert!(!bpm.unpin_page(id, false));
    assert!(matches!(bpm.fetch_page(id), Fetch::Hit(1)));
    assert_eq!(bpm.page(id).unwrap().get_pin_count(), 1);
    assert!(bpm.replacement().is_none());
    assert_eq!(bpm.new_page(), (None, INVALID_PAGE_ID));
}

#[test]
fn fetch_miss_loads_bytes_and_leaves_pool_until_loaded() {
    let mut disk = MemDisk::default();
    let mut bpm = BufferPoolManager::new(1);
    let (_, a) = new_page(&mut bpm, &mut disk);
    let (_, b) = {
        assert!(!bpm.unpin_page(a, true));
        new_page(&mut bpm, &mut disk)
    };
    assert_eq!(disk.writes, 1);
    assert!(!bpm.unpin_page(b, false));
    match bpm.fetch_page(a) {
        Fetch::Miss(rep) => {
            assert_eq!(rep.frame_id, 1);
            assert!(rep.write_back.is_none());
        }
        _ => panic!("page {} should not be resident", a),
    }
    assert_eq!(bpm.lookup(b), Some(1));
    let mut data = [0u8; PAGE_SIZE];
    data[0] = 1;
    assert_eq!(bpm.load_page(a, &data), Some(1));
    assert_eq!(bpm.lookup(b), None);
    assert_eq!(bpm.page(a).unwrap().get_data()[0], 1);
    assert!(!bpm.page(a).unwrap().is_dirty());
    assert_eq!(bpm.page(a).unwrap().get_pin_count(), 1);
}

#[test]
fn fetch_with_every_frame_pinned_is_exhausted() {
    let mut bpm = BufferPoolManager::new(1);
    let (_, a) = bpm.new_page();
    assert!(matches!(bpm.fetch_page(a + 1), Fetch::Exhausted));
    assert!(matches!(bpm.fetch_page(a), Fetch::Hit(1)));
}

#[test]
fn empty_pool_has_nothing_to_give() {
    let mut bpm = BufferPoolManager::new(0);
    assert!(bpm.replacement().is_none());
    assert_eq!(bpm.new_page(), (None, INVALID_PAGE_ID));
    assert!(bpm.flush_page(1).is_none());
    assert!(!bpm.set_data(1, &[0u8; PAGE_SIZE]));
}

#[test]
fn flushed_page_is_clean_and_not_written_again_on_eviction() {
    let mut disk = MemDisk::default();
    let mut bpm = BufferPoolManager::new(1);
    let (_, a) = new_page(&mut bpm, &mut disk);
    assert!(!bpm.unpin_page(a, true));
    assert!(bpm.page(a).unwrap().is_dirty());
    assert!(flush_page(&mut bpm, &mut disk, a));
    assert_eq!(disk.writes, 1);
    assert!(!bpm.page(a).unwrap().is_dirty());
    assert_eq!(bpm.page(a).unwrap().get_pin_count(), 0);
    assert!(bpm.replacement().unwrap().write_back.is_none());
    let (_, b) = new_page(&mut bpm, &mut disk);
    assert_eq!(b, 2);
    assert_eq!(disk.writes, 1);
}

#[test]
fn mark_flushed_on_absent_page_changes_nothing() {
    let mut bpm = BufferPoolManager::new(2);
    let (_, a) = bpm.new_page();
    assert!(!bpm.mark_flushed(a + 1));
    assert!(!bpm.unpin_page(a, true));
    assert!(bpm.page(a).unwrap().is_dirty());
    assert!(bpm.mark_flushed(a));
    assert!(!bpm.page(a).unwrap().is_dirty());
    assert_eq!(bpm.lookup(a), Some(1));
}
