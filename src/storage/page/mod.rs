pub mod hash_table_header_page;

use crate::{PageId, INVALID_PAGE_ID, PAGE_SIZE};
use vstd::prelude::*;

verus! {

/// What a page holds, as a mathematical value.
pub ghost struct PageView {
    pub data: Seq<u8>,
    pub page_id: PageId,
    pub pin_count: u32,
    pub is_dirty: bool,
}

/// A frame's content: `PAGE_SIZE` bytes with the page's identity, its pin
/// count and whether it was written since it was read.
#[derive(Copy, Clone)]
pub struct Page {
    data: [u8; PAGE_SIZE],
    page_id: PageId,
    pin_count: u32,
    is_dirty: bool,
}

impl View for Page {
    type V = PageView;

    closed spec fn view(&self) -> PageView {
        PageView {
            data: self.data@,
            page_id: self.page_id,
            pin_count: self.pin_count,
            is_dirty: self.is_dirty,
        }
    }
}

impl Page {
    /// A zeroed page with the given id, pinned once and clean.
    pub fn new(page_id: PageId) -> (r: Page)
        ensures
            r@.data == Seq::new(PAGE_SIZE as nat, |i: int| 0u8),
            r@.page_id == page_id,
            r@.pin_count == 1,
            !r@.is_dirty,
    {
        let r = Page { data: [0u8; PAGE_SIZE], page_id, pin_count: 1, is_dirty: false };
        assert(r@.data =~= Seq::new(PAGE_SIZE as nat, |i: int| 0u8));
        r
    }

    pub fn get_data(&self) -> (r: [u8; PAGE_SIZE])
        ensures
            r@ == self@.data,
    {
        self.data
    }

    /// Overwrites the whole buffer; the dirty flag is left to the writer.
    pub fn set_data(&mut self, data: &[u8; PAGE_SIZE])
        ensures
            final(self)@ == (PageView { data: data@, ..old(self)@ }),
    {
        self.data = *data;
    }

    pub fn get_id(&self) -> (r: PageId)
        ensures
            r == self@.page_id,
    {
        self.page_id
    }

    pub fn get_pin_count(&self) -> (r: u32)
        ensures
            r == self@.pin_count,
    {
        self.pin_count
    }

    pub fn is_dirty(&self) -> (r: bool)
        ensures
            r == self@.is_dirty,
    {
        self.is_dirty
    }

    pub fn mark_dirty(&mut self, dirty: bool)
        ensures
            final(self)@ == (PageView { is_dirty: dirty, ..old(self)@ }),
    {
        self.is_dirty = dirty;
    }

    /// Takes one more reference on the page.
    pub fn pin(&mut self)
        requires
            old(self)@.pin_count < u32::MAX,
        ensures
            final(self)@ == (PageView { pin_count: (old(self)@.pin_count + 1) as u32, ..old(self)@ }),
    {
        self.pin_count = self.pin_count + 1;
    }

    /// Gives one reference back; a page that nobody pins cannot be unpinned.
    pub fn unpin(&mut self)
        requires
            old(self)@.pin_count > 0,
        ensures
            final(self)@ == (PageView { pin_count: (old(self)@.pin_count - 1) as u32, ..old(self)@ }),
    {
        self.pin_count = self.pin_count - 1;
    }
}

impl Default for Page {
    /// A zeroed page that belongs to no page id.
    fn default() -> (r: Page)
        ensures
            r@.data == Seq::new(PAGE_SIZE as nat, |i: int| 0u8),
            r@.page_id == INVALID_PAGE_ID,
            r@.pin_count == 1,
            !r@.is_dirty,
    {
        Page::new(INVALID_PAGE_ID)
    }
}

} // verus!
