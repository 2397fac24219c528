//! Storage and buffering core of a disk-backed database: fixed-size pages,
//! a bounded buffer pool with a clock replacement policy, the page-file
//! layout rules, and the hash-table header page codec.
use vstd::prelude::*;

pub mod buffer;
pub mod storage;

pub use buffer::buffer_pool_manager::{BufferPoolManager, Fetch, Replacement};
pub use buffer::clock_replacer::ClockReplacer;
pub use buffer::replace::Replacer;
pub use storage::disk::disk_manager;
pub use storage::page::hash_table_header_page;
pub use storage::page::Page;

verus! {

/// Size in bytes of the fixed header of a hash-table header page.
pub const HEADER_PAGE_SIZE: usize = 16;

/// Size in bytes of one page, on disk and in a frame.
pub const PAGE_SIZE: usize = 4096;

/// The page id that no page ever has.
pub const INVALID_PAGE_ID: PageId = 0;

/// Identifies a slot of the buffer pool; slots are numbered from 1.
pub type FrameId = u32;

/// Identifies a page of the database file; 0 is reserved as invalid.
pub type PageId = u32;

/// Stamp that orders the unpins seen by the clock replacer.
pub type EpochId = u64;

/// Log sequence number kept in a page header.
pub type LogSequenceNum = u32;

} // verus!
