//! The layout rules of the database and log files. The files themselves are
//! opened, read and written by the caller; these functions decide where and
//! whether.
use crate::{PageId, PAGE_SIZE};
use vstd::prelude::*;

verus! {

/// Index of the last `c` in `s`, or -1 when `s` holds none.
pub open spec fn last_index_of(s: Seq<u8>, c: u8) -> int
    decreases s.len(),
{
    if s.len() == 0 {
        -1
    } else if s.last() == c {
        s.len() - 1
    } else {
        last_index_of(s.drop_last(), c)
    }
}

/// The log file's name for a database file's name: the part before the last
/// `.` followed by `.log`; none when the name has no `.`.
pub open spec fn log_name_of(name: Seq<u8>) -> Option<Seq<u8>> {
    let k = last_index_of(name, '.' as u8);
    if k < 0 {
        None
    } else {
        Some(name.subrange(0, k) + seq!['.' as u8, 'l' as u8, 'o' as u8, 'g' as u8])
    }
}

/// Byte offset of a page in the database file.
pub fn page_offset(page_id: PageId) -> (r: u64)
    ensures
        r == page_id as int * PAGE_SIZE as int,
{
    page_id as u64 * PAGE_SIZE as u64
}

/// Whether a page may be read from a database file of `file_len` bytes: its
/// offset must not lie past the end. A page that starts inside the file but
/// ends past it is read in part.
pub fn page_in_file(page_id: PageId, file_len: u64) -> (r: bool)
    ensures
        r == (page_id as int * PAGE_SIZE as int <= file_len),
{
    page_offset(page_id) <= file_len
}

/// Whether the log holds anything to read at `offset`.
pub fn log_offset_in_file(offset: u64, log_len: u64) -> (r: bool)
    ensures
        r == (offset < log_len),
{
    offset < log_len
}

/// The log file's name for the database file `filename`, or `None` when the
/// name has no extension to replace.
pub fn log_file_name(filename: &[u8]) -> (r: Option<Vec<u8>>)
    ensures
        match r {
            Some(v) => log_name_of(filename@) == Some(v@),
            None => log_name_of(filename@) is None,
        },
{
    let mut i: usize = filename.len();
    assert(filename@.subrange(0, i as int) =~= filename@);
    while i > 0
        invariant
            i <= filename@.len(),
            last_index_of(filename@, '.' as u8) == last_index_of(filename@.subrange(0, i as int), '.' as u8),
        decreases i,
    {
        if filename[i - 1] == '.' as u8 {
            let mut name: Vec<u8> = Vec::new();
            let mut j: usize = 0;
            while j < i - 1
                invariant
                    j <= i - 1,
                    i <= filename@.len(),
                    name@ == filename@.subrange(0, j as int),
                decreases i - 1 - j,
            {
                name.push(filename[j]);
                j = j + 1;
                assert(name@ =~= filename@.subrange(0, j as int));
            }
            name.push('.' as u8);
            name.push('l' as u8);
            name.push('o' as u8);
            name.push('g' as u8);
            proof {
                let s = filename@.subrange(0, i as int);
                assert(s.last() == '.' as u8);
                assert(name@ =~= filename@.subrange(0, i - 1) + seq!['.' as u8, 'l' as u8, 'o' as u8, 'g' as u8]);
            }
            return Some(name);
        }
        proof {
            let s = filename@.subrange(0, i as int);
            assert(s.drop_last() =~= filename@.subrange(0, i - 1));
        }
        i = i - 1;
    }
    proof {
        assert(filename@.subrange(0, 0).len() == 0);
    }
    None
}

} // verus!
