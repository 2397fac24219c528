use crate::{LogSequenceNum, PageId, HEADER_PAGE_SIZE};
use vstd::prelude::*;

verus! {

/// The four bytes of `x`, least significant first.
pub open spec fn le_bytes(x: u32) -> Seq<u8> {
    seq![x as u8, (x >> 8u32) as u8, (x >> 16u32) as u8, (x >> 24u32) as u8]
}

/// The number whose least significant byte is `b[at]`, followed by the next three.
pub open spec fn le_u32(b: Seq<u8>, at: int) -> u32 {
    (b[at] as u32) | ((b[at + 1] as u32) << 8u32) | ((b[at + 2] as u32) << 16u32) | ((b[at
        + 3] as u32) << 24u32)
}

/// The fixed fields of a header page.
pub ghost struct HeaderFields {
    pub lsn: LogSequenceNum,
    pub size: u32,
    pub page_id: PageId,
    pub next_idx: u32,
}

/// The 16-byte wire form: `lsn`, `size`, `page_id`, `next_idx`, each in four
/// little-endian bytes.
pub open spec fn encode_header(h: HeaderFields) -> Seq<u8> {
    le_bytes(h.lsn) + le_bytes(h.size) + le_bytes(h.page_id) + le_bytes(h.next_idx)
}

/// The fields that a 16-byte wire form holds.
pub open spec fn decode_header(b: Seq<u8>) -> HeaderFields {
    HeaderFields {
        lsn: le_u32(b, 0),
        size: le_u32(b, 4),
        page_id: le_u32(b, 8),
        next_idx: le_u32(b, 12),
    }
}

/// What a header page holds: its fixed fields and its list of block pages.
pub ghost struct HeaderView {
    pub fields: HeaderFields,
    pub block_page_ids: Seq<PageId>,
}

/// Header page of a linear-probing hash table. Only the fixed fields travel
/// in the 16-byte header; the block page ids are kept alongside.
pub struct HashTableHeaderPage {
    lsn: LogSequenceNum,
    size: u32,
    page_id: PageId,
    next_idx: u32,
    block_page_ids: Vec<PageId>,
}

impl View for HashTableHeaderPage {
    type V = HeaderView;

    closed spec fn view(&self) -> HeaderView {
        HeaderView {
            fields: HeaderFields {
                lsn: self.lsn,
                size: self.size,
                page_id: self.page_id,
                next_idx: self.next_idx,
            },
            block_page_ids: self.block_page_ids@,
        }
    }
}

proof fn lemma_le_bytes_u32(x: u32)
    ensures
        le_u32(le_bytes(x), 0) == x,
{
    let b0 = x as u8;
    let b1 = (x >> 8u32) as u8;
    let b2 = (x >> 16u32) as u8;
    let b3 = (x >> 24u32) as u8;
    assert((b0 as u32) | ((b1 as u32) << 8u32) | ((b2 as u32) << 16u32) | ((b3 as u32) << 24u32)
        == x) by (bit_vector)
        requires
            b0 == x as u8,
            b1 == (x >> 8u32) as u8,
            b2 == (x >> 16u32) as u8,
            b3 == (x >> 24u32) as u8,
    ;
}

proof fn lemma_u32_le_bytes(b: Seq<u8>, at: int)
    requires
        0 <= at,
        at + 4 <= b.len(),
    ensures
        le_bytes(le_u32(b, at)) == b.subrange(at, at + 4),
{
    let b0 = b[at];
    let b1 = b[at + 1];
    let b2 = b[at + 2];
    let b3 = b[at + 3];
    let x = le_u32(b, at);
    assert(x as u8 == b0 && (x >> 8u32) as u8 == b1 && (x >> 16u32) as u8 == b2 && (x >> 24u32) as u8
        == b3) by (bit_vector)
        requires
            x == (b0 as u32) | ((b1 as u32) << 8u32) | ((b2 as u32) << 16u32) | ((b3 as u32)
                << 24u32),
    ;
    assert(le_bytes(x) =~= b.subrange(at, at + 4));
}

/// Decoding what was encoded gives back the same fields.
pub proof fn lemma_header_decode_encode(h: HeaderFields)
    ensures
        decode_header(encode_header(h)) == h,
{
    let e = encode_header(h);
    lemma_le_bytes_u32(h.lsn);
    lemma_le_bytes_u32(h.size);
    lemma_le_bytes_u32(h.page_id);
    lemma_le_bytes_u32(h.next_idx);
    assert(e.subrange(0, 4) =~= le_bytes(h.lsn));
    assert(e.subrange(4, 8) =~= le_bytes(h.size));
    assert(e.subrange(8, 12) =~= le_bytes(h.page_id));
    assert(e.subrange(12, 16) =~= le_bytes(h.next_idx));
    assert(le_u32(e, 4) == le_u32(e.subrange(4, 8), 0));
    assert(le_u32(e, 8) == le_u32(e.subrange(8, 12), 0));
    assert(le_u32(e, 12) == le_u32(e.subrange(12, 16), 0));
}

/// Encoding the fields of a 16-byte header gives back the same bytes.
pub proof fn lemma_header_encode_decode(b: Seq<u8>)
    requires
        b.len() == HEADER_PAGE_SIZE,
    ensures
        encode_header(decode_header(b)) == b,
{
    lemma_u32_le_bytes(b, 0);
    lemma_u32_le_bytes(b, 4);
    lemma_u32_le_bytes(b, 8);
    lemma_u32_le_bytes(b, 12);
    assert(encode_header(decode_header(b)) =~= b);
}

fn read_u32_le(bytes: &[u8; HEADER_PAGE_SIZE], at: usize) -> (r: u32)
    requires
        at + 4 <= HEADER_PAGE_SIZE,
    ensures
        r == le_u32(bytes@, at as int),
{
    (bytes[at] as u32) | ((bytes[at + 1] as u32) << 8u32) | ((bytes[at + 2] as u32) << 16u32) | ((
    bytes[at + 3] as u32) << 24u32)
}

impl HashTableHeaderPage {
    /// A header with every field zero and no block pages.
    pub fn new() -> (r: HashTableHeaderPage)
        ensures
            r@ == (HeaderView {
                fields: HeaderFields { lsn: 0, size: 0, page_id: 0, next_idx: 0 },
                block_page_ids: Seq::empty(),
            }),
    {
        HashTableHeaderPage { lsn: 0, size: 0, page_id: 0, next_idx: 0, block_page_ids: Vec::new() }
    }

    /// Reads the fixed fields from a 16-byte header; the block list is empty.
    pub fn from_bytes(page: [u8; HEADER_PAGE_SIZE]) -> (r: HashTableHeaderPage)
        ensures
            r@ == (HeaderView { fields: decode_header(page@), block_page_ids: Seq::empty() }),
    {
        HashTableHeaderPage {
            lsn: read_u32_le(&page, 0),
            size: read_u32_le(&page, 4),
            page_id: read_u32_le(&page, 8),
            next_idx: read_u32_le(&page, 12),
            block_page_ids: Vec::new(),
        }
    }

    /// Writes the fixed fields as a 16-byte header.
    pub fn to_bytes(&self) -> (r: [u8; HEADER_PAGE_SIZE])
        ensures
            r@ == encode_header(self@.fields),
    {
        let r = [
            self.lsn as u8,
            (self.lsn >> 8u32) as u8,
            (self.lsn >> 16u32) as u8,
            (self.lsn >> 24u32) as u8,
            self.size as u8,
            (self.size >> 8u32) as u8,
            (self.size >> 16u32) as u8,
            (self.size >> 24u32) as u8,
            self.page_id as u8,
            (self.page_id >> 8u32) as u8,
            (self.page_id >> 16u32) as u8,
            (self.page_id >> 24u32) as u8,
            self.next_idx as u8,
            (self.next_idx >> 8u32) as u8,
            (self.next_idx >> 16u32) as u8,
            (self.next_idx >> 24u32) as u8,
        ];
        assert(r@ =~= encode_header(self@.fields));
        r
    }

    pub fn get_size(&self) -> (r: u32)
        ensures
            r == self@.fields.size,
    {
        self.size
    }

    pub fn set_size(&mut self, size: u32)
        ensures
            final(self)@ == (HeaderView {
                fields: HeaderFields { size, ..old(self)@.fields },
                ..old(self)@
            }),
    {
        self.size = size
    }

    pub fn get_page_id(&self) -> (r: PageId)
        ensures
            r == self@.fields.page_id,
    {
        self.page_id
    }

    pub fn set_page_id(&mut self, page_id: PageId)
        ensures
            final(self)@ == (HeaderView {
                fields: HeaderFields { page_id, ..old(self)@.fields },
                ..old(self)@
            }),
    {
        self.page_id = page_id
    }

    pub fn set_lsn(&mut self, lsn: LogSequenceNum)
        ensures
            final(self)@ == (HeaderView {
                fields: HeaderFields { lsn, ..old(self)@.fields },
                ..old(self)@
            }),
    {
        self.lsn = lsn;
    }

    pub fn get_lsn(&self) -> (r: LogSequenceNum)
        ensures
            r == self@.fields.lsn,
    {
        self.lsn
    }

    /// Appends a block page id to the list.
    pub fn add_block_page_id(&mut self, page_id: PageId)
        ensures
            final(self)@ == (HeaderView {
                block_page_ids: old(self)@.block_page_ids.push(page_id),
                ..old(self)@
            }),
    {
        self.block_page_ids.push(page_id)
    }

    /// The block page id at `index`, if the list is that long.
    pub fn get_block_page_id(&self, index: usize) -> (r: Option<&PageId>)
        ensures
            index < self@.block_page_ids.len() ==> r == Some(&self@.block_page_ids[index as int]),
            index >= self@.block_page_ids.len() ==> r is None,
    {
        if index < self.block_page_ids.len() {
            Some(&self.block_page_ids[index])
        } else {
            None
        }
    }

    pub fn num_blocks(&self) -> (r: usize)
        ensures
            r == self@.block_page_ids.len(),
    {
        self.block_page_ids.len()
    }
}

} // verus!
