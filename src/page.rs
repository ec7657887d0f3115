//! The slotted page: a page header, a type-specific sub-header, records
//! growing forward from the headers and a slot directory growing backward
//! from the end of the page.
use vstd::prelude::*;
use crate::codec::{get16, get32, le16, le32, lemma_le16, lemma_le32, push_u16, push_u32, put_bytes};
use crate::error::FluxError;
use crate::record::{DbRecord, Record, typed_record};
use crate::types::{PageType, page_type_byte, page_type_of, is_slotted};

verus! {

/// Bytes of the generic page header.
pub const PAGE_HEADER_SIZE: usize = 24;

/// Bytes of the heap sub-header.
pub const HEAP_HEADER_SIZE: usize = 6;

/// Bytes of the chunk-data sub-header.
pub const CHUNK_HEADER_SIZE: usize = 14;

/// Bytes of one slot directory entry.
pub const SLOT_SIZE: usize = 4;

/// Where the bytes past the headers of a fresh page of type `t` start.
pub open spec fn body_start(t: PageType) -> int {
    match t {
        PageType::HeapPage | PageType::CatalogPage => 30,
        PageType::DataPage => 38,
        PageType::IndexPage => 24,
    }
}

/// Where records start on a slotted page.
pub const HEAP_DATA_START: usize = 30;

/// The largest page size that 16-bit offsets can address.
pub const MAX_PAGE_SIZE: usize = 65535;

// ---------------------------------------------------------------------------
// Slots
// ---------------------------------------------------------------------------

/// A slot directory entry: where a record starts and how long it is.
#[derive(Debug, Clone, Copy, PartialEq, Eq, Structural)]
pub struct Slot {
    pub offset: u16,
    pub length: u16,
}

impl Slot {
    pub fn new(offset: u16, length: u16) -> (r: Slot)
        ensures
            r == (Slot { offset, length }),
    {
        Slot { offset, length }
    }

    /// Writes the slot's four bytes at `off`.
    pub fn write_to(&self, buf: &mut Vec<u8>, off: usize)
        requires
            off + SLOT_SIZE <= old(buf)@.len(),
        ensures
            final(buf)@ == old(buf)@.subrange(0, off as int) + le16(self.offset) + le16(self.length)
                + old(buf)@.subrange(off + 4, old(buf)@.len() as int),
            final(buf)@.len() == old(buf)@.len(),
            forall|k: int|
                0 <= k < old(buf)@.len() && !(off <= k < off + 4) ==> #[trigger] final(buf)@[k]
                    == old(buf)@[k],
            get16(final(buf)@, off as int) == self.offset,
            get16(final(buf)@, off + 2) == self.length,
    {
        let mut bytes: Vec<u8> = Vec::new();
        push_u16(&mut bytes, self.offset);
        push_u16(&mut bytes, self.length);
        put_bytes(buf, off, bytes.as_slice());
        proof {
            lemma_le16(self.offset);
            lemma_le16(self.length);
            assert(buf@[off as int] == bytes@[0]);
            assert(buf@[off + 1] == bytes@[1]);
            assert(buf@[off + 2] == bytes@[2]);
            assert(buf@[off + 3] == bytes@[3]);
        }
    }

    /// Reads the slot stored at `off`.
    pub fn read_from(buf: &[u8], off: usize) -> (r: Slot)
        requires
            off + SLOT_SIZE <= buf@.len(),
        ensures
            r.offset == get16(buf@, off as int),
            r.length == get16(buf@, off + 2),
    {
        assert(off + 2 < buf.len());
        Slot { offset: crate::codec::read_u16(buf, off), length: crate::codec::read_u16(buf, off + 2) }
    }
}

// ---------------------------------------------------------------------------
// Page header
// ---------------------------------------------------------------------------

/// The generic header at the start of every page.
#[derive(Debug, Clone, Copy)]
pub struct PageHeader {
    pub page_type: PageType,
    pub page_id: u32,
    pub next_page_id: u32,
    pub reserved: [u8; 15],
}

pub open spec fn page_header_bytes(h: PageHeader) -> Seq<u8> {
    seq![page_type_byte(h.page_type)] + le32(h.page_id) + le32(h.next_page_id) + h.reserved@
}

/// The first bytes of `b` hold a page header with a known type tag.
pub open spec fn has_page_header(b: Seq<u8>) -> bool {
    b.len() >= 24 && page_type_of(b[0]) is Some
}

/// `h` is the page header that the first bytes of `b` hold.
pub open spec fn page_header_in(h: PageHeader, b: Seq<u8>) -> bool {
    &&& has_page_header(b)
    &&& h.page_type == page_type_of(b[0])->Some_0
    &&& h.page_id == get32(b, 1)
    &&& h.next_page_id == get32(b, 5)
    &&& h.reserved@ == b.subrange(9, 24)
}

impl PageHeader {
    /// A header for a page that links to nothing.
    pub fn new(page_type: PageType, page_id: u32) -> (r: PageHeader)
        ensures
            r.page_type == page_type,
            r.page_id == page_id,
            r.next_page_id == 0,
            r.reserved@ == Seq::new(15, |i: int| 0u8),
    {
        let r = PageHeader { page_type, page_id, next_page_id: 0, reserved: [0u8; 15] };
        assert(r.reserved@ =~= Seq::new(15, |i: int| 0u8));
        r
    }

    /// Writes the header's 24 bytes at the start of `buf`.
    pub fn write_to(&self, buf: &mut Vec<u8>)
        requires
            old(buf)@.len() >= PAGE_HEADER_SIZE,
        ensures
            final(buf)@ == page_header_bytes(*self) + old(buf)@.subrange(24, old(buf)@.len() as int),
    {
        let mut bytes: Vec<u8> = Vec::new();
        bytes.push(self.page_type.to_u8());
        push_u32(&mut bytes, self.page_id);
        push_u32(&mut bytes, self.next_page_id);
        crate::codec::push_bytes(&mut bytes, self.reserved.as_slice());
        put_bytes(buf, 0, bytes.as_slice());
        assert(buf@ =~= page_header_bytes(*self) + old(buf)@.subrange(24, old(buf)@.len() as int));
    }

    /// Reads the header at the start of `buf`; fails on a short buffer or
    /// an unknown page type.
    pub fn read_from(buf: &[u8]) -> (r: Result<PageHeader, FluxError>)
        ensures
            match r {
                Ok(h) => page_header_in(h, buf@),
                Err(e) => !has_page_header(buf@) && e == FluxError::InvalidData,
            },
    {
        if buf.len() < PAGE_HEADER_SIZE {
            return Err(FluxError::InvalidData);
        }
        let page_type = match PageType::from_u8(buf[0]) {
            Some(t) => t,
            None => {
                return Err(FluxError::InvalidData);
            },
        };
        let mut reserved = [0u8; 15];
        let mut i: usize = 0;
        while i < 15
            invariant
                0 <= i <= 15,
                buf@.len() >= 24,
                forall|k: int| 0 <= k < i ==> reserved@[k] == buf@[9 + k],
            decreases 15 - i,
        {
            reserved[i] = buf[9 + i];
            i = i + 1;
        }
        assert(reserved@ =~= buf@.subrange(9, 24));
        let h = PageHeader {
            page_type,
            page_id: crate::codec::read_u32(buf, 1),
            next_page_id: crate::codec::read_u32(buf, 5),
            reserved,
        };
        Ok(h)
    }
}

// ---------------------------------------------------------------------------
// Sub-headers
// ---------------------------------------------------------------------------

/// Bookkeeping of a slotted page, stored right after the page header.
#[derive(Debug, Clone, Copy, PartialEq, Eq, Structural)]
pub struct HeapPageHeader {
    pub slot_count: u16,
    pub free_start: u16,
    pub free_end: u16,
}

pub open spec fn heap_header_bytes(h: HeapPageHeader) -> Seq<u8> {
    le16(h.slot_count) + le16(h.free_start) + le16(h.free_end)
}

impl HeapPageHeader {
    /// The sub-header of an empty page of `page_size` bytes.
    pub fn new(page_size: usize) -> (r: HeapPageHeader)
        requires
            page_size <= MAX_PAGE_SIZE,
        ensures
            r.slot_count == 0,
            r.free_start == HEAP_DATA_START,
            r.free_end == page_size,
    {
        HeapPageHeader { slot_count: 0, free_start: HEAP_DATA_START as u16, free_end: page_size as u16 }
    }

    /// Writes the sub-header's six bytes at `off`.
    pub fn write_to(&self, buf: &mut Vec<u8>, off: usize)
        requires
            off + HEAP_HEADER_SIZE <= old(buf)@.len(),
        ensures
            final(buf)@.len() == old(buf)@.len(),
            forall|k: int|
                0 <= k < old(buf)@.len() && !(off <= k < off + 6) ==> #[trigger] final(buf)@[k]
                    == old(buf)@[k],
            final(buf)@.subrange(off as int, off + 6) == heap_header_bytes(*self),
            get16(final(buf)@, off as int) == self.slot_count,
            get16(final(buf)@, off + 2) == self.free_start,
            get16(final(buf)@, off + 4) == self.free_end,
    {
        let mut bytes: Vec<u8> = Vec::new();
        push_u16(&mut bytes, self.slot_count);
        push_u16(&mut bytes, self.free_start);
        push_u16(&mut bytes, self.free_end);
        put_bytes(buf, off, bytes.as_slice());
        proof {
            lemma_le16(self.slot_count);
            lemma_le16(self.free_start);
            lemma_le16(self.free_end);
            assert(buf@.subrange(off as int, off + 6) =~= heap_header_bytes(*self));
            assert(buf@[off as int] == bytes@[0]);
            assert(buf@[off + 1] == bytes@[1]);
            assert(buf@[off + 2] == bytes@[2]);
            assert(buf@[off + 3] == bytes@[3]);
            assert(buf@[off + 4] == bytes@[4]);
            assert(buf@[off + 5] == bytes@[5]);
        }
    }

    /// Reads the sub-header stored at `off`.
    pub fn read_from(buf: &[u8], off: usize) -> (r: HeapPageHeader)
        requires
            off + HEAP_HEADER_SIZE <= buf@.len(),
        ensures
            r.slot_count == get16(buf@, off as int),
            r.free_start == get16(buf@, off + 2),
            r.free_end == get16(buf@, off + 4),
    {
        assert(off + 4 < buf.len());
        HeapPageHeader {
            slot_count: crate::codec::read_u16(buf, off),
            free_start: crate::codec::read_u16(buf, off + 2),
            free_end: crate::codec::read_u16(buf, off + 4),
        }
    }
}

/// Bookkeeping of a columnar data page, stored right after the page header.
#[derive(Debug, Clone, Copy, PartialEq, Eq, Structural)]
pub struct ChunkDataHeader {
    pub table_id: u32,
    pub column_ordinal: u16,
    pub value_count: u16,
    pub encoding: u8,
    pub flags: u8,
    pub next_page_id: u32,
}

pub open spec fn chunk_header_bytes(h: ChunkDataHeader) -> Seq<u8> {
    le32(h.table_id) + le16(h.column_ordinal) + le16(h.value_count) + seq![h.encoding, h.flags]
        + le32(h.next_page_id)
}

impl ChunkDataHeader {
    /// The sub-header of an empty chunk page of one column.
    pub fn new(table_id: u32, ordinal: u16) -> (r: ChunkDataHeader)
        ensures
            r == (ChunkDataHeader {
                table_id,
                column_ordinal: ordinal,
                value_count: 0,
                encoding: 0,
                flags: 0,
                next_page_id: 0,
            }),
    {
        ChunkDataHeader {
            table_id,
            column_ordinal: ordinal,
            value_count: 0,
            encoding: 0,
            flags: 0,
            next_page_id: 0,
        }
    }

    /// Writes the sub-header's fourteen bytes at `off`.
    pub fn write_to(&self, buf: &mut Vec<u8>, off: usize)
        requires
            off + CHUNK_HEADER_SIZE <= old(buf)@.len(),
        ensures
            final(buf)@ == old(buf)@.subrange(0, off as int) + chunk_header_bytes(*self) + old(buf)@.subrange(off + 14, old(buf)@.len() as int),
    {
        let mut bytes: Vec<u8> = Vec::new();
        push_u32(&mut bytes, self.table_id);
        push_u16(&mut bytes, self.column_ordinal);
        push_u16(&mut bytes, self.value_count);
        bytes.push(self.encoding);
        bytes.push(self.flags);
        push_u32(&mut bytes, self.next_page_id);
        assert(bytes@ =~= chunk_header_bytes(*self));
        put_bytes(buf, off, bytes.as_slice());
    }

    /// Reads the sub-header stored at `off`.
    pub fn read_from(buf: &[u8], off: usize) -> (r: ChunkDataHeader)
        requires
            off + CHUNK_HEADER_SIZE <= buf@.len(),
        ensures
            r.table_id == get32(buf@, off as int),
            r.column_ordinal == get16(buf@, off + 4),
            r.value_count == get16(buf@, off + 6),
            r.encoding == buf@[off + 8],
            r.flags == buf@[off + 9],
            r.next_page_id == get32(buf@, off + 10),
    {
        assert(off + 10 < buf.len());
        ChunkDataHeader {
            table_id: crate::codec::read_u32(buf, off),
            column_ordinal: crate::codec::read_u16(buf, off + 4),
            value_count: crate::codec::read_u16(buf, off + 6),
            encoding: buf[off + 8],
            flags: buf[off + 9],
            next_page_id: crate::codec::read_u32(buf, off + 10),
        }
    }
}

// ---------------------------------------------------------------------------
// The slotted layout, over the bytes of a page
// ---------------------------------------------------------------------------

pub open spec fn slot_count_of(p: Seq<u8>) -> u16 {
    get16(p, 24)
}

pub open spec fn free_start_of(p: Seq<u8>) -> u16 {
    get16(p, 26)
}

pub open spec fn free_end_of(p: Seq<u8>) -> u16 {
    get16(p, 28)
}

/// Where the directory entry of slot `i` starts: slots grow down from the end.
pub open spec fn slot_pos(p: Seq<u8>, i: int) -> int {
    p.len() - (i + 1) * 4
}

pub open spec fn slot_offset(p: Seq<u8>, i: int) -> u16 {
    get16(p, slot_pos(p, i))
}

pub open spec fn slot_length(p: Seq<u8>, i: int) -> u16 {
    get16(p, slot_pos(p, i) + 2)
}

/// The bytes that slot `i` points at.
pub open spec fn record_at(p: Seq<u8>, i: int) -> Seq<u8> {
    p.subrange(slot_offset(p, i) as int, slot_offset(p, i) + slot_length(p, i))
}

/// The sub-header's counters agree with each other and with the page size:
/// the free region lies between the records and the slot directory, and the
/// directory holds exactly `slot_count` entries.
pub open spec fn heap_layout_ok(p: Seq<u8>) -> bool {
    &&& HEAP_DATA_START <= p.len() <= MAX_PAGE_SIZE
    &&& HEAP_DATA_START <= free_start_of(p)
    &&& free_start_of(p) <= free_end_of(p)
    &&& free_end_of(p) <= p.len()
    &&& p.len() - free_end_of(p) == slot_count_of(p) * SLOT_SIZE
}

/// Every slot points inside the record area.
pub open spec fn records_in_bounds(p: Seq<u8>) -> bool {
    forall|i: int|
        0 <= i < slot_count_of(p) ==> HEAP_DATA_START <= #[trigger] slot_offset(p, i) && slot_offset(
            p,
            i,
        ) + slot_length(p, i) <= free_start_of(p)
}

/// A well-formed slotted page.
pub open spec fn heap_wf(p: Seq<u8>) -> bool {
    heap_layout_ok(p) && records_in_bounds(p)
}

/// The records of a slotted page, in slot order.
pub open spec fn page_records(p: Seq<u8>) -> Seq<Seq<u8>> {
    Seq::new(slot_count_of(p) as nat, |i: int| record_at(p, i))
}

/// Room for a record of `n` bytes and its slot.
pub open spec fn has_room(p: Seq<u8>, n: int) -> bool {
    n + SLOT_SIZE <= free_end_of(p) - free_start_of(p)
}

/// The directory entry of slot `i` lies inside the page.
pub open spec fn slot_readable(p: Seq<u8>, i: int) -> bool {
    &&& p.len() >= HEAP_DATA_START
    &&& 0 <= i < slot_count_of(p)
    &&& (i + 1) * 4 <= p.len()
}

/// Slot `i` and the bytes it points at lie inside the page.
pub open spec fn record_readable(p: Seq<u8>, i: int) -> bool {
    slot_readable(p, i) && slot_offset(p, i) + slot_length(p, i) <= p.len()
}

/// Every directory entry lies inside the page.
pub open spec fn directory_fits(p: Seq<u8>) -> bool {
    p.len() >= HEAP_DATA_START && slot_count_of(p) * 4 <= p.len()
}

// ---------------------------------------------------------------------------
// Pages
// ---------------------------------------------------------------------------

/// One page: its parsed header and its bytes.
pub struct Page {
    pub header: PageHeader,
    pub buf: Vec<u8>,
}

impl Page {
    /// The cached header is the one the bytes hold.
    pub open spec fn wf(&self) -> bool {
        page_header_in(self.header, self.buf@)
    }

    /// A well-formed slotted page.
    pub open spec fn is_heap(&self) -> bool {
        self.wf() && is_slotted(self.header.page_type) && heap_wf(self.buf@)
    }

    #[verifier::spinoff_prover]
    #[verifier::rlimit(80)]
    /// A zero-filled page with a fresh header and the sub-header its type
    /// calls for: an empty slot directory for heap and catalog pages, an
    /// empty chunk header for data pages.
    pub fn new(page_size: usize, page_type: PageType, page_id: u32) -> (r: Page)
        requires
            body_start(page_type) <= page_size <= MAX_PAGE_SIZE,
        ensures
            r.wf(),
            r.buf@.len() == page_size,
            r.header.page_type == page_type,
            r.header.page_id == page_id,
            r.header.next_page_id == 0,
            r.header.reserved@ == Seq::new(15, |i: int| 0u8),
            forall|k: int| body_start(page_type) <= k < page_size ==> #[trigger] r.buf@[k] == 0,
            is_slotted(page_type) ==> heap_wf(r.buf@) && slot_count_of(r.buf@) == 0
                && free_start_of(r.buf@) == HEAP_DATA_START && free_end_of(r.buf@) == page_size,
            page_type == PageType::DataPage ==> r.buf@.subrange(24, 38) == chunk_header_bytes(
                ChunkDataHeader {
                    table_id: 0,
                    column_ordinal: 0,
                    value_count: 0,
                    encoding: 0,
                    flags: 0,
                    next_page_id: 0,
                },
            ),
    {
        let header = PageHeader::new(page_type, page_id);
        let mut buf: Vec<u8> = vec![0u8; page_size];
        let ghost zeros = buf@;
        header.write_to(&mut buf);
        proof {
            lemma_le32(page_id);
            lemma_le32(0u32);
            crate::types::lemma_page_type_byte(page_type);
            assert(buf@.subrange(9, 24) =~= header.reserved@);
            assert forall|k: int| 24 <= k < page_size implies #[trigger] buf@[k] == 0 by {
                assert(buf@[k] == zeros.subrange(24, page_size as int)[k - 24]);
            }
        }
        if page_type.is_slotted() {
            let layout = HeapPageHeader::new(page_size);
            let ghost before = buf@;
            layout.write_to(&mut buf, PAGE_HEADER_SIZE);
            assert(buf@.subrange(9, 24) =~= before.subrange(9, 24));
            assert forall|k: int| 30 <= k < page_size implies #[trigger] buf@[k] == 0 by {
                assert(buf@[k] == before[k]);
            }
        } else if page_type == PageType::DataPage {
            let layout = ChunkDataHeader::new(0, 0);
            let ghost before = buf@;
            layout.write_to(&mut buf, PAGE_HEADER_SIZE);
            assert(buf@.subrange(0, 24) =~= before.subrange(0, 24));
            assert(buf@.subrange(9, 24) =~= before.subrange(9, 24));
            assert(buf@.subrange(24, 38) =~= chunk_header_bytes(layout));
            assert forall|k: int| 38 <= k < page_size implies #[trigger] buf@[k] == 0 by {
                assert(buf@[k] == before.subrange(38, page_size as int)[k - 38]);
            }
        }
        Page { header, buf }
    }

    /// A zero-filled data page for one column of a table.
    pub fn new_chunk_data(page_size: usize, page_id: u32, table_id: u32, ordinal: u16) -> (r: Page)
        requires
            PAGE_HEADER_SIZE + CHUNK_HEADER_SIZE <= page_size <= MAX_PAGE_SIZE,
        ensures
            r.wf(),
            r.buf@.len() == page_size,
            r.header.page_type == PageType::DataPage,
            r.header.page_id == page_id,
            r.header.next_page_id == 0,
            r.header.reserved@ == Seq::new(15, |i: int| 0u8),
            forall|k: int| 38 <= k < page_size ==> #[trigger] r.buf@[k] == 0,
            r.buf@.subrange(24, 38) == chunk_header_bytes(
                ChunkDataHeader {
                    table_id,
                    column_ordinal: ordinal,
                    value_count: 0,
                    encoding: 0,
                    flags: 0,
                    next_page_id: 0,
                },
            ),
    {
        let header = PageHeader::new(PageType::DataPage, page_id);
        let mut buf: Vec<u8> = vec![0u8; page_size];
        let ghost zeros = buf@;
        header.write_to(&mut buf);
        let layout = ChunkDataHeader::new(table_id, ordinal);
        let ghost before = buf@;
        layout.write_to(&mut buf, PAGE_HEADER_SIZE);
        proof {
            lemma_le32(page_id);
            lemma_le32(0u32);
            crate::types::lemma_page_type_byte(PageType::DataPage);
            assert(buf@.subrange(0, 24) =~= before.subrange(0, 24));
            assert(buf@.subrange(9, 24) =~= header.reserved@);
            assert(buf@.subrange(24, 38) =~= chunk_header_bytes(layout));
            assert forall|k: int| 38 <= k < page_size implies #[trigger] buf@[k] == 0 by {
                assert(buf@[k] == before.subrange(38, page_size as int)[k - 38]);
                assert(before[k] == zeros.subrange(24, page_size as int)[k - 24]);
            }
        }
        Page { header, buf }
    }

    /// A page over bytes read from storage; fails when they hold no valid
    /// page header.
    pub fn from_buffer(buf: Vec<u8>) -> (r: Result<Page, FluxError>)
        ensures
            match r {
                Ok(p) => p.wf() && p.buf@ == buf@,
                Err(e) => !has_page_header(buf@) && e == FluxError::InvalidData,
            },
    {
        match PageHeader::read_from(buf.as_slice()) {
            Ok(header) => Ok(Page { header, buf }),
            Err(e) => Err(e),
        }
    }

    /// Checks the slotted layout of the page bytes.
    pub fn check_heap_layout(&self) -> (r: bool)
        ensures
            r == heap_wf(self.buf@),
    {
        let len = self.buf.len();
        if len < HEAP_DATA_START || len > MAX_PAGE_SIZE {
            return false;
        }
        let layout = HeapPageHeader::read_from(self.buf.as_slice(), PAGE_HEADER_SIZE);
        let fs = layout.free_start as usize;
        let fe = layout.free_end as usize;
        let sc = layout.slot_count as usize;
        if fs < HEAP_DATA_START || fs > fe || fe > len || len - fe != sc * SLOT_SIZE {
            return false;
        }
        let mut i: usize = 0;
        while i < sc
            invariant
                heap_layout_ok(self.buf@),
                sc == slot_count_of(self.buf@),
                fs == free_start_of(self.buf@),
                len == self.buf@.len(),
                0 <= i <= sc,
                forall|j: int|
                    0 <= j < i ==> HEAP_DATA_START <= #[trigger] slot_offset(self.buf@, j)
                        && slot_offset(self.buf@, j) + slot_length(self.buf@, j) <= free_start_of(
                        self.buf@,
                    ),
            decreases sc - i,
        {
            let slot = Slot::read_from(self.buf.as_slice(), len - (i + 1) * SLOT_SIZE);
            if (slot.offset as usize) < HEAP_DATA_START || slot.offset as usize + slot.length as usize
                > fs {
                assert(slot.offset == slot_offset(self.buf@, i as int));
                assert(!records_in_bounds(self.buf@));
                return false;
            }
            i = i + 1;
        }
        true
    }

    /// Appends a record to a heap or catalog page: the bytes go to the start
    /// of the free region, a slot for them to its end. Returns the new
    /// slot's id. Fails with `PageFull` when the record and its slot do not
    /// fit, and with `InvalidData` when the page is not a well-formed slotted
    /// page; on failure the page is unchanged.
    #[verifier::spinoff_prover]
    pub fn insert_record(&mut self, record: &[u8]) -> (r: Result<u16, FluxError>)
        requires
            old(self).wf(),
        ensures
            final(self).wf(),
            final(self).header == old(self).header,
            final(self).buf@.len() == old(self).buf@.len(),
            match r {
                Ok(id) => {
                    &&& old(self).is_heap()
                    &&& has_room(old(self).buf@, record@.len() as int)
                    &&& id == slot_count_of(old(self).buf@)
                    &&& slot_offset(final(self).buf@, id as int) == free_start_of(old(self).buf@)
                    &&& heap_wf(final(self).buf@)
                    &&& page_records(final(self).buf@) == page_records(old(self).buf@).push(record@)
                    &&& free_start_of(final(self).buf@) == free_start_of(old(self).buf@) + record@.len()
                    &&& free_end_of(final(self).buf@) == free_end_of(old(self).buf@) - SLOT_SIZE
                    &&& final(self).buf@.subrange(0, 24) == old(self).buf@.subrange(0, 24)
                },
                Err(FluxError::PageFull) => {
                    &&& old(self).is_heap()
                    &&& !has_room(old(self).buf@, record@.len() as int)
                    &&& final(self).buf@ == old(self).buf@
                },
                Err(FluxError::InvalidData) => !old(self).is_heap() && final(self).buf@ == old(self).buf@,
                Err(_) => false,
            },
    {
        if !self.header.page_type.is_slotted() || !self.check_heap_layout() {
            return Err(FluxError::InvalidData);
        }
        let len = self.buf.len();
        let layout = HeapPageHeader::read_from(self.buf.as_slice(), PAGE_HEADER_SIZE);
        let fs = layout.free_start as usize;
        let fe = layout.free_end as usize;
        let n = record.len();
        if fe - fs < SLOT_SIZE || n > fe - fs - SLOT_SIZE {
            return Err(FluxError::PageFull);
        }
        let ghost b0 = self.buf@;
        put_bytes(&mut self.buf, fs, record);
        let ghost b1 = self.buf@;
        let slot = Slot { offset: fs as u16, length: n as u16 };
        slot.write_to(&mut self.buf, fe - SLOT_SIZE);
        let ghost b2 = self.buf@;
        let new_layout = HeapPageHeader {
            slot_count: layout.slot_count + 1,
            free_start: (fs + n) as u16,
            free_end: (fe - SLOT_SIZE) as u16,
        };
        new_layout.write_to(&mut self.buf, PAGE_HEADER_SIZE);
        let ghost b3 = self.buf@;
        proof {
            let sc = layout.slot_count as int;
            assert forall|k: int| 0 <= k < 24 implies b3[k] == b0[k] by {}
            assert(b3.subrange(0, 24) =~= b0.subrange(0, 24));
            assert(b3.subrange(9, 24) =~= b0.subrange(9, 24));
            assert forall|k: int| fe <= k < len implies b3[k] == b0[k] by {}
            assert forall|k: int| HEAP_DATA_START <= k < fs implies b3[k] == b0[k] by {}
            assert forall|i: int| 0 <= i < sc implies slot_offset(b3, i) == slot_offset(b0, i)
                && slot_length(b3, i) == slot_length(b0, i) by {
                assert(slot_pos(b0, i) >= fe);
            }
            assert forall|i: int| 0 <= i < sc implies record_at(b3, i) =~= record_at(b0, i) by {
                assert(slot_pos(b0, i) >= fe);
            }
            assert(slot_pos(b3, sc) == fe - 4);
            assert(b3[fe - 4] == b2[fe - 4] && b3[fe - 3] == b2[fe - 3]);
            assert(b3[fe - 2] == b2[fe - 2] && b3[fe - 1] == b2[fe - 1]);
            assert(slot_offset(b3, sc) == fs);
            assert(slot_length(b3, sc) == n);
            assert forall|k: int| fs <= k < fs + n implies b3[k] == record@[k - fs] by {
                assert(b3[k] == b2[k]);
                assert(b2[k] == b1[k]);
            }
            assert(record_at(b3, sc) =~= record@);
            assert(page_records(b3) =~= page_records(b0).push(record@));
        }
        Ok(layout.slot_count)
    }

    /// Tags `value` with its record type, encodes it and appends it as
    /// `insert_record` does.
    pub fn insert_typed_record<T: DbRecord>(&mut self, value: &T) -> (r: Result<u16, FluxError>)
        requires
            old(self).wf(),
        ensures
            final(self).wf(),
            final(self).header == old(self).header,
            final(self).buf@.len() == old(self).buf@.len(),
            match r {
                Ok(id) => {
                    &&& old(self).is_heap()
                    &&& has_room(old(self).buf@, typed_record::<T>(value@).len() as int)
                    &&& id == slot_count_of(old(self).buf@)
                    &&& heap_wf(final(self).buf@)
                    &&& page_records(final(self).buf@) == page_records(old(self).buf@).push(
                        typed_record::<T>(value@),
                    )
                    &&& final(self).buf@.subrange(0, 24) == old(self).buf@.subrange(0, 24)
                },
                Err(FluxError::PageFull) => {
                    &&& old(self).is_heap()
                    &&& !has_room(old(self).buf@, typed_record::<T>(value@).len() as int)
                    &&& final(self).buf@ == old(self).buf@
                },
                Err(FluxError::InvalidData) => !old(self).is_heap() && final(self).buf@ == old(self).buf@,
                Err(_) => false,
            },
    {
        let payload = value.serialize();
        let bytes = Record::encode(T::record_type(), payload.as_slice());
        self.insert_record(bytes.as_slice())
    }

    /// The directory entry of slot `slot_id`; `None` past the last slot.
    pub fn read_slot(&self, slot_id: u16) -> (r: Option<Slot>)
        ensures
            match r {
                Some(s) => slot_readable(self.buf@, slot_id as int) && s.offset == slot_offset(
                    self.buf@,
                    slot_id as int,
                ) && s.length == slot_length(self.buf@, slot_id as int),
                None => !slot_readable(self.buf@, slot_id as int),
            },
    {
        let len = self.buf.len();
        if len < HEAP_DATA_START {
            return None;
        }
        let layout = HeapPageHeader::read_from(self.buf.as_slice(), PAGE_HEADER_SIZE);
        if slot_id >= layout.slot_count || (slot_id as usize + 1) * SLOT_SIZE > len {
            return None;
        }
        Some(Slot::read_from(self.buf.as_slice(), len - (slot_id as usize + 1) * SLOT_SIZE))
    }

    /// The bytes of the record in slot `slot_id`; `None` past the last slot
    /// or when the slot points outside the page.
    pub fn read_record(&self, slot_id: u16) -> (r: Option<&[u8]>)
        ensures
            match r {
                Some(b) => record_readable(self.buf@, slot_id as int) && b@ == record_at(
                    self.buf@,
                    slot_id as int,
                ),
                None => !record_readable(self.buf@, slot_id as int),
            },
    {
        match self.read_slot(slot_id) {
            Some(slot) => {
                let start = slot.offset as usize;
                let end = start + slot.length as usize;
                if end > self.buf.len() {
                    None
                } else {
                    Some(&self.buf.as_slice()[start..end])
                }
            },
            None => None,
        }
    }

    /// Every slot of the directory with its id, in id order; empty when the
    /// directory does not fit in the page.
    pub fn iter_slots(&self) -> (r: Vec<(u16, Slot)>)
        ensures
            directory_fits(self.buf@) ==> r@.len() == slot_count_of(self.buf@),
            !directory_fits(self.buf@) ==> r@.len() == 0,
            forall|i: int|
                0 <= i < r@.len() ==> (#[trigger] r@[i]).0 == i && r@[i].1.offset == slot_offset(
                    self.buf@,
                    i,
                ) && r@[i].1.length == slot_length(self.buf@, i),
    {
        let mut out: Vec<(u16, Slot)> = Vec::new();
        let len = self.buf.len();
        if len < HEAP_DATA_START {
            return out;
        }
        let layout = HeapPageHeader::read_from(self.buf.as_slice(), PAGE_HEADER_SIZE);
        let sc = layout.slot_count;
        if sc as usize * SLOT_SIZE > len {
            return out;
        }
        let mut i: u16 = 0;
        while i < sc
            invariant
                sc == slot_count_of(self.buf@),
                directory_fits(self.buf@),
                len == self.buf@.len(),
                0 <= i <= sc,
                out@.len() == i,
                forall|j: int|
                    0 <= j < i ==> (#[trigger] out@[j]).0 == j && out@[j].1.offset == slot_offset(
                        self.buf@,
                        j,
                    ) && out@[j].1.length == slot_length(self.buf@, j),
            decreases sc - i,
        {
            let slot = Slot::read_from(self.buf.as_slice(), len - (i as usize + 1) * SLOT_SIZE);
            out.push((i, slot));
            i = i + 1;
        }
        out
    }

    /// Points the page's forward link at `next`, in the header and in the
    /// bytes; the records stay as they are.
    pub fn set_next_page_id(&mut self, next: u32)
        requires
            old(self).wf(),
        ensures
            final(self).wf(),
            final(self).header.page_type == old(self).header.page_type,
            final(self).header.page_id == old(self).header.page_id,
            final(self).header.next_page_id == next,
            final(self).buf@.len() == old(self).buf@.len(),
            final(self).buf@.subrange(24, old(self).buf@.len() as int) == old(self).buf@.subrange(
                24,
                old(self).buf@.len() as int,
            ),
    {
        self.header.next_page_id = next;
        let ghost b0 = self.buf@;
        self.header.write_to(&mut self.buf);
        proof {
            lemma_le32(next);
            lemma_le32(self.header.page_id);
            crate::types::lemma_page_type_byte(self.header.page_type);
            assert(self.buf@.subrange(9, 24) =~= self.header.reserved@);
            assert(self.buf@.subrange(24, b0.len() as int) =~= b0.subrange(24, b0.len() as int));
        }
    }
}

/// Page bytes that agree on everything past the page header hold the same
/// slotted layout and the same records.
pub proof fn lemma_same_body(a: Seq<u8>, b: Seq<u8>)
    requires
        a.len() == b.len(),
        heap_wf(a),
        a.subrange(24, a.len() as int) == b.subrange(24, b.len() as int),
    ensures
        heap_wf(b),
        page_records(a) == page_records(b),
        slot_count_of(a) == slot_count_of(b),
        free_start_of(a) == free_start_of(b),
        free_end_of(a) == free_end_of(b),
{
    assert forall|k: int| 24 <= k < a.len() implies a[k] == b[k] by {
        assert(a[k] == a.subrange(24, a.len() as int)[k - 24]);
        assert(b[k] == b.subrange(24, b.len() as int)[k - 24]);
    }
    assert(slot_count_of(a) == slot_count_of(b));
    assert(free_start_of(a) == free_start_of(b));
    assert(free_end_of(a) == free_end_of(b));
    assert forall|i: int| 0 <= i < slot_count_of(a) implies slot_offset(a, i) == slot_offset(b, i)
        && slot_length(a, i) == slot_length(b, i) by {
        assert(slot_pos(a, i) >= free_end_of(a));
    }
    assert forall|i: int| 0 <= i < slot_count_of(a) implies record_at(a, i) =~= record_at(b, i) by {
        assert(slot_pos(a, i) >= free_end_of(a));
    }
    assert(page_records(a) =~= page_records(b));
}

} // verus!
