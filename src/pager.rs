//! The pager: page ids to byte offsets over the image of a database file,
//! page allocation, and the catalog root on page 0.
use vstd::prelude::*;
use crate::error::FluxError;
use crate::header::{Header, HeaderFlags, HeaderView, HEADER_SIZE, header_bytes, header_valid, parse_header};
use crate::page::{Page, MAX_PAGE_SIZE, HEAP_DATA_START, SLOT_SIZE, has_page_header, page_records, heap_wf, has_room};
use crate::catalog::{Catalog, CatalogView, catalog_of, same_text};
use crate::chain::{one_more, lemma_chain_distinct, lemma_chain_extend, lemma_chain_stable, lemma_chain_suffix, lemma_records_one_more, lemma_records_same};
use crate::schema::{TableMeta, TableMetaView, TableColumn, TableColumnView, parse_table_meta};
use crate::types::ColumnType;
use crate::record::{DbRecord, Record, decoded_record, typed_record};
use crate::schema::{CatalogRoot, catalog_root_bytes, parse_catalog_root};
use crate::types::{PageType, RecordType, is_slotted, page_type_of};

verus! {

/// The smallest page size the engine accepts: room for both page headers
/// and for the catalog root record with its slot.
pub const MIN_PAGE_SIZE: usize = 49;

/// The largest page count: page ids are 32-bit.
pub const MAX_PAGE_COUNT: u64 = 0xffff_ffff;

/// The bytes of page `id` in a file image.
pub open spec fn page_at(img: Seq<u8>, ps: int, id: int) -> Seq<u8> {
    img.subrange(HEADER_SIZE + id * ps, HEADER_SIZE + (id + 1) * ps)
}

/// The page a page links to.
pub open spec fn next_of(p: Seq<u8>) -> u32 {
    crate::codec::get32(p, 5)
}

/// The catalog root that slot 0 of page 0 holds, if it holds one.
pub open spec fn root_in_page(p: Seq<u8>) -> Option<CatalogRoot> {
    if crate::page::record_readable(p, 0) {
        match decoded_record(crate::page::record_at(p, 0)) {
            Some((t, payload)) => if t == RecordType::CatalogRoot {
                parse_catalog_root(payload)
            } else {
                None
            },
            None => None,
        }
    } else {
        None
    }
}

/// The pager over a file image: the header, then `page_count` pages.
pub struct Pager {
    pub header: Header,
    pub image: Vec<u8>,
}

impl Pager {
    pub open spec fn page_size(&self) -> int {
        self.header.page_size as int
    }

    pub open spec fn page_count(&self) -> int {
        self.header.page_count as int
    }

    /// The bytes of the file image.
    pub open spec fn bytes(&self) -> Seq<u8> {
        self.image@
    }

    /// The bytes of page `id`.
    pub open spec fn page(&self, id: int) -> Seq<u8> {
        page_at(self.image@, self.page_size(), id)
    }

    /// The image starts with the header and holds exactly `page_count` pages.
    pub open spec fn wf(&self) -> bool {
        &&& MIN_PAGE_SIZE <= self.header.page_size <= MAX_PAGE_SIZE
        &&& self.header.page_count <= MAX_PAGE_COUNT
        &&& header_valid(self.header@)
        &&& self.image@.len() == HEADER_SIZE + self.page_count() * self.page_size()
        &&& self.image@.subrange(0, HEADER_SIZE as int) == header_bytes(self.header@)
    }

    /// The catalog root stored on page 0, if there is one.
    pub open spec fn root(&self) -> Option<CatalogRoot> {
        if self.page_count() > 0 {
            root_in_page(self.page(0))
        } else {
            None
        }
    }

    /// A pager over a file image: reads and checks the header, and keeps the
    /// bytes of the pages the header counts. Fails as the header read does;
    /// with `FormatError` when the page size is outside the supported range;
    /// with `IoError` when the image is shorter than its pages.
    pub fn new(image: Vec<u8>) -> (r: Result<Pager, FluxError>)
        ensures
            match r {
                Ok(p) => {
                    &&& p.wf()
                    &&& image@.len() >= p.bytes().len()
                    &&& parse_header(image@) == Ok::<HeaderView, FluxError>(p.header@)
                    &&& p.bytes().subrange(HEADER_SIZE as int, p.bytes().len() as int)
                        == image@.subrange(HEADER_SIZE as int, p.bytes().len() as int)
                },
                Err(e) => match parse_header(image@) {
                    Ok(h) => (e == FluxError::FormatError && !(MIN_PAGE_SIZE <= h.page_size))
                        || (e == FluxError::IoError && image@.len() < HEADER_SIZE + h.page_count
                        * h.page_size) || (e == FluxError::InvalidData && h.page_count
                        > MAX_PAGE_COUNT),
                    Err(pe) => e == pe,
                },
            },
    {
        let header = match Header::read_from(image.as_slice()) {
            Ok(h) => h,
            Err(e) => {
                return Err(e);
            },
        };
        if (header.page_size as usize) < MIN_PAGE_SIZE {
            return Err(FluxError::FormatError);
        }
        if header.page_count > MAX_PAGE_COUNT {
            return Err(FluxError::InvalidData);
        }
        assert(header.page_count * header.page_size <= 0xffff_ffff * 0xffff) by (nonlinear_arith)
            requires
                header.page_count <= 0xffff_ffff,
                header.page_size <= 0xffff,
        ;
        let total64 = HEADER_SIZE as u64 + header.page_count * header.page_size as u64;
        if (image.len() as u64) < total64 {
            return Err(FluxError::IoError);
        }
        let total = total64 as usize;
        let mut bytes: Vec<u8> = header.to_bytes();
        crate::codec::push_bytes(&mut bytes, &image.as_slice()[HEADER_SIZE..total]);
        let p = Pager { header, image: bytes };
        assert(header_valid(header@));
        assert(total == HEADER_SIZE + header.page_count * header.page_size);
        assert(p.bytes().len() == total);
        assert(p.bytes().subrange(0, HEADER_SIZE as int) =~= header_bytes(header@));
        assert(p.bytes().subrange(HEADER_SIZE as int, p.bytes().len() as int) =~= image@.subrange(
            HEADER_SIZE as int,
            total as int,
        ));
        Ok(p)
    }

    /// A pager over a new file without pages: a fresh header with the given
    /// page size and flags, created at `created_at`. Fails with
    /// `FormatError` when the page size is outside the supported range.
    pub fn create(page_size: u16, flags: HeaderFlags, created_at: u64) -> (r: Result<Pager, FluxError>)
        ensures
            match r {
                Ok(p) => {
                    &&& p.wf()
                    &&& p.page_count() == 0
                    &&& p.header@ == Header::spec_new_at(page_size, flags, created_at)
                    &&& p.bytes() == header_bytes(p.header@)
                },
                Err(e) => e == FluxError::FormatError && (page_size as int) < MIN_PAGE_SIZE,
            },
    {
        if (page_size as usize) < MIN_PAGE_SIZE {
            return Err(FluxError::FormatError);
        }
        let header = Header::new_at(page_size, flags, created_at);
        let bytes = header.to_bytes();
        let p = Pager { header, image: bytes };
        assert(p.bytes().subrange(0, HEADER_SIZE as int) =~= header_bytes(header@));
        assert(header_valid(header@));
        assert(p.page_count() == 0);
        assert(p.page_count() * p.page_size() == 0) by (nonlinear_arith)
            requires
                p.page_count() == 0,
        ;
        assert(p.bytes().len() == HEADER_SIZE);
        Ok(p)
    }

    /// The bytes of the file image: the header, then every page.
    pub fn image(&self) -> (r: &Vec<u8>)
        ensures
            r@ == self.bytes(),
    {
        &self.image
    }

    /// Where page `page_id` starts in the file.
    pub fn page_offset(&self, page_id: u32) -> (r: u64)
        ensures
            r == HEADER_SIZE + page_id * self.header.page_size,
    {
        assert(page_id * self.header.page_size <= 0xffff_ffff * 0xffff) by (nonlinear_arith)
            requires
                page_id <= 0xffff_ffff,
                self.header.page_size <= 0xffff,
        ;
        HEADER_SIZE as u64 + page_id as u64 * self.header.page_size as u64
    }

    /// Rewrites the header at the start of the image.
    pub fn flush_header(&mut self)
        requires
            old(self).image@.len() >= HEADER_SIZE,
        ensures
            final(self).header == old(self).header,
            final(self).bytes() == header_bytes(old(self).header@) + old(self).bytes().subrange(
                HEADER_SIZE as int,
                old(self).bytes().len() as int,
            ),
    {
        self.header.write_to(&mut self.image);
    }

    /// The page `page_id`. Fails with `IoError` past the last page and with
    /// `InvalidData` when its bytes hold no valid page header.
    pub fn read_page(&self, page_id: u32) -> (r: Result<Page, FluxError>)
        requires
            self.wf(),
        ensures
            match r {
                Ok(p) => page_id < self.page_count() && p.wf() && p.buf@ == self.page(page_id as int),
                Err(e) => (page_id >= self.page_count() && e == FluxError::IoError) || (page_id
                    < self.page_count() && !has_page_header(self.page(page_id as int)) && e
                    == FluxError::InvalidData),
            },
    {
        if page_id as u64 >= self.header.page_count {
            return Err(FluxError::IoError);
        }
        let ps = self.header.page_size as usize;
        proof {
            lemma_page_in_image(self.page_count(), self.page_size(), page_id as int);
        }
        assert(HEADER_SIZE + page_id as int * ps as int + ps as int <= self.image.len());
        let start = HEADER_SIZE + page_id as usize * ps;
        let mut buf: Vec<u8> = Vec::new();
        crate::codec::push_bytes(&mut buf, &self.image.as_slice()[start..start + ps]);
        assert(buf@ =~= self.page(page_id as int));
        Page::from_buffer(buf)
    }

    /// Overwrites page `page_id` with `page`. Fails with `IoError` past the
    /// last page and with `InvalidData` when the page is not `page_size`
    /// bytes long; then nothing is written.
    pub fn write_page(&mut self, page_id: u32, page: &Page) -> (r: Result<(), FluxError>)
        requires
            old(self).wf(),
        ensures
            final(self).wf(),
            final(self).header == old(self).header,
            match r {
                Ok(_) => {
                    &&& page_id < old(self).page_count()
                    &&& page.buf@.len() == old(self).page_size()
                    &&& final(self).page(page_id as int) == page.buf@
                    &&& forall|j: int|
                        0 <= j < old(self).page_count() && j != page_id ==> #[trigger] final(self).page(j) == old(self).page(j)
                },
                Err(e) => {
                    &&& final(self).bytes() == old(self).bytes()
                    &&& (page_id >= old(self).page_count() && e == FluxError::IoError) || (page_id
                        < old(self).page_count() && page.buf@.len() != old(self).page_size() && e
                        == FluxError::InvalidData)
                },
            },
    {
        if page_id as u64 >= self.header.page_count {
            return Err(FluxError::IoError);
        }
        let ps = self.header.page_size as usize;
        if page.buf.len() != ps {
            return Err(FluxError::InvalidData);
        }
        proof {
            lemma_page_in_image(self.page_count(), self.page_size(), page_id as int);
        }
        assert(HEADER_SIZE + page_id as int * ps as int + ps as int <= self.image.len());
        let start = HEADER_SIZE + page_id as usize * ps;
        let ghost old_img = self.image@;
        crate::codec::put_bytes(&mut self.image, start, page.buf.as_slice());
        proof {
            let ps = self.page_size();
            assert(self.image@.subrange(0, HEADER_SIZE as int) =~= old_img.subrange(
                0,
                HEADER_SIZE as int,
            ));
            assert(self.page(page_id as int) =~= page.buf@);
            assert forall|j: int| 0 <= j < self.page_count() && j != page_id implies #[trigger] self.page(
                j,
            ) == page_at(old_img, ps, j) by {
                lemma_pages_apart(self.page_count(), ps, j, page_id as int);
                lemma_page_in_image(self.page_count(), ps, j);
                assert forall|m: int| 0 <= m < ps implies #[trigger] self.page(j)[m] == page_at(
                    old_img,
                    ps,
                    j,
                )[m] by {
                    let k = HEADER_SIZE + j * ps + m;
                    assert(self.image@[k] == old_img[k]);
                }
                assert(self.page(j) =~= page_at(old_img, ps, j));
            }
        }
        Ok(())
    }

    /// Appends a freshly initialized page of type `page_type` with id
    /// `page_count`, then counts it in the header and rewrites the header.
    /// Fails with `InvalidData`, changing nothing, when page ids are exhausted.
    pub fn allocate_page(&mut self, page_type: PageType) -> (r: Result<Page, FluxError>)
        requires
            old(self).wf(),
        ensures
            final(self).wf(),
            match r {
                Ok(p) => {
                    &&& old(self).page_count() < MAX_PAGE_COUNT
                    &&& p.wf()
                    &&& p.header.page_type == page_type
                    &&& p.header.page_id == old(self).page_count()
                    &&& p.header.next_page_id == 0
                    &&& is_slotted(page_type) ==> heap_wf(p.buf@) && page_records(p.buf@).len() == 0
                        && crate::page::free_start_of(p.buf@) == HEAP_DATA_START
                        && crate::page::free_end_of(p.buf@) == old(self).page_size()
                    &&& final(self).header@ == (HeaderView {
                        page_count: (old(self).header.page_count + 1) as u64,
                        ..old(self).header@
                    })
                    &&& final(self).page(old(self).page_count()) == p.buf@
                    &&& forall|j: int|
                        0 <= j < old(self).page_count() ==> #[trigger] final(self).page(j) == old(self).page(j)
                },
                Err(e) => {
                    &&& e == FluxError::InvalidData
                    &&& old(self).page_count() >= MAX_PAGE_COUNT
                    &&& final(self).header == old(self).header
                    &&& final(self).bytes() == old(self).bytes()
                },
            },
    {
        if self.header.page_count >= MAX_PAGE_COUNT {
            return Err(FluxError::InvalidData);
        }
        let page_id = self.header.page_count as u32;
        let ps = self.header.page_size as usize;
        let page = Page::new(ps, page_type, page_id);
        let ghost old_img = self.image@;
        crate::codec::push_bytes(&mut self.image, page.buf.as_slice());
        self.header.page_count = self.header.page_count + 1;
        let ghost mid = self.image@;
        self.flush_header();
        proof {
            let ps = self.page_size();
            let n = page_id as int;
            assert((n + 1) * ps == n * ps + ps) by (nonlinear_arith);
            assert(self.image@.len() == HEADER_SIZE + self.page_count() * ps);
            assert(self.image@.subrange(0, HEADER_SIZE as int) =~= header_bytes(self.header@));
            assert(self.page(n) =~= page.buf@);
            assert forall|j: int| 0 <= j < n implies #[trigger] self.page(j) == page_at(old_img, ps, j) by {
                lemma_page_in_image(n, ps, j);
                assert(self.page(j) =~= page_at(old_img, ps, j));
            }
            if is_slotted(page_type) {
                assert(page_records(page.buf@) =~= Seq::<Seq<u8>>::empty());
            }
        }
        Ok(page)
    }
}

/// A page of the catalog heap: a slotted page with a valid header.
pub open spec fn heap_page_ok(p: Seq<u8>) -> bool {
    has_page_header(p) && is_slotted(page_type_of(p[0])->Some_0) && heap_wf(p)
}

/// The ids of the heap chain that starts at `start`, following forward
/// links through at most `fuel` pages; 0 ends the chain.
pub open spec fn chain_from(img: Seq<u8>, ps: int, pc: int, start: u32, fuel: nat) -> Result<
    Seq<u32>,
    FluxError,
>
    decreases fuel,
{
    if start == 0 {
        Ok(Seq::empty())
    } else if fuel == 0 {
        Err(FluxError::InvalidData)
    } else if start >= pc {
        Err(FluxError::IoError)
    } else if !heap_page_ok(page_at(img, ps, start as int)) {
        Err(FluxError::InvalidData)
    } else {
        match chain_from(img, ps, pc, next_of(page_at(img, ps, start as int)), (fuel - 1) as nat) {
            Ok(rest) => Ok(seq![start] + rest),
            Err(e) => Err(e),
        }
    }
}

/// The records of the pages `ids`, page after page, slot after slot.
pub open spec fn records_of_pages(img: Seq<u8>, ps: int, ids: Seq<u32>) -> Seq<Seq<u8>>
    decreases ids.len(),
{
    if ids.len() == 0 {
        Seq::empty()
    } else {
        records_of_pages(img, ps, ids.drop_last()) + page_records(page_at(img, ps, ids.last() as int))
    }
}

/// The first table record named `name` in `recs`: other records are
/// skipped, a malformed table record is invalid.
pub open spec fn first_table_named(recs: Seq<Seq<u8>>, name: Seq<char>) -> Result<
    TableMetaView,
    FluxError,
>
    decreases recs.len(),
{
    if recs.len() == 0 {
        Err(FluxError::NotFound)
    } else {
        match decoded_record(recs[0]) {
            Some((t, payload)) => if t == RecordType::CatalogTable {
                match parse_table_meta(payload) {
                    Some(tm) => if tm.name == name {
                        Ok(tm)
                    } else {
                        first_table_named(recs.drop_first(), name)
                    },
                    None => Err(FluxError::InvalidData),
                }
            } else {
                first_table_named(recs.drop_first(), name)
            },
            None => first_table_named(recs.drop_first(), name),
        }
    }
}

/// The catalog root as a fresh catalog sets it up, its heap at `heap_root`.
pub open spec fn initial_root(heap_root: u32) -> CatalogRoot {
    CatalogRoot { version: 1, next_table_id: 1, next_column_id: 1, catalog_root_page_id: heap_root }
}

/// A table creation took id `id` from `before` and left `after` with the
/// next table id past it.
pub open spec fn table_created(before: CatalogRoot, after: CatalogRoot, id: u32) -> bool {
    &&& id == before.next_table_id
    &&& id < u32::MAX
    &&& after == CatalogRoot { next_table_id: (id + 1) as u32, ..before }
}

/// A column creation took id `id` from `before` and left `after` with the
/// next column id past it.
pub open spec fn column_created(before: CatalogRoot, after: CatalogRoot, id: u32) -> bool {
    &&& id == before.next_column_id
    &&& id < u32::MAX
    &&& after == CatalogRoot { next_column_id: (id + 1) as u32, ..before }
}

/// What loading the catalog root of an image gives.
pub open spec fn root_in(img: Seq<u8>, ps: int, pc: int) -> Result<CatalogRoot, FluxError> {
    if pc == 0 {
        Err(FluxError::IoError)
    } else if !has_page_header(page_at(img, ps, 0)) {
        Err(FluxError::InvalidData)
    } else {
        match root_in_page(page_at(img, ps, 0)) {
            Some(r) => Ok(r),
            None => Err(FluxError::InvalidData),
        }
    }
}

/// The records of the heap chain from `start` in an image.
pub open spec fn heap_from_in(img: Seq<u8>, ps: int, pc: int, start: u32) -> Result<
    Seq<Seq<u8>>,
    FluxError,
> {
    match chain_from(img, ps, pc, start, pc as nat) {
        Ok(ids) => Ok(records_of_pages(img, ps, ids)),
        Err(e) => Err(e),
    }
}

/// The records of the catalog heap of an image.
pub open spec fn heap_in(img: Seq<u8>, ps: int, pc: int) -> Result<Seq<Seq<u8>>, FluxError> {
    match root_in(img, ps, pc) {
        Ok(root) => if root.catalog_root_page_id == 0 {
            Err(FluxError::InvalidData)
        } else {
            heap_from_in(img, ps, pc, root.catalog_root_page_id)
        },
        Err(e) => Err(e),
    }
}

/// What loading the catalog of an image gives.
pub open spec fn catalog_in(img: Seq<u8>, ps: int, pc: int) -> Result<CatalogView, FluxError> {
    match heap_in(img, ps, pc) {
        Ok(recs) => match catalog_of(recs) {
            Some(c) => Ok(c),
            None => Err(FluxError::InvalidData),
        },
        Err(e) => Err(e),
    }
}

/// What opening a file image and loading its catalog gives: the header,
/// then the pages it counts, then the catalog they hold.
pub open spec fn image_catalog(img: Seq<u8>) -> Result<CatalogView, FluxError> {
    match parse_header(img) {
        Err(e) => Err(e),
        Ok(h) => if h.page_size < MIN_PAGE_SIZE {
            Err(FluxError::FormatError)
        } else if h.page_count > MAX_PAGE_COUNT {
            Err(FluxError::InvalidData)
        } else if img.len() < HEADER_SIZE + h.page_count * h.page_size {
            Err(FluxError::IoError)
        } else {
            catalog_in(img, h.page_size as int, h.page_count as int)
        },
    }
}

/// When creating a table named `name` fails with `e`: as the root load
/// fails; with `InvalidData` when table ids are exhausted or the root points
/// at page 0; with `PageFull` when the record fits in no page; as the chain
/// walk fails; or with `InvalidData` when a page is needed and page ids are
/// exhausted.
pub open spec fn table_create_fails(p: Pager, name: Seq<char>, e: FluxError) -> bool {
    match p.root_result() {
        Err(re) => e == re,
        Ok(root) => if root.next_table_id == u32::MAX || root.catalog_root_page_id == 0 {
            e == FluxError::InvalidData
        } else {
            (e == FluxError::PageFull && too_large(
                p.page_size(),
                typed_record::<TableMeta>(TableMetaView { table_id: root.next_table_id, name }).len() as int,
            )) || p.chain(root.catalog_root_page_id) == Err::<Seq<u32>, FluxError>(e) || (e
                == FluxError::InvalidData && p.page_count() >= MAX_PAGE_COUNT)
        },
    }
}

/// When adding a column to table `table_id` fails with `e`, as for tables.
pub open spec fn column_add_fails(
    p: Pager,
    table_id: u32,
    name: Seq<char>,
    column_type: ColumnType,
    e: FluxError,
) -> bool {
    match p.root_result() {
        Err(re) => e == re,
        Ok(root) => if root.next_column_id == u32::MAX || root.catalog_root_page_id == 0 {
            e == FluxError::InvalidData
        } else {
            (e == FluxError::PageFull && too_large(
                p.page_size(),
                typed_record::<TableColumn>(
                    TableColumnView { table_id, column_id: root.next_column_id, column_type, name },
                ).len() as int,
            )) || p.chain(root.catalog_root_page_id) == Err::<Seq<u32>, FluxError>(e) || (e
                == FluxError::InvalidData && p.page_count() >= MAX_PAGE_COUNT)
        },
    }
}

impl Pager {
    /// What loading the catalog root gives.
    pub open spec fn root_result(&self) -> Result<CatalogRoot, FluxError> {
        root_in(self.bytes(), self.page_size(), self.page_count())
    }

    /// The heap chain from `start`, through at most `page_count` pages.
    pub open spec fn chain(&self, start: u32) -> Result<Seq<u32>, FluxError> {
        chain_from(self.bytes(), self.page_size(), self.page_count(), start, self.page_count() as nat)
    }

    /// The records of the heap chain from `start`.
    pub open spec fn heap_from(&self, start: u32) -> Result<Seq<Seq<u8>>, FluxError> {
        heap_from_in(self.bytes(), self.page_size(), self.page_count(), start)
    }

    /// The records of the catalog heap that the root points at.
    pub open spec fn heap(&self) -> Result<Seq<Seq<u8>>, FluxError> {
        heap_in(self.bytes(), self.page_size(), self.page_count())
    }

    /// What loading the catalog gives.
    pub open spec fn catalog(&self) -> Result<CatalogView, FluxError> {
        catalog_in(self.bytes(), self.page_size(), self.page_count())
    }

    /// Reads the catalog root from slot 0 of page 0. Fails with `IoError`
    /// when there is no page 0 and with `InvalidData` when slot 0 holds no
    /// catalog root record.
    pub fn load_catalog_root(&self) -> (r: Result<CatalogRoot, FluxError>)
        requires
            self.wf(),
        ensures
            r == self.root_result(),
    {
        let page0 = match self.read_page(0) {
            Ok(p) => p,
            Err(e) => {
                return Err(e);
            },
        };
        let raw = match page0.read_record(0) {
            Some(b) => b,
            None => {
                return Err(FluxError::InvalidData);
            },
        };
        let rec = match Record::decode(raw) {
            Some(rec) => rec,
            None => {
                return Err(FluxError::InvalidData);
            },
        };
        if rec.record_type != RecordType::CatalogRoot {
            return Err(FluxError::InvalidData);
        }
        CatalogRoot::deserialize(rec.payload)
    }

    /// Rewrites page 0 as a fresh catalog page that holds only `root`, in
    /// slot 0. Fails with `IoError`, changing nothing, when there is no page 0.
    pub fn persist_catalog_root(&mut self, root: &CatalogRoot) -> (r: Result<(), FluxError>)
        requires
            old(self).wf(),
        ensures
            final(self).wf(),
            final(self).header == old(self).header,
            match r {
                Ok(_) => {
                    &&& old(self).page_count() > 0
                    &&& final(self).root_result() == Ok::<CatalogRoot, FluxError>(*root)
                    &&& heap_page_ok(final(self).page(0))
                    &&& page_type_of(final(self).page(0)[0]) == Some(PageType::CatalogPage)
                    &&& next_of(final(self).page(0)) == 0
                    &&& page_records(final(self).page(0)) == seq![typed_record::<CatalogRoot>(*root)]
                    &&& forall|j: int|
                        1 <= j < old(self).page_count() ==> #[trigger] final(self).page(j) == old(self).page(j)
                },
                Err(e) => e == FluxError::IoError && old(self).page_count() == 0 && final(self).bytes() == old(self).bytes(),
            },
    {
        if self.header.page_count == 0 {
            return Err(FluxError::IoError);
        }
        let ps = self.header.page_size as usize;
        let mut page0 = Page::new(ps, PageType::CatalogPage, 0);
        let ghost fresh = page0.buf@;
        proof {
            assert(typed_record::<CatalogRoot>(*root).len() == 15);
        }
        let inserted = page0.insert_typed_record(root);
        match inserted {
            Ok(_) => {},
            Err(_) => {
                assert(false);
                return Err(FluxError::IoError);
            },
        }
        match self.write_page(0, &page0) {
            Ok(_) => {},
            Err(_) => {
                assert(false);
                return Err(FluxError::IoError);
            },
        }
        proof {
            let p = self.page(0);
            assert(page_records(p) =~= seq![typed_record::<CatalogRoot>(*root)]);
            assert(page_records(p)[0] == crate::page::record_at(p, 0));
            crate::record::lemma_record_round_trip(RecordType::CatalogRoot, catalog_root_bytes(*root));
            crate::schema::lemma_catalog_root_round_trip(*root);
        }
        Ok(())
    }
}

/// The chain `visited` followed by what `rest` gives.
pub open spec fn prepend(visited: Seq<u32>, rest: Result<Seq<u32>, FluxError>) -> Result<
    Seq<u32>,
    FluxError,
> {
    match rest {
        Ok(r) => Ok(visited + r),
        Err(e) => Err(e),
    }
}

/// The views of a sequence of byte vectors.
pub open spec fn byte_views(v: Seq<Vec<u8>>) -> Seq<Seq<u8>> {
    v.map_values(|b: Vec<u8>| b@)
}

impl Pager {
    /// Copies of the records of the heap chain from `start`, page after
    /// page. Fails as `chain` says: `IoError` on a link past the last page,
    /// `InvalidData` on a page that is no well-formed heap page or a chain
    /// longer than the file.
    pub fn heap_records(&self, start: u32) -> (r: Result<Vec<Vec<u8>>, FluxError>)
        requires
            self.wf(),
        ensures
            match r {
                Ok(v) => self.heap_from(start) == Ok::<Seq<Seq<u8>>, FluxError>(byte_views(v@)),
                Err(e) => self.chain(start) == Err::<Seq<u32>, FluxError>(e),
            },
    {
        let ghost img = self.bytes();
        let ghost ps = self.page_size();
        let ghost pc = self.page_count();
        let mut out: Vec<Vec<u8>> = Vec::new();
        let mut cur = start;
        let mut fuel: u64 = self.header.page_count;
        let ghost mut visited: Seq<u32> = Seq::empty();
        proof {
            match chain_from(img, ps, pc, start, pc as nat) {
                Ok(rest) => {
                    assert(visited + rest =~= rest);
                },
                Err(_) => {},
            }
            assert(byte_views(out@) =~= records_of_pages(img, ps, visited));
        }
        while cur != 0
            invariant
                self.wf(),
                img == self.bytes(),
                ps == self.page_size(),
                pc == self.page_count(),
                self.chain(start) == prepend(visited, chain_from(img, ps, pc, cur, fuel as nat)),
                byte_views(out@) == records_of_pages(img, ps, visited),
            decreases fuel,
        {
            if fuel == 0 {
                return Err(FluxError::InvalidData);
            }
            let page = match self.read_page(cur) {
                Ok(p) => p,
                Err(e) => {
                    return Err(e);
                },
            };
            if !page.header.page_type.is_slotted() || !page.check_heap_layout() {
                return Err(FluxError::InvalidData);
            }
            let ghost p = page.buf@;
            let ghost before = byte_views(out@);
            let layout = crate::page::HeapPageHeader::read_from(page.buf.as_slice(), 24);
            let sc = layout.slot_count;
            let mut i: u16 = 0;
            while i < sc
                invariant
                    page.buf@ == p,
                    heap_wf(p),
                    sc == crate::page::slot_count_of(p),
                    0 <= i <= sc,
                    byte_views(out@) == before + page_records(p).subrange(0, i as int),
                decreases sc - i,
            {
                let raw = match page.read_record(i) {
                    Some(b) => b,
                    None => {
                        assert(crate::page::slot_pos(p, i as int) >= crate::page::free_end_of(p));
                        assert(false);
                        return Err(FluxError::InvalidData);
                    },
                };
                let ghost mid = byte_views(out@);
                out.push(vstd::slice::slice_to_vec(raw));
                assert(byte_views(out@) =~= mid.push(raw@));
                assert(page_records(p).subrange(0, i + 1) =~= page_records(p).subrange(0, i as int).push(
                    page_records(p)[i as int],
                ));
                i = i + 1;
            }
            proof {
                assert(page_records(p).subrange(0, sc as int) =~= page_records(p));
                let nv = visited.push(cur);
                assert(nv.drop_last() =~= visited);
                match chain_from(img, ps, pc, next_of(p), (fuel - 1) as nat) {
                    Ok(rest) => {
                        assert(visited + (seq![cur] + rest) =~= nv + rest);
                    },
                    Err(_) => {},
                }
                visited = nv;
            }
            cur = page.header.next_page_id;
            fuel = fuel - 1;
        }
        proof {
            assert(visited + Seq::<u32>::empty() =~= visited);
        }
        Ok(out)
    }

    /// Loads the catalog: the root from page 0, then every table and column
    /// record of the heap chain it points at, in chain order. Fails with
    /// `InvalidData` when the root points at page 0, and otherwise as the
    /// root load, the chain walk or the record decoding fails.
    pub fn load_catalog(&self) -> (r: Result<Catalog, FluxError>)
        requires
            self.wf(),
        ensures
            match r {
                Ok(c) => self.catalog() == Ok::<CatalogView, FluxError>(c@),
                Err(e) => self.catalog() == Err::<CatalogView, FluxError>(e),
            },
    {
        let root = match self.load_catalog_root() {
            Ok(root) => root,
            Err(e) => {
                return Err(e);
            },
        };
        if root.catalog_root_page_id == 0 {
            return Err(FluxError::InvalidData);
        }
        let recs = match self.heap_records(root.catalog_root_page_id) {
            Ok(v) => v,
            Err(e) => {
                return Err(e);
            },
        };
        Catalog::from_records(&recs)
    }

    /// The first table named `name` in the catalog heap. Fails with
    /// `NotFound` when the heap holds none, and as the root load or the
    /// chain walk fails, or with `InvalidData` on a malformed table record
    /// met before it.
    pub fn find_table_by_name(&self, name: &str) -> (r: Result<TableMeta, FluxError>)
        requires
            self.wf(),
        ensures
            match self.heap() {
                Ok(recs) => match r {
                    Ok(t) => first_table_named(recs, name@) == Ok::<TableMetaView, FluxError>(t@),
                    Err(e) => first_table_named(recs, name@) == Err::<TableMetaView, FluxError>(e),
                },
                Err(e) => r == Err::<TableMeta, FluxError>(e),
            },
    {
        let root = match self.load_catalog_root() {
            Ok(root) => root,
            Err(e) => {
                return Err(e);
            },
        };
        if root.catalog_root_page_id == 0 {
            return Err(FluxError::InvalidData);
        }
        let recs = match self.heap_records(root.catalog_root_page_id) {
            Ok(v) => v,
            Err(e) => {
                return Err(e);
            },
        };
        let ghost all = byte_views(recs@);
        let mut i: usize = 0;
        assert(all.subrange(0, all.len() as int) =~= all);
        while i < recs.len()
            invariant
                0 <= i <= recs@.len(),
                all == byte_views(recs@),
                self.heap() == Ok::<Seq<Seq<u8>>, FluxError>(all),
                first_table_named(all, name@) == first_table_named(all.subrange(i as int, all.len() as int), name@),
            decreases recs@.len() - i,
        {
            let ghost rest = all.subrange(i as int, all.len() as int);
            assert(rest.drop_first() =~= all.subrange(i + 1, all.len() as int));
            assert(rest[0] == recs@[i as int]@);
            match Record::decode(recs[i].as_slice()) {
                Some(rec) => {
                    if rec.record_type == RecordType::CatalogTable {
                        match TableMeta::deserialize(rec.payload) {
                            Ok(t) => {
                                if same_text(t.name.as_str(), name) {
                                    return Ok(t);
                                }
                            },
                            Err(e) => {
                                return Err(e);
                            },
                        }
                    }
                },
                None => {},
            }
            i = i + 1;
        }
        Err(FluxError::NotFound)
    }
}

impl Pager {
    /// Appends `record` to page `page_id` and writes the page back; returns
    /// the new slot's id. Fails as the page read or the page insert fails,
    /// changing nothing.
    pub fn insert_record(&mut self, page_id: u32, record: &[u8]) -> (r: Result<u16, FluxError>)
        requires
            old(self).wf(),
        ensures
            final(self).wf(),
            final(self).header == old(self).header,
            match r {
                Ok(id) => {
                    &&& page_id < old(self).page_count()
                    &&& id == crate::page::slot_count_of(old(self).page(page_id as int))
                    &&& page_records(final(self).page(page_id as int)) == page_records(
                        old(self).page(page_id as int),
                    ).push(record@)
                    &&& forall|j: int|
                        0 <= j < old(self).page_count() && j != page_id ==> #[trigger] final(self).page(j)
                            == old(self).page(j)
                },
                Err(_) => final(self).bytes() == old(self).bytes(),
            },
    {
        let mut page = match self.read_page(page_id) {
            Ok(p) => p,
            Err(e) => {
                return Err(e);
            },
        };
        proof {
            lemma_page_in_image(self.page_count(), self.page_size(), page_id as int);
        }
        let slot = match page.insert_record(record) {
            Ok(s) => s,
            Err(e) => {
                return Err(e);
            },
        };
        match self.write_page(page_id, &page) {
            Ok(_) => {},
            Err(e) => {
                assert(false);
                return Err(e);
            },
        }
        Ok(slot)
    }

    /// Tags and encodes `value`, then appends it to page `page_id` as
    /// `insert_record` does.
    pub fn insert_typed<T: DbRecord>(&mut self, page_id: u32, value: &T) -> (r: Result<u16, FluxError>)
        requires
            old(self).wf(),
        ensures
            final(self).wf(),
            final(self).header == old(self).header,
            match r {
                Ok(id) => {
                    &&& page_id < old(self).page_count()
                    &&& id == crate::page::slot_count_of(old(self).page(page_id as int))
                    &&& page_records(final(self).page(page_id as int)) == page_records(
                        old(self).page(page_id as int),
                    ).push(typed_record::<T>(value@))
                    &&& forall|j: int|
                        0 <= j < old(self).page_count() && j != page_id ==> #[trigger] final(self).page(j)
                            == old(self).page(j)
                },
                Err(_) => final(self).bytes() == old(self).bytes(),
            },
    {
        let payload = value.serialize();
        let bytes = Record::encode(T::record_type(), payload.as_slice());
        self.insert_record(page_id, bytes.as_slice())
    }
}

/// A record of `n` bytes and its slot do not fit even in an empty page.
pub open spec fn too_large(ps: int, n: int) -> bool {
    n + SLOT_SIZE > ps - HEAP_DATA_START
}

/// First fit put `rec` on chain page `ids[k]`: no earlier page of the chain
/// had room for it, that page had, it gained the record as its last slot,
/// and no page was allocated and no other page changed.
pub open spec fn placed_at(old: Pager, new: Pager, ids: Seq<u32>, k: int, rec: Seq<u8>) -> bool {
    &&& 0 <= k < ids.len()
    &&& forall|m: int|
        0 <= m < k ==> !has_room(#[trigger] old.page(ids[m] as int), rec.len() as int)
    &&& has_room(old.page(ids[k] as int), rec.len() as int)
    &&& page_records(new.page(ids[k] as int)) == page_records(old.page(ids[k] as int)).push(rec)
    &&& new.page_count() == old.page_count()
    &&& forall|j: int|
        1 <= j < old.page_count() && j != ids[k] ==> #[trigger] new.page(j) == old.page(j)
}

/// No page of the chain had room for `rec`: a catalog page with id
/// `page_count` was added, the last page of the chain links to it, it holds
/// just the record and ends the chain, and no other page changed.
pub open spec fn extended(old: Pager, new: Pager, ids: Seq<u32>, rec: Seq<u8>) -> bool {
    let n = old.page_count();
    let last = ids.last() as int;
    &&& ids.len() > 0
    &&& forall|m: int|
        0 <= m < ids.len() ==> !has_room(#[trigger] old.page(ids[m] as int), rec.len() as int)
    &&& new.page_count() == n + 1
    &&& next_of(new.page(last)) == n
    &&& page_records(new.page(last)) == page_records(old.page(last))
    &&& heap_page_ok(new.page(n))
    &&& page_type_of(new.page(n)[0]) == Some(PageType::CatalogPage)
    &&& crate::codec::get32(new.page(n), 1) == n
    &&& next_of(new.page(n)) == 0
    &&& page_records(new.page(n)) == seq![rec]
    &&& forall|j: int| 1 <= j < n && j != last ==> #[trigger] new.page(j) == old.page(j)
}

/// A first-fit insert of `rec` into the heap chain `ids`.
pub open spec fn first_fit(old: Pager, new: Pager, ids: Seq<u32>, rec: Seq<u8>) -> bool {
    (exists|k: int| placed_at(old, new, ids, k, rec)) || extended(old, new, ids, rec)
}

/// A first-fit insert stays one when page 0 is rewritten afterwards.
pub proof fn lemma_first_fit_page0(a: Pager, b: Pager, c: Pager, ids: Seq<u32>, rec: Seq<u8>)
    requires
        first_fit(a, b, ids, rec),
        forall|m: int| 0 <= m < ids.len() ==> #[trigger] ids[m] != 0 && ids[m] < a.page_count(),
        b.page_count() == c.page_count(),
        a.page_count() <= b.page_count(),
        forall|j: int| 1 <= j < b.page_count() ==> #[trigger] c.page(j) == b.page(j),
    ensures
        first_fit(a, c, ids, rec),
{
    if exists|k: int| placed_at(a, b, ids, k, rec) {
        let k = choose|k: int| placed_at(a, b, ids, k, rec);
        assert(ids[k] != 0);
        assert(c.page(ids[k] as int) == b.page(ids[k] as int));
        assert forall|j: int| 1 <= j < a.page_count() && j != ids[k] implies #[trigger] c.page(j)
            == a.page(j) by {
            assert(c.page(j) == b.page(j));
        }
        assert(placed_at(a, c, ids, k, rec));
    } else {
        let n = a.page_count();
        let last = ids.last() as int;
        assert(ids[ids.len() - 1] != 0);
        assert(c.page(last) == b.page(last));
        assert(c.page(n) == b.page(n));
        assert forall|j: int| 1 <= j < n && j != last implies #[trigger] c.page(j) == a.page(j) by {
            assert(c.page(j) == b.page(j));
        }
        assert(extended(a, c, ids, rec));
    }
}

impl Pager {
    /// Inserts `record` into the heap chain that starts at `start`, first
    /// fit: into the first page of the chain with room for it; when no page
    /// has room, a new catalog page is allocated, linked from the last page
    /// of the chain, and takes the record. Fails with `PageFull` when the
    /// record does not fit even in an empty page; with `IoError` or
    /// `InvalidData` when the chain is broken before a page with room; with
    /// `InvalidData` when a page is needed and page ids are exhausted. On
    /// failure nothing changes.
    pub fn insert_into_heap(&mut self, start: u32, record: &[u8]) -> (r: Result<(), FluxError>)
        requires
            old(self).wf(),
            start != 0,
        ensures
            final(self).wf(),
            final(self).header@ == (HeaderView {
                page_count: final(self).header.page_count,
                ..old(self).header@
            }),
            old(self).page_count() <= final(self).page_count(),
            old(self).page_count() > 0 ==> final(self).page(0) == old(self).page(0),
            match r {
                Ok(_) => {
                    &&& !too_large(old(self).page_size(), record@.len() as int)
                    &&& old(self).chain(start) is Ok ==> first_fit(
                        *old(self),
                        *final(self),
                        old(self).chain(start)->Ok_0,
                        record@,
                    )
                    &&& old(self).heap_from(start) is Ok ==> final(self).heap_from(start) is Ok
                        && one_more(
                        old(self).heap_from(start)->Ok_0,
                        final(self).heap_from(start)->Ok_0,
                        record@,
                    )
                },
                Err(e) => {
                    &&& final(self).bytes() == old(self).bytes()
                    &&& final(self).header == old(self).header
                    &&& (e == FluxError::PageFull && too_large(
                        old(self).page_size(),
                        record@.len() as int,
                    )) || (!too_large(old(self).page_size(), record@.len() as int) && (
                    old(self).chain(start) == Err::<Seq<u32>, FluxError>(e) || (e
                        == FluxError::InvalidData && old(self).page_count() >= MAX_PAGE_COUNT)))
                },
            },
    {
        let ps = self.header.page_size as usize;
        if record.len() > ps - HEAP_DATA_START - SLOT_SIZE {
            return Err(FluxError::PageFull);
        }
        let ghost img = self.bytes();
        let ghost ps_i = self.page_size();
        let ghost pc = self.page_count();
        let ghost hdr = self.header;
        let ghost pg_old = *self;
        let mut cur = start;
        let mut fuel: u64 = self.header.page_count;
        let ghost mut visited: Seq<u32> = Seq::empty();
        proof {
            match chain_from(img, ps_i, pc, start, pc as nat) {
                Ok(rest) => {
                    assert(visited + rest =~= rest);
                },
                Err(_) => {},
            }
        }
        loop
            invariant
                self.wf(),
                img == self.bytes(),
                ps_i == self.page_size(),
                ps == ps_i,
                pc == self.page_count(),
                hdr == self.header,
                hdr == old(self).header,
                img == old(self).bytes(),
                cur != 0,
                !too_large(ps_i, record@.len() as int),
                self.chain(start) == prepend(visited, chain_from(img, ps_i, pc, cur, fuel as nat)),
                pg_old == *old(self),
                forall|m: int|
                    0 <= m < visited.len() ==> !has_room(
                        #[trigger] page_at(img, ps_i, visited[m] as int),
                        record@.len() as int,
                    ),
            decreases fuel,
        {
            if fuel == 0 {
                return Err(FluxError::InvalidData);
            }
            let mut page = match self.read_page(cur) {
                Ok(p) => p,
                Err(e) => {
                    return Err(e);
                },
            };
            let ghost p0 = page.buf@;
            proof {
                assert(chain_from(img, ps_i, pc, start, pc as nat) == prepend(
                    visited,
                    chain_from(img, ps_i, pc, cur, fuel as nat),
                ));
                lemma_page_in_image(pc, ps_i, cur as int);
                assert(p0.len() == ps_i);
            }
            match page.insert_record(record) {
                Ok(_) => {
                    match self.write_page(cur, &page) {
                        Ok(_) => {},
                        Err(_) => {
                            assert(false);
                            return Err(FluxError::IoError);
                        },
                    }
                    proof {
                        assert(heap_page_ok(page_at(img, ps_i, cur as int)));
                        if chain_from(img, ps_i, pc, start, pc as nat) is Ok {
                            let ids = chain_from(img, ps_i, pc, start, pc as nat)->Ok_0;
                            let img2 = self.bytes();
                            let k = visited.len() as int;
                            let rest = chain_from(img, ps_i, pc, cur, fuel as nat)->Ok_0;
                            assert(ids == visited + rest);
                            assert(rest[0] == cur);
                            assert(ids[k] == cur);
                            lemma_chain_distinct(img, ps_i, pc, start, pc as nat);
                            assert(page.buf@.subrange(0, 24) == p0.subrange(0, 24));
                            assert(page.buf@[0] == p0[0]);
                            assert forall|m: int| 0 <= m < ids.len() implies heap_page_ok(
                                #[trigger] page_at(img2, ps_i, ids[m] as int),
                            ) && next_of(page_at(img2, ps_i, ids[m] as int)) == next_of(
                                page_at(img, ps_i, ids[m] as int),
                            ) && (m != k ==> page_records(page_at(img2, ps_i, ids[m] as int))
                                == page_records(page_at(img, ps_i, ids[m] as int))) by {
                                lemma_chain_suffix(img, ps_i, pc, start, pc as nat, m);
                                if m == k {
                                    assert(page_at(img2, ps_i, ids[m] as int) == page.buf@);
                                    lemma_same_prefix(p0, page.buf@);
                                } else {
                                    assert(ids[m] != cur);
                                    assert(self.page(ids[m] as int) == page_at(img, ps_i, ids[m] as int));
                                }
                            }
                            lemma_chain_stable(img, img2, ps_i, pc, pc, start, pc as nat, pc as nat);
                            lemma_records_one_more(img, img2, ps_i, ids, k, record@);
                            assert forall|m: int| 0 <= m < k implies !has_room(
                                #[trigger] pg_old.page(ids[m] as int),
                                record@.len() as int,
                            ) by {
                                assert(ids[m] == visited[m]);
                            }
                            assert forall|j: int| 1 <= j < pc && j != ids[k] implies #[trigger] self.page(
                                j,
                            ) == pg_old.page(j) by {}
                            assert(placed_at(pg_old, *self, ids, k, record@));
                        }
                    }
                    return Ok(());
                },
                Err(FluxError::PageFull) => {
                    if page.header.next_page_id != 0 {
                        proof {
                            let p = page_at(img, ps_i, cur as int);
                            let nv = visited.push(cur);
                            assert(!has_room(p, record@.len() as int));
                            assert forall|m: int| 0 <= m < nv.len() implies !has_room(
                                #[trigger] page_at(img, ps_i, nv[m] as int),
                                record@.len() as int,
                            ) by {
                                if m < visited.len() {
                                    assert(nv[m] == visited[m]);
                                }
                            }
                            match chain_from(img, ps_i, pc, next_of(p), (fuel - 1) as nat) {
                                Ok(rest) => {
                                    assert(visited + (seq![cur] + rest) =~= nv + rest);
                                },
                                Err(_) => {},
                            }
                            visited = nv;
                        }
                        cur = page.header.next_page_id;
                        fuel = fuel - 1;
                    } else {
                        let fresh = match self.allocate_page(PageType::CatalogPage) {
                            Ok(p) => p,
                            Err(e) => {
                                return Err(e);
                            },
                        };
                        let n = fresh.header.page_id;
                        let ghost img1 = self.bytes();
                        let ghost pg1 = *self;
                        proof {
                            assert(heap_page_ok(page_at(img, ps_i, cur as int)));
                            assert(next_of(page_at(img, ps_i, cur as int)) == 0);
                            assert(page.buf@.len() == ps_i);
                            assert(fresh.buf@.len() == ps_i);
                            assert(n == pc);
                        }
                        page.set_next_page_id(n);
                        match self.write_page(cur, &page) {
                            Ok(_) => {},
                            Err(_) => {
                                assert(false);
                                return Err(FluxError::IoError);
                            },
                        }
                        let ghost img_b = self.bytes();
                        let ghost pg_b = *self;
                        let mut np = fresh;
                        match np.insert_record(record) {
                            Ok(_) => {},
                            Err(_) => {
                                assert(false);
                                return Err(FluxError::IoError);
                            },
                        }
                        match self.write_page(n, &np) {
                            Ok(_) => {},
                            Err(_) => {
                                assert(false);
                                return Err(FluxError::IoError);
                            },
                        }
                        proof {
                            let img2 = self.bytes();
                            let pc2 = self.page_count();
                            assert(self.page(0) == page_at(img, ps_i, 0));
                            if chain_from(img, ps_i, pc, start, pc as nat) is Ok {
                                let ids = chain_from(img, ps_i, pc, start, pc as nat)->Ok_0;
                                let k = visited.len() as int;
                                let rest = chain_from(img, ps_i, pc, cur, fuel as nat)->Ok_0;
                                assert(ids == visited + rest);
                                assert(seq![cur] + Seq::<u32>::empty() =~= seq![cur]);
                                assert(chain_from(img, ps_i, pc, 0u32, (fuel - 1) as nat) == Ok::<
                                    Seq<u32>,
                                    FluxError,
                                >(Seq::empty()));
                                assert(rest == seq![cur]);
                                assert(ids.last() == cur);
                                lemma_chain_distinct(img, ps_i, pc, start, pc as nat);
                                crate::page::lemma_same_body(p0, page.buf@);
                                assert(cur != n);
                                assert(self.page(cur as int) == pg_b.page(cur as int));
                                assert(pg_b.page(cur as int) == page.buf@);
                                assert(!ids.contains(n)) by {
                                    if ids.contains(n) {
                                        let m = choose|m: int| 0 <= m < ids.len() && ids[m] == n;
                                        lemma_chain_suffix(img, ps_i, pc, start, pc as nat, m);
                                    }
                                }
                                assert forall|m: int| 0 <= m < ids.len() implies (m < ids.len() - 1
                                    ==> heap_page_ok(#[trigger] page_at(img2, ps_i, ids[m] as int))
                                    && next_of(page_at(img2, ps_i, ids[m] as int)) == next_of(
                                    page_at(img, ps_i, ids[m] as int),
                                )) && page_records(page_at(img2, ps_i, ids[m] as int))
                                    == page_records(page_at(img, ps_i, ids[m] as int)) by {
                                    lemma_chain_suffix(img, ps_i, pc, start, pc as nat, m);
                                    if ids[m] != cur {
                                        assert(ids[m] != n);
                                        assert(self.page(ids[m] as int) == pg_b.page(ids[m] as int));
                                        assert(pg_b.page(ids[m] as int) == pg1.page(ids[m] as int));
                                        assert(pg1.page(ids[m] as int) == page_at(img, ps_i, ids[m] as int));
                                        assert(page_at(img2, ps_i, ids[m] as int) == page_at(
                                            img,
                                            ps_i,
                                            ids[m] as int,
                                        ));
                                    } else {
                                        assert(page_at(img2, ps_i, ids[m] as int) == page.buf@);
                                    }
                                }
                                assert(page_at(img2, ps_i, cur as int) == page.buf@);
                                assert(page_at(img2, ps_i, n as int) == np.buf@);
                                assert(page_records(np.buf@) =~= seq![record@]);
                                lemma_chain_extend(
                                    img,
                                    img2,
                                    ps_i,
                                    pc,
                                    pc2,
                                    start,
                                    pc as nat,
                                    pc2 as nat,
                                    n,
                                );
                                let ids2 = ids.push(n);
                                assert(ids2.drop_last() =~= ids);
                                lemma_records_same(img, img2, ps_i, ids);
                                let old_recs = records_of_pages(img, ps_i, ids);
                                let new_recs = records_of_pages(img2, ps_i, ids2);
                                assert(new_recs == old_recs + seq![record@]);
                                assert(new_recs =~= crate::chain::inserted_at(
                                    old_recs,
                                    record@,
                                    old_recs.len() as int,
                                ));
                                let k = visited.len() as int;
                                assert forall|m: int| 0 <= m < ids.len() implies !has_room(
                                    #[trigger] pg_old.page(ids[m] as int),
                                    record@.len() as int,
                                ) by {
                                    if m < k {
                                        assert(ids[m] == visited[m]);
                                    } else {
                                        assert(ids[m] == cur);
                                    }
                                }
                                assert forall|j: int| 1 <= j < pc && j != cur implies #[trigger] self.page(
                                    j,
                                ) == pg_old.page(j) by {
                                    assert(self.page(j) == pg_b.page(j));
                                    assert(pg_b.page(j) == pg1.page(j));
                                    assert(pg1.page(j) == pg_old.page(j));
                                }
                                assert(self.page(n as int) == np.buf@);
                                assert(extended(pg_old, *self, ids, record@));
                            }
                        }
                        return Ok(());
                    }
                },
                Err(e) => {
                    return Err(e);
                },
            }
        }
    }
}

impl Pager {
    /// Rewriting page 0 leaves the heap from a non-zero start as it was.
    pub proof fn lemma_heap_without_page0(&self, other: &Pager, start: u32)
        requires
            self.wf(),
            other.wf(),
            start != 0,
            other.page_size() == self.page_size(),
            other.page_count() == self.page_count(),
            forall|j: int| 1 <= j < self.page_count() ==> #[trigger] other.page(j) == self.page(j),
            self.heap_from(start) is Ok,
        ensures
            other.heap_from(start) == self.heap_from(start),
    {
        let img = self.bytes();
        let img2 = other.bytes();
        let ps = self.page_size();
        let pc = self.page_count();
        let ids = chain_from(img, ps, pc, start, pc as nat)->Ok_0;
        assert forall|m: int| 0 <= m < ids.len() implies heap_page_ok(
            #[trigger] page_at(img2, ps, ids[m] as int),
        ) && next_of(page_at(img2, ps, ids[m] as int)) == next_of(page_at(img, ps, ids[m] as int))
            && page_records(page_at(img2, ps, ids[m] as int)) == page_records(
            page_at(img, ps, ids[m] as int),
        ) by {
            lemma_chain_suffix(img, ps, pc, start, pc as nat, m);
            assert(other.page(ids[m] as int) == self.page(ids[m] as int));
        }
        lemma_chain_stable(img, img2, ps, pc, pc, start, pc as nat, pc as nat);
        lemma_records_same(img, img2, ps, ids);
    }

    /// Sets up the catalog of a file without pages: page 0 for the catalog
    /// root, page 1 as the first, empty heap page, and a root with both
    /// counters at 1 that points at page 1. Fails with `InvalidData`,
    /// changing nothing, when the file already has pages.
    pub fn init_catalog_root(&mut self) -> (r: Result<(), FluxError>)
        requires
            old(self).wf(),
        ensures
            final(self).wf(),
            match r {
                Ok(_) => {
                    &&& old(self).page_count() == 0
                    &&& final(self).page_count() == 2
                    &&& final(self).header@ == (HeaderView { page_count: 2, ..old(self).header@ })
                    &&& final(self).root_result() == Ok::<CatalogRoot, FluxError>(initial_root(1))
                    &&& final(self).heap() == Ok::<Seq<Seq<u8>>, FluxError>(Seq::empty())
                    &&& final(self).catalog() == Ok::<CatalogView, FluxError>(
                        CatalogView { tables: Seq::empty(), columns: Seq::empty() },
                    )
                },
                Err(e) => e == FluxError::InvalidData && old(self).page_count() != 0 && final(self).bytes() == old(self).bytes() && final(self).header == old(self).header,
            },
    {
        if self.header.page_count != 0 {
            return Err(FluxError::InvalidData);
        }
        let root_page = match self.allocate_page(PageType::CatalogPage) {
            Ok(p) => p,
            Err(_) => {
                assert(false);
                return Err(FluxError::InvalidData);
            },
        };
        let heap_root = match self.allocate_page(PageType::CatalogPage) {
            Ok(p) => p,
            Err(_) => {
                assert(false);
                return Err(FluxError::InvalidData);
            },
        };
        let ghost pg_mid = *self;
        let root = CatalogRoot {
            version: 1,
            next_table_id: 1,
            next_column_id: 1,
            catalog_root_page_id: heap_root.header.page_id,
        };
        match self.persist_catalog_root(&root) {
            Ok(_) => {},
            Err(_) => {
                assert(false);
                return Err(FluxError::InvalidData);
            },
        }
        proof {
            let img = self.bytes();
            let ps = self.page_size();
            assert(self.page(1) == pg_mid.page(1));
            assert(pg_mid.page(1) == heap_root.buf@);
            let p1 = page_at(img, ps, 1);
            assert(heap_page_ok(p1));
            assert(next_of(p1) == 0);
            assert(chain_from(img, ps, 2, 0u32, 1) == Ok::<Seq<u32>, FluxError>(Seq::empty()));
            assert(seq![1u32] + Seq::<u32>::empty() =~= seq![1u32]);
            assert(chain_from(img, ps, 2, 1u32, 2) == Ok::<Seq<u32>, FluxError>(seq![1u32]));
            let ids = seq![1u32];
            assert(ids.drop_last() =~= Seq::<u32>::empty());
            assert(records_of_pages(img, ps, Seq::<u32>::empty()) == Seq::<Seq<u8>>::empty());
            assert(records_of_pages(img, ps, ids) =~= Seq::<Seq<u8>>::empty());
        }
        Ok(())
    }

    /// Adds a table named `table_name` to the catalog heap: its id is the
    /// root's next table id, its record goes into the heap first fit, and
    /// the root is rewritten with the next table id one past it. Fails as
    /// the root load fails; with `InvalidData` when table ids are exhausted
    /// or the root points at page 0; otherwise as the heap insert fails. On
    /// failure nothing changes.
    pub fn create_table(&mut self, table_name: &str) -> (r: Result<TableMeta, FluxError>)
        requires
            old(self).wf(),
        ensures
            final(self).wf(),
            final(self).header@ == (HeaderView {
                page_count: final(self).header.page_count,
                ..old(self).header@
            }),
            match r {
                Ok(t) => {
                    &&& old(self).root_result() is Ok
                    &&& final(self).root_result() is Ok
                    &&& table_created(
                        old(self).root_result()->Ok_0,
                        final(self).root_result()->Ok_0,
                        t.table_id,
                    )
                    &&& t.name@ == table_name@
                    &&& old(self).heap() is Ok ==> first_fit(
                        *old(self),
                        *final(self),
                        old(self).chain(old(self).root_result()->Ok_0.catalog_root_page_id)->Ok_0,
                        typed_record::<TableMeta>(t@),
                    )
                    &&& old(self).heap() is Ok ==> final(self).heap() is Ok && one_more(
                        old(self).heap()->Ok_0,
                        final(self).heap()->Ok_0,
                        typed_record::<TableMeta>(t@),
                    )
                },
                Err(e) => {
                    &&& final(self).bytes() == old(self).bytes()
                    &&& final(self).header == old(self).header
                    &&& table_create_fails(*old(self), table_name@, e)
                },
            },
    {
        let root = match self.load_catalog_root() {
            Ok(root) => root,
            Err(e) => {
                return Err(e);
            },
        };
        if root.next_table_id == u32::MAX || root.catalog_root_page_id == 0 {
            return Err(FluxError::InvalidData);
        }
        let table = TableMeta { table_id: root.next_table_id, name: table_name.to_owned() };
        let payload = table.serialize();
        let bytes = Record::encode(RecordType::CatalogTable, payload.as_slice());
        let ghost pg0 = *self;
        match self.insert_into_heap(root.catalog_root_page_id, bytes.as_slice()) {
            Ok(_) => {},
            Err(e) => {
                return Err(e);
            },
        }
        let ghost pg1 = *self;
        let new_root = CatalogRoot { next_table_id: root.next_table_id + 1, ..root };
        proof {
            assert(pg1.root_result() == pg0.root_result());
        }
        match self.persist_catalog_root(&new_root) {
            Ok(_) => {},
            Err(_) => {
                assert(false);
                return Err(FluxError::InvalidData);
            },
        }
        proof {
            if pg0.heap() is Ok {
                pg1.lemma_heap_without_page0(self, root.catalog_root_page_id);
                let ids = pg0.chain(root.catalog_root_page_id)->Ok_0;
                assert forall|m: int| 0 <= m < ids.len() implies #[trigger] ids[m] != 0 && ids[m]
                    < pg0.page_count() by {
                    lemma_chain_suffix(
                        pg0.bytes(),
                        pg0.page_size(),
                        pg0.page_count(),
                        root.catalog_root_page_id,
                        pg0.page_count() as nat,
                        m,
                    );
                }
                assert forall|j: int| 1 <= j < pg1.page_count() implies #[trigger] self.page(j)
                    == pg1.page(j) by {}
                lemma_first_fit_page0(pg0, pg1, *self, ids, bytes@);
            }
        }
        Ok(table)
    }

    /// Adds a column to table `table_id` in the catalog heap: its id is the
    /// root's next column id, its record goes into the heap first fit, and
    /// the root is rewritten with the next column id one past it. Fails as
    /// the root load fails; with `InvalidData` when column ids are exhausted
    /// or the root points at page 0; otherwise as the heap insert fails. On
    /// failure nothing changes.
    pub fn add_column_to(&mut self, table_id: u32, column_name: &str, column_type: ColumnType) -> (r:
        Result<TableColumn, FluxError>)
        requires
            old(self).wf(),
        ensures
            final(self).wf(),
            final(self).header@ == (HeaderView {
                page_count: final(self).header.page_count,
                ..old(self).header@
            }),
            match r {
                Ok(c) => {
                    &&& old(self).root_result() is Ok
                    &&& final(self).root_result() is Ok
                    &&& column_created(
                        old(self).root_result()->Ok_0,
                        final(self).root_result()->Ok_0,
                        c.column_id,
                    )
                    &&& c.table_id == table_id
                    &&& c.column_type == column_type
                    &&& c.name@ == column_name@
                    &&& old(self).heap() is Ok ==> first_fit(
                        *old(self),
                        *final(self),
                        old(self).chain(old(self).root_result()->Ok_0.catalog_root_page_id)->Ok_0,
                        typed_record::<TableColumn>(c@),
                    )
                    &&& old(self).heap() is Ok ==> final(self).heap() is Ok && one_more(
                        old(self).heap()->Ok_0,
                        final(self).heap()->Ok_0,
                        typed_record::<TableColumn>(c@),
                    )
                },
                Err(e) => {
                    &&& final(self).bytes() == old(self).bytes()
                    &&& final(self).header == old(self).header
                    &&& column_add_fails(*old(self), table_id, column_name@, column_type, e)
                },
            },
    {
        let root = match self.load_catalog_root() {
            Ok(root) => root,
            Err(e) => {
                return Err(e);
            },
        };
        if root.next_column_id == u32::MAX || root.catalog_root_page_id == 0 {
            return Err(FluxError::InvalidData);
        }
        let column = TableColumn {
            table_id,
            column_id: root.next_column_id,
            column_type,
            name: column_name.to_owned(),
        };
        let payload = column.serialize();
        let bytes = Record::encode(RecordType::CatalogColumn, payload.as_slice());
        let ghost pg0 = *self;
        match self.insert_into_heap(root.catalog_root_page_id, bytes.as_slice()) {
            Ok(_) => {},
            Err(e) => {
                return Err(e);
            },
        }
        let ghost pg1 = *self;
        let new_root = CatalogRoot { next_column_id: root.next_column_id + 1, ..root };
        proof {
            assert(pg1.root_result() == pg0.root_result());
        }
        match self.persist_catalog_root(&new_root) {
            Ok(_) => {},
            Err(_) => {
                assert(false);
                return Err(FluxError::InvalidData);
            },
        }
        proof {
            if pg0.heap() is Ok {
                pg1.lemma_heap_without_page0(self, root.catalog_root_page_id);
                let ids = pg0.chain(root.catalog_root_page_id)->Ok_0;
                assert forall|m: int| 0 <= m < ids.len() implies #[trigger] ids[m] != 0 && ids[m]
                    < pg0.page_count() by {
                    lemma_chain_suffix(
                        pg0.bytes(),
                        pg0.page_size(),
                        pg0.page_count(),
                        root.catalog_root_page_id,
                        pg0.page_count() as nat,
                        m,
                    );
                }
                assert forall|j: int| 1 <= j < pg1.page_count() implies #[trigger] self.page(j)
                    == pg1.page(j) by {}
                lemma_first_fit_page0(pg0, pg1, *self, ids, bytes@);
            }
        }
        Ok(column)
    }

    /// Adds a column to the table named `table_name`, resolved through the
    /// catalog heap as `find_table_by_name` does, then as `add_column_to`.
    pub fn add_column(&mut self, table_name: &str, column_name: &str, column_type: ColumnType) -> (r:
        Result<TableColumn, FluxError>)
        requires
            old(self).wf(),
        ensures
            final(self).wf(),
            match r {
                Ok(c) => {
                    &&& old(self).heap() is Ok
                    &&& first_table_named(old(self).heap()->Ok_0, table_name@) is Ok
                    &&& c.table_id == first_table_named(old(self).heap()->Ok_0, table_name@)->Ok_0.table_id
                    &&& column_created(
                        old(self).root_result()->Ok_0,
                        final(self).root_result()->Ok_0,
                        c.column_id,
                    )
                    &&& c.column_type == column_type
                    &&& c.name@ == column_name@
                    &&& final(self).heap() is Ok && one_more(
                        old(self).heap()->Ok_0,
                        final(self).heap()->Ok_0,
                        typed_record::<TableColumn>(c@),
                    )
                },
                Err(e) => {
                    &&& final(self).bytes() == old(self).bytes()
                    &&& match old(self).heap() {
                        Err(he) => e == he,
                        Ok(recs) => match first_table_named(recs, table_name@) {
                            Err(fe) => e == fe,
                            Ok(t) => column_add_fails(*old(self), t.table_id, column_name@, column_type, e),
                        },
                    }
                },
            },
    {
        let table = match self.find_table_by_name(table_name) {
            Ok(t) => t,
            Err(e) => {
                return Err(e);
            },
        };
        self.add_column_to(table.table_id, column_name, column_type)
    }
}

/// Table ids handed out by successive table creations increase strictly,
/// so no two of them are equal.
pub proof fn lemma_table_ids_increase(roots: Seq<CatalogRoot>, ids: Seq<u32>)
    requires
        roots.len() == ids.len() + 1,
        forall|k: int| 0 <= k < ids.len() ==> table_created(roots[k], roots[k + 1], #[trigger] ids[k]),
    ensures
        forall|i: int, j: int| 0 <= i < j < ids.len() ==> ids[i] < ids[j],
{
    assert forall|k: int| 0 <= k < ids.len() - 1 implies #[trigger] ids[k + 1] == ids[k] + 1 by {
        assert(table_created(roots[k], roots[k + 1], ids[k]));
        assert(table_created(roots[k + 1], roots[k + 2], ids[k + 1]));
    }
    assert forall|i: int, j: int| 0 <= i < j < ids.len() implies ids[i] < ids[j] by {
        lemma_consecutive(ids, i, j);
    }
}

/// Column ids handed out by successive column creations increase strictly,
/// whichever tables the columns belong to, so no two of them are equal.
pub proof fn lemma_column_ids_increase(roots: Seq<CatalogRoot>, ids: Seq<u32>)
    requires
        roots.len() == ids.len() + 1,
        forall|k: int| 0 <= k < ids.len() ==> column_created(roots[k], roots[k + 1], #[trigger] ids[k]),
    ensures
        forall|i: int, j: int| 0 <= i < j < ids.len() ==> ids[i] < ids[j],
{
    assert forall|k: int| 0 <= k < ids.len() - 1 implies #[trigger] ids[k + 1] == ids[k] + 1 by {
        assert(column_created(roots[k], roots[k + 1], ids[k]));
        assert(column_created(roots[k + 1], roots[k + 2], ids[k + 1]));
    }
    assert forall|i: int, j: int| 0 <= i < j < ids.len() implies ids[i] < ids[j] by {
        lemma_consecutive(ids, i, j);
    }
}

/// In a run of ids that go up by one at each step, a later id is larger.
pub proof fn lemma_consecutive(ids: Seq<u32>, i: int, j: int)
    requires
        0 <= i < j < ids.len(),
        forall|k: int| 0 <= k < ids.len() - 1 ==> #[trigger] ids[k + 1] == ids[k] + 1,
    ensures
        ids[j] == ids[i] + (j - i),
    decreases j - i,
{
    assert(ids[(j - 1) + 1] == ids[j - 1] + 1);
    if i < j - 1 {
        lemma_consecutive(ids, i, j - 1);
    }
}

/// Two images that hold the same pages hold the same catalog.
pub proof fn lemma_catalog_same_pages(img: Seq<u8>, img2: Seq<u8>, ps: int, pc: int)
    requires
        pc >= 0,
        forall|j: int| 0 <= j < pc ==> #[trigger] page_at(img2, ps, j) == page_at(img, ps, j),
    ensures
        root_in(img2, ps, pc) == root_in(img, ps, pc),
        heap_in(img2, ps, pc) == heap_in(img, ps, pc),
        catalog_in(img2, ps, pc) == catalog_in(img, ps, pc),
{
    if pc > 0 {
        assert(page_at(img2, ps, 0) == page_at(img, ps, 0));
        assert(root_in(img2, ps, pc) == root_in(img, ps, pc));
    }
    assert(root_in(img2, ps, pc) == root_in(img, ps, pc));
    match root_in(img, ps, pc) {
        Ok(root) => {
            let start = root.catalog_root_page_id;
            if start != 0 {
                lemma_chain_same_pages(img, img2, ps, pc, start, pc as nat);
                match chain_from(img, ps, pc, start, pc as nat) {
                    Ok(ids) => {
                        assert forall|m: int| 0 <= m < ids.len() implies page_records(
                            #[trigger] page_at(img2, ps, ids[m] as int),
                        ) == page_records(page_at(img, ps, ids[m] as int)) by {
                            lemma_chain_suffix(img, ps, pc, start, pc as nat, m);
                            assert(page_at(img2, ps, ids[m] as int) == page_at(img, ps, ids[m] as int));
                        }
                        lemma_records_same(img, img2, ps, ids);
                    },
                    Err(_) => {},
                }
            }
        },
        Err(_) => {},
    }
}

/// Two images that hold the same pages walk the same chains.
pub proof fn lemma_chain_same_pages(img: Seq<u8>, img2: Seq<u8>, ps: int, pc: int, s: u32, f: nat)
    requires
        forall|j: int| 0 <= j < pc ==> #[trigger] page_at(img2, ps, j) == page_at(img, ps, j),
    ensures
        chain_from(img2, ps, pc, s, f) == chain_from(img, ps, pc, s, f),
    decreases f,
{
    if s != 0 && f > 0 && s < pc {
        assert(page_at(img2, ps, s as int) == page_at(img, ps, s as int));
        lemma_chain_same_pages(img, img2, ps, pc, next_of(page_at(img, ps, s as int)), (f - 1) as nat);
    }
}

/// Page bytes with the same page header bytes have the same header facts.
pub proof fn lemma_same_prefix(a: Seq<u8>, b: Seq<u8>)
    requires
        a.len() >= 24,
        b.len() >= 24,
        a.subrange(0, 24) == b.subrange(0, 24),
    ensures
        a[0] == b[0],
        next_of(a) == next_of(b),
        has_page_header(a) == has_page_header(b),
{
    assert forall|k: int| 0 <= k < 24 implies a[k] == b[k] by {
        assert(a[k] == a.subrange(0, 24)[k]);
        assert(b[k] == b.subrange(0, 24)[k]);
    }
}

/// Page `id` of an image with `pc` pages of `ps` bytes lies inside it.
pub proof fn lemma_page_in_image(pc: int, ps: int, id: int)
    requires
        0 <= id < pc,
        0 < ps,
    ensures
        HEADER_SIZE + (id + 1) * ps <= HEADER_SIZE + pc * ps,
        HEADER_SIZE + id * ps + ps == HEADER_SIZE + (id + 1) * ps,
        0 <= id * ps,
{
    assert((id + 1) * ps <= pc * ps) by (nonlinear_arith)
        requires
            id + 1 <= pc,
            0 < ps,
    ;
    assert((id + 1) * ps == id * ps + ps) by (nonlinear_arith);
    assert(0 <= id * ps) by (nonlinear_arith)
        requires
            0 <= id,
            0 < ps,
    ;
}

/// Two different pages occupy disjoint byte ranges.
pub proof fn lemma_pages_apart(pc: int, ps: int, a: int, b: int)
    requires
        0 <= a < pc,
        0 <= b < pc,
        a != b,
        0 < ps,
    ensures
        HEADER_SIZE + (a + 1) * ps <= HEADER_SIZE + b * ps || HEADER_SIZE + (b + 1) * ps
            <= HEADER_SIZE + a * ps,
{
    if a < b {
        assert((a + 1) * ps <= b * ps) by (nonlinear_arith)
            requires
                a + 1 <= b,
                0 < ps,
        ;
    } else {
        assert((b + 1) * ps <= a * ps) by (nonlinear_arith)
            requires
                b + 1 <= a,
                0 < ps,
        ;
    }
}

} // verus!
