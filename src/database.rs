//! The database facade: a pager and the catalog cached from it, kept in
//! step by writing to the pages first and updating the cache after.
use vstd::prelude::*;
use vstd::seq_lib::{lemma_multiset_commutative, to_multiset_build};
use crate::catalog::{Catalog, CatalogView, columns_owned, lemma_table_named_exists, lemma_catalog_one_more, lemma_column_record,
    lemma_table_record, table_named};
use crate::error::FluxError;
use crate::header::{HeaderFlags, HeaderView, HEADER_SIZE, parse_header};
use crate::pager::{Pager, MAX_PAGE_COUNT, MIN_PAGE_SIZE, initial_root, column_created, image_catalog, table_created, too_large};
use crate::record::typed_record;
use crate::schema::{TableColumn, TableColumnView, TableMeta, TableMetaView};
use crate::types::ColumnType;

verus! {

broadcast use vstd::multiset::group_multiset_axioms;

/// Two catalogs with the same tables and the same columns, in any order.
pub open spec fn same_content(a: CatalogView, b: CatalogView) -> bool {
    a.tables.to_multiset() == b.tables.to_multiset() && a.columns.to_multiset()
        == b.columns.to_multiset()
}

/// An open database: the pager over its file image and its catalog.
pub struct Database {
    pub pager: Pager,
    pub catalog: Catalog,
}

impl Database {
    /// The cached catalog holds what the catalog heap holds.
    pub open spec fn wf(&self) -> bool {
        &&& self.pager.wf()
        &&& self.pager.catalog() is Ok
        &&& same_content(self.pager.catalog()->Ok_0, self.catalog@)
    }

    /// The catalog root on page 0.
    pub open spec fn root(&self) -> crate::schema::CatalogRoot {
        self.pager.root_result()->Ok_0
    }

    /// Opens the database held by a file image and loads its catalog. A
    /// header that does not read fails as the read does. A file without
    /// pages gets a fresh catalog first; a file whose catalog cannot be
    /// loaded otherwise fails as the load does, with `InvalidData` when the
    /// failure is in the catalog itself.
    pub fn open(image: Vec<u8>) -> (r: Result<Database, FluxError>)
        ensures
            parse_header(image@) is Err ==> r == Err::<Database, FluxError>(
                parse_header(image@)->Err_0,
            ),
            (parse_header(image@) matches Ok(h) && MIN_PAGE_SIZE <= h.page_size && h.page_count == 0)
                ==> (r matches Ok(db) && db.pager.page_count() == 2 && db.root() == initial_root(1)
                && db.catalog@.tables.len() == 0 && db.catalog@.columns.len() == 0),
            r is Ok && image_catalog(image@) is Err ==> parse_header(image@) is Ok
                && parse_header(image@)->Ok_0.page_count == 0,
            match r {
                Ok(db) => {
                    &&& db.wf()
                    &&& db.pager.catalog() == Ok::<CatalogView, FluxError>(db.catalog@)
                    &&& image_catalog(image@) is Ok ==> db.catalog@ == image_catalog(image@)->Ok_0
                },
                Err(e) => image_catalog(image@) is Err,
            },
    {
        let mut pager = match Pager::new(image) {
            Ok(p) => p,
            Err(e) => {
                return Err(e);
            },
        };
        proof {
            lemma_pager_image(&pager, image@);
        }
        let catalog = match pager.load_catalog() {
            Ok(c) => c,
            Err(_) => {
                match pager.init_catalog_root() {
                    Ok(_) => {},
                    Err(e) => {
                        return Err(e);
                    },
                }
                match pager.load_catalog() {
                    Ok(c) => c,
                    Err(e) => {
                        return Err(e);
                    },
                }
            },
        };
        Ok(Database { pager, catalog })
    }

    /// A new database in a fresh file image: a header with the given page
    /// size and flags, created at `created_at`, and an empty catalog. Fails
    /// with `FormatError` when the page size is outside the supported range.
    pub fn create_empty(page_size: u16, flags: HeaderFlags, created_at: u64) -> (r: Result<
        Database,
        FluxError,
    >)
        ensures
            match r {
                Ok(db) => {
                    &&& db.wf()
                    &&& db.pager.page_count() == 2
                    &&& db.pager.header.page_size == page_size
                    &&& db.root() == crate::pager::initial_root(1)
                    &&& db.catalog@.tables.len() == 0
                    &&& db.catalog@.columns.len() == 0
                    &&& columns_owned(db.catalog@)
                },
                Err(e) => e == FluxError::FormatError && (page_size as int)
                    < crate::pager::MIN_PAGE_SIZE,
            },
    {
        let mut pager = match Pager::create(page_size, flags, created_at) {
            Ok(p) => p,
            Err(e) => {
                return Err(e);
            },
        };
        match pager.init_catalog_root() {
            Ok(_) => {},
            Err(_) => {
                assert(false);
                return Err(FluxError::FormatError);
            },
        }
        let catalog = match pager.load_catalog() {
            Ok(c) => c,
            Err(_) => {
                assert(false);
                return Err(FluxError::FormatError);
            },
        };
        Ok(Database { pager, catalog })
    }

    /// The bytes of the database file.
    pub fn image(&self) -> (r: &Vec<u8>)
        ensures
            r@ == self.pager.bytes(),
    {
        self.pager.image()
    }

    /// Creates a table named `name`: on disk first, then in the cached
    /// catalog. Fails as the pager's `create_table` does, changing nothing.
    pub fn create_table(&mut self, name: &str) -> (r: Result<(), FluxError>)
        requires
            old(self).wf(),
        ensures
            final(self).wf(),
            columns_owned(old(self).catalog@) ==> columns_owned(final(self).catalog@),
            final(self).pager.page_size() == old(self).pager.page_size(),
            old(self).pager.page_count() <= final(self).pager.page_count() <= old(self).pager.page_count()
                + 1,
            match r {
                Ok(_) => {
                    &&& table_created(old(self).root(), final(self).root(), old(self).root().next_table_id)
                    &&& final(self).catalog@.tables == old(self).catalog@.tables.push(
                        TableMetaView { table_id: old(self).root().next_table_id, name: name@ },
                    )
                    &&& final(self).catalog@.columns == old(self).catalog@.columns
                },
                Err(e) => {
                    &&& final(self).pager.bytes() == old(self).pager.bytes()
                    &&& final(self).pager.header == old(self).pager.header
                    &&& final(self).catalog@ == old(self).catalog@
                    &&& (e == FluxError::InvalidData && old(self).root().next_table_id == u32::MAX)
                        || (e == FluxError::PageFull && too_large(
                        old(self).pager.page_size(),
                        typed_record::<TableMeta>(
                            TableMetaView { table_id: old(self).root().next_table_id, name: name@ },
                        ).len() as int,
                    )) || (e == FluxError::InvalidData && old(self).pager.page_count()
                        >= MAX_PAGE_COUNT)
                },
            },
    {
        let ghost pg0 = self.pager;
        let table = match self.pager.create_table(name) {
            Ok(t) => t,
            Err(e) => {
                return Err(e);
            },
        };
        let ghost before = self.catalog@;
        self.catalog.tables.push(table);
        proof {
            assert(self.catalog@.tables =~= before.tables.push(table@));
            assert(self.catalog@.columns =~= before.columns);
            assert(before == old(self).catalog@);
            if columns_owned(before) {
                assert forall|k: int| 0 <= k < self.catalog@.columns.len() implies exists|m: int|
                    0 <= m < self.catalog@.tables.len() && self.catalog@.tables[m].table_id == (
                    #[trigger] self.catalog@.columns[k]).table_id by {
                    assert(self.catalog@.columns[k] == before.columns[k]);
                    let m = choose|m: int|
                        0 <= m < before.tables.len() && before.tables[m].table_id
                            == (#[trigger] before.columns[k]).table_id;
                    assert(self.catalog@.tables[m] == before.tables[m]);
                    assert(0 <= m < self.catalog@.tables.len() && self.catalog@.tables[m].table_id
                        == self.catalog@.columns[k].table_id);
                }
                assert(columns_owned(self.catalog@));
            }
            assert(columns_owned(old(self).catalog@) ==> columns_owned(self.catalog@));
            let old_recs = pg0.heap()->Ok_0;
            let new_recs = self.pager.heap()->Ok_0;
            lemma_table_record(table@);
            lemma_catalog_one_more(old_recs, new_recs, crate::record::typed_record::<TableMeta>(table@));
            let c = pg0.catalog()->Ok_0;
            to_multiset_build(before.tables, table@);
            to_multiset_build(c.tables, table@);
            lemma_multiset_commutative(c.tables, seq![table@]);
            assert(c.tables + seq![table@] =~= c.tables.push(table@));
            lemma_multiset_commutative(c.columns, Seq::<TableColumnView>::empty());
            assert(c.columns + Seq::<TableColumnView>::empty() =~= c.columns);
        }
        Ok(())
    }

    /// Adds a column named `column_name` of type `column_type` to the table
    /// named `table_name`. Fails with `NotFound` when no table has that
    /// name; does nothing when the table already has a column of that name;
    /// otherwise writes the column to disk, then appends it to the cached
    /// catalog, failing as the pager's `add_column_to` does.
    pub fn add_column(&mut self, table_name: &str, column_name: &str, column_type: ColumnType) -> (r:
        Result<(), FluxError>)
        requires
            old(self).wf(),
        ensures
            final(self).wf(),
            columns_owned(old(self).catalog@) ==> columns_owned(final(self).catalog@),
            final(self).pager.page_size() == old(self).pager.page_size(),
            old(self).pager.page_count() <= final(self).pager.page_count() <= old(self).pager.page_count()
                + 1,
            ({
                let tid = table_named(old(self).catalog@.tables, table_name@);
                let dup = tid is Some && exists|k: int|
                    0 <= k < old(self).catalog@.columns.len()
                        && (#[trigger] old(self).catalog@.columns[k]).table_id == tid->Some_0
                        && old(self).catalog@.columns[k].name == column_name@;
                &&& (dup ==> r is Ok)
                &&& match r {
                    Ok(_) => {
                        &&& tid is Some
                        &&& dup ==> final(self).pager.bytes() == old(self).pager.bytes() && final(self).pager.header == old(self).pager.header && final(self).catalog@ == old(self).catalog@
                        &&& !dup ==> {
                            &&& column_created(
                                old(self).root(),
                                final(self).root(),
                                old(self).root().next_column_id,
                            )
                            &&& final(self).catalog@.columns == old(self).catalog@.columns.push(
                                TableColumnView {
                                    table_id: tid->Some_0,
                                    column_id: old(self).root().next_column_id,
                                    column_type,
                                    name: column_name@,
                                },
                            )
                            &&& final(self).catalog@.tables == old(self).catalog@.tables
                        }
                    },
                    Err(e) => {
                        &&& final(self).pager.bytes() == old(self).pager.bytes()
                        &&& final(self).pager.header == old(self).pager.header
                        &&& final(self).catalog@ == old(self).catalog@
                        &&& (tid is None <==> e == FluxError::NotFound)
                        &&& tid is Some ==> (e == FluxError::InvalidData
                            && old(self).root().next_column_id == u32::MAX) || (e
                            == FluxError::PageFull && too_large(
                            old(self).pager.page_size(),
                            typed_record::<TableColumn>(
                                TableColumnView {
                                    table_id: tid->Some_0,
                                    column_id: old(self).root().next_column_id,
                                    column_type,
                                    name: column_name@,
                                },
                            ).len() as int,
                        )) || (e == FluxError::InvalidData && old(self).pager.page_count()
                            >= MAX_PAGE_COUNT)
                    },
                }
            }),
    {
        let table_id = match self.catalog.table_id_by_name(table_name) {
            Some(id) => id,
            None => {
                return Err(FluxError::NotFound);
            },
        };
        if self.catalog.has_column(table_id, column_name) {
            return Ok(());
        }
        let ghost pg0 = self.pager;
        let col = match self.pager.add_column_to(table_id, column_name, column_type) {
            Ok(c) => c,
            Err(e) => {
                assert(e != FluxError::NotFound);
                return Err(e);
            },
        };
        let ghost before = self.catalog@;
        self.catalog.columns.push(col);
        proof {
            assert(self.catalog@.columns =~= before.columns.push(col@));
            assert(self.catalog@.tables =~= before.tables);
            lemma_table_named_exists(before.tables, table_name@);
            if columns_owned(before) {
                assert forall|k: int| 0 <= k < self.catalog@.columns.len() implies exists|m: int|
                    0 <= m < self.catalog@.tables.len() && self.catalog@.tables[m].table_id == (
                    #[trigger] self.catalog@.columns[k]).table_id by {
                    if k < before.columns.len() {
                        assert(self.catalog@.columns[k] == before.columns[k]);
                    }
                }
            }
            let old_recs = pg0.heap()->Ok_0;
            let new_recs = self.pager.heap()->Ok_0;
            lemma_column_record(col@);
            lemma_catalog_one_more(old_recs, new_recs, crate::record::typed_record::<TableColumn>(col@));
            let c = pg0.catalog()->Ok_0;
            to_multiset_build(before.columns, col@);
            to_multiset_build(c.columns, col@);
            lemma_multiset_commutative(c.columns, seq![col@]);
            assert(c.columns + seq![col@] =~= c.columns.push(col@));
            lemma_multiset_commutative(c.tables, Seq::<TableMetaView>::empty());
            assert(c.tables + Seq::<TableMetaView>::empty() =~= c.tables);
        }
        Ok(())
    }
}

/// The page size of a database file created with the defaults.
pub const DEFAULT_PAGE_SIZE: u16 = 4096;

impl Database {
    /// A new database in a fresh file image with the default page size and
    /// the checksum, columnar and compression flags, created at
    /// `created_at`, with the built-in schema seeded.
    pub fn create(created_at: u64) -> (r: Result<Database, FluxError>)
        ensures
            r is Ok,
            r matches Ok(db) ==> db.wf() && crate::seed::seeded(db.catalog@) && columns_owned(db.catalog@),
    {
        let flags = HeaderFlags::from_bits_truncate(
            crate::header::FLAG_CHECKSUM_ENABLED | crate::header::FLAG_COLUMNAR_V1
                | crate::header::FLAG_COMPRESSION,
        );
        let mut db = match Database::create_empty(DEFAULT_PAGE_SIZE, flags, created_at) {
            Ok(db) => db,
            Err(e) => {
                return Err(e);
            },
        };
        assert(crate::seed::room_for(db, 10, 100));
        match db.seed_schema() {
            Ok(_) => Ok(db),
            Err(e) => Err(e),
        }
    }
}

/// Reading the header of a file image looks at its first 128 bytes only.
pub proof fn lemma_parse_prefix(b: Seq<u8>)
    requires
        b.len() >= HEADER_SIZE,
    ensures
        parse_header(b) == parse_header(b.subrange(0, HEADER_SIZE as int)),
{
    let p = b.subrange(0, HEADER_SIZE as int);
    assert(p.subrange(0, 16) =~= b.subrange(0, 16));
    assert(p.subrange(28, 36) =~= b.subrange(28, 36));
    assert(p.subrange(36, 44) =~= b.subrange(36, 44));
    assert(p.subrange(52, 128) =~= b.subrange(52, 128));
    assert(crate::header::header_fields(p) == crate::header::header_fields(b));
}

/// What a fresh open of a well-formed pager's image loads is the pager's
/// own catalog.
pub proof fn lemma_image_catalog(p: &Pager)
    requires
        p.wf(),
    ensures
        image_catalog(p.bytes()) == p.catalog(),
{
    let b = p.bytes();
    lemma_parse_prefix(b);
    crate::header::lemma_header_round_trip(p.header@);
    assert(b.len() >= HEADER_SIZE);
}

/// Reopening: a fresh open of a database's file image loads a catalog with
/// the same tables and the same columns as the one the database holds in
/// memory, whatever tables and columns were created before.
pub proof fn lemma_reopen_same_content(db: &Database)
    requires
        db.wf(),
    ensures
        image_catalog(db.pager.bytes()) is Ok,
        same_content(image_catalog(db.pager.bytes())->Ok_0, db.catalog@),
{
    lemma_image_catalog(&db.pager);
}

/// The catalog that a fresh open of a pager's image loads is the pager's own.
pub proof fn lemma_pager_image(p: &Pager, img: Seq<u8>)
    requires
        p.wf(),
        parse_header(img) == Ok::<HeaderView, FluxError>(p.header@),
        img.len() >= p.bytes().len(),
        p.bytes().subrange(HEADER_SIZE as int, p.bytes().len() as int) == img.subrange(
            HEADER_SIZE as int,
            p.bytes().len() as int,
        ),
    ensures
        image_catalog(img) == p.catalog(),
{
    let ps = p.page_size();
    let pc = p.page_count();
    assert forall|j: int| 0 <= j < pc implies #[trigger] crate::pager::page_at(img, ps, j)
        == crate::pager::page_at(p.bytes(), ps, j) by {
        crate::pager::lemma_page_in_image(pc, ps, j);
        let lo = HEADER_SIZE + j * ps;
        let hi = HEADER_SIZE + (j + 1) * ps;
        assert forall|k: int| 0 <= k < ps implies crate::pager::page_at(img, ps, j)[k]
            == crate::pager::page_at(p.bytes(), ps, j)[k] by {
            assert(p.bytes()[lo + k] == p.bytes().subrange(HEADER_SIZE as int, p.bytes().len() as int)[lo + k - HEADER_SIZE]);
            assert(img[lo + k] == img.subrange(HEADER_SIZE as int, p.bytes().len() as int)[lo + k - HEADER_SIZE]);
        }
        assert(crate::pager::page_at(img, ps, j) =~= crate::pager::page_at(p.bytes(), ps, j));
    }
    crate::pager::lemma_catalog_same_pages(p.bytes(), img, ps, pc);
}

} // verus!
