use fluxdb::catalog::Catalog;
use fluxdb::database::Database;
use fluxdb::error::FluxError;
use fluxdb::header::{HeaderFlags, FLAG_CHECKSUM_ENABLED};
use fluxdb::page::HeapPageHeader;
use fluxdb::pager::Pager;
use fluxdb::record::{DbRecord, Record};
use fluxdb::schema::{CatalogRoot, TableMeta};
use fluxdb::types::{ColumnType, PageType, RecordType};

fn fresh_pager() -> Pager {
    let mut p = Pager::create(4096, HeaderFlags::from_bits_truncate(FLAG_CHECKSUM_ENABLED), 1).unwrap();
    p.init_catalog_root().unwrap();
    p
}

fn names(c: &Catalog) -> Vec<(u32, String)> {
    let mut v: Vec<(u32, String)> = c.tables.iter().map(|t| (t.table_id, t.name.clone())).collect();
    v.sort();
    v
}

fn columns(c: &Catalog) -> Vec<(u32, u32, String)> {
    let mut v: Vec<(u32, u32, String)> =
        c.columns.iter().map(|x| (x.table_id, x.column_id, x.name.clone())).collect();
    v.sort();
    v
}

#[test]
fn fresh_file_scenario() {
    let mut p = fresh_pager();
    assert_eq!(p.header.page_count, 2);
    assert_eq!(p.page_offset(1), 128 + 4096);
    assert_eq!(p.image().len(), 128 + 2 * 4096);
    let root = p.load_catalog_root().unwrap();
    assert_eq!(root, CatalogRoot { version: 1, next_table_id: 1, next_column_id: 1, catalog_root_page_id: 1 });
    let page0 = p.read_page(0).unwrap();
    assert_eq!(page0.header.page_type, PageType::CatalogPage);
    assert_eq!(HeapPageHeader::read_from(&page0.buf, 24).slot_count, 1);
    let page1 = p.read_page(1).unwrap();
    assert_eq!(HeapPageHeader::read_from(&page1.buf, 24).slot_count, 0);
    assert_eq!(page1.header.next_page_id, 0);

    let t = p.create_table("users").unwrap();
    assert_eq!(t.table_id, 1);
    assert_eq!(t.name, "users");
    let c = p.add_column("users", "id", ColumnType::Integer64).unwrap();
    assert_eq!((c.table_id, c.column_id, c.column_type), (1, 1, ColumnType::Integer64));
    assert_eq!(c.name, "id");

    let reopened = Pager::new(p.image().clone()).unwrap();
    let cat = reopened.load_catalog().unwrap();
    assert_eq!(cat.table_id_by_name("users"), Some(1));
    let cols = cat.columns_of(1);
    assert_eq!(cols.len(), 1);
    assert_eq!((cols[0].table_id, cols[0].column_id, cols[0].name.as_str()), (1, 1, "id"));
    assert_eq!(cat.table_by_id(1).unwrap().name, "users");
    assert!(cat.table_by_id(2).is_none());
}

#[test]
fn full_heap_page_is_extended_with_a_linked_page() {
    let mut p = fresh_pager();
    let mut page1 = p.read_page(1).unwrap();
    let big = Record::encode(RecordType::HeapRow, &[0u8; 100]);
    while page1.insert_record(&big).is_ok() {}
    let small = Record::encode(RecordType::HeapRow, &[]);
    while page1.insert_record(&small).is_ok() {}
    assert_eq!(page1.insert_record(&small), Err(FluxError::PageFull));
    p.write_page(1, &page1).unwrap();

    let t = p.create_table("overflow").unwrap();
    assert_eq!(p.header.page_count, 3);
    let linked = p.read_page(1).unwrap();
    assert_eq!(linked.header.next_page_id, 2);
    let page2 = p.read_page(2).unwrap();
    assert_eq!(page2.header.page_id, 2);
    assert_eq!(page2.header.next_page_id, 0);
    let rec = Record::decode(page2.read_record(0).unwrap()).unwrap();
    assert_eq!(rec.record_type, RecordType::CatalogTable);
    let back = TableMeta::deserialize(rec.payload).unwrap();
    assert_eq!((back.table_id, back.name.as_str()), (t.table_id, "overflow"));

    let t2 = p.create_table("second").unwrap();
    assert_eq!(p.header.page_count, 3);
    assert_eq!(t2.table_id, t.table_id + 1);
    let found = p.find_table_by_name("second").unwrap();
    assert_eq!(found.table_id, t2.table_id);
    let cat = Pager::new(p.image().clone()).unwrap().load_catalog().unwrap();
    assert_eq!(names(&cat), vec![(1, "overflow".to_string()), (2, "second".to_string())]);
}

#[test]
fn record_too_large_for_any_page_is_page_full() {
    let mut p = Pager::create(64, HeaderFlags::empty(), 1).unwrap();
    p.init_catalog_root().unwrap();
    let before = p.image().clone();
    assert!(matches!(p.create_table(&"n".repeat(40)), Err(FluxError::PageFull)));
    assert_eq!(p.image(), &before);
}

#[test]
fn table_ids_increase_across_creations() {
    let mut p = fresh_pager();
    let mut last = 0u32;
    for i in 0..50 {
        let t = p.create_table(&format!("t{i}")).unwrap();
        assert!(t.table_id > last);
        last = t.table_id;
    }
    assert_eq!(p.load_catalog_root().unwrap().next_table_id, 51);
    let mut last_col = 0u32;
    for i in 0..30 {
        let c = p.add_column(&format!("t{}", i % 7), &format!("c{i}"), ColumnType::Utf8).unwrap();
        assert!(c.column_id > last_col);
        last_col = c.column_id;
    }
    assert_eq!(p.load_catalog_root().unwrap().next_column_id, 31);
}

#[test]
fn pager_errors() {
    let mut p = fresh_pager();
    assert!(matches!(p.read_page(2), Err(FluxError::IoError)));
    assert!(matches!(p.find_table_by_name("nope"), Err(FluxError::NotFound)));
    assert!(matches!(p.add_column("nope", "c", ColumnType::Utf8), Err(FluxError::NotFound)));
    assert!(matches!(p.init_catalog_root(), Err(FluxError::InvalidData)));
    assert!(matches!(Pager::create(32, HeaderFlags::empty(), 0), Err(FluxError::FormatError)));
    let short = p.image()[..200].to_vec();
    assert!(matches!(Pager::new(short), Err(FluxError::IoError)));
    let page = fluxdb::page::Page::new(1024, PageType::HeapPage, 1);
    assert!(matches!(p.write_page(1, &page), Err(FluxError::InvalidData)));
    let empty = Pager::create(4096, HeaderFlags::empty(), 0).unwrap();
    assert!(matches!(empty.load_catalog_root(), Err(FluxError::IoError)));
    assert!(matches!(empty.load_catalog(), Err(FluxError::IoError)));
}

#[test]
fn catalog_root_inside_heap_is_invalid() {
    let mut p = fresh_pager();
    let mut page1 = p.read_page(1).unwrap();
    let root = CatalogRoot { version: 1, next_table_id: 1, next_column_id: 1, catalog_root_page_id: 1 };
    page1.insert_typed_record(&root).unwrap();
    p.write_page(1, &page1).unwrap();
    assert!(matches!(p.load_catalog(), Err(FluxError::InvalidData)));
}

#[test]
fn heap_chain_cycle_is_invalid() {
    let mut p = fresh_pager();
    let mut page1 = p.read_page(1).unwrap();
    page1.set_next_page_id(1);
    p.write_page(1, &page1).unwrap();
    assert!(matches!(p.load_catalog(), Err(FluxError::InvalidData)));
    assert!(matches!(p.heap_records(1), Err(FluxError::InvalidData)));
}

#[test]
fn database_create_table_and_add_column() {
    let mut db = Database::create_empty(4096, HeaderFlags::empty(), 1).unwrap();
    db.create_table("a").unwrap();
    db.create_table("b").unwrap();
    db.add_column("a", "x", ColumnType::Integer32).unwrap();
    db.add_column("b", "y", ColumnType::Utf8).unwrap();
    db.add_column("a", "z", ColumnType::Boolean).unwrap();
    let before = db.image().clone();
    db.add_column("a", "x", ColumnType::Utf8).unwrap();
    assert_eq!(db.image(), &before);
    assert!(matches!(db.add_column("missing", "x", ColumnType::Utf8), Err(FluxError::NotFound)));
    assert_eq!(db.catalog.table_id_by_name("b"), Some(2));
    assert_eq!(db.catalog.column_count(1), 2);
    assert!(db.catalog.has_column(1, "z"));
    assert!(!db.catalog.has_column(2, "z"));
    let a_cols: Vec<String> = db.catalog.columns_of(1).iter().map(|c| c.name.clone()).collect();
    assert_eq!(a_cols, vec!["x".to_string(), "z".to_string()]);
}

#[test]
fn reopen_rebuilds_the_same_catalog() {
    let mut db = Database::create_empty(512, HeaderFlags::from_bits_truncate(FLAG_CHECKSUM_ENABLED), 9).unwrap();
    for i in 0..12 {
        let name = format!("table_with_a_rather_long_name_{i}");
        db.create_table(&name).unwrap();
        for j in 0..3 {
            db.add_column(&name, &format!("column_{j}_{}", "q".repeat(i)), ColumnType::Utf8).unwrap();
        }
    }
    assert!(db.pager.header.page_count > 3);
    let reopened = Database::open(db.image().clone()).unwrap();
    assert_eq!(names(&reopened.catalog), names(&db.catalog));
    assert_eq!(columns(&reopened.catalog), columns(&db.catalog));
    for i in 0..12 {
        let name = format!("table_with_a_rather_long_name_{i}");
        assert_eq!(reopened.catalog.table_id_by_name(&name), db.catalog.table_id_by_name(&name));
    }
}

#[test]
fn open_with_corrupted_magic_fails_with_format_error() {
    let db = Database::create_empty(4096, HeaderFlags::empty(), 1).unwrap();
    let mut image = db.image().clone();
    image[0..4].copy_from_slice(b"NOPE");
    assert!(matches!(Database::open(image), Err(FluxError::FormatError)));
}

#[test]
fn open_heals_a_file_without_pages() {
    let p = Pager::create(4096, HeaderFlags::empty(), 1).unwrap();
    let db = Database::open(p.image().clone()).unwrap();
    assert_eq!(db.pager.header.page_count, 2);
    assert!(db.catalog.tables.is_empty());
}

#[test]
fn open_with_broken_catalog_fails() {
    let p = fresh_pager();
    let mut image = p.image().clone();
    image[128 + 30] ^= 0xFF;
    let e = Database::open(image).err().unwrap();
    assert_eq!(e, FluxError::InvalidData);
}

#[test]
fn seeding_twice_adds_nothing() {
    let mut db = Database::create(1).unwrap();
    assert_eq!(db.catalog.tables.len(), 10);
    assert_eq!(db.catalog.columns.len(), 100);
    assert_eq!(db.catalog.table_id_by_name("users"), Some(1));
    assert_eq!(db.catalog.table_id_by_name("audit_logs"), Some(10));
    let users = db.catalog.columns_of(1);
    assert_eq!(users[0].name, "id");
    assert_eq!(users[0].column_type, ColumnType::Integer64);
    let before = db.image().clone();
    db.seed_schema().unwrap();
    assert_eq!(db.image(), &before);
    assert_eq!(db.catalog.tables.len(), 10);
    assert_eq!(db.catalog.columns.len(), 100);
    let reopened = Database::open(before).unwrap();
    assert_eq!(names(&reopened.catalog), names(&db.catalog));
    assert_eq!(columns(&reopened.catalog), columns(&db.catalog));
}

#[test]
fn error_messages() {
    assert_eq!(FluxError::PageFull.message(), "not enough space on page");
    assert_eq!(FluxError::NotFound.message(), "table not found");
}

#[test]
fn first_fit_uses_an_earlier_page_with_room() {
    let mut p = fresh_pager();
    let mut page1 = p.read_page(1).unwrap();
    let big = Record::encode(RecordType::HeapRow, &[0u8; 100]);
    while page1.insert_record(&big).is_ok() {}
    p.write_page(1, &page1).unwrap();
    let free = {
        let l = HeapPageHeader::read_from(&page1.buf, 24);
        (l.free_end - l.free_start) as usize
    };
    let long = "L".repeat(free);
    let t1 = p.create_table(&long).unwrap();
    assert_eq!(p.header.page_count, 3);
    let slots_before = HeapPageHeader::read_from(&p.read_page(1).unwrap().buf, 24).slot_count;
    let t2 = p.create_table("s").unwrap();
    assert_eq!(p.header.page_count, 3);
    let page1 = p.read_page(1).unwrap();
    assert_eq!(HeapPageHeader::read_from(&page1.buf, 24).slot_count, slots_before + 1);
    let rec = Record::decode(page1.read_record(slots_before).unwrap()).unwrap();
    assert_eq!(TableMeta::deserialize(rec.payload).unwrap().table_id, t2.table_id);
    assert_eq!(HeapPageHeader::read_from(&p.read_page(2).unwrap().buf, 24).slot_count, 1);
    assert_eq!(t1.table_id + 1, t2.table_id);
    let page0 = p.read_page(0).unwrap();
    assert_eq!(HeapPageHeader::read_from(&page0.buf, 24).slot_count, 1);
    assert_eq!(page0.header.next_page_id, 0);
}

#[test]
fn smallest_page_size_holds_the_catalog_root() {
    let mut p = Pager::create(49, HeaderFlags::empty(), 1).unwrap();
    p.init_catalog_root().unwrap();
    assert_eq!(p.load_catalog_root().unwrap().catalog_root_page_id, 1);
    assert!(matches!(Pager::create(48, HeaderFlags::empty(), 1), Err(FluxError::FormatError)));
}
