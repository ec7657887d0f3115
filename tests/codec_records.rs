use fluxdb::codec::{push_u16, push_u32, push_u64, read_u16, read_u32, read_u64, read_u8};
use fluxdb::error::FluxError;
use fluxdb::record::{DbRecord, Record};
use fluxdb::schema::{CatalogRoot, ChunkMeta, TableColumn, TableMeta};
use fluxdb::types::{ColumnType, PageType, RecordType};

#[test]
fn little_endian_integers_round_trip() {
    let mut buf: Vec<u8> = Vec::new();
    push_u16(&mut buf, 0xBEEF);
    push_u32(&mut buf, 0x0102_0304);
    push_u64(&mut buf, 0x1122_3344_5566_7788);
    assert_eq!(buf.len(), 14);
    assert_eq!(&buf[0..2], &[0xEF, 0xBE]);
    assert_eq!(&buf[2..6], &[0x04, 0x03, 0x02, 0x01]);
    assert_eq!(read_u8(&buf, 0), 0xEF);
    assert_eq!(read_u16(&buf, 0), 0xBEEF);
    assert_eq!(read_u32(&buf, 2), 0x0102_0304);
    assert_eq!(read_u64(&buf, 6), 0x1122_3344_5566_7788);
}

#[test]
fn tag_bytes_match_the_file_format() {
    assert_eq!(RecordType::CatalogRoot.to_u8(), 0);
    assert_eq!(RecordType::CatalogTable.to_u8(), 1);
    assert_eq!(RecordType::CatalogColumn.to_u8(), 2);
    assert_eq!(RecordType::ChunkMeta.to_u8(), 3);
    assert_eq!(RecordType::HeapRow.to_u8(), 10);
    assert_eq!(RecordType::IndexEntry.to_u8(), 20);
    assert_eq!(RecordType::from_u8(3), Some(RecordType::ChunkMeta));
    assert_eq!(RecordType::from_u8(4), None);
    assert_eq!(PageType::from_u8(4), Some(PageType::CatalogPage));
    assert_eq!(PageType::from_u8(0), None);
    assert_eq!(PageType::HeapPage.to_u8(), 2);
    assert_eq!(ColumnType::from_u8(6), Some(ColumnType::Boolean));
    assert_eq!(ColumnType::from_u8(7), None);
    assert_eq!(ColumnType::Utf8.to_u8(), 4);
}

#[test]
fn column_type_sizes() {
    assert!(!ColumnType::Utf8.is_fixed_size());
    assert!(ColumnType::Integer32.is_fixed_size());
    assert_eq!(ColumnType::Integer32.fixed_size(), Some(4));
    assert_eq!(ColumnType::Integer64.fixed_size(), Some(8));
    assert_eq!(ColumnType::Boolean.fixed_size(), Some(1));
    assert_eq!(ColumnType::Timestamp.fixed_size(), Some(8));
    assert_eq!(ColumnType::Utf8.fixed_size(), None);
}

#[test]
fn record_encode_and_decode() {
    let bytes = Record::encode(RecordType::CatalogTable, &[9, 8, 7]);
    assert_eq!(bytes, vec![1, 9, 8, 7]);
    let rec = Record::decode(&bytes).unwrap();
    assert_eq!(rec.record_type, RecordType::CatalogTable);
    assert_eq!(rec.payload, &[9, 8, 7]);
    assert!(Record::decode(&[]).is_none());
    assert!(Record::decode(&[99, 1]).is_none());
    let empty = Record::encode(RecordType::HeapRow, &[]);
    assert_eq!(empty, vec![10]);
    assert_eq!(Record::decode(&empty).unwrap().payload.len(), 0);
}

#[test]
fn catalog_root_round_trip() {
    for root in [
        CatalogRoot { version: 1, next_table_id: 1, next_column_id: 1, catalog_root_page_id: 1 },
        CatalogRoot { version: 0, next_table_id: 0, next_column_id: 0, catalog_root_page_id: 0 },
        CatalogRoot {
            version: u16::MAX,
            next_table_id: u32::MAX,
            next_column_id: u32::MAX,
            catalog_root_page_id: u32::MAX,
        },
    ] {
        let bytes = root.serialize();
        assert_eq!(bytes.len(), 14);
        assert_eq!(CatalogRoot::deserialize(&bytes), Ok(root));
    }
    let bytes = CatalogRoot { version: 2, next_table_id: 3, next_column_id: 4, catalog_root_page_id: 5 }
        .serialize();
    assert_eq!(bytes, vec![2, 0, 3, 0, 0, 0, 4, 0, 0, 0, 5, 0, 0, 0]);
    assert_eq!(CatalogRoot::deserialize(&bytes[..13]), Err(FluxError::InvalidData));
}

#[test]
fn table_meta_round_trip_with_empty_long_and_unicode_names() {
    let long = "x".repeat(4000);
    for name in ["users", "", long.as_str(), "ünïcødé ✓ 表"] {
        let t = TableMeta { table_id: 42, name: name.to_string() };
        let bytes = t.serialize();
        assert_eq!(bytes.len(), 4 + name.len());
        let back = TableMeta::deserialize(&bytes).unwrap();
        assert_eq!(back.table_id, 42);
        assert_eq!(back.name, name);
    }
}

#[test]
fn table_meta_rejects_bad_utf8_and_short_payload() {
    let bytes = vec![1, 0, 0, 0, 0xFF, 0xFE];
    assert!(matches!(TableMeta::deserialize(&bytes), Err(FluxError::InvalidData)));
    assert!(matches!(TableMeta::deserialize(&[1, 0]), Err(FluxError::InvalidData)));
}

#[test]
fn table_column_round_trip() {
    let long = "c".repeat(3000);
    for (name, ty) in [("id", ColumnType::Integer64), ("", ColumnType::Boolean), (long.as_str(), ColumnType::Utf8)] {
        let c = TableColumn { table_id: 7, column_id: u32::MAX, column_type: ty, name: name.to_string() };
        let bytes = c.serialize();
        assert_eq!(bytes.len(), 9 + name.len());
        let back = TableColumn::deserialize(&bytes).unwrap();
        assert_eq!(back.table_id, 7);
        assert_eq!(back.column_id, u32::MAX);
        assert_eq!(back.column_type, ty);
        assert_eq!(back.name, name);
    }
    let mut bad = TableColumn { table_id: 1, column_id: 1, column_type: ColumnType::Utf8, name: "a".into() }
        .serialize();
    bad[8] = 9;
    assert!(matches!(TableColumn::deserialize(&bad), Err(FluxError::InvalidData)));
}

#[test]
fn chunk_meta_round_trip() {
    let m = ChunkMeta {
        table_id: 1,
        column_id: 2,
        chunk_id: 3,
        row_start: 0,
        row_end: u64::MAX,
        column_type: ColumnType::Float64,
        first_page_id: 77,
        page_count: 5,
    };
    let bytes = m.serialize();
    assert_eq!(bytes.len(), 45);
    assert_eq!(ChunkMeta::deserialize(&bytes), Ok(m));
    assert_eq!(ChunkMeta::deserialize(&bytes[..44]), Err(FluxError::InvalidData));
}
