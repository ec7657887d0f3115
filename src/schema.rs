//! The catalog's metadata records and their payload encodings.
use vstd::prelude::*;
use vstd::utf8::{encode_utf8, decode_utf8, valid_utf8};
use crate::codec::{le16, le32, le64, get16, get32, get64, lemma_le16, lemma_le32, lemma_le64};
use crate::error::FluxError;
use crate::record::{DbRecord, utf8_to_string};
use crate::types::{ColumnType, RecordType, column_type_byte, column_type_of};

verus! {

broadcast use vstd::utf8::group_utf8_lib;

/// Bytes of an encoded `CatalogRoot` payload.
pub const CATALOG_ROOT_SIZE: usize = 14;

/// Bytes of an encoded `ChunkMeta` payload.
pub const CHUNK_META_SIZE: usize = 45;

/// The bootstrap record at page 0: id counters and the heap chain's entry.
#[derive(Debug, Clone, Copy, PartialEq, Eq, Structural)]
pub struct CatalogRoot {
    pub version: u16,
    pub next_table_id: u32,
    pub next_column_id: u32,
    pub catalog_root_page_id: u32,
}

impl View for CatalogRoot {
    type V = CatalogRoot;

    open spec fn view(&self) -> CatalogRoot {
        *self
    }
}

pub open spec fn catalog_root_bytes(v: CatalogRoot) -> Seq<u8> {
    le16(v.version) + le32(v.next_table_id) + le32(v.next_column_id) + le32(
        v.catalog_root_page_id,
    )
}

pub open spec fn parse_catalog_root(p: Seq<u8>) -> Option<CatalogRoot> {
    if p.len() == 14 {
        Some(
            CatalogRoot {
                version: get16(p, 0),
                next_table_id: get32(p, 2),
                next_column_id: get32(p, 6),
                catalog_root_page_id: get32(p, 10),
            },
        )
    } else {
        None
    }
}

impl DbRecord for CatalogRoot {
    open spec fn spec_record_type() -> RecordType {
        RecordType::CatalogRoot
    }

    open spec fn spec_serialize(v: CatalogRoot) -> Seq<u8> {
        catalog_root_bytes(v)
    }

    open spec fn spec_deserialize(p: Seq<u8>) -> Option<CatalogRoot> {
        parse_catalog_root(p)
    }

    fn record_type() -> (r: RecordType) {
        RecordType::CatalogRoot
    }

    fn serialize(&self) -> (r: Vec<u8>) {
        let mut buf: Vec<u8> = Vec::new();
        crate::codec::push_u16(&mut buf, self.version);
        crate::codec::push_u32(&mut buf, self.next_table_id);
        crate::codec::push_u32(&mut buf, self.next_column_id);
        crate::codec::push_u32(&mut buf, self.catalog_root_page_id);
        assert(buf@ =~= catalog_root_bytes(*self));
        buf
    }

    fn deserialize(payload: &[u8]) -> (r: Result<CatalogRoot, FluxError>) {
        if payload.len() != CATALOG_ROOT_SIZE {
            return Err(FluxError::InvalidData);
        }
        Ok(
            CatalogRoot {
                version: crate::codec::read_u16(payload, 0),
                next_table_id: crate::codec::read_u32(payload, 2),
                next_column_id: crate::codec::read_u32(payload, 6),
                catalog_root_page_id: crate::codec::read_u32(payload, 10),
            },
        )
    }
}

/// A table of the catalog: its id and its name.
#[derive(Debug)]
pub struct TableMeta {
    pub table_id: u32,
    pub name: String,
}

pub struct TableMetaView {
    pub table_id: u32,
    pub name: Seq<char>,
}

impl View for TableMeta {
    type V = TableMetaView;

    open spec fn view(&self) -> TableMetaView {
        TableMetaView { table_id: self.table_id, name: self.name@ }
    }
}

pub open spec fn table_meta_bytes(v: TableMetaView) -> Seq<u8> {
    le32(v.table_id) + encode_utf8(v.name)
}

pub open spec fn parse_table_meta(p: Seq<u8>) -> Option<TableMetaView> {
    if p.len() >= 4 && valid_utf8(p.subrange(4, p.len() as int)) {
        Some(
            TableMetaView {
                table_id: get32(p, 0),
                name: decode_utf8(p.subrange(4, p.len() as int)),
            },
        )
    } else {
        None
    }
}

impl DbRecord for TableMeta {
    open spec fn spec_record_type() -> RecordType {
        RecordType::CatalogTable
    }

    open spec fn spec_serialize(v: TableMetaView) -> Seq<u8> {
        table_meta_bytes(v)
    }

    open spec fn spec_deserialize(p: Seq<u8>) -> Option<TableMetaView> {
        parse_table_meta(p)
    }

    fn record_type() -> (r: RecordType) {
        RecordType::CatalogTable
    }

    fn serialize(&self) -> (r: Vec<u8>) {
        let mut buf: Vec<u8> = Vec::new();
        crate::codec::push_u32(&mut buf, self.table_id);
        crate::codec::push_bytes(&mut buf, self.name.as_str().as_bytes());
        buf
    }

    fn deserialize(payload: &[u8]) -> (r: Result<TableMeta, FluxError>) {
        if payload.len() < 4 {
            return Err(FluxError::InvalidData);
        }
        let table_id = crate::codec::read_u32(payload, 0);
        match utf8_to_string(&payload[4..payload.len()]) {
            Some(name) => Ok(TableMeta { table_id, name }),
            None => Err(FluxError::InvalidData),
        }
    }
}

/// A column of a table: owning table, its own id, value type and name.
#[derive(Debug)]
pub struct TableColumn {
    pub table_id: u32,
    pub column_id: u32,
    pub column_type: ColumnType,
    pub name: String,
}

pub struct TableColumnView {
    pub table_id: u32,
    pub column_id: u32,
    pub column_type: ColumnType,
    pub name: Seq<char>,
}

impl View for TableColumn {
    type V = TableColumnView;

    open spec fn view(&self) -> TableColumnView {
        TableColumnView {
            table_id: self.table_id,
            column_id: self.column_id,
            column_type: self.column_type,
            name: self.name@,
        }
    }
}

pub open spec fn table_column_bytes(v: TableColumnView) -> Seq<u8> {
    le32(v.table_id) + le32(v.column_id) + seq![column_type_byte(v.column_type)] + encode_utf8(
        v.name,
    )
}

pub open spec fn parse_table_column(p: Seq<u8>) -> Option<TableColumnView> {
    if p.len() >= 9 && column_type_of(p[8]) is Some && valid_utf8(p.subrange(9, p.len() as int)) {
        Some(
            TableColumnView {
                table_id: get32(p, 0),
                column_id: get32(p, 4),
                column_type: column_type_of(p[8])->Some_0,
                name: decode_utf8(p.subrange(9, p.len() as int)),
            },
        )
    } else {
        None
    }
}

impl DbRecord for TableColumn {
    open spec fn spec_record_type() -> RecordType {
        RecordType::CatalogColumn
    }

    open spec fn spec_serialize(v: TableColumnView) -> Seq<u8> {
        table_column_bytes(v)
    }

    open spec fn spec_deserialize(p: Seq<u8>) -> Option<TableColumnView> {
        parse_table_column(p)
    }

    fn record_type() -> (r: RecordType) {
        RecordType::CatalogColumn
    }

    fn serialize(&self) -> (r: Vec<u8>) {
        let mut buf: Vec<u8> = Vec::new();
        crate::codec::push_u32(&mut buf, self.table_id);
        crate::codec::push_u32(&mut buf, self.column_id);
        buf.push(self.column_type.to_u8());
        crate::codec::push_bytes(&mut buf, self.name.as_str().as_bytes());
        assert(buf@ =~= table_column_bytes(self@));
        buf
    }

    fn deserialize(payload: &[u8]) -> (r: Result<TableColumn, FluxError>) {
        if payload.len() < 9 {
            return Err(FluxError::InvalidData);
        }
        let table_id = crate::codec::read_u32(payload, 0);
        let column_id = crate::codec::read_u32(payload, 4);
        let column_type = match ColumnType::from_u8(payload[8]) {
            Some(t) => t,
            None => {
                return Err(FluxError::InvalidData);
            },
        };
        match utf8_to_string(&payload[9..payload.len()]) {
            Some(name) => Ok(TableColumn { table_id, column_id, column_type, name }),
            None => Err(FluxError::InvalidData),
        }
    }
}

/// A contiguous run of data pages holding one column's encoded values.
#[derive(Debug, Clone, Copy, PartialEq, Eq, Structural)]
pub struct ChunkMeta {
    pub table_id: u32,
    pub column_id: u32,
    pub chunk_id: u32,
    pub row_start: u64,
    pub row_end: u64,
    pub column_type: ColumnType,
    pub first_page_id: u64,
    pub page_count: u64,
}

impl View for ChunkMeta {
    type V = ChunkMeta;

    open spec fn view(&self) -> ChunkMeta {
        *self
    }
}

pub open spec fn chunk_meta_bytes(v: ChunkMeta) -> Seq<u8> {
    le32(v.table_id) + le32(v.column_id) + le32(v.chunk_id) + le64(v.row_start) + le64(v.row_end)
        + seq![column_type_byte(v.column_type)] + le64(v.first_page_id) + le64(v.page_count)
}

pub open spec fn parse_chunk_meta(p: Seq<u8>) -> Option<ChunkMeta> {
    if p.len() == 45 && column_type_of(p[28]) is Some {
        Some(
            ChunkMeta {
                table_id: get32(p, 0),
                column_id: get32(p, 4),
                chunk_id: get32(p, 8),
                row_start: get64(p, 12),
                row_end: get64(p, 20),
                column_type: column_type_of(p[28])->Some_0,
                first_page_id: get64(p, 29),
                page_count: get64(p, 37),
            },
        )
    } else {
        None
    }
}

impl DbRecord for ChunkMeta {
    open spec fn spec_record_type() -> RecordType {
        RecordType::ChunkMeta
    }

    open spec fn spec_serialize(v: ChunkMeta) -> Seq<u8> {
        chunk_meta_bytes(v)
    }

    open spec fn spec_deserialize(p: Seq<u8>) -> Option<ChunkMeta> {
        parse_chunk_meta(p)
    }

    fn record_type() -> (r: RecordType) {
        RecordType::ChunkMeta
    }

    fn serialize(&self) -> (r: Vec<u8>) {
        let mut buf: Vec<u8> = Vec::new();
        crate::codec::push_u32(&mut buf, self.table_id);
        crate::codec::push_u32(&mut buf, self.column_id);
        crate::codec::push_u32(&mut buf, self.chunk_id);
        crate::codec::push_u64(&mut buf, self.row_start);
        crate::codec::push_u64(&mut buf, self.row_end);
        buf.push(self.column_type.to_u8());
        crate::codec::push_u64(&mut buf, self.first_page_id);
        crate::codec::push_u64(&mut buf, self.page_count);
        assert(buf@ =~= chunk_meta_bytes(*self));
        buf
    }

    fn deserialize(payload: &[u8]) -> (r: Result<ChunkMeta, FluxError>) {
        if payload.len() != CHUNK_META_SIZE {
            return Err(FluxError::InvalidData);
        }
        let column_type = match ColumnType::from_u8(payload[28]) {
            Some(t) => t,
            None => {
                return Err(FluxError::InvalidData);
            },
        };
        Ok(
            ChunkMeta {
                table_id: crate::codec::read_u32(payload, 0),
                column_id: crate::codec::read_u32(payload, 4),
                chunk_id: crate::codec::read_u32(payload, 8),
                row_start: crate::codec::read_u64(payload, 12),
                row_end: crate::codec::read_u64(payload, 20),
                column_type,
                first_page_id: crate::codec::read_u64(payload, 29),
                page_count: crate::codec::read_u64(payload, 37),
            },
        )
    }
}

/// A column chunk that is still being filled.
pub struct ActiveChunk {
    pub table_id: u32,
    pub column_ordinal: u16,
    pub first_page_id: u32,
    pub pages: Vec<u32>,
    pub value_count: u32,
}

/// Decoding an encoded `CatalogRoot` gives back every field.
pub proof fn lemma_catalog_root_round_trip(v: CatalogRoot)
    ensures
        parse_catalog_root(catalog_root_bytes(v)) == Some(v),
{
    let b = catalog_root_bytes(v);
    lemma_le16(v.version);
    lemma_le32(v.next_table_id);
    lemma_le32(v.next_column_id);
    lemma_le32(v.catalog_root_page_id);
    assert(get16(b, 0) == v.version);
    assert(get32(b, 2) == v.next_table_id);
    assert(get32(b, 6) == v.next_column_id);
    assert(get32(b, 10) == v.catalog_root_page_id);
}

/// Decoding an encoded `TableMeta` gives back its id and its name, whatever
/// the name's length.
pub proof fn lemma_table_meta_round_trip(v: TableMetaView)
    ensures
        parse_table_meta(table_meta_bytes(v)) == Some(v),
{
    let b = table_meta_bytes(v);
    lemma_le32(v.table_id);
    assert(b.subrange(4, b.len() as int) =~= encode_utf8(v.name));
    assert(get32(b, 0) == v.table_id);
}

/// Decoding an encoded `TableColumn` gives back every field, whatever the
/// name's length.
pub proof fn lemma_table_column_round_trip(v: TableColumnView)
    ensures
        parse_table_column(table_column_bytes(v)) == Some(v),
{
    let b = table_column_bytes(v);
    lemma_le32(v.table_id);
    lemma_le32(v.column_id);
    crate::types::lemma_column_type_byte(v.column_type);
    assert(b.subrange(9, b.len() as int) =~= encode_utf8(v.name));
    assert(get32(b, 0) == v.table_id);
    assert(get32(b, 4) == v.column_id);
    assert(b[8] == column_type_byte(v.column_type));
}

/// Decoding an encoded `ChunkMeta` gives back every field.
pub proof fn lemma_chunk_meta_round_trip(v: ChunkMeta)
    ensures
        parse_chunk_meta(chunk_meta_bytes(v)) == Some(v),
{
    let b = chunk_meta_bytes(v);
    lemma_le32(v.table_id);
    lemma_le32(v.column_id);
    lemma_le32(v.chunk_id);
    lemma_le64(v.row_start);
    lemma_le64(v.row_end);
    lemma_le64(v.first_page_id);
    lemma_le64(v.page_count);
    crate::types::lemma_column_type_byte(v.column_type);
    assert(get32(b, 0) == v.table_id);
    assert(get32(b, 4) == v.column_id);
    assert(get32(b, 8) == v.chunk_id);
    assert(b.subrange(12, 20) =~= le64(v.row_start));
    assert(b.subrange(20, 28) =~= le64(v.row_end));
    assert(b[28] == column_type_byte(v.column_type));
    assert(b.subrange(29, 37) =~= le64(v.first_page_id));
    assert(b.subrange(37, 45) =~= le64(v.page_count));
}

} // verus!
