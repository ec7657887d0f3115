//! One-byte tags stored on disk: page types, record types, column types.
use vstd::prelude::*;

verus! {

/// The role of a page, stored in the first byte of its header.
#[derive(Debug, Clone, Copy, PartialEq, Eq, Structural)]
pub enum PageType {
    DataPage,
    HeapPage,
    IndexPage,
    CatalogPage,
}

pub open spec fn page_type_byte(t: PageType) -> u8 {
    match t {
        PageType::DataPage => 1,
        PageType::HeapPage => 2,
        PageType::IndexPage => 3,
        PageType::CatalogPage => 4,
    }
}

pub open spec fn page_type_of(b: u8) -> Option<PageType> {
    if b == 1 {
        Some(PageType::DataPage)
    } else if b == 2 {
        Some(PageType::HeapPage)
    } else if b == 3 {
        Some(PageType::IndexPage)
    } else if b == 4 {
        Some(PageType::CatalogPage)
    } else {
        None
    }
}

/// Heap and catalog pages use the slotted layout.
pub open spec fn is_slotted(t: PageType) -> bool {
    t == PageType::HeapPage || t == PageType::CatalogPage
}

impl PageType {
    /// The tag byte of this page type.
    pub fn to_u8(&self) -> (r: u8)
        ensures
            r == page_type_byte(*self),
    {
        match self {
            PageType::DataPage => 1,
            PageType::HeapPage => 2,
            PageType::IndexPage => 3,
            PageType::CatalogPage => 4,
        }
    }

    /// The page type with tag `v`, if there is one.
    pub fn from_u8(v: u8) -> (r: Option<PageType>)
        ensures
            r == page_type_of(v),
    {
        match v {
            1 => Some(PageType::DataPage),
            2 => Some(PageType::HeapPage),
            3 => Some(PageType::IndexPage),
            4 => Some(PageType::CatalogPage),
            _ => None,
        }
    }

    /// Whether pages of this type use the slotted record layout.
    pub fn is_slotted(&self) -> (r: bool)
        ensures
            r == is_slotted(*self),
    {
        match self {
            PageType::HeapPage | PageType::CatalogPage => true,
            _ => false,
        }
    }
}

pub proof fn lemma_page_type_byte(t: PageType)
    ensures
        page_type_of(page_type_byte(t)) == Some(t),
{
}

/// The kind of a record, stored in its first byte.
#[derive(Debug, Clone, Copy, PartialEq, Eq, Structural)]
pub enum RecordType {
    CatalogRoot,
    CatalogTable,
    CatalogColumn,
    ChunkMeta,
    HeapRow,
    IndexEntry,
}

pub open spec fn record_type_byte(t: RecordType) -> u8 {
    match t {
        RecordType::CatalogRoot => 0,
        RecordType::CatalogTable => 1,
        RecordType::CatalogColumn => 2,
        RecordType::ChunkMeta => 3,
        RecordType::HeapRow => 10,
        RecordType::IndexEntry => 20,
    }
}

pub open spec fn record_type_of(b: u8) -> Option<RecordType> {
    if b == 0 {
        Some(RecordType::CatalogRoot)
    } else if b == 1 {
        Some(RecordType::CatalogTable)
    } else if b == 2 {
        Some(RecordType::CatalogColumn)
    } else if b == 3 {
        Some(RecordType::ChunkMeta)
    } else if b == 10 {
        Some(RecordType::HeapRow)
    } else if b == 20 {
        Some(RecordType::IndexEntry)
    } else {
        None
    }
}

impl RecordType {
    /// The tag byte of this record type.
    pub fn to_u8(&self) -> (r: u8)
        ensures
            r == record_type_byte(*self),
    {
        match self {
            RecordType::CatalogRoot => 0,
            RecordType::CatalogTable => 1,
            RecordType::CatalogColumn => 2,
            RecordType::ChunkMeta => 3,
            RecordType::HeapRow => 10,
            RecordType::IndexEntry => 20,
        }
    }

    /// The record type with tag `v`, if there is one.
    pub fn from_u8(v: u8) -> (r: Option<RecordType>)
        ensures
            r == record_type_of(v),
    {
        match v {
            0 => Some(RecordType::CatalogRoot),
            1 => Some(RecordType::CatalogTable),
            2 => Some(RecordType::CatalogColumn),
            3 => Some(RecordType::ChunkMeta),
            10 => Some(RecordType::HeapRow),
            20 => Some(RecordType::IndexEntry),
            _ => None,
        }
    }
}

pub proof fn lemma_record_type_byte(t: RecordType)
    ensures
        record_type_of(record_type_byte(t)) == Some(t),
{
}

/// The value type of a column, stored as one byte.
#[derive(Debug, Clone, Copy, PartialEq, Eq, Structural)]
pub enum ColumnType {
    Integer32,
    Integer64,
    Float32,
    Float64,
    Utf8,
    Timestamp,
    Boolean,
}

pub open spec fn column_type_byte(t: ColumnType) -> u8 {
    match t {
        ColumnType::Integer32 => 0,
        ColumnType::Integer64 => 1,
        ColumnType::Float32 => 2,
        ColumnType::Float64 => 3,
        ColumnType::Utf8 => 4,
        ColumnType::Timestamp => 5,
        ColumnType::Boolean => 6,
    }
}

pub open spec fn column_type_of(b: u8) -> Option<ColumnType> {
    if b == 0 {
        Some(ColumnType::Integer32)
    } else if b == 1 {
        Some(ColumnType::Integer64)
    } else if b == 2 {
        Some(ColumnType::Float32)
    } else if b == 3 {
        Some(ColumnType::Float64)
    } else if b == 4 {
        Some(ColumnType::Utf8)
    } else if b == 5 {
        Some(ColumnType::Timestamp)
    } else if b == 6 {
        Some(ColumnType::Boolean)
    } else {
        None
    }
}

/// The width in bytes of one value of a fixed-size column type.
pub open spec fn column_width(t: ColumnType) -> Option<u16> {
    match t {
        ColumnType::Integer32 => Some(4u16),
        ColumnType::Integer64 => Some(8u16),
        ColumnType::Float32 => Some(4u16),
        ColumnType::Float64 => Some(8u16),
        ColumnType::Utf8 => None,
        ColumnType::Timestamp => Some(8u16),
        ColumnType::Boolean => Some(1u16),
    }
}

impl ColumnType {
    /// The tag byte of this column type.
    pub fn to_u8(&self) -> (r: u8)
        ensures
            r == column_type_byte(*self),
    {
        match self {
            ColumnType::Integer32 => 0,
            ColumnType::Integer64 => 1,
            ColumnType::Float32 => 2,
            ColumnType::Float64 => 3,
            ColumnType::Utf8 => 4,
            ColumnType::Timestamp => 5,
            ColumnType::Boolean => 6,
        }
    }

    /// The column type with tag `v`, if there is one.
    pub fn from_u8(v: u8) -> (r: Option<ColumnType>)
        ensures
            r == column_type_of(v),
    {
        match v {
            0 => Some(ColumnType::Integer32),
            1 => Some(ColumnType::Integer64),
            2 => Some(ColumnType::Float32),
            3 => Some(ColumnType::Float64),
            4 => Some(ColumnType::Utf8),
            5 => Some(ColumnType::Timestamp),
            6 => Some(ColumnType::Boolean),
            _ => None,
        }
    }

    /// Whether every value of this type has the same width.
    pub fn is_fixed_size(&self) -> (r: bool)
        ensures
            r == column_width(*self).is_some(),
    {
        match self {
            ColumnType::Utf8 => false,
            _ => true,
        }
    }

    /// The width of one value, for fixed-size types.
    pub fn fixed_size(&self) -> (r: Option<u16>)
        ensures
            r == column_width(*self),
    {
        match self {
            ColumnType::Integer32 => Some(4),
            ColumnType::Integer64 => Some(8),
            ColumnType::Float32 => Some(4),
            ColumnType::Float64 => Some(8),
            ColumnType::Utf8 => None,
            ColumnType::Timestamp => Some(8),
            ColumnType::Boolean => Some(1),
        }
    }
}

pub proof fn lemma_column_type_byte(t: ColumnType)
    ensures
        column_type_of(column_type_byte(t)) == Some(t),
{
}

} // verus!
