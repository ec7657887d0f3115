//! The error kinds of the storage engine.
use vstd::prelude::*;

verus! {

/// What went wrong in an operation of the engine.
#[derive(Debug, Clone, Copy, PartialEq, Eq, Structural)]
pub enum FluxError {
    /// The bytes are not a database file: bad magic or header size.
    FormatError,
    /// The header checksum does not match the header bytes.
    IntegrityError,
    /// A read reached past the end of the file image.
    IoError,
    /// A record does not fit in the free space of a page.
    PageFull,
    /// Malformed on-disk data: an unknown tag, a record in the wrong place,
    /// a broken page chain, text that is not UTF-8, or an exhausted counter.
    InvalidData,
    /// No table has the requested name.
    NotFound,
}

impl FluxError {
    /// A short description of the error kind.
    pub fn message(&self) -> (r: &'static str) {
        match self {
            FluxError::FormatError => "not a database file",
            FluxError::IntegrityError => "header checksum mismatch",
            FluxError::IoError => "read past the end of the file",
            FluxError::PageFull => "not enough space on page",
            FluxError::InvalidData => "invalid data",
            FluxError::NotFound => "table not found",
        }
    }
}

} // verus!
