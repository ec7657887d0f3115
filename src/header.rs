//! The 128-byte file header at offset 0 of a database file.
use vstd::prelude::*;
use crate::codec::{get16, get32, get64, le16, le32, le64, lemma_le16, lemma_le32, lemma_le64};
use crate::codec::{push_bytes, push_u16, push_u32, push_u64};
use crate::error::FluxError;

verus! {

/// Bytes of the file header.
pub const HEADER_SIZE: usize = 128;

/// The header size recorded in the header itself.
pub const DB_HEADER_SIZE: u16 = 128;

/// The format version written by this engine.
pub const DB_VERSION: u32 = 1;

/// The header checksum is enabled and must be validated.
pub const FLAG_CHECKSUM_ENABLED: u16 = 1;

/// Pages are stored in columnar layout v1.
pub const FLAG_COLUMNAR_V1: u16 = 2;

/// Compression is enabled.
pub const FLAG_COMPRESSION: u16 = 4;

/// Reserved for future use.
pub const FLAG_RESERVED_1: u16 = 8;

/// Every defined flag bit.
pub const FLAG_ALL: u16 = 15;

/// The sixteen bytes that identify a database file.
pub open spec fn db_magic() -> Seq<u8> {
    seq![70u8, 76, 85, 88, 68, 66, 95, 70, 65, 83, 84, 86, 49, 0, 0, 0]
}

/// The CRC-32 (IEEE) checksum of `b`.
pub uninterp spec fn crc32_of(b: Seq<u8>) -> u32;

/// Relies on `crc32fast::hash`: the CRC-32 (IEEE) checksum of the bytes,
/// which depends on the bytes alone.
#[verifier::external_body]
fn crc32(bytes: &[u8]) -> (r: u32)
    ensures
        r == crc32_of(bytes@),
{
    crc32fast::hash(bytes)
}

/// Relies on `std::time::SystemTime::now`: seconds since the Unix epoch, or
/// 0 when the clock reads earlier than that.
#[verifier::external_body]
pub fn current_unix_time() -> (r: u64) {
    match std::time::SystemTime::now().duration_since(std::time::UNIX_EPOCH) {
        Ok(d) => d.as_secs(),
        Err(_) => 0,
    }
}

/// Feature flags of a database file; only the defined bits are kept.
#[derive(Debug, Clone, Copy, PartialEq, Eq, Structural)]
pub struct HeaderFlags {
    pub bits: u16,
}

impl HeaderFlags {
    pub open spec fn wf(&self) -> bool {
        self.bits <= FLAG_ALL
    }

    /// The flags whose bits are set in `bits`; undefined bits are dropped.
    pub fn from_bits_truncate(bits: u16) -> (r: HeaderFlags)
        ensures
            r.bits == bits & FLAG_ALL,
            r.wf(),
    {
        let r = HeaderFlags { bits: bits & FLAG_ALL };
        assert((bits & 15u16) <= 15u16) by (bit_vector);
        r
    }

    /// No flag set.
    pub fn empty() -> (r: HeaderFlags)
        ensures
            r.bits == 0,
    {
        HeaderFlags { bits: 0 }
    }

    /// The raw bits.
    pub fn bits(&self) -> (r: u16)
        ensures
            r == self.bits,
    {
        self.bits
    }

    /// Whether every bit of `other` is set here.
    pub fn contains(&self, other: HeaderFlags) -> (r: bool)
        ensures
            r == (self.bits & other.bits == other.bits),
    {
        self.bits & other.bits == other.bits
    }

    /// Whether the header checksum must be validated.
    pub fn checksum_enabled(&self) -> (r: bool)
        ensures
            r == (self.bits & FLAG_CHECKSUM_ENABLED == FLAG_CHECKSUM_ENABLED),
    {
        self.bits & FLAG_CHECKSUM_ENABLED == FLAG_CHECKSUM_ENABLED
    }
}

/// The file header.
#[derive(Debug, Clone, Copy)]
pub struct Header {
    pub magic: [u8; 16],
    pub header_size: u16,
    pub page_size: u16,
    pub db_version: u32,
    pub write_version: u8,
    pub read_version: u8,
    pub flags: HeaderFlags,
    pub created_at: u64,
    pub page_count: u64,
    pub checksum: u32,
    pub chunk_catalog_root_page_id: u32,
    pub reserved: [u8; 76],
}

/// The header's fields as plain values.
pub struct HeaderView {
    pub magic: Seq<u8>,
    pub header_size: u16,
    pub page_size: u16,
    pub db_version: u32,
    pub write_version: u8,
    pub read_version: u8,
    pub flags: u16,
    pub created_at: u64,
    pub page_count: u64,
    pub checksum: u32,
    pub chunk_catalog_root_page_id: u32,
    pub reserved: Seq<u8>,
}

impl View for Header {
    type V = HeaderView;

    open spec fn view(&self) -> HeaderView {
        HeaderView {
            magic: self.magic@,
            header_size: self.header_size,
            page_size: self.page_size,
            db_version: self.db_version,
            write_version: self.write_version,
            read_version: self.read_version,
            flags: self.flags.bits,
            created_at: self.created_at,
            page_count: self.page_count,
            checksum: self.checksum,
            chunk_catalog_root_page_id: self.chunk_catalog_root_page_id,
            reserved: self.reserved@,
        }
    }
}

/// Every field but the checksum, in file order: the bytes the checksum covers.
pub open spec fn header_body(h: HeaderView) -> Seq<u8> {
    h.magic + le16(h.header_size) + le16(h.page_size) + le32(h.db_version) + seq![
        h.write_version,
        h.read_version,
    ] + le16(h.flags) + le64(h.created_at) + le64(h.page_count) + le32(
        h.chunk_catalog_root_page_id,
    ) + h.reserved
}

/// The 128 header bytes as written: the checksum field holds the checksum
/// of the other fields, whatever `h.checksum` was.
pub open spec fn header_bytes(h: HeaderView) -> Seq<u8> {
    h.magic + le16(h.header_size) + le16(h.page_size) + le32(h.db_version) + seq![
        h.write_version,
        h.read_version,
    ] + le16(h.flags) + le64(h.created_at) + le64(h.page_count) + le32(crc32_of(header_body(h)))
        + le32(h.chunk_catalog_root_page_id) + h.reserved
}

/// The header fields that 128 bytes hold.
pub open spec fn header_fields(b: Seq<u8>) -> HeaderView {
    HeaderView {
        magic: b.subrange(0, 16),
        header_size: get16(b, 16),
        page_size: get16(b, 18),
        db_version: get32(b, 20),
        write_version: b[24],
        read_version: b[25],
        flags: get16(b, 26),
        created_at: get64(b, 28),
        page_count: get64(b, 36),
        checksum: get32(b, 44),
        chunk_catalog_root_page_id: get32(b, 48),
        reserved: b.subrange(52, 128),
    }
}

/// What reading a header from the start of `b` gives: too few bytes is an
/// I/O failure, a wrong magic or header size a format error, and with the
/// checksum flag set a stored checksum that differs from the computed one
/// an integrity error.
pub open spec fn parse_header(b: Seq<u8>) -> Result<HeaderView, FluxError> {
    if b.len() < 128 {
        Err(FluxError::IoError)
    } else {
        let h = header_fields(b);
        if h.magic != db_magic() || h.header_size != DB_HEADER_SIZE {
            Err(FluxError::FormatError)
        } else if h.flags & FLAG_CHECKSUM_ENABLED == FLAG_CHECKSUM_ENABLED && crc32_of(
            header_body(h),
        ) != h.checksum {
            Err(FluxError::IntegrityError)
        } else {
            Ok(h)
        }
    }
}

/// A header that this engine can write and read back.
pub open spec fn header_valid(h: HeaderView) -> bool {
    &&& h.magic == db_magic()
    &&& h.header_size == DB_HEADER_SIZE
    &&& h.reserved.len() == 76
}

/// The magic bytes, as a value.
fn magic_bytes() -> (r: [u8; 16])
    ensures
        r@ == db_magic(),
{
    let r: [u8; 16] = [70u8, 76, 85, 88, 68, 66, 95, 70, 65, 83, 84, 86, 49, 0, 0, 0];
    assert(r@ =~= db_magic());
    r
}

impl Header {
    /// The fields of a fresh header.
    pub open spec fn spec_new_at(page_size: u16, flags: HeaderFlags, created_at: u64) -> HeaderView {
        HeaderView {
            magic: db_magic(),
            header_size: DB_HEADER_SIZE,
            page_size,
            db_version: DB_VERSION,
            write_version: 1,
            read_version: 1,
            flags: flags.bits,
            created_at,
            page_count: 0,
            checksum: 0,
            chunk_catalog_root_page_id: 0,
            reserved: Seq::new(76, |i: int| 0u8),
        }
    }

    /// A fresh header: the magic, the current format, the given page size
    /// and flags, zeroed counters, created now.
    pub fn new(page_size: u16, flags: HeaderFlags) -> (r: Header)
        ensures
            r@ == Header::spec_new_at(page_size, flags, r.created_at),
    {
        Header::new_at(page_size, flags, current_unix_time())
    }

    /// A fresh header created at `created_at` (Unix seconds).
    pub fn new_at(page_size: u16, flags: HeaderFlags, created_at: u64) -> (r: Header)
        ensures
            r@ == Header::spec_new_at(page_size, flags, created_at),
    {
        let r = Header {
            magic: magic_bytes(),
            header_size: DB_HEADER_SIZE,
            page_size,
            db_version: DB_VERSION,
            write_version: 1,
            read_version: 1,
            flags,
            created_at,
            page_count: 0,
            checksum: 0,
            chunk_catalog_root_page_id: 0,
            reserved: [0u8; 76],
        };
        assert(r.reserved@ =~= Seq::new(76, |i: int| 0u8));
        r
    }

    /// Every field but the checksum, in file order.
    pub fn write_without_checksum(&self) -> (r: Vec<u8>)
        ensures
            r@ == header_body(self@),
    {
        let mut w: Vec<u8> = Vec::new();
        push_bytes(&mut w, self.magic.as_slice());
        push_u16(&mut w, self.header_size);
        push_u16(&mut w, self.page_size);
        push_u32(&mut w, self.db_version);
        w.push(self.write_version);
        w.push(self.read_version);
        push_u16(&mut w, self.flags.bits());
        push_u64(&mut w, self.created_at);
        push_u64(&mut w, self.page_count);
        push_u32(&mut w, self.chunk_catalog_root_page_id);
        push_bytes(&mut w, self.reserved.as_slice());
        assert(w@ =~= header_body(self@));
        w
    }

    /// The checksum of every field but the checksum itself.
    pub fn compute_checksum(&self) -> (r: u32)
        ensures
            r == crc32_of(header_body(self@)),
    {
        let body = self.write_without_checksum();
        crc32(body.as_slice())
    }

    /// The 128 header bytes, with a freshly computed checksum.
    pub fn to_bytes(&self) -> (r: Vec<u8>)
        ensures
            r@ == header_bytes(self@),
            r@.len() == HEADER_SIZE,
    {
        let checksum = self.compute_checksum();
        let mut w: Vec<u8> = Vec::new();
        push_bytes(&mut w, self.magic.as_slice());
        push_u16(&mut w, self.header_size);
        push_u16(&mut w, self.page_size);
        push_u32(&mut w, self.db_version);
        w.push(self.write_version);
        w.push(self.read_version);
        push_u16(&mut w, self.flags.bits());
        push_u64(&mut w, self.created_at);
        push_u64(&mut w, self.page_count);
        push_u32(&mut w, checksum);
        push_u32(&mut w, self.chunk_catalog_root_page_id);
        push_bytes(&mut w, self.reserved.as_slice());
        assert(w@ =~= header_bytes(self@));
        w
    }

    /// Overwrites the first 128 bytes of a file image with this header and a
    /// freshly computed checksum.
    pub fn write_to(&self, image: &mut Vec<u8>)
        requires
            old(image)@.len() >= HEADER_SIZE,
        ensures
            final(image)@ == header_bytes(self@) + old(image)@.subrange(
                128,
                old(image)@.len() as int,
            ),
    {
        let bytes = self.to_bytes();
        crate::codec::put_bytes(image, 0, bytes.as_slice());
        assert(final(image)@ =~= header_bytes(self@) + old(image)@.subrange(
            128,
            old(image)@.len() as int,
        ));
    }

    /// Reads and validates the header at the start of a file image.
    pub fn read_from(image: &[u8]) -> (r: Result<Header, FluxError>)
        ensures
            match r {
                Ok(h) => parse_header(image@) == Ok::<HeaderView, FluxError>(h@),
                Err(e) => parse_header(image@) == Err::<HeaderView, FluxError>(e),
            },
    {
        if image.len() < HEADER_SIZE {
            return Err(FluxError::IoError);
        }
        let mut magic = [0u8; 16];
        let mut i: usize = 0;
        while i < 16
            invariant
                0 <= i <= 16,
                image@.len() >= 128,
                forall|k: int| 0 <= k < i ==> magic@[k] == image@[k],
            decreases 16 - i,
        {
            magic[i] = image[i];
            i = i + 1;
        }
        assert(magic@ =~= image@.subrange(0, 16));
        let expected = magic_bytes();
        let mut same = true;
        let mut j: usize = 0;
        while j < 16
            invariant
                0 <= j <= 16,
                same <==> (forall|k: int| 0 <= k < j ==> magic@[k] == expected@[k]),
            decreases 16 - j,
        {
            if magic[j] != expected[j] {
                same = false;
            }
            j = j + 1;
        }
        if !same {
            assert(magic@ != db_magic());
            return Err(FluxError::FormatError);
        }
        assert(magic@ =~= db_magic());
        let header_size = crate::codec::read_u16(image, 16);
        if header_size != DB_HEADER_SIZE {
            return Err(FluxError::FormatError);
        }
        let mut reserved = [0u8; 76];
        let mut k: usize = 0;
        while k < 76
            invariant
                0 <= k <= 76,
                image@.len() >= 128,
                forall|m: int| 0 <= m < k ==> reserved@[m] == image@[52 + m],
            decreases 76 - k,
        {
            reserved[k] = image[52 + k];
            k = k + 1;
        }
        assert(reserved@ =~= image@.subrange(52, 128));
        let header = Header {
            magic,
            header_size,
            page_size: crate::codec::read_u16(image, 18),
            db_version: crate::codec::read_u32(image, 20),
            write_version: image[24],
            read_version: image[25],
            flags: HeaderFlags { bits: crate::codec::read_u16(image, 26) },
            created_at: crate::codec::read_u64(image, 28),
            page_count: crate::codec::read_u64(image, 36),
            checksum: crate::codec::read_u32(image, 44),
            chunk_catalog_root_page_id: crate::codec::read_u32(image, 48),
            reserved,
        };
        assert(header@ == header_fields(image@));
        if header.flags.checksum_enabled() {
            let computed = header.compute_checksum();
            if computed != header.checksum {
                return Err(FluxError::IntegrityError);
            }
        }
        Ok(header)
    }
}

/// Reading back a written header gives every field as it was, the checksum
/// replaced by the checksum of the other fields, which both the write and
/// the read compute.
pub proof fn lemma_header_round_trip(h: HeaderView)
    requires
        header_valid(h),
    ensures
        parse_header(header_bytes(h)) == Ok::<HeaderView, FluxError>(
            HeaderView { checksum: crc32_of(header_body(h)), ..h },
        ),
{
    let b = header_bytes(h);
    let c = crc32_of(header_body(h));
    lemma_le16(h.header_size);
    lemma_le16(h.page_size);
    lemma_le32(h.db_version);
    lemma_le16(h.flags);
    lemma_le64(h.created_at);
    lemma_le64(h.page_count);
    lemma_le32(c);
    lemma_le32(h.chunk_catalog_root_page_id);
    assert(b.subrange(0, 16) =~= h.magic);
    assert(b.subrange(28, 36) =~= le64(h.created_at));
    assert(b.subrange(36, 44) =~= le64(h.page_count));
    assert(b.subrange(52, 128) =~= h.reserved);
    let r = header_fields(b);
    assert(r.header_size == h.header_size);
    assert(r.page_size == h.page_size);
    assert(r.db_version == h.db_version);
    assert(r.flags == h.flags);
    assert(r.checksum == c);
    assert(r.chunk_catalog_root_page_id == h.chunk_catalog_root_page_id);
    assert(header_body(r) =~= header_body(h));
    assert(r == HeaderView { checksum: c, ..h });
}

} // verus!
