use fluxdb::error::FluxError;
use fluxdb::header::{
    current_unix_time, Header, HeaderFlags, FLAG_CHECKSUM_ENABLED, FLAG_COLUMNAR_V1, HEADER_SIZE,
};
use fluxdb::page::{ChunkDataHeader, HeapPageHeader, Page, PageHeader, Slot};
use fluxdb::record::Record;
use fluxdb::types::{PageType, RecordType};

fn checksum_flags() -> HeaderFlags {
    HeaderFlags::from_bits_truncate(FLAG_CHECKSUM_ENABLED | FLAG_COLUMNAR_V1)
}

#[test]
fn header_round_trip_recomputes_checksum() {
    let mut h = Header::new_at(4096, checksum_flags(), 1_700_000_000);
    h.page_count = 12;
    h.chunk_catalog_root_page_id = 3;
    let bytes = h.to_bytes();
    assert_eq!(bytes.len(), HEADER_SIZE);
    assert_eq!(&bytes[0..16], b"FLUXDB_FASTV1\0\0\0");
    let back = Header::read_from(&bytes).unwrap();
    assert_eq!(back.magic, h.magic);
    assert_eq!(back.page_size, 4096);
    assert_eq!(back.page_count, 12);
    assert_eq!(back.created_at, 1_700_000_000);
    assert_eq!(back.flags, h.flags);
    assert_eq!(back.chunk_catalog_root_page_id, 3);
    assert_eq!(back.checksum, h.compute_checksum());
    assert_eq!(back.to_bytes(), bytes);
}

#[test]
fn checksum_is_crc32_of_the_other_fields() {
    let h = Header::new_at(4096, checksum_flags(), 5);
    let body = h.write_without_checksum();
    assert_eq!(body.len(), 124);
    assert_eq!(h.compute_checksum(), crc32fast::hash(&body));
    assert_ne!(h.compute_checksum(), 0);
    let bytes = h.to_bytes();
    assert_eq!(&bytes[44..48], &h.compute_checksum().to_le_bytes());
}

#[test]
fn corrupted_magic_is_a_format_error() {
    let mut bytes = Header::new_at(4096, checksum_flags(), 5).to_bytes();
    bytes[0] = b'X';
    assert!(matches!(Header::read_from(&bytes), Err(FluxError::FormatError)));
}

#[test]
fn wrong_header_size_is_a_format_error() {
    let mut bytes = Header::new_at(4096, checksum_flags(), 5).to_bytes();
    bytes[16] = 64;
    assert!(matches!(Header::read_from(&bytes), Err(FluxError::FormatError)));
}

#[test]
fn checksum_mismatch_is_an_integrity_error_only_when_enabled() {
    let mut bytes = Header::new_at(4096, checksum_flags(), 5).to_bytes();
    bytes[30] ^= 0xFF;
    assert!(matches!(Header::read_from(&bytes), Err(FluxError::IntegrityError)));
    let mut plain = Header::new_at(4096, HeaderFlags::empty(), 5).to_bytes();
    plain[30] ^= 0xFF;
    assert!(Header::read_from(&plain).is_ok());
}

#[test]
fn short_header_is_an_io_error() {
    let bytes = Header::new_at(4096, checksum_flags(), 5).to_bytes();
    assert!(matches!(Header::read_from(&bytes[..100]), Err(FluxError::IoError)));
}

#[test]
fn header_new_and_clock() {
    let h = Header::new(8192, HeaderFlags::empty());
    assert_eq!(h.page_size, 8192);
    assert_eq!(h.header_size, 128);
    assert_eq!(h.page_count, 0);
    assert!(current_unix_time() > 1_600_000_000);
    assert!(HeaderFlags::from_bits_truncate(0xFFFF).bits() == 15);
    assert!(checksum_flags().checksum_enabled());
    assert!(checksum_flags().contains(HeaderFlags::from_bits_truncate(FLAG_COLUMNAR_V1)));
}

#[test]
fn page_header_and_sub_headers_round_trip() {
    let mut h = PageHeader::new(PageType::HeapPage, 9);
    h.next_page_id = 11;
    let mut buf = vec![0u8; 64];
    h.write_to(&mut buf);
    let back = PageHeader::read_from(&buf).unwrap();
    assert_eq!(back.page_type, PageType::HeapPage);
    assert_eq!(back.page_id, 9);
    assert_eq!(back.next_page_id, 11);
    assert!(matches!(PageHeader::read_from(&buf[..10]), Err(FluxError::InvalidData)));
    buf[0] = 0;
    assert!(matches!(PageHeader::read_from(&buf), Err(FluxError::InvalidData)));

    let hp = HeapPageHeader { slot_count: 2, free_start: 40, free_end: 100 };
    hp.write_to(&mut buf, 24);
    assert_eq!(HeapPageHeader::read_from(&buf, 24), hp);
    assert_eq!(HeapPageHeader::new(4096), HeapPageHeader { slot_count: 0, free_start: 30, free_end: 4096 });

    let mut ch = ChunkDataHeader::new(5, 2);
    ch.value_count = 17;
    ch.next_page_id = 8;
    ch.write_to(&mut buf, 24);
    assert_eq!(ChunkDataHeader::read_from(&buf, 24), ch);

    let s = Slot::new(30, 12);
    s.write_to(&mut buf, 60);
    assert_eq!(Slot::read_from(&buf, 60), s);
}

#[test]
fn new_page_layout() {
    let p = Page::new(4096, PageType::CatalogPage, 3);
    assert_eq!(p.buf.len(), 4096);
    assert_eq!(p.header.page_id, 3);
    assert_eq!(p.header.next_page_id, 0);
    assert_eq!(HeapPageHeader::read_from(&p.buf, 24), HeapPageHeader { slot_count: 0, free_start: 30, free_end: 4096 });
    assert!(p.iter_slots().is_empty());
    assert!(p.read_slot(0).is_none());
    let d = Page::new_chunk_data(4096, 4, 7, 2);
    assert_eq!(d.header.page_type, PageType::DataPage);
    assert_eq!(ChunkDataHeader::read_from(&d.buf, 24), ChunkDataHeader::new(7, 2));
}

#[test]
fn insert_and_read_records() {
    let mut p = Page::new(256, PageType::HeapPage, 1);
    assert_eq!(p.insert_record(b"hello"), Ok(0));
    assert_eq!(p.insert_record(b""), Ok(1));
    assert_eq!(p.insert_record(b"world!"), Ok(2));
    assert_eq!(p.read_record(0), Some(&b"hello"[..]));
    assert_eq!(p.read_record(1), Some(&b""[..]));
    assert_eq!(p.read_record(2), Some(&b"world!"[..]));
    assert_eq!(p.read_record(3), None);
    assert_eq!(p.read_slot(0), Some(Slot::new(30, 5)));
    assert_eq!(p.read_slot(2), Some(Slot::new(35, 6)));
    let slots = p.iter_slots();
    assert_eq!(slots, vec![(0, Slot::new(30, 5)), (1, Slot::new(35, 0)), (2, Slot::new(35, 6))]);
    let layout = HeapPageHeader::read_from(&p.buf, 24);
    assert_eq!(layout, HeapPageHeader { slot_count: 3, free_start: 41, free_end: 256 - 12 });
    assert_eq!(&p.buf[252..256], &[30, 0, 5, 0]);
}

#[test]
fn free_space_invariant_holds_until_page_full() {
    let mut p = Page::new(512, PageType::HeapPage, 1);
    let mut n: u16 = 0;
    loop {
        let rec = vec![n as u8; (n as usize % 13) + 1];
        match p.insert_record(&rec) {
            Ok(id) => {
                assert_eq!(id, n);
                n += 1;
            }
            Err(e) => {
                assert_eq!(e, FluxError::PageFull);
                break;
            }
        }
        let l = HeapPageHeader::read_from(&p.buf, 24);
        assert!(l.free_start <= l.free_end);
        assert_eq!(l.slot_count as usize * 4, 512 - l.free_end as usize);
    }
    let before = p.buf.clone();
    assert_eq!(p.insert_record(&vec![0u8; 500]), Err(FluxError::PageFull));
    assert_eq!(p.buf, before);
    for i in 0..n {
        assert_eq!(p.read_record(i).unwrap(), &vec![i as u8; (i as usize % 13) + 1][..]);
    }
}

#[test]
fn record_exactly_filling_the_page_fits() {
    let mut p = Page::new(64, PageType::HeapPage, 1);
    assert_eq!(p.insert_record(&[7u8; 30]), Ok(0));
    let l = HeapPageHeader::read_from(&p.buf, 24);
    assert_eq!(l.free_start, l.free_end);
    assert_eq!(p.insert_record(&[]), Err(FluxError::PageFull));
}

#[test]
fn insert_into_data_page_or_broken_layout_is_invalid() {
    let mut d = Page::new_chunk_data(256, 2, 1, 0);
    assert_eq!(d.insert_record(b"x"), Err(FluxError::InvalidData));
    let mut p = Page::new(256, PageType::HeapPage, 1);
    p.buf[26] = 200;
    p.buf[28] = 100;
    assert_eq!(p.insert_record(b"x"), Err(FluxError::InvalidData));
}

#[test]
fn typed_insert_tags_the_record() {
    let mut p = Page::new(256, PageType::CatalogPage, 0);
    let t = fluxdb::schema::TableMeta { table_id: 3, name: "t".into() };
    assert_eq!(p.insert_typed_record(&t), Ok(0));
    let rec = Record::decode(p.read_record(0).unwrap()).unwrap();
    assert_eq!(rec.record_type, RecordType::CatalogTable);
    assert_eq!(rec.payload, &[3, 0, 0, 0, b't']);
}

#[test]
fn from_buffer_and_link() {
    let mut p = Page::new(128, PageType::HeapPage, 5);
    p.set_next_page_id(9);
    let q = Page::from_buffer(p.buf.clone()).unwrap();
    assert_eq!(q.header.next_page_id, 9);
    assert_eq!(q.header.page_id, 5);
    assert!(matches!(Page::from_buffer(vec![0u8; 10]), Err(FluxError::InvalidData)));
}

#[test]
fn undefined_flag_bits_are_kept_and_covered_by_the_checksum() {
    let h = Header::new_at(4096, HeaderFlags { bits: 0x8001 }, 5);
    let bytes = h.to_bytes();
    let mut body = bytes[0..44].to_vec();
    body.extend_from_slice(&bytes[48..128]);
    assert_eq!(&bytes[44..48], &crc32fast::hash(&body).to_le_bytes());
    let back = Header::read_from(&bytes).unwrap();
    assert_eq!(back.flags.bits(), 0x8001);
    let mut flipped = bytes.clone();
    flipped[27] ^= 0x40;
    assert!(matches!(Header::read_from(&flipped), Err(FluxError::IntegrityError)));
}

#[test]
fn fresh_pages_are_zero_past_their_headers() {
    let p = Page::new(30, PageType::HeapPage, 1);
    assert_eq!(p.buf.len(), 30);
    let p = Page::new(300, PageType::CatalogPage, 2);
    assert!(p.buf[30..].iter().all(|b| *b == 0));
    assert!(p.header.reserved.iter().all(|b| *b == 0));
    let d = Page::new_chunk_data(300, 3, 9, 1);
    assert!(d.buf[38..].iter().all(|b| *b == 0));
    assert_eq!(&d.buf[9..24], &[0u8; 15]);
}
