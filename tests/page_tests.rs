use storage::page::{Page, PageHeader, HEADER_LEN, PAGE_SIZE};
use storage::page_id::{PageFlags, PageId};
use storage::slot::Slot;
use std::collections::HashMap;

#[test]
fn page_id_creation_and_access() {
    let pid = PageId::new(42, 1337);
    assert_eq!(pid.file_id(), 42);
    assert_eq!(pid.page_no(), 1337);

    let min_pid = PageId::new(0, 0);
    assert_eq!(min_pid.file_id(), 0);
    assert_eq!(min_pid.page_no(), 0);

    let max_pid = PageId::new(u32::MAX, u32::MAX);
    assert_eq!(max_pid.file_id(), u32::MAX);
    assert_eq!(max_pid.page_no(), u32::MAX);
}

#[test]
fn page_id_comparison() {
    let pid1 = PageId::new(1, 100);
    let pid2 = PageId::new(1, 200);
    let pid3 = PageId::new(2, 50);

    assert!(pid1 < pid2);
    assert!(pid2 < pid3);
    assert!(pid1 < pid3);
    assert_eq!(pid1, PageId::new(1, 100));
}

#[test]
fn page_id_format() {
    let pid = PageId::new(5, 123);
    assert_eq!(pid.describe(), "PageId(5:123)");
}

#[test]
fn page_id_hash_and_collections() {
    let mut map = HashMap::new();
    let pid1 = PageId::new(1, 100);
    let pid2 = PageId::new(2, 200);

    map.insert(pid1, "value1");
    map.insert(pid2, "value2");

    assert_eq!(map.get(&pid1), Some(&"value1"));
    assert_eq!(map.get(&pid2), Some(&"value2"));
    assert_eq!(map.len(), 2);
}

#[test]
fn page_id_page_flags_values() {
    assert_eq!(PageFlags::Heap.bits(), 1);
    assert_eq!(PageFlags::Index.bits(), 2);
    assert_eq!(PageFlags::Meta.bits(), 4);

    assert_eq!(PageFlags::Heap.bits().count_ones(), 1);
    assert_eq!(PageFlags::Index.bits().count_ones(), 1);
    assert_eq!(PageFlags::Meta.bits().count_ones(), 1);
}

#[test]
fn page_id_parts_at_the_edges() {
    for (f, n) in [(0u32, u32::MAX), (u32::MAX, 0u32), (7, 7), (1 << 31, (1 << 31) + 1)] {
        let pid = PageId::new(f, n);
        assert_eq!(pid.file_id(), f);
        assert_eq!(pid.page_no(), n);
        assert_eq!(pid.0, ((f as u64) << 32) | n as u64);
    }
    assert_eq!(PageId::new(u32::MAX, u32::MAX).describe(), "PageId(4294967295:4294967295)");
    assert_eq!(PageId::new(0, 0).describe(), "PageId(0:0)");
}

#[test]
fn page_header_creation() {
    let pid = PageId::new(1, 42);
    let hdr = PageHeader::new(pid, PageFlags::Heap);

    assert_eq!(hdr.checksum, 0);
    assert_eq!(hdr.page_id, pid.0);
    assert_eq!(hdr.page_lsn, 0);
    assert_eq!(hdr.page_flags, PageFlags::Heap.bits());
    assert_eq!(hdr.lower, PageHeader::LEN as u16);
    assert_eq!(hdr.upper, PAGE_SIZE as u16);
    assert_eq!(hdr.reserved, [0u8; 6]);
}

#[test]
fn page_header_size() {
    assert_eq!(PageHeader::LEN, 32);
    assert_eq!(std::mem::size_of::<PageHeader>(), 32);
}

#[test]
fn page_header_flags() {
    let pid = PageId::new(1, 0);

    let heap_hdr = PageHeader::new(pid, PageFlags::Heap);
    assert_eq!(heap_hdr.page_flags, PageFlags::Heap.bits());

    let index_hdr = PageHeader::new(pid, PageFlags::Index);
    assert_eq!(index_hdr.page_flags, PageFlags::Index.bits());

    let meta_hdr = PageHeader::new(pid, PageFlags::Meta);
    assert_eq!(meta_hdr.page_flags, PageFlags::Meta.bits());
}

#[test]
fn page_header_space_pointers() {
    let pid = PageId::new(1, 0);
    let hdr = PageHeader::new(pid, PageFlags::Heap);

    assert_eq!(hdr.lower, 32);
    assert_eq!(hdr.upper, 8192);

    let free_space = hdr.upper - hdr.lower;
    assert_eq!(free_space, PAGE_SIZE as u16 - PageHeader::LEN as u16);
    assert_eq!(free_space, 8160);
}

#[test]
fn page_header_clone_copy() {
    let pid = PageId::new(5, 123);
    let original_hdr = PageHeader::new(pid, PageFlags::Index);

    let cloned_hdr = original_hdr.clone();
    let copied_hdr = original_hdr;

    assert_eq!(original_hdr.page_id, cloned_hdr.page_id);
    assert_eq!(original_hdr.page_flags, cloned_hdr.page_flags);
    assert_eq!(original_hdr.lower, cloned_hdr.lower);
    assert_eq!(original_hdr.upper, cloned_hdr.upper);

    assert_eq!(original_hdr.page_id, copied_hdr.page_id);
    assert_eq!(original_hdr.page_flags, copied_hdr.page_flags);
    assert_eq!(original_hdr.lower, copied_hdr.lower);
    assert_eq!(original_hdr.upper, copied_hdr.upper);
}

#[test]
fn page_creation() {
    let pid = PageId::new(3, 456);
    let pg = Page::new(pid, PageFlags::Heap);

    assert_eq!(pg.buf.len(), PAGE_SIZE);
    assert_eq!(pg.page_id(), pid);

    let hdr = pg.header();
    assert_eq!(hdr.page_id, pid.0);
    assert_eq!(hdr.page_flags, PageFlags::Heap.bits());
    assert!(pg.verify_checksum());
}

#[test]
fn page_header_serialization() {
    let pid = PageId::new(1, 100);
    let mut pg = Page::new(pid, PageFlags::Index);

    let mut hdr = pg.header();
    hdr.page_lsn = 12345;
    hdr.lower = 64;
    hdr.upper = 8000;
    hdr.reserved = [1, 2, 3, 4, 5, 6];

    pg.write_header(&hdr);
    let read_hdr = pg.header();

    assert_eq!(read_hdr.page_id, pid.0);
    assert_eq!(read_hdr.page_lsn, 12345);
    assert_eq!(read_hdr.page_flags, PageFlags::Index.bits());
    assert_eq!(read_hdr.lower, 64);
    assert_eq!(read_hdr.upper, 8000);
    assert_eq!(read_hdr.reserved, [1, 2, 3, 4, 5, 6]);
}

#[test]
fn page_header_byte_layout() {
    let pid = PageId::new(0x0102_0304, 0x0506_0708);
    let mut pg = Page::new(pid, PageFlags::Meta);
    pg.set_lsn(0x1122_3344_5566_7788);
    assert_eq!(&pg.buf[4..12], &[0x08, 0x07, 0x06, 0x05, 0x04, 0x03, 0x02, 0x01]);
    assert_eq!(&pg.buf[12..20], &[0x88, 0x77, 0x66, 0x55, 0x44, 0x33, 0x22, 0x11]);
    assert_eq!(&pg.buf[20..22], &[4, 0]);
    assert_eq!(&pg.buf[22..24], &[32, 0]);
    assert_eq!(&pg.buf[24..26], &[0x00, 0x20]);
}

#[test]
fn page_lsn_updates() {
    let pid = PageId::new(2, 200);
    let mut pg = Page::new(pid, PageFlags::Meta);

    pg.set_lsn(999);
    assert_eq!(pg.header().page_lsn, 999);

    pg.set_lsn(u64::MAX);
    assert_eq!(pg.header().page_lsn, u64::MAX);

    assert_eq!(pg.page_id(), pid);
    assert_eq!(pg.header().page_flags, PageFlags::Meta.bits());
}

#[test]
fn page_space_pointers() {
    let pid = PageId::new(1, 1);
    let mut pg = Page::new(pid, PageFlags::Heap);

    let initial_hdr = pg.header();
    assert_eq!(initial_hdr.lower, 32);
    assert_eq!(initial_hdr.upper, 8192);
    assert_eq!(pg.free_space(), 8160);

    pg.set_lower(100);
    pg.set_upper(8000);

    assert_eq!(pg.header().lower, 100);
    assert_eq!(pg.header().upper, 8000);
    assert_eq!(pg.free_space(), 7900);
}

#[test]
fn page_free_space_edge_cases() {
    let pid = PageId::new(1, 1);
    let mut pg = Page::new(pid, PageFlags::Heap);

    pg.set_lower(4000);
    pg.set_upper(4000);
    assert_eq!(pg.free_space(), 0);

    pg.set_lower(32);
    pg.set_upper(8192);
    assert_eq!(pg.free_space(), 8160);
}

#[test]
fn page_u16_operations() {
    let pid = PageId::new(1, 1);
    let mut pg = Page::new(pid, PageFlags::Heap);

    let test_cases = [(100, 0u16), (200, 65535u16), (300, 12345u16), (400, 256u16)];

    for (offset, value) in test_cases {
        pg.write_u16(offset, value);
        assert_eq!(pg.read_u16(offset), value);
    }
}

#[test]
fn page_checksum_verification() {
    let pid = PageId::new(5, 500);
    let mut pg = Page::new(pid, PageFlags::Heap);

    assert!(pg.verify_checksum());

    pg.buf[100] = 0xFF;
    assert!(!pg.verify_checksum());

    pg.recompute_checksum();
    assert!(pg.verify_checksum());

    pg.buf[0] = 0x00;
    assert!(!pg.verify_checksum());
}

#[test]
fn page_cloning() {
    let pid = PageId::new(7, 700);
    let mut original_pg = Page::new(pid, PageFlags::Index);

    original_pg.set_lsn(999);
    original_pg.buf[100] = 42;
    original_pg.recompute_checksum();

    let cloned_pg = original_pg.clone();
    assert_eq!(cloned_pg.buf, original_pg.buf);
    assert_eq!(cloned_pg.page_id(), original_pg.page_id());
    assert_eq!(cloned_pg.header().page_lsn, 999);
    assert_eq!(cloned_pg.buf[100], 42);

    let mut modified_clone = cloned_pg;
    modified_clone.buf[200] = 99;
    assert_eq!(original_pg.buf[200], 0);
    assert_eq!(modified_clone.buf[200], 99);
}

#[test]
fn fresh_page_verifies_with_full_free_space() {
    for flags in [PageFlags::Heap, PageFlags::Index, PageFlags::Meta] {
        let pg = Page::new(PageId::new(9, 9), flags);
        assert!(pg.verify_checksum());
        assert_eq!(pg.free_space(), PAGE_SIZE - HEADER_LEN);
    }
}

#[test]
fn header_rewrite_then_recompute_verifies() {
    let mut pg = Page::new(PageId::new(3, 3), PageFlags::Heap);
    let mut hdr = pg.header();
    hdr.page_lsn = 77;
    hdr.lower = 500;
    hdr.upper = 6000;
    pg.write_header(&hdr);
    assert!(!pg.verify_checksum());
    pg.recompute_checksum();
    assert!(pg.verify_checksum());
}

#[test]
fn checksum_is_crc32_of_the_body() {
    let mut pg = Page::new(PageId::new(4, 4), PageFlags::Heap);
    pg.buf[1000] = 0x5A;
    pg.recompute_checksum();
    let expected = crc32fast::hash(&pg.buf[4..PAGE_SIZE]);
    assert_eq!(&pg.buf[0..4], &expected.to_le_bytes());
    assert_ne!(expected, 0);
}

#[test]
fn single_bit_flips_are_detected() {
    let base = Page::new(PageId::new(2, 11), PageFlags::Heap);
    for offset in [4usize, 5, 11, 12, 25, 31, 32, 100, 4096, PAGE_SIZE - 1] {
        for bit in 0..8 {
            let mut pg = base.clone();
            pg.buf[offset] ^= 1 << bit;
            assert!(!pg.verify_checksum(), "flip at {} bit {}", offset, bit);
        }
    }
}

#[test]
fn slot_creation() {
    let slot = Slot::new(100, 50);
    assert_eq!(slot.off, 100);
    assert_eq!(slot.len, 50);
    assert_eq!(Slot::SIZE, 4);
    assert_eq!(std::mem::size_of::<Slot>(), 4);
}

#[test]
fn slot_tombstones() {
    let tombstone = Slot::tombstone(200);
    assert_eq!(tombstone.off, 200);
    assert_eq!(tombstone.len, 0);
    assert!(tombstone.is_tombstone());
    assert!(!tombstone.is_valid());

    let valid_slot = Slot::new(200, 25);
    assert!(!valid_slot.is_tombstone());
    assert!(valid_slot.is_valid());
}

#[test]
fn slot_validation() {
    let slot1 = Slot::new(0, 1);
    let slot2 = Slot::new(1000, u16::MAX);
    assert!(slot1.is_valid());
    assert!(slot2.is_valid());
    assert!(!slot1.is_tombstone());
    assert!(!slot2.is_tombstone());

    let slot3 = Slot::new(500, 0);
    let slot4 = Slot::tombstone(750);
    assert!(!slot3.is_valid());
    assert!(!slot4.is_valid());
    assert!(slot3.is_tombstone());
    assert!(slot4.is_tombstone());
}

#[test]
fn slot_equality_and_copy() {
    let slot1 = Slot::new(100, 50);
    let slot2 = Slot::new(100, 50);
    let slot3 = Slot::new(100, 51);
    let slot4 = Slot::new(101, 50);

    assert_eq!(slot1, slot2);
    assert_ne!(slot1, slot3);
    assert_ne!(slot1, slot4);

    let copied = slot1;
    let cloned = slot1.clone();
    assert_eq!(slot1, copied);
    assert_eq!(slot1, cloned);
}

#[test]
fn slot_boundary_values() {
    let max_slot = Slot::new(u16::MAX, u16::MAX);
    assert_eq!(max_slot.off, 65535);
    assert_eq!(max_slot.len, 65535);
    assert!(max_slot.is_valid());

    let zero_offset = Slot::new(0, 100);
    assert_eq!(zero_offset.off, 0);
    assert_eq!(zero_offset.len, 100);
    assert!(zero_offset.is_valid());

    let zero_length = Slot::new(100, 0);
    assert!(zero_length.is_tombstone());
    assert!(!zero_length.is_valid());
}
