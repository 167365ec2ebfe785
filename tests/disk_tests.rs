use storage::disk::{file_name, DiskManager, MemDiskManager};
use storage::error::DiskError;
use storage::heap_page::HeapPage;
use storage::page::Page;
use storage::page_id::{PageFlags, PageId};

#[test]
fn page_write_read_round_trip() {
    let mut dm = MemDiskManager::new();

    let pid = dm.allocate_page(10).unwrap();
    let mut pg = Page::new(pid, PageFlags::Heap);
    pg.set_lsn(12345);
    pg.buf[100] = 0xAB;
    pg.buf[200] = 0xCD;
    pg.recompute_checksum();

    dm.write_page(&pg).unwrap();

    let read_pg = dm.read_page(pid).unwrap();
    assert_eq!(read_pg.page_id(), pid);
    assert_eq!(read_pg.header().page_lsn, 12345);
    assert_eq!(read_pg.buf[100], 0xAB);
    assert_eq!(read_pg.buf[200], 0xCD);
    assert!(read_pg.verify_checksum());
}

#[test]
fn checksum_verification() {
    let mut dm = MemDiskManager::new();

    let pid = dm.allocate_page(5).unwrap();
    let pg = Page::new(pid, PageFlags::Index);
    dm.write_page(&pg).unwrap();

    let read_pg = dm.read_page(pid).unwrap();
    assert!(read_pg.verify_checksum());

    let mut corrupted = read_pg.clone();
    corrupted.buf[100] = 0xFF;
    dm.write_page(&corrupted).unwrap();

    let result = dm.read_page(pid);
    assert!(result.is_err());

    let error = result.unwrap_err();
    let error_string = format!("{:?}", error);
    assert!(error_string.contains("checksum") || error_string.contains("Checksum"));
}

#[test]
fn multiple_pages_same_file() {
    let mut dm = MemDiskManager::new();

    let pid1 = dm.allocate_page(7).unwrap();
    let pid2 = dm.allocate_page(7).unwrap();
    let pid3 = dm.allocate_page(7).unwrap();

    let mut page1 = Page::new(pid1, PageFlags::Heap);
    let mut page2 = Page::new(pid2, PageFlags::Index);
    let mut page3 = Page::new(pid3, PageFlags::Meta);

    page1.buf[500] = 0x11;
    page2.buf[500] = 0x22;
    page3.buf[500] = 0x33;
    page1.recompute_checksum();
    page2.recompute_checksum();
    page3.recompute_checksum();

    dm.write_page(&page1).unwrap();
    dm.write_page(&page2).unwrap();
    dm.write_page(&page3).unwrap();

    let read3 = dm.read_page(pid3).unwrap();
    let read1 = dm.read_page(pid1).unwrap();
    let read2 = dm.read_page(pid2).unwrap();

    assert_eq!(read1.buf[500], 0x11);
    assert_eq!(read2.buf[500], 0x22);
    assert_eq!(read3.buf[500], 0x33);
    assert_eq!(read1.header().page_flags, PageFlags::Heap.bits());
    assert_eq!(read2.header().page_flags, PageFlags::Index.bits());
    assert_eq!(read3.header().page_flags, PageFlags::Meta.bits());
}

#[test]
fn disk_synchronization() {
    let mut dm = MemDiskManager::new();

    let pid = dm.allocate_page(99).unwrap();
    let pg = Page::new(pid, PageFlags::Heap);
    dm.write_page(&pg).unwrap();

    let _ = dm.sync();
    let _ = dm.sync();

    let read_pg = dm.read_page(pid).unwrap();
    assert_eq!(read_pg.page_id(), pid);
}

#[test]
fn file_path_generation() {
    assert_eq!(file_name(0), "base_0.db");
    assert_eq!(file_name(42), "base_42.db");
    assert_eq!(file_name(u32::MAX), "base_4294967295.db");
}

#[test]
fn error_handling() {
    let mut dm = MemDiskManager::new();

    let pid = PageId::new(999, 0);
    let result = dm.read_page(pid);
    assert!(result.is_err());

    dm.allocate_page(1).unwrap();
    let invalid_pid = PageId::new(1, 10);
    let result = dm.read_page(invalid_pid);
    assert!(result.is_err());
}

#[test]
fn large_numbers() {
    let mut dm = MemDiskManager::new();

    let pid = dm.allocate_page(1000000).unwrap();
    assert_eq!(pid.file_id(), 1000000);
    assert_eq!(pid.page_no(), 0);

    let page = Page::new(pid, PageFlags::Heap);
    dm.write_page(&page).unwrap();
    let read_page = dm.read_page(pid).unwrap();
    assert_eq!(read_page.page_id(), pid);
}

#[test]
fn page_allocation() {
    let mut dm = MemDiskManager::new();

    let pid1 = dm.allocate_page(1).unwrap();
    let pid2 = dm.allocate_page(1).unwrap();
    assert_eq!(pid1.file_id(), 1);
    assert_eq!(pid1.page_no(), 0);
    assert_eq!(pid2.file_id(), 1);
    assert_eq!(pid2.page_no(), 1);

    let pid3 = dm.allocate_page(2).unwrap();
    assert_eq!(pid3.file_id(), 2);
    assert_eq!(pid3.page_no(), 0);

    assert_eq!(dm.read_page(pid2).unwrap_err(), DiskError::Checksum(pid2));
    assert_eq!(dm.read_page(PageId::new(2, 1)).unwrap_err(), DiskError::Io);
}

#[test]
fn allocated_but_unwritten_page_fails_its_checksum() {
    let mut dm = MemDiskManager::new();
    let pid = dm.allocate_page(3).unwrap();
    assert_eq!(dm.read_page(pid).unwrap_err(), DiskError::Checksum(pid));
    assert_eq!(dm.read_page(PageId::new(3, 1)).unwrap_err(), DiskError::Io);
}

#[test]
fn write_then_read_returns_the_same_bytes() {
    let mut dm = MemDiskManager::new();
    let pid = dm.allocate_page(4).unwrap();
    let mut hp = HeapPage::new_empty(pid);
    hp.insert_tuple(b"round trip").unwrap();
    dm.write_page(&hp.page).unwrap();
    let back = dm.read_page(pid).unwrap();
    assert_eq!(back.buf, hp.page.buf);

    hp.insert_tuple(b"second version").unwrap();
    dm.write_page(&hp.page).unwrap();
    assert_eq!(dm.read_page(pid).unwrap().buf, hp.page.buf);
}

#[test]
fn checksum_catches_corruption() {
    let mut dm = MemDiskManager::new();
    let pid = dm.allocate_page(42).unwrap();
    let mut hp = HeapPage::new_empty(pid);
    hp.insert_tuple(b"abc").unwrap();
    dm.write_page(&hp.page).unwrap();

    let mut on_disk = dm.read_page(pid).unwrap();
    on_disk.buf[100] ^= 0xFF;
    dm.write_page(&on_disk).unwrap();
    assert_eq!(dm.read_page(pid).unwrap_err(), DiskError::Checksum(pid));
}

#[test]
fn end_to_end_storage_workflow() {
    let mut dm = MemDiskManager::new();

    let pid = dm.allocate_page(1).unwrap();
    let mut hp = HeapPage::new_empty(pid);

    let slot1 = hp.insert_tuple(b"user:john:age:25").unwrap();
    let slot2 = hp.insert_tuple(b"user:jane:age:30").unwrap();
    let slot3 = hp.insert_tuple(b"product:laptop:price:999.99").unwrap();

    dm.write_page(&hp.page).unwrap();

    let page = dm.read_page(pid).unwrap();
    let hp2 = HeapPage { page };

    assert_eq!(hp2.read_tuple(slot1).unwrap(), b"user:john:age:25");
    assert_eq!(hp2.read_tuple(slot2).unwrap(), b"user:jane:age:30");
    assert_eq!(
        hp2.read_tuple(slot3).unwrap(),
        b"product:laptop:price:999.99"
    );
}

#[test]
fn multiple_files_multiple_pages() {
    let mut dm = MemDiskManager::new();

    let file1_page1 = dm.allocate_page(1).unwrap();
    let file1_page2 = dm.allocate_page(1).unwrap();
    let file2_page1 = dm.allocate_page(2).unwrap();
    let file3_page1 = dm.allocate_page(3).unwrap();

    let mut hp1_1 = HeapPage::new_empty(file1_page1);
    let mut hp1_2 = HeapPage::new_empty(file1_page2);
    let mut hp2_1 = HeapPage::new_empty(file2_page1);
    let mut hp3_1 = HeapPage::new_empty(file3_page1);

    hp1_1.insert_tuple(b"file1_page1_data").unwrap();
    hp1_2.insert_tuple(b"file1_page2_data").unwrap();
    hp2_1.insert_tuple(b"file2_page1_data").unwrap();
    hp3_1.insert_tuple(b"file3_page1_data").unwrap();

    dm.write_page(&hp1_1.page).unwrap();
    dm.write_page(&hp1_2.page).unwrap();
    dm.write_page(&hp2_1.page).unwrap();
    dm.write_page(&hp3_1.page).unwrap();

    let read_hp3 = HeapPage { page: dm.read_page(file3_page1).unwrap() };
    let read_hp1_1 = HeapPage { page: dm.read_page(file1_page1).unwrap() };
    let read_hp2 = HeapPage { page: dm.read_page(file2_page1).unwrap() };
    let read_hp1_2 = HeapPage { page: dm.read_page(file1_page2).unwrap() };

    assert_eq!(read_hp1_1.read_tuple(0).unwrap(), b"file1_page1_data");
    assert_eq!(read_hp1_2.read_tuple(0).unwrap(), b"file1_page2_data");
    assert_eq!(read_hp2.read_tuple(0).unwrap(), b"file2_page1_data");
    assert_eq!(read_hp3.read_tuple(0).unwrap(), b"file3_page1_data");
}

#[test]
fn large_dataset_handling() {
    let mut dm = MemDiskManager::new();

    let mut pages = Vec::new();
    let mut all_slots = Vec::new();

    for page_num in 0..10 {
        let pid = dm.allocate_page(1).unwrap();
        let mut hp = HeapPage::new_empty(pid);
        let mut slots = Vec::new();

        for i in 0..100 {
            let data = format!("page_{}_tuple_{}_data_payload", page_num, i);
            if let Ok(slot) = hp.insert_tuple(data.as_bytes()) {
                slots.push((slot, data));
            }
        }

        dm.write_page(&hp.page).unwrap();
        pages.push(pid);
        all_slots.push(slots);
    }

    for (page_idx, pid) in pages.iter().enumerate() {
        let page = dm.read_page(*pid).unwrap();
        let hp = HeapPage { page };

        for (slot_no, expected_data) in &all_slots[page_idx] {
            let actual_data = hp.read_tuple(*slot_no).unwrap();
            assert_eq!(actual_data, expected_data.as_bytes());
        }
    }

    println!(
        "Successfully stored and verified {} pages with ~{} tuples each",
        pages.len(),
        all_slots[0].len()
    );
}

#[test]
fn database_recovery_simulation() {
    let original_data: &[&[u8]] = &[
        b"critical_user_data",
        b"important_transaction_log",
        b"essential_system_metadata",
    ];

    let mut dm = MemDiskManager::new();
    let pid;
    let mut slots = Vec::new();

    {
        pid = dm.allocate_page(1).unwrap();
        let mut hp = HeapPage::new_empty(pid);

        for data in original_data {
            slots.push(hp.insert_tuple(data).unwrap());
        }

        dm.write_page(&hp.page).unwrap();
        let _ = dm.sync();
    }

    {
        let page = dm.read_page(pid).unwrap();
        let hp = HeapPage { page };

        for (i, &slot) in slots.iter().enumerate() {
            let recovered_data = hp.read_tuple(slot).unwrap();
            assert_eq!(recovered_data, original_data[i]);
        }
    }
}

#[test]
fn simulated_concurrent_operations() {
    let mut dm = MemDiskManager::new();

    let mut operations = Vec::new();

    for i in 0..5 {
        let pid = dm.allocate_page(i + 1).unwrap();
        let mut hp = HeapPage::new_empty(pid);

        for j in 0..10 {
            let data = format!("page_{}_data_{}", i, j);
            let slot = hp.insert_tuple(data.as_bytes()).unwrap();
            operations.push((pid, slot, data));
        }

        dm.write_page(&hp.page).unwrap();
    }

    for (pid, slot, expected_data) in operations {
        let page = dm.read_page(pid).unwrap();
        let hp = HeapPage { page };
        let actual_data = hp.read_tuple(slot).unwrap();
        assert_eq!(actual_data, expected_data.as_bytes());
    }
}

#[test]
fn error_handling_integration() {
    let mut dm = MemDiskManager::new();

    let fake_pid = PageId::new(999, 999);
    assert!(dm.read_page(fake_pid).is_err());

    let real_pid = dm.allocate_page(1).unwrap();
    let mut hp = HeapPage::new_empty(real_pid);
    let slot = hp.insert_tuple(b"normal_data").unwrap();
    dm.write_page(&hp.page).unwrap();

    let read_page = dm.read_page(real_pid).unwrap();
    let read_hp = HeapPage { page: read_page };
    assert_eq!(read_hp.read_tuple(slot).unwrap(), b"normal_data");

    let mut full_hp = HeapPage::new_empty(real_pid);
    let large_data = vec![b'X'; 2000];

    while full_hp.page.free_space() > large_data.len() + 4 {
        if full_hp.insert_tuple(&large_data).is_err() {
            break;
        }
    }

    let very_large_data = vec![b'Y'; 8000];
    assert!(full_hp.insert_tuple(&very_large_data).is_err());
    assert!(full_hp.read_tuple(0).is_some());
}

#[test]
fn page_types_integration() {
    let mut dm = MemDiskManager::new();

    let heap_pid = dm.allocate_page(1).unwrap();
    let index_pid = dm.allocate_page(2).unwrap();
    let meta_pid = dm.allocate_page(3).unwrap();

    let heap_page = Page::new(heap_pid, PageFlags::Heap);
    let index_page = Page::new(index_pid, PageFlags::Index);
    let meta_page = Page::new(meta_pid, PageFlags::Meta);

    dm.write_page(&heap_page).unwrap();
    dm.write_page(&index_page).unwrap();
    dm.write_page(&meta_page).unwrap();

    let read_heap = dm.read_page(heap_pid).unwrap();
    let read_index = dm.read_page(index_pid).unwrap();
    let read_meta = dm.read_page(meta_pid).unwrap();

    assert_eq!(read_heap.header().page_flags, PageFlags::Heap.bits());
    assert_eq!(read_index.header().page_flags, PageFlags::Index.bits());
    assert_eq!(read_meta.header().page_flags, PageFlags::Meta.bits());
}

#[test]
fn resource_management() {
    let mut dm = MemDiskManager::new();

    for iteration in 0..10 {
        let pid = dm.allocate_page(iteration).unwrap();
        let hp = HeapPage::new_empty(pid);
        dm.write_page(&hp.page).unwrap();
        let _ = dm.sync();
    }

    for iteration in 0..10 {
        let pid = PageId::new(iteration, 0);
        let page = dm.read_page(pid).unwrap();
        assert!(page.verify_checksum());
    }
}
