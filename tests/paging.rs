use kernel_core::memory::{AreaFrameAllocator, Frame};
use kernel_core::mm::entry::{Entry, HUGE_PAGE, PRESENT, WRITABLE};
use kernel_core::mm::mapper::{Mapper, P4};
use kernel_core::mm::page::Page;
use kernel_core::mm::table::{MapError, Table, TableMemory, TableStore};
use kernel_core::mm::{identity_map, kern_to_phys, map_to, phys_to_kern, unmap, virt_to_phys};
use kernel_core::multiboot2::MemoryArea;

fn present(frame: u64, flags: u64) -> Entry {
    let mut e = Entry::new();
    e.set(Frame { number: frame }, flags);
    e
}

/// Page tables with the recursive entry in place.
fn recursive_tables() -> Mapper<TableStore> {
    let mut store = TableStore::new();
    store.write_entry(P4, 511, present(0x50, PRESENT | WRITABLE));
    kernel_core::mm::init(store)
}

fn frames_from(base: u64, length: u64) -> AreaFrameAllocator {
    AreaFrameAllocator::new(0, 0, 0, 0, vec![MemoryArea { base_addr: base, length, typ: 1 }])
}

#[test]
fn recursive_mapping_addresses() {
    let mut store = TableStore::new();
    store.write_entry(P4, 3, present(0x60, PRESENT | WRITABLE));
    let p4 = Table { addr: P4, level: 4 };
    let l3 = p4.next_table(&store, 3).unwrap();
    assert_eq!(l3.addr, 0xFFFF_FFFF_FFE0_3000);
    assert_eq!(l3.level, 3);
    store.write_entry(l3.addr, 5, present(0x61, PRESENT | WRITABLE));
    assert_eq!(l3.next_table_address(&store, 5), Some(0xFFFF_FFFF_C060_5000));
    assert_eq!(p4.next_table_address(&store, 4), None);
}

#[test]
fn huge_entry_has_no_next_table() {
    let mut store = TableStore::new();
    store.write_entry(P4, 7, present(0x60, PRESENT | HUGE_PAGE));
    let p4 = Table { addr: P4, level: 4 };
    assert_eq!(p4.next_table_address(&store, 7), None);
}

#[test]
fn map_translate_unmap_round_trip() {
    let mut mapper = recursive_tables();
    let mut allocator = frames_from(0x1000_0000, 0x10_0000);
    map_to(&mut mapper, &mut allocator, 0xFFFF_FFF8_0000_0000, 0x200000).unwrap();
    assert_eq!(virt_to_phys(&mapper, 0xFFFF_FFF8_0000_0010), Some(0x200010));
    unmap(&mut mapper, 0xFFFF_FFF8_0000_0000);
    assert_eq!(virt_to_phys(&mapper, 0xFFFF_FFF8_0000_0010), None);
    assert_eq!(virt_to_phys(&mapper, 0xFFFF_FFF8_0000_0000), None);
}

#[test]
fn mapped_page_translates_every_offset() {
    let mut mapper = recursive_tables();
    let mut allocator = frames_from(0x1000_0000, 0x10_0000);
    let virt: u64 = 0x0000_1234_5678_9000;
    map_to(&mut mapper, &mut allocator, virt, 0x0003_4567_8000).unwrap();
    for k in [0u64, 1, 0x10, 0x7ff, 0xfff] {
        assert_eq!(mapper.translate(virt + k), Some(0x0003_4567_8000 + k));
    }
    assert_eq!(mapper.translate(virt + 0x1000), None);
    assert_eq!(
        mapper.translate_page(Page::new(virt)),
        Some(Frame { number: 0x0003_4567_8000 / 4096 })
    );
    let e = mapper.l1_entry(Page::new(virt)).unwrap();
    assert_eq!(e.raw(), 0x0003_4567_8000 | PRESENT | WRITABLE);
    assert!(e.contains(PRESENT | WRITABLE));
}

#[test]
fn map_takes_three_table_frames_then_reuses() {
    let mut mapper = recursive_tables();
    let mut allocator = frames_from(0x1000_0000, 0x10_0000);
    map_to(&mut mapper, &mut allocator, 0x40_0000, 0x9000).unwrap();
    // three tables were created from the first three frames
    assert_eq!(allocator.next_free_frame.number, 0x10003);
    map_to(&mut mapper, &mut allocator, 0x40_1000, 0xA000).unwrap();
    assert_eq!(allocator.next_free_frame.number, 0x10003);
    assert_eq!(virt_to_phys(&mapper, 0x40_1abc), Some(0xAabc));
    assert_eq!(virt_to_phys(&mapper, 0x40_0abc), Some(0x9abc));
}

#[test]
fn unmap_leaves_neighbours() {
    let mut mapper = recursive_tables();
    let mut allocator = frames_from(0x1000_0000, 0x10_0000);
    map_to(&mut mapper, &mut allocator, 0x40_0000, 0x9000).unwrap();
    map_to(&mut mapper, &mut allocator, 0x40_1000, 0xA000).unwrap();
    unmap(&mut mapper, 0x40_0000);
    assert_eq!(virt_to_phys(&mapper, 0x40_0000), None);
    assert_eq!(virt_to_phys(&mapper, 0x40_1000), Some(0xA000));
    assert!(mapper.l1_entry(Page::new(0x40_0000)).unwrap().is_unused());
}

#[test]
fn huge_two_mib_page_translates() {
    let mut store = TableStore::new();
    let start: u64 = 0x4000_0000 / 4096;
    let page = Page::new(0x4000_0000);
    store.write_entry(P4, page.p4_index(), present(0x60, PRESENT | WRITABLE));
    let l3 = 0xFFFF_FFFF_FFE0_0000 | ((page.p4_index() as u64) << 12);
    store.write_entry(l3, page.p3_index(), present(0x61, PRESENT | WRITABLE));
    let l2 = (l3 << 9) | ((page.p3_index() as u64) << 12);
    store.write_entry(l2, page.p2_index(), present(start, PRESENT | WRITABLE | HUGE_PAGE));
    let mapper = Mapper::new(store);
    for i in [0u64, 1, 255, 511] {
        for k in [0u64, 0x123, 0xfff] {
            let addr = 0x4000_0000 + i * 4096 + k;
            assert_eq!(mapper.translate(addr), Some(addr));
        }
    }
    assert_eq!(mapper.translate(0x4000_0000 + 512 * 4096), None);
}

#[test]
fn huge_one_gib_page_translates() {
    let mut store = TableStore::new();
    store.write_entry(P4, 0, present(0x60, PRESENT | WRITABLE));
    let l3 = 0xFFFF_FFFF_FFE0_0000;
    store.write_entry(l3, 1, present(0x8_0000, PRESENT | HUGE_PAGE));
    let mapper = Mapper::new(store);
    assert_eq!(mapper.translate(0x4000_0000 + 0x12_3456), Some(0x8000_0000 + 0x12_3456));
}

#[test]
fn out_of_memory_is_reported() {
    let mut mapper = recursive_tables();
    let mut allocator = frames_from(0x1000_0000, 0x2000);
    assert_eq!(
        map_to(&mut mapper, &mut allocator, 0x40_0000, 0x9000),
        Err(MapError::OutOfMemory)
    );
    assert_eq!(virt_to_phys(&mapper, 0x40_0000), None);
}

#[test]
fn map_and_identity_map() {
    let mut mapper = recursive_tables();
    let mut allocator = frames_from(0x1000_0000, 0x10_0000);
    identity_map(&mut mapper, &mut allocator, 0xb8000).unwrap();
    assert_eq!(virt_to_phys(&mapper, 0xb8123), Some(0xb8123));
    let f = kernel_core::mm::map(&mut mapper, &mut allocator, 0x7000_0000).unwrap();
    assert_eq!(f.number, 0x10003);
    assert_eq!(virt_to_phys(&mapper, 0x7000_0042), Some(f.number * 4096 + 0x42));
}

#[test]
fn page_indices() {
    let page = Page::new(0xFFFF_FFF8_0000_0000);
    assert_eq!(page.p4_index(), 511);
    assert_eq!(page.p3_index(), 480);
    assert_eq!(page.p2_index(), 0);
    assert_eq!(page.p1_index(), 0);
    let page = Page::new(0x0000_0080_4020_1000);
    assert_eq!(page.p4_index(), 1);
    assert_eq!(page.p3_index(), 1);
    assert_eq!(page.p2_index(), 1);
    assert_eq!(page.p1_index(), 1);
    assert_eq!(page.address(), 0x0000_0080_4020_1000);
}

#[test]
fn entry_bits() {
    let mut e = present(0x200, PRESENT | WRITABLE);
    assert_eq!(e.raw(), 0x200003);
    assert_eq!(e.frame(), Some(Frame { number: 0x200 }));
    assert!(!e.is_unused());
    e.clear();
    assert!(e.is_unused());
    assert_eq!(e.frame(), None);
}

#[test]
fn table_clear_zeroes_entries() {
    let mut store = TableStore::new();
    store.write_entry(0x5000, 0, present(1, PRESENT));
    store.write_entry(0x5000, 511, present(2, PRESENT));
    let t = Table { addr: 0x5000, level: 1 };
    t.clear(&mut store);
    assert!(store.read_entry(0x5000, 0).is_unused());
    assert!(store.read_entry(0x5000, 511).is_unused());
}

#[test]
fn next_table_create_allocates_once() {
    let mut store = TableStore::new();
    let mut allocator = frames_from(0x1000_0000, 0x10_0000);
    let p4 = Table { addr: P4, level: 4 };
    let t = p4.next_table_create(&mut store, &mut allocator, 2).unwrap();
    assert_eq!(t.addr, 0xFFFF_FFFF_FFE0_2000);
    assert_eq!(store.read_entry(P4, 2).raw(), 0x1000_0000 | PRESENT | WRITABLE);
    let again = p4.next_table_create(&mut store, &mut allocator, 2).unwrap();
    assert_eq!(again, t);
    assert_eq!(allocator.next_free_frame.number, 0x10001);
}

#[test]
fn higher_half_conversions() {
    assert_eq!(phys_to_kern(0x1000), 0xFFFF_8000_0000_1000);
    assert_eq!(kern_to_phys(0xFFFF_8000_0010_0000), 0x10_0000);
}
