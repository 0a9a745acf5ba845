use kernel_core::memory::{allocate, init, AreaFrameAllocator, Frame, FrameAllocator, MAX_FRAME};
use kernel_core::multiboot2::MemoryArea;

fn area(base_addr: u64, length: u64) -> MemoryArea {
    MemoryArea { base_addr, length, typ: 1 }
}

fn drain(allocator: &mut AreaFrameAllocator, limit: usize) -> Vec<u64> {
    let mut out = Vec::new();
    while out.len() < limit {
        match allocator.allocate_frame() {
            Some(f) => out.push(f.number),
            None => break,
        }
    }
    out
}

#[test]
fn allocation_skips_kernel_and_boot_info() {
    let mut allocator = AreaFrameAllocator::new(
        0x100000,
        0x200000,
        0x300000,
        0x300800,
        vec![area(0, 0x1000_0000)],
    );
    let frames = drain(&mut allocator, 1000);
    assert_eq!(frames[0], 0);
    assert!(frames.iter().all(|&f| !(256..=511).contains(&f)));
    assert!(!frames.contains(&768));
    let pos_255 = frames.iter().position(|&f| f == 255).unwrap();
    let pos_769 = frames.iter().position(|&f| f == 769).unwrap();
    assert!(pos_255 < pos_769);
    assert_eq!(frames[255], 255);
    assert_eq!(frames[256], 512);
    assert!(frames.contains(&767));
}

#[test]
fn frames_are_unique_and_increasing() {
    let mut allocator = AreaFrameAllocator::new(
        0x5000,
        0x7000,
        0x9000,
        0x9000,
        vec![area(0x10_0000, 0x4000), area(0, 0xC000), area(0x8000, 0x8000)],
    );
    let frames = drain(&mut allocator, 100);
    for w in frames.windows(2) {
        assert!(w[0] < w[1]);
    }
    // the kernel takes frames 5 and 6; an empty boot span takes none
    assert_eq!(frames, vec![0, 1, 2, 3, 4, 7, 8, 9, 10, 11, 12, 13, 14, 15, 0x100, 0x101, 0x102, 0x103]);
}

#[test]
fn frames_avoid_kernel_and_boot_info() {
    let mut allocator = AreaFrameAllocator::new(
        0x2000,
        0x3fff,
        0x6000,
        0x6100,
        vec![area(0, 0x10000)],
    );
    let frames = drain(&mut allocator, 100);
    for f in &frames {
        assert!(!(2..=3).contains(f));
        assert_ne!(*f, 6);
    }
    assert_eq!(frames.len(), 16 - 3);
}

#[test]
fn exhausted_allocator_stays_exhausted() {
    let mut allocator = AreaFrameAllocator::new(0, 0, 0, 0, vec![area(0x1000, 0x2000)]);
    assert_eq!(allocator.allocate_frame(), Some(Frame { number: 1 }));
    assert_eq!(allocator.allocate_frame(), Some(Frame { number: 2 }));
    assert_eq!(allocator.allocate_frame(), None);
    assert_eq!(allocator.allocate_frame(), None);
    assert_eq!(allocator.allocate_frame(), None);
}

#[test]
fn span_end_frame_is_free_when_aligned() {
    let mut allocator =
        AreaFrameAllocator::new(0x1000, 0x3000, 0x5000, 0x5001, vec![area(0, 0x8000)]);
    assert_eq!(drain(&mut allocator, 100), vec![0, 3, 4, 6, 7]);
}

#[test]
fn lowest_area_comes_first() {
    let allocator = AreaFrameAllocator::new(0, 0, 0, 0, vec![area(0x9000, 0x1000), area(0x3000, 0x2000)]);
    assert_eq!(allocator.current_area, Some(1));
    assert_eq!(allocator.next_free_frame, Frame { number: 3 });
    let none = AreaFrameAllocator::new(0, 0, 0, 0, vec![]);
    assert_eq!(none.current_area, None);
    assert_eq!(none.next_free_frame, Frame { number: 0 });
}

#[test]
fn no_areas_gives_nothing() {
    let mut allocator = AreaFrameAllocator::new(0, 0, 0, 0, vec![]);
    assert_eq!(allocator.allocate_frame(), None);
    let mut empty = AreaFrameAllocator::new(0, 0, 0, 0, vec![area(0x5000, 0)]);
    assert_eq!(empty.allocate_frame(), None);
}

#[test]
fn area_at_top_of_address_space() {
    let mut allocator =
        AreaFrameAllocator::new(0, 0, 0, 0, vec![area(u64::MAX - 0x1fff, u64::MAX)]);
    assert_eq!(allocator.allocate_frame(), Some(Frame { number: MAX_FRAME - 1 }));
    assert_eq!(allocator.allocate_frame(), Some(Frame { number: MAX_FRAME }));
    assert_eq!(allocator.allocate_frame(), None);
}

#[test]
fn deallocate_keeps_state() {
    let mut allocator = AreaFrameAllocator::new(0, 0, 0, 0, vec![area(0x1000, 0x3000)]);
    let f = allocator.allocate_frame().unwrap();
    allocator.deallocate_frame(f);
    assert_eq!(allocator.allocate_frame(), Some(Frame { number: 2 }));
}

#[test]
fn global_slot_allocation() {
    let mut slot: Option<AreaFrameAllocator> = None;
    assert_eq!(allocate(&mut slot), None);
    init(&mut slot, 0x1000, 0x2000, 0x3000, 0x3800, vec![area(0, 0x5000)]);
    assert_eq!(allocate(&mut slot), Some(Frame { number: 0 }));
    assert_eq!(allocate(&mut slot), Some(Frame { number: 2 }));
    assert_eq!(allocate(&mut slot), Some(Frame { number: 4 }));
    assert_eq!(allocate(&mut slot), None);
}

#[test]
fn frame_addresses() {
    assert_eq!(Frame::new(0x1fff).number, 1);
    assert_eq!(Frame::new(0x200000).address(), 0x200000);
    assert_eq!(Frame { number: 769 }.address(), 0x301000);
    assert_eq!(area(0x1000, 0x1000).last_address(), 0x1fff);
    assert_eq!(area(u64::MAX, 5).last_address(), u64::MAX);
}
