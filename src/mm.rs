use vstd::prelude::*;
use crate::memory::{Frame, FrameAllocator};
use crate::mm::entry::{PRESENT, WRITABLE, entry_for, entry_present};
use crate::mm::mapper::{
    Mapper, l1_address, l1_entry, translate_spec, translate_page_spec, walk_in_place,
    only_walk_changed, walk_edited, map_allocations, missing_tables,
};
use crate::mm::page::Page;
use crate::mm::table::{TableMemory, MapError};

pub mod entry;
pub mod page;
pub mod table;
pub mod mapper;

verus! {

/// First address of the higher half, where the kernel sees physical memory.
pub const KERNEL_BASE: u64 = 0xFFFF_8000_0000_0000;

/// A mapper over the page tables in `memory`.
pub fn init<M: TableMemory>(memory: M) -> (r: Mapper<M>)
    ensures
        r.memory == memory,
{
    Mapper::new(memory)
}

/// The physical address that `virt` maps to, if any.
pub fn virt_to_phys<M: TableMemory>(mapper: &Mapper<M>, virt: u64) -> (r: Option<u64>)
    requires
        mapper.memory.inv(),
    ensures
        match r {
            Some(p) => translate_spec(mapper.memory.tables(), virt) == Some(p as int),
            None => translate_spec(mapper.memory.tables(), virt) is None,
        },
{
    mapper.translate(virt)
}

/// Maps the page of `virt` to the frame of `phys`, present and writable.
pub fn map_to<M: TableMemory, A: FrameAllocator>(
    mapper: &mut Mapper<M>,
    allocator: &mut A,
    virt: u64,
    phys: u64,
) -> (r: Result<(), MapError>)
    requires
        old(mapper).memory.inv(),
        old(allocator).inv(),
        l1_entry(old(mapper).memory.tables(), virt / 4096) matches Some(e) ==> e.bits == 0,
    ensures
        final(mapper).memory.inv(),
        final(allocator).inv(),
        only_walk_changed(old(mapper).memory.tables(), final(mapper).memory.tables(), virt / 4096),
        r is Ok && walk_in_place(old(mapper).memory.tables(), virt / 4096) ==> walk_edited(
            old(mapper).memory.tables(),
            final(mapper).memory.tables(),
            virt / 4096,
        ),
        map_allocations(
            *old(allocator),
            *final(allocator),
            r is Ok,
            missing_tables(old(mapper).memory.tables(), virt / 4096),
            walk_in_place(old(mapper).memory.tables(), virt / 4096),
        ),
        r is Ok ==> final(mapper).memory.flushed() == old(mapper).memory.flushed().push(
            ((virt / 4096) * 4096) as u64,
        ),
        r is Err ==> final(mapper).memory.flushed() == old(mapper).memory.flushed(),
        l1_address(old(mapper).memory.tables(), virt / 4096) is Some ==> r is Ok,
        r is Ok && walk_in_place(old(mapper).memory.tables(), virt / 4096) ==> l1_entry(
            final(mapper).memory.tables(),
            virt / 4096,
        ) == Some(entry_for((phys / 4096) as u64, WRITABLE | PRESENT)),
        r is Ok && walk_in_place(old(mapper).memory.tables(), virt / 4096) && phys / 4096
            < 0x100_0000_0000 ==> translate_page_spec(final(mapper).memory.tables(), virt / 4096)
            == Some((phys / 4096) as int),
{
    proof {
        assert((PRESENT | WRITABLE) & 0x000F_FFFF_FFFF_F000u64 == 0) by (bit_vector);
        assert((PRESENT | WRITABLE) | PRESENT == WRITABLE | PRESENT) by (bit_vector);
    }
    mapper.map_to(allocator, Page::new(virt), Frame::new(phys), PRESENT | WRITABLE)
}

/// Maps the page of `virt` to the frame at the same address.
pub fn identity_map<M: TableMemory, A: FrameAllocator>(
    mapper: &mut Mapper<M>,
    allocator: &mut A,
    virt: u64,
) -> (r: Result<(), MapError>)
    requires
        old(mapper).memory.inv(),
        old(allocator).inv(),
        l1_entry(old(mapper).memory.tables(), virt / 4096) matches Some(e) ==> e.bits == 0,
    ensures
        final(mapper).memory.inv(),
        final(allocator).inv(),
        only_walk_changed(old(mapper).memory.tables(), final(mapper).memory.tables(), virt / 4096),
        r is Ok && walk_in_place(old(mapper).memory.tables(), virt / 4096) ==> walk_edited(
            old(mapper).memory.tables(),
            final(mapper).memory.tables(),
            virt / 4096,
        ),
        map_allocations(
            *old(allocator),
            *final(allocator),
            r is Ok,
            missing_tables(old(mapper).memory.tables(), virt / 4096),
            walk_in_place(old(mapper).memory.tables(), virt / 4096),
        ),
        r is Ok ==> final(mapper).memory.flushed() == old(mapper).memory.flushed().push(
            ((virt / 4096) * 4096) as u64,
        ),
        r is Err ==> final(mapper).memory.flushed() == old(mapper).memory.flushed(),
        r is Ok && walk_in_place(old(mapper).memory.tables(), virt / 4096) ==> l1_entry(
            final(mapper).memory.tables(),
            virt / 4096,
        ) == Some(entry_for((virt / 4096) as u64, WRITABLE | PRESENT)),
        l1_address(old(mapper).memory.tables(), virt / 4096) is Some ==> r is Ok,
        r is Ok && walk_in_place(old(mapper).memory.tables(), virt / 4096) && virt / 4096
            < 0x100_0000_0000 ==> translate_page_spec(final(mapper).memory.tables(), virt / 4096)
            == Some((virt / 4096) as int),
{
    map_to(mapper, allocator, virt, virt)
}

/// Maps the page of `virt` to a fresh frame from `allocator`.
pub fn map<M: TableMemory, A: FrameAllocator>(
    mapper: &mut Mapper<M>,
    allocator: &mut A,
    virt: u64,
) -> (r: Result<Frame, MapError>)
    requires
        old(mapper).memory.inv(),
        old(allocator).inv(),
        l1_entry(old(mapper).memory.tables(), virt / 4096) matches Some(e) ==> e.bits == 0,
    ensures
        final(mapper).memory.inv(),
        final(allocator).inv(),
        only_walk_changed(old(mapper).memory.tables(), final(mapper).memory.tables(), virt / 4096),
        exists|mid: A, first: Option<Frame>|
            {
                &&& #[trigger] A::allocation(*old(allocator), mid, first)
                &&& first is None ==> {
                    &&& r is Err
                    &&& *final(allocator) == mid
                    &&& final(mapper).memory.tables() == old(mapper).memory.tables()
                    &&& final(mapper).memory.flushed() == old(mapper).memory.flushed()
                }
                &&& first matches Some(f) ==> {
                    &&& r matches Ok(g) ==> g == f
                    &&& map_allocations(
                        mid,
                        *final(allocator),
                        r is Ok,
                        missing_tables(old(mapper).memory.tables(), virt / 4096),
                        walk_in_place(old(mapper).memory.tables(), virt / 4096),
                    )
                }
            },
        r is Ok && walk_in_place(old(mapper).memory.tables(), virt / 4096) ==> walk_edited(
            old(mapper).memory.tables(),
            final(mapper).memory.tables(),
            virt / 4096,
        ),
        r is Ok ==> final(mapper).memory.flushed() == old(mapper).memory.flushed().push(
            ((virt / 4096) * 4096) as u64,
        ),
        match r {
            Ok(f) => walk_in_place(old(mapper).memory.tables(), virt / 4096) ==> {
                &&& l1_entry(final(mapper).memory.tables(), virt / 4096) == Some(
                    entry_for(f.number, WRITABLE | PRESENT),
                )
                &&& f.number < 0x100_0000_0000 ==> translate_page_spec(
                    final(mapper).memory.tables(),
                    virt / 4096,
                ) == Some(f.number as int)
            },
            Err(e) => e == MapError::OutOfMemory,
        },
{
    let ghost before = *allocator;
    let frame = match allocator.allocate_frame() {
        Some(f) => f,
        None => {
            assert(A::allocation(before, *allocator, None));
            return Err(MapError::OutOfMemory);
        },
    };
    let ghost mid = *allocator;
    assert(A::allocation(before, mid, Some(frame)));
    proof {
        assert((PRESENT | WRITABLE) & 0x000F_FFFF_FFFF_F000u64 == 0) by (bit_vector);
        assert((PRESENT | WRITABLE) | PRESENT == WRITABLE | PRESENT) by (bit_vector);
    }
    match mapper.map_to(allocator, Page::new(virt), frame, PRESENT | WRITABLE) {
        Ok(()) => Ok(frame),
        Err(e) => Err(e),
    }
}

/// Removes the mapping of the page of `virt`.
pub fn unmap<M: TableMemory>(mapper: &mut Mapper<M>, virt: u64)
    requires
        old(mapper).memory.inv(),
        l1_entry(old(mapper).memory.tables(), virt / 4096) matches Some(e) && entry_present(e),
    ensures
        final(mapper).memory.inv(),
        translate_spec(final(mapper).memory.tables(), virt) is None,
{
    mapper.unmap(Page::new(virt));
}

/// The physical address behind a higher-half kernel address.
pub fn kern_to_phys(virt: u64) -> (r: u64)
    requires
        virt >= KERNEL_BASE,
    ensures
        r == virt - KERNEL_BASE,
{
    virt - KERNEL_BASE
}

/// The higher-half kernel address of a physical address.
pub fn phys_to_kern(phys: u64) -> (r: u64)
    requires
        phys <= u64::MAX - KERNEL_BASE,
    ensures
        r == phys + KERNEL_BASE,
{
    phys + KERNEL_BASE
}

} // verus!
