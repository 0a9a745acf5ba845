use vstd::prelude::*;
use crate::memory::{Frame, FrameAllocator, MAX_FRAME, is_allocation_chain};
use crate::mm::entry::{
    Entry, PRESENT, WRITABLE, HUGE_PAGE, ADDRESS_MASK, entry_present, entry_huge, entry_frame, entry_for,
    is_flag_set, lemma_entry_for,
};
use crate::mm::page::{Page, p4_of, p3_of, p2_of, p1_of};
use crate::mm::table::{
    Table, TableMemory, MapError, table_of, with_entry, next_address, child_address,
    unused_table,
};

verus! {

/// Virtual address of the active level-4 table: its last entry points back
/// at the table itself.
pub const P4: u64 = 0xFFFF_FFFF_FFFF_F000;

/// Index of the level-4 entry that maps the page tables themselves.
pub const RECURSIVE_INDEX: u64 = 511;

/// Address of the level-3 table on the way to page number `n`.
pub open spec fn l3_address(m: Map<u64, Seq<Entry>>, n: u64) -> Option<u64> {
    next_address(m, P4, p4_of(n))
}

/// Address of the level-2 table on the way to page number `n`.
pub open spec fn l2_address(m: Map<u64, Seq<Entry>>, n: u64) -> Option<u64> {
    match l3_address(m, n) {
        Some(a3) => next_address(m, a3, p3_of(n)),
        None => None,
    }
}

/// Address of the level-1 table on the way to page number `n`.
pub open spec fn l1_address(m: Map<u64, Seq<Entry>>, n: u64) -> Option<u64> {
    match l2_address(m, n) {
        Some(a2) => next_address(m, a2, p2_of(n)),
        None => None,
    }
}

/// The level-1 entry of page number `n`, where a level-1 table is reached.
pub open spec fn l1_entry(m: Map<u64, Seq<Entry>>, n: u64) -> Option<Entry> {
    match l1_address(m, n) {
        Some(a1) => Some(table_of(m, a1)[p1_of(n) as int]),
        None => None,
    }
}

/// The frame that page number `n` maps to: through a 1 GiB page at level
/// 3, a 2 MiB page at level 2, or a present level-1 entry.
pub open spec fn translate_page_spec(m: Map<u64, Seq<Entry>>, n: u64) -> Option<int> {
    match l3_address(m, n) {
        None => None,
        Some(a3) => {
            let e3 = table_of(m, a3)[p3_of(n) as int];
            if entry_present(e3) && entry_huge(e3) {
                Some(entry_frame(e3) + p2_of(n) * 512 + p1_of(n))
            } else {
                match next_address(m, a3, p3_of(n)) {
                    None => None,
                    Some(a2) => {
                        let e2 = table_of(m, a2)[p2_of(n) as int];
                        if entry_present(e2) && entry_huge(e2) {
                            Some(entry_frame(e2) + p1_of(n))
                        } else {
                            match next_address(m, a2, p2_of(n)) {
                                None => None,
                                Some(a1) => {
                                    let e1 = table_of(m, a1)[p1_of(n) as int];
                                    if entry_present(e1) {
                                        Some(entry_frame(e1) as int)
                                    } else {
                                        None
                                    }
                                },
                            }
                        }
                    },
                }
            }
        },
    }
}

/// The physical address that virtual address `v` maps to.
pub open spec fn translate_spec(m: Map<u64, Seq<Entry>>, v: u64) -> Option<int> {
    match translate_page_spec(m, v / 4096) {
        Some(f) => Some(f * 4096 + v % 4096),
        None => None,
    }
}

/// A frame number read from an entry fits in 40 bits.
proof fn lemma_entry_frame_bound(e: Entry)
    ensures
        entry_frame(e) < 0x100_0000_0000,
{
    let b = e.bits;
    assert((b & 0x000F_FFFF_FFFF_F000u64) >> 12u64 < 0x100_0000_0000u64) by (bit_vector);
}

/// Edits the page tables of the running system through the recursive mapping.
pub struct Mapper<M: TableMemory> {
    pub memory: M,
}

impl<M: TableMemory> Mapper<M> {
    /// A mapper over the tables in `memory`.
    pub fn new(memory: M) -> (r: Mapper<M>)
        ensures
            r.memory == memory,
    {
        Mapper { memory }
    }

    /// The active level-4 table.
    pub fn p4(&self) -> (r: Table)
        ensures
            r == (Table { addr: P4, level: 4 }),
    {
        Table { addr: P4, level: 4 }
    }

    /// The frame that `page` maps to, if any.
    pub fn translate_page(&self, page: Page) -> (r: Option<Frame>)
        requires
            self.memory.inv(),
        ensures
            match r {
                Some(f) => translate_page_spec(self.memory.tables(), page.number) == Some(
                    f.number as int,
                ),
                None => translate_page_spec(self.memory.tables(), page.number) is None,
            },
    {
        let n = page.number;
        let i3 = page.p3_index();
        let i2 = page.p2_index();
        let i1 = page.p1_index();
        let p3 = match self.p4().next_table(&self.memory, page.p4_index()) {
            Some(t) => t,
            None => return None,
        };
        let e3 = self.memory.read_entry(p3.addr, i3);
        if e3.bits & PRESENT != 0 && e3.bits & HUGE_PAGE != 0 {
            proof {
                lemma_entry_frame_bound(e3);
            }
            let start = (e3.bits & ADDRESS_MASK) >> 12;
            return Some(Frame { number: start + (i2 as u64) * 512 + i1 as u64 });
        }
        let p2 = match p3.next_table(&self.memory, i3) {
            Some(t) => t,
            None => return None,
        };
        let e2 = self.memory.read_entry(p2.addr, i2);
        if e2.bits & PRESENT != 0 && e2.bits & HUGE_PAGE != 0 {
            proof {
                lemma_entry_frame_bound(e2);
            }
            let start = (e2.bits & ADDRESS_MASK) >> 12;
            return Some(Frame { number: start + i1 as u64 });
        }
        let p1 = match p2.next_table(&self.memory, i2) {
            Some(t) => t,
            None => return None,
        };
        self.memory.read_entry(p1.addr, i1).frame()
    }

    /// The physical address that `virt_addr` maps to, if any.
    pub fn translate(&self, virt_addr: u64) -> (r: Option<u64>)
        requires
            self.memory.inv(),
        ensures
            match r {
                Some(p) => translate_spec(self.memory.tables(), virt_addr) == Some(p as int),
                None => translate_spec(self.memory.tables(), virt_addr) is None,
            },
    {
        let offset = virt_addr % 4096;
        match self.translate_page(Page::new(virt_addr)) {
            Some(frame) => {
                proof {
                    lemma_translated_frame_bound(self.memory.tables(), virt_addr / 4096);
                }
                Some(frame.number * 4096 + offset)
            },
            None => None,
        }
    }
}

impl<M: TableMemory> Mapper<M> {
    /// The level-1 entry of `page`, where the walk reaches a level-1 table.
    pub fn l1_entry(&self, page: Page) -> (r: Option<Entry>)
        requires
            self.memory.inv(),
        ensures
            r == l1_entry(self.memory.tables(), page.number),
    {
        let p3 = match self.p4().next_table(&self.memory, page.p4_index()) {
            Some(t) => t,
            None => return None,
        };
        let p2 = match p3.next_table(&self.memory, page.p3_index()) {
            Some(t) => t,
            None => return None,
        };
        let p1 = match p2.next_table(&self.memory, page.p2_index()) {
            Some(t) => t,
            None => return None,
        };
        Some(self.memory.read_entry(p1.addr, page.p1_index()))
    }

    /// Maps `page` to `frame` with `flags` and the present bit, creating the
    /// missing tables on the way with frames from `allocator`.
    ///
    /// A page in the recursive slot of the level-4 table is one of the page
    /// tables themselves: mapping it rewrites those tables, and the new
    /// mapping is only promised where `walk_in_place` holds.
    pub fn map_to<A: FrameAllocator>(
        &mut self,
        allocator: &mut A,
        page: Page,
        frame: Frame,
        flags: u64,
    ) -> (r: Result<(), MapError>)
        requires
            old(self).memory.inv(),
            old(allocator).inv(),
            page.number <= MAX_FRAME,
            frame.number <= MAX_FRAME,
            l1_entry(old(self).memory.tables(), page.number) matches Some(e) ==> e.bits == 0,
        ensures
            final(self).memory.inv(),
            final(allocator).inv(),
            l1_address(old(self).memory.tables(), page.number) is Some ==> r is Ok
                && *final(allocator) == *old(allocator),
            r is Ok && walk_in_place(old(self).memory.tables(), page.number) ==> l1_entry(
                final(self).memory.tables(),
                page.number,
            ) == Some(entry_for(frame.number, flags | PRESENT)),
            r is Ok && walk_in_place(old(self).memory.tables(), page.number) && frame.number
                < 0x100_0000_0000 && is_flag_set(flags) ==> translate_page_spec(
                final(self).memory.tables(),
                page.number,
            ) == Some(frame.number as int),
            r is Err ==> r == Err::<(), MapError>(MapError::OutOfMemory),
            only_walk_changed(old(self).memory.tables(), final(self).memory.tables(), page.number),
            r is Ok && walk_in_place(old(self).memory.tables(), page.number) ==> walk_edited(
                old(self).memory.tables(),
                final(self).memory.tables(),
                page.number,
            ),
            map_allocations(
                *old(allocator),
                *final(allocator),
                r is Ok,
                missing_tables(old(self).memory.tables(), page.number),
                walk_in_place(old(self).memory.tables(), page.number),
            ),
            r is Ok ==> final(self).memory.flushed() == old(self).memory.flushed().push(
                (page.number * 4096) as u64,
            ),
            r is Err ==> final(self).memory.flushed() == old(self).memory.flushed(),
    {
        let ghost n = page.number;
        let ghost m0 = self.memory.tables();
        let i4 = page.p4_index();
        let i3 = page.p3_index();
        let i2 = page.p2_index();
        let i1 = page.p1_index();
        let ghost a3 = child_address(P4, i4 as u64);
        let ghost a2 = child_address(a3, i3 as u64);
        let ghost a1 = child_address(a2, i2 as u64);
        let ghost walk_ok = walk_in_place(m0, n);
        let ghost mut states: Seq<A> = seq![*allocator];
        let ghost mut results: Seq<Option<Frame>> = Seq::empty();
        proof {
            lemma_table_entries();
            lemma_recursive_slot(i4 as u64);
            assert(is_allocation_chain(states, results));
            assert(!entry_present(Entry { bits: 0 })) by {
                assert(0u64 & 1u64 == 0) by (bit_vector);
            }
        }
        let ghost before = *allocator;
        let p3 = match self.p4().next_table_create(&mut self.memory, allocator, i4) {
            Ok(t) => t,
            Err(e) => {
                proof {
                    lemma_chain_push(states, results, *allocator, None);
                    states = states.push(*allocator);
                    results = results.push(None);
                }
                return Err(e);
            },
        };
        let ghost m1 = self.memory.tables();
        proof {
            lemma_create_exact(m0, m1, P4, i4 as u64, a3);
            if next_address(m0, P4, i4 as u64) is None {
                let f = choose|f: Frame| #[trigger] A::allocation(before, *allocator, Some(f)) && m1
                    == with_entry(m0, P4, i4 as int, entry_for(f.number, PRESENT | WRITABLE)).insert(
                    a3,
                    unused_table(),
                );
                lemma_chain_push(states, results, *allocator, Some(f));
                states = states.push(*allocator);
                results = results.push(Some(f));
            }
            assert(only_walk_changed(m0, m1, n));
            if walk_ok {
                assert(next_address(m1, P4, i4 as u64) == Some(a3));
                assert((next_address(m1, a3, i3 as u64) is None) == (l2_address(m0, n) is None));
            }
        }
        let ghost before = *allocator;
        let p2 = match p3.next_table_create(&mut self.memory, allocator, i3) {
            Ok(t) => t,
            Err(e) => {
                proof {
                    lemma_chain_push(states, results, *allocator, None);
                    states = states.push(*allocator);
                    results = results.push(None);
                }
                return Err(e);
            },
        };
        let ghost m2 = self.memory.tables();
        proof {
            lemma_create_exact(m1, m2, a3, i3 as u64, a2);
            if next_address(m1, a3, i3 as u64) is None {
                let f = choose|f: Frame| #[trigger] A::allocation(before, *allocator, Some(f)) && m2
                    == with_entry(m1, a3, i3 as int, entry_for(f.number, PRESENT | WRITABLE)).insert(
                    a2,
                    unused_table(),
                );
                lemma_chain_push(states, results, *allocator, Some(f));
                states = states.push(*allocator);
                results = results.push(Some(f));
            }
            assert(only_walk_changed(m0, m2, n));
            if walk_ok {
                assert(table_of(m2, P4)[i4 as int] == table_of(m1, P4)[i4 as int]);
                assert(next_address(m2, P4, i4 as u64) == Some(a3));
                assert(next_address(m2, a3, i3 as u64) == Some(a2));
                assert((next_address(m2, a2, i2 as u64) is None) == (l1_address(m0, n) is None));
                assert(walk_edited_upto(m0, m2, n, 2));
            }
        }
        let ghost before = *allocator;
        let p1 = match p2.next_table_create(&mut self.memory, allocator, i2) {
            Ok(t) => t,
            Err(e) => {
                proof {
                    lemma_chain_push(states, results, *allocator, None);
                    states = states.push(*allocator);
                    results = results.push(None);
                }
                return Err(e);
            },
        };
        let ghost m3 = self.memory.tables();
        proof {
            lemma_create_exact(m2, m3, a2, i2 as u64, a1);
            if next_address(m2, a2, i2 as u64) is None {
                let f = choose|f: Frame| #[trigger] A::allocation(before, *allocator, Some(f)) && m3
                    == with_entry(m2, a2, i2 as int, entry_for(f.number, PRESENT | WRITABLE)).insert(
                    a1,
                    unused_table(),
                );
                lemma_chain_push(states, results, *allocator, Some(f));
                states = states.push(*allocator);
                results = results.push(Some(f));
            }
            assert(only_walk_changed(m0, m3, n));
            if walk_ok {
                assert(table_of(m3, P4)[i4 as int] == table_of(m2, P4)[i4 as int]);
                assert(table_of(m3, a3)[i3 as int] == table_of(m2, a3)[i3 as int]);
                assert(next_address(m3, P4, i4 as u64) == Some(a3));
                assert(next_address(m3, a3, i3 as u64) == Some(a2));
                assert(next_address(m3, a2, i2 as u64) == Some(a1));
                assert(walk_edited_upto(m0, m3, n, 3));
                assert(results.len() == missing_tables(m0, n));
            }
        }
        let mut e = Entry::new();
        e.set(frame, flags | PRESENT);
        self.memory.write_entry(p1.addr, i1, e);
        let ghost m4 = self.memory.tables();
        proof {
            lemma_with_entry_reads(m3, a1, i1 as int, e);
            assert(only_walk_changed(m0, m4, n));
            if walk_ok {
                assert(table_of(m4, P4)[i4 as int] == table_of(m3, P4)[i4 as int]);
                assert(table_of(m4, a3)[i3 as int] == table_of(m3, a3)[i3 as int]);
                assert(table_of(m4, a2)[i2 as int] == table_of(m3, a2)[i2 as int]);
                assert(l1_address(m4, n) == Some(a1));
                assert(table_of(m4, a1)[i1 as int] == e);
                assert(walk_edited(m0, m4, n));
                if frame.number < 0x100_0000_0000 && is_flag_set(flags) {
                    assert(is_flag_set(flags | PRESENT)) by {
                        assert(flags & 0x000F_FFFF_FFFF_F000u64 == 0 ==> (flags | 1u64)
                            & 0x000F_FFFF_FFFF_F000u64 == 0) by (bit_vector);
                    }
                    lemma_entry_for(frame.number, flags | PRESENT);
                    assert((flags | 1u64) & 1u64 != 0) by (bit_vector);
                    lemma_l1_translation(m4, n);
                }
            }
        }
        self.memory.flush(page.address());
        Ok(())
    }
}

impl<M: TableMemory> Mapper<M> {
    /// Makes the level-1 entry of a mapped `page` unused.
    pub fn unmap(&mut self, page: Page)
        requires
            old(self).memory.inv(),
            page.number <= MAX_FRAME,
            l1_entry(old(self).memory.tables(), page.number) matches Some(e) && entry_present(e),
        ensures
            final(self).memory.inv(),
            final(self).memory.tables() == with_entry(
                old(self).memory.tables(),
                l1_address(old(self).memory.tables(), page.number)->0,
                p1_of(page.number) as int,
                Entry { bits: 0 },
            ),
            translate_page_spec(final(self).memory.tables(), page.number) is None,
            final(self).memory.flushed() == old(self).memory.flushed().push(
                (page.number * 4096) as u64,
            ),
    {
        let ghost m = self.memory.tables();
        let ghost n = page.number;
        let p3 = match self.p4().next_table(&self.memory, page.p4_index()) {
            Some(t) => t,
            None => return ,
        };
        let p2 = match p3.next_table(&self.memory, page.p3_index()) {
            Some(t) => t,
            None => return ,
        };
        let p1 = match p2.next_table(&self.memory, page.p2_index()) {
            Some(t) => t,
            None => return ,
        };
        self.memory.write_entry(p1.addr, page.p1_index(), Entry::new());
        proof {
            let m2 = self.memory.tables();
            let z = Entry { bits: 0 };
            lemma_with_entry_reads(m, p1.addr, p1_of(n) as int, z);
            assert(!entry_present(z)) by {
                assert(0u64 & 1u64 == 0) by (bit_vector);
            }
            let i4 = p4_of(n);
            let i3 = p3_of(n);
            let i2 = p2_of(n);
            let i1 = p1_of(n);
            assert(table_of(m2, P4)[i4 as int] == table_of(m, P4)[i4 as int] || table_of(
                m2,
                P4,
            )[i4 as int] == z);
            if l3_address(m2, n) is Some {
                assert(table_of(m2, P4)[i4 as int] == table_of(m, P4)[i4 as int]);
                assert(l3_address(m2, n) == Some(p3.addr));
                let e3 = table_of(m2, p3.addr)[i3 as int];
                assert(e3 == table_of(m, p3.addr)[i3 as int] || e3 == z);
                if next_address(m2, p3.addr, i3) is Some {
                    assert(e3 == table_of(m, p3.addr)[i3 as int]);
                    let e2 = table_of(m2, p2.addr)[i2 as int];
                    assert(e2 == table_of(m, p2.addr)[i2 as int] || e2 == z);
                    if next_address(m2, p2.addr, i2) is Some {
                        assert(e2 == table_of(m, p2.addr)[i2 as int]);
                        assert(table_of(m2, p1.addr)[i1 as int] == z);
                    }
                }
            }
        }
        self.memory.flush(page.address());
    }
}

/// What can be read after entry `i` of the table at `a` became `e`.
proof fn lemma_with_entry_reads(m: Map<u64, Seq<Entry>>, a: u64, i: int, e: Entry)
    requires
        0 <= i < 512,
    ensures
        forall|x: u64, j: int|
            0 <= j < 512 ==> #[trigger] table_of(with_entry(m, a, i, e), x)[j] == if x == a && j == i {
                e
            } else {
                table_of(m, x)[j]
            },
{
}

/// Where the walk reaches a level-1 table, a page translates to the frame of
/// its present level-1 entry, and to nothing when the entry is not present.
proof fn lemma_l1_translation(m: Map<u64, Seq<Entry>>, n: u64)
    requires
        l1_entry(m, n) is Some,
    ensures
        translate_page_spec(m, n) == (if entry_present(l1_entry(m, n)->0) {
            Some(entry_frame(l1_entry(m, n)->0) as int)
        } else {
            None
        }),
{
}

/// Entries of new tables are present and not huge.
proof fn lemma_table_entries()
    ensures
        forall|f: u64|
            entry_present(#[trigger] entry_for(f, PRESENT | crate::mm::entry::WRITABLE)) && !entry_huge(
                entry_for(f, PRESENT | crate::mm::entry::WRITABLE),
            ),
{
    assert forall|f: u64|
        entry_present(#[trigger] entry_for(f, PRESENT | crate::mm::entry::WRITABLE)) && !entry_huge(
            entry_for(f, PRESENT | crate::mm::entry::WRITABLE),
        ) by {
        lemma_table_entry(f);
    }
}

/// What can be read after `next_table_create` on entry `index` of the table
/// at `parent`, whose child is at `child`.
proof fn lemma_create_reads(
    before: Map<u64, Seq<Entry>>,
    after: Map<u64, Seq<Entry>>,
    parent: u64,
    index: u64,
    child: u64,
)
    requires
        index < 512,
        after == before || exists|f: Frame|
            after == with_entry(
                before,
                parent,
                index as int,
                #[trigger] entry_for(f.number, PRESENT | crate::mm::entry::WRITABLE),
            ).insert(child, unused_table()),
    ensures
        after == before || forall|x: u64, j: int|
            0 <= j < 512 && x != child && !(x == parent && j == index) ==> #[trigger] table_of(
                after,
                x,
            )[j] == table_of(before, x)[j],
{
    if after != before {
        let f = choose|f: Frame|
            after == with_entry(
                before,
                parent,
                index as int,
                #[trigger] entry_for(f.number, PRESENT | crate::mm::entry::WRITABLE),
            ).insert(child, unused_table());
        lemma_with_entry_reads(before, parent, index as int, entry_for(f.number, PRESENT | crate::mm::entry::WRITABLE));
    }
}

/// What `next_table_create` on entry `index` of the table at `parent` left:
/// nothing changed where the next table was there; otherwise the new child
/// is unused and nothing else but the parent's entry changed.
proof fn lemma_create_exact(
    before: Map<u64, Seq<Entry>>,
    after: Map<u64, Seq<Entry>>,
    parent: u64,
    index: u64,
    child: u64,
)
    requires
        index < 512,
        child == child_address(parent, index),
        next_address(before, parent, index) is Some ==> after == before,
        next_address(before, parent, index) is None ==> exists|f: Frame|
            after == with_entry(
                before,
                parent,
                index as int,
                #[trigger] entry_for(f.number, PRESENT | WRITABLE),
            ).insert(child, unused_table()),
    ensures
        next_address(before, parent, index) is None ==> {
            &&& forall|j: int| 0 <= j < 512 ==> #[trigger] table_of(after, child)[j] == Entry { bits: 0 }
            &&& forall|x: u64, j: int|
                0 <= j < 512 && x != child && !(x == parent && j == index) ==> #[trigger] table_of(
                    after,
                    x,
                )[j] == table_of(before, x)[j]
            &&& parent != child ==> next_address(after, parent, index) == Some(child)
        },
{
    if next_address(before, parent, index) is None {
        let f = choose|f: Frame|
            after == with_entry(
                before,
                parent,
                index as int,
                #[trigger] entry_for(f.number, PRESENT | WRITABLE),
            ).insert(child, unused_table());
        lemma_table_entry(f.number);
        lemma_with_entry_reads(before, parent, index as int, entry_for(f.number, PRESENT | WRITABLE));
    }
}

/// A chain of allocations grows by one more call.
proof fn lemma_chain_push<A: FrameAllocator>(
    states: Seq<A>,
    results: Seq<Option<Frame>>,
    next: A,
    r: Option<Frame>,
)
    requires
        is_allocation_chain(states, results),
        A::allocation(states.last(), next, r),
    ensures
        is_allocation_chain(states.push(next), results.push(r)),
{
    assert forall|i: int| 0 <= i < results.push(r).len() implies A::allocation(
        states.push(next)[i],
        states.push(next)[i + 1],
        #[trigger] results.push(r)[i],
    ) by {
        if i < results.len() {
            assert(results.push(r)[i] == results[i]);
        }
    }
}

/// What a translation yields stays below 2^41.
proof fn lemma_translated_frame_bound(m: Map<u64, Seq<Entry>>, n: u64)
    ensures
        translate_page_spec(m, n) matches Some(f) ==> 0 <= f < 0x200_0000_0000,
{
    let a3 = l3_address(m, n);
    if let Some(a3) = a3 {
        lemma_entry_frame_bound(table_of(m, a3)[p3_of(n) as int]);
        if let Some(a2) = next_address(m, a3, p3_of(n)) {
            lemma_entry_frame_bound(table_of(m, a2)[p2_of(n) as int]);
            if let Some(a1) = next_address(m, a2, p2_of(n)) {
                lemma_entry_frame_bound(table_of(m, a1)[p1_of(n) as int]);
            }
        }
    }
    assert(p2_of(n) < 512 && p1_of(n) < 512) by (bit_vector);
}

/// The level-2 and level-1 tables on the way to page number `n` sit apart
/// from each other and from the level-4 and level-3 tables.
pub open spec fn separate_walk(n: u64) -> bool {
    let a3 = child_address(P4, p4_of(n));
    let a2 = child_address(a3, p3_of(n));
    let a1 = child_address(a2, p2_of(n));
    a2 != P4 && a2 != a3 && a1 != P4 && a1 != a3 && a1 != a2
}

/// Address of one of the level-3, level-2 and level-1 tables on the way to
/// page number `n`.
pub open spec fn on_walk(n: u64, x: u64) -> bool {
    let a3 = child_address(P4, p4_of(n));
    let a2 = child_address(a3, p3_of(n));
    let a1 = child_address(a2, p2_of(n));
    x == a3 || x == a2 || x == a1
}

/// From `before` to `after` only the tables on the way to page number `n`
/// and the level-4 entry of `n` changed.
pub open spec fn only_walk_changed(
    before: Map<u64, Seq<Entry>>,
    after: Map<u64, Seq<Entry>>,
    n: u64,
) -> bool {
    forall|x: u64, j: int|
        0 <= j < 512 && !on_walk(n, x) && !(x == P4 && j == p4_of(n)) ==> #[trigger] table_of(
            after,
            x,
        )[j] == table_of(before, x)[j]
}

/// Entry `j` of the table at `x` is one of the four entries on the way to
/// page number `n`.
pub open spec fn walk_slot(n: u64, x: u64, j: int) -> bool {
    let a3 = child_address(P4, p4_of(n));
    let a2 = child_address(a3, p3_of(n));
    let a1 = child_address(a2, p2_of(n));
    (x == P4 && j == p4_of(n)) || (x == a3 && j == p3_of(n)) || (x == a2 && j == p2_of(n)) || (
    x == a1 && j == p1_of(n))
}

/// The table at `x` is one that the walk to page number `n` lacks in `m` and
/// that `map_to` creates: level 3, 2 or 1 below the first missing one.
pub open spec fn new_walk_table(m: Map<u64, Seq<Entry>>, n: u64, x: u64) -> bool {
    let a3 = child_address(P4, p4_of(n));
    let a2 = child_address(a3, p3_of(n));
    let a1 = child_address(a2, p2_of(n));
    (x == a3 && l3_address(m, n) is None) || (x == a2 && l2_address(m, n) is None) || (x == a1
        && l1_address(m, n) is None)
}

/// How many tables the walk to page number `n` lacks in `m`.
pub open spec fn missing_tables(m: Map<u64, Seq<Entry>>, n: u64) -> int {
    if l3_address(m, n) is None {
        3
    } else if l2_address(m, n) is None {
        2
    } else if l1_address(m, n) is None {
        1
    } else {
        0
    }
}

/// From `before` to `after` only the four entries on the way to page number
/// `n` changed, and the tables that the walk lacked were created unused
/// (but for their entry on the way).
pub open spec fn walk_edited(before: Map<u64, Seq<Entry>>, after: Map<u64, Seq<Entry>>, n: u64) -> bool {
    forall|x: u64, j: int|
        0 <= j < 512 && !walk_slot(n, x, j) ==> #[trigger] table_of(after, x)[j] == if new_walk_table(
            before,
            n,
            x,
        ) {
            Entry { bits: 0 }
        } else {
            table_of(before, x)[j]
        }
}

/// `walk_edited` after the first `k` tables of the walk were dealt with:
/// the tables below them are untouched.
spec fn walk_edited_upto(before: Map<u64, Seq<Entry>>, after: Map<u64, Seq<Entry>>, n: u64, k: int) -> bool {
    let a3 = child_address(P4, p4_of(n));
    let a2 = child_address(a3, p3_of(n));
    let a1 = child_address(a2, p2_of(n));
    forall|x: u64, j: int|
        0 <= j < 512 && !walk_slot(n, x, j) ==> #[trigger] table_of(after, x)[j] == if new_walk_table(
            before,
            n,
            x,
        ) && (k >= 3 || x != a1) {
            Entry { bits: 0 }
        } else {
            table_of(before, x)[j]
        }
}

/// The calls of `allocate_frame` that one `map_to` made took the allocator
/// from `pre` to `post`: at most three; all returned a frame when the mapping
/// was made (exactly one per missing table where the walk stays in place),
/// and the last returned `None` when it failed.
pub open spec fn map_allocations<A: FrameAllocator>(
    pre: A,
    post: A,
    ok: bool,
    missing: int,
    in_place: bool,
) -> bool {
    exists|states: Seq<A>, results: Seq<Option<Frame>>|
        {
            &&& #[trigger] is_allocation_chain(states, results)
            &&& states[0] == pre
            &&& states.last() == post
            &&& results.len() <= 3
            &&& ok ==> forall|i: int| 0 <= i < results.len() ==> (#[trigger] results[i]) is Some
            &&& ok && in_place ==> results.len() == missing
            &&& !ok ==> results.len() >= 1 && results.last() is None && forall|i: int|
                0 <= i < results.len() - 1 ==> (#[trigger] results[i]) is Some
        }
}

/// The walk to page number `n` stays in place while `map_to` edits it: its
/// tables sit apart, and in the recursive slot the recursive entry is
/// already there.
pub open spec fn walk_in_place(m: Map<u64, Seq<Entry>>, n: u64) -> bool {
    separate_walk(n) && (p4_of(n) != RECURSIVE_INDEX || l3_address(m, n) is Some)
}

/// Only the recursive entry leads from the level-4 table back to itself.
proof fn lemma_recursive_slot(i: u64)
    requires
        i < 512,
    ensures
        (child_address(P4, i) == P4) == (i == RECURSIVE_INDEX),
{
    assert((((0xFFFF_FFFF_FFFF_F000u64 << 9u64) | (i << 12u64)) == 0xFFFF_FFFF_FFFF_F000u64) == (i
        == 511u64)) by (bit_vector)
        requires
            i < 512u64,
    ;
}

/// Outside the recursive slot the tables on the way to a page sit apart.
pub proof fn lemma_separate_walk(n: u64)
    requires
        p4_of(n) != RECURSIVE_INDEX,
    ensures
        separate_walk(n),
{
    let i4 = p4_of(n);
    let i3 = p3_of(n);
    let i2 = p2_of(n);
    assert((n >> 27u64) & 0x1FF < 512 && (n >> 18u64) & 0x1FF < 512 && (n >> 9u64) & 0x1FF < 512)
        by (bit_vector);
    let p = 0xFFFF_FFFF_FFFF_F000u64;
    let a3 = (p << 9u64) | (i4 << 12u64);
    assert(((a3 << 9u64) | (i3 << 12u64)) != p && ((a3 << 9u64) | (i3 << 12u64)) != a3) by (bit_vector)
        requires
            i4 < 511u64,
            i3 < 512u64,
            p == 0xFFFF_FFFF_FFFF_F000u64,
            a3 == (p << 9u64) | (i4 << 12u64),
    ;
    let a2 = (a3 << 9u64) | (i3 << 12u64);
    assert(((a2 << 9u64) | (i2 << 12u64)) != p && ((a2 << 9u64) | (i2 << 12u64)) != a3 && ((a2
        << 9u64) | (i2 << 12u64)) != a2) by (bit_vector)
        requires
            i4 < 511u64,
            i3 < 512u64,
            i2 < 512u64,
            p == 0xFFFF_FFFF_FFFF_F000u64,
            a3 == (p << 9u64) | (i4 << 12u64),
            a2 == (a3 << 9u64) | (i3 << 12u64),
    ;
}

/// The entry that points a new table at frame `f` is present and not huge.
proof fn lemma_table_entry(f: u64)
    ensures
        entry_present(entry_for(f, PRESENT | crate::mm::entry::WRITABLE)),
        !entry_huge(entry_for(f, PRESENT | crate::mm::entry::WRITABLE)),
{
    assert(((f << 12u64) | (1u64 | 2u64)) & 1u64 != 0) by (bit_vector);
    assert(((f << 12u64) | (1u64 | 2u64)) & 128u64 == 0) by (bit_vector);
}

/// Byte `k` of page number `n` lies in page `n`, at offset `k`.
proof fn lemma_page_offset(n: u64, k: u64)
    requires
        n <= MAX_FRAME,
        k < 4096,
    ensures
        n * 4096 + k <= u64::MAX,
        ((n * 4096 + k) as u64) / 4096 == n,
        ((n * 4096 + k) as u64) % 4096 == k,
{
    assert(n * 4096 + k <= u64::MAX) by (nonlinear_arith)
        requires
            n <= 0xF_FFFF_FFFF_FFFF,
            k < 4096,
    ;
    vstd::arithmetic::div_mod::lemma_fundamental_div_mod_converse(
        (n * 4096 + k) as int,
        4096,
        n as int,
        k as int,
    );
}

/// After `map_to(P, F, flags)` the level-1 entry of `P` holds `F` with
/// `flags` and the present bit. Then every byte `k` of `P` translates to byte
/// `k` of `F`.
pub proof fn lemma_mapped_page_translates(
    m: Map<u64, Seq<Entry>>,
    n: u64,
    f: u64,
    flags: u64,
    k: u64,
)
    requires
        l1_entry(m, n) == Some(entry_for(f, flags | PRESENT)),
        n <= MAX_FRAME,
        f < 0x100_0000_0000,
        is_flag_set(flags),
        k < 4096,
    ensures
        translate_spec(m, (n * 4096 + k) as u64) == Some(f * 4096 + k),
{
    lemma_page_offset(n, k);
    assert(is_flag_set(flags | PRESENT)) by {
        assert(flags & 0x000F_FFFF_FFFF_F000u64 == 0 ==> (flags | 1u64) & 0x000F_FFFF_FFFF_F000u64
            == 0) by (bit_vector);
    }
    lemma_entry_for(f, flags | PRESENT);
    assert((flags | 1u64) & 1u64 != 0) by (bit_vector);
    lemma_l1_translation(m, n);
}

/// After `unmap(P)` page `P` translates to nothing; then no byte of it does.
pub proof fn lemma_unmapped_page_untranslated(m: Map<u64, Seq<Entry>>, n: u64, k: u64)
    requires
        translate_page_spec(m, n) is None,
        n <= MAX_FRAME,
        k < 4096,
    ensures
        translate_spec(m, (n * 4096 + k) as u64) is None,
{
    lemma_page_offset(n, k);
}

/// A 2 MiB page: where the level-2 entry on the way to the 2 MiB-aligned
/// page number `n` is present and huge with start frame `s`, byte `k` of
/// page `n + i` translates to byte `k` of frame `s + i`.
pub proof fn lemma_huge_page_translates(
    m: Map<u64, Seq<Entry>>,
    n: u64,
    s: u64,
    i: u64,
    k: u64,
)
    requires
        n % 512 == 0,
        n + 511 <= MAX_FRAME,
        l2_address(m, n) matches Some(a2) && {
            let e2 = table_of(m, a2)[p2_of(n) as int];
            entry_present(e2) && entry_huge(e2) && entry_frame(e2) == s
        },
        i < 512,
        k < 4096,
    ensures
        translate_spec(m, ((n + i) * 4096 + k) as u64) == Some((s + i) * 4096 + k),
{
    let v = (n + i) as u64;
    lemma_page_offset(v, k);
    assert(p4_of(v) == p4_of(n) && p3_of(v) == p3_of(n) && p2_of(v) == p2_of(n) && p1_of(v) == i)
        by (bit_vector)
        requires
            n % 512u64 == 0,
            n <= 0xF_FFFF_FFFF_FFFFu64,
            i < 512u64,
            v == n + i,
    ;
    assert((s + i) * 4096 + k == s * 4096 + i * 4096 + k) by (nonlinear_arith);
}

} // verus!
