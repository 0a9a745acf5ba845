use vstd::prelude::*;
use crate::memory::{Frame, FrameAllocator};
use crate::mm::entry::{
    Entry, PRESENT, WRITABLE, HUGE_PAGE, entry_present, entry_huge, entry_for,
};

verus! {

/// Number of entries in a page table.
pub const ENTRY_COUNT: usize = 512;

/// A table whose entries are all unused.
pub open spec fn unused_table() -> Seq<Entry> {
    Seq::new(512, |i: int| Entry { bits: 0 })
}

/// The entries of the table that can be read at virtual address `addr`; a
/// table that was never written reads as unused.
pub open spec fn table_of(m: Map<u64, Seq<Entry>>, addr: u64) -> Seq<Entry> {
    Seq::new(
        512,
        |i: int|
            if m.contains_key(addr) {
                m[addr][i]
            } else {
                Entry { bits: 0 }
            },
    )
}

/// `m` after entry `index` of the table at `addr` became `e`.
pub open spec fn with_entry(m: Map<u64, Seq<Entry>>, addr: u64, index: int, e: Entry) -> Map<
    u64,
    Seq<Entry>,
> {
    m.insert(addr, table_of(m, addr).update(index, e))
}

/// Memory that holds page tables, each read and written at the virtual
/// address through which the recursive mapping shows it.
pub trait TableMemory: Sized {
    /// The memory's internal invariant; none unless the implementation
    /// states one.
    closed spec fn inv(&self) -> bool {
        true
    }

    /// The tables, by address; each has 512 entries. An implementation that
    /// models its contents states them; the machine's own memory does not.
    closed spec fn tables(&self) -> Map<u64, Seq<Entry>> {
        Map::empty()
    }

    /// The addresses whose cached translations were dropped, in order.
    closed spec fn flushed(&self) -> Seq<u64> {
        Seq::empty()
    }

    /// Reads entry `index` of the table at `table`.
    fn read_entry(&self, table: u64, index: usize) -> (r: Entry)
        requires
            self.inv(),
            index < 512,
        ensures
            r == table_of(self.tables(), table)[index as int],
    ;

    /// Writes entry `index` of the table at `table`.
    fn write_entry(&mut self, table: u64, index: usize, e: Entry)
        requires
            old(self).inv(),
            index < 512,
        ensures
            final(self).inv(),
            final(self).tables() == with_entry(old(self).tables(), table, index as int, e),
            final(self).flushed() == old(self).flushed(),
    ;

    /// Drops what the processor has cached of the translation of `addr`.
    fn flush(&mut self, addr: u64)
        requires
            old(self).inv(),
        ensures
            final(self).inv(),
            final(self).tables() == old(self).tables(),
            final(self).flushed() == old(self).flushed().push(addr),
    ;
}

/// Page tables held in ordinary memory: table `k` sits at `addrs[k]` and
/// owns `slots[512 * k .. 512 * k + 512]`.
pub struct TableStore {
    addrs: Vec<u64>,
    slots: Vec<Entry>,
    flushes: Ghost<Seq<u64>>,
}

impl TableStore {
    /// Addresses are distinct and each has its 512 slots.
    pub closed spec fn wf(&self) -> bool {
        &&& self.slots@.len() == self.addrs@.len() * 512
        &&& forall|i: int, j: int|
            0 <= i < j < self.addrs@.len() ==> self.addrs@[i] != self.addrs@[j]
    }

    /// Position of the table at `a`.
    closed spec fn index_of(&self, a: u64) -> int {
        choose|k: int| 0 <= k < self.addrs@.len() && self.addrs@[k] == a
    }

    closed spec fn holds(&self, a: u64) -> bool {
        exists|k: int| 0 <= k < self.addrs@.len() && self.addrs@[k] == a
    }

    /// The tables, by address.
    pub closed spec fn view(&self) -> Map<u64, Seq<Entry>> {
        Map::new(
            |a: u64| self.holds(a),
            |a: u64| self.slots@.subrange(self.index_of(a) * 512, self.index_of(a) * 512 + 512),
        )
    }

    /// Memory with no table written yet.
    pub fn new() -> (r: TableStore)
        ensures
            r.inv(),
            r.tables() == Map::<u64, Seq<Entry>>::empty(),
            r.flushed() == Seq::<u64>::empty(),
    {
        let r = TableStore { addrs: Vec::new(), slots: Vec::new(), flushes: Ghost(Seq::empty()) };
        assert(r.view() =~= Map::<u64, Seq<Entry>>::empty());
        r
    }

    /// Makes room for an unused table at `a`, which holds none yet.
    fn add_table(&mut self, a: u64)
        requires
            old(self).wf(),
            !old(self).holds(a),
        ensures
            final(self).wf(),
            final(self).addrs@ == old(self).addrs@.push(a),
            final(self).flushes == old(self).flushes,
            final(self).view() == old(self).view().insert(a, unused_table()),
    {
        let ghost before = *self;
        let n = self.addrs.len();
        self.addrs.push(a);
        let mut i: usize = 0;
        while i < ENTRY_COUNT
            invariant
                i <= 512,
                self.addrs@ == before.addrs@.push(a),
                self.flushes == before.flushes,
                n == before.addrs@.len(),
                self.slots@.len() == n * 512 + i,
                self.slots@.subrange(0, n * 512) == before.slots@,
                forall|j: int| n * 512 <= j < n * 512 + i ==> self.slots@[j] == (Entry { bits: 0 }),
            decreases 512 - i,
        {
            self.slots.push(Entry { bits: 0 });
            i += 1;
            proof {
                assert(self.slots@.subrange(0, n * 512) =~= before.slots@);
            }
        }
        proof {
            assert forall|x: int, y: int|
                0 <= x < y < self.addrs@.len() implies self.addrs@[x] != self.addrs@[y] by {
                if y == n {
                    assert(before.addrs@[x] != a);
                }
            }
            lemma_index_of(*self, a, n as int);
            assert forall|b: u64| #[trigger] before.holds(b) implies self.holds(b) && self.index_of(b)
                == before.index_of(b) by {
                let j = before.index_of(b);
                lemma_index_of(before, b, j);
                assert(self.addrs@[j] == b);
                lemma_index_of(*self, b, j);
            }
            assert forall|b: u64| #[trigger] self.holds(b) && b != a implies before.holds(b) by {
                let j = choose|j: int| 0 <= j < self.addrs@.len() && self.addrs@[j] == b;
                assert(before.addrs@[j] == b);
            }
            assert forall|b: u64| #[trigger] before.holds(b) implies self.view()[b] =~= before.view()[b] by {
                let j = before.index_of(b);
                lemma_index_of(before, b, j);
                assert(j + 1 <= n);
                assert(j * 512 + 512 <= n * 512) by (nonlinear_arith)
                    requires
                        j + 1 <= n,
                ;
                assert forall|t: int| 0 <= t < 512 implies #[trigger] self.slots@[j * 512 + t] == before.slots@[j
                    * 512 + t] by {
                    assert(self.slots@.subrange(0, n * 512)[j * 512 + t] == self.slots@[j * 512 + t]);
                }
            }
            assert(self.view()[a] =~= unused_table());
            assert(self.view() =~= before.view().insert(a, unused_table()));
        }
    }

    /// Position of the table at `a`, if one was written.
    fn find(&self, a: u64) -> (r: Option<usize>)
        requires
            self.wf(),
        ensures
            match r {
                Some(k) => k < self.addrs@.len() && self.addrs@[k as int] == a && self.index_of(a)
                    == k,
                None => !self.holds(a),
            },
    {
        let mut k: usize = 0;
        while k < self.addrs.len()
            invariant
                self.wf(),
                k <= self.addrs@.len(),
                forall|j: int| 0 <= j < k ==> self.addrs@[j] != a,
            decreases self.addrs@.len() - k,
        {
            if self.addrs[k] == a {
                proof {
                    lemma_index_of(*self, a, k as int);
                }
                return Some(k);
            }
            k += 1;
        }
        None
    }
}

/// In a well-formed store the table at `a` sits at the one position that
/// holds `a`.
proof fn lemma_index_of(s: TableStore, a: u64, k: int)
    requires
        s.wf(),
        0 <= k < s.addrs@.len(),
        s.addrs@[k] == a,
    ensures
        s.holds(a),
        s.index_of(a) == k,
{
    assert(s.holds(a));
    let j = s.index_of(a);
    if j != k {
        if j < k {
            assert(s.addrs@[j] != s.addrs@[k]);
        } else {
            assert(s.addrs@[k] != s.addrs@[j]);
        }
    }
}

/// The block of slots of table `k` lies within those of `n` tables.
proof fn lemma_block_fits(k: int, n: int)
    requires
        0 <= k < n,
    ensures
        k * 512 + 512 <= n * 512,
{
    assert((k + 1) * 512 <= n * 512) by (nonlinear_arith)
        requires
            k + 1 <= n,
    ;
}

/// The blocks of slots of two distinct tables do not overlap.
proof fn lemma_disjoint_blocks(j: int, k: int, n: int)
    requires
        0 <= j < n,
        0 <= k < n,
        j != k,
    ensures
        j * 512 + 512 <= k * 512 || k * 512 + 512 <= j * 512,
{
    if j < k {
        assert(j * 512 + 512 <= k * 512) by (nonlinear_arith)
            requires
                j < k,
        ;
    } else {
        assert(k * 512 + 512 <= j * 512) by (nonlinear_arith)
            requires
                k < j,
        ;
    }
}

impl TableMemory for TableStore {
    closed spec fn inv(&self) -> bool {
        self.wf()
    }

    closed spec fn tables(&self) -> Map<u64, Seq<Entry>> {
        self.view()
    }

    closed spec fn flushed(&self) -> Seq<u64> {
        self.flushes@
    }

    fn read_entry(&self, table: u64, index: usize) -> (r: Entry) {
        match self.find(table) {
            Some(k) => {
                let total = self.slots.len();
                proof {
                    assert(self.view().contains_key(table));
                    lemma_block_fits(k as int, self.addrs@.len() as int);
                }
                self.slots[k * 512 + index]
            },
            None => Entry { bits: 0 },
        }
    }

    fn write_entry(&mut self, table: u64, index: usize, e: Entry) {
        let ghost before = self.view();
        let k = match self.find(table) {
            Some(k) => k,
            None => {
                self.add_table(table);
                self.addrs.len() - 1
            },
        };
        let ghost mid = *self;
        let total = self.slots.len();
        proof {
            lemma_index_of(mid, table, k as int);
            lemma_block_fits(k as int, mid.addrs@.len() as int);
        }
        self.slots.set(k * 512 + index, e);
        proof {
            assert(self.addrs@ == mid.addrs@);
            assert forall|a: u64| a != table && #[trigger] mid.view().contains_key(a) implies self.view()[a]
                == mid.view()[a] by {
                let j = mid.index_of(a);
                lemma_index_of(mid, a, j);
                assert(j != k);
                lemma_disjoint_blocks(j, k as int, mid.addrs@.len() as int);
                assert(self.view()[a] =~= mid.view()[a]);
            }
            assert(mid.view().contains_key(table));
            assert(mid.view()[table].len() == 512);
            assert(self.view().dom() =~= mid.view().dom());
            assert(self.view()[table] =~= mid.view()[table].update(index as int, e));
            assert(table_of(before, table) =~= mid.view()[table]);
            assert(mid.view().insert(table, mid.view()[table].update(index as int, e)) =~= before.insert(
                table,
                mid.view()[table].update(index as int, e),
            ));
            assert(self.view() =~= mid.view().insert(table, mid.view()[table].update(index as int, e)));
        }
    }

    fn flush(&mut self, addr: u64) {
        self.flushes = Ghost(self.flushes@.push(addr));
        assert(self.view() =~= old(self).view());
    }
}

/// Why a mapping could not be made.
#[derive(Debug, Clone, Copy, PartialEq, Eq, Structural)]
pub enum MapError {
    /// The frame allocator had no frame left for a new page table.
    OutOfMemory,
}

/// Virtual address of the table that entry `index` of the table at `addr`
/// points at, through the recursive mapping.
pub open spec fn child_address(addr: u64, index: u64) -> u64 {
    (addr << 9u64) | (index << 12u64)
}

/// The address of the next-level table behind entry `index` of the table at
/// `addr`: there is one when the entry is present and not huge.
pub open spec fn next_address(m: Map<u64, Seq<Entry>>, addr: u64, index: u64) -> Option<u64> {
    let e = table_of(m, addr)[index as int];
    if entry_present(e) && !entry_huge(e) {
        Some(child_address(addr, index))
    } else {
        None
    }
}

/// A page table of level 4, 3, 2 or 1, seen at virtual address `addr`.
#[derive(Debug, Clone, Copy, PartialEq, Eq, Structural)]
pub struct Table {
    pub addr: u64,
    pub level: u8,
}

impl Table {
    /// Makes every entry of the table unused.
    pub fn clear<M: TableMemory>(&self, memory: &mut M)
        requires
            old(memory).inv(),
        ensures
            final(memory).inv(),
            final(memory).tables() == old(memory).tables().insert(self.addr, unused_table()),
            final(memory).flushed() == old(memory).flushed(),
    {
        let ghost start = memory.tables();
        let mut i: usize = 0;
        while i < ENTRY_COUNT
            invariant
                memory.inv(),
                memory.flushed() == old(memory).flushed(),
                i <= 512,
                i == 0 ==> memory.tables() == start,
                i > 0 ==> memory.tables() == start.insert(
                    self.addr,
                    Seq::new(
                        512,
                        |j: int|
                            if j < i {
                                Entry { bits: 0 }
                            } else {
                                table_of(start, self.addr)[j]
                            },
                    ),
                ),
            decreases 512 - i,
        {
            let ghost before = memory.tables();
            memory.write_entry(self.addr, i, Entry::new());
            i += 1;
            proof {
                assert(table_of(before, self.addr).update(i - 1, Entry { bits: 0 }) =~= Seq::new(
                    512,
                    |j: int|
                        if j < i {
                            Entry { bits: 0 }
                        } else {
                            table_of(start, self.addr)[j]
                        },
                ));
                assert(memory.tables() =~= start.insert(
                    self.addr,
                    Seq::new(
                        512,
                        |j: int|
                            if j < i {
                                Entry { bits: 0 }
                            } else {
                                table_of(start, self.addr)[j]
                            },
                    ),
                ));
            }
        }
        proof {
            assert(Seq::new(
                512,
                |j: int|
                    if j < 512 {
                        Entry { bits: 0 }
                    } else {
                        table_of(start, self.addr)[j]
                    },
            ) =~= unused_table());
        }
    }

    /// Address of the next-level table behind entry `index`, if the entry is
    /// present and not huge.
    pub fn next_table_address<M: TableMemory>(&self, memory: &M, index: usize) -> (r: Option<u64>)
        requires
            memory.inv(),
            index < 512,
        ensures
            r == next_address(memory.tables(), self.addr, index as u64),
    {
        let e = memory.read_entry(self.addr, index);
        if e.bits & PRESENT != 0 && e.bits & HUGE_PAGE == 0 {
            Some((self.addr << 9) | ((index as u64) << 12))
        } else {
            None
        }
    }

    /// The next-level table behind entry `index`, if the entry is present
    /// and not huge.
    pub fn next_table<M: TableMemory>(&self, memory: &M, index: usize) -> (r: Option<Table>)
        requires
            memory.inv(),
            index < 512,
            self.level >= 2,
        ensures
            r == (match next_address(memory.tables(), self.addr, index as u64) {
                Some(a) => Some(Table { addr: a, level: (self.level - 1) as u8 }),
                None => None,
            }),
    {
        match self.next_table_address(memory, index) {
            Some(addr) => Some(Table { addr, level: self.level - 1 }),
            None => None,
        }
    }

    /// The next-level table behind entry `index`; where there is none, takes
    /// a frame from `allocator`, points the entry at it (present, writable)
    /// and clears the new table.
    pub fn next_table_create<M: TableMemory, A: FrameAllocator>(
        &self,
        memory: &mut M,
        allocator: &mut A,
        index: usize,
    ) -> (r: Result<Table, MapError>)
        requires
            old(memory).inv(),
            old(allocator).inv(),
            index < 512,
            self.level >= 2,
        ensures
            final(memory).inv(),
            final(allocator).inv(),
            final(memory).flushed() == old(memory).flushed(),
            match next_address(old(memory).tables(), self.addr, index as u64) {
                Some(a) => {
                    &&& r == Ok::<Table, MapError>(Table { addr: a, level: (self.level - 1) as u8 })
                    &&& final(memory).tables() == old(memory).tables()
                    &&& *final(allocator) == *old(allocator)
                },
                None => match r {
                    Ok(t) => {
                        &&& t == Table {
                            addr: child_address(self.addr, index as u64),
                            level: (self.level - 1) as u8,
                        }
                        &&& exists|f: Frame|
                            {
                                &&& #[trigger] A::allocation(*old(allocator), *final(allocator), Some(f))
                                &&& final(memory).tables() == with_entry(
                                    old(memory).tables(),
                                    self.addr,
                                    index as int,
                                    entry_for(f.number, PRESENT | WRITABLE),
                                ).insert(t.addr, unused_table())
                            }
                    },
                    Err(e) => {
                        &&& e == MapError::OutOfMemory
                        &&& A::allocation(*old(allocator), *final(allocator), None)
                        &&& final(memory).tables() == old(memory).tables()
                    },
                },
            },
    {
        match self.next_table_address(memory, index) {
            Some(addr) => Ok(Table { addr, level: self.level - 1 }),
            None => {
                match allocator.allocate_frame() {
                    None => Err(MapError::OutOfMemory),
                    Some(frame) => {
                        let mut e = Entry::new();
                        e.set(frame, PRESENT | WRITABLE);
                        memory.write_entry(self.addr, index, e);
                        let child = Table {
                            addr: (self.addr << 9) | ((index as u64) << 12),
                            level: self.level - 1,
                        };
                        child.clear(memory);
                        Ok(child)
                    },
                }
            },
        }
    }
}

} // verus!
