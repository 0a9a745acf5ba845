use vstd::prelude::*;
use vstd::set_lib::{lemma_len_subset, lemma_len_union, lemma_int_range, set_int_range};
use crate::multiboot2::{
    MemoryArea, frame_of, area_last_addr, area_first_frame, area_last_frame, area_holds,
};

verus! {

/// Size in bytes of a page or a frame.
pub const PAGE_SIZE: u64 = 4096;

/// Number of the highest frame that a 64-bit address can name.
pub const MAX_FRAME: u64 = 0xF_FFFF_FFFF_FFFF;

/// A 4 KiB physical frame, identified by its number.
#[derive(Debug, Clone, Copy, PartialEq, Eq, Structural)]
pub struct Frame {
    pub number: u64,
}

impl Frame {
    /// The frame that holds the byte at `address`.
    pub fn new(address: u64) -> (r: Frame)
        ensures
            r.number == frame_of(address as int),
            r.number <= MAX_FRAME,
    {
        Frame { number: address / PAGE_SIZE }
    }

    /// First byte address of the frame.
    pub fn address(&self) -> (r: u64)
        requires
            self.number <= MAX_FRAME,
        ensures
            r == self.number * 4096,
    {
        self.number * PAGE_SIZE
    }
}

/// Frame `f` lies in one of `areas`.
pub open spec fn in_some_area(areas: Seq<MemoryArea>, f: int) -> bool {
    exists|i: int| 0 <= i < areas.len() && #[trigger] area_holds(areas[i], f)
}

/// A source of free physical frames.
pub trait FrameAllocator: Sized {
    /// The allocator's internal invariant.
    spec fn inv(&self) -> bool;

    /// What one call of `allocate_frame` that returned `r` did, from state
    /// `pre` to state `post`.
    spec fn allocation(pre: Self, post: Self, r: Option<Frame>) -> bool;

    /// Hands out a free frame, or `None` when none is left.
    fn allocate_frame(&mut self) -> (r: Option<Frame>)
        requires
            old(self).inv(),
        ensures
            final(self).inv(),
            Self::allocation(*old(self), *final(self), r),
            r matches Some(f) ==> f.number <= MAX_FRAME,
    ;

    /// Gives a frame back. The allocators here never reclaim: the call
    /// leaves the allocator as it was.
    fn deallocate_frame(&mut self, frame: Frame)
        ensures
            *final(self) == *old(self),
    ;
}

/// `results[i]` is what the `i`-th of a series of calls of
/// `allocate_frame` returned, taking the allocator from `states[i]` to
/// `states[i + 1]`.
pub open spec fn is_allocation_chain<A: FrameAllocator>(
    states: Seq<A>,
    results: Seq<Option<Frame>>,
) -> bool {
    &&& states.len() == results.len() + 1
    &&& forall|i: int|
        0 <= i < results.len() ==> A::allocation(states[i], states[i + 1], #[trigger] results[i])
}

/// Hands out 4 KiB frames from the boot loader's memory areas in ascending
/// order, stepping over the kernel image and the boot information.
pub struct AreaFrameAllocator {
    pub next_free_frame: Frame,
    pub current_area: Option<usize>,
    pub areas: Vec<MemoryArea>,
    /// The kernel image occupies the bytes `kernel_start..kernel_end`.
    pub kernel_start: u64,
    pub kernel_end: u64,
    /// The boot information occupies the bytes `multiboot_start..multiboot_end`.
    pub multiboot_start: u64,
    pub multiboot_end: u64,
}

/// Frame `f` shares a byte with the span `start..end` (end excluded).
pub open spec fn frame_overlaps(f: int, start: int, end: int) -> bool {
    f * 4096 < end && start < f * 4096 + 4096
}

/// An area that is not empty and still holds a frame at or above `next`.
pub open spec fn area_reaches(a: MemoryArea, next: int) -> bool {
    a.length > 0 && area_last_frame(a) >= next
}

/// `c` names the area of lowest base among those that still hold a frame at
/// or above `next`, the first one listed where several share that base;
/// `None` when no area does.
pub open spec fn is_lowest_area(areas: Seq<MemoryArea>, next: int, c: Option<usize>) -> bool {
    match c {
        None => forall|j: int| 0 <= j < areas.len() ==> !#[trigger] area_reaches(areas[j], next),
        Some(i) => {
            &&& i < areas.len()
            &&& area_reaches(areas[i as int], next)
            &&& forall|j: int|
                0 <= j < areas.len() && #[trigger] area_reaches(areas[j], next)
                    ==> areas[i as int].base_addr <= areas[j].base_addr
            &&& forall|j: int|
                0 <= j < i && #[trigger] area_reaches(areas[j], next) ==> areas[i as int].base_addr
                    < areas[j].base_addr
        },
    }
}

impl AreaFrameAllocator {
    /// Frame `f` lies in the kernel image.
    pub open spec fn in_kernel(&self, f: int) -> bool {
        frame_overlaps(f, self.kernel_start as int, self.kernel_end as int)
    }

    /// Frame `f` lies in the boot information.
    pub open spec fn in_boot_info(&self, f: int) -> bool {
        frame_overlaps(f, self.multiboot_start as int, self.multiboot_end as int)
    }

    /// Frame `f` may be handed out: it lies in a memory area and in neither
    /// reserved span.
    pub open spec fn usable(&self, f: int) -> bool {
        in_some_area(self.areas@, f) && !self.in_kernel(f) && !self.in_boot_info(f)
    }

    /// The allocator's internal invariant.
    pub open spec fn wf(&self) -> bool {
        &&& self.next_free_frame.number <= MAX_FRAME + 1
        &&& match self.current_area {
            None => forall|f: int|
                f >= self.next_free_frame.number ==> !#[trigger] in_some_area(self.areas@, f),
            Some(i) => {
                &&& i < self.areas@.len()
                &&& self.areas@[i as int].length > 0
                &&& area_first_frame(self.areas@[i as int]) <= self.next_free_frame.number
            },
        }
    }

    /// The allocator keeps its memory areas and reserved spans.
    pub open spec fn same_layout(&self, other: &Self) -> bool {
        &&& self.areas@ == other.areas@
        &&& self.kernel_start == other.kernel_start
        &&& self.kernel_end == other.kernel_end
        &&& self.multiboot_start == other.multiboot_start
        &&& self.multiboot_end == other.multiboot_end
    }

    /// Whether the current area is used up, so that the next step picks another.
    pub open spec fn area_spent(&self) -> int {
        match self.current_area {
            Some(i) => if i < self.areas@.len() && self.next_free_frame.number
                > area_last_frame(self.areas@[i as int]) {
                1
            } else {
                0
            },
            None => 0,
        }
    }

    /// Sets up an allocator over `memory_areas` that never hands out a frame
    /// that shares a byte with the kernel image `kernel_start..kernel_end`
    /// or with the boot information `multiboot_start..multiboot_end` (byte
    /// addresses, ends excluded). The first area is the one of lowest base,
    /// and the first candidate frame is its first frame.
    pub fn new(
        kernel_start: u64,
        kernel_end: u64,
        multiboot_start: u64,
        multiboot_end: u64,
        memory_areas: Vec<MemoryArea>,
    ) -> (r: AreaFrameAllocator)
        ensures
            r.wf(),
            r.areas@ == memory_areas@,
            r.kernel_start == kernel_start,
            r.kernel_end == kernel_end,
            r.multiboot_start == multiboot_start,
            r.multiboot_end == multiboot_end,
            is_lowest_area(memory_areas@, 0, r.current_area),
            r.next_free_frame.number == match r.current_area {
                Some(i) => area_first_frame(memory_areas@[i as int]),
                None => 0,
            },
            forall|g: int|
                0 <= g < r.next_free_frame.number ==> !#[trigger] in_some_area(r.areas@, g),
    {
        let mut allocator = AreaFrameAllocator {
            next_free_frame: Frame::new(0),
            current_area: None,
            areas: memory_areas,
            kernel_start,
            kernel_end,
            multiboot_start,
            multiboot_end,
        };
        allocator.choose_next_area();
        allocator
    }

    /// Points `current_area` at the area with the lowest base among those
    /// that still hold a frame at or above `next_free_frame`, and moves
    /// `next_free_frame` up to that area's first frame.
    fn choose_next_area(&mut self)
        requires
            old(self).next_free_frame.number <= MAX_FRAME + 1,
        ensures
            final(self).wf(),
            final(self).same_layout(old(self)),
            is_lowest_area(old(self).areas@, old(self).next_free_frame.number as int, final(self).current_area),
            final(self).next_free_frame.number == match final(self).current_area {
                Some(i) => if old(self).next_free_frame.number < area_first_frame(old(self).areas@[i as int]) {
                    area_first_frame(old(self).areas@[i as int])
                } else {
                    old(self).next_free_frame.number as int
                },
                None => old(self).next_free_frame.number as int,
            },
            old(self).next_free_frame.number <= final(self).next_free_frame.number,
            forall|f: int|
                old(self).next_free_frame.number <= f < final(self).next_free_frame.number
                    ==> !#[trigger] in_some_area(old(self).areas@, f),
            final(self).area_spent() == 0,
    {
        let next = self.next_free_frame.number;
        let mut best: Option<usize> = None;
        let mut i: usize = 0;
        while i < self.areas.len()
            invariant
                i <= self.areas@.len(),
                self.next_free_frame.number == next,
                match best {
                    None => forall|j: int|
                        0 <= j < i ==> !(self.areas@[j].length > 0 && area_last_frame(
                            self.areas@[j],
                        ) >= next),
                    Some(b) => {
                        &&& b < i
                        &&& self.areas@[b as int].length > 0
                        &&& area_last_frame(self.areas@[b as int]) >= next
                        &&& forall|j: int|
                            0 <= j < i && self.areas@[j].length > 0 && area_last_frame(
                                self.areas@[j],
                            ) >= next ==> self.areas@[b as int].base_addr
                                <= self.areas@[j].base_addr
                        &&& forall|j: int|
                            0 <= j < b && self.areas@[j].length > 0 && area_last_frame(
                                self.areas@[j],
                            ) >= next ==> self.areas@[b as int].base_addr
                                < self.areas@[j].base_addr
                    },
                },
            decreases self.areas@.len() - i,
        {
            let area = self.areas[i];
            if area.length > 0 && area.last_address() / PAGE_SIZE >= next {
                match best {
                    None => {
                        best = Some(i);
                    },
                    Some(b) => {
                        if area.base_addr < self.areas[b].base_addr {
                            best = Some(i);
                        }
                    },
                }
            }
            i += 1;
        }
        self.current_area = best;
        match best {
            None => {
                assert forall|f: int| f >= next implies !#[trigger] in_some_area(self.areas@, f) by {
                    if in_some_area(self.areas@, f) {
                        let j = choose|j: int| 0 <= j < self.areas@.len() && #[trigger] area_holds(self.areas@[j], f);
                        assert(!(self.areas@[j].length > 0 && area_last_frame(self.areas@[j]) >= next));
                    }
                }
            },
            Some(b) => {
                let start = self.areas[b].base_addr / PAGE_SIZE;
                if next < start {
                    self.next_free_frame = Frame { number: start };
                }
                let ghost a = self.areas@[b as int];
                assert forall|f: int| next <= f < self.next_free_frame.number
                    implies !#[trigger] in_some_area(self.areas@, f) by {
                    if in_some_area(self.areas@, f) {
                        let j = choose|j: int| 0 <= j < self.areas@.len() && #[trigger] area_holds(self.areas@[j], f);
                        assert(a.base_addr <= self.areas@[j].base_addr);
                        lemma_frame_of_monotone(a.base_addr as int, self.areas@[j].base_addr as int);
                    }
                }
                proof {
                    lemma_frame_of_monotone(a.base_addr as int, area_last_addr(a));
                }
            },
        }
    }
}

/// One call of `allocate_frame` from `pre` left `post` and returned `r`:
/// the layout stays, `next_free_frame` never goes down, and the result is the
/// lowest usable frame at or above `pre`'s `next_free_frame`, or `None` when
/// there is none.
pub open spec fn allocation_step(
    pre: AreaFrameAllocator,
    post: AreaFrameAllocator,
    r: Option<Frame>,
) -> bool {
    &&& post.same_layout(&pre)
    &&& pre.next_free_frame.number <= post.next_free_frame.number
    &&& match r {
        Some(f) => {
            &&& pre.next_free_frame.number <= f.number
            &&& pre.usable(f.number as int)
            &&& forall|g: int|
                pre.next_free_frame.number <= g < f.number ==> !#[trigger] pre.usable(g)
            &&& post.next_free_frame.number == f.number + 1
        },
        None => forall|g: int| g >= pre.next_free_frame.number ==> !#[trigger] pre.usable(g),
    }
}

impl FrameAllocator for AreaFrameAllocator {
    open spec fn inv(&self) -> bool {
        self.wf()
    }

    open spec fn allocation(pre: Self, post: Self, r: Option<Frame>) -> bool {
        allocation_step(pre, post, r)
    }

    /// Hands out the lowest usable frame at or above `next_free_frame`.
    fn allocate_frame(&mut self) -> (r: Option<Frame>) {
        loop
            invariant
                self.wf(),
                self.same_layout(old(self)),
                old(self).next_free_frame.number <= self.next_free_frame.number,
                forall|g: int|
                    old(self).next_free_frame.number <= g < self.next_free_frame.number
                        ==> !#[trigger] old(self).usable(g),
            decreases 2 * (MAX_FRAME + 1 - self.next_free_frame.number) + self.area_spent(),
        {
            match self.current_area {
                None => {
                    assert forall|g: int| g >= old(self).next_free_frame.number
                        implies !#[trigger] old(self).usable(g) by {
                        if g >= self.next_free_frame.number {
                            assert(!in_some_area(self.areas@, g));
                        }
                    }
                    return None;
                },
                Some(i) => {
                    let frame = Frame { number: self.next_free_frame.number };
                    let last = self.areas[i].last_address() / PAGE_SIZE;
                    if frame.number > last {
                        self.choose_next_area();
                        assert forall|g: int|
                            old(self).next_free_frame.number <= g < self.next_free_frame.number
                            implies !#[trigger] old(self).usable(g) by {
                            if g >= frame.number {
                                assert(!in_some_area(self.areas@, g));
                            }
                        }
                    } else if let Some(past) = span_skip(frame.number, self.kernel_start, self.kernel_end) {
                        self.next_free_frame = Frame { number: past };
                        assert forall|g: int|
                            old(self).next_free_frame.number <= g < self.next_free_frame.number
                            implies !#[trigger] old(self).usable(g) by {
                            if g >= frame.number {
                                assert(old(self).in_kernel(g));
                            }
                        }
                    } else if let Some(past) = span_skip(frame.number, self.multiboot_start, self.multiboot_end) {
                        self.next_free_frame = Frame { number: past };
                        assert forall|g: int|
                            old(self).next_free_frame.number <= g < self.next_free_frame.number
                            implies !#[trigger] old(self).usable(g) by {
                            if g >= frame.number {
                                assert(old(self).in_boot_info(g));
                            }
                        }
                    } else {
                        proof {
                            let a = self.areas@[i as int];
                            lemma_last_frame_bound(a);
                            assert(area_holds(a, frame.number as int));
                            assert(in_some_area(self.areas@, frame.number as int));
                        }
                        self.next_free_frame = Frame { number: frame.number + 1 };
                        return Some(frame);
                    }
                },
            }
        }
    }

    fn deallocate_frame(&mut self, _frame: Frame) {
    }
}

/// Sets up the boot allocator in `slot` (see `AreaFrameAllocator::new`).
pub fn init(
    slot: &mut Option<AreaFrameAllocator>,
    kernel_start: u64,
    kernel_end: u64,
    multiboot_start: u64,
    multiboot_end: u64,
    memory_areas: Vec<MemoryArea>,
)
    ensures
        *final(slot) matches Some(a) && {
            &&& a.wf()
            &&& a.areas@ == memory_areas@
            &&& a.kernel_start == kernel_start
            &&& a.kernel_end == kernel_end
            &&& a.multiboot_start == multiboot_start
            &&& a.multiboot_end == multiboot_end
            &&& forall|g: int|
                0 <= g < a.next_free_frame.number ==> !#[trigger] in_some_area(a.areas@, g)
        },
{
    *slot = Some(
        AreaFrameAllocator::new(
            kernel_start,
            kernel_end,
            multiboot_start,
            multiboot_end,
            memory_areas,
        ),
    );
}

/// Takes a frame from the boot allocator in `slot`; `None` when it has not
/// been set up or has run out.
pub fn allocate(slot: &mut Option<AreaFrameAllocator>) -> (r: Option<Frame>)
    requires
        *old(slot) matches Some(a) ==> a.wf(),
    ensures
        match *old(slot) {
            None => r is None && *final(slot) == *old(slot),
            Some(pre) => *final(slot) matches Some(post) && post.wf() && allocation_step(
                pre,
                post,
                r,
            ),
        },
        r matches Some(f) ==> f.number <= MAX_FRAME,
{
    match slot {
        Some(al) => al.allocate_frame(),
        None => None,
    }
}

/// `results[i]` is what the `i`-th call of `allocate_frame` returned, taking
/// the allocator from `states[i]` to `states[i + 1]`.
pub open spec fn is_allocation_run(
    states: Seq<AreaFrameAllocator>,
    results: Seq<Option<Frame>>,
) -> bool {
    &&& states.len() == results.len() + 1
    &&& forall|i: int|
        0 <= i < results.len() ==> allocation_step(states[i], states[i + 1], #[trigger] results[i])
}

/// Along a run the layout stays and `next_free_frame` never goes down.
proof fn lemma_run_prefix(states: Seq<AreaFrameAllocator>, results: Seq<Option<Frame>>, i: int, j: int)
    requires
        is_allocation_run(states, results),
        0 <= i <= j < states.len(),
    ensures
        states[j].same_layout(&states[i]),
        states[i].next_free_frame.number <= states[j].next_free_frame.number,
    decreases j - i,
{
    if i < j {
        lemma_run_prefix(states, results, i, j - 1);
        assert(allocation_step(states[j - 1], states[j], results[j - 1]));
    }
}

/// A frame handed out in a run lies below the state's `next_free_frame`
/// from then on.
proof fn lemma_returned_below_next(
    states: Seq<AreaFrameAllocator>,
    results: Seq<Option<Frame>>,
    i: int,
    j: int,
)
    requires
        is_allocation_run(states, results),
        0 <= i < j < states.len(),
        results[i] is Some,
    ensures
        results[i]->0.number < states[j].next_free_frame.number,
{
    assert(allocation_step(states[i], states[i + 1], results[i]));
    lemma_run_prefix(states, results, i + 1, j);
}

/// The frames handed out along any run of the allocator come in strictly
/// increasing order.
pub proof fn lemma_allocations_increase(
    states: Seq<AreaFrameAllocator>,
    results: Seq<Option<Frame>>,
    i: int,
    j: int,
)
    requires
        is_allocation_run(states, results),
        0 <= i < j < results.len(),
        results[i] is Some,
        results[j] is Some,
    ensures
        results[i]->0.number < results[j]->0.number,
{
    lemma_returned_below_next(states, results, i, j);
    assert(allocation_step(states[j], states[j + 1], results[j]));
}

/// No frame is handed out twice along any run of the allocator.
pub proof fn lemma_allocations_unique(
    states: Seq<AreaFrameAllocator>,
    results: Seq<Option<Frame>>,
    i: int,
    j: int,
)
    requires
        is_allocation_run(states, results),
        0 <= i < results.len(),
        0 <= j < results.len(),
        i != j,
        results[i] is Some,
        results[j] is Some,
    ensures
        results[i] != results[j],
{
    if i < j {
        lemma_allocations_increase(states, results, i, j);
    } else {
        lemma_allocations_increase(states, results, j, i);
    }
}

/// Every frame handed out along a run lies in a memory area and outside the
/// kernel image and the boot information that the allocator started with.
pub proof fn lemma_allocations_avoid_reserved(
    states: Seq<AreaFrameAllocator>,
    results: Seq<Option<Frame>>,
    i: int,
)
    requires
        is_allocation_run(states, results),
        0 <= i < results.len(),
        results[i] is Some,
    ensures
        in_some_area(states[0].areas@, results[i]->0.number as int),
        !states[0].in_kernel(results[i]->0.number as int),
        !states[0].in_boot_info(results[i]->0.number as int),
{
    lemma_run_prefix(states, results, 0, i);
    assert(allocation_step(states[i], states[i + 1], results[i]));
}

/// Once the allocator has returned `None`, every later call returns `None`.
pub proof fn lemma_exhaustion_is_final(
    states: Seq<AreaFrameAllocator>,
    results: Seq<Option<Frame>>,
    i: int,
    j: int,
)
    requires
        is_allocation_run(states, results),
        0 <= i < j < results.len(),
        results[i] is None,
    ensures
        results[j] is None,
{
    assert(allocation_step(states[i], states[i + 1], results[i]));
    lemma_run_prefix(states, results, i + 1, j);
    assert(allocation_step(states[j], states[j + 1], results[j]));
    if let Some(f) = results[j] {
        assert(states[j].usable(f.number as int));
        assert(states[i].usable(f.number as int));
    }
}

/// While every call has returned a frame, each call moved
/// `next_free_frame` up by at least one.
proof fn lemma_run_progress(states: Seq<AreaFrameAllocator>, results: Seq<Option<Frame>>, k: int)
    requires
        is_allocation_run(states, results),
        0 <= k <= results.len(),
        forall|i: int| 0 <= i < k ==> (#[trigger] results[i]) is Some,
    ensures
        states[k].next_free_frame.number >= states[0].next_free_frame.number + k,
    decreases k,
{
    if k > 0 {
        lemma_run_progress(states, results, k - 1);
        assert(results[k - 1] is Some);
        assert(allocation_step(states[k - 1], states[k], results[k - 1]));
    }
}

/// The allocator runs out: a run from a well-formed state with more calls
/// than there are frames left above `next_free_frame` ends in `None`.
pub proof fn lemma_allocations_run_out(states: Seq<AreaFrameAllocator>, results: Seq<Option<Frame>>)
    requires
        is_allocation_run(states, results),
        states[0].wf(),
        results.len() > MAX_FRAME + 1 - states[0].next_free_frame.number,
    ensures
        results.last() is None,
{
    let n = results.len() as int;
    if results[n - 1] is Some {
        assert forall|i: int| 0 <= i < n implies (#[trigger] results[i]) is Some by {
            if i < n - 1 && results[i] is None {
                lemma_exhaustion_is_final(states, results, i, n - 1);
            }
        }
        lemma_run_progress(states, results, n);
        assert(allocation_step(states[n - 1], states[n], results[n - 1]));
        lemma_run_prefix(states, results, 0, n - 1);
        let f = results[n - 1]->0;
        let j = choose|j: int|
            0 <= j < states[0].areas@.len() && #[trigger] area_holds(states[0].areas@[j], f.number as int);
        lemma_last_frame_bound(states[0].areas@[j]);
    }
}

/// Where frame `f` shares a byte with the span `start..end`, the first frame
/// past the span; every frame from `f` up to it shares a byte with the span.
fn span_skip(f: u64, start: u64, end: u64) -> (r: Option<u64>)
    requires
        f <= MAX_FRAME,
    ensures
        r is Some == frame_overlaps(f as int, start as int, end as int),
        r matches Some(p) ==> f < p <= MAX_FRAME + 1 && forall|g: int|
            f <= g < p ==> #[trigger] frame_overlaps(g, start as int, end as int),
{
    proof {
        lemma_overlap(f as int, start as int, end as int);
    }
    if end >= 1 && start / PAGE_SIZE <= f && f <= (end - 1) / PAGE_SIZE {
        let p = (end - 1) / PAGE_SIZE + 1;
        assert forall|g: int| f <= g < p implies #[trigger] frame_overlaps(
            g,
            start as int,
            end as int,
        ) by {
            lemma_overlap(g, start as int, end as int);
        }
        Some(p)
    } else {
        None
    }
}

/// A frame shares a byte with a span exactly when its number lies between
/// the frame of the span's first byte and the frame of its last byte.
proof fn lemma_overlap(f: int, start: int, end: int)
    requires
        0 <= start,
        0 <= end,
        0 <= f,
    ensures
        frame_overlaps(f, start, end) == (end >= 1 && start / 4096 <= f && f <= (end - 1) / 4096),
{
    assert(start / 4096 <= f <==> start < f * 4096 + 4096) by (nonlinear_arith)
        requires
            0 <= start,
            0 <= f,
    ;
    if end >= 1 {
        assert(f <= (end - 1) / 4096 <==> f * 4096 < end) by (nonlinear_arith)
            requires
                1 <= end,
                0 <= f,
        ;
    } else {
        assert(f * 4096 >= 0) by (nonlinear_arith)
            requires
                0 <= f,
        ;
    }
}

/// Number of frames that the areas touch, counted area by area.
pub open spec fn area_frame_count(areas: Seq<MemoryArea>) -> int
    decreases areas.len(),
{
    if areas.len() == 0 {
        0
    } else {
        let a = areas.last();
        area_frame_count(areas.drop_last()) + if a.length > 0 {
            area_last_frame(a) - area_first_frame(a) + 1
        } else {
            0
        }
    }
}

/// The frames that lie in some of `areas`.
spec fn frames_of_areas(areas: Seq<MemoryArea>) -> Set<int> {
    Set::new(|f: int| in_some_area(areas, f))
}

/// The frames of the areas are finitely many, no more than the areas' count.
proof fn lemma_frames_of_areas(areas: Seq<MemoryArea>)
    ensures
        frames_of_areas(areas).finite(),
        frames_of_areas(areas).len() <= area_frame_count(areas),
    decreases areas.len(),
{
    if areas.len() == 0 {
        assert(frames_of_areas(areas) =~= Set::<int>::empty());
    } else {
        let rest = areas.drop_last();
        let a = areas.last();
        lemma_frames_of_areas(rest);
        let own = if a.length > 0 {
            set_int_range(area_first_frame(a), area_last_frame(a) + 1)
        } else {
            Set::<int>::empty()
        };
        if a.length > 0 {
            lemma_frame_of_monotone(a.base_addr as int, area_last_addr(a));
            lemma_int_range(area_first_frame(a), area_last_frame(a) + 1);
        }
        assert forall|f: int| frames_of_areas(areas).contains(f) == frames_of_areas(rest).union(
            own,
        ).contains(f) by {
            if in_some_area(areas, f) {
                let j = choose|j: int| 0 <= j < areas.len() && #[trigger] area_holds(areas[j], f);
                if j < areas.len() - 1 {
                    assert(rest[j] == areas[j]);
                    assert(in_some_area(rest, f));
                }
            }
            if in_some_area(rest, f) {
                let j = choose|j: int| 0 <= j < rest.len() && #[trigger] area_holds(rest[j], f);
                assert(areas[j] == rest[j]);
            }
            if own.contains(f) {
                assert(area_holds(areas[areas.len() - 1], f));
            }
        }
        assert(frames_of_areas(areas) =~= frames_of_areas(rest).union(own));
        lemma_len_union(frames_of_areas(rest), own);
    }
}

/// The allocator runs out within the frames of its areas: a run with more
/// calls than the areas have frames ends in `None`.
pub proof fn lemma_allocations_bounded_by_area_frames(
    states: Seq<AreaFrameAllocator>,
    results: Seq<Option<Frame>>,
)
    requires
        is_allocation_run(states, results),
        results.len() > area_frame_count(states[0].areas@),
    ensures
        results.last() is None,
{
    let n = results.len() as int;
    if results[n - 1] is Some {
        assert forall|i: int| 0 <= i < n implies (#[trigger] results[i]) is Some by {
            if i < n - 1 && results[i] is None {
                lemma_exhaustion_is_final(states, results, i, n - 1);
            }
        }
        let fs = Seq::new(n as nat, |i: int| results[i]->0.number as int);
        assert forall|i: int, j: int| 0 <= i < fs.len() && 0 <= j < fs.len() && i != j implies fs[i]
            != fs[j] by {
            if i < j {
                lemma_allocations_increase(states, results, i, j);
            } else {
                lemma_allocations_increase(states, results, j, i);
            }
        }
        assert(fs.no_duplicates());
        fs.unique_seq_to_set();
        lemma_frames_of_areas(states[0].areas@);
        assert forall|f: int| fs.to_set().contains(f) implies frames_of_areas(
            states[0].areas@,
        ).contains(f) by {
            let i = choose|i: int| 0 <= i < fs.len() && fs[i] == f;
            lemma_allocations_avoid_reserved(states, results, i);
        }
        lemma_len_subset(fs.to_set(), frames_of_areas(states[0].areas@));
    }
}

/// No area reaches past the last frame of the address space.
proof fn lemma_last_frame_bound(a: MemoryArea)
    requires
        a.length > 0,
    ensures
        area_last_frame(a) <= MAX_FRAME,
{
    let l = area_last_addr(a);
    assert(l <= u64::MAX);
    assert(l / 4096 <= u64::MAX as int / 4096) by (nonlinear_arith)
        requires
            0 <= l <= u64::MAX,
    ;
}

proof fn lemma_frame_of_monotone(a: int, b: int)
    requires
        0 <= a <= b,
    ensures
        frame_of(a) <= frame_of(b),
{
    assert(a / 4096 <= b / 4096) by (nonlinear_arith)
        requires
            0 <= a <= b,
    ;
}

} // verus!
