use vstd::prelude::*;

verus! {

/// The type the boot loader gives to RAM that the kernel may use.
pub const AREA_AVAILABLE: u32 = 1;

/// One entry of the boot loader's memory map: `length` bytes from `base_addr`.
#[derive(Debug, Clone, Copy, PartialEq, Eq, Structural)]
pub struct MemoryArea {
    pub base_addr: u64,
    pub length: u64,
    pub typ: u32,
}

/// Number of the frame that holds byte address `addr`.
pub open spec fn frame_of(addr: int) -> int {
    addr / 4096
}

/// Last byte address covered by a non-empty area, clipped to the address space.
pub open spec fn area_last_addr(a: MemoryArea) -> int {
    if a.base_addr + a.length - 1 > u64::MAX {
        u64::MAX as int
    } else {
        a.base_addr + a.length - 1
    }
}

/// Number of the first frame that the area touches.
pub open spec fn area_first_frame(a: MemoryArea) -> int {
    frame_of(a.base_addr as int)
}

/// Number of the last frame that the area touches.
pub open spec fn area_last_frame(a: MemoryArea) -> int {
    frame_of(area_last_addr(a))
}

/// Frame `f` lies in the area.
pub open spec fn area_holds(a: MemoryArea, f: int) -> bool {
    a.length > 0 && area_first_frame(a) <= f <= area_last_frame(a)
}

impl MemoryArea {
    /// Last byte address of a non-empty area (the end of the address space
    /// where base and length would run past it).
    pub fn last_address(&self) -> (r: u64)
        requires
            self.length > 0,
        ensures
            r == area_last_addr(*self),
    {
        if self.length - 1 > u64::MAX - self.base_addr {
            u64::MAX
        } else {
            self.base_addr + (self.length - 1)
        }
    }
}

/// Little-endian 32-bit value of the four bytes at `o`.
pub open spec fn le32(b: Seq<u8>, o: int) -> int {
    b[o] + b[o + 1] * 0x100 + b[o + 2] * 0x1_0000 + b[o + 3] * 0x100_0000
}

/// Little-endian 64-bit value of the eight bytes at `o`.
pub open spec fn le64(b: Seq<u8>, o: int) -> int {
    le32(b, o) + le32(b, o + 4) * 0x1_0000_0000
}

/// Four bytes hold a 32-bit value.
proof fn lemma_le32_bound(b: Seq<u8>, o: int)
    ensures
        0 <= le32(b, o) <= u32::MAX,
{
}

/// Reads the little-endian 32-bit value at `o`.
pub fn read_u32(b: &Vec<u8>, o: usize) -> (r: u32)
    requires
        o + 4 <= b@.len(),
    ensures
        r == le32(b@, o as int),
{
    let _n = b.len();
    b[o] as u32 + (b[o + 1] as u32) * 0x100 + (b[o + 2] as u32) * 0x1_0000 + (b[o + 3] as u32)
        * 0x100_0000
}

/// Reads the little-endian 64-bit value at `o`.
pub fn read_u64(b: &Vec<u8>, o: usize) -> (r: u64)
    requires
        o + 8 <= b@.len(),
    ensures
        r == le64(b@, o as int),
{
    let _n = b.len();
    read_u32(b, o) as u64 + (read_u32(b, o + 4) as u64) * 0x1_0000_0000
}

/// Type of the tag that holds the memory map.
pub const TAG_MEMORY_MAP: u32 = 6;

/// Type of the tag that holds the kernel's ELF section headers.
pub const TAG_ELF_SECTIONS: u32 = 9;

/// Bytes of the fixed part of a memory map entry that are read.
pub const AREA_ENTRY_BYTES: usize = 24;

/// Bytes of one 64-bit ELF section header.
pub const SECTION_HEADER_BYTES: usize = 64;

/// One tag of the boot information: its type, its size in bytes, and where
/// it starts.
#[derive(Debug, Clone, Copy, PartialEq, Eq, Structural)]
pub struct Tag {
    pub typ: u32,
    pub size: u32,
    pub offset: usize,
}

/// `x` rounded up to a multiple of 8.
pub open spec fn align8(x: int) -> int {
    (x + 7) / 8 * 8
}

/// The tags from offset `o` on, within the first `total` bytes: the walk ends
/// at the end tag (type 0, size 8), or at a tag that is shorter than its own
/// header or runs past `total`.
pub open spec fn tag_walk(b: Seq<u8>, total: int, o: int) -> Seq<Tag>
    decreases total + 8 - o,
    via tag_walk_decreases
{
    if o < 0 || o + 8 > total {
        Seq::empty()
    } else {
        let typ = le32(b, o);
        let size = le32(b, o + 4);
        if (typ == 0 && size == 8) || size < 8 || o + size > total {
            Seq::empty()
        } else {
            seq![Tag { typ: typ as u32, size: size as u32, offset: o as usize }] + tag_walk(
                b,
                total,
                align8(o + size),
            )
        }
    }
}

#[via_fn]
proof fn tag_walk_decreases(b: Seq<u8>, total: int, o: int) {
    if !(o < 0 || o + 8 > total) {
        let size = le32(b, o + 4);
        if !((le32(b, o) == 0 && size == 8) || size < 8 || o + size > total) {
            lemma_align8(o + size);
        }
    }
}

/// Rounding up to a multiple of 8 moves up by less than 8.
proof fn lemma_align8(x: int)
    requires
        x >= 0,
    ensures
        x <= align8(x) < x + 8,
        align8(x) % 8 == 0,
{
    assert(x <= (x + 7) / 8 * 8 < x + 8) by (nonlinear_arith)
        requires
            x >= 0,
    ;
    assert(((x + 7) / 8 * 8) % 8 == 0) by (nonlinear_arith);
}

/// The boot loader's information block, copied out of memory.
pub struct BootInformation {
    pub total_size: u32,
    pub bytes: Vec<u8>,
}

/// `b` starts with a total size that it holds, and the end tag sits in the
/// last eight of those bytes.
pub open spec fn valid_boot_information(b: Seq<u8>) -> bool {
    &&& b.len() >= 8
    &&& 16 <= le32(b, 0) <= b.len()
    &&& le32(b, le32(b, 0) - 8) == 0
    &&& le32(b, le32(b, 0) - 4) == 8
}

/// Section type of the null section header.
pub const SECTION_UNUSED: u32 = 0;

/// One ELF section of the kernel image.
#[derive(Debug, Clone, Copy, PartialEq, Eq, Structural)]
pub struct ElfSection {
    pub typ: u32,
    pub flags: u64,
    pub addr: u64,
    pub size: u64,
}

/// The section header at `o`.
pub open spec fn section_at(b: Seq<u8>, o: int) -> ElfSection {
    ElfSection {
        typ: le32(b, o + 4) as u32,
        flags: le64(b, o + 8) as u64,
        addr: le64(b, o + 16) as u64,
        size: le64(b, o + 32) as u64,
    }
}

/// The section headers in use among `remaining` headers `step` bytes apart
/// from `pos`, as far as whole headers lie before `end`.
pub open spec fn section_walk(b: Seq<u8>, pos: int, end: int, step: int, remaining: int) -> Seq<
    ElfSection,
>
    decreases remaining,
{
    if remaining <= 0 || pos + 64 > end {
        Seq::empty()
    } else {
        let rest = section_walk(b, pos + step, end, step, remaining - 1);
        if section_at(b, pos).typ == SECTION_UNUSED {
            rest
        } else {
            seq![section_at(b, pos)] + rest
        }
    }
}

/// The memory map entry at `o`.
pub open spec fn area_at(b: Seq<u8>, o: int) -> MemoryArea {
    MemoryArea {
        base_addr: le64(b, o) as u64,
        length: le64(b, o + 8) as u64,
        typ: le32(b, o + 16) as u32,
    }
}

/// The available areas among the entries `step` bytes apart from `pos`, as
/// far as whole entries lie before `end`.
pub open spec fn area_walk(b: Seq<u8>, pos: int, end: int, step: int) -> Seq<MemoryArea>
    decreases if end >= pos {
        end - pos
    } else {
        0
    },
    when step > 0
{
    if pos + 24 > end {
        Seq::empty()
    } else {
        let rest = area_walk(b, pos + step, end, step);
        if area_at(b, pos).typ == AREA_AVAILABLE {
            seq![area_at(b, pos)] + rest
        } else {
            rest
        }
    }
}

/// Reads the block of boot information at the start of `bytes`; `None` when
/// its size does not fit or its end tag is missing.
pub fn load(bytes: Vec<u8>) -> (r: Option<BootInformation>)
    ensures
        match r {
            Some(info) => valid_boot_information(bytes@) && info.bytes@ == bytes@
                && info.total_size == le32(bytes@, 0),
            None => !valid_boot_information(bytes@),
        },
{
    if bytes.len() < 8 {
        return None;
    }
    let total_size = read_u32(&bytes, 0);
    if total_size < 16 || total_size as usize > bytes.len() {
        return None;
    }
    let end = total_size as usize - 8;
    if read_u32(&bytes, end) != 0 || read_u32(&bytes, end + 4) != 8 {
        return None;
    }
    Some(BootInformation { total_size, bytes })
}

impl BootInformation {
    /// The block is well formed.
    pub open spec fn wf(&self) -> bool {
        &&& valid_boot_information(self.bytes@)
        &&& self.total_size == le32(self.bytes@, 0)
    }

    /// The tags before the end tag.
    pub fn tags(&self) -> (r: Vec<Tag>)
        requires
            self.wf(),
        ensures
            r@ == tag_walk(self.bytes@, self.total_size as int, 8),
    {
        let b = &self.bytes;
        let total = self.total_size as usize;
        let mut r: Vec<Tag> = Vec::new();
        let mut o: usize = 8;
        while o <= total && total - o >= 8
            invariant
                b@ == self.bytes@,
                total == self.total_size,
                total <= b@.len(),
                8 <= o,
                r@ + tag_walk(b@, total as int, o as int) == tag_walk(b@, total as int, 8),
            decreases total - o,
        {
            let typ = read_u32(b, o);
            let size = read_u32(b, o + 4);
            if (typ == 0 && size == 8) || size < 8 || size as usize > total - o {
                assert(tag_walk(b@, total as int, o as int) =~= Seq::<Tag>::empty());
                assert(r@ + Seq::<Tag>::empty() =~= r@);
                return r;
            }
            let ghost old_o = o;
            let ghost old_r = r@;
            r.push(Tag { typ, size, offset: o });
            let next = o + size as usize;
            proof {
                lemma_align8(next as int);
                assert(r@ + tag_walk(b@, total as int, align8(next as int)) =~= old_r + tag_walk(
                    b@,
                    total as int,
                    old_o as int,
                ));
            }
            if total - next < 8 {
                assert(tag_walk(b@, total as int, align8(next as int)) =~= Seq::<Tag>::empty());
                assert(r@ + Seq::<Tag>::empty() =~= r@);
                return r;
            }
            o = if next % 8 == 0 {
                next
            } else {
                next - next % 8 + 8
            };
            assert(o as int == align8(next as int));
        }
        assert(tag_walk(b@, total as int, o as int) =~= Seq::<Tag>::empty());
        assert(r@ + Seq::<Tag>::empty() =~= r@);
        r
    }

    /// The first tag of type `typ`.
    pub fn get_tag(&self, typ: u32) -> (r: Option<Tag>)
        requires
            self.wf(),
        ensures
            match r {
                Some(t) => exists|i: int|
                    is_first_tag(tag_walk(self.bytes@, self.total_size as int, 8), i, typ)
                        && tag_walk(self.bytes@, self.total_size as int, 8)[i] == t,
                None => forall|j: int|
                    0 <= j < tag_walk(self.bytes@, self.total_size as int, 8).len()
                        ==> #[trigger] tag_walk(self.bytes@, self.total_size as int, 8)[j].typ
                        != typ,
            },
    {
        let tags = self.tags();
        let mut i: usize = 0;
        while i < tags.len()
            invariant
                tags@ == tag_walk(self.bytes@, self.total_size as int, 8),
                i <= tags@.len(),
                forall|j: int| 0 <= j < i ==> #[trigger] tags@[j].typ != typ,
            decreases tags@.len() - i,
        {
            if tags[i].typ == typ {
                assert(is_first_tag(tags@, i as int, typ));
                return Some(tags[i]);
            }
            i += 1;
        }
        None
    }
}

/// Every tag of a walk lies within `total` bytes and holds at least its
/// header.
proof fn lemma_tag_walk_bounds(b: Seq<u8>, total: int, o: int)
    requires
        o >= 0,
        total <= usize::MAX,
    ensures
        forall|i: int|
            0 <= i < tag_walk(b, total, o).len() ==> {
                let t = #[trigger] tag_walk(b, total, o)[i];
                &&& o <= t.offset
                &&& t.size >= 8
                &&& t.offset + t.size <= total
            },
    decreases total + 8 - o,
{
    if !(o + 8 > total) {
        let size = le32(b, o + 4);
        if !((le32(b, o) == 0 && size == 8) || size < 8 || o + size > total) {
            lemma_le32_bound(b, o);
            lemma_le32_bound(b, o + 4);
            lemma_align8(o + size);
            lemma_tag_walk_bounds(b, total, align8(o + size));
            let rest = tag_walk(b, total, align8(o + size));
            assert forall|i: int| 1 <= i < tag_walk(b, total, o).len() implies tag_walk(
                b,
                total,
                o,
            )[i] == rest[i - 1] by {}
        }
    }
}

/// The memory map tag: where it starts, its size and the size of one entry.
#[derive(Debug, Clone, Copy, PartialEq, Eq, Structural)]
pub struct MemoryMapTag {
    pub offset: usize,
    pub size: u32,
    pub entry_size: u32,
    pub entry_version: u32,
}

/// The kernel's ELF sections tag: where it starts, its size, and how many
/// section headers of what size it holds.
#[derive(Debug, Clone, Copy, PartialEq, Eq, Structural)]
pub struct ElfSectionsTag {
    pub offset: usize,
    pub size: u32,
    pub number_of_sections: u32,
    pub entry_size: u32,
    pub shndx: u32,
}

/// `tags[i]` is the first tag of type `typ`.
pub open spec fn is_first_tag(tags: Seq<Tag>, i: int, typ: u32) -> bool {
    &&& 0 <= i < tags.len()
    &&& tags[i].typ == typ
    &&& forall|j: int| 0 <= j < i ==> #[trigger] tags[j].typ != typ
}

/// The header of the memory map tag `t`.
pub open spec fn memory_map_header(b: Seq<u8>, t: Tag) -> MemoryMapTag {
    MemoryMapTag {
        offset: t.offset,
        size: t.size,
        entry_size: le32(b, t.offset + 8) as u32,
        entry_version: le32(b, t.offset + 12) as u32,
    }
}

impl BootInformation {
    /// The first memory map tag, if there is one and it holds its header.
    pub fn memory_map_tag(&self) -> (r: Option<MemoryMapTag>)
        requires
            self.wf(),
        ensures
            match r {
                Some(m) => {
                    &&& exists|i: int|
                        is_first_tag(tag_walk(self.bytes@, self.total_size as int, 8), i, TAG_MEMORY_MAP)
                            && #[trigger] tag_walk(self.bytes@, self.total_size as int, 8)[i].size >= 16
                            && m == memory_map_header(
                            self.bytes@,
                            tag_walk(self.bytes@, self.total_size as int, 8)[i],
                        )
                    &&& m.size >= 16
                    &&& m.offset + m.size <= self.total_size
                },
                None => (forall|j: int|
                    0 <= j < tag_walk(self.bytes@, self.total_size as int, 8).len()
                        ==> #[trigger] tag_walk(self.bytes@, self.total_size as int, 8)[j].typ
                        != TAG_MEMORY_MAP) || exists|i: int|
                    is_first_tag(tag_walk(self.bytes@, self.total_size as int, 8), i, TAG_MEMORY_MAP)
                        && #[trigger] tag_walk(self.bytes@, self.total_size as int, 8)[i].size < 16,
            },
    {
        match self.get_tag(TAG_MEMORY_MAP) {
            None => None,
            Some(t) => {
                proof {
                    lemma_tag_walk_bounds(self.bytes@, self.total_size as int, 8);
                }
                if t.size < 16 {
                    None
                } else {
                    Some(
                        MemoryMapTag {
                            offset: t.offset,
                            size: t.size,
                            entry_size: read_u32(&self.bytes, t.offset + 8),
                            entry_version: read_u32(&self.bytes, t.offset + 12),
                        },
                    )
                }
            },
        }
    }
}

/// The available areas that the memory map tag `m` lists: none where an
/// entry is shorter than the part that is read.
pub open spec fn memory_map_areas(b: Seq<u8>, m: MemoryMapTag) -> Seq<MemoryArea> {
    if m.entry_size < AREA_ENTRY_BYTES {
        Seq::empty()
    } else {
        area_walk(b, m.offset + 16, m.offset + m.size, m.entry_size as int)
    }
}

impl MemoryMapTag {
    /// The available memory areas of the map, in the order listed.
    pub fn memory_areas(&self, info: &BootInformation) -> (r: Vec<MemoryArea>)
        requires
            info.wf(),
            self.size >= 16,
            self.offset + self.size <= info.total_size,
        ensures
            r@ == memory_map_areas(info.bytes@, *self),
    {
        let b = &info.bytes;
        let _n = b.len();
        if (self.entry_size as usize) < AREA_ENTRY_BYTES {
            return Vec::new();
        }
        let step = self.entry_size as usize;
        let end = self.offset + self.size as usize;
        let start = self.offset + 16;
        let mut pos = start;
        let mut r: Vec<MemoryArea> = Vec::new();
        while pos <= end && end - pos >= AREA_ENTRY_BYTES
            invariant
                b@ == info.bytes@,
                end <= b@.len(),
                step == self.entry_size,
                step >= 24,
                start == self.offset + 16,
                end == self.offset + self.size,
                r@ + area_walk(b@, pos as int, end as int, step as int) == area_walk(
                    b@,
                    start as int,
                    end as int,
                    step as int,
                ),
            decreases end - pos,
        {
            let area = MemoryArea {
                base_addr: read_u64(b, pos),
                length: read_u64(b, pos + 8),
                typ: read_u32(b, pos + 16),
            };
            let ghost old_r = r@;
            let ghost old_pos = pos;
            proof {
                lemma_le64_bound(b@, pos as int);
                lemma_le64_bound(b@, pos + 8);
                lemma_le32_bound(b@, pos + 16);
                assert(area == area_at(b@, pos as int));
            }
            if area.typ == AREA_AVAILABLE {
                r.push(area);
            }
            proof {
                assert(r@ + area_walk(b@, pos + step, end as int, step as int) =~= old_r
                    + area_walk(b@, old_pos as int, end as int, step as int));
            }
            if step > end - pos {
                assert(area_walk(b@, pos + step, end as int, step as int) =~= Seq::<MemoryArea>::empty());
                assert(r@ + Seq::<MemoryArea>::empty() =~= r@);
                return r;
            }
            pos = pos + step;
        }
        assert(area_walk(b@, pos as int, end as int, step as int) =~= Seq::<MemoryArea>::empty());
        assert(r@ + Seq::<MemoryArea>::empty() =~= r@);
        r
    }
}

/// Eight bytes hold a 64-bit value.
proof fn lemma_le64_bound(b: Seq<u8>, o: int)
    ensures
        0 <= le64(b, o) <= u64::MAX,
{
    lemma_le32_bound(b, o);
    lemma_le32_bound(b, o + 4);
}

/// The header of the ELF sections tag `t`.
pub open spec fn elf_sections_header(b: Seq<u8>, t: Tag) -> ElfSectionsTag {
    ElfSectionsTag {
        offset: t.offset,
        size: t.size,
        number_of_sections: le32(b, t.offset + 8) as u32,
        entry_size: le32(b, t.offset + 12) as u32,
        shndx: le32(b, t.offset + 16) as u32,
    }
}

impl BootInformation {
    /// The first ELF sections tag, if there is one and it holds its header.
    pub fn elf_sections_tag(&self) -> (r: Option<ElfSectionsTag>)
        requires
            self.wf(),
        ensures
            match r {
                Some(e) => {
                    &&& exists|i: int|
                        is_first_tag(tag_walk(self.bytes@, self.total_size as int, 8), i, TAG_ELF_SECTIONS)
                            && #[trigger] tag_walk(self.bytes@, self.total_size as int, 8)[i].size >= 20
                            && e == elf_sections_header(
                            self.bytes@,
                            tag_walk(self.bytes@, self.total_size as int, 8)[i],
                        )
                    &&& e.size >= 20
                    &&& e.offset + e.size <= self.total_size
                },
                None => (forall|j: int|
                    0 <= j < tag_walk(self.bytes@, self.total_size as int, 8).len()
                        ==> #[trigger] tag_walk(self.bytes@, self.total_size as int, 8)[j].typ
                        != TAG_ELF_SECTIONS) || exists|i: int|
                    is_first_tag(tag_walk(self.bytes@, self.total_size as int, 8), i, TAG_ELF_SECTIONS)
                        && #[trigger] tag_walk(self.bytes@, self.total_size as int, 8)[i].size < 20,
            },
    {
        match self.get_tag(TAG_ELF_SECTIONS) {
            None => None,
            Some(t) => {
                proof {
                    lemma_tag_walk_bounds(self.bytes@, self.total_size as int, 8);
                }
                if t.size < 20 {
                    None
                } else {
                    Some(
                        ElfSectionsTag {
                            offset: t.offset,
                            size: t.size,
                            number_of_sections: read_u32(&self.bytes, t.offset + 8),
                            entry_size: read_u32(&self.bytes, t.offset + 12),
                            shndx: read_u32(&self.bytes, t.offset + 16),
                        },
                    )
                }
            },
        }
    }
}

/// The sections in use that the tag `e` lists.
pub open spec fn tag_sections(b: Seq<u8>, e: ElfSectionsTag) -> Seq<ElfSection> {
    section_walk(
        b,
        e.offset + 20,
        e.offset + e.size,
        e.entry_size as int,
        e.number_of_sections as int,
    )
}

impl ElfSectionsTag {
    /// The section headers in use (the null header is left out), in order.
    pub fn sections(&self, info: &BootInformation) -> (r: Vec<ElfSection>)
        requires
            info.wf(),
            self.size >= 20,
            self.offset + self.size <= info.total_size,
        ensures
            r@ == tag_sections(info.bytes@, *self),
    {
        let b = &info.bytes;
        let _n = b.len();
        let step = self.entry_size as usize;
        let end = self.offset + self.size as usize;
        let start = self.offset + 20;
        let mut pos = start;
        let mut remaining = self.number_of_sections;
        let mut r: Vec<ElfSection> = Vec::new();
        while remaining > 0 && pos <= end && end - pos >= SECTION_HEADER_BYTES
            invariant
                b@ == info.bytes@,
                end <= b@.len(),
                step == self.entry_size,
                start == self.offset + 20,
                end == self.offset + self.size,
                r@ + section_walk(b@, pos as int, end as int, step as int, remaining as int)
                    == section_walk(
                    b@,
                    start as int,
                    end as int,
                    step as int,
                    self.number_of_sections as int,
                ),
            decreases remaining,
        {
            let section = ElfSection {
                typ: read_u32(b, pos + 4),
                flags: read_u64(b, pos + 8),
                addr: read_u64(b, pos + 16),
                size: read_u64(b, pos + 32),
            };
            let ghost old_r = r@;
            let ghost old_pos = pos;
            let ghost old_remaining = remaining;
            proof {
                lemma_le32_bound(b@, pos + 4);
                lemma_le64_bound(b@, pos + 8);
                lemma_le64_bound(b@, pos + 16);
                lemma_le64_bound(b@, pos + 32);
                assert(section == section_at(b@, pos as int));
            }
            if section.typ != SECTION_UNUSED {
                r.push(section);
            }
            remaining = remaining - 1;
            proof {
                assert(r@ + section_walk(b@, pos + step, end as int, step as int, remaining as int)
                    =~= old_r + section_walk(
                    b@,
                    old_pos as int,
                    end as int,
                    step as int,
                    old_remaining as int,
                ));
            }
            if step > end - pos {
                assert(section_walk(b@, pos + step, end as int, step as int, remaining as int)
                    =~= Seq::<ElfSection>::empty());
                assert(r@ + Seq::<ElfSection>::empty() =~= r@);
                return r;
            }
            pos = pos + step;
        }
        assert(section_walk(b@, pos as int, end as int, step as int, remaining as int)
            =~= Seq::<ElfSection>::empty());
        assert(r@ + Seq::<ElfSection>::empty() =~= r@);
        r
    }
}

/// The kernel image spans from the lowest section address to the highest
/// section end: `(start, end)` of `sections`, `None` when there is no
/// section or a section runs past the address space.
pub fn kernel_span(sections: &Vec<ElfSection>) -> (r: Option<(u64, u64)>)
    ensures
        match r {
            Some((start, end)) => {
                &&& sections@.len() > 0
                &&& forall|i: int|
                    0 <= i < sections@.len() ==> start <= #[trigger] sections@[i].addr
                        && sections@[i].addr + sections@[i].size <= end
                &&& exists|i: int| 0 <= i < sections@.len() && #[trigger] sections@[i].addr == start
                &&& exists|i: int|
                    0 <= i < sections@.len() && #[trigger] sections@[i].addr + sections@[i].size
                        == end
            },
            None => sections@.len() == 0 || exists|i: int|
                0 <= i < sections@.len() && #[trigger] sections@[i].addr + sections@[i].size
                    > u64::MAX,
        },
{
    if sections.len() == 0 {
        return None;
    }
    let first = sections[0];
    if first.size > u64::MAX - first.addr {
        return None;
    }
    let mut start = first.addr;
    let mut end = first.addr + first.size;
    let mut i: usize = 1;
    while i < sections.len()
        invariant
            1 <= i <= sections@.len(),
            forall|j: int|
                0 <= j < i ==> start <= #[trigger] sections@[j].addr && sections@[j].addr
                    + sections@[j].size <= end,
            exists|j: int| 0 <= j < i && #[trigger] sections@[j].addr == start,
            exists|j: int| 0 <= j < i && #[trigger] sections@[j].addr + sections@[j].size == end,
        decreases sections@.len() - i,
    {
        let s = sections[i];
        if s.size > u64::MAX - s.addr {
            return None;
        }
        if s.addr < start {
            start = s.addr;
        }
        if s.addr + s.size > end {
            end = s.addr + s.size;
        }
        i += 1;
    }
    Some((start, end))
}

} // verus!
