use vstd::prelude::*;

verus! {

/// Number of gates in the table: one per vector.
pub const IDT_ENTRY_COUNT: usize = 256;

/// Type and attributes of a gate: present, privilege 0, 64-bit interrupt gate.
pub const GATE_FLAGS: u8 = 0x8E;

/// Size in bytes that the table's pointer gives as its limit.
pub const IDT_LIMIT: u16 = 4096;

/// One gate of the interrupt descriptor table.
#[derive(Debug, Clone, Copy, PartialEq, Eq, Structural)]
pub struct IdtEntry {
    /// Bits 0 to 15 of the handler's address.
    pub base_lo: u16,
    /// Code segment selector.
    pub sel: u16,
    pub res0: u8,
    pub flags: u8,
    /// Bits 16 to 63 of the handler's address.
    pub base_hi: u64,
    pub res1: u16,
}

/// The descriptor of a vector without a handler.
pub open spec fn absent_gate() -> IdtEntry {
    IdtEntry { base_lo: 0, sel: 0, res0: 0, flags: 0, base_hi: 0, res1: 0 }
}

/// The descriptor that sends its vector to the handler at `handler` in code
/// segment `selector`.
pub open spec fn gate_for(selector: u16, handler: u64) -> IdtEntry {
    IdtEntry {
        base_lo: (handler & 0xFFFF) as u16,
        sel: selector,
        res0: 0,
        flags: GATE_FLAGS,
        base_hi: handler >> 16u64,
        res1: 0,
    }
}

/// A gate marked absent.
pub fn missing_handler() -> (r: IdtEntry)
    ensures
        r == absent_gate(),
{
    IdtEntry { base_lo: 0, sel: 0, res0: 0, flags: 0, base_hi: 0, res1: 0 }
}

impl IdtEntry {
    /// A gate pointing at `handler`.
    pub fn new(gdt_code_selector: u16, handler: u64) -> (r: IdtEntry)
        ensures
            r == gate_for(gdt_code_selector, handler),
    {
        IdtEntry {
            base_lo: (handler & 0xFFFF) as u16,
            sel: gdt_code_selector,
            res0: 0,
            flags: GATE_FLAGS,
            base_hi: handler >> 16,
            res1: 0,
        }
    }
}

/// What `lidt` loads: the table's limit and base address.
#[derive(Debug, Clone, Copy, PartialEq, Eq, Structural)]
pub struct DescriptorTablePointer {
    /// Size of the table.
    pub limit: u16,
    /// Address of the table.
    pub base: u64,
}

/// The interrupt descriptor table.
pub struct Idt {
    pub table: Vec<IdtEntry>,
}

impl Idt {
    /// A table of absent gates.
    pub fn new() -> (r: Idt)
        ensures
            r.table@ == Seq::new(256, |i: int| absent_gate()),
    {
        let mut table: Vec<IdtEntry> = Vec::new();
        let mut i: usize = 0;
        while i < IDT_ENTRY_COUNT
            invariant
                i <= 256,
                table@ == Seq::new(i as nat, |j: int| absent_gate()),
            decreases 256 - i,
        {
            table.push(missing_handler());
            i += 1;
            assert(table@ =~= Seq::new(i as nat, |j: int| absent_gate()));
        }
        Idt { table }
    }

    /// Installs a gate for every vector whose entry in `handlers` is not
    /// null; the other gates stay as they were.
    pub fn initialize(&mut self, gdt_code_selector: u16, handlers: &Vec<u64>)
        requires
            old(self).table@.len() == 256,
            handlers@.len() == 256,
        ensures
            final(self).table@.len() == 256,
            forall|i: int|
                0 <= i < 256 ==> #[trigger] final(self).table@[i] == if handlers@[i] != 0 {
                    gate_for(gdt_code_selector, handlers@[i])
                } else {
                    old(self).table@[i]
                },
    {
        let mut i: usize = 0;
        while i < IDT_ENTRY_COUNT
            invariant
                i <= 256,
                self.table@.len() == 256,
                handlers@.len() == 256,
                forall|j: int|
                    0 <= j < i ==> #[trigger] self.table@[j] == if handlers@[j] != 0 {
                        gate_for(gdt_code_selector, handlers@[j])
                    } else {
                        old(self).table@[j]
                    },
                forall|j: int| i <= j < 256 ==> #[trigger] self.table@[j] == old(self).table@[j],
            decreases 256 - i,
        {
            let handler = handlers[i];
            if handler != 0 {
                self.table.set(i, IdtEntry::new(gdt_code_selector, handler));
            }
            i += 1;
        }
    }

    /// The pointer that loads this table from address `base`.
    pub fn pointer(&self, base: u64) -> (r: DescriptorTablePointer)
        ensures
            r == (DescriptorTablePointer { limit: IDT_LIMIT, base }),
    {
        DescriptorTablePointer { limit: IDT_LIMIT, base }
    }
}

} // verus!
