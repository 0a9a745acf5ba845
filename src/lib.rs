//! The architecture-dependent core of a small x86_64 kernel: the boot
//! frame allocator, four-level paging through the recursive mapping, the
//! programming of the chained 8259A controllers and the interrupt
//! descriptor table, the dispatch of interrupts, and the parsing of the
//! boot loader's Multiboot2 information.


pub mod memory;
pub mod multiboot2;
pub mod mm;
pub mod interrupts;
pub mod vga_buffer;
pub mod acpi;
