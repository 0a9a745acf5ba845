use kernel_core::acpi::Rsdp;
use kernel_core::multiboot2::{kernel_span, load, ElfSection, MemoryArea};

fn put32(b: &mut Vec<u8>, v: u32) {
    b.extend_from_slice(&v.to_le_bytes());
}

fn put64(b: &mut Vec<u8>, v: u64) {
    b.extend_from_slice(&v.to_le_bytes());
}

fn pad8(b: &mut Vec<u8>) {
    while b.len() % 8 != 0 {
        b.push(0);
    }
}

fn section(b: &mut Vec<u8>, typ: u32, flags: u64, addr: u64, size: u64) {
    put32(b, 0);
    put32(b, typ);
    put64(b, flags);
    put64(b, addr);
    put64(b, 0);
    put64(b, size);
    put32(b, 0);
    put32(b, 0);
    put64(b, 0);
    put64(b, 0);
}

/// A boot information block with a command line tag, a memory map and
/// ELF sections.
fn sample() -> Vec<u8> {
    let mut b = Vec::new();
    put32(&mut b, 0);
    put32(&mut b, 0);
    // a command line tag of 13 bytes
    put32(&mut b, 1);
    put32(&mut b, 13);
    b.extend_from_slice(b"abcd\0");
    pad8(&mut b);
    // memory map
    let start = b.len();
    put32(&mut b, 6);
    put32(&mut b, 0);
    put32(&mut b, 24);
    put32(&mut b, 0);
    for (base, len, typ) in [(0u64, 0x9fc00u64, 1u32), (0x9fc00, 0x400, 2), (0x100000, 0x7ee0000, 1)] {
        put64(&mut b, base);
        put64(&mut b, len);
        put32(&mut b, typ);
        put32(&mut b, 0);
    }
    let size = (b.len() - start) as u32;
    b[start + 4..start + 8].copy_from_slice(&size.to_le_bytes());
    pad8(&mut b);
    // ELF sections
    let start = b.len();
    put32(&mut b, 9);
    put32(&mut b, 0);
    put32(&mut b, 4);
    put32(&mut b, 64);
    put32(&mut b, 3);
    section(&mut b, 0, 0, 0, 0);
    section(&mut b, 1, 0x6, 0x100000, 0x5000);
    section(&mut b, 1, 0x3, 0x105000, 0x2000);
    section(&mut b, 8, 0x3, 0x107000, 0x9000);
    let size = (b.len() - start) as u32;
    b[start + 4..start + 8].copy_from_slice(&size.to_le_bytes());
    pad8(&mut b);
    // end tag
    put32(&mut b, 0);
    put32(&mut b, 8);
    let total = b.len() as u32;
    b[0..4].copy_from_slice(&total.to_le_bytes());
    b
}

#[test]
fn boot_information_tags() {
    let info = load(sample()).unwrap();
    let tags = info.tags();
    let types: Vec<u32> = tags.iter().map(|t| t.typ).collect();
    assert_eq!(types, vec![1, 6, 9]);
    assert_eq!(tags[0].size, 13);
    assert_eq!(tags[1].offset, 24);
    assert_eq!(info.get_tag(6).unwrap().offset, 24);
    assert!(info.get_tag(4).is_none());
}

#[test]
fn memory_map_lists_available_areas() {
    let info = load(sample()).unwrap();
    let map = info.memory_map_tag().unwrap();
    assert_eq!(map.entry_size, 24);
    assert_eq!(
        map.memory_areas(&info),
        vec![
            MemoryArea { base_addr: 0, length: 0x9fc00, typ: 1 },
            MemoryArea { base_addr: 0x100000, length: 0x7ee0000, typ: 1 },
        ]
    );
}

#[test]
fn elf_sections_and_kernel_span() {
    let info = load(sample()).unwrap();
    let tag = info.elf_sections_tag().unwrap();
    assert_eq!(tag.number_of_sections, 4);
    let sections = tag.sections(&info);
    assert_eq!(sections.len(), 3);
    assert_eq!(sections[0], ElfSection { typ: 1, flags: 0x6, addr: 0x100000, size: 0x5000 });
    assert_eq!(kernel_span(&sections), Some((0x100000, 0x110000)));
    assert_eq!(kernel_span(&vec![]), None);
    let overflow = vec![ElfSection { typ: 1, flags: 0, addr: u64::MAX, size: 2 }];
    assert_eq!(kernel_span(&overflow), None);
}

#[test]
fn malformed_boot_information_is_refused() {
    let mut b = sample();
    let n = b.len();
    b[n - 8] = 5;
    assert!(load(b).is_none());
    assert!(load(vec![0, 0, 0]).is_none());
    let mut short = sample();
    short[0] = 200;
    assert!(load(short).is_none());
}

#[test]
fn rsdp_is_found_on_a_sixteen_byte_step() {
    let mut window = vec![0u8; 96];
    let mut rsdp = Vec::new();
    rsdp.extend_from_slice(b"RSD PTR ");
    rsdp.push(0);
    rsdp.extend_from_slice(b"OEMID ");
    rsdp.push(0);
    rsdp.extend_from_slice(&0x7fe1_000u32.to_le_bytes());
    let sum: u32 = rsdp.iter().map(|&x| x as u32).sum();
    rsdp[8] = ((256 - sum % 256) % 256) as u8;
    window[48..68].copy_from_slice(&rsdp);
    // the same signature off the 16-byte steps does not count
    window[4..12].copy_from_slice(b"RSD PTR ");
    assert_eq!(Rsdp::find(&window), Some(48));
    assert!(Rsdp::is_valid(&window, 48));
    assert!(!Rsdp::is_valid(&window, 4));
    let r = Rsdp::read(&window, 48);
    assert_eq!(r.rsdt_address, 0x7fe1_000);
    window[60] ^= 1;
    assert_eq!(Rsdp::find(&window), None);
}
