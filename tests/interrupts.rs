use kernel_core::interrupts::idt::{missing_handler, Idt, IdtEntry, IDT_LIMIT};
use kernel_core::interrupts::pic::{ChainedPics, Pic, PortWrite};
use kernel_core::interrupts::{classify, dispatch, InitStage, InterruptContext, InterruptKind};

fn context(int_id: u32, error_code: u32) -> InterruptContext {
    InterruptContext {
        rsi: 0,
        rdi: 0,
        r11: 0,
        r10: 0,
        r9: 0,
        r8: 0,
        rdx: 0,
        rcx: 0,
        rax: 0,
        int_id,
        error_code,
    }
}

fn w(port: u16, value: u8) -> PortWrite {
    PortWrite { port, value }
}

#[test]
fn remapped_irq_vectors() {
    let pics = ChainedPics::new(0x20, 0x28);
    assert_eq!(pics.irq_vector(0), 0x20);
    assert_eq!(pics.irq_vector(1), 0x21);
    assert_eq!(pics.irq_vector(8), 0x28);
    assert_eq!(pics.irq_vector(12), 0x2C);
    assert_eq!(pics.irq_vector(15), 0x2F);
}

#[test]
fn pic_init_sequence() {
    let pics = ChainedPics::new(0x20, 0x28);
    let writes = pics.initialize(0xB8, 0x8E);
    let expected = vec![
        w(0x20, 0x11),
        w(0x80, 0),
        w(0xA0, 0x11),
        w(0x80, 0),
        w(0x21, 0x20),
        w(0x80, 0),
        w(0xA1, 0x28),
        w(0x80, 0),
        w(0x21, 0x04),
        w(0x80, 0),
        w(0xA1, 0x02),
        w(0x80, 0),
        w(0x21, 0x01),
        w(0x80, 0),
        w(0xA1, 0x01),
        w(0x80, 0),
        w(0x21, 0xB8),
        w(0x80, 0),
        w(0xA1, 0x8E),
    ];
    assert_eq!(writes, expected);
}

#[test]
fn masks_are_restored_last() {
    let pics = ChainedPics::new(0x20, 0x28);
    let writes = pics.initialize(0x12, 0x34);
    let last_master = writes.iter().rev().find(|x| x.port == 0x21).unwrap();
    let last_slave = writes.iter().rev().find(|x| x.port == 0xA1).unwrap();
    assert_eq!(last_master.value, 0x12);
    assert_eq!(last_slave.value, 0x34);
}

#[test]
fn end_of_interrupt_targets() {
    let pics = ChainedPics::new(0x20, 0x28);
    assert_eq!(pics.notify_end_of_interrupt(0x2C), vec![w(0xA0, 0x20), w(0x20, 0x20)]);
    assert_eq!(pics.notify_end_of_interrupt(0x28), vec![w(0xA0, 0x20), w(0x20, 0x20)]);
    assert_eq!(pics.notify_end_of_interrupt(0x21), vec![w(0x20, 0x20)]);
    assert_eq!(pics.notify_end_of_interrupt(0x27), vec![w(0x20, 0x20)]);
    assert_eq!(pics.notify_end_of_interrupt(0x80), vec![]);
    assert_eq!(pics.notify_end_of_interrupt(0x30), vec![]);
    assert!(pics.handles_interrupt(0x2F));
    assert!(!pics.handles_interrupt(0x1F));
}

#[test]
fn pic_at_top_of_vectors() {
    let pic = Pic { offset: 0xF8, command: 0x20, data: 0x21 };
    assert!(pic.handles_interrupt(0xFF));
    assert!(!pic.handles_interrupt(0xF7));
    assert_eq!(pic.end_of_interrupt(), w(0x20, 0x20));
}

#[test]
fn self_test_vector_is_acknowledged_nowhere() {
    let pics = ChainedPics::new(0x20, 0x28);
    let r = dispatch(&pics, &context(0x80, 0));
    assert_eq!(r.kind, InterruptKind::SelfTest);
    assert!(!r.halt);
    assert!(r.eoi.is_empty());
}

#[test]
fn page_fault_halts() {
    let pics = ChainedPics::new(0x20, 0x28);
    let r = dispatch(&pics, &context(14, 2));
    assert_eq!(r.kind, InterruptKind::CpuException);
    assert!(r.halt);
    assert!(r.eoi.is_empty());
}

#[test]
fn dispatch_hardware_irqs() {
    let pics = ChainedPics::new(0x20, 0x28);
    let timer = dispatch(&pics, &context(0x20, 0));
    assert_eq!(timer.kind, InterruptKind::Timer);
    assert!(!timer.halt);
    assert_eq!(timer.eoi, vec![w(0x20, 0x20)]);
    let key = dispatch(&pics, &context(0x21, 0));
    assert_eq!(key.kind, InterruptKind::Keyboard);
    assert_eq!(key.eoi, vec![w(0x20, 0x20)]);
    let other = dispatch(&pics, &context(0x2C, 0));
    assert_eq!(other.kind, InterruptKind::Unknown);
    assert!(other.halt);
}

#[test]
fn classify_vectors() {
    assert_eq!(classify(0), InterruptKind::CpuException);
    assert_eq!(classify(0x0F), InterruptKind::CpuException);
    assert_eq!(classify(0x10), InterruptKind::Unknown);
    assert_eq!(classify(0x20), InterruptKind::Timer);
    assert_eq!(classify(0x21), InterruptKind::Keyboard);
    assert_eq!(classify(0x80), InterruptKind::SelfTest);
    assert_eq!(classify(0x1_0080), InterruptKind::Unknown);
}

#[test]
fn idt_gates() {
    let e = IdtEntry::new(0x08, 0xFFFF_8000_0012_3456);
    assert_eq!(e.base_lo, 0x3456);
    assert_eq!(e.base_hi, 0xFFFF_8000_0012);
    assert_eq!(e.sel, 0x08);
    assert_eq!(e.flags, 0x8E);
    assert_eq!(e.res0, 0);
    assert_eq!(e.res1, 0);
    let mut idt = Idt::new();
    assert!(idt.table.iter().all(|g| *g == missing_handler()));
    let mut handlers = vec![0u64; 256];
    handlers[14] = 0x1000_0000;
    handlers[0x80] = 0x1000_0040;
    idt.initialize(0x08, &handlers);
    assert_eq!(idt.table[14], IdtEntry::new(0x08, 0x1000_0000));
    assert_eq!(idt.table[0x80].base_lo, 0x0040);
    assert_eq!(idt.table[0x80].base_hi, 0x1000);
    assert_eq!(idt.table[3], missing_handler());
    let p = idt.pointer(0x12_3000);
    assert_eq!(p.limit, IDT_LIMIT);
    assert_eq!(p.base, 0x12_3000);
}

#[test]
fn init_stages_move_forward() {
    let mut s = InitStage::Disabled;
    let order = [
        InitStage::PicInitialized,
        InitStage::IdtLoaded,
        InitStage::SelfTested,
        InitStage::Enabled,
        InitStage::Enabled,
    ];
    for expected in order {
        s = s.advance();
        assert_eq!(s, expected);
    }
}
