use vstd::prelude::*;
use crate::interrupts::pic::{ChainedPics, PortWrite, eoi_writes};

pub mod pic;
pub mod idt;

verus! {

/// What the entry trampolines leave on the stack for the dispatcher: the
/// saved registers, the vector and the processor's error code (zero for a
/// vector without one).
#[derive(Debug, Clone, Copy, PartialEq, Eq, Structural)]
pub struct InterruptContext {
    pub rsi: u64,
    pub rdi: u64,
    pub r11: u64,
    pub r10: u64,
    pub r9: u64,
    pub r8: u64,
    pub rdx: u64,
    pub rcx: u64,
    pub rax: u64,
    pub int_id: u32,
    pub error_code: u32,
}

/// What a vector is, as the dispatcher sees it.
#[derive(Debug, Clone, Copy, PartialEq, Eq, Structural)]
pub enum InterruptKind {
    /// A processor exception (vectors 0x00 to 0x0F): fatal.
    CpuException,
    /// The timer, IRQ 0.
    Timer,
    /// The keyboard, IRQ 1.
    Keyboard,
    /// The software interrupt of the self-test.
    SelfTest,
    /// Any other vector: fatal.
    Unknown,
}

/// Vector of the timer once the controllers are remapped.
pub const TIMER_VECTOR: u32 = 0x20;

/// Vector of the keyboard once the controllers are remapped.
pub const KEYBOARD_VECTOR: u32 = 0x21;

/// Vector raised by software for the self-test.
pub const SELF_TEST_VECTOR: u32 = 0x80;

/// The kind of vector `v`.
pub open spec fn kind_of(v: u32) -> InterruptKind {
    if v <= 0x0F {
        InterruptKind::CpuException
    } else if v == TIMER_VECTOR {
        InterruptKind::Timer
    } else if v == KEYBOARD_VECTOR {
        InterruptKind::Keyboard
    } else if v == SELF_TEST_VECTOR {
        InterruptKind::SelfTest
    } else {
        InterruptKind::Unknown
    }
}

/// A fatal kind: the kernel reports it and halts.
pub open spec fn is_fatal(k: InterruptKind) -> bool {
    k == InterruptKind::CpuException || k == InterruptKind::Unknown
}

/// The kind of vector `int_id`.
pub fn classify(int_id: u32) -> (r: InterruptKind)
    ensures
        r == kind_of(int_id),
{
    if int_id <= 0x0F {
        InterruptKind::CpuException
    } else if int_id == TIMER_VECTOR {
        InterruptKind::Timer
    } else if int_id == KEYBOARD_VECTOR {
        InterruptKind::Keyboard
    } else if int_id == SELF_TEST_VECTOR {
        InterruptKind::SelfTest
    } else {
        InterruptKind::Unknown
    }
}

/// What the dispatcher does about one interrupt.
pub struct Response {
    pub kind: InterruptKind,
    /// Report and halt for good; nothing is acknowledged.
    pub halt: bool,
    /// The end-of-interrupt writes to send after handling.
    pub eoi: Vec<PortWrite>,
}

/// Decides what to do about the interrupt in `ctx`: fatal kinds halt; the
/// others are handled and then acknowledged to the controllers that raised
/// them.
pub fn dispatch(pics: &ChainedPics, ctx: &InterruptContext) -> (r: Response)
    ensures
        r.kind == kind_of(ctx.int_id),
        r.halt == is_fatal(kind_of(ctx.int_id)),
        r.halt ==> r.eoi@.len() == 0,
        !r.halt ==> r.eoi@ == eoi_writes(pics.pics[0], pics.pics[1], ctx.int_id as int),
{
    let kind = classify(ctx.int_id);
    match kind {
        InterruptKind::CpuException | InterruptKind::Unknown => Response {
            kind,
            halt: true,
            eoi: Vec::new(),
        },
        _ => Response {
            kind,
            halt: false,
            eoi: pics.notify_end_of_interrupt(ctx.int_id as u8),
        },
    }
}

/// Where the start-up of interrupt handling stands. It only moves forward.
#[derive(Debug, Clone, Copy, PartialEq, Eq, Structural)]
pub enum InitStage {
    Disabled,
    PicInitialized,
    IdtLoaded,
    SelfTested,
    Enabled,
}

/// Position of a stage in the start-up order.
pub open spec fn stage_rank(s: InitStage) -> int {
    match s {
        InitStage::Disabled => 0,
        InitStage::PicInitialized => 1,
        InitStage::IdtLoaded => 2,
        InitStage::SelfTested => 3,
        InitStage::Enabled => 4,
    }
}

impl InitStage {
    /// The stage after this one; `Enabled` is the last.
    pub fn advance(&self) -> (r: InitStage)
        ensures
            stage_rank(r) == if stage_rank(*self) < 4 {
                stage_rank(*self) + 1
            } else {
                4
            },
    {
        match self {
            InitStage::Disabled => InitStage::PicInitialized,
            InitStage::PicInitialized => InitStage::IdtLoaded,
            InitStage::IdtLoaded => InitStage::SelfTested,
            InitStage::SelfTested => InitStage::Enabled,
            InitStage::Enabled => InitStage::Enabled,
        }
    }
}

} // verus!
