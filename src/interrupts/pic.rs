use vstd::prelude::*;

verus! {

/// Command that starts the initialisation of a controller (edge triggered,
/// cascaded, with a fourth word to come).
pub const CMD_INIT: u8 = 0x11;

/// Command that acknowledges an interrupt.
pub const CMD_END_OF_INTERRUPT: u8 = 0x20;

/// Fourth initialisation word: 8086 mode.
pub const MODE_8086: u8 = 0x01;

/// Unused port, written to give the controllers time between two words.
pub const WAIT_PORT: u16 = 0x80;

/// One byte written to an I/O port.
#[derive(Debug, Clone, Copy, PartialEq, Eq, Structural)]
pub struct PortWrite {
    pub port: u16,
    pub value: u8,
}

/// One 8259A controller: the first vector it raises and its two ports.
#[derive(Debug, Clone, Copy, PartialEq, Eq, Structural)]
pub struct Pic {
    pub offset: u8,
    pub command: u16,
    pub data: u16,
}

/// The controller raises vector `v`.
pub open spec fn pic_handles(p: Pic, v: int) -> bool {
    p.offset <= v < p.offset + 8
}

/// The end-of-interrupt command for controller `p`.
pub open spec fn eoi_of(p: Pic) -> PortWrite {
    PortWrite { port: p.command, value: CMD_END_OF_INTERRUPT }
}

impl Pic {
    /// The controller raises `int_id`.
    pub fn handles_interrupt(&self, int_id: u8) -> (r: bool)
        ensures
            r == pic_handles(*self, int_id as int),
    {
        self.offset <= int_id && (int_id as u16) < self.offset as u16 + 8
    }

    /// The write that acknowledges an interrupt to this controller.
    pub fn end_of_interrupt(&self) -> (r: PortWrite)
        ensures
            r == eoi_of(*self),
    {
        PortWrite { port: self.command, value: CMD_END_OF_INTERRUPT }
    }
}

/// The master (`pics[0]`, IRQs 0 to 7) and the slave (`pics[1]`, IRQs 8 to
/// 15) controller.
pub struct ChainedPics {
    pub pics: [Pic; 2],
}

/// A write to `port` followed by the pause write.
pub open spec fn paced(port: u16, value: u8) -> Seq<PortWrite> {
    seq![PortWrite { port, value }, PortWrite { port: WAIT_PORT, value: 0 }]
}

/// The writes that program the pair with its offsets, then restore the
/// interrupt masks `mask1` and `mask2` read before.
pub open spec fn init_sequence(master: Pic, slave: Pic, mask1: u8, mask2: u8) -> Seq<PortWrite> {
    paced(master.command, CMD_INIT) + paced(slave.command, CMD_INIT) + paced(
        master.data,
        master.offset,
    ) + paced(slave.data, slave.offset) + paced(master.data, 4) + paced(slave.data, 2) + paced(
        master.data,
        MODE_8086,
    ) + paced(slave.data, MODE_8086) + paced(master.data, mask1) + seq![
        PortWrite { port: slave.data, value: mask2 },
    ]
}

/// The value last written to `port`, if any.
pub open spec fn last_write(s: Seq<PortWrite>, port: u16) -> Option<u8>
    decreases s.len(),
{
    if s.len() == 0 {
        None
    } else if s.last().port == port {
        Some(s.last().value)
    } else {
        last_write(s.drop_last(), port)
    }
}

/// The writes that acknowledge vector `v`: to the slave and then the master
/// for a slave vector, to the master alone for a master vector, none for a
/// vector of neither.
pub open spec fn eoi_writes(master: Pic, slave: Pic, v: int) -> Seq<PortWrite> {
    if pic_handles(slave, v) {
        seq![eoi_of(slave), eoi_of(master)]
    } else if pic_handles(master, v) {
        seq![eoi_of(master)]
    } else {
        Seq::<PortWrite>::empty()
    }
}

impl ChainedPics {
    /// The pair at the standard ports, raising `offset1..offset1 + 8` and
    /// `offset2..offset2 + 8`.
    pub fn new(offset1: u8, offset2: u8) -> (r: ChainedPics)
        ensures
            r.pics[0] == (Pic { offset: offset1, command: 0x20, data: 0x21 }),
            r.pics[1] == (Pic { offset: offset2, command: 0xA0, data: 0xA1 }),
    {
        ChainedPics {
            pics: [
                Pic { offset: offset1, command: 0x20, data: 0x21 },
                Pic { offset: offset2, command: 0xA0, data: 0xA1 },
            ],
        }
    }

    /// The writes that program both controllers, given the masks
    /// `saved_mask1` and `saved_mask2` read from their data ports before.
    pub fn initialize(&self, saved_mask1: u8, saved_mask2: u8) -> (r: Vec<PortWrite>)
        ensures
            r@ == init_sequence(self.pics[0], self.pics[1], saved_mask1, saved_mask2),
    {
        let master = self.pics[0];
        let slave = self.pics[1];
        let mut r: Vec<PortWrite> = Vec::new();
        push_paced(&mut r, master.command, CMD_INIT);
        push_paced(&mut r, slave.command, CMD_INIT);
        push_paced(&mut r, master.data, master.offset);
        push_paced(&mut r, slave.data, slave.offset);
        push_paced(&mut r, master.data, 4);
        push_paced(&mut r, slave.data, 2);
        push_paced(&mut r, master.data, MODE_8086);
        push_paced(&mut r, slave.data, MODE_8086);
        push_paced(&mut r, master.data, saved_mask1);
        r.push(PortWrite { port: slave.data, value: saved_mask2 });
        assert(r@ =~= init_sequence(master, slave, saved_mask1, saved_mask2));
        r
    }

    /// One of the two controllers raises `int_id`.
    pub fn handles_interrupt(&self, int_id: u8) -> (r: bool)
        ensures
            r == (pic_handles(self.pics[0], int_id as int) || pic_handles(
                self.pics[1],
                int_id as int,
            )),
    {
        self.pics[0].handles_interrupt(int_id) || self.pics[1].handles_interrupt(int_id)
    }

    /// The writes that acknowledge `int_id`: to the slave and then the
    /// master for a slave vector, to the master alone for a master vector,
    /// none for a vector of neither.
    pub fn notify_end_of_interrupt(&self, int_id: u8) -> (r: Vec<PortWrite>)
        ensures
            r@ == eoi_writes(self.pics[0], self.pics[1], int_id as int),
    {
        let mut r: Vec<PortWrite> = Vec::new();
        if self.pics[1].handles_interrupt(int_id) {
            r.push(self.pics[1].end_of_interrupt());
            r.push(self.pics[0].end_of_interrupt());
        } else if self.pics[0].handles_interrupt(int_id) {
            r.push(self.pics[0].end_of_interrupt());
        }
        r
    }

    /// The vector that IRQ line `line` raises.
    pub fn irq_vector(&self, line: u8) -> (r: u8)
        requires
            line < 16,
            line < 8 ==> self.pics[0].offset + line <= 255,
            line >= 8 ==> self.pics[1].offset + line - 8 <= 255,
        ensures
            r == (if line < 8 {
                self.pics[0].offset + line
            } else {
                self.pics[1].offset + line - 8
            }),
    {
        if line < 8 {
            self.pics[0].offset + line
        } else {
            self.pics[1].offset + (line - 8)
        }
    }
}

/// Appends a write to `port` and the pause write.
fn push_paced(r: &mut Vec<PortWrite>, port: u16, value: u8)
    ensures
        final(r)@ == old(r)@ + paced(port, value),
{
    r.push(PortWrite { port, value });
    r.push(PortWrite { port: WAIT_PORT, value: 0 });
    assert(r@ =~= old(r)@ + paced(port, value));
}

/// Programming the pair made with offsets 0x20 and 0x28 sends those offsets
/// as the second initialisation word of each controller, and leaves on each
/// data port the mask read from it before.
pub proof fn lemma_init_offsets_and_masks(mask1: u8, mask2: u8)
    ensures
        ({
            let s = init_sequence(
                Pic { offset: 0x20, command: 0x20, data: 0x21 },
                Pic { offset: 0x28, command: 0xA0, data: 0xA1 },
                mask1,
                mask2,
            );
            &&& s[4] == PortWrite { port: 0x21, value: 0x20 }
            &&& s[6] == PortWrite { port: 0xA1, value: 0x28 }
            &&& s[0] == PortWrite { port: 0x20, value: CMD_INIT }
            &&& s[2] == PortWrite { port: 0xA0, value: CMD_INIT }
            &&& last_write(s, 0xA1) == Some(mask2)
            &&& last_write(s, 0x21) == Some(mask1)
        }),
{
    let s = init_sequence(
        Pic { offset: 0x20, command: 0x20, data: 0x21 },
        Pic { offset: 0x28, command: 0xA0, data: 0xA1 },
        mask1,
        mask2,
    );
    assert(s.len() == 19);
    assert(s.drop_last().last() == PortWrite { port: WAIT_PORT, value: 0 });
    assert(s.drop_last().drop_last().last() == PortWrite { port: 0x21, value: mask1 });
    assert(last_write(s.drop_last().drop_last(), 0x21) == Some(mask1));
    assert(last_write(s.drop_last(), 0x21) == Some(mask1));
}

} // verus!
