//! The two chained interrupt controllers.

use crate::io_port::Port;
use vstd::prelude::*;

verus! {

/// Command that tells a controller that its interrupt was handled.
pub const END_OF_INTERRUPT: u8 = 0x20;

/// Command that starts the initialisation of a controller.
pub const INIT_COMMAND: u8 = 0x11;

/// One interrupt controller: the first interrupt number it raises, and its
/// command and data ports.
pub struct Pic {
    offset: u8,
    command: Port<u8>,
    data: Port<u8>,
}

impl Pic {
    /// The first interrupt number of the controller.
    pub closed spec fn spec_offset(&self) -> u8 {
        self.offset
    }

    /// Number of the command port.
    pub closed spec fn command_port(&self) -> u16 {
        self.command.spec_port()
    }

    /// Number of the data port.
    pub closed spec fn data_port(&self) -> u16 {
        self.data.spec_port()
    }

    /// Whether interrupt number `id` lies in the eight of this controller.
    pub open spec fn handles(&self, id: u8) -> bool {
        self.spec_offset() <= id < self.spec_offset() + 8
    }

    pub fn handles_interrupt(&self, interupt_id: u8) -> (handled: bool)
        ensures
            handled == self.handles(interupt_id),
    {
        self.offset <= interupt_id && (interupt_id as u16) < self.offset as u16 + 8
    }
}

/// A write of one byte to a port.
#[derive(Debug, Copy, Clone, PartialEq, Eq, Structural)]
pub struct PortWrite {
    pub port: u16,
    pub value: u8,
}

pub struct ChainedPics {
    pics: [Pic; 2],
}

impl ChainedPics {
    /// The controller that the processor listens to.
    pub closed spec fn master(&self) -> Pic {
        self.pics[0]
    }

    /// The controller that is chained to the first.
    pub closed spec fn slave(&self) -> Pic {
        self.pics[1]
    }

    pub fn new(offset1: u8, offset2: u8) -> (pics: ChainedPics)
        ensures
            pics.master().spec_offset() == offset1,
            pics.master().command_port() == 0x20,
            pics.master().data_port() == 0x21,
            pics.slave().spec_offset() == offset2,
            pics.slave().command_port() == 0xA0,
            pics.slave().data_port() == 0xA1,
    {
        ChainedPics {
            pics: [
                Pic { offset: offset1, command: Port::new(0x20), data: Port::new(0x21) },
                Pic { offset: offset2, command: Port::new(0xA0), data: Port::new(0xA1) },
            ],
        }
    }

    pub fn handles_interrupt(&self, interrupt_id: u8) -> (handled: bool)
        ensures
            handled == (self.master().handles(interrupt_id) || self.slave().handles(interrupt_id)),
    {
        self.pics[0].handles_interrupt(interrupt_id) || self.pics[1].handles_interrupt(
            interrupt_id,
        )
    }

    /// The writes that tell the controllers that interrupt `interrupt_id`
    /// was handled: to the second controller if the interrupt is its own,
    /// then to the first; none if neither handles it.
    pub fn notify_end_of_interrupt(&self, interrupt_id: u8) -> (writes: Vec<PortWrite>)
        ensures
            writes@ == if self.slave().handles(interrupt_id) {
                seq![
                    PortWrite { port: self.slave().command_port(), value: END_OF_INTERRUPT },
                    PortWrite { port: self.master().command_port(), value: END_OF_INTERRUPT },
                ]
            } else if self.master().handles(interrupt_id) {
                seq![PortWrite { port: self.master().command_port(), value: END_OF_INTERRUPT }]
            } else {
                Seq::<PortWrite>::empty()
            },
    {
        let mut writes: Vec<PortWrite> = Vec::new();
        if self.handles_interrupt(interrupt_id) {
            if self.pics[1].handles_interrupt(interrupt_id) {
                writes.push(PortWrite { port: self.pics[1].command.port(), value: END_OF_INTERRUPT });
            }
            writes.push(PortWrite { port: self.pics[0].command.port(), value: END_OF_INTERRUPT });
        }
        writes
    }

    /// The writes that initialise both controllers and then restore the
    /// interrupt masks that were read from their data ports before.
    pub fn initialize(&self, saved_mask1: u8, saved_mask2: u8) -> (writes: Vec<PortWrite>)
        ensures
            writes@ == seq![
                PortWrite { port: self.master().command_port(), value: INIT_COMMAND },
                PortWrite { port: self.slave().command_port(), value: INIT_COMMAND },
                PortWrite { port: self.master().data_port(), value: self.master().spec_offset() },
                PortWrite { port: self.slave().data_port(), value: self.slave().spec_offset() },
                PortWrite { port: self.master().data_port(), value: 4 },
                PortWrite { port: self.slave().data_port(), value: 2 },
                PortWrite { port: self.master().data_port(), value: 1 },
                PortWrite { port: self.slave().data_port(), value: 1 },
                PortWrite { port: self.master().data_port(), value: saved_mask1 },
                PortWrite { port: self.slave().data_port(), value: saved_mask2 },
            ],
    {
        let c1: u16 = self.pics[0].command.port();
        let c2: u16 = self.pics[1].command.port();
        let d1: u16 = self.pics[0].data.port();
        let d2: u16 = self.pics[1].data.port();
        let mut writes: Vec<PortWrite> = Vec::new();
        writes.push(PortWrite { port: c1, value: INIT_COMMAND });
        writes.push(PortWrite { port: c2, value: INIT_COMMAND });
        writes.push(PortWrite { port: d1, value: self.pics[0].offset });
        writes.push(PortWrite { port: d2, value: self.pics[1].offset });
        writes.push(PortWrite { port: d1, value: 4 });
        writes.push(PortWrite { port: d2, value: 2 });
        writes.push(PortWrite { port: d1, value: 1 });
        writes.push(PortWrite { port: d2, value: 1 });
        writes.push(PortWrite { port: d1, value: saved_mask1 });
        writes.push(PortWrite { port: d2, value: saved_mask2 });
        assert(writes@ =~= seq![
            PortWrite { port: c1, value: INIT_COMMAND },
            PortWrite { port: c2, value: INIT_COMMAND },
            PortWrite { port: d1, value: self.pics[0].offset },
            PortWrite { port: d2, value: self.pics[1].offset },
            PortWrite { port: d1, value: 4 },
            PortWrite { port: d2, value: 2 },
            PortWrite { port: d1, value: 1 },
            PortWrite { port: d2, value: 1 },
            PortWrite { port: d1, value: saved_mask1 },
            PortWrite { port: d2, value: saved_mask2 },
        ]);
        writes
    }
}

} // verus!
