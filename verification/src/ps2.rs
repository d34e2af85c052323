//! PS/2 driver
//!
//! What the driver decides from the bytes that the controller gives: whether
//! a byte can be read or written, and how the controller is to be set up.

use crate::io_port::Port;
use vstd::prelude::*;

verus! {

/// Number of the port through which data bytes pass.
pub const BUFFER_PORT: u16 = 0x60;

/// Number of the port that takes commands and gives the status.
pub const HELPER_PORT: u16 = 0x64;

/// Commands of the controller.
pub const READ_CONFIG: u8 = 0x20;

pub const WRITE_CONFIG: u8 = 0x60;

pub const DISABLE_FIRST_PORT: u8 = 0xAD;

pub const DISABLE_SECOND_PORT: u8 = 0xA7;

pub const ENABLE_FIRST_PORT: u8 = 0xAE;

pub const ENABLE_SECOND_PORT: u8 = 0xA8;

pub const SELF_TEST: u8 = 0xAA;

pub const TEST_FIRST_PORT: u8 = 0xAB;

pub const TEST_SECOND_PORT: u8 = 0xA9;

/// The answer of a controller that passed its self test.
pub const SELF_TEST_PASSED: u8 = 0x55;

/// The PS/2 port representation
pub struct Ps2 {
    buffer: Port<u8>,
    helper: Port<u8>,
}

/// What the test of an interface found.
#[derive(Debug, Copy, Clone, PartialEq, Eq, Structural)]
pub enum InterfaceTest {
    Passed,
    ClockLineStuckLow,
    ClockLineStuckHigh,
    DataLineStuckLow,
    DataLineStuckHigh,
    UnknownError,
}

/// Whether the status says that a byte waits to be read.
pub open spec fn output_full(status: u8) -> bool {
    status & 1 != 0
}

/// Whether the status says that the controller has not yet taken the last
/// byte written.
pub open spec fn input_full(status: u8) -> bool {
    status & 2 != 0
}

impl Ps2 {
    /// Number of the data port.
    pub closed spec fn buffer_port(&self) -> u16 {
        self.buffer.spec_port()
    }

    /// Number of the command and status port.
    pub closed spec fn helper_port(&self) -> u16 {
        self.helper.spec_port()
    }

    /// The PS/2 controler used by our kernel
    pub fn new() -> (ps2: Ps2)
        ensures
            ps2.buffer_port() == BUFFER_PORT,
            ps2.helper_port() == HELPER_PORT,
    {
        Ps2 { buffer: Port::new(BUFFER_PORT), helper: Port::new(HELPER_PORT) }
    }

    /// The port from which the status is read.
    pub fn status(&self) -> (port: u16)
        ensures
            port == self.helper_port(),
    {
        self.helper.port()
    }

    /// The port to which commands are written.
    pub fn command(&self) -> (port: u16)
        ensures
            port == self.helper_port(),
    {
        self.helper.port()
    }

    /// The port from which a scan code can be read now, given the status
    /// just read; none while no byte waits.
    pub fn read(&self, status: u8) -> (port: Option<u16>)
        ensures
            port == if output_full(status) {
                Some(self.buffer_port())
            } else {
                None
            },
    {
        if status & 1 == 0 {
            None
        } else {
            Some(self.buffer.port())
        }
    }

    /// The port to which a byte can be written now, given the status just
    /// read; none while the controller is busy.
    pub fn write(&self, status: u8) -> (port: Option<u16>)
        ensures
            port == if input_full(status) {
                None
            } else {
                Some(self.buffer_port())
            },
    {
        if status & 2 != 0 {
            None
        } else {
            Some(self.buffer.port())
        }
    }

    /// The configuration with which the controller is tested: interrupts
    /// and translation are switched off.
    pub fn get_config(&self, conf: u8) -> (stripped: u8)
        ensures
            stripped == conf & 0xBC,
    {
        conf & 0xBC
    }

    /// Whether the controller has a second port: the configuration read
    /// after the second port was enabled shows its clock running.
    pub fn is_dual_port(&self, conf: u8) -> (dual: bool)
        ensures
            dual == (conf & 0x20 == 0),
    {
        conf & 0x20 == 0
    }

    /// What the answer to the test of an interface means.
    pub fn interface_test_ok(&self, answer: u8) -> (result: InterfaceTest)
        ensures
            result == match answer {
                0x00 => InterfaceTest::Passed,
                0x01 => InterfaceTest::ClockLineStuckLow,
                0x02 => InterfaceTest::ClockLineStuckHigh,
                0x03 => InterfaceTest::DataLineStuckLow,
                0x04 => InterfaceTest::DataLineStuckHigh,
                _ => InterfaceTest::UnknownError,
            },
    {
        if answer == 0x00 {
            InterfaceTest::Passed
        } else if answer == 0x01 {
            InterfaceTest::ClockLineStuckLow
        } else if answer == 0x02 {
            InterfaceTest::ClockLineStuckHigh
        } else if answer == 0x03 {
            InterfaceTest::DataLineStuckLow
        } else if answer == 0x04 {
            InterfaceTest::DataLineStuckHigh
        } else {
            InterfaceTest::UnknownError
        }
    }

    /// The configuration with which the controller is put to work, and the
    /// commands that enable its ports: interrupts are switched on for each
    /// port whose interface passed its test.
    pub fn set_config(&self, conf: u8, first_ok: bool, second_ok: bool) -> (r: (u8, Vec<u8>))
        ensures
            r.0 == (if second_ok {
                (if first_ok {
                    conf | 1
                } else {
                    conf
                }) | 2
            } else if first_ok {
                conf | 1
            } else {
                conf
            }),
            r.1@ == (if first_ok {
                seq![ENABLE_FIRST_PORT]
            } else {
                Seq::<u8>::empty()
            }) + (if second_ok {
                seq![ENABLE_SECOND_PORT]
            } else {
                Seq::<u8>::empty()
            }),
    {
        let mut conf: u8 = conf;
        let mut commands: Vec<u8> = Vec::new();
        if first_ok {
            commands.push(ENABLE_FIRST_PORT);
            conf = conf | 1;
        }
        if second_ok {
            commands.push(ENABLE_SECOND_PORT);
            conf = conf | 2;
        }
        assert(commands@ =~= (if first_ok {
            seq![ENABLE_FIRST_PORT]
        } else {
            Seq::<u8>::empty()
        }) + (if second_ok {
            seq![ENABLE_SECOND_PORT]
        } else {
            Seq::<u8>::empty()
        }));
        (conf, commands)
    }
}

} // verus!
