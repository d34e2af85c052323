//! In/Out operations on ports

use vstd::prelude::*;

verus! {

/// A value that can be moved through an I/O port in one access.
pub trait InOut: Sized {
    /// Number of bytes that one access moves.
    spec fn spec_width() -> nat;

    /// Number of bytes that one access moves.
    fn width() -> (bytes: u8)
        ensures
            bytes == Self::spec_width(),
    ;
}

impl InOut for u8 {
    open spec fn spec_width() -> nat {
        1
    }

    fn width() -> (bytes: u8) {
        1
    }
}

impl InOut for u16 {
    open spec fn spec_width() -> nat {
        2
    }

    fn width() -> (bytes: u8) {
        2
    }
}

impl InOut for u32 {
    open spec fn spec_width() -> nat {
        4
    }

    fn width() -> (bytes: u8) {
        4
    }
}

/// An I/O port
///
/// Interaction with a specific port is done through this stucture.
/// The type specify the size of the data been read or written.
pub struct Port<T: InOut> {
    port: u16,
    phantom: core::marker::PhantomData<T>,
}

impl<T: InOut> Port<T> {
    /// Number of the port.
    pub closed spec fn spec_port(&self) -> u16 {
        self.port
    }

    pub fn new(port: u16) -> (p: Port<T>)
        ensures
            p.spec_port() == port,
    {
        Port { port, phantom: core::marker::PhantomData }
    }

    /// Number of the port.
    pub fn port(&self) -> (port: u16)
        ensures
            port == self.spec_port(),
    {
        self.port
    }
}

} // verus!
