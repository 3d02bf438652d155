//! Transport states: the bounded integer that a transport code stands for,
//! and the values that can travel as one.

use vstd::prelude::*;
use crate::network::Ipv4Address;

verus! {

/// A state with its upper bound, as the serving side holds it.
pub trait Transport {
    spec fn spec_state(&self) -> u32;

    spec fn spec_max_state(&self) -> u32;

    fn state(&self) -> (r: u32)
        ensures
            r == self.spec_state(),
    ;

    fn max_state(&self) -> (r: u32)
        ensures
            r == self.spec_max_state(),
    ;
}

/// A state without its bound, as the fetching side recovers it from a code.
pub trait PartialTransport {
    spec fn spec_state(&self) -> u32;

    fn state(&self) -> (r: u32)
        ensures
            r == self.spec_state(),
    ;
}

/// A state together with the bound it was encoded under; `state <= max_state`.
pub struct ServerTransport {
    state: u32,
    max_state: u32,
}

impl ServerTransport {
    pub fn new(state: u32, max_state: u32) -> (r: ServerTransport)
        requires
            state <= max_state,
        ensures
            r.spec_state() == state,
            r.spec_max_state() == max_state,
    {
        ServerTransport { state, max_state }
    }
}

impl Transport for ServerTransport {
    closed spec fn spec_state(&self) -> u32 {
        self.state
    }

    closed spec fn spec_max_state(&self) -> u32 {
        self.max_state
    }

    fn state(&self) -> (r: u32) {
        self.state
    }

    fn max_state(&self) -> (r: u32) {
        self.max_state
    }
}

/// A state decoded from a transport code.
pub struct ClientTransport {
    state: u32,
}

impl ClientTransport {
    pub fn new(state: u32) -> (r: ClientTransport)
        ensures
            r.spec_state() == state,
    {
        ClientTransport { state }
    }
}

impl PartialTransport for ClientTransport {
    closed spec fn spec_state(&self) -> u32 {
        self.state
    }

    fn state(&self) -> (r: u32) {
        self.state
    }
}

/// A value that can be sent as a transport state and recovered from one.
pub trait Transportable: Sized {
    /// The state that stands for this value.
    spec fn transport_state(&self) -> u32;

    /// The bound under which every value of the type is encoded.
    spec fn transport_bound() -> u32;

    fn make_transport(&self) -> (r: ServerTransport)
        ensures
            r.spec_state() == self.transport_state(),
            r.spec_max_state() == Self::transport_bound(),
    ;

    fn from_transport<T: PartialTransport>(t: T) -> (r: Self)
        ensures
            r.transport_state() == t.spec_state(),
    ;
}

impl Transportable for Ipv4Address {
    open spec fn transport_state(&self) -> u32 {
        self.bits
    }

    open spec fn transport_bound() -> u32 {
        u32::MAX
    }

    fn make_transport(&self) -> (r: ServerTransport) {
        ServerTransport::new(self.bits, u32::MAX)
    }

    fn from_transport<T: PartialTransport>(t: T) -> (r: Ipv4Address) {
        Ipv4Address::from_bits(t.state())
    }
}

/// An address sent as a transport state comes back as the same address.
pub proof fn lemma_address_round_trip(
    a: Ipv4Address,
    t: ServerTransport,
    c: ClientTransport,
    b: Ipv4Address,
)
    requires
        t.spec_state() == a.transport_state(),
        c.spec_state() == t.spec_state(),
        b.transport_state() == c.spec_state(),
    ensures
        b == a,
{
}

} // verus!
