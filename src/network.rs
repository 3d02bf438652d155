//! Network interfaces and IPv4 addresses as plain values.

use vstd::prelude::*;

verus! {

/// An IPv4 address, held as its 32-bit value with the first octet most
/// significant (`10.0.0.1` is `0x0a00_0001`).
#[derive(Clone, Copy, PartialEq, Eq, Structural, Debug)]
pub struct Ipv4Address {
    pub bits: u32,
}

pub open spec fn octets_value(a: u8, b: u8, c: u8, d: u8) -> u32 {
    (a as int * 0x100_0000 + b as int * 0x1_0000 + c as int * 0x100 + d as int) as u32
}

impl Ipv4Address {
    /// The address `a.b.c.d`.
    pub fn new(a: u8, b: u8, c: u8, d: u8) -> (r: Ipv4Address)
        ensures
            r.bits == octets_value(a, b, c, d),
    {
        let bits: u32 = (a as u32) * 0x100_0000 + (b as u32) * 0x1_0000 + (c as u32) * 0x100
            + d as u32;
        Ipv4Address { bits }
    }

    /// The address whose 32-bit value is `bits`.
    pub fn from_bits(bits: u32) -> (r: Ipv4Address)
        ensures
            r.bits == bits,
    {
        Ipv4Address { bits }
    }

    /// The 32-bit value of the address.
    pub fn to_bits(&self) -> (r: u32)
        ensures
            r == self.bits,
    {
        self.bits
    }

    /// The four octets, first one first.
    pub fn octets(&self) -> (r: [u8; 4])
        ensures
            r[0] == self.bits / 0x100_0000,
            r[1] == (self.bits / 0x1_0000) % 0x100,
            r[2] == (self.bits / 0x100) % 0x100,
            r[3] == self.bits % 0x100,
            octets_value(r[0], r[1], r[2], r[3]) == self.bits,
    {
        let a: u8 = (self.bits / 0x100_0000) as u8;
        let b: u8 = ((self.bits / 0x1_0000) % 0x100) as u8;
        let c: u8 = ((self.bits / 0x100) % 0x100) as u8;
        let d: u8 = (self.bits % 0x100) as u8;
        [a, b, c, d]
    }
}

/// A network adapter as the operating system reports it: its name and its
/// IPv4 address.
pub struct Interface {
    pub name: String,
    pub addr: Ipv4Address,
}

} // verus!
