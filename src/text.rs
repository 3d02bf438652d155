//! Numbers and addresses written out as text.

use vstd::prelude::*;
use vstd::string::*;
use crate::network::Ipv4Address;

verus! {

/// The character of decimal digit `d`.
pub open spec fn digit_char(d: int) -> char {
    if d == 0 {
        '0'
    } else if d == 1 {
        '1'
    } else if d == 2 {
        '2'
    } else if d == 3 {
        '3'
    } else if d == 4 {
        '4'
    } else if d == 5 {
        '5'
    } else if d == 6 {
        '6'
    } else if d == 7 {
        '7'
    } else if d == 8 {
        '8'
    } else {
        '9'
    }
}

/// `n` in decimal, without leading zeros.
pub open spec fn decimal(n: nat) -> Seq<char>
    decreases n,
{
    if n < 10 {
        seq![digit_char(n as int)]
    } else {
        decimal(n / 10).push(digit_char((n % 10) as int))
    }
}

/// `i` in decimal, with a minus sign when negative.
pub open spec fn signed_decimal(i: int) -> Seq<char> {
    if i < 0 {
        seq!['-'] + decimal((-i) as nat)
    } else {
        decimal(i as nat)
    }
}

/// An address in dotted form, `a.b.c.d`.
pub open spec fn dotted(a: Ipv4Address) -> Seq<char> {
    decimal((a.bits / 0x100_0000) as nat) + seq!['.'] + decimal(((a.bits / 0x1_0000) % 0x100) as nat)
        + seq!['.'] + decimal(((a.bits / 0x100) % 0x100) as nat) + seq!['.'] + decimal(
        (a.bits % 0x100) as nat,
    )
}

fn digit_text(d: u64) -> (r: &'static str)
    requires
        d < 10,
    ensures
        r@ == seq![digit_char(d as int)],
{
    proof {
        reveal_strlit("0");
        reveal_strlit("1");
        reveal_strlit("2");
        reveal_strlit("3");
        reveal_strlit("4");
        reveal_strlit("5");
        reveal_strlit("6");
        reveal_strlit("7");
        reveal_strlit("8");
        reveal_strlit("9");
    }
    match d {
        0 => "0",
        1 => "1",
        2 => "2",
        3 => "3",
        4 => "4",
        5 => "5",
        6 => "6",
        7 => "7",
        8 => "8",
        _ => "9",
    }
}

/// `n` in decimal.
pub fn decimal_text(n: u64) -> (r: String)
    ensures
        r@ == decimal(n as nat),
    decreases n,
{
    if n < 10 {
        digit_text(n).to_owned()
    } else {
        let mut s = decimal_text(n / 10);
        s.append(digit_text(n % 10));
        s
    }
}

/// `i` in decimal, with a minus sign when negative.
pub fn signed_decimal_text(i: i64) -> (r: String)
    ensures
        r@ == signed_decimal(i as int),
{
    if i < 0 {
        let magnitude: u64 = if i == i64::MIN {
            0x8000_0000_0000_0000
        } else {
            (-i) as u64
        };
        let mut s = "-".to_owned();
        proof {
            reveal_strlit("-");
        }
        s.append(decimal_text(magnitude).as_str());
        s
    } else {
        decimal_text(i as u64)
    }
}

impl Ipv4Address {
    /// The address in dotted form, `a.b.c.d`.
    pub fn dotted(&self) -> (r: String)
        ensures
            r@ == dotted(*self),
    {
        let o = self.octets();
        proof {
            reveal_strlit(".");
        }
        let a = decimal_text(o[0] as u64);
        let b = decimal_text(o[1] as u64);
        let c = decimal_text(o[2] as u64);
        let d = decimal_text(o[3] as u64);
        let mut s = a;
        s.append(".");
        s.append(b.as_str());
        s.append(".");
        s.append(c.as_str());
        s.append(".");
        s.append(d.as_str());
        s
    }
}

} // verus!
