//! Internet addresses: their bits, their order and their canonical text.

use vstd::prelude::*;

use crate::text::{decimal_text, hex_text, order_numbers, Order};

verus! {

/// An address, held as the number that its octets spell in network order.
#[derive(Debug, Clone, Copy, PartialEq, Eq, PartialOrd, Ord, Hash, Structural)]
pub enum IpAddr {
    V4(u32),
    V6(u128),
}

impl IpAddr {
    /// The position of the address among all addresses: version four first, then by bits.
    pub open spec fn rank(self) -> int {
        match self {
            IpAddr::V4(bits) => bits as int,
            IpAddr::V6(bits) => bits + 0x1_0000_0000,
        }
    }

    /// The version-four address with these four octets.
    pub fn v4(a: u8, b: u8, c: u8, d: u8) -> (r: IpAddr)
        ensures
            r == IpAddr::V4((((a * 256 + b) * 256 + c) * 256 + d) as u32),
    {
        IpAddr::V4(((a as u32 * 256 + b as u32) * 256 + c as u32) * 256 + d as u32)
    }

    /// The version-six address with these eight segments.
    pub fn v6(a: u16, b: u16, c: u16, d: u16, e: u16, f: u16, g: u16, h: u16) -> (r: IpAddr)
        ensures
            r == IpAddr::V6(
                (((((((a * 65536 + b) * 65536 + c) * 65536 + d) * 65536 + e) * 65536 + f) * 65536
                    + g) * 65536 + h) as u128,
            ),
    {
        IpAddr::V6(
            ((((((a as u128 * 65536 + b as u128) * 65536 + c as u128) * 65536 + d as u128) * 65536
                + e as u128) * 65536 + f as u128) * 65536 + g as u128) * 65536 + h as u128,
        )
    }

    /// The order of two addresses.
    pub fn order(self, other: IpAddr) -> (r: Order)
        ensures
            r == crate::text::int_order(self.rank(), other.rank()),
    {
        match (self, other) {
            (IpAddr::V4(a), IpAddr::V4(b)) => order_numbers(a as u128, b as u128),
            (IpAddr::V6(a), IpAddr::V6(b)) => order_numbers(a, b),
            (IpAddr::V4(_), IpAddr::V6(_)) => Order::Less,
            (IpAddr::V6(_), IpAddr::V4(_)) => Order::Greater,
        }
    }

    /// The canonical text of the address.
    pub fn to_text(self) -> (r: String)
        ensures
            r@ == ip_text(self),
    {
        match self {
            IpAddr::V4(bits) => v4_text_of(bits),
            IpAddr::V6(bits) => v6_text_of(bits),
        }
    }
}

/// The last `count` groups of sixteen bits of `bits`, highest first.
pub open spec fn segments(bits: nat, count: nat) -> Seq<u16>
    decreases count,
{
    if count == 0 {
        Seq::empty()
    } else {
        segments(bits / 65536, (count - 1) as nat).push((bits % 65536) as u16)
    }
}

/// How many segments from `i` on are zero in a row.
pub open spec fn zero_run(parts: Seq<u16>, i: int) -> nat
    decreases parts.len() - i,
{
    if 0 <= i < parts.len() && parts[i] == 0 {
        1 + zero_run(parts, i + 1)
    } else {
        0
    }
}

/// The first position at or after `i` where the longest run of zero segments starts.
pub open spec fn longest_zero_run(parts: Seq<u16>, i: int) -> int
    decreases parts.len() - i,
{
    if i < 0 || i >= parts.len() {
        parts.len() as int
    } else {
        let rest = longest_zero_run(parts, i + 1);
        if zero_run(parts, i) >= zero_run(parts, rest) {
            i
        } else {
            rest
        }
    }
}

/// Segments in lower-case hexadecimal, with a colon between neighbours.
pub open spec fn joined(parts: Seq<u16>) -> Seq<char>
    decreases parts.len(),
{
    if parts.len() == 0 {
        Seq::empty()
    } else if parts.len() == 1 {
        crate::text::numeral(parts[0] as nat, 16)
    } else {
        joined(parts.drop_last()) + seq![':'] + crate::text::numeral(parts.last() as nat, 16)
    }
}

/// Four decimal octets with dots between them.
pub open spec fn v4_text(bits: nat) -> Seq<char> {
    crate::text::decimal(bits / 16777216 % 256) + seq!['.']
        + crate::text::decimal(bits / 65536 % 256) + seq!['.']
        + crate::text::decimal(bits / 256 % 256) + seq!['.']
        + crate::text::decimal(bits % 256)
}

/// Colon-separated hexadecimal segments. The first of the longest runs of two or more zero
/// segments is written as two colons; an address that maps a version-four address ends in it.
pub open spec fn v6_text(bits: nat) -> Seq<char> {
    let parts = segments(bits, 8);
    let start = longest_zero_run(parts, 0);
    let run = zero_run(parts, start) as int;
    if bits / 0x1_0000_0000 == 0xffff {
        seq![':', ':', 'f', 'f', 'f', 'f', ':'] + v4_text(bits % 0x1_0000_0000)
    } else if run > 1 {
        joined(parts.take(start)) + seq![':', ':'] + joined(parts.skip(start + run))
    } else {
        joined(parts)
    }
}

/// The canonical text of an address.
pub open spec fn ip_text(ip: IpAddr) -> Seq<char> {
    match ip {
        IpAddr::V4(bits) => v4_text(bits as nat),
        IpAddr::V6(bits) => v6_text(bits as nat),
    }
}

fn v4_text_of(bits: u32) -> (r: String)
    ensures
        r@ == v4_text(bits as nat),
{
    proof {
        reveal_strlit(".");
    }
    let mut r = decimal_text((bits / 16777216 % 256) as u64);
    r.append(".");
    r.append(decimal_text((bits / 65536 % 256) as u64).as_str());
    r.append(".");
    r.append(decimal_text((bits / 256 % 256) as u64).as_str());
    r.append(".");
    r.append(decimal_text((bits % 256) as u64).as_str());
    assert(seq!['.'] =~= "."@);
    assert(r@ =~= v4_text(bits as nat));
    r
}

fn segments_of(bits: u128, count: usize) -> (r: Vec<u16>)
    ensures
        r@ == segments(bits as nat, count as nat),
        r@.len() == count,
    decreases count,
{
    if count == 0 {
        Vec::new()
    } else {
        let mut r = segments_of(bits / 65536, count - 1);
        r.push((bits % 65536) as u16);
        r
    }
}

/// The text of the segments from `from` up to, not including, `to`.
fn joined_text(parts: &Vec<u16>, from: usize, to: usize) -> (r: String)
    requires
        from <= to <= parts@.len(),
    ensures
        r@ == joined(parts@.subrange(from as int, to as int)),
    decreases to - from,
{
    let ghost span = parts@.subrange(from as int, to as int);
    if from == to {
        let r = String::new();
        assert(r@ =~= joined(span));
        r
    } else if to - from == 1 {
        hex_text(parts[from])
    } else {
        proof {
            reveal_strlit(":");
        }
        let mut r = joined_text(parts, from, to - 1);
        r.append(":");
        r.append(hex_text(parts[to - 1]).as_str());
        assert(span.drop_last() =~= parts@.subrange(from as int, to - 1));
        assert(seq![':'] =~= ":"@);
        assert(r@ =~= joined(span));
        r
    }
}

/// A run of zero segments stays inside the address.
proof fn zero_run_is_inside(parts: Seq<u16>, i: int)
    requires
        0 <= i <= parts.len(),
    ensures
        i + zero_run(parts, i) <= parts.len(),
    decreases parts.len() - i,
{
    if i < parts.len() && parts[i] == 0 {
        zero_run_is_inside(parts, i + 1);
    }
}

fn v6_text_of(bits: u128) -> (r: String)
    ensures
        r@ == v6_text(bits as nat),
{
    if bits / 0x1_0000_0000 == 0xffff {
        proof {
            reveal_strlit("::ffff:");
        }
        let mut r = "::ffff:".to_owned();
        r.append(v4_text_of((bits % 0x1_0000_0000) as u32).as_str());
        assert(seq![':', ':', 'f', 'f', 'f', 'f', ':'] =~= "::ffff:"@);
        return r;
    }
    let parts = segments_of(bits, 8);
    let mut i: usize = 8;
    let mut run: usize = 0;
    let mut start: usize = 8;
    let mut longest: usize = 0;
    while i > 0
        invariant
            i <= 8,
            parts@.len() == 8,
            start <= 8,
            run <= 8 - i,
            run == zero_run(parts@, i as int),
            start == longest_zero_run(parts@, i as int),
            longest == zero_run(parts@, start as int),
        decreases i,
    {
        i = i - 1;
        run = if parts[i] == 0 { run + 1 } else { 0 };
        if run >= longest {
            start = i;
            longest = run;
        }
    }
    proof {
        zero_run_is_inside(parts@, start as int);
    }
    if longest > 1 {
        proof {
            reveal_strlit("::");
        }
        let mut r = joined_text(&parts, 0, start);
        r.append("::");
        r.append(joined_text(&parts, start + longest, 8).as_str());
        assert(parts@.subrange(0, start as int) =~= parts@.take(start as int));
        assert(parts@.subrange(start + longest, 8) =~= parts@.skip(start + longest));
        assert(seq![':', ':'] =~= "::"@);
        assert(r@ =~= v6_text(bits as nat));
        r
    } else {
        let r = joined_text(&parts, 0, 8);
        assert(parts@.subrange(0, 8) =~= parts@);
        r
    }
}

} // verus!
