//! What texts owe the values they stand for: numerals spell their numbers, hexadecimal spells its
//! bytes, address texts spell their address, and orders are those of the values.

use vstd::prelude::*;

use crate::addr::IpAddr;
use crate::model::{Direction, FlowKeyModel, TransportProtocol};
use crate::text::Order;

verus! {

/// The number that a digit stands for.
pub open spec fn digit_value(c: char) -> int {
    if '0' <= c <= '9' {
        c as int - 48
    } else {
        c as int - 87
    }
}

/// The number that digits in base `base` spell.
pub open spec fn numeral_value(text: Seq<char>, base: nat) -> int
    decreases text.len(),
{
    if text.len() == 0 {
        0
    } else {
        numeral_value(text.drop_last(), base) * base + digit_value(text.last())
    }
}

/// A numeral spells its number, in digits of its base, and has no leading zero.
pub proof fn numerals_spell_their_number(n: nat, base: nat)
    requires
        base == 10 || base == 16,
    ensures
        ({
            let text = crate::text::numeral(n, base);
            &&& text.len() > 0
            &&& numeral_value(text, base) == n
            &&& text[0] == '0' ==> n == 0 && text.len() == 1
            &&& forall|i: int|
                0 <= i < text.len() ==> ('0' <= (#[trigger] text[i]) <= '9') || (base == 16 && 'a'
                    <= text[i] <= 'f')
        }),
        crate::text::decimal(n) == crate::text::numeral(n, 10),
    decreases n,
{
    let text = crate::text::numeral(n, base);
    if n < base {
        assert(text.drop_last() =~= Seq::empty());
        assert(numeral_value(text.drop_last(), base) == 0);
    } else {
        assert(n / base < n && n / base > 0) by (nonlinear_arith)
            requires
                n >= base,
                base >= 2,
        ;
        numerals_spell_their_number(n / base, base);
        let front = crate::text::numeral(n / base, base);
        assert(text.drop_last() =~= front);
        vstd::arithmetic::div_mod::lemma_fundamental_div_mod(n as int, base as int);
        vstd::arithmetic::mul::lemma_mul_is_commutative(base as int, n as int / base as int);
        assert forall|i: int| 0 <= i < text.len() implies ('0' <= (#[trigger] text[i]) <= '9') || (
        base == 16 && 'a' <= text[i] <= 'f') by {
            if i < front.len() {
                assert(text[i] == front[i]);
            }
        }
        assert(text[0] == front[0]);
    }
}

/// A negative number has a minus sign in front of the numeral of its magnitude, any other none.
pub proof fn signs_stand_in_front(n: int)
    ensures
        n >= 0 ==> crate::text::signed_decimal(n) == crate::text::decimal(n as nat),
        n < 0 ==> crate::text::signed_decimal(n) == seq!['-'] + crate::text::decimal((-n) as nat),
{
}

/// Hexadecimal has two lower-case digits for every byte, in the order of the bytes, the high
/// digit first.
pub proof fn hexadecimal_spells_the_bytes(bytes: Seq<u8>, i: int)
    requires
        0 <= i < bytes.len(),
    ensures
        ({
            let text = crate::text::hex(bytes);
            let high = text[2 * i];
            let low = text[2 * i + 1];
            &&& text.len() == 2 * bytes.len()
            &&& digit_value(high) * 16 + digit_value(low) == bytes[i]
            &&& ('0' <= high <= '9') || ('a' <= high <= 'f')
            &&& ('0' <= low <= '9') || ('a' <= low <= 'f')
        }),
    decreases bytes.len(),
{
    let front = bytes.drop_last();
    if front.len() > 0 {
        hexadecimal_spells_the_bytes(front, if i < front.len() { i } else { 0 });
        let text = crate::text::hex(bytes);
        let start = crate::text::hex(front);
        if i < front.len() {
            assert(text[2 * i] == start[2 * i]);
            assert(text[2 * i + 1] == start[2 * i + 1]);
            assert(front[i] == bytes[i]);
        }
    } else {
        assert(crate::text::hex(front) =~= Seq::empty());
    }
}

/// Two texts stand in the order of the first character in which they differ; where one is the
/// beginning of the other, the shorter comes first.
pub proof fn texts_go_by_their_first_difference(a: Seq<char>, b: Seq<char>, k: int)
    requires
        0 <= k <= a.len(),
        k <= b.len(),
        forall|i: int| 0 <= i < k ==> a[i] == b[i],
        k < a.len() && k < b.len() ==> a[k] != b[k],
    ensures
        ({
            let order = crate::text::text_order(a, b);
            &&& k < a.len() && k < b.len() && a[k] < b[k] ==> order == Order::Less
            &&& k < a.len() && k < b.len() && a[k] > b[k] ==> order == Order::Greater
            &&& k == a.len() && k < b.len() ==> order == Order::Less
            &&& k < a.len() && k == b.len() ==> order == Order::Greater
            &&& k == a.len() && k == b.len() ==> order == Order::Same
        }),
    decreases k,
{
    if k > 0 {
        let c = a.drop_first();
        let d = b.drop_first();
        assert forall|i: int| 0 <= i < k - 1 implies c[i] == d[i] by {
            assert(a[i + 1] == b[i + 1]);
        }
        assert(a[0] == b[0]);
        texts_go_by_their_first_difference(c, d, k - 1);
    }
}

/// An IPv4 address is written as its four octets in decimal, in network order, with dots between.
pub proof fn ipv4_text_spells_the_octets(a: u8, b: u8, c: u8, d: u8, bits: u32)
    requires
        bits == ((a * 256 + b) * 256 + c) * 256 + d,
    ensures
        crate::addr::ip_text(IpAddr::V4(bits)) == crate::text::decimal(a as nat) + seq!['.']
            + crate::text::decimal(b as nat) + seq!['.'] + crate::text::decimal(c as nat) + seq!['.']
            + crate::text::decimal(d as nat),
{
    let n = bits as nat;
    assert(n / 16777216 % 256 == a && n / 65536 % 256 == b && n / 256 % 256 == c && n % 256 == d);
}

/// The number that groups of sixteen bits spell, the first being the highest.
pub open spec fn groups_value(groups: Seq<u16>) -> nat
    decreases groups.len(),
{
    if groups.len() == 0 {
        0
    } else {
        groups_value(groups.drop_last()) * 65536 + groups.last() as nat
    }
}

/// Groups in hexadecimal with colons between them.
pub open spec fn colons(groups: Seq<u16>) -> Seq<char>
    decreases groups.len(),
{
    if groups.len() == 0 {
        Seq::empty()
    } else if groups.len() == 1 {
        crate::text::numeral(groups[0] as nat, 16)
    } else {
        crate::text::numeral(groups[0] as nat, 16) + seq![':'] + colons(groups.skip(1))
    }
}

/// Whether `count` groups from `at` on are all zero.
pub open spec fn is_zero_run(groups: Seq<u16>, at: int, count: int) -> bool {
    &&& 0 <= at
    &&& 0 <= count
    &&& at + count <= groups.len()
    &&& forall|i: int| at <= i < at + count ==> #[trigger] groups[i] == 0
}

/// Whether the run of `count` zero groups from `at` on is the one to leave out: it has two groups
/// or more, no run is longer, and none of its length comes before it.
pub open spec fn is_left_out(groups: Seq<u16>, at: int, count: int) -> bool {
    &&& count >= 2
    &&& is_zero_run(groups, at, count)
    &&& forall|other: int, length: int|
        length > count ==> !(#[trigger] is_zero_run(groups, other, length))
    &&& forall|other: int| other < at ==> !(#[trigger] is_zero_run(groups, other, count))
}

proof fn groups_are_segments(groups: Seq<u16>)
    ensures
        crate::addr::segments(groups_value(groups), groups.len()) == groups,
    decreases groups.len(),
{
    if groups.len() > 0 {
        let front = groups.drop_last();
        let rest = groups_value(front);
        let last = groups.last() as nat;
        groups_are_segments(front);
        assert((rest * 65536 + last) / 65536 == rest && (rest * 65536 + last) % 65536 == last);
        assert(crate::addr::segments(groups_value(groups), groups.len()) =~= groups);
    } else {
        assert(crate::addr::segments(groups_value(groups), groups.len()) =~= groups);
    }
}

proof fn joined_is_colons(groups: Seq<u16>)
    ensures
        crate::addr::joined(groups) == colons(groups),
    decreases groups.len(),
{
    if groups.len() > 1 {
        let front = groups.drop_last();
        let rest = groups.skip(1);
        joined_is_colons(front);
        joined_is_colons(rest);
        if groups.len() == 2 {
            assert(colons(rest) == crate::text::numeral(groups[1] as nat, 16));
        } else {
            joined_is_colons(rest.drop_last());
            assert(front.skip(1) =~= rest.drop_last());
            assert(colons(groups) =~= crate::addr::joined(groups));
        }
    }
}

proof fn run_from(groups: Seq<u16>, at: int)
    requires
        0 <= at <= groups.len(),
    ensures
        is_zero_run(groups, at, crate::addr::zero_run(groups, at) as int),
        forall|length: int| #[trigger]
            is_zero_run(groups, at, length) ==> length <= crate::addr::zero_run(groups, at),
    decreases groups.len() - at,
{
    if at < groups.len() && groups[at] == 0 {
        run_from(groups, at + 1);
        let run = crate::addr::zero_run(groups, at) as int;
        assert(is_zero_run(groups, at, run)) by {
            assert(is_zero_run(groups, at + 1, run - 1));
        }
        assert forall|length: int| #[trigger] is_zero_run(groups, at, length) implies length
            <= run by {
            if length > 0 {
                assert(is_zero_run(groups, at + 1, length - 1));
            }
        }
    } else {
        assert forall|length: int| #[trigger] is_zero_run(groups, at, length) implies length <= 0 by {
            if length > 0 {
                assert(groups[at] == 0);
            }
        }
    }
}

proof fn longest_run_from(groups: Seq<u16>, from: int)
    requires
        0 <= from <= groups.len(),
    ensures
        ({
            let at = crate::addr::longest_zero_run(groups, from);
            &&& from <= at <= groups.len()
            &&& forall|i: int|
                from <= i <= groups.len() ==> #[trigger] crate::addr::zero_run(groups, i)
                    <= crate::addr::zero_run(groups, at)
            &&& forall|i: int|
                from <= i < at ==> #[trigger] crate::addr::zero_run(groups, i)
                    < crate::addr::zero_run(groups, at)
        }),
    decreases groups.len() - from,
{
    if from < groups.len() {
        longest_run_from(groups, from + 1);
    }
}

/// An IPv6 address is written as its eight groups in hexadecimal with colons between them. The
/// first of the longest runs of two or more zero groups is left out, and two colons stand for it.
/// An address that maps an IPv4 address ends in the text of that address.
pub proof fn ipv6_text_spells_the_groups(groups: Seq<u16>, bits: u128, at: int, count: int)
    requires
        groups.len() == 8,
        bits == groups_value(groups),
    ensures
        ({
            let text = crate::addr::ip_text(IpAddr::V6(bits));
            let is_mapped = groups[0] == 0 && groups[1] == 0 && groups[2] == 0 && groups[3] == 0
                && groups[4] == 0 && groups[5] == 0xffff;
            &&& is_mapped ==> text == "::ffff:"@ + crate::addr::ip_text(
                IpAddr::V4((groups[6] * 65536 + groups[7]) as u32),
            )
            &&& !is_mapped && is_left_out(groups, at, count) ==> text == colons(groups.take(at))
                + "::"@ + colons(groups.skip(at + count))
            &&& !is_mapped && (forall|other: int| !(#[trigger] is_zero_run(groups, other, 2)))
                ==> text == colons(groups)
        }),
{
    reveal_strlit("::ffff:");
    reveal_strlit("::");
    assert("::ffff:"@ =~= seq![':', ':', 'f', 'f', 'f', 'f', ':']);
    assert("::"@ =~= seq![':', ':']);
    let n = bits as nat;
    groups_are_segments(groups);
    mapped_groups(groups);
    let start = crate::addr::longest_zero_run(groups, 0);
    longest_run_from(groups, 0);
    run_from(groups, start);
    let run = crate::addr::zero_run(groups, start) as int;
    joined_is_colons(groups);
    if is_left_out(groups, at, count) {
        run_from(groups, at);
        assert(count <= crate::addr::zero_run(groups, at));
        assert(run == count);
        assert(start == at);
        joined_is_colons(groups.take(at));
        joined_is_colons(groups.skip(at + count));
    }
    if run >= 2 {
        assert(is_zero_run(groups, start, 2)) by {
            assert(is_zero_run(groups, start, run));
        }
    }
}

proof fn mapped_groups(groups: Seq<u16>)
    requires
        groups.len() == 8,
    ensures
        groups_value(groups) / 0x1_0000_0000 == 0xffff <==> groups[0] == 0 && groups[1] == 0
            && groups[2] == 0 && groups[3] == 0 && groups[4] == 0 && groups[5] == 0xffff,
        groups_value(groups) % 0x1_0000_0000 == groups[6] * 65536 + groups[7],
{
    let high = groups_value(groups.take(6));
    let low = (groups[6] * 65536 + groups[7]) as nat;
    assert(groups.drop_last().drop_last() =~= groups.take(6));
    assert(groups.drop_last().last() == groups[6]);
    assert(groups_value(groups.drop_last()) == high * 65536 + groups[6]);
    assert(groups_value(groups) == high * 0x1_0000_0000 + low);
    assert((high * 0x1_0000_0000 + low) / 0x1_0000_0000 == high);
    assert((high * 0x1_0000_0000 + low) % 0x1_0000_0000 == low);
    let g5 = groups_value(groups.take(5));
    let g4 = groups_value(groups.take(4));
    let g3 = groups_value(groups.take(3));
    let g2 = groups_value(groups.take(2));
    let g1 = groups_value(groups.take(1));
    assert(groups.take(6).drop_last() =~= groups.take(5));
    assert(groups.take(5).drop_last() =~= groups.take(4));
    assert(groups.take(4).drop_last() =~= groups.take(3));
    assert(groups.take(3).drop_last() =~= groups.take(2));
    assert(groups.take(2).drop_last() =~= groups.take(1));
    assert(groups.take(1).drop_last() =~= Seq::empty());
    assert(groups_value(groups.take(1).drop_last()) == 0);
    assert(high == g5 * 65536 + groups[5]);
    assert(g5 == g4 * 65536 + groups[4]);
    assert(g4 == g3 * 65536 + groups[3]);
    assert(g3 == g2 * 65536 + groups[2]);
    assert(g2 == g1 * 65536 + groups[1]);
    assert(g1 == groups[0]);
}

/// Directions come in the order: inward, outward, within, unknown.
pub open spec fn direction_before(a: Direction, b: Direction) -> bool {
    match a {
        Direction::Ingress => b != Direction::Ingress,
        Direction::Egress => b == Direction::Internal || b == Direction::Unknown,
        Direction::Internal => b == Direction::Unknown,
        Direction::Unknown => false,
    }
}

/// Protocols come in the order: TCP, UDP, ICMP, and then the others by their number.
pub open spec fn protocol_before(a: TransportProtocol, b: TransportProtocol) -> bool {
    match a {
        TransportProtocol::Tcp => b != TransportProtocol::Tcp,
        TransportProtocol::Udp => b == TransportProtocol::Icmp || b is Other,
        TransportProtocol::Icmp => b is Other,
        TransportProtocol::Other(number) => b matches TransportProtocol::Other(other) && number
            < other,
    }
}

/// Addresses come in the order: those of version four, then those of version six, each by their
/// bits.
pub open spec fn address_before(a: IpAddr, b: IpAddr) -> bool {
    match a {
        IpAddr::V4(bits) => (b matches IpAddr::V4(other) ==> bits < other),
        IpAddr::V6(bits) => (b matches IpAddr::V6(other) && bits < other),
    }
}

/// Ports come in the order: no port, then by their number.
pub open spec fn port_before(a: Option<u16>, b: Option<u16>) -> bool {
    match a {
        None => b is Some,
        Some(number) => b matches Some(other) && number < other,
    }
}

/// Keys go by their first field that differs: capture point, direction, protocol, source address,
/// destination address, source port, destination port.
pub proof fn keys_go_by_their_first_difference(a: FlowKeyModel, b: FlowKeyModel)
    ensures
        crate::model::key_order(a, b) == Order::Less <==> if a.capture_point != b.capture_point {
            crate::text::text_order(a.capture_point, b.capture_point) == Order::Less
        } else if a.direction != b.direction {
            direction_before(a.direction, b.direction)
        } else if a.protocol != b.protocol {
            protocol_before(a.protocol, b.protocol)
        } else if a.source_ip != b.source_ip {
            address_before(a.source_ip, b.source_ip)
        } else if a.destination_ip != b.destination_ip {
            address_before(a.destination_ip, b.destination_ip)
        } else if a.source_port != b.source_port {
            port_before(a.source_port, b.source_port)
        } else {
            port_before(a.destination_port, b.destination_port)
        },
        crate::model::key_order(a, b) == Order::Same <==> a == b,
        crate::model::key_order(a, b) == Order::Greater <==> crate::model::key_order(b, a)
            == Order::Less,
{
    crate::text::text_order_is_total(a.capture_point, b.capture_point);
    crate::model::key_order_is_total(a, b);
    crate::model::key_order_is_total(b, a);
}

/// Entries go by their interval, and within an interval by their key.
pub proof fn entries_go_by_interval_and_key(a: (u64, FlowKeyModel), b: (u64, FlowKeyModel))
    ensures
        a.0 < b.0 ==> crate::aggregate::entry_order(a, b) == Order::Less,
        a.0 > b.0 ==> crate::aggregate::entry_order(a, b) == Order::Greater,
        a.0 == b.0 ==> crate::aggregate::entry_order(a, b) == crate::model::key_order(a.1, b.1),
{
}

} // verus!
