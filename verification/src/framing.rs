//! What parsing owes the bytes of a frame: a packet is the same behind every link header, and its
//! addresses, protocol and ports are the bytes that its own headers hold.

use vstd::prelude::*;

use crate::addr::IpAddr;
use crate::model::{Direction, TransportProtocol};
use crate::packet::{IpPacket, PacketError, PacketModel, Transport};

verus! {

/// The number that `count` bytes from `at` on spell, the first byte being the highest.
pub open spec fn spelled(frame: Seq<u8>, at: int, count: nat) -> nat
    decreases count,
{
    if count == 0 {
        0
    } else {
        spelled(frame, at, (count - 1) as nat) * 256 + frame[at + count - 1] as nat
    }
}

/// The octet of `bits` that `place` octets follow.
pub open spec fn octet(bits: nat, place: nat) -> nat
    decreases place,
{
    if place == 0 {
        bits % 256
    } else {
        octet(bits / 256, (place - 1) as nat)
    }
}

proof fn octets_are_bytes(frame: Seq<u8>, at: int, count: nat, place: nat)
    requires
        place < count,
    ensures
        octet(spelled(frame, at, count), place) == frame[at + count - 1 - place],
    decreases count,
{
    let rest = spelled(frame, at, (count - 1) as nat);
    let last = frame[at + count - 1] as nat;
    assert((rest * 256 + last) / 256 == rest && (rest * 256 + last) % 256 == last);
    if place > 0 {
        octets_are_bytes(frame, at, (count - 1) as nat, (place - 1) as nat);
    }
}

proof fn four_bytes(frame: Seq<u8>, at: int)
    ensures
        crate::packet::be32(frame, at) == spelled(frame, at, 4),
        0 <= crate::packet::be32(frame, at) < 0x1_0000_0000,
{
    reveal_with_fuel(spelled, 5);
}

proof fn more_bytes(frame: Seq<u8>, at: int, count: nat)
    ensures
        spelled(frame, at, count + 4) == spelled(frame, at, count) * 0x1_0000_0000 + spelled(
            frame,
            at + count,
            4,
        ),
{
    reveal_with_fuel(spelled, 5);
    let a = spelled(frame, at, count);
    assert(spelled(frame, at, count + 1) == a * 256 + frame[at + count]);
    assert(spelled(frame, at, count + 2) == spelled(frame, at, count + 1) * 256 + frame[at + count
        + 1]);
    assert(spelled(frame, at, count + 3) == spelled(frame, at, count + 2) * 256 + frame[at + count
        + 2]);
    assert(spelled(frame, at, count + 4) == spelled(frame, at, count + 3) * 256 + frame[at + count
        + 3]);
}

proof fn sixteen_bytes(frame: Seq<u8>, at: int)
    ensures
        crate::packet::be128(frame, at) == spelled(frame, at, 16),
        0 <= crate::packet::be128(frame, at) <= u128::MAX,
{
    four_bytes(frame, at);
    four_bytes(frame, at + 4);
    four_bytes(frame, at + 8);
    four_bytes(frame, at + 12);
    more_bytes(frame, at, 4);
    more_bytes(frame, at, 8);
    more_bytes(frame, at, 12);
}

proof fn words_behind(link: Seq<u8>, packet: Seq<u8>, at: int)
    requires
        0 <= at,
    ensures
        at + 2 <= packet.len() ==> crate::packet::be16(link + packet, link.len() + at)
            == crate::packet::be16(packet, at),
        at + 4 <= packet.len() ==> crate::packet::be32(link + packet, link.len() + at)
            == crate::packet::be32(packet, at),
        at + 8 <= packet.len() ==> crate::packet::be64(link + packet, link.len() + at)
            == crate::packet::be64(packet, at),
        at + 16 <= packet.len() ==> crate::packet::be128(link + packet, link.len() + at)
            == crate::packet::be128(packet, at),
{
}

proof fn ports_behind(link: Seq<u8>, packet: Seq<u8>, at: int, protocol: u8)
    requires
        0 <= at,
    ensures
        crate::packet::ports_at(link + packet, link.len() + at, protocol)
            == crate::packet::ports_at(packet, at, protocol),
{
    words_behind(link, packet, at);
    words_behind(link, packet, at + 2);
}

proof fn ipv4_behind(link: Seq<u8>, packet: Seq<u8>)
    ensures
        crate::packet::ipv4_at(link + packet, link.len() as int) == crate::packet::ipv4_at(
            packet,
            0,
        ),
{
    if packet.len() >= 20 {
        let header_len = packet[0] as int % 16 * 4;
        words_behind(link, packet, 6);
        words_behind(link, packet, 12);
        words_behind(link, packet, 16);
        ports_behind(link, packet, header_len, packet[9]);
    }
}

/// Where a walk over extension headers ends, `by` bytes further on.
spec fn moved(end: Result<Transport, PacketError>, by: int) -> Result<Transport, PacketError> {
    match end {
        Err(error) => Err(error),
        Ok(end) => Ok(Transport { offset: end.offset + by, ..end }),
    }
}

proof fn extensions_behind(link: Seq<u8>, packet: Seq<u8>, from: Transport, headers: nat)
    requires
        0 <= from.offset,
    ensures
        crate::packet::past_extensions(
            link + packet,
            Transport { offset: from.offset + link.len(), ..from },
            headers,
        ) == moved(
            crate::packet::past_extensions(packet, from, headers),
            link.len() as int,
        ),
        crate::packet::past_extensions(packet, from, headers) matches Ok(end) ==> end.offset >= 0,
    decreases headers,
{
    let at = from.offset;
    let frame = link + packet;
    if headers > 0 && packet.len() >= at + 2 {
        assert(frame[at + link.len()] == packet[at]);
        assert(frame[at + link.len() + 1] == packet[at + 1]);
        if from.protocol == 0 || from.protocol == 43 || from.protocol == 60 {
            extensions_behind(
                link,
                packet,
                Transport { protocol: packet[at], offset: at + (packet[at + 1] + 1) * 8, ..from },
                (headers - 1) as nat,
            );
        } else if from.protocol == 44 && packet.len() >= at + 8 {
            words_behind(link, packet, at + 2);
            extensions_behind(
                link,
                packet,
                Transport {
                    protocol: packet[at],
                    offset: at + 8,
                    first_fragment: crate::packet::be16(packet, at + 2) < 8,
                },
                (headers - 1) as nat,
            );
        } else if from.protocol == 51 {
            extensions_behind(
                link,
                packet,
                Transport { protocol: packet[at], offset: at + (packet[at + 1] + 2) * 4, ..from },
                (headers - 1) as nat,
            );
        }
    }
}

proof fn ipv6_behind(link: Seq<u8>, packet: Seq<u8>)
    ensures
        crate::packet::ipv6_at(link + packet, link.len() as int) == crate::packet::ipv6_at(
            packet,
            0,
        ),
{
    if packet.len() >= 40 {
        let start = Transport { protocol: packet[6], offset: 40, first_fragment: true };
        words_behind(link, packet, 8);
        words_behind(link, packet, 24);
        extensions_behind(link, packet, start, 8);
        if let Ok(end) = crate::packet::past_extensions(packet, start, 8) {
            ports_behind(link, packet, end.offset, end.protocol);
        }
    }
}

/// Whether these bytes are a link header in front of an IP packet of that version: an Ethernet
/// header with no, one or two VLAN tags, or a Linux cooked header of either version.
pub open spec fn is_link_header(link: Seq<u8>, link_type: i32, version: int) -> bool {
    let high: u8 = if version == 4 {
        0x08
    } else {
        0x86
    };
    let low: u8 = if version == 4 {
        0x00
    } else {
        0xdd
    };
    ||| link_type == 1 && link.len() == 14 && link[12] == high && link[13] == low
    ||| link_type == 1 && link.len() == 18 && ((link[12] == 0x81 && link[13] == 0x00) || (link[12]
        == 0x88 && link[13] == 0xa8)) && link[16] == high && link[17] == low
    ||| link_type == 1 && link.len() == 22 && ((link[12] == 0x81 && link[13] == 0x00) || (link[12]
        == 0x88 && link[13] == 0xa8)) && ((link[16] == 0x81 && link[17] == 0x00) || (link[16]
        == 0x88 && link[17] == 0xa8)) && link[20] == high && link[21] == low
    ||| link_type == 113 && link.len() == 16 && link[14] == high && link[15] == low
    ||| link_type == 276 && link.len() == 20 && link[0] == high && link[1] == low
}

/// A link header does not matter: an IP packet says the same behind an Ethernet header, with one
/// VLAN tag, with two, and behind either Linux cooked header, as it says on its own. Its source,
/// destination, protocol and ports, its key and the reason why it has none are the same.
pub proof fn the_link_header_does_not_matter(
    link: Seq<u8>,
    packet: Seq<u8>,
    link_type: i32,
    timestamp: u64,
    wire_bytes: u64,
    capture_point: Seq<char>,
    local: Seq<IpAddr>,
)
    requires
        packet.len() > 0,
        packet[0] / 16 == 4 || packet[0] / 16 == 6,
        is_link_header(link, link_type, packet[0] as int / 16),
    ensures
        crate::packet::headers_of(link + packet, link_type) == crate::packet::headers_of(
            packet,
            101,
        ),
        crate::packet::packet_of(
            link + packet,
            link_type,
            timestamp,
            wire_bytes,
            capture_point,
            local,
        ) == crate::packet::packet_of(packet, 101, timestamp, wire_bytes, capture_point, local),
{
    let frame = link + packet;
    ipv4_behind(link, packet);
    ipv6_behind(link, packet);
    assert(frame.len() == link.len() + packet.len());
    assert forall|i: int| 0 <= i < link.len() implies frame[i] == link[i] by {}
    assert(crate::packet::be16(frame, 12) == frame[12] * 256 + frame[13]);
    assert(crate::packet::be16(frame, 14) == frame[14] * 256 + frame[15]);
    assert(crate::packet::be16(frame, 16) == frame[16] * 256 + frame[17]);
    assert(crate::packet::be16(frame, 20) == frame[20] * 256 + frame[21]);
    assert(crate::packet::be16(frame, 0) == frame[0] * 256 + frame[1]);
    reveal_with_fuel(crate::packet::past_tags, 3);
    let ether_type: int = if packet[0] / 16 == 4 {
        0x0800
    } else {
        0x86dd
    };
    assert(crate::packet::network_header(frame, link_type) == Ok::<(int, int), PacketError>(
        (link.len() as int, ether_type),
    ));
}

/// Behind a link header that announces one version of IP stands a packet of that version, or the
/// packet is truncated or invalid; the announced version, not the packet's first byte, decides.
pub proof fn the_link_header_announces_the_version(
    link: Seq<u8>,
    packet: Seq<u8>,
    link_type: i32,
    version: int,
)
    requires
        version == 4 || version == 6,
        is_link_header(link, link_type, version),
    ensures
        ({
            let r = crate::packet::headers_of(link + packet, link_type);
            &&& version == 4 && packet.len() < 20 ==> r == Err::<Option<IpPacket>, PacketError>(
                PacketError::Truncated("IPv4"),
            )
            &&& version == 4 && packet.len() >= 20 && packet[0] / 16 != 4 ==> r == Err::<
                Option<IpPacket>,
                PacketError,
            >(PacketError::Invalid("IPv4"))
            &&& version == 6 && packet.len() < 40 ==> r == Err::<Option<IpPacket>, PacketError>(
                PacketError::Truncated("IPv6"),
            )
            &&& version == 6 && packet.len() >= 40 && packet[0] / 16 != 6 ==> r == Err::<
                Option<IpPacket>,
                PacketError,
            >(PacketError::Invalid("IPv6"))
        }),
{
    let frame = link + packet;
    ipv4_behind(link, packet);
    ipv6_behind(link, packet);
    assert forall|i: int| 0 <= i < link.len() implies frame[i] == link[i] by {}
    assert(crate::packet::be16(frame, 12) == frame[12] * 256 + frame[13]);
    assert(crate::packet::be16(frame, 14) == frame[14] * 256 + frame[15]);
    assert(crate::packet::be16(frame, 16) == frame[16] * 256 + frame[17]);
    assert(crate::packet::be16(frame, 20) == frame[20] * 256 + frame[21]);
    assert(crate::packet::be16(frame, 0) == frame[0] * 256 + frame[1]);
    reveal_with_fuel(crate::packet::past_tags, 3);
    let ether_type: int = if version == 4 {
        0x0800
    } else {
        0x86dd
    };
    assert(crate::packet::network_header(frame, link_type) == Ok::<(int, int), PacketError>(
        (link.len() as int, ether_type),
    ));
}

/// A frame that is too short for its link header is truncated there; a frame that carries neither
/// IPv4 nor IPv6 has no packet; and a link type that is none of these four is not supported.
pub proof fn other_frames_have_no_packet(frame: Seq<u8>, link_type: i32)
    ensures
        ({
            let r = crate::packet::headers_of(frame, link_type);
            &&& link_type == 1 && frame.len() < 14 ==> r == Err::<Option<IpPacket>, PacketError>(
                PacketError::Truncated("ethernet"),
            )
            &&& link_type == 1 && frame.len() >= 14 && !(frame[12] == 0x08 && frame[13] == 0x00)
                && !(frame[12] == 0x86 && frame[13] == 0xdd) && !(frame[12] == 0x81 && frame[13]
                == 0x00) && !(frame[12] == 0x88 && frame[13] == 0xa8) ==> r == Ok::<
                Option<IpPacket>,
                PacketError,
            >(None)
            &&& link_type == 1 && 14 <= frame.len() < 18 && ((frame[12] == 0x81 && frame[13]
                == 0x00) || (frame[12] == 0x88 && frame[13] == 0xa8)) ==> r == Err::<
                Option<IpPacket>,
                PacketError,
            >(PacketError::Truncated("vlan"))
            &&& link_type == 101 && frame.len() == 0 ==> r == Err::<Option<IpPacket>, PacketError>(
                PacketError::Truncated("raw IP"),
            )
            &&& link_type == 101 && frame.len() > 0 && frame[0] / 16 != 4 && frame[0] / 16 != 6
                ==> r == Err::<Option<IpPacket>, PacketError>(PacketError::Invalid("raw IP"))
            &&& link_type == 113 && frame.len() < 16 ==> r == Err::<Option<IpPacket>, PacketError>(
                PacketError::Truncated("linux cooked"),
            )
            &&& link_type == 113 && frame.len() >= 16 && !(frame[14] == 0x08 && frame[15] == 0x00)
                && !(frame[14] == 0x86 && frame[15] == 0xdd) ==> r == Ok::<
                Option<IpPacket>,
                PacketError,
            >(None)
            &&& link_type == 276 && frame.len() < 20 ==> r == Err::<Option<IpPacket>, PacketError>(
                PacketError::Truncated("linux cooked v2"),
            )
            &&& link_type == 276 && frame.len() >= 20 && !(frame[0] == 0x08 && frame[1] == 0x00)
                && !(frame[0] == 0x86 && frame[1] == 0xdd) ==> r == Ok::<
                Option<IpPacket>,
                PacketError,
            >(None)
            &&& link_type != 1 && link_type != 101 && link_type != 113 && link_type != 276 ==> r
                == Err::<Option<IpPacket>, PacketError>(PacketError::UnsupportedLinkType(link_type))
        }),
{
    reveal_with_fuel(crate::packet::past_tags, 3);
    assert(crate::packet::be16(frame, 12) == frame[12] * 256 + frame[13]);
    assert(crate::packet::be16(frame, 14) == frame[14] * 256 + frame[15]);
    assert(crate::packet::be16(frame, 0) == frame[0] * 256 + frame[1]);
}

/// At most two VLAN tags are skipped, a tag that is cut off is truncated, and what stands behind
/// the tags and is neither IPv4 nor IPv6, a third tag among it, has no packet.
pub proof fn two_tags_are_skipped(frame: Seq<u8>)
    requires
        frame.len() >= 18,
        (frame[12] == 0x81 && frame[13] == 0x00) || (frame[12] == 0x88 && frame[13] == 0xa8),
    ensures
        ({
            let r = crate::packet::headers_of(frame, 1);
            let second = (frame[16] == 0x81 && frame[17] == 0x00) || (frame[16] == 0x88
                && frame[17] == 0xa8);
            &&& !second && !(frame[16] == 0x08 && frame[17] == 0x00) && !(frame[16] == 0x86
                && frame[17] == 0xdd) ==> r == Ok::<Option<IpPacket>, PacketError>(None)
            &&& second && frame.len() < 22 ==> r == Err::<Option<IpPacket>, PacketError>(
                PacketError::Truncated("vlan"),
            )
            &&& second && frame.len() >= 22 && !(frame[20] == 0x08 && frame[21] == 0x00) && !(
            frame[20] == 0x86 && frame[21] == 0xdd) ==> r == Ok::<Option<IpPacket>, PacketError>(
                None,
            )
        }),
{
    reveal_with_fuel(crate::packet::past_tags, 3);
    assert(crate::packet::be16(frame, 12) == frame[12] * 256 + frame[13]);
    assert(crate::packet::be16(frame, 16) == frame[16] * 256 + frame[17]);
    assert(crate::packet::be16(frame, 20) == frame[20] * 256 + frame[21]);
}

/// An IPv4 packet says what its bytes say: the addresses are the four octets from byte 12 and
/// from byte 16 on, the protocol is byte 9, and TCP and UDP have the ports that follow the
/// header, unless the packet is a later fragment.
pub proof fn an_ipv4_packet_says_its_bytes(packet: Seq<u8>)
    requires
        packet.len() > 0,
        packet[0] / 16 == 4,
    ensures
        ({
            let r = crate::packet::headers_of(packet, 101);
            let header = packet[0] as int % 16 * 4;
            let is_later_fragment = packet[6] % 32 != 0 || packet[7] != 0;
            let has_ports = !is_later_fragment && (packet[9] == 6 || packet[9] == 17);
            if packet.len() < 20 {
                r == Err::<Option<IpPacket>, PacketError>(PacketError::Truncated("IPv4"))
            } else if header < 20 {
                r == Err::<Option<IpPacket>, PacketError>(PacketError::Invalid("IPv4"))
            } else if packet.len() < header {
                r == Err::<Option<IpPacket>, PacketError>(PacketError::Truncated("IPv4"))
            } else if has_ports && packet.len() < header + 4 {
                r == Err::<Option<IpPacket>, PacketError>(PacketError::Truncated("transport"))
            } else {
                &&& r is Ok && r->Ok_0 is Some
                &&& r->Ok_0->Some_0.source matches IpAddr::V4(bits) && bits == ((packet[12] * 256
                    + packet[13]) * 256 + packet[14]) * 256 + packet[15]
                &&& r->Ok_0->Some_0.destination matches IpAddr::V4(bits) && bits == ((packet[16]
                    * 256 + packet[17]) * 256 + packet[18]) * 256 + packet[19]
                &&& r->Ok_0->Some_0.protocol == packet[9]
                &&& !has_ports ==> r->Ok_0->Some_0.ports is None
                &&& has_ports ==> (r->Ok_0->Some_0.ports matches Some(ports) && ports.0
                    == packet[header] * 256 + packet[header + 1] && ports.1 == packet[header + 2]
                    * 256 + packet[header + 3])
            }
        }),
{
    if packet.len() >= 20 {
        let fragment = packet[6] * 256 + packet[7];
        assert(crate::packet::be16(packet, 6) == fragment);
        assert(fragment % 8192 == 0 <==> packet[6] % 32 == 0 && packet[7] == 0);
    }
}

/// The addresses of an IPv6 packet are the sixteen octets that follow byte 8 of its header, the
/// source, and byte 24, the destination, in their order.
pub proof fn ipv6_addresses_are_header_octets(packet: Seq<u8>, k: int)
    requires
        packet.len() >= 40,
        packet[0] / 16 == 6,
        0 <= k < 16,
    ensures
        crate::packet::headers_of(packet, 101) matches Ok(Some(found)) ==> {
            &&& found.source matches IpAddr::V6(bits) && octet(bits as nat, (15 - k) as nat)
                == packet[8 + k] && bits == spelled(packet, 8, 16)
            &&& found.destination matches IpAddr::V6(bits) && octet(bits as nat, (15 - k) as nat)
                == packet[24 + k] && bits == spelled(packet, 24, 16)
        },
{
    sixteen_bytes(packet, 8);
    sixteen_bytes(packet, 24);
    octets_are_bytes(packet, 8, 16, (15 - k) as nat);
    octets_are_bytes(packet, 24, 16, (15 - k) as nat);
}

/// An IPv6 packet without extension headers says what its bytes say: the protocol is byte 6, and
/// TCP and UDP have the ports that follow the header. It is invalid only by its version, and
/// truncated only where it ends within its header or its ports.
pub proof fn a_plain_ipv6_packet_says_its_bytes(packet: Seq<u8>)
    requires
        packet.len() > 0,
        packet[0] / 16 == 6,
        packet.len() >= 40 ==> packet[6] != 0 && packet[6] != 43 && packet[6] != 44 && packet[6]
            != 51 && packet[6] != 60,
    ensures
        ({
            let r = crate::packet::headers_of(packet, 101);
            let has_ports = packet[6] == 6 || packet[6] == 17;
            if packet.len() < 40 {
                r == Err::<Option<IpPacket>, PacketError>(PacketError::Truncated("IPv6"))
            } else if has_ports && packet.len() < 44 {
                r == Err::<Option<IpPacket>, PacketError>(PacketError::Truncated("transport"))
            } else {
                &&& r is Ok && r->Ok_0 is Some
                &&& r->Ok_0->Some_0.protocol == packet[6]
                &&& !has_ports ==> r->Ok_0->Some_0.ports is None
                &&& has_ports ==> (r->Ok_0->Some_0.ports matches Some(ports) && ports.0
                    == packet[40] * 256 + packet[41] && ports.1 == packet[42] * 256 + packet[43])
            }
        }),
{
}

/// The packet with an extension header of that kind put behind its fixed header.
pub open spec fn with_extension(packet: Seq<u8>, kind: u8, extension: Seq<u8>) -> Seq<u8> {
    packet.take(40).update(6, kind) + extension + packet.skip(40)
}

/// Extension headers are skipped: a hop-by-hop, routing or destination options header, whose
/// second byte counts the eights that follow the first eight bytes, and an authentication header,
/// whose second byte counts fours less two, change neither the addresses nor the protocol nor the
/// ports. A fragment header changes nothing in the first fragment and takes the ports from every
/// later one.
pub proof fn extension_headers_are_skipped(packet: Seq<u8>, kind: u8, extension: Seq<u8>)
    requires
        packet.len() >= 40,
        packet[0] / 16 == 6,
        packet[6] != 0 && packet[6] != 43 && packet[6] != 44 && packet[6] != 51 && packet[6] != 60,
        extension.len() >= 2,
        extension[0] == packet[6],
        ({
            ||| (kind == 0 || kind == 43 || kind == 60) && extension.len() == 8 * (extension[1] + 1)
            ||| kind == 51 && extension.len() == 4 * (extension[1] + 2)
            ||| kind == 44 && extension.len() == 8
        }),
    ensures
        ({
            let plain = crate::packet::headers_of(packet, 101);
            let extended = crate::packet::headers_of(with_extension(packet, kind, extension), 101);
            let is_later_fragment = kind == 44 && (extension[2] != 0 || extension[3] >= 8);
            &&& !is_later_fragment ==> extended == plain
            &&& is_later_fragment ==> (extended matches Ok(Some(found)) && found.ports is None
                && found.protocol == packet[6] && (plain matches Ok(Some(whole)) ==> found.source
                == whole.source && found.destination == whole.destination))
        }),
{
    let head = packet.take(40).update(6, kind);
    let rest = packet.skip(40);
    let longer = with_extension(packet, kind, extension);
    let front = head + extension;
    let next = packet[6];
    let length = extension.len() as int;
    assert(longer =~= front + rest);
    assert(packet =~= packet.take(40) + rest);
    ports_behind(front, rest, 0, next);
    ports_behind(packet.take(40), rest, 0, next);
    assert forall|i: int| 0 <= i < 40 && i != 6 implies longer[i] == packet[i] by {}
    assert(longer[6] == kind);
    assert forall|i: int| 0 <= i < length implies longer[40 + i] == extension[i] by {}
    assert(crate::packet::be128(longer, 8) == crate::packet::be128(packet, 8)) by {
        same_bytes(longer, packet, 8);
    }
    assert(crate::packet::be128(longer, 24) == crate::packet::be128(packet, 24)) by {
        same_bytes(longer, packet, 24);
    }
    assert(longer[40] == next && longer[41] == extension[1]);
    let from = Transport { protocol: kind, offset: 40, first_fragment: true };
    let first = kind != 44 || crate::packet::be16(longer, 42) < 8;
    if kind == 44 {
        assert(crate::packet::be16(longer, 42) == extension[2] * 256 + extension[3]);
    }
    let end = Transport { protocol: next, offset: 40 + length, first_fragment: first };
    assert(crate::packet::past_extensions(longer, end, 7) == Ok::<Transport, PacketError>(end));
    assert(crate::packet::past_extensions(longer, from, 8) == Ok::<Transport, PacketError>(end));
    let start = Transport { protocol: next, offset: 40, first_fragment: true };
    assert(crate::packet::past_extensions(packet, start, 8) == Ok::<Transport, PacketError>(start));
}

proof fn same_bytes(a: Seq<u8>, b: Seq<u8>, at: int)
    requires
        forall|i: int| at <= i < at + 16 ==> a[i] == b[i],
    ensures
        crate::packet::be128(a, at) == crate::packet::be128(b, at),
{
}

/// The walk over extension headers goes header by header, at most as many as are allowed. Each
/// header's first byte is the kind of the next one. A header that is cut off is truncated.
pub proof fn extension_headers_are_walked_one_by_one(
    frame: Seq<u8>,
    kind: u8,
    at: int,
    first: bool,
    headers: nat,
)
    requires
        0 <= at,
    ensures
        ({
            let r = crate::packet::past_extensions(
                frame,
                Transport { protocol: kind, offset: at, first_fragment: first },
                headers,
            );
            let is_options = kind == 0 || kind == 43 || kind == 60;
            let here = Transport { protocol: kind, offset: at, first_fragment: first };
            let is_known = is_options || kind == 44 || kind == 51;
            let room = frame.len() - at;
            let length = if is_options {
                8 * (frame[at + 1] + 1)
            } else if kind == 51 {
                4 * (frame[at + 1] + 2)
            } else {
                8
            };
            let layer = if is_options {
                "IPv6 extension"
            } else if kind == 51 {
                "IPv6 AH"
            } else {
                "IPv6 fragment"
            };
            if headers == 0 || !is_known {
                r == Ok::<Transport, PacketError>(here)
            } else if room < 2 || room < length {
                r == Err::<Transport, PacketError>(PacketError::Truncated(layer))
            } else {
                r == crate::packet::past_extensions(
                    frame,
                    Transport {
                        protocol: frame[at],
                        offset: at + length,
                        first_fragment: if kind == 44 {
                            frame[at + 2] == 0 && frame[at + 3] < 8
                        } else {
                            first
                        },
                    },
                    (headers - 1) as nat,
                )
            }
        }),
{
    assert(crate::packet::be16(frame, at + 2) == frame[at + 2] * 256 + frame[at + 3]);
}

/// An IPv6 packet is what stands at the end of the walk over at most eight extension headers from
/// byte 40 on: the protocol there, and its ports unless the packet is a later fragment.
pub proof fn an_ipv6_packet_says_the_end_of_its_walk(packet: Seq<u8>)
    requires
        packet.len() >= 40,
        packet[0] / 16 == 6,
    ensures
        ({
            let r = crate::packet::headers_of(packet, 101);
            let walk = crate::packet::past_extensions(
                packet,
                Transport { protocol: packet[6], offset: 40, first_fragment: true },
                8,
            );
            match walk {
                Err(error) => r == Err::<Option<IpPacket>, PacketError>(error),
                Ok(end) => {
                    let at = end.offset;
                    let has_ports = end.first_fragment && (end.protocol == 6 || end.protocol
                        == 17);
                    if has_ports && packet.len() < at + 4 {
                        r == Err::<Option<IpPacket>, PacketError>(
                            PacketError::Truncated("transport"),
                        )
                    } else {
                        &&& r is Ok && r->Ok_0 is Some
                        &&& r->Ok_0->Some_0.protocol == end.protocol
                        &&& !has_ports ==> r->Ok_0->Some_0.ports is None
                        &&& has_ports ==> (r->Ok_0->Some_0.ports matches Some(ports) && ports.0
                            == packet[at] * 256 + packet[at + 1] && ports.1 == packet[at + 2] * 256
                            + packet[at + 3])
                    }
                },
            }
        }),
{
}

/// A frame's packet has what the frame's headers say, field by field: the addresses, the name of
/// the protocol number, both ports or none, and the direction that the local addresses tell. The
/// time, the size and the capture point are those that were handed in.
pub proof fn a_packet_says_what_its_headers_say(
    frame: Seq<u8>,
    link_type: i32,
    timestamp: u64,
    wire_bytes: u64,
    capture_point: Seq<char>,
    local: Seq<IpAddr>,
)
    ensures
        ({
            let r = crate::packet::packet_of(
                frame,
                link_type,
                timestamp,
                wire_bytes,
                capture_point,
                local,
            );
            match crate::packet::headers_of(frame, link_type) {
                Err(error) => r == Err::<Option<PacketModel>, PacketError>(error),
                Ok(None) => r == Ok::<Option<PacketModel>, PacketError>(None),
                Ok(Some(found)) => {
                    let key = r->Ok_0->Some_0.key;
                    let from_here = exists|i: int| 0 <= i < local.len() && local[i] == found.source;
                    let to_here = exists|i: int|
                        0 <= i < local.len() && local[i] == found.destination;
                    &&& r is Ok && r->Ok_0 is Some
                    &&& r->Ok_0->Some_0.timestamp == timestamp
                    &&& r->Ok_0->Some_0.wire_bytes == wire_bytes
                    &&& key.capture_point == capture_point
                    &&& key.source_ip == found.source
                    &&& key.destination_ip == found.destination
                    &&& found.ports is None ==> key.source_port is None && key.destination_port
                        is None
                    &&& found.ports matches Some(ports) ==> key.source_port == Some(ports.0)
                        && key.destination_port == Some(ports.1)
                    &&& found.protocol == 6 ==> key.protocol == TransportProtocol::Tcp
                    &&& found.protocol == 17 ==> key.protocol == TransportProtocol::Udp
                    &&& found.protocol == 1 || found.protocol == 58 ==> key.protocol
                        == TransportProtocol::Icmp
                    &&& found.protocol != 6 && found.protocol != 17 && found.protocol != 1
                        && found.protocol != 58 ==> key.protocol == TransportProtocol::Other(
                        found.protocol,
                    )
                    &&& from_here && to_here ==> key.direction == Direction::Internal
                    &&& from_here && !to_here ==> key.direction == Direction::Egress
                    &&& !from_here && to_here ==> key.direction == Direction::Ingress
                    &&& !from_here && !to_here ==> key.direction == Direction::Unknown
                },
            }
        }),
{
}

/// Headers lie relative to where they start: what stands in front of a network header, however
/// long it is, changes nothing of what the header says, and so it is with ports.
pub proof fn headers_lie_relative_to_their_start(frame: Seq<u8>, offset: int, protocol: u8)
    requires
        0 <= offset <= frame.len(),
    ensures
        crate::packet::ipv4_at(frame, offset) == crate::packet::ipv4_at(frame.skip(offset), 0),
        crate::packet::ipv6_at(frame, offset) == crate::packet::ipv6_at(frame.skip(offset), 0),
        crate::packet::ports_at(frame, offset, protocol) == crate::packet::ports_at(
            frame.skip(offset),
            0,
            protocol,
        ),
{
    let front = frame.take(offset);
    let rest = frame.skip(offset);
    assert(frame =~= front + rest);
    ipv4_behind(front, rest);
    ipv6_behind(front, rest);
    ports_behind(front, rest, 0, protocol);
}

/// TCP and UDP have two ports, two bytes each and the high byte first, source before destination;
/// no other protocol has ports.
pub proof fn ports_are_four_bytes(frame: Seq<u8>, protocol: u8)
    ensures
        ({
            let r = crate::packet::ports_at(frame, 0, protocol);
            &&& protocol != 6 && protocol != 17 ==> r == Ok::<Option<(u16, u16)>, PacketError>(None)
            &&& (protocol == 6 || protocol == 17) && frame.len() < 4 ==> r == Err::<
                Option<(u16, u16)>,
                PacketError,
            >(PacketError::Truncated("transport"))
            &&& (protocol == 6 || protocol == 17) && frame.len() >= 4 ==> (r matches Ok(Some(ports))
                && ports.0 == frame[0] * 256 + frame[1] && ports.1 == frame[2] * 256 + frame[3])
        }),
{
}

} // verus!
