//! Link, network and transport headers of a captured frame.

use vstd::prelude::*;

use crate::addr::IpAddr;
use crate::model::{Direction, FlowKey, FlowKeyModel, TransportProtocol};
use crate::text::signed_text;

verus! {

pub const LINKTYPE_ETHERNET: i32 = 1;

pub const LINKTYPE_RAW: i32 = 101;

pub const LINKTYPE_LINUX_SLL: i32 = 113;

pub const LINKTYPE_LINUX_SLL2: i32 = 276;

/// A packet reduced to what flow accounting needs.
#[derive(Debug, PartialEq, Eq)]
pub struct PacketMeta {
    pub timestamp: u64,
    pub wire_bytes: u64,
    pub key: FlowKey,
}

/// The value of a [`PacketMeta`].
pub struct PacketModel {
    pub timestamp: u64,
    pub wire_bytes: u64,
    pub key: FlowKeyModel,
}

impl View for PacketMeta {
    type V = PacketModel;

    open spec fn view(&self) -> PacketModel {
        PacketModel { timestamp: self.timestamp, wire_bytes: self.wire_bytes, key: self.key@ }
    }
}

impl Clone for PacketMeta {
    fn clone(&self) -> (r: Self)
        ensures
            r == *self,
    {
        PacketMeta {
            timestamp: self.timestamp,
            wire_bytes: self.wire_bytes,
            key: self.key.clone(),
        }
    }
}

/// Why a frame has no flow.
#[derive(Debug, Clone, Copy, PartialEq, Eq)]
pub enum PacketError {
    UnsupportedLinkType(i32),
    Truncated(&'static str),
    Invalid(&'static str),
}

impl PacketError {
    /// The words for the error.
    pub open spec fn words(self) -> Seq<char> {
        match self {
            PacketError::UnsupportedLinkType(link_type) => "unsupported pcap link type "@
                + crate::text::signed_decimal(link_type as int),
            PacketError::Truncated(layer) => "truncated "@ + layer@ + " header"@,
            PacketError::Invalid(layer) => "invalid "@ + layer@ + " header"@,
        }
    }

    /// The error in words.
    pub fn message(&self) -> (r: String)
        ensures
            r@ == self.words(),
    {
        match self {
            PacketError::UnsupportedLinkType(link_type) => {
                let mut r = "unsupported pcap link type ".to_owned();
                r.append(signed_text(*link_type as i64).as_str());
                r
            },
            PacketError::Truncated(layer) => {
                let mut r = "truncated ".to_owned();
                r.append(layer);
                r.append(" header");
                r
            },
            PacketError::Invalid(layer) => {
                let mut r = "invalid ".to_owned();
                r.append(layer);
                r.append(" header");
                r
            },
        }
    }
}

/// What the network and transport headers say.
#[derive(Debug, Clone, Copy, PartialEq, Eq)]
pub struct IpPacket {
    pub source: IpAddr,
    pub destination: IpAddr,
    pub protocol: u8,
    pub ports: Option<(u16, u16)>,
}

/// The two bytes at `at`, high byte first.
pub open spec fn be16(frame: Seq<u8>, at: int) -> int {
    frame[at] * 256 + frame[at + 1]
}

/// The four bytes at `at`, high byte first.
pub open spec fn be32(frame: Seq<u8>, at: int) -> int {
    be16(frame, at) * 65536 + be16(frame, at + 2)
}

/// The eight bytes at `at`, high byte first.
pub open spec fn be64(frame: Seq<u8>, at: int) -> int {
    be32(frame, at) * 0x1_0000_0000 + be32(frame, at + 4)
}

/// The sixteen bytes at `at`, high byte first.
pub open spec fn be128(frame: Seq<u8>, at: int) -> int {
    be64(frame, at) * 0x1_0000_0000_0000_0000 + be64(frame, at + 8)
}

/// Where the network header starts and which protocol it is, once at most `tags` VLAN tags
/// from `offset` on are skipped.
pub open spec fn past_tags(frame: Seq<u8>, offset: int, ether_type: int, tags: nat) -> Result<
    (int, int),
    PacketError,
>
    decreases tags,
{
    if tags == 0 || (ether_type != 0x8100 && ether_type != 0x88a8) {
        Ok((offset, ether_type))
    } else if frame.len() < offset + 4 {
        Err(PacketError::Truncated("vlan"))
    } else {
        past_tags(frame, offset + 4, be16(frame, offset + 2), (tags - 1) as nat)
    }
}

/// Where the network header starts and which protocol it is.
pub open spec fn network_header(frame: Seq<u8>, link_type: i32) -> Result<(int, int), PacketError> {
    if link_type == LINKTYPE_ETHERNET {
        if frame.len() < 14 {
            Err(PacketError::Truncated("ethernet"))
        } else {
            past_tags(frame, 14, be16(frame, 12), 2)
        }
    } else if link_type == LINKTYPE_RAW {
        if frame.len() < 1 {
            Err(PacketError::Truncated("raw IP"))
        } else if frame[0] / 16 == 4 {
            Ok((0, 0x0800))
        } else if frame[0] / 16 == 6 {
            Ok((0, 0x86dd))
        } else {
            Err(PacketError::Invalid("raw IP"))
        }
    } else if link_type == LINKTYPE_LINUX_SLL {
        if frame.len() < 16 {
            Err(PacketError::Truncated("linux cooked"))
        } else {
            Ok((16, be16(frame, 14)))
        }
    } else if link_type == LINKTYPE_LINUX_SLL2 {
        if frame.len() < 20 {
            Err(PacketError::Truncated("linux cooked v2"))
        } else {
            Ok((20, be16(frame, 0)))
        }
    } else {
        Err(PacketError::UnsupportedLinkType(link_type))
    }
}

/// The source and destination port of a transport header at `at`, if the protocol has ports.
pub open spec fn ports_at(frame: Seq<u8>, at: int, protocol: u8) -> Result<
    Option<(u16, u16)>,
    PacketError,
> {
    let transport = crate::model::protocol_of(protocol);
    if transport != TransportProtocol::Tcp && transport != TransportProtocol::Udp {
        Ok(None)
    } else if frame.len() < at + 4 {
        Err(PacketError::Truncated("transport"))
    } else {
        Ok(Some((be16(frame, at) as u16, be16(frame, at + 2) as u16)))
    }
}

/// What an IPv4 packet at `offset` says. Only the first fragment of a packet has ports.
pub open spec fn ipv4_at(frame: Seq<u8>, offset: int) -> Result<IpPacket, PacketError> {
    if frame.len() < offset + 20 {
        Err(PacketError::Truncated("IPv4"))
    } else {
        let header_len = frame[offset] as int % 16 * 4;
        if frame[offset] / 16 != 4 || header_len < 20 {
            Err(PacketError::Invalid("IPv4"))
        } else if frame.len() < offset + header_len {
            Err(PacketError::Truncated("IPv4"))
        } else {
            let ports = if be16(frame, offset + 6) % 8192 == 0 {
                ports_at(frame, offset + header_len, frame[offset + 9])
            } else {
                Ok(None)
            };
            match ports {
                Err(error) => Err(error),
                Ok(ports) => Ok(
                    IpPacket {
                        source: IpAddr::V4(be32(frame, offset + 12) as u32),
                        destination: IpAddr::V4(be32(frame, offset + 16) as u32),
                        protocol: frame[offset + 9],
                        ports,
                    },
                ),
            }
        }
    }
}

/// What a walk over IPv6 extension headers ends at.
pub struct Transport {
    pub protocol: u8,
    pub offset: int,
    pub first_fragment: bool,
}

/// The end of a walk over at most `headers` IPv6 extension headers.
pub open spec fn past_extensions(frame: Seq<u8>, from: Transport, headers: nat) -> Result<
    Transport,
    PacketError,
>
    decreases headers,
{
    let at = from.offset;
    if headers == 0 {
        Ok(from)
    } else if from.protocol == 0 || from.protocol == 43 || from.protocol == 60 {
        if frame.len() < at + 2 || frame.len() < at + (frame[at + 1] + 1) * 8 {
            Err(PacketError::Truncated("IPv6 extension"))
        } else {
            past_extensions(
                frame,
                Transport { protocol: frame[at], offset: at + (frame[at + 1] + 1) * 8, ..from },
                (headers - 1) as nat,
            )
        }
    } else if from.protocol == 44 {
        if frame.len() < at + 8 {
            Err(PacketError::Truncated("IPv6 fragment"))
        } else {
            past_extensions(
                frame,
                Transport {
                    protocol: frame[at],
                    offset: at + 8,
                    first_fragment: be16(frame, at + 2) < 8,
                },
                (headers - 1) as nat,
            )
        }
    } else if from.protocol == 51 {
        if frame.len() < at + 2 || frame.len() < at + (frame[at + 1] + 2) * 4 {
            Err(PacketError::Truncated("IPv6 AH"))
        } else {
            past_extensions(
                frame,
                Transport { protocol: frame[at], offset: at + (frame[at + 1] + 2) * 4, ..from },
                (headers - 1) as nat,
            )
        }
    } else {
        Ok(from)
    }
}

/// What an IPv6 packet at `offset` says. Up to eight extension headers are skipped, and only the
/// first fragment of a packet has ports.
pub open spec fn ipv6_at(frame: Seq<u8>, offset: int) -> Result<IpPacket, PacketError> {
    if frame.len() < offset + 40 {
        Err(PacketError::Truncated("IPv6"))
    } else if frame[offset] / 16 != 6 {
        Err(PacketError::Invalid("IPv6"))
    } else {
        let start = Transport {
            protocol: frame[offset + 6],
            offset: offset + 40,
            first_fragment: true,
        };
        match past_extensions(frame, start, 8) {
            Err(error) => Err(error),
            Ok(end) => {
                let ports = if end.first_fragment {
                    ports_at(frame, end.offset, end.protocol)
                } else {
                    Ok(None)
                };
                match ports {
                    Err(error) => Err(error),
                    Ok(ports) => Ok(
                        IpPacket {
                            source: IpAddr::V6(be128(frame, offset + 8) as u128),
                            destination: IpAddr::V6(be128(frame, offset + 24) as u128),
                            protocol: end.protocol,
                            ports,
                        },
                    ),
                }
            },
        }
    }
}

/// Where a packet went, given the local addresses.
pub open spec fn direction_of(source: IpAddr, destination: IpAddr, local: Seq<IpAddr>) -> Direction {
    if local.contains(source) && local.contains(destination) {
        Direction::Internal
    } else if local.contains(source) {
        Direction::Egress
    } else if local.contains(destination) {
        Direction::Ingress
    } else {
        Direction::Unknown
    }
}

/// What the headers of a frame say: nothing where it carries neither IPv4 nor IPv6.
pub open spec fn headers_of(frame: Seq<u8>, link_type: i32) -> Result<Option<IpPacket>, PacketError> {
    match network_header(frame, link_type) {
        Err(error) => Err(error),
        Ok((offset, ether_type)) => {
            let packet = if ether_type == 0x0800 {
                ipv4_at(frame, offset)
            } else {
                ipv6_at(frame, offset)
            };
            if ether_type != 0x0800 && ether_type != 0x86dd {
                Ok(None)
            } else {
                match packet {
                    Err(error) => Err(error),
                    Ok(packet) => Ok(Some(packet)),
                }
            }
        },
    }
}

/// The flow key of a packet.
pub open spec fn key_of(packet: IpPacket, capture_point: Seq<char>, local: Seq<IpAddr>) -> FlowKeyModel {
    FlowKeyModel {
        capture_point,
        direction: direction_of(packet.source, packet.destination, local),
        protocol: crate::model::protocol_of(packet.protocol),
        source_ip: packet.source,
        destination_ip: packet.destination,
        source_port: match packet.ports {
            None => None,
            Some(ports) => Some(ports.0),
        },
        destination_port: match packet.ports {
            None => None,
            Some(ports) => Some(ports.1),
        },
    }
}

/// The packet that a frame carries: nothing where it carries neither IPv4 nor IPv6.
pub open spec fn packet_of(
    frame: Seq<u8>,
    link_type: i32,
    timestamp: u64,
    wire_bytes: u64,
    capture_point: Seq<char>,
    local: Seq<IpAddr>,
) -> Result<Option<PacketModel>, PacketError> {
    match headers_of(frame, link_type) {
        Err(error) => Err(error),
        Ok(None) => Ok(None),
        Ok(Some(packet)) => Ok(
            Some(
                PacketModel { timestamp, wire_bytes, key: key_of(packet, capture_point, local) },
            ),
        ),
    }
}

/// The value of a parse.
pub open spec fn parse_model(parsed: Result<Option<PacketMeta>, PacketError>) -> Result<
    Option<PacketModel>,
    PacketError,
> {
    match parsed {
        Err(error) => Err(error),
        Ok(None) => Ok(None),
        Ok(Some(packet)) => Ok(Some(packet@)),
    }
}

/// Reduces a captured frame to the flow it belongs to.
pub fn parse_packet(
    frame: &[u8],
    link_type: i32,
    timestamp: u64,
    wire_bytes: u64,
    capture_point: &str,
    local_ips: &[IpAddr],
) -> (r: Result<Option<PacketMeta>, PacketError>)
    ensures
        parse_model(r) == packet_of(
            frame@,
            link_type,
            timestamp,
            wire_bytes,
            capture_point@,
            local_ips@,
        ),
{
    let (offset, ether_type) = match ip_offset(frame, link_type) {
        Ok(found) => found,
        Err(error) => {
            return Err(error);
        },
    };
    let parsed = if ether_type == 0x0800 {
        parse_ipv4(frame, offset)
    } else if ether_type == 0x86dd {
        parse_ipv6(frame, offset)
    } else {
        return Ok(None);
    };
    let packet = match parsed {
        Ok(packet) => packet,
        Err(error) => {
            return Err(error);
        },
    };
    let (source_port, destination_port) = match packet.ports {
        None => (None, None),
        Some((source, destination)) => (Some(source), Some(destination)),
    };
    Ok(
        Some(
            PacketMeta {
                timestamp,
                wire_bytes,
                key: FlowKey {
                    capture_point: capture_point.to_owned(),
                    direction: direction(packet.source, packet.destination, local_ips),
                    protocol: TransportProtocol::from(packet.protocol),
                    source_ip: packet.source,
                    destination_ip: packet.destination,
                    source_port,
                    destination_port,
                },
            },
        ),
    )
}

/// Where the network header starts, and its protocol number.
pub fn ip_offset(frame: &[u8], link_type: i32) -> (r: Result<(usize, u16), PacketError>)
    ensures
        match r {
            Ok((offset, ether_type)) => network_header(frame@, link_type) == Ok::<_, PacketError>(
                (offset as int, ether_type as int),
            ) && offset <= frame@.len(),
            Err(error) => network_header(frame@, link_type) == Err::<(int, int), _>(error),
        },
{
    if link_type == LINKTYPE_ETHERNET {
        require(frame, 0, 14, "ethernet")?;
        let mut offset: usize = 14;
        let mut ether_type: u16 = read16(frame, 12);
        let mut tags: usize = 2;
        while tags > 0 && (ether_type == 0x8100 || ether_type == 0x88a8)
            invariant
                link_type == LINKTYPE_ETHERNET,
                tags <= 2,
                14 <= offset <= frame@.len(),
                network_header(frame@, link_type) == past_tags(
                    frame@,
                    offset as int,
                    ether_type as int,
                    tags as nat,
                ),
            decreases tags,
        {
            require(frame, offset, 4, "vlan")?;
            ether_type = read16(frame, offset + 2);
            offset = offset + 4;
            tags = tags - 1;
        }
        Ok((offset, ether_type))
    } else if link_type == LINKTYPE_RAW {
        require(frame, 0, 1, "raw IP")?;
        let version: u8 = frame[0] / 16;
        if version == 4 {
            Ok((0, 0x0800))
        } else if version == 6 {
            Ok((0, 0x86dd))
        } else {
            Err(PacketError::Invalid("raw IP"))
        }
    } else if link_type == LINKTYPE_LINUX_SLL {
        require(frame, 0, 16, "linux cooked")?;
        Ok((16, read16(frame, 14)))
    } else if link_type == LINKTYPE_LINUX_SLL2 {
        require(frame, 0, 20, "linux cooked v2")?;
        Ok((20, read16(frame, 0)))
    } else {
        Err(PacketError::UnsupportedLinkType(link_type))
    }
}

/// Reads the IPv4 packet at `offset`.
pub fn parse_ipv4(frame: &[u8], offset: usize) -> (r: Result<IpPacket, PacketError>)
    ensures
        r == ipv4_at(frame@, offset as int),
{
    require(frame, offset, 20, "IPv4")?;
    if frame[offset] / 16 != 4 {
        return Err(PacketError::Invalid("IPv4"));
    }
    let header_len: usize = (frame[offset] % 16) as usize * 4;
    if header_len < 20 {
        return Err(PacketError::Invalid("IPv4"));
    }
    require(frame, offset, header_len, "IPv4")?;
    let protocol: u8 = frame[offset + 9];
    let source = IpAddr::V4(read32(frame, offset + 12));
    let destination = IpAddr::V4(read32(frame, offset + 16));
    let fragment: u16 = read16(frame, offset + 6);
    let ports = if fragment % 8192 == 0 {
        parse_ports(frame, offset + header_len, protocol)?
    } else {
        None
    };
    Ok(IpPacket { source, destination, protocol, ports })
}

/// Reads the IPv6 packet at `offset`.
pub fn parse_ipv6(frame: &[u8], offset: usize) -> (r: Result<IpPacket, PacketError>)
    ensures
        r == ipv6_at(frame@, offset as int),
{
    require(frame, offset, 40, "IPv6")?;
    if frame[offset] / 16 != 6 {
        return Err(PacketError::Invalid("IPv6"));
    }
    let source = IpAddr::V6(read128(frame, offset + 8));
    let destination = IpAddr::V6(read128(frame, offset + 24));
    let mut protocol: u8 = frame[offset + 6];
    let mut transport_offset: usize = offset + 40;
    let mut first_fragment = true;
    let mut headers: usize = 8;
    let ghost start = Transport {
        protocol,
        offset: transport_offset as int,
        first_fragment,
    };
    while headers > 0 && (protocol == 0 || protocol == 43 || protocol == 60 || protocol == 44
        || protocol == 51)
        invariant
            headers <= 8,
            offset + 40 <= frame@.len(),
            frame@[offset as int] / 16 == 6,
            start == (Transport {
                protocol: frame@[offset + 6],
                offset: offset + 40,
                first_fragment: true,
            }),
            transport_offset <= frame@.len(),
            past_extensions(frame@, start, 8) == past_extensions(
                frame@,
                Transport { protocol, offset: transport_offset as int, first_fragment },
                headers as nat,
            ),
        decreases headers,
    {
        if protocol == 44 {
            require(frame, transport_offset, 8, "IPv6 fragment")?;
            first_fragment = read16(frame, transport_offset + 2) < 8;
            protocol = frame[transport_offset];
            transport_offset = transport_offset + 8;
        } else if protocol == 51 {
            require(frame, transport_offset, 2, "IPv6 AH")?;
            let length: usize = (frame[transport_offset + 1] as usize + 2) * 4;
            require(frame, transport_offset, length, "IPv6 AH")?;
            protocol = frame[transport_offset];
            transport_offset = transport_offset + length;
        } else {
            require(frame, transport_offset, 2, "IPv6 extension")?;
            let length: usize = (frame[transport_offset + 1] as usize + 1) * 8;
            require(frame, transport_offset, length, "IPv6 extension")?;
            protocol = frame[transport_offset];
            transport_offset = transport_offset + length;
        }
        headers = headers - 1;
    }
    let ports = if first_fragment {
        parse_ports(frame, transport_offset, protocol)?
    } else {
        None
    };
    Ok(IpPacket { source, destination, protocol, ports })
}

/// Reads the ports of the transport header at `transport_offset`.
pub fn parse_ports(frame: &[u8], transport_offset: usize, protocol: u8) -> (r: Result<
    Option<(u16, u16)>,
    PacketError,
>)
    ensures
        r == ports_at(frame@, transport_offset as int, protocol),
{
    match TransportProtocol::from(protocol) {
        TransportProtocol::Tcp | TransportProtocol::Udp => {
            require(frame, transport_offset, 4, "transport")?;
            Ok(Some((read16(frame, transport_offset), read16(frame, transport_offset + 2))))
        },
        _ => Ok(None),
    }
}

/// Where a packet went, given the local addresses.
pub fn direction(source: IpAddr, destination: IpAddr, local_ips: &[IpAddr]) -> (r: Direction)
    ensures
        r == direction_of(source, destination, local_ips@),
{
    match (is_local(source, local_ips), is_local(destination, local_ips)) {
        (true, false) => Direction::Egress,
        (false, true) => Direction::Ingress,
        (true, true) => Direction::Internal,
        (false, false) => Direction::Unknown,
    }
}

fn is_local(ip: IpAddr, local_ips: &[IpAddr]) -> (r: bool)
    ensures
        r == local_ips@.contains(ip),
{
    let mut i: usize = 0;
    while i < local_ips.len()
        invariant
            i <= local_ips@.len(),
            forall|j: int| 0 <= j < i ==> local_ips@[j] != ip,
        decreases local_ips@.len() - i,
    {
        if local_ips[i] == ip {
            return true;
        }
        i = i + 1;
    }
    false
}

/// Checks that `length` bytes follow `offset`.
pub fn require(frame: &[u8], offset: usize, length: usize, layer: &'static str) -> (r: Result<
    (),
    PacketError,
>)
    ensures
        r == (if frame@.len() < offset + length {
            Err::<(), _>(PacketError::Truncated(layer))
        } else {
            Ok(())
        }),
        r is Ok ==> offset + length <= usize::MAX,
{
    if frame.len() < offset || frame.len() - offset < length {
        Err(PacketError::Truncated(layer))
    } else {
        Ok(())
    }
}

fn read16(frame: &[u8], at: usize) -> (r: u16)
    requires
        at + 2 <= frame@.len(),
    ensures
        r == be16(frame@, at as int),
{
    frame[at] as u16 * 256 + frame[at + 1] as u16
}

fn read32(frame: &[u8], at: usize) -> (r: u32)
    requires
        at + 4 <= frame@.len(),
    ensures
        r == be32(frame@, at as int),
{
    assert(frame@.len() == frame.len());
    read16(frame, at) as u32 * 65536 + read16(frame, at + 2) as u32
}

fn read64(frame: &[u8], at: usize) -> (r: u64)
    requires
        at + 8 <= frame@.len(),
    ensures
        r == be64(frame@, at as int),
{
    assert(frame@.len() == frame.len());
    read32(frame, at) as u64 * 0x1_0000_0000 + read32(frame, at + 4) as u64
}

fn read128(frame: &[u8], at: usize) -> (r: u128)
    requires
        at + 16 <= frame@.len(),
    ensures
        r == be128(frame@, at as int),
{
    assert(frame@.len() == frame.len());
    read64(frame, at) as u128 * 0x1_0000_0000_0000_0000 + read64(frame, at + 8) as u128
}

/// Bytes in front stay where they are when more bytes follow.
proof fn words_in_front(frame: Seq<u8>, more: Seq<u8>, at: int)
    requires
        0 <= at,
    ensures
        at + 2 <= frame.len() ==> be16(frame + more, at) == be16(frame, at),
        at + 4 <= frame.len() ==> be32(frame + more, at) == be32(frame, at),
        at + 8 <= frame.len() ==> be64(frame + more, at) == be64(frame, at),
        at + 16 <= frame.len() ==> be128(frame + more, at) == be128(frame, at),
{
}

/// Whether the headers end too early.
pub open spec fn is_truncated<T>(parsed: Result<T, PacketError>) -> bool {
    parsed is Err && parsed->Err_0 is Truncated
}

proof fn tags_in_front(frame: Seq<u8>, more: Seq<u8>, offset: int, ether_type: int, tags: nat)
    requires
        0 <= offset,
        !is_truncated(past_tags(frame, offset, ether_type, tags)),
    ensures
        past_tags(frame, offset, ether_type, tags) is Ok,
        past_tags(frame + more, offset, ether_type, tags) == past_tags(
            frame,
            offset,
            ether_type,
            tags,
        ),
        past_tags(frame, offset, ether_type, tags)->Ok_0.0 >= offset,
    decreases tags,
{
    if tags > 0 && (ether_type == 0x8100 || ether_type == 0x88a8) {
        words_in_front(frame, more, offset + 2);
        tags_in_front(frame, more, offset + 4, be16(frame, offset + 2), (tags - 1) as nat);
    }
}

proof fn extensions_in_front(frame: Seq<u8>, more: Seq<u8>, from: Transport, headers: nat)
    requires
        0 <= from.offset,
        !is_truncated(past_extensions(frame, from, headers)),
    ensures
        past_extensions(frame, from, headers) is Ok,
        past_extensions(frame + more, from, headers) == past_extensions(frame, from, headers),
        past_extensions(frame, from, headers)->Ok_0.offset >= from.offset,
    decreases headers,
{
    let at = from.offset;
    if headers == 0 {
    } else if from.protocol == 0 || from.protocol == 43 || from.protocol == 60 {
        extensions_in_front(
            frame,
            more,
            Transport { protocol: frame[at], offset: at + (frame[at + 1] + 1) * 8, ..from },
            (headers - 1) as nat,
        );
    } else if from.protocol == 44 {
        words_in_front(frame, more, at + 2);
        extensions_in_front(
            frame,
            more,
            Transport {
                protocol: frame[at],
                offset: at + 8,
                first_fragment: be16(frame, at + 2) < 8,
            },
            (headers - 1) as nat,
        );
    } else if from.protocol == 51 {
        extensions_in_front(
            frame,
            more,
            Transport { protocol: frame[at], offset: at + (frame[at + 1] + 2) * 4, ..from },
            (headers - 1) as nat,
        );
    }
}

proof fn ports_in_front(frame: Seq<u8>, more: Seq<u8>, at: int, protocol: u8)
    requires
        0 <= at,
        !is_truncated(ports_at(frame, at, protocol)),
    ensures
        ports_at(frame, at, protocol) is Ok,
        ports_at(frame + more, at, protocol) == ports_at(frame, at, protocol),
{
    words_in_front(frame, more, at);
    words_in_front(frame, more, at + 2);
}

proof fn ipv4_in_front(frame: Seq<u8>, more: Seq<u8>, offset: int)
    requires
        0 <= offset,
        !is_truncated(ipv4_at(frame, offset)),
    ensures
        ipv4_at(frame + more, offset) == ipv4_at(frame, offset),
{
    let header_len = frame[offset] as int % 16 * 4;
    words_in_front(frame, more, offset + 6);
    words_in_front(frame, more, offset + 12);
    words_in_front(frame, more, offset + 16);
    if ipv4_at(frame, offset) != Err::<IpPacket, PacketError>(PacketError::Invalid("IPv4"))
        && be16(frame, offset + 6) % 8192 == 0 {
        ports_in_front(frame, more, offset + header_len, frame[offset + 9]);
    }
}

proof fn ipv6_in_front(frame: Seq<u8>, more: Seq<u8>, offset: int)
    requires
        0 <= offset,
        !is_truncated(ipv6_at(frame, offset)),
    ensures
        ipv6_at(frame + more, offset) == ipv6_at(frame, offset),
{
    let start = Transport {
        protocol: frame[offset + 6],
        offset: offset + 40,
        first_fragment: true,
    };
    words_in_front(frame, more, offset + 8);
    words_in_front(frame, more, offset + 24);
    if frame[offset] / 16 == 6 {
        extensions_in_front(frame, more, start, 8);
        let end = past_extensions(frame, start, 8)->Ok_0;
        if end.first_fragment {
            ports_in_front(frame, more, end.offset, end.protocol);
        }
    }
}

/// The payload does not matter: unless a frame ends within its headers, more bytes behind it
/// change nothing, neither the packet nor the reason why there is none.
pub proof fn the_payload_does_not_matter(
    frame: Seq<u8>,
    more: Seq<u8>,
    link_type: i32,
    timestamp: u64,
    wire_bytes: u64,
    capture_point: Seq<char>,
    local: Seq<IpAddr>,
)
    requires
        !is_truncated(packet_of(frame, link_type, timestamp, wire_bytes, capture_point, local)),
    ensures
        packet_of(frame + more, link_type, timestamp, wire_bytes, capture_point, local)
            == packet_of(frame, link_type, timestamp, wire_bytes, capture_point, local),
{
    words_in_front(frame, more, 0);
    words_in_front(frame, more, 12);
    words_in_front(frame, more, 14);
    if link_type == LINKTYPE_ETHERNET {
        tags_in_front(frame, more, 14, be16(frame, 12), 2);
    }
    assert(network_header(frame + more, link_type) == network_header(frame, link_type));
    if network_header(frame, link_type) is Ok {
        let (offset, ether_type) = network_header(frame, link_type)->Ok_0;
        assert(offset >= 0);
        if ether_type == 0x0800 {
            ipv4_in_front(frame, more, offset);
        } else if ether_type == 0x86dd {
            ipv6_in_front(frame, more, offset);
        }
    }
}

/// The other way round.
pub open spec fn reversed(direction: Direction) -> Direction {
    match direction {
        Direction::Ingress => Direction::Egress,
        Direction::Egress => Direction::Ingress,
        Direction::Internal => Direction::Internal,
        Direction::Unknown => Direction::Unknown,
    }
}

/// An answer goes the other way than what it answers.
pub proof fn answers_go_the_other_way(a: IpAddr, b: IpAddr, local: Seq<IpAddr>)
    ensures
        direction_of(b, a, local) == reversed(direction_of(a, b, local)),
{
}

} // verus!
