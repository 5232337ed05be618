use flow_observability::addr::IpAddr;
use flow_observability::model::{Direction, TransportProtocol};
use flow_observability::packet::{
    parse_packet, PacketError, LINKTYPE_ETHERNET, LINKTYPE_LINUX_SLL, LINKTYPE_LINUX_SLL2,
    LINKTYPE_RAW,
};

fn localhost() -> IpAddr {
    IpAddr::v6(0, 0, 0, 0, 0, 0, 0, 1)
}

fn ethernet_ipv4() -> Vec<u8> {
    let mut frame = vec![0_u8; 14 + 20 + 20];
    frame[12..14].copy_from_slice(&0x0800_u16.to_be_bytes());
    frame[14] = 0x45;
    frame[14 + 9] = 6;
    frame[14 + 12..14 + 16].copy_from_slice(&[10, 0, 0, 2]);
    frame[14 + 16..14 + 20].copy_from_slice(&[1, 1, 1, 1]);
    frame[34..36].copy_from_slice(&12345_u16.to_be_bytes());
    frame[36..38].copy_from_slice(&443_u16.to_be_bytes());
    frame
}

fn raw_ipv6(next_header: u8, rest: &[u8]) -> Vec<u8> {
    let mut frame = vec![0_u8; 40];
    frame[0] = 0x60;
    frame[6] = next_header;
    frame[23] = 1;
    frame[24] = 0x26;
    frame.extend_from_slice(rest);
    frame
}

fn error_of(frame: &[u8], link_type: i32) -> PacketError {
    match parse_packet(frame, link_type, 1, 1, "p", &[]) {
        Err(error) => error,
        Ok(_) => panic!("the frame is readable"),
    }
}

fn ports_of(frame: &[u8], link_type: i32) -> (Option<u16>, Option<u16>) {
    let parsed = parse_packet(frame, link_type, 1, 1, "p", &[]).unwrap().unwrap();
    (parsed.key.source_port, parsed.key.destination_port)
}

#[test]
fn parses_ethernet_ipv4_tcp_and_direction() {
    let frame = ethernet_ipv4();

    let parsed = parse_packet(
        &frame,
        LINKTYPE_ETHERNET,
        100,
        60,
        "physical:eth0",
        &[IpAddr::v4(10, 0, 0, 2)],
    )
    .unwrap()
    .unwrap();

    assert_eq!(parsed.key.direction, Direction::Egress);
    assert_eq!(parsed.key.protocol, TransportProtocol::Tcp);
    assert_eq!(parsed.key.source_port, Some(12345));
    assert_eq!(parsed.key.destination_port, Some(443));
    assert_eq!(parsed.key.source_ip, IpAddr::v4(10, 0, 0, 2));
    assert_eq!(parsed.key.destination_ip, IpAddr::v4(1, 1, 1, 1));
    assert_eq!(parsed.key.capture_point, "physical:eth0");
    assert_eq!((parsed.timestamp, parsed.wire_bytes), (100, 60));
}

#[test]
fn parses_raw_ipv6_udp() {
    let mut frame = vec![0_u8; 40 + 8];
    frame[0] = 0x60;
    frame[6] = 17;
    frame[23] = 1;
    for (place, segment) in [0x2606_u16, 0x4700, 0x4700, 0, 0, 0, 0, 0x1111].iter().enumerate() {
        let at = 24 + 2 * place;
        frame[at..at + 2].copy_from_slice(&segment.to_be_bytes());
    }
    frame[40..42].copy_from_slice(&5353_u16.to_be_bytes());
    frame[42..44].copy_from_slice(&53_u16.to_be_bytes());

    let parsed = parse_packet(&frame, LINKTYPE_RAW, 100, 48, "tunnel:wg0", &[localhost()])
        .unwrap()
        .unwrap();

    assert_eq!(parsed.key.direction, Direction::Egress);
    assert_eq!(parsed.key.protocol, TransportProtocol::Udp);
    assert_eq!(parsed.key.destination_port, Some(53));
    assert_eq!(
        parsed.key.destination_ip,
        IpAddr::v6(0x2606, 0x4700, 0x4700, 0, 0, 0, 0, 0x1111)
    );
}

#[test]
fn ignores_non_ip_ethernet_frames() {
    let mut frame = vec![0_u8; 42];
    frame[12..14].copy_from_slice(&0x0806_u16.to_be_bytes());
    assert_eq!(
        parse_packet(&frame, LINKTYPE_ETHERNET, 1, 42, "eth0", &[]).unwrap(),
        None
    );
}

#[test]
fn up_to_two_vlan_tags_are_skipped() {
    let plain = ethernet_ipv4();
    let mut tagged = plain[..12].to_vec();
    tagged.extend_from_slice(&[0x88, 0xa8, 0, 1, 0x81, 0x00, 0, 2]);
    tagged.extend_from_slice(&plain[12..]);
    assert_eq!(ports_of(&tagged, LINKTYPE_ETHERNET), (Some(12345), Some(443)));

    let mut thrice = plain[..12].to_vec();
    thrice.extend_from_slice(&[0x81, 0x00, 0, 1, 0x81, 0x00, 0, 2, 0x81, 0x00, 0, 3]);
    thrice.extend_from_slice(&plain[12..]);
    assert!(parse_packet(&thrice, LINKTYPE_ETHERNET, 1, 1, "p", &[]).unwrap().is_none());

    assert_eq!(error_of(&tagged[..17], LINKTYPE_ETHERNET), PacketError::Truncated("vlan"));
}

#[test]
fn cooked_frames_carry_their_protocol() {
    let packet = ethernet_ipv4()[14..].to_vec();
    let mut cooked = vec![0_u8; 14];
    cooked.extend_from_slice(&[0x08, 0x00]);
    cooked.extend_from_slice(&packet);
    assert_eq!(ports_of(&cooked, LINKTYPE_LINUX_SLL), (Some(12345), Some(443)));

    let mut second = vec![0x08, 0x00];
    second.extend_from_slice(&[0_u8; 18]);
    second.extend_from_slice(&packet);
    assert_eq!(ports_of(&second, LINKTYPE_LINUX_SLL2), (Some(12345), Some(443)));

    assert_eq!(error_of(&cooked[..15], LINKTYPE_LINUX_SLL), PacketError::Truncated("linux cooked"));
    assert_eq!(
        error_of(&second[..19], LINKTYPE_LINUX_SLL2),
        PacketError::Truncated("linux cooked v2")
    );
}

#[test]
fn unreadable_frames_tell_why() {
    let frame = ethernet_ipv4();
    assert_eq!(error_of(&frame[..13], LINKTYPE_ETHERNET), PacketError::Truncated("ethernet"));
    assert_eq!(error_of(&frame[..33], LINKTYPE_ETHERNET), PacketError::Truncated("IPv4"));
    assert_eq!(error_of(&frame[..37], LINKTYPE_ETHERNET), PacketError::Truncated("transport"));
    let mut invalid = frame.clone();
    invalid[14] = 0x44;
    assert_eq!(error_of(&invalid, LINKTYPE_ETHERNET), PacketError::Invalid("IPv4"));
    assert_eq!(error_of(&[], LINKTYPE_RAW), PacketError::Truncated("raw IP"));
    assert_eq!(error_of(&[0x50], LINKTYPE_RAW), PacketError::Invalid("raw IP"));
    assert_eq!(error_of(&[0x60], LINKTYPE_RAW), PacketError::Truncated("IPv6"));
    let mut sixth = vec![0_u8; 14];
    sixth[12..14].copy_from_slice(&0x86dd_u16.to_be_bytes());
    sixth.extend_from_slice(&[0x40; 40]);
    assert_eq!(error_of(&sixth, LINKTYPE_ETHERNET), PacketError::Invalid("IPv6"));
    assert_eq!(error_of(&frame, 9), PacketError::UnsupportedLinkType(9));
    assert_eq!(
        error_of(&raw_ipv6(0, &[17]), LINKTYPE_RAW),
        PacketError::Truncated("IPv6 extension")
    );
    assert_eq!(
        error_of(&raw_ipv6(44, &[17, 0, 0]), LINKTYPE_RAW),
        PacketError::Truncated("IPv6 fragment")
    );
    assert_eq!(error_of(&raw_ipv6(51, &[17]), LINKTYPE_RAW), PacketError::Truncated("IPv6 AH"));
}

#[test]
fn errors_have_words() {
    assert_eq!(PacketError::Truncated("IPv4").message(), "truncated IPv4 header");
    assert_eq!(PacketError::Invalid("IPv6").message(), "invalid IPv6 header");
    assert_eq!(PacketError::UnsupportedLinkType(-3).message(), "unsupported pcap link type -3");
}

#[test]
fn extension_headers_are_walked() {
    let mut rest = vec![60, 0, 0, 0, 0, 0, 0, 0];
    rest.extend_from_slice(&[51, 0, 0, 0, 0, 0, 0, 0]);
    rest.extend_from_slice(&[6, 0, 0, 0, 0, 0, 0, 0]);
    rest.extend_from_slice(&[0x30, 0x39, 0x01, 0xbb]);
    let frame = raw_ipv6(0, &rest);
    assert_eq!(ports_of(&frame, LINKTYPE_RAW), (Some(12345), Some(443)));
}

#[test]
fn only_first_fragments_have_ports() {
    let mut frame = ethernet_ipv4();
    frame[14 + 6] = 0x20;
    assert_eq!(ports_of(&frame, LINKTYPE_ETHERNET), (Some(12345), Some(443)));
    frame[14 + 7] = 1;
    assert_eq!(ports_of(&frame, LINKTYPE_ETHERNET), (None, None));

    let later = [6, 0, 0, 8, 0, 0, 0, 0, 0x30, 0x39, 0x01, 0xbb];
    assert_eq!(ports_of(&raw_ipv6(44, &later), LINKTYPE_RAW), (None, None));
    let first = [6, 0, 0, 1, 0, 0, 0, 0, 0x30, 0x39, 0x01, 0xbb];
    assert_eq!(ports_of(&raw_ipv6(44, &first), LINKTYPE_RAW), (Some(12345), Some(443)));
}

#[test]
fn other_protocols_have_no_ports() {
    let mut frame = ethernet_ipv4();
    frame[14 + 9] = 1;
    let parsed = parse_packet(&frame, LINKTYPE_ETHERNET, 1, 1, "p", &[]).unwrap().unwrap();
    assert_eq!(parsed.key.protocol, TransportProtocol::Icmp);
    assert_eq!((parsed.key.source_port, parsed.key.destination_port), (None, None));
    frame[14 + 9] = 47;
    let parsed = parse_packet(&frame, LINKTYPE_ETHERNET, 1, 1, "p", &[]).unwrap().unwrap();
    assert_eq!(parsed.key.protocol, TransportProtocol::Other(47));
    assert_eq!(TransportProtocol::from(58), TransportProtocol::Icmp);
    assert_eq!(TransportProtocol::from(17), TransportProtocol::Udp);
}

#[test]
fn answers_reverse_the_direction() {
    let (a, b) = (IpAddr::v4(10, 0, 0, 2), IpAddr::v4(1, 1, 1, 1));
    let there = ethernet_ipv4();
    let mut back = there.clone();
    back[14 + 12..14 + 16].copy_from_slice(&[1, 1, 1, 1]);
    back[14 + 16..14 + 20].copy_from_slice(&[10, 0, 0, 2]);
    let direction = |frame: &[u8], local: &[IpAddr]| {
        parse_packet(frame, LINKTYPE_ETHERNET, 1, 1, "p", local)
            .unwrap()
            .unwrap()
            .key
            .direction
    };
    assert_eq!(direction(&there, &[a]), Direction::Egress);
    assert_eq!(direction(&back, &[a]), Direction::Ingress);
    assert_eq!(direction(&there, &[a, b]), Direction::Internal);
    assert_eq!(direction(&there, &[]), Direction::Unknown);
}

#[test]
fn bytes_behind_the_headers_change_nothing() {
    let frame = ethernet_ipv4();
    let mut longer = frame.clone();
    longer.extend_from_slice(&[0xff; 200]);
    let short = parse_packet(&frame[..38], LINKTYPE_ETHERNET, 1, 1, "p", &[]).unwrap().unwrap();
    let long = parse_packet(&longer, LINKTYPE_ETHERNET, 1, 1, "p", &[]).unwrap().unwrap();
    assert_eq!(short.key.source_port, long.key.source_port);
    assert_eq!(short.key.destination_ip, long.key.destination_ip);
    assert_eq!(error_of(&[0x50], LINKTYPE_RAW), error_of(&[0x50, 1, 2, 3], LINKTYPE_RAW));
    let mut invalid = frame;
    invalid[14] = 0x44;
    let cut = error_of(&invalid[..34], LINKTYPE_ETHERNET);
    assert_eq!(cut, error_of(&invalid, LINKTYPE_ETHERNET));
    assert_eq!(cut, PacketError::Invalid("IPv4"));
}
