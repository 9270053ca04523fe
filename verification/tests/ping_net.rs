use ping_template::net::Ipv4Addr;
use ping_template::ping_net::PingNet;

fn ipv4_header(total_len: u16, protocol: u8, src: [u8; 4], dst: [u8; 4]) -> Vec<u8> {
    let mut h = vec![0x45, 0, (total_len >> 8) as u8, total_len as u8, 0, 0, 0, 0, 64, protocol, 0, 0];
    h.extend_from_slice(&src);
    h.extend_from_slice(&dst);
    h
}

#[test]
fn request_packet_carries_fields_and_checksum() {
    let p = PingNet::create_icmp_request_packet(1, 1);
    assert_eq!(p, vec![8, 0, 0xf7, 0xfd, 0, 1, 0, 1]);
    let p = PingNet::create_icmp_request_packet(0x1234, 0xabcd);
    // 0x0800 + 0xabcd + 0x1234 = 0xc601, complemented 0x39fe.
    assert_eq!(p, vec![8, 0, 0x39, 0xfe, 0xab, 0xcd, 0x12, 0x34]);
    assert_eq!(PingNet::echo_request_packet(2, 3, 0xbeef), vec![8, 0, 0xbe, 0xef, 0, 3, 0, 2]);
}

#[test]
fn loopback_request_is_read_back() {
    let localhost = [127, 0, 0, 1];
    let mut received = ipv4_header(28, 1, localhost, localhost);
    received.extend(PingNet::create_icmp_request_packet(1, 1));
    assert_eq!(PingNet::parse_ping_respond(&received), Some((Ipv4Addr::new(127, 0, 0, 1), 1)));
}

#[test]
fn echo_reply_is_read_from_any_source() {
    let mut received = ipv4_header(28, 1, [1, 1, 1, 1], [10, 0, 0, 2]);
    received.extend([0, 0, 0x12, 0x34, 0xab, 0xcd, 0x00, 0x09]);
    assert_eq!(PingNet::parse_ping_respond(&received), Some((Ipv4Addr::new(1, 1, 1, 1), 9)));
}

#[test]
fn other_packets_are_not_echoes() {
    let localhost = [127, 0, 0, 1];
    let reply = [0u8, 0, 0, 0, 0, 1, 0, 5];
    // Too short.
    let mut short = ipv4_header(28, 1, [1, 1, 1, 1], localhost);
    short.extend(&reply[..7]);
    assert_eq!(PingNet::parse_ping_respond(&short), None);
    // Not ICMP.
    let mut udp = ipv4_header(28, 17, [1, 1, 1, 1], localhost);
    udp.extend(reply);
    assert_eq!(PingNet::parse_ping_respond(&udp), None);
    // A request that did not come over loopback.
    let mut request = ipv4_header(28, 1, [1, 1, 1, 1], localhost);
    request.extend(PingNet::create_icmp_request_packet(5, 1));
    assert_eq!(PingNet::parse_ping_respond(&request), None);
    // Destination unreachable.
    let mut unreachable = ipv4_header(28, 1, [1, 1, 1, 1], localhost);
    unreachable.extend([3u8, 1, 0, 0, 0, 0, 0, 0]);
    assert_eq!(PingNet::parse_ping_respond(&unreachable), None);
    // A total length that leaves fewer than 8 payload bytes.
    let mut truncated = ipv4_header(27, 1, [1, 1, 1, 1], localhost);
    truncated.extend(reply);
    assert_eq!(PingNet::parse_ping_respond(&truncated), None);
    // A header with options pushes the payload past the bytes read.
    let mut with_options = ipv4_header(32, 1, [1, 1, 1, 1], localhost);
    with_options[0] = 0x46;
    with_options.extend(reply);
    assert_eq!(PingNet::parse_ping_respond(&with_options), None);
    // Only the first 28 bytes count.
    let mut longer = ipv4_header(60, 1, [1, 1, 1, 1], localhost);
    longer.extend(reply);
    longer.extend([0xff; 32]);
    assert_eq!(PingNet::parse_ping_respond(&longer), Some((Ipv4Addr::new(1, 1, 1, 1), 5)));
}

fn ones_complement_sum(p: &[u8]) -> u32 {
    let mut sum: u32 = p.chunks(2).map(|w| (w[0] as u32) << 8 | w[1] as u32).sum();
    while sum >> 16 != 0 {
        sum = (sum >> 16) + (sum & 0xffff);
    }
    sum
}

#[test]
fn request_checksum_is_valid() {
    for (seq, id) in [(0u16, 0u16), (1, 1), (9, 0xffff), (0xffff, 0xffff), (0x8000, 0x7800), (3, 0xf7ff)] {
        let p = PingNet::create_icmp_request_packet(seq, id);
        assert_eq!(ones_complement_sum(&p), 0xffff, "seq {} id {}", seq, id);
    }
}
