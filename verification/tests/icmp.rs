use netutils::icmp::{build_icmp_echo_request, icmp_checksum, parse_icmp_response};

#[test]
fn test_build_icmp_echo_request() {
    let packet = build_icmp_echo_request(0x1234, 0x0001);
    assert_eq!(packet[0], 8); // Type
    assert_eq!(packet[4], 0x12); // Ident high
    assert_eq!(packet[5], 0x34); // Ident low
    assert_eq!(packet[6], 0x00); // Seq high
    assert_eq!(packet[7], 0x01); // Seq low
}

#[test]
fn test_icmp_checksum() {
    // The checksum makes the one's-complement sum of all 16-bit words 0xFFFF.
    let packet = build_icmp_echo_request(0x1234, 0x0001);
    let mut sum: u32 = 0;
    let mut i = 0;
    while i + 1 < packet.len() {
        sum += ((packet[i] as u32) << 8) | (packet[i + 1] as u32);
        i += 2;
    }
    if i < packet.len() {
        sum += (packet[i] as u32) << 8;
    }
    while (sum >> 16) != 0 {
        sum = (sum & 0xFFFF) + (sum >> 16);
    }
    assert_eq!(sum, 0xFFFF);
}

#[test]
fn echo_request_layout() {
    let packet = build_icmp_echo_request(0xBEEF, 0x0203);
    assert_eq!(packet.len(), 40);
    assert_eq!(packet[1], 0);
    assert_eq!(&packet[4..8], &[0xBE, 0xEF, 0x02, 0x03]);
    for i in 0..32 {
        assert_eq!(packet[8 + i], i as u8);
    }
}

#[test]
fn echo_request_checksum_value() {
    let packet = build_icmp_echo_request(0x1234, 0x0001);
    assert_eq!(packet[2], 0xF4);
    assert_eq!(packet[3], 0xC9);
    let zero = build_icmp_echo_request(0, 0);
    assert_eq!((zero[2], zero[3]), (0x06, 0xFF));
}

#[test]
fn checksum_of_verified_packet_is_zero() {
    for (ident, seq) in [(0u16, 0u16), (0x1234, 1), (0xFFFF, 0xFFFF), (7, 300)] {
        let packet = build_icmp_echo_request(ident, seq);
        assert_eq!(icmp_checksum(&packet), 0);
    }
}

#[test]
fn checksum_small_inputs() {
    assert_eq!(icmp_checksum(&[]), 0xFFFF);
    assert_eq!(icmp_checksum(&[0x01]), 0xFEFF);
    assert_eq!(icmp_checksum(&[0x00, 0x01, 0xF2, 0x03]), 0x0DFB);
    // A carry out of bit 16 is folded back in.
    assert_eq!(icmp_checksum(&[0xFF, 0xFF, 0x00, 0x02]), 0xFFFD);
}

fn ip_header(protocol_payload: &[u8]) -> Vec<u8> {
    let mut v = vec![0x45, 0, 0, 0, 0, 0, 0, 0, 64, 1, 0, 0, 10, 0, 0, 1, 10, 0, 0, 2];
    v.extend_from_slice(protocol_payload);
    v
}

#[test]
fn echo_reply_is_recognised() {
    let mut reply = build_icmp_echo_request(0x1234, 7);
    reply[0] = 0;
    let datagram = ip_header(&reply);
    assert_eq!(parse_icmp_response(&datagram, 0x1234, 7), Some(()));
    assert_eq!(parse_icmp_response(&datagram, 0x1235, 7), None);
    assert_eq!(parse_icmp_response(&datagram, 0x1234, 8), None);
}

#[test]
fn time_exceeded_quoting_our_request_is_recognised() {
    let request = build_icmp_echo_request(0x4242, 31);
    let mut msg = vec![11, 0, 0, 0, 0, 0, 0, 0];
    msg.extend_from_slice(&ip_header(&request[..8]));
    let datagram = ip_header(&msg);
    assert_eq!(parse_icmp_response(&datagram, 0x4242, 31), Some(()));
    assert_eq!(parse_icmp_response(&datagram, 0x4242, 32), None);
}

#[test]
fn time_exceeded_quoting_another_type_is_rejected() {
    let mut other = build_icmp_echo_request(0x4242, 31);
    other[0] = 13;
    let mut msg = vec![11, 0, 0, 0, 0, 0, 0, 0];
    msg.extend_from_slice(&ip_header(&other));
    assert_eq!(parse_icmp_response(&ip_header(&msg), 0x4242, 31), None);
}

#[test]
fn short_time_exceeded_is_accepted() {
    // Too short to hold the quoted headers: accepted without further checks.
    let msg = vec![11, 0, 0, 0, 0, 0, 0, 0, 1, 2, 3];
    assert_eq!(parse_icmp_response(&ip_header(&msg), 1, 1), Some(()));
}

#[test]
fn malformed_datagrams_are_rejected() {
    assert_eq!(parse_icmp_response(&[0x45; 19], 0, 0), None);
    // Header length 60 but only 40 bytes.
    let mut d = ip_header(&[0, 0, 0, 0, 0, 0, 0, 0]);
    d[0] = 0x4F;
    assert_eq!(parse_icmp_response(&d, 0, 0), None);
    // Destination unreachable (3) is not an answer.
    assert_eq!(parse_icmp_response(&ip_header(&[3, 0, 0, 0, 0, 0, 0, 0]), 0, 0), None);
}
