use mtr_ng::codec::{
    calculate_checksum, construct_icmp6_packet, construct_icmp_packet, decode_response_v4,
    decode_response_v6, extract_sequence_from_packet,
};
use mtr_ng::probe::IcmpResponseType;
use mtr_ng::IpAddress;

#[test]
fn test_icmp_utils() {
    let packet = construct_icmp_packet(1234, 5678);
    assert_eq!(packet.len(), 8);
    assert_eq!(packet[0], 8);
    assert_eq!(extract_sequence_from_packet(&packet), Some(1234));
}

#[test]
fn test_checksum_of_finished_packet_is_zero() {
    // a correct internet checksum makes the packet sum to all-ones,
    // so checksumming the finished packet again yields zero
    let packet = construct_icmp_packet(40000, 77);
    assert_eq!(calculate_checksum(&packet), 0);
}

#[test]
fn test_checksum_known_value() {
    // 0x0001 + 0x0203 = 0x0204; complement is 0xFDFB
    let bytes = [0x00u8, 0x01, 0x02, 0x03];
    assert_eq!(calculate_checksum(&bytes), 0xFDFB);
    // odd trailing byte counts as the high byte of a final word
    let bytes = [0x00u8, 0x01, 0x02];
    assert_eq!(calculate_checksum(&bytes), !0x0201u16);
    // carry folds back into the low sixteen bits
    let bytes = [0xFFu8, 0xFF, 0x00, 0x02];
    assert_eq!(calculate_checksum(&bytes), 0xFFFD);
}

#[test]
fn test_icmp6_packet_layout() {
    let packet = construct_icmp6_packet(513, 258);
    assert_eq!(packet.len(), 8);
    assert_eq!(packet[0], 128);
    assert_eq!(packet[1], 0);
    // the kernel computes the v6 checksum, so the field stays zero
    assert_eq!(packet[2], 0);
    assert_eq!(packet[3], 0);
    assert_eq!(packet[4], 1);
    assert_eq!(packet[5], 2);
    assert_eq!(packet[6], 2);
    assert_eq!(packet[7], 1);
}

fn v4_capture(icmp_type: u8, seq: u16) -> Vec<u8> {
    // a 20-byte IP header (version 4, header length 5 words), then the
    // ICMP header with the sequence in its last two bytes
    let mut buf = vec![0u8; 28];
    buf[0] = 0x45;
    buf[12] = 1;
    buf[13] = 2;
    buf[14] = 3;
    buf[15] = 4;
    buf[20] = icmp_type;
    buf[26] = (seq >> 8) as u8;
    buf[27] = (seq & 0xFF) as u8;
    buf
}

#[test]
fn test_decode_v4_echo_reply() {
    let buf = v4_capture(0, 33001);
    let d = decode_response_v4(&buf).unwrap();
    assert_eq!(d.icmp_type, IcmpResponseType::EchoReply);
    assert_eq!(d.seq, 33001);
    assert_eq!(d.source, IpAddress::V4(1, 2, 3, 4));
}

#[test]
fn test_decode_v4_time_exceeded_reads_embedded_sequence() {
    // time-exceeded: the original echo packet sits after the outer ICMP
    // header and a second embedded IP header
    let mut buf = vec![0u8; 64];
    buf[0] = 0x45;
    buf[12] = 9;
    buf[13] = 8;
    buf[14] = 7;
    buf[15] = 6;
    buf[20] = 11;
    let orig = 20 + 8 + 20;
    buf[orig + 6] = (40123u16 >> 8) as u8;
    buf[orig + 7] = (40123u16 & 0xFF) as u8;
    let d = decode_response_v4(&buf).unwrap();
    assert_eq!(d.icmp_type, IcmpResponseType::TimeExceeded);
    assert_eq!(d.seq, 40123);
    assert_eq!(d.source, IpAddress::V4(9, 8, 7, 6));
}

#[test]
fn test_decode_v4_rejects_short_and_unknown() {
    assert!(decode_response_v4(&[0u8; 27]).is_none());
    // long enough but an unrecognised ICMP type
    let buf = v4_capture(42, 1);
    assert!(decode_response_v4(&buf).is_none());
    // error type but truncated before the embedded sequence
    let buf = v4_capture(11, 1);
    assert!(decode_response_v4(&buf).is_none());
}

#[test]
fn test_decode_v6_echo_reply() {
    let mut buf = vec![0u8; 8];
    buf[0] = 129;
    buf[6] = 0x80;
    buf[7] = 0x01;
    let (ty, seq) = decode_response_v6(&buf).unwrap();
    assert_eq!(ty, IcmpResponseType::EchoReply);
    assert_eq!(seq, 0x8001);
}

#[test]
fn test_decode_v6_time_exceeded_and_truncation() {
    let mut buf = vec![0u8; 56];
    buf[0] = 3;
    buf[54] = 0x90;
    buf[55] = 0x02;
    let (ty, seq) = decode_response_v6(&buf).unwrap();
    assert_eq!(ty, IcmpResponseType::TimeExceeded);
    assert_eq!(seq, 0x9002);

    // the same error capture cut short decodes to nothing
    assert!(decode_response_v6(&buf[..55]).is_none());
    assert!(decode_response_v6(&[0u8; 7]).is_none());
}
