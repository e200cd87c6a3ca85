use aimeqtt::packet::craft_connect_packet_with_credentials;
use aimeqtt::packet::craft_connect_packet;
use aimeqtt::packet::ConnectFlags;
use aimeqtt::packet::craft_pingreq_packet;
use aimeqtt::packet::craft_publish_packet;
use aimeqtt::packet::craft_publish_packet_to;
use aimeqtt::packet::craft_subscribe_packet;
use aimeqtt::packet::parse_connack_packet;
use aimeqtt::packet::parse_incoming_packet;
use aimeqtt::packet::parse_pingresp_packet;
use aimeqtt::packet::parse_publish_packet;
use aimeqtt::packet::ConnackPacket;
use aimeqtt::packet::ConnackReturnCode;
use aimeqtt::packet::IncomingPacket;

#[test]
fn test_craft_connect_packet() {
    let packet = craft_connect_packet();
    assert_eq!(
        packet,
        vec![16, 16, 0, 4, 77, 81, 84, 84, 4, 2, 0, 60, 0, 4, 114, 117, 115, 116]
    );
}

#[test]
fn pingreq_packet_is_header_and_zero_length() {
    assert_eq!(craft_pingreq_packet(), vec![0xC0, 0x00]);
}

#[test]
fn publish_packet_for_short_payload() {
    let packet = craft_publish_packet("msg".to_string());
    assert_eq!(
        packet,
        vec![0x30, 10, 0, 3, b'a', b'/', b'b', 0, 0, b'm', b's', b'g']
    );
}

#[test]
fn publish_packet_remaining_length_takes_two_bytes_at_128() {
    // 7 bytes of variable header and 121 of payload: a Remaining Length of 128.
    let payload = "x".repeat(121);
    let packet = craft_publish_packet(payload);
    assert_eq!(packet.len(), 1 + 2 + 128);
    assert_eq!(&packet[0..3], &[0x30, 0x80, 0x01]);
    assert_eq!(&packet[3..8], &[0, 3, b'a', b'/', b'b']);
}

#[test]
fn publish_packet_remaining_length_of_207() {
    let payload = "y".repeat(200);
    let packet = craft_publish_packet(payload);
    assert_eq!(&packet[0..3], &[0x30, 207, 1]);
    assert_eq!(packet.len(), 1 + 2 + 207);
}

#[test]
fn publish_packet_remaining_length_takes_three_bytes() {
    // 7 + 16377 = 16384 = 128 * 128: digits 0, 0, 1.
    let payload = "z".repeat(16377);
    let packet = craft_publish_packet(payload);
    assert_eq!(&packet[0..4], &[0x30, 0x80, 0x80, 0x01]);
    assert_eq!(packet.len(), 1 + 3 + 16384);
}

#[test]
fn publish_packet_carries_utf8_bytes() {
    let packet = craft_publish_packet("é".to_string());
    assert_eq!(packet, vec![0x30, 9, 0, 3, b'a', b'/', b'b', 0, 0, 0xC3, 0xA9]);
}

#[test]
fn publish_packet_to_other_topic() {
    let packet = craft_publish_packet_to("foo/bar".to_string(), "hi".to_string());
    assert_eq!(
        packet,
        vec![0x30, 13, 0, 7, b'f', b'o', b'o', b'/', b'b', b'a', b'r', 0, 0, b'h', b'i']
    );
}

#[test]
fn publish_packet_to_a_b_is_craft_publish_packet() {
    assert_eq!(
        craft_publish_packet_to("a/b".to_string(), "hello".to_string()),
        craft_publish_packet("hello".to_string())
    );
}

#[test]
fn subscribe_packet_layout() {
    let packet = craft_subscribe_packet("a/b".to_string());
    assert_eq!(packet, vec![0x82, 8, 0, 1, 0, 3, b'a', b'/', b'b', 0]);
}

#[test]
fn connack_packet_fields() {
    let connack = parse_connack_packet(&[0x20, 0x02, 0x01, 0x00]);
    assert_eq!(
        connack,
        ConnackPacket { flags: 1, return_code: ConnackReturnCode::ConnectionAccepted }
    );
    let refused = parse_connack_packet(&[0x20, 0x02, 0x00, 0x05]);
    assert_eq!(refused.return_code, ConnackReturnCode::ConnectionRefusedNotAuthorized);
}

#[test]
fn connack_return_codes() {
    assert_eq!(ConnackReturnCode::from(0), ConnackReturnCode::ConnectionAccepted);
    assert_eq!(
        ConnackReturnCode::from(1),
        ConnackReturnCode::ConnectionRefusedUnacceptableProtocolVersion
    );
    assert_eq!(ConnackReturnCode::from(2), ConnackReturnCode::ConnectionRefusedIdentifierRejected);
    assert_eq!(ConnackReturnCode::from(3), ConnackReturnCode::ConnectionRefusedServerUnavailable);
    assert_eq!(
        ConnackReturnCode::from(4),
        ConnackReturnCode::ConnectionRefusedBadUsernameOrPassword
    );
    assert_eq!(ConnackReturnCode::from(5), ConnackReturnCode::ConnectionRefusedNotAuthorized);
}

#[test]
fn pingresp_header_check() {
    assert!(parse_pingresp_packet(&[0xD0, 0x00]));
    assert!(!parse_pingresp_packet(&[0xD1, 0x00]));
}

#[test]
fn incoming_packets_by_type() {
    assert_eq!(
        parse_incoming_packet(&[0x20, 0x02, 0x00, 0x02]),
        IncomingPacket::Connack(ConnackPacket {
            flags: 0,
            return_code: ConnackReturnCode::ConnectionRefusedIdentifierRejected,
        })
    );
    assert_eq!(parse_incoming_packet(&[0xD0, 0x00]), IncomingPacket::Pingresp(true));
    assert_eq!(parse_incoming_packet(&[0xD2, 0x00]), IncomingPacket::Pingresp(false));
    assert_eq!(parse_incoming_packet(&[0x90, 0x03, 0x00, 0x01, 0x00]), IncomingPacket::Unsupported(9));
}

#[test]
fn parse_incoming_qos0_publish() {
    let packet = [0x30, 7, 0, 3, b'a', b'/', b'b', b'h', b'i'];
    assert_eq!(
        parse_publish_packet(&packet),
        Some(("a/b".to_string(), "hi".to_string()))
    );
}

#[test]
fn parse_incoming_qos1_publish_skips_packet_identifier() {
    let packet = [0x32, 9, 0, 3, b'a', b'/', b'b', 0, 7, b'h', b'i'];
    assert_eq!(
        parse_publish_packet(&packet),
        Some(("a/b".to_string(), "hi".to_string()))
    );
}

#[test]
fn parse_publish_ignores_bytes_after_the_packet() {
    let packet = [0x30, 7, 0, 3, b'a', b'/', b'b', b'h', b'i', 0xD0, 0x00];
    assert_eq!(
        parse_publish_packet(&packet),
        Some(("a/b".to_string(), "hi".to_string()))
    );
}

#[test]
fn parse_publish_rejects_malformed_packets() {
    // Not a PUBLISH.
    assert_eq!(parse_publish_packet(&[0x20, 2, 0, 0]), None);
    // Empty.
    assert_eq!(parse_publish_packet(&[]), None);
    // Ends before its Remaining Length says.
    assert_eq!(parse_publish_packet(&[0x30, 9, 0, 3, b'a', b'/', b'b']), None);
    // Topic longer than the packet.
    assert_eq!(parse_publish_packet(&[0x30, 3, 0, 9, b'a']), None);
    // Remaining Length that never ends.
    assert_eq!(parse_publish_packet(&[0x30, 0x80, 0x80, 0x80, 0x80, 0x01]), None);
    // Payload that is not UTF-8.
    assert_eq!(parse_publish_packet(&[0x30, 6, 0, 3, b'a', b'/', b'b', 0xFF]), None);
}

#[test]
fn publish_round_trip_keeps_topic_and_payload_behind_packet_identifier() {
    let packet = craft_publish_packet_to("sensors/t".to_string(), "21.5".to_string());
    assert_eq!(
        parse_publish_packet(&packet),
        Some(("sensors/t".to_string(), "\0\021.5".to_string()))
    );
    let long = "p".repeat(300);
    let packet = craft_publish_packet_to("x".to_string(), long.clone());
    assert_eq!(
        parse_publish_packet(&packet),
        Some(("x".to_string(), format!("\0\0{}", long)))
    );
}

#[test]
fn connect_packet_with_credentials_layout() {
    let packet =
        craft_connect_packet_with_credentials(Some("u".to_string()), Some("p".to_string()), 60);
    assert_eq!(
        packet,
        vec![
            0x10, 22, 0, 4, 77, 81, 84, 84, 4, 0xC2, 0, 60, 0, 4, 114, 117, 115, 116, 0, 1, b'u',
            0, 1, b'p'
        ]
    );
    let name_only = craft_connect_packet_with_credentials(Some("ab".to_string()), None, 60);
    assert_eq!(name_only[9], 0x82);
    assert_eq!(name_only[1], 20);
    assert_eq!(&name_only[18..], &[0, 2, b'a', b'b']);
}

#[test]
fn connect_packet_without_credentials_is_craft_connect_packet() {
    assert_eq!(craft_connect_packet_with_credentials(None, None, 60), craft_connect_packet());
}

#[test]
fn connect_packet_with_long_credentials_takes_two_length_bytes() {
    // 16 bytes without credentials, 2 + 200 for the username: 218 = 90 + 128.
    let packet = craft_connect_packet_with_credentials(Some("n".repeat(200)), None, 60);
    assert_eq!(&packet[0..3], &[0x10, 218, 1]);
    assert_eq!(packet.len(), 3 + 218);
}

#[test]
fn publish_remaining_length_digits_sum_to_the_bytes_after_the_field() {
    for payload_len in [0usize, 1, 120, 121, 200, 16376, 16377, 20000] {
        let packet = craft_publish_packet("q".repeat(payload_len));
        let mut k = 1;
        while packet[k] & 0x80 != 0 {
            k += 1;
        }
        let mut sum = 0usize;
        let mut weight = 1usize;
        for i in 0..k {
            sum += (packet[1 + i] & 0x7F) as usize * weight;
            weight *= 128;
        }
        assert_eq!(sum, packet.len() - 1 - k);
        assert_eq!(sum, 7 + payload_len);
    }
}

#[test]
fn connect_flags_read_back_from_their_bits() {
    let packet =
        craft_connect_packet_with_credentials(Some("u".to_string()), Some("p".to_string()), 60);
    let flags = packet[9];
    assert_eq!(flags >> 7, 1);
    assert_eq!((flags >> 6) & 1, 1);
    assert_eq!((flags >> 5) & 1, 0);
    assert_eq!((flags >> 3) & 3, 0);
    assert_eq!((flags >> 2) & 1, 0);
    assert_eq!((flags >> 1) & 1, 1);
    assert_eq!(flags & 1, 0);
    assert_eq!(craft_connect_packet()[9] & 1, 0);
}

#[test]
fn connect_packet_announces_its_keep_alive() {
    let packet = craft_connect_packet_with_credentials(None, None, 300);
    assert_eq!(&packet[10..12], &[1, 44]);
}

#[test]
fn connect_flags_byte_for_any_values() {
    let all = ConnectFlags {
        username_flag: 1,
        password_flag: 1,
        will_retain: 1,
        will_qos: 2,
        will_flag: 1,
        clean_session: 1,
    };
    let b = all.to_byte();
    assert_eq!(b, 0b1111_0110);
    assert_eq!(b >> 7, 1);
    assert_eq!((b >> 6) & 1, 1);
    assert_eq!((b >> 5) & 1, 1);
    assert_eq!((b >> 3) & 3, 2);
    assert_eq!((b >> 2) & 1, 1);
    assert_eq!((b >> 1) & 1, 1);
    let odd = ConnectFlags {
        username_flag: 255,
        password_flag: 3,
        will_retain: 7,
        will_qos: 200,
        will_flag: 9,
        clean_session: 129,
    };
    assert_eq!(odd.to_byte() & 1, 0);
}
