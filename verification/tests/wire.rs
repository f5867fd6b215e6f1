use mqtt_codec::codec::{encode_bytes, encode_u16, parse_bytes, parse_string, parse_u16};
use mqtt_codec::error::{DecodeError, EncodeError};
use mqtt_codec::fixed_header::{FixedHeader, PacketType};
use mqtt_codec::packet::Packet;
use mqtt_codec::payload::{self, Payload, Will};
use mqtt_codec::status::Status;
use mqtt_codec::variable_header::{self, Flags, Suback, VariableHeader};

fn connect_packet() -> Packet {
    // will + username + password bits set
    let flags = Flags(0x04 | 0x80 | 0x40);
    let vh = variable_header::Connect::new(b"MQTT".to_vec(), 4, flags, 30);
    let will = Will::new(b"topic".to_vec(), vec![1, 2, 3]);
    let pl = payload::Connect::new(
        b"client".to_vec(),
        Some(will),
        Some(b"user".to_vec()),
        Some(vec![9, 8, 7]),
    );
    Packet::connect(vh, pl).unwrap()
}

#[test]
fn u16_parses_big_endian() {
    match parse_u16(&[0x01, 0x02]).unwrap() {
        Status::Complete((n, v)) => {
            assert_eq!(n, 2);
            assert_eq!(v, 258);
        }
        Status::Partial(_) => panic!("expected complete"),
    }
}

#[test]
fn u16_short_input_is_partial() {
    assert_eq!(parse_u16(&[]).unwrap(), Status::Partial(2));
    assert_eq!(parse_u16(&[0xFF]).unwrap(), Status::Partial(1));
}

#[test]
fn bytes_partial_reports_exact_deficit() {
    match parse_bytes(&[0x00]).unwrap() {
        Status::Partial(n) => assert_eq!(n, 1),
        _ => panic!("expected partial"),
    }
    match parse_bytes(&[0x00, 0x05, 1, 2]).unwrap() {
        Status::Partial(n) => assert_eq!(n, 3),
        _ => panic!("expected partial"),
    }
}

#[test]
fn bytes_round_trip_with_trailing_data() {
    let mut buf = vec![0u8; 8];
    let n = encode_bytes(&[0xAB, 0xCD], &mut buf, 1).unwrap();
    assert_eq!(n, 4);
    assert_eq!(&buf[1..5], &[0x00, 0x02, 0xAB, 0xCD]);
    match parse_bytes(&buf[1..]).unwrap() {
        Status::Complete((used, v)) => {
            assert_eq!(used, 4);
            assert_eq!(v, vec![0xAB, 0xCD]);
        }
        _ => panic!("expected complete"),
    }
}

#[test]
fn empty_string_decodes_in_two_bytes() {
    match parse_string(&[0x00, 0x00]).unwrap() {
        Status::Complete((n, v)) => {
            assert_eq!(n, 2);
            assert!(v.is_empty());
        }
        _ => panic!("expected complete"),
    }
}

#[test]
fn invalid_utf8_is_a_decode_error() {
    assert_eq!(parse_string(&[0x00, 0x02, 0xFF, 0xFF]), Err(DecodeError::Utf8));
}

#[test]
fn multibyte_utf8_is_accepted() {
    match parse_string(&[0x00, 0x02, 0xC3, 0xA9]).unwrap() {
        Status::Complete((n, v)) => {
            assert_eq!(n, 4);
            assert_eq!(v, vec![0xC3, 0xA9]);
        }
        _ => panic!("expected complete"),
    }
}

#[test]
fn encode_u16_checks_capacity_first() {
    let mut buf = vec![7u8; 3];
    assert_eq!(encode_u16(0x0105, &mut buf, 1), Ok(2));
    assert_eq!(buf, vec![7, 1, 5]);
    let mut short = vec![0u8; 1];
    assert_eq!(encode_u16(9, &mut short, 0), Err(EncodeError::OutOfSpace));
    assert_eq!(short, vec![0]);
}

#[test]
fn oversized_field_is_value_too_big() {
    let big = vec![0u8; 65536];
    let mut buf = vec![0u8; 70000];
    assert_eq!(encode_bytes(&big, &mut buf, 0), Err(EncodeError::ValueTooBig));
}

#[test]
fn remaining_length_boundaries() {
    // value -> number of remaining-length bytes on the wire
    let cases: [(u32, usize); 8] = [
        (0, 1),
        (127, 1),
        (128, 2),
        (16383, 2),
        (16384, 3),
        (2097151, 3),
        (2097152, 4),
        (268435455, 4),
    ];
    for (value, enc_bytes) in cases {
        let h = FixedHeader::new(PacketType::Publish, 0, value);
        let mut buf = vec![0u8; 8];
        let written = h.to_bytes(&mut buf, 0).unwrap();
        assert_eq!(written, 1 + enc_bytes, "encoded size for {}", value);
        match FixedHeader::from_bytes(&buf[..written]).unwrap() {
            Status::Complete((used, back)) => {
                assert_eq!(used, written);
                assert_eq!(back.len(), value);
                assert_eq!(back.packet_type(), PacketType::Publish);
            }
            _ => panic!("expected complete for {}", value),
        }
    }
}

#[test]
fn fifth_continuation_byte_is_malformed() {
    let r = FixedHeader::from_bytes(&[0x10, 0x80, 0x80, 0x80, 0x80]);
    assert_eq!(r, Err(DecodeError::RemainingLength));
}

#[test]
fn truncated_remaining_length_is_partial() {
    assert_eq!(
        FixedHeader::from_bytes(&[0x10, 0x80]).unwrap(),
        Status::Partial(1)
    );
    assert_eq!(FixedHeader::from_bytes(&[]).unwrap(), Status::Partial(1));
}

#[test]
fn packet_type_nibble_out_of_range_is_malformed() {
    assert_eq!(FixedHeader::from_bytes(&[0x00, 0x00]), Err(DecodeError::PacketType));
    assert_eq!(FixedHeader::from_bytes(&[0xF0, 0x00]), Err(DecodeError::PacketType));
}

#[test]
fn fixed_header_keeps_flag_nibble() {
    match FixedHeader::from_bytes(&[0x3C, 0x00]).unwrap() {
        Status::Complete((used, h)) => {
            assert_eq!(used, 2);
            assert_eq!(h.packet_type(), PacketType::Publish);
            assert_eq!(h.flags(), 0x0C);
            assert_eq!(h.len(), 0);
        }
        _ => panic!("expected complete"),
    }
}

#[test]
fn packet_type_codes_round_trip() {
    assert_eq!(PacketType::from_code(1), Some(PacketType::Connect));
    assert_eq!(PacketType::from_code(9), Some(PacketType::Suback));
    assert_eq!(PacketType::from_code(0), None);
    assert_eq!(PacketType::from_code(15), None);
    assert_eq!(PacketType::Connect.to_code(), 1);
    assert_eq!(PacketType::Disconnect.to_code(), 14);
}

#[test]
fn connect_flag_bits() {
    assert!(Flags(0x04).has_will());
    assert!(!Flags(0x04).has_username());
    assert!(Flags(0x80).has_username());
    assert!(Flags(0x40).has_password());
    assert!(!Flags(0x00).has_will());
}

#[test]
fn suback_identifier_decodes() {
    match Suback::from_bytes(&[0x00, 0x05]).unwrap() {
        Status::Complete((n, sb)) => {
            assert_eq!(n, 2);
            assert_eq!(sb.packet_identifier(), 5);
        }
        _ => panic!("expected complete"),
    }
}

#[test]
fn suback_short_input_is_partial() {
    assert_eq!(Suback::from_bytes(&[0x00]).unwrap(), Status::Partial(1));
    assert_eq!(Suback::from_bytes(&[]).unwrap(), Status::Partial(2));
}

#[test]
fn variable_header_absent_for_undefined_types() {
    assert!(VariableHeader::from_bytes(PacketType::Pingreq, &[1, 2, 3]).is_none());
    assert!(VariableHeader::from_bytes(PacketType::Suback, &[0, 1]).is_some());
    assert!(VariableHeader::from_bytes(PacketType::Connect, &[]).is_some());
}

#[test]
fn connect_payload_without_flags_ignores_trailing_bytes() {
    let bytes = [0x00, 0x03, b'a', b'b', b'c', 0xEE, 0xFF];
    match payload::Connect::from_bytes(Flags(0), &bytes).unwrap() {
        Status::Complete((n, c)) => {
            assert_eq!(n, 5);
            assert_eq!(c.client_id, b"abc".to_vec());
            assert!(c.will.is_none());
            assert!(c.username.is_none());
            assert!(c.password.is_none());
        }
        _ => panic!("expected complete"),
    }
}

#[test]
fn connect_payload_reads_gated_fields_in_order() {
    // client id "id", will topic "t" message [5], username "u", password [6]
    let bytes = [
        0x00, 0x02, b'i', b'd', 0x00, 0x01, b't', 0x00, 0x01, 5, 0x00, 0x01, b'u', 0x00, 0x01, 6,
    ];
    let flags = Flags(0x04 | 0x80 | 0x40);
    match payload::Connect::from_bytes(flags, &bytes).unwrap() {
        Status::Complete((n, c)) => {
            assert_eq!(n, bytes.len());
            assert_eq!(c.client_id, b"id".to_vec());
            let w = c.will.unwrap();
            assert_eq!(w.topic, b"t".to_vec());
            assert_eq!(w.message, vec![5]);
            assert_eq!(c.username.unwrap(), b"u".to_vec());
            assert_eq!(c.password.unwrap(), vec![6]);
        }
        _ => panic!("expected complete"),
    }
}

#[test]
fn connect_payload_partial_inside_will() {
    let bytes = [0x00, 0x01, b'a', 0x00, 0x05, b't'];
    match payload::Connect::from_bytes(Flags(0x04), &bytes).unwrap() {
        Status::Partial(n) => assert_eq!(n, 4),
        _ => panic!("expected partial"),
    }
}

#[test]
fn will_round_trips_through_buffer() {
    let w = Will::new(b"warn".to_vec(), vec![0xAA]);
    let mut buf = vec![0u8; 16];
    let n = w.to_bytes(&mut buf, 0).unwrap();
    assert_eq!(n, 9);
    match Will::from_bytes(&buf[..n]).unwrap() {
        Status::Complete((used, back)) => {
            assert_eq!(used, n);
            assert_eq!(back, w);
        }
        _ => panic!("expected complete"),
    }
}

#[test]
fn status_accessors() {
    let c: Status<u8> = Status::Complete(3);
    let p: Status<u8> = Status::Partial(2);
    assert!(c.is_complete());
    assert!(!c.is_partial());
    assert!(p.is_partial());
    assert!(!p.is_complete());
    assert_eq!(c.unwrap(), 3);
}

#[test]
fn connect_packet_round_trips() {
    let p = connect_packet();
    let mut buf = vec![0u8; 128];
    let n = p.to_bytes(&mut buf).unwrap();
    assert_eq!(n, p.encoded_len());
    match Packet::from_bytes(&buf[..n]).unwrap() {
        Status::Complete((used, back)) => {
            assert_eq!(used, n);
            assert_eq!(back, p);
        }
        _ => panic!("expected complete"),
    }
}

#[test]
fn suback_packet_round_trips() {
    let p = Packet {
        fixed_header: FixedHeader::new(PacketType::Suback, 0, 5),
        variable_header: Some(VariableHeader::Suback(Suback { packet_identifier: 77 })),
        payload: Some(Payload::Bytes(vec![0, 1, 2])),
    };
    let mut buf = vec![0u8; 16];
    let n = p.to_bytes(&mut buf).unwrap();
    assert_eq!(n, 7);
    match Packet::from_bytes(&buf[..n]).unwrap() {
        Status::Complete((used, back)) => {
            assert_eq!(used, 7);
            assert_eq!(back, p);
        }
        _ => panic!("expected complete"),
    }
}

#[test]
fn raw_packet_round_trips() {
    let p = Packet {
        fixed_header: FixedHeader::new(PacketType::Publish, 3, 3),
        variable_header: None,
        payload: Some(Payload::Bytes(vec![9, 9, 9])),
    };
    let mut buf = vec![0u8; 8];
    let n = p.to_bytes(&mut buf).unwrap();
    assert_eq!(n, 5);
    match Packet::from_bytes(&buf).unwrap() {
        Status::Complete((used, back)) => {
            assert_eq!(used, 5);
            assert_eq!(back, p);
        }
        _ => panic!("expected complete"),
    }
}

#[test]
fn connect_window_scenario() {
    // fixed header: connect type, remaining_length = 10;
    // window: empty protocol name, level 4, flags 0, keep-alive 30 (6 bytes),
    // then client id "id" (4 bytes of payload).
    let full = [
        0x10, 0x0A, 0x00, 0x00, 0x04, 0x00, 0x00, 0x1E, 0x00, 0x02, b'i', b'd',
    ];
    match Packet::from_bytes(&full).unwrap() {
        Status::Complete((used, p)) => {
            assert_eq!(used, 12);
            assert_eq!(p.fixed_header().len(), 10);
            match p.payload {
                Some(Payload::Connect(c)) => assert_eq!(c.client_id, b"id".to_vec()),
                _ => panic!("expected structured connect payload"),
            }
        }
        _ => panic!("expected complete"),
    }
    // any strict prefix is partial and never overshoots the total; once
    // the fixed header is readable the deficit is exactly the window
    // shortfall
    for k in 0..12 {
        match Packet::from_bytes(&full[..k]).unwrap() {
            Status::Partial(n) => {
                assert!(n >= 1);
                assert!(k + n <= 12, "prefix {} claimed {}", k, n);
                if k >= 2 {
                    assert_eq!(n, 12 - k);
                }
            }
            _ => panic!("prefix {} should be partial", k),
        }
    }
}

#[test]
fn window_deficit_counts_the_whole_window() {
    // connect type, remaining_length 10, no window bytes yet: the whole
    // window is missing, not just the next variable-header field
    assert_eq!(Packet::from_bytes(&[0x10, 0x0A]).unwrap(), Status::Partial(10));
    assert_eq!(
        Packet::from_bytes(&[0x10, 0x0A, 0x00]).unwrap(),
        Status::Partial(9)
    );
}

#[test]
fn variable_header_overrunning_its_window_is_malformed() {
    // remaining_length 3, all three window bytes present, but the
    // protocol-name string declares 5 content bytes: the variable header
    // can never fit this packet, so no retry can help
    let bytes = [0x10, 0x03, 0x00, 0x05, 0x61];
    assert_eq!(Packet::from_bytes(&bytes), Err(DecodeError::PayloadLength));
}

#[test]
fn remaining_length_smaller_than_variable_header_is_malformed() {
    // suback with remaining_length 1 cannot hold its 2-byte identifier
    let bytes = [0x90, 0x01, 0x00, 0x05];
    assert_eq!(Packet::from_bytes(&bytes), Err(DecodeError::PayloadLength));
}

#[test]
fn connect_payload_not_filling_window_is_malformed() {
    // remaining_length 10, but the client id leaves one window byte unread
    let bytes = [
        0x10, 0x0A, 0x00, 0x00, 0x04, 0x00, 0x00, 0x1E, 0x00, 0x01, b'i', 0xEE,
    ];
    assert_eq!(Packet::from_bytes(&bytes), Err(DecodeError::PayloadLength));
}

#[test]
fn invalid_utf8_client_id_fails_packet_decode() {
    let bytes = [
        0x10, 0x0A, 0x00, 0x00, 0x04, 0x00, 0x00, 0x1E, 0x00, 0x02, 0xFF, 0xFE,
    ];
    assert_eq!(Packet::from_bytes(&bytes), Err(DecodeError::Utf8));
}

#[test]
fn packet_encode_rejects_short_buffer() {
    let p = connect_packet();
    let mut buf = vec![0u8; 4];
    assert_eq!(p.to_bytes(&mut buf), Err(EncodeError::OutOfSpace));
    assert_eq!(buf, vec![0u8; 4]);
}

#[test]
fn packet_connect_rejects_oversized_length() {
    let flags = Flags(0);
    let vh = variable_header::Connect::new(b"MQTT".to_vec(), 4, flags, 0);
    let pl = payload::Connect::new(vec![b'x'; 65536], None, None, None);
    assert_eq!(Packet::connect(vh, pl), Err(EncodeError::ValueTooBig));
}

#[test]
fn packet_connect_sets_remaining_length() {
    let p = connect_packet();
    let h = p.fixed_header();
    assert_eq!(h.packet_type(), PacketType::Connect);
    assert_eq!(h.flags(), 0);
    // vh: 2+4+1+1+2 = 10; payload: (2+6) + (2+5 + 2+3) + (2+4) + (2+3) = 31
    assert_eq!(h.len(), 41);
}
