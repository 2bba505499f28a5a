use squad_rcon::{frame_len, Error, RconPacket, SERVERDATA_AUTH, SERVERDATA_EXECCOMMAND};

fn round_trip(id: i32, type_: i32, body: &str) {
    let packet = RconPacket::new(id, type_, body.to_string());
    let bytes = packet.encode().unwrap();
    let back = RconPacket::decode(&bytes).unwrap();
    assert_eq!(back.id(), id);
    assert_eq!(back.type_(), type_);
    assert_eq!(back.body(), body);
}

#[test]
fn encode_writes_the_frame_layout() {
    let bytes = RconPacket::new(7, SERVERDATA_EXECCOMMAND, "hi".to_string()).encode().unwrap();
    assert_eq!(bytes, vec![12, 0, 0, 0, 7, 0, 0, 0, 2, 0, 0, 0, b'h', b'i', 0, 0]);
}

#[test]
fn encode_writes_negative_ids_in_twos_complement() {
    let bytes = RconPacket::new(-1, SERVERDATA_AUTH, String::new()).encode().unwrap();
    assert_eq!(bytes, vec![10, 0, 0, 0, 255, 255, 255, 255, 3, 0, 0, 0, 0, 0]);
}

#[test]
fn size_field_is_body_length_plus_ten() {
    for body in ["", "ListPlayers", "é", "日本語 text"] {
        let bytes = RconPacket::new(1, 2, body.to_string()).encode().unwrap();
        let size = i32::from_le_bytes([bytes[0], bytes[1], bytes[2], bytes[3]]);
        assert_eq!(size as usize, body.len() + 10);
        assert_eq!(bytes.len(), body.len() + 14);
    }
}

#[test]
fn decode_reads_back_what_encode_wrote() {
    round_trip(10, 2, "ListPlayers");
    round_trip(-1, 2, "");
    round_trip(i32::MAX, i32::MIN, "Grüße, мир ✓");
    round_trip(0, 0, "line one\nline two\n");
}

#[test]
fn decode_refuses_a_size_below_the_header() {
    let frame = vec![9, 0, 0, 0, 1, 0, 0, 0, 2, 0, 0, 0, 0];
    assert!(matches!(RconPacket::decode(&frame), Err(Error::ProtocolError)));
}

#[test]
fn decode_refuses_a_frame_that_disagrees_with_its_size() {
    let mut frame = RconPacket::new(1, 2, "abc".to_string()).encode().unwrap();
    frame.push(0);
    assert!(matches!(RconPacket::decode(&frame), Err(Error::ProtocolError)));
    assert!(matches!(RconPacket::decode(&[1, 0]), Err(Error::ProtocolError)));
}

#[test]
fn decode_refuses_a_body_that_is_not_utf8() {
    let frame = vec![12, 0, 0, 0, 1, 0, 0, 0, 0, 0, 0, 0, 0xff, 0xfe, 0, 0];
    assert!(matches!(RconPacket::decode(&frame), Err(Error::FromUtf8Error(_))));
}

#[test]
fn decode_does_not_check_the_terminator() {
    let frame = vec![11, 0, 0, 0, 4, 0, 0, 0, 0, 0, 0, 0, b'x', 7, 7];
    let p = RconPacket::decode(&frame).unwrap();
    assert_eq!((p.id(), p.type_(), p.body()), (4, 0, "x"));
}

#[test]
fn frame_len_reads_the_size_field() {
    assert_eq!(frame_len(&[21, 0, 0, 0]).unwrap(), 21);
    assert_eq!(frame_len(&[10, 1, 0, 0]).unwrap(), 266);
    assert!(matches!(frame_len(&[9, 0, 0, 0]), Err(Error::ProtocolError)));
    assert!(matches!(frame_len(&[255, 255, 255, 255]), Err(Error::ProtocolError)));
    assert!(matches!(frame_len(&[10, 0]), Err(Error::ProtocolError)));
}

#[test]
fn packet_accessors_return_the_fields() {
    let p = RconPacket::new(5, 0, "reply".to_string());
    assert_eq!(p.id(), 5);
    assert_eq!(p.type_(), 0);
    assert_eq!(p.body(), "reply");
    assert_eq!(p.into_body(), "reply");
}
