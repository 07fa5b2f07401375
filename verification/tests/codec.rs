use radio_client::proxy::{
    encode_outgoing, parse_msg, prepare_msg, DecodeError, EncodeError, IncomingProxyMessage,
    OutgoingProxyMessage, HEADER_SIZE,
};

#[test]
fn header_size_is_big_enough() {
    if HEADER_SIZE != 4 {
        panic!("header size must be 4");
    }
}

#[test]
fn prepare_msg_constructs_valid_messages() {
    let code: u16 = 67;
    let content = [2u8; 82];
    let msg = prepare_msg(code, &content).unwrap();
    assert!(u16::from_le_bytes([msg[0], msg[1]]) == code);
    assert!(u16::from_le_bytes([msg[2], msg[3]]) == content.len() as u16);
    for (offset, val) in content.iter().enumerate() {
        assert!(msg[HEADER_SIZE + offset] == *val);
    }
}

#[test]
fn parse_msg_accepts_valid_messages() {
    let cases = [
        (
            2u16,
            "hello".as_bytes(),
            IncomingProxyMessage::IAM("hello".to_string()),
        ),
        (4u16, &[2u8; 4][..], IncomingProxyMessage::Audio(vec![2; 4])),
        (6u16, &[2u8; 4][..], IncomingProxyMessage::Metadata(vec![2; 4])),
    ];
    for (code, content, expected_msg) in cases.iter() {
        let msg = parse_msg(&prepare_msg(*code, content).unwrap()[..]).unwrap();
        assert_eq!(msg, *expected_msg);
    }
}

#[test]
fn parse_msg_does_not_accept_invalid_msg() {
    let msg = parse_msg(&prepare_msg(32, &[]).unwrap()[..]);
    match msg {
        Err(_) => (),
        _ => panic!("message should not be parsed"),
    }
}

#[test]
fn short_headers_are_rejected() {
    assert_eq!(parse_msg(&[]), Err(DecodeError::TooShort));
    assert_eq!(parse_msg(&[2]), Err(DecodeError::TooShort));
    assert_eq!(parse_msg(&[2, 0]), Err(DecodeError::TooShort));
    assert_eq!(parse_msg(&[2, 0, 0]), Err(DecodeError::TooShort));
}

#[test]
fn unknown_codes_are_rejected() {
    for code in [0u16, 1, 3, 5, 7, 32, 65535] {
        let frame = prepare_msg(code, &[]).unwrap();
        assert_eq!(parse_msg(&frame), Err(DecodeError::UnknownCode(code)));
    }
}

#[test]
fn truncated_payload_is_rejected() {
    // the header announces five payload bytes but none follow
    assert_eq!(parse_msg(&[2, 0, 5, 0]), Err(DecodeError::PayloadTruncated));
    // one byte short
    assert_eq!(
        parse_msg(&[4, 0, 2, 0, 9]),
        Err(DecodeError::PayloadTruncated)
    );
}

#[test]
fn trailing_bytes_beyond_length_are_ignored() {
    let msg = parse_msg(&[4, 0, 1, 0, 9, 77, 78]).unwrap();
    assert_eq!(msg, IncomingProxyMessage::Audio(vec![9]));
}

#[test]
fn iam_with_invalid_utf8_is_rejected() {
    let frame = prepare_msg(2, &[0xff]).unwrap();
    assert_eq!(parse_msg(&frame), Err(DecodeError::InvalidUtf8));
}

#[test]
fn iam_round_trips_non_ascii_names() {
    let name = "Zażółć gęślą jaźń";
    let frame = prepare_msg(2, name.as_bytes()).unwrap();
    assert_eq!(
        parse_msg(&frame).unwrap(),
        IncomingProxyMessage::IAM(name.to_string())
    );
}

#[test]
fn audio_round_trips_all_byte_values() {
    let content: Vec<u8> = (0u16..=255).map(|b| b as u8).collect();
    let frame = prepare_msg(4, &content).unwrap();
    assert_eq!(
        parse_msg(&frame).unwrap(),
        IncomingProxyMessage::Audio(content)
    );
}

#[test]
fn oversized_content_is_refused() {
    let content = vec![0u8; 65536];
    assert_eq!(
        prepare_msg(4, &content),
        Err(EncodeError::ContentTooLong)
    );
    // the largest payload that fits is accepted
    let content = vec![0u8; 65535];
    let frame = prepare_msg(4, &content).unwrap();
    assert_eq!(frame.len(), HEADER_SIZE + 65535);
}

#[test]
fn outgoing_messages_encode_to_fixed_frames() {
    assert_eq!(
        encode_outgoing(&OutgoingProxyMessage::Discover()),
        vec![1, 0, 0, 0]
    );
    assert_eq!(
        encode_outgoing(&OutgoingProxyMessage::KeepAlive()),
        vec![3, 0, 0, 0]
    );
}
