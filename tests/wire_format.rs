use echo_add_service::message::client_message;
use echo_add_service::message::server_message;
use echo_add_service::message::{AddRequest, AddResponse, ClientMessage, EchoMessage, ServerMessage};
use echo_add_service::varint::{parse_varint, write_varint};
use echo_add_service::wire::{decode_request, decode_response, encode_request, encode_response, DecodeError};

fn echo_request(content: &str) -> ClientMessage {
    ClientMessage {
        message: Some(client_message::Message::EchoMessage(EchoMessage { content: content.to_string() })),
    }
}

#[test]
fn varints_are_written_low_group_first() {
    let mut buf = Vec::new();
    write_varint(1, &mut buf);
    write_varint(300, &mut buf);
    write_varint(u64::MAX, &mut buf);
    let mut expected = vec![0x01, 0xAC, 0x02];
    expected.extend_from_slice(&[0xFF; 9]);
    expected.push(0x01);
    assert_eq!(buf, expected);
}

#[test]
fn varints_are_read_in_shortest_form_only() {
    assert_eq!(parse_varint(&[0x07, 0xAC, 0x02], 1), Some((300, 3)));
    assert_eq!(parse_varint(&[0x00], 0), Some((0, 1)));
    assert_eq!(parse_varint(&[0x80, 0x00], 0), None);
    assert_eq!(parse_varint(&[0x80], 0), None);
    assert_eq!(parse_varint(&[], 0), None);
}

#[test]
fn echo_request_bytes() {
    assert_eq!(encode_request(&echo_request("Hi")), vec![0x0A, 0x04, 0x0A, 0x02, b'H', b'i']);
    assert_eq!(encode_request(&echo_request("")), vec![0x0A, 0x00]);
    assert_eq!(encode_request(&ClientMessage { message: None }), Vec::<u8>::new());
}

#[test]
fn add_request_bytes() {
    let m = ClientMessage { message: Some(client_message::Message::AddRequest(AddRequest { a: 10, b: 20 })) };
    assert_eq!(encode_request(&m), vec![0x12, 0x04, 0x08, 10, 0x10, 20]);
    let zero_a = ClientMessage { message: Some(client_message::Message::AddRequest(AddRequest { a: 0, b: 5 })) };
    assert_eq!(encode_request(&zero_a), vec![0x12, 0x02, 0x10, 5]);
    let neg = ClientMessage { message: Some(client_message::Message::AddRequest(AddRequest { a: -1, b: 0 })) };
    let mut expected = vec![0x12, 0x0B, 0x08];
    expected.extend_from_slice(&[0xFF; 9]);
    expected.push(0x01);
    assert_eq!(encode_request(&neg), expected);
}

#[test]
fn response_bytes() {
    let m = ServerMessage { message: Some(server_message::Message::AddResponse(AddResponse { result: 30 })) };
    assert_eq!(encode_response(&m), vec![0x12, 0x02, 0x08, 30]);
    let e = ServerMessage {
        message: Some(server_message::Message::EchoMessage(EchoMessage { content: "ok".to_string() })),
    };
    assert_eq!(encode_response(&e), vec![0x0A, 0x04, 0x0A, 0x02, b'o', b'k']);
}

#[test]
fn requests_round_trip() {
    let requests = vec![
        echo_request(""),
        echo_request("Hello, World!"),
        echo_request("ünïcødé ✓ 𝄞"),
        ClientMessage { message: None },
        ClientMessage { message: Some(client_message::Message::AddRequest(AddRequest { a: i32::MIN, b: i32::MAX })) },
        ClientMessage { message: Some(client_message::Message::AddRequest(AddRequest { a: 0, b: 0 })) },
    ];
    for m in requests {
        assert_eq!(decode_request(&encode_request(&m)), Ok(m));
    }
}

#[test]
fn responses_round_trip() {
    let responses = vec![
        ServerMessage { message: None },
        ServerMessage { message: Some(server_message::Message::AddResponse(AddResponse { result: -123456 })) },
        ServerMessage {
            message: Some(server_message::Message::EchoMessage(EchoMessage { content: "x".repeat(300) })),
        },
    ];
    for m in responses {
        assert_eq!(decode_response(&encode_response(&m)), Ok(m));
    }
}

#[test]
fn non_canonical_or_broken_bytes_are_rejected() {
    // Truncated body.
    assert_eq!(decode_request(&[0x0A, 0x04, 0x0A, 0x02, b'H']), Err(DecodeError));
    // Zero written out instead of left out.
    assert_eq!(decode_request(&[0x12, 0x02, 0x08, 0x00]), Err(DecodeError));
    // Invalid UTF-8 in an echo.
    assert_eq!(decode_request(&[0x0A, 0x03, 0x0A, 0x01, 0xC3]), Err(DecodeError));
    // An integer outside the 32-bit range.
    assert_eq!(decode_request(&[0x12, 0x06, 0x08, 0x80, 0x80, 0x80, 0x80, 0x08]), Err(DecodeError));
    // Trailing bytes.
    assert_eq!(decode_response(&[0x12, 0x02, 0x08, 0x01, 0x00]), Err(DecodeError));
    // Unknown envelope field.
    assert_eq!(decode_response(&[0x1A, 0x00]), Err(DecodeError));
}
