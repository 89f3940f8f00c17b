use echo_add_service::client::{read_response, request_frame, ClientError};
use echo_add_service::message::client_message;
use echo_add_service::message::server_message;
use echo_add_service::message::{AddRequest, EchoMessage, ServerMessage};
use echo_add_service::server::{handle_read, HandlerAction, Skip};

/// One round trip: the client's bytes go through the server's handler and
/// the reply comes back through the client's reading.
fn exchange(message: client_message::Message) -> Result<ServerMessage, ClientError> {
    let sent = request_frame(message);
    match handle_read(&sent) {
        HandlerAction::Reply(bytes) => read_response(&bytes),
        other => panic!("no reply: {:?}", other),
    }
}

fn expect_echo(response: Result<ServerMessage, ClientError>, content: &str) {
    assert!(response.is_ok(), "Failed to receive response for EchoMessage");
    match response.unwrap().message {
        Some(server_message::Message::EchoMessage(echo)) => {
            assert_eq!(echo.content, content, "Echoed message content does not match");
        }
        _ => panic!("Expected EchoMessage, but received a different message"),
    }
}

#[test]
fn test_client_echo_message() {
    let mut echo_message = EchoMessage::default();
    echo_message.content = "Hello, World!".to_string();
    let message = client_message::Message::EchoMessage(echo_message.clone());
    expect_echo(exchange(message), &echo_message.content);
}

#[test]
fn test_multiple_echo_messages() {
    let messages = vec![
        "Hello, World!".to_string(),
        "How are you?".to_string(),
        "Goodbye!".to_string(),
    ];
    for message_content in messages {
        let mut echo_message = EchoMessage::default();
        echo_message.content = message_content.clone();
        let message = client_message::Message::EchoMessage(echo_message);
        expect_echo(exchange(message), &message_content);
    }
}

#[test]
fn test_multiple_clients() {
    let clients = 3;
    let messages = vec![
        "Hello, World!".to_string(),
        "How are you?".to_string(),
        "Goodbye!".to_string(),
    ];
    for message_content in messages {
        let mut echo_message = EchoMessage::default();
        echo_message.content = message_content.clone();
        let message = client_message::Message::EchoMessage(echo_message);
        for _ in 0..clients {
            expect_echo(exchange(message.clone()), &message_content);
        }
    }
}

#[test]
fn test_client_add_request() {
    let mut add_request = AddRequest::default();
    add_request.a = 10;
    add_request.b = 20;
    let message = client_message::Message::AddRequest(add_request);
    let response = exchange(message);
    assert!(response.is_ok(), "Failed to receive response for AddRequest");
    match response.unwrap().message {
        Some(server_message::Message::AddResponse(add_response)) => {
            assert_eq!(
                add_response.result,
                add_request.a + add_request.b,
                "AddResponse result does not match"
            );
            assert_eq!(add_response.result, 30);
        }
        _ => panic!("Expected AddResponse, but received a different message"),
    }
}

#[test]
fn test_empty_message() {
    let empty_message = client_message::Message::EchoMessage(EchoMessage { content: "".into() });
    let response = exchange(empty_message);
    assert!(response.is_ok(), "Failed to receive response for empty message");
    match response.unwrap().message {
        Some(server_message::Message::EchoMessage(echo)) => {
            assert_eq!(echo.content, "", "Empty message content does not match");
        }
        _ => panic!("Expected EchoMessage, received something else"),
    }
}

#[test]
fn test_server_high_load() {
    let num_clients = 50;
    for _ in 0..num_clients {
        for j in 0..10 {
            let content = format!("Load test message {}", j);
            let message = client_message::Message::EchoMessage(EchoMessage { content: content.clone() });
            expect_echo(exchange(message), &content);
        }
    }
}

#[test]
fn test_concurrent_clients() {
    let num_clients = 10;
    for i in 0..num_clients {
        let message = client_message::Message::EchoMessage(EchoMessage {
            content: format!("Hello from client {}", i),
        });
        expect_echo(exchange(message), &format!("Hello from client {}", i));
    }
}

#[test]
fn test_single_client_multiple_requests() {
    let num_requests = 5;
    for i in 0..num_requests {
        let message = client_message::Message::EchoMessage(EchoMessage {
            content: format!("Request {}", i),
        });
        expect_echo(exchange(message), &format!("Request {}", i));
    }
}

#[test]
fn echo_of_arbitrary_unicode_comes_back_unchanged() {
    for content in ["", "a", "héllo wörld", "日本語テキスト", "emoji 🦀🚀", "tab\tnew\nline\0nul"] {
        let message = client_message::Message::EchoMessage(EchoMessage { content: content.to_string() });
        expect_echo(exchange(message), content);
    }
}

#[test]
fn addition_wraps_around_on_overflow() {
    let cases: [(i32, i32, i32); 6] = [
        (i32::MAX, 1, i32::MIN),
        (i32::MIN, -1, i32::MAX),
        (i32::MAX, i32::MAX, -2),
        (-7, 3, -4),
        (0, 0, 0),
        (i32::MIN, i32::MIN, 0),
    ];
    for (a, b, expected) in cases {
        let message = client_message::Message::AddRequest(AddRequest { a, b });
        match exchange(message).unwrap().message {
            Some(server_message::Message::AddResponse(r)) => assert_eq!(r.result, expected),
            _ => panic!("Expected AddResponse"),
        }
    }
}

#[test]
fn malformed_bytes_get_no_reply_and_keep_the_connection() {
    let inputs: [&[u8]; 6] = [
        &[0xFF],
        &[0x0A],
        &[0x0A, 0x05, 0x0A],
        &[0x18, 0x01],
        &[0x0A, 0x02, 0x0A, 0x00],
        &[0x0A, 0x03, 0x0A, 0x01, 0xFF],
    ];
    for data in inputs {
        match handle_read(data) {
            HandlerAction::Ignore(Skip::Malformed) => {}
            other => panic!("expected a skipped read, got {:?}", other),
        }
    }
    // The handler keeps serving after a malformed read.
    let message = client_message::Message::EchoMessage(EchoMessage { content: "still here".to_string() });
    expect_echo(exchange(message), "still here");
}

#[test]
fn zero_bytes_read_closes_the_connection() {
    assert!(matches!(handle_read(&[]), HandlerAction::Close));
}

#[test]
fn client_reports_disconnect_and_malformed_replies() {
    assert_eq!(read_response(&[]).unwrap_err(), ClientError::PeerDisconnected);
    assert_eq!(read_response(&[0x12, 0x05, 0x08]).unwrap_err(), ClientError::Malformed);
    assert_eq!(read_response(&[0x1A, 0x00]).unwrap_err(), ClientError::Malformed);
}
