use cargo_ngrok::error::ScaffoldError;
use cargo_ngrok::message::{body_after_head, read_message_head, MessageHead};
use cargo_ngrok::trace::Response;

fn captured(message: &[u8]) -> Response {
    Response { status_code: 500, raw: base64::encode(message) }
}

const FULL: &[u8] = b"HTTP/1.1 500 Internal Server Error\r\ncontent-length: 18\r\n\r\nSome error message";

#[test]
fn body_follows_the_head() {
    assert_eq!(captured(FULL).get_body(), Ok("Some error message".to_string()));
}

#[test]
fn body_keeps_control_characters() {
    let msg = b"HTTP/1.1 500 Oops\r\n\r\nline one\nline\ttwo\r\n";
    assert_eq!(captured(msg).get_body(), Ok("line one\nline\ttwo\r\n".to_string()));
}

#[test]
fn empty_body_is_empty() {
    let msg = b"HTTP/1.1 204 No Content\r\n\r\n";
    assert_eq!(captured(msg).get_body(), Ok(String::new()));
}

#[test]
fn non_ascii_body_is_decoded() {
    let msg = "HTTP/1.1 200 OK\r\n\r\nh\u{e9}llo \u{2713}".as_bytes().to_vec();
    assert_eq!(captured(&msg).get_body(), Ok("h\u{e9}llo \u{2713}".to_string()));
}

#[test]
fn truncated_message_is_partial() {
    let cut = &FULL[..FULL.len() - 20];
    assert_eq!(captured(cut).get_body(), Err(ScaffoldError::PartialMessage));
    for n in 0..40 {
        assert_eq!(captured(&FULL[..n]).get_body(), Err(ScaffoldError::PartialMessage));
    }
}

#[test]
fn invalid_base64_is_rejected() {
    let r = Response { status_code: 500, raw: "not base64!".to_string() };
    assert_eq!(r.get_body(), Err(ScaffoldError::InvalidBase64));
}

#[test]
fn malformed_head_is_rejected() {
    assert_eq!(captured(b"HTTX/1.1 200 OK\r\n\r\nbody").get_body(), Err(ScaffoldError::InvalidHead));
}

#[test]
fn invalid_utf8_body_is_rejected() {
    let msg = b"HTTP/1.1 200 OK\r\n\r\n\xff\xfe";
    assert_eq!(captured(msg).get_body(), Err(ScaffoldError::InvalidUtf8));
}

#[test]
fn head_is_measured() {
    let head = b"HTTP/1.1 200 OK\r\nA: b\r\n\r\n";
    let mut msg = head.to_vec();
    msg.extend_from_slice(b"xyz");
    assert_eq!(read_message_head(&msg), MessageHead::Complete(head.len()));
    assert_eq!(read_message_head(b"HTTP/1.1 200 OK\r\n"), MessageHead::Partial);
    assert_eq!(read_message_head(b"garbage\r\n\r\n"), MessageHead::Invalid);
}

#[test]
fn body_after_each_kind_of_head() {
    let msg = b"headbody";
    assert_eq!(body_after_head(msg, MessageHead::Complete(4)), Ok("body".to_string()));
    assert_eq!(body_after_head(msg, MessageHead::Complete(8)), Ok(String::new()));
    assert_eq!(body_after_head(msg, MessageHead::Partial), Err(ScaffoldError::PartialMessage));
    assert_eq!(body_after_head(msg, MessageHead::Invalid), Err(ScaffoldError::InvalidHead));
    assert_eq!(body_after_head(b"ab\xff", MessageHead::Complete(2)), Err(ScaffoldError::InvalidUtf8));
}

#[test]
fn many_headers_are_read() {
    let mut msg = b"HTTP/1.1 500 Internal Server Error\r\n".to_vec();
    for k in 0..40 {
        msg.extend_from_slice(format!("x-header-{}: {}\r\n", k, k).as_bytes());
    }
    msg.extend_from_slice(b"\r\nbody after forty headers");
    assert_eq!(captured(&msg).get_body(), Ok("body after forty headers".to_string()));
}
