use hexpng::response::{decimal, response, STATUS_NOT_FOUND, STATUS_OK};

#[test]
fn decimal_digits_of_small_numbers() {
    assert_eq!(decimal(0), b"0".to_vec());
    assert_eq!(decimal(7), b"7".to_vec());
    assert_eq!(decimal(9), b"9".to_vec());
    assert_eq!(decimal(10), b"10".to_vec());
    assert_eq!(decimal(99), b"99".to_vec());
    assert_eq!(decimal(100), b"100".to_vec());
    assert_eq!(decimal(1205), b"1205".to_vec());
}

#[test]
fn decimal_digits_agree_with_the_standard_formatter() {
    for &n in &[0usize, 1, 19, 20, 101, 4096, 65535, 1000000, 123456789, usize::MAX] {
        assert_eq!(decimal(n), format!("{}", n).into_bytes());
    }
}

#[test]
fn status_lines_are_the_known_text() {
    assert_eq!(&STATUS_OK[..], b"HTTP/1.0 200 OK");
    assert_eq!(&STATUS_NOT_FOUND[..], b"HTTP/1.0 400 NOT FOUND");
}

#[test]
fn answer_with_a_body() {
    assert_eq!(
        response(&STATUS_OK, b"hello"),
        b"HTTP/1.0 200 OK\r\nContent-Length: 5\r\n\r\nhello".to_vec()
    );
    let body = vec![b'x'; 123];
    let bytes = response(&STATUS_NOT_FOUND, &body);
    let head = b"HTTP/1.0 400 NOT FOUND\r\nContent-Length: 123\r\n\r\n";
    assert_eq!(&bytes[..head.len()], &head[..]);
    assert_eq!(&bytes[head.len()..], &body[..]);
}

#[test]
fn answer_without_a_body() {
    assert_eq!(response(&STATUS_OK, b""), b"HTTP/1.0 200 OK\r\nContent-Length: 0\r\n\r\n".to_vec());
    assert_eq!(response(b"", b""), b"\r\nContent-Length: 0\r\n\r\n".to_vec());
}

#[test]
fn answer_agrees_with_the_standard_formatter() {
    let body: Vec<u8> = (0u8..=255).collect();
    let status = "HTTP/1.0 200 OK";
    let length = body.len();
    let mut expected = format!("{status}\r\nContent-Length: {length}\r\n\r\n").into_bytes();
    expected.extend_from_slice(&body);
    assert_eq!(response(status.as_bytes(), &body), expected);
}
