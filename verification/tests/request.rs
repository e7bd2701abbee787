use zhtta::request::{requested_path, Failure, REQUEST_LIMIT};

fn padded(request: &[u8]) -> Vec<u8> {
    let mut buffer = request.to_vec();
    buffer.resize(REQUEST_LIMIT, 0);
    buffer
}

#[test]
fn the_path_is_the_second_word() {
    let buffer = padded(b"GET /index.html HTTP/1.1\r\nHost: localhost\r\n\r\n");
    assert_eq!(requested_path(&buffer), Ok(Some("./index.html".to_string())));
    assert_eq!(requested_path(b"GET / HTTP/1.1"), Ok(Some("./".to_string())));
    assert_eq!(requested_path(b"a  b"), Ok(Some(".".to_string())));
    assert_eq!(requested_path("GET /é x".as_bytes()), Ok(Some("./é".to_string())));
}

#[test]
fn a_request_of_fewer_words_names_no_path() {
    assert_eq!(requested_path(&padded(b"")), Ok(None));
    assert_eq!(requested_path(&padded(b"GET")), Ok(None));
    assert_eq!(requested_path(&padded(b"GET /index.html")), Ok(None));
}

#[test]
fn a_request_that_is_no_text_fails() {
    assert_eq!(requested_path(b"GET /\xff x"), Err(Failure::NotUtf8));
    assert_eq!(requested_path(b"GET / x\xe2\x82"), Err(Failure::NotUtf8));
}

#[test]
fn a_path_with_a_nul_character_fails() {
    assert_eq!(requested_path(b"GET /a\0b HTTP/1.1"), Err(Failure::NulInPath));
    assert_eq!(requested_path(b"G\0T /ab H\0"), Ok(Some("./ab".to_string())));
}
