use marser::input::{Input, InputStream};

#[test]
fn str_try_consume_prefix_advances_pos() {
    let mut stream = InputStream::new("hello");
    assert_eq!(stream.try_consume_prefix_bytes(b"hel"), Some(true));
    assert_eq!(stream.get_pos(), 3);
    assert_eq!(stream.try_consume_prefix_bytes(b"lo"), Some(true));
    assert_eq!(stream.get_pos(), 5);
}

#[test]
fn str_try_consume_prefix_mismatch_returns_false() {
    let mut stream = InputStream::new("hello");
    assert_eq!(stream.try_consume_prefix_bytes(b"hi"), Some(false));
    assert_eq!(stream.get_pos(), 0);
}

#[test]
fn str_try_consume_empty_prefix_is_true() {
    let mut stream = InputStream::new("x");
    assert_eq!(stream.try_consume_prefix_bytes(b""), Some(true));
    assert_eq!(stream.get_pos(), 0);
}

#[test]
fn byte_stream_try_consume_byte_prefix() {
    let buf: &[u8] = b"nulltail";
    let mut stream = InputStream::new(buf);
    assert!(stream.try_consume_byte_prefix(b"null"));
    assert_eq!(stream.get_pos(), 4);
    assert!(!stream.try_consume_byte_prefix(b"nomatch"));
    assert_eq!(stream.get_pos(), 4);
}

#[test]
fn str_try_consume_non_ascii_prefix_returns_none() {
    let mut stream = InputStream::new("x");
    assert_eq!(stream.try_consume_prefix_bytes(&[0xC3, 0xA9]), None);
    assert_eq!(stream.get_pos(), 0);
}

#[test]
fn str_input_try_consume_via_trait() {
    let mut s: &str = "abc";
    let mut pos = 0usize;
    assert_eq!(
        Input::try_consume_prefix_bytes(&mut s, &mut pos, b"ab"),
        Some(true)
    );
    assert_eq!(pos, 2);
}

#[test]
fn str_try_consume_prefix_past_end_is_mismatch() {
    let mut stream = InputStream::new("hello");
    assert_eq!(stream.try_consume_prefix_bytes(b"hel"), Some(true));
    assert_eq!(stream.try_consume_prefix_bytes(b"lon"), Some(false));
    assert_eq!(stream.get_pos(), 3);
}
