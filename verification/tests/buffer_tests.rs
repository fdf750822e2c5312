use crustty::buffer::TermBuffer;

#[test]
fn appends_concatenate() {
    let mut buf = TermBuffer::new();
    assert_eq!(buf.snapshot(), "");
    buf.append_str("Hello");
    let mid = buf.snapshot();
    assert_eq!(mid, "Hello");
    buf.append_str(", ");
    buf.append_str("World!");
    assert_eq!(buf.snapshot(), "Hello, World!");
    // The earlier snapshot is a clone: reading never disturbed the buffer.
    assert_eq!(mid, "Hello");
}

#[test]
fn append_bytes_decodes_utf8() {
    let mut buf = TermBuffer::new();
    buf.append_bytes("h\u{e9}llo".as_bytes());
    assert_eq!(buf.snapshot(), "h\u{e9}llo");
}

#[test]
fn append_bytes_invalid_utf8_substitutes() {
    let mut buf = TermBuffer::new();
    buf.append_bytes(&[0x61, 0xff, 0x62]);
    assert_eq!(buf.snapshot(), "a\u{fffd}b");
}

#[test]
fn append_bytes_empty_is_noop() {
    let mut buf = TermBuffer::new();
    buf.append_str("x");
    buf.append_bytes(&[]);
    assert_eq!(buf.snapshot(), "x");
}
