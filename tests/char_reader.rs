use alumina::char_reader::{CharReader, CharReaderError};

#[test]
fn buildable() {
    let bytes: &[u8] = &[0, 0, 0, 0, 0];
    let char_reader = CharReader::new(bytes);

    assert_eq!(char_reader.capacity(), 5000);
}

#[test]
fn decodes_refilled_bytes() {
    let mut reader = CharReader::with_capacity(16, ());
    assert!(reader.needs_input());
    reader.refill("aé€".as_bytes());
    assert_eq!(reader.spare(), 16 - 6);
    assert_eq!(reader.next_char().unwrap(), 'a');
    assert_eq!(reader.next_char().unwrap(), 'é');
    assert_eq!(reader.next_char().unwrap(), '€');
    assert!(matches!(reader.next_char(), Err(CharReaderError::ReachedEOF)));
}

#[test]
fn keeps_pending_bytes_across_refills() {
    let mut reader = CharReader::with_capacity(8, ());
    reader.refill(b"abcdef");
    assert_eq!(reader.next_char().unwrap(), 'a');
    assert_eq!(reader.next_char().unwrap(), 'b');
    reader.refill(b"gh");
    let mut text = String::new();
    while let Ok(c) = reader.next_char() {
        text.push(c);
    }
    assert_eq!(text, "cdefgh");
}

#[test]
fn rejects_invalid_utf8() {
    let mut reader = CharReader::with_capacity(8, ());
    reader.refill(&[0xff, 0x41]);
    assert!(matches!(reader.next_char(), Err(CharReaderError::InvalidData)));
}
