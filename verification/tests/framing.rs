use nvda_remote::framing::LineBuffer;

#[test]
fn a_new_buffer_is_empty() {
    let buffer = LineBuffer::new();
    assert_eq!(buffer.len(), 0);
}

#[test]
fn feed_hands_out_complete_records_and_keeps_the_rest() {
    let mut buffer = LineBuffer::new();
    let records = buffer.feed(b"one\ntwo\nthr");
    assert_eq!(records, vec![b"one".to_vec(), b"two".to_vec()]);
    assert_eq!(buffer.len(), 3);
    let records = buffer.feed(b"ee\n");
    assert_eq!(records, vec![b"three".to_vec()]);
    assert_eq!(buffer.len(), 0);
}

#[test]
fn feed_without_a_newline_hands_out_nothing() {
    let mut buffer = LineBuffer::new();
    assert!(buffer.feed(b"partial").is_empty());
    assert!(buffer.feed(b"").is_empty());
    assert_eq!(buffer.len(), 7);
}

#[test]
fn empty_records_are_records() {
    let mut buffer = LineBuffer::new();
    let records = buffer.feed(b"\n\na\n");
    assert_eq!(records, vec![Vec::new(), Vec::new(), b"a".to_vec()]);
}

#[test]
fn a_carriage_return_belongs_to_the_record() {
    let mut buffer = LineBuffer::new();
    let records = buffer.feed(b"a\r\n");
    assert_eq!(records, vec![b"a\r".to_vec()]);
}

#[test]
fn clear_drops_what_waits() {
    let mut buffer = LineBuffer::new();
    buffer.feed(b"half");
    buffer.clear();
    assert_eq!(buffer.len(), 0);
    assert_eq!(buffer.feed(b"x\n"), vec![b"x".to_vec()]);
}
