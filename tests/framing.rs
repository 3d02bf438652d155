use send::errors::SerializationError;
use send::framing::{FileMessage, MessageReader, ReadProgress};

fn read(stream: &[u8]) -> Result<(String, u32, usize), SerializationError> {
    FileMessage::read(stream).map(|(m, k)| (m.name().to_string(), m.size(), k))
}

#[test]
fn header_layout_is_big_endian() {
    let header = FileMessage::new("report.txt".to_string(), 11).write();
    let mut expected = vec![0, 0, 0, 10];
    expected.extend_from_slice(b"report.txt");
    expected.extend_from_slice(&[0, 0, 0, 11]);
    assert_eq!(header, expected);
    let big = FileMessage::new("x".to_string(), 0x0102_0304).write();
    assert_eq!(big, vec![0, 0, 0, 1, b'x', 1, 2, 3, 4]);
}

#[test]
fn message_round_trips_with_its_content() {
    let mut stream = FileMessage::new("report.txt".to_string(), 11).write();
    stream.extend_from_slice(b"hello world");
    let (name, size, start) = read(&stream).ok().unwrap();
    assert_eq!(name, "report.txt");
    assert_eq!(size, 11);
    assert_eq!(&stream[start..], b"hello world");
}

#[test]
fn non_ascii_name_round_trips() {
    let stream = FileMessage::new("r\u{e9}sum\u{e9}.pdf".to_string(), 7).write();
    assert_eq!(&stream[0..4], &[0, 0, 0, 12]);
    let (name, size, start) = read(&stream).ok().unwrap();
    assert_eq!(name, "r\u{e9}sum\u{e9}.pdf");
    assert_eq!(size, 7);
    assert_eq!(start, stream.len());
}

#[test]
fn truncated_name_is_an_incomplete_read() {
    let stream = [0, 0, 0, 10, b'a', b'b', b'c', b'd'];
    assert!(matches!(read(&stream), Err(SerializationError::IncompleteRead(4, 10))));
}

fn is_end_of_stream(r: Result<(String, u32, usize), SerializationError>) -> bool {
    matches!(r, Err(SerializationError::Io(e)) if e.kind() == std::io::ErrorKind::UnexpectedEof)
}

#[test]
fn truncated_length_fields_end_the_stream() {
    assert!(is_end_of_stream(read(&[])));
    assert!(is_end_of_stream(read(&[0, 0])));
    assert!(is_end_of_stream(read(&[0, 0, 0, 0])));
    assert!(is_end_of_stream(read(&[0, 0, 0, 1, b'a', 0])));
    assert!(is_end_of_stream(read(&[0, 0, 0, 1, b'a'])));
}

#[test]
fn invalid_name_is_its_own_error() {
    let stream = [0, 0, 0, 2, 0xc3, 0x28, 0, 0, 0, 5];
    match read(&stream) {
        Err(SerializationError::InvalidName(bytes)) => assert_eq!(bytes, vec![0xc3, 0x28]),
        _ => panic!("expected an invalid name"),
    }
}

#[test]
fn empty_name_is_allowed() {
    let stream = [0, 0, 0, 0, 0, 0, 0, 3, b'a', b'b', b'c'];
    assert_eq!(read(&stream).ok().unwrap(), (String::new(), 3, 8));
}

#[test]
fn reader_asks_one_field_at_a_time() {
    let stream = FileMessage::new("a.txt".to_string(), 3).write();
    let reader = MessageReader::new();
    assert_eq!(reader.wanted(), 4);
    let reader = match reader.feed(&stream[0..4]).ok().unwrap() {
        ReadProgress::More(r) => r,
        ReadProgress::Done(_) => panic!("header is not complete"),
    };
    assert_eq!(reader.wanted(), 5);
    let reader = match reader.feed(&stream[4..9]).ok().unwrap() {
        ReadProgress::More(r) => r,
        ReadProgress::Done(_) => panic!("header is not complete"),
    };
    assert_eq!(reader.wanted(), 4);
    match reader.feed(&stream[9..13]).ok().unwrap() {
        ReadProgress::Done(m) => {
            assert_eq!(m.name(), "a.txt");
            assert_eq!(m.size(), 3);
        }
        ReadProgress::More(_) => panic!("header is complete"),
    }
}

#[test]
fn reader_reports_a_short_field() {
    let reader = MessageReader::new();
    let reader = match reader.feed(&[0, 0, 0, 10]).ok().unwrap() {
        ReadProgress::More(r) => r,
        ReadProgress::Done(_) => panic!("header is not complete"),
    };
    assert!(matches!(reader.feed(b"abcd"), Err(SerializationError::IncompleteRead(4, 10))));
}
