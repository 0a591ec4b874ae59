use lib_setup::datetime::DateTime;
use lib_setup::errors::TransferError;
use lib_setup::file_info::FileInfo;
use lib_setup::ingest::EnvelopeReader;

fn envelope(payload_len: u64) -> Vec<u8> {
    let dt = DateTime {
        year: "2025".to_string(),
        month: "7".to_string(),
        day: "25".to_string(),
        time: "07:04:58".to_string(),
    };
    FileInfo::new(payload_len, "n.log".to_string(), dt).encode()
}

#[test]
fn exact_length_ingestion_completes() {
    let mut stream = envelope(5);
    stream.extend_from_slice(b"hello");
    let mut reader = EnvelopeReader::new();
    let mut written: Vec<u8> = Vec::new();
    // Feed in deliberately awkward chunks, one split inside the header.
    let cuts = [0, 3, 11, stream.len() - 2, stream.len()];
    for w in cuts.windows(2) {
        written.extend(reader.feed(&stream[w[0]..w[1]]).unwrap());
    }
    assert_eq!(written, b"hello");
    assert!(reader.complete());
    let header = reader.header().as_ref().unwrap();
    assert_eq!(header.f_len, 5);
    assert_eq!(header.filename, "n.log");
}

#[test]
fn short_stream_stays_incomplete() {
    let mut stream = envelope(5);
    stream.extend_from_slice(b"hel");
    let mut reader = EnvelopeReader::new();
    let written = reader.feed(&stream).unwrap();
    assert_eq!(written, b"hel");
    assert!(!reader.complete());
}

#[test]
fn bytes_beyond_declared_length_are_dropped() {
    let mut stream = envelope(2);
    stream.extend_from_slice(b"okEXTRA");
    let mut reader = EnvelopeReader::new();
    let written = reader.feed(&stream).unwrap();
    assert_eq!(written, b"ok");
    assert!(reader.complete());
    let more = reader.feed(b"MORE").unwrap();
    assert!(more.is_empty());
}

#[test]
fn empty_payload_is_complete_at_once() {
    let stream = envelope(0);
    let mut reader = EnvelopeReader::new();
    let written = reader.feed(&stream).unwrap();
    assert!(written.is_empty());
    assert!(reader.complete());
}

#[test]
fn wrong_tag_fails_the_connection() {
    let mut stream = envelope(1);
    stream[0] = 7;
    let mut reader = EnvelopeReader::new();
    let r = reader.feed(&stream);
    assert_eq!(r.unwrap_err(), TransferError::ProtocolError);
}

#[test]
fn header_is_absent_until_parsed() {
    let stream = envelope(1);
    let mut reader = EnvelopeReader::new();
    let _ = reader.feed(&stream[..4]).unwrap();
    assert!(reader.header().is_none());
    assert!(!reader.complete());
}

#[test]
fn ingest_byte_at_a_time() {
    let mut stream = envelope(3);
    stream.extend_from_slice(b"abc");
    let mut reader = EnvelopeReader::new();
    let mut written: Vec<u8> = Vec::new();
    for b in &stream {
        written.extend(reader.feed(std::slice::from_ref(b)).unwrap());
    }
    assert_eq!(written, b"abc");
    assert!(reader.complete());
}
