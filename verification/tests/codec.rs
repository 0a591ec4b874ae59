use lib_setup::datetime::DateTime;
use lib_setup::errors::TransferError;
use lib_setup::file_info::FileInfo;
use lib_setup::message::Message;

fn fixed_datetime() -> DateTime {
    DateTime {
        year: "2025".to_string(),
        month: "7".to_string(),
        day: "25".to_string(),
        time: "07:04:58".to_string(),
    }
}

#[test]
fn datetime_to_string_joins_fields_with_spaces() {
    let dt = fixed_datetime();
    assert_eq!(dt.to_string(), "2025 7 25 07:04:58");
}

#[test]
fn datetime_encode_is_utf8_of_joined_fields() {
    let dt = fixed_datetime();
    assert_eq!(dt.encode(), "2025 7 25 07:04:58".as_bytes().to_vec());
}

#[test]
fn datetime_decode_reproduces_fields() {
    let dt = fixed_datetime();
    let decoded = DateTime::decode(dt.encode()).unwrap();
    assert_eq!(decoded.year, "2025");
    assert_eq!(decoded.month, "7");
    assert_eq!(decoded.day, "25");
    assert_eq!(decoded.time, "07:04:58");
}

#[test]
fn datetime_decode_rejects_wrong_field_count() {
    let r = DateTime::decode(b"2025 7 25".to_vec());
    assert_eq!(r.unwrap_err(), TransferError::ProtocolError);
    let r = DateTime::decode(b"2025 7 25 07:04:58 extra".to_vec());
    assert_eq!(r.unwrap_err(), TransferError::ProtocolError);
}

#[test]
fn datetime_decode_rejects_invalid_utf8() {
    let r = DateTime::decode(vec![0xff, 0xfe, 0x20, 0x20, 0x20]);
    assert_eq!(r.unwrap_err(), TransferError::ProtocolError);
}

#[test]
fn envelope_round_trip() {
    let dt = fixed_datetime();
    let fi = FileInfo::new(42, "n.log".to_string(), dt);
    let bytes = fi.encode();
    let (decoded, used) = FileInfo::decode(&bytes).unwrap();
    assert_eq!(used, bytes.len());
    assert_eq!(decoded._type, 101);
    assert_eq!(decoded.f_len, 42);
    assert_eq!(decoded.fn_len, 5);
    assert_eq!(decoded.filename, "n.log");
    assert_eq!(decoded.dt_len, 18);
    assert_eq!(decoded.datetime.year, "2025");
    assert_eq!(decoded.datetime.month, "7");
    assert_eq!(decoded.datetime.day, "25");
    assert_eq!(decoded.datetime.time, "07:04:58");
}

#[test]
fn envelope_bytes_have_documented_layout() {
    let dt = fixed_datetime();
    let fi = FileInfo::new(42, "n.log".to_string(), dt);
    let bytes = fi.encode();
    let mut expected: Vec<u8> = Vec::new();
    expected.push(101);
    expected.extend_from_slice(&42u64.to_be_bytes());
    expected.extend_from_slice(&5u16.to_be_bytes());
    expected.extend_from_slice(b"n.log");
    expected.extend_from_slice(&18u32.to_be_bytes());
    expected.extend_from_slice(b"2025 7 25 07:04:58");
    assert_eq!(bytes, expected);
}

#[test]
fn envelope_decode_rejects_wrong_tag() {
    let dt = fixed_datetime();
    let fi = FileInfo::new(1, "a".to_string(), dt);
    let mut bytes = fi.encode();
    bytes[0] = 100;
    assert_eq!(FileInfo::decode(&bytes).unwrap_err(), TransferError::ProtocolError);
}

#[test]
fn envelope_decode_rejects_truncated_header() {
    let dt = fixed_datetime();
    let fi = FileInfo::new(1, "a".to_string(), dt);
    let bytes = fi.encode();
    let cut = &bytes[..bytes.len() - 1].to_vec();
    assert_eq!(FileInfo::decode(cut).unwrap_err(), TransferError::ProtocolError);
}

#[test]
fn message_frame_has_documented_layout() {
    let m = Message::new("hi");
    let bytes = m.encode();
    assert_eq!(bytes, vec![100, 0, 0, 0, 2, b'h', b'i']);
}

#[test]
fn empty_message_frame_is_header_only() {
    let m = Message::new("");
    assert_eq!(m.encode(), vec![100, 0, 0, 0, 0]);
}

#[test]
fn datetime_decode_keeps_empty_fields() {
    // Two adjacent spaces yield an empty field, as splitting does.
    let dt = DateTime::decode(b"a  b c".to_vec()).unwrap();
    assert_eq!(dt.year, "a");
    assert_eq!(dt.month, "");
    assert_eq!(dt.day, "b");
    assert_eq!(dt.time, "c");
}
