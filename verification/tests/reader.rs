use lib_setup::errors::TransferError;
use lib_setup::message::Message;
use lib_setup::message_reader::MessageReader;

fn contents(msgs: Vec<Message>) -> Vec<String> {
    msgs.into_iter().map(|m| m.content).collect()
}

#[test]
fn one_chunk_many_frames() {
    let mut bytes = Message::new("start").encode();
    bytes.extend(Message::new("syslog").encode());
    bytes.extend(Message::new("exit").encode());
    let mut reader = MessageReader::new();
    let msgs = reader.read(&bytes).unwrap();
    assert_eq!(contents(msgs), vec!["start", "syslog", "exit"]);
}

#[test]
fn reassembly_across_arbitrary_chunks() {
    // The same frame stream, split at every possible boundary in turn,
    // yields the same messages — including splits inside the length prefix.
    let mut bytes = Message::new("stop").encode();
    bytes.extend(Message::new("").encode());
    bytes.extend(Message::new("a longer free-form command").encode());
    for cut1 in 0..bytes.len() {
        for cut2 in [cut1, cut1 + 2, bytes.len() - 1] {
            let cut2 = cut2.clamp(cut1, bytes.len());
            let mut reader = MessageReader::new();
            let mut got: Vec<String> = Vec::new();
            got.extend(contents(reader.read(&bytes[..cut1]).unwrap()));
            got.extend(contents(reader.read(&bytes[cut1..cut2]).unwrap()));
            got.extend(contents(reader.read(&bytes[cut2..]).unwrap()));
            assert_eq!(got, vec!["stop", "", "a longer free-form command"]);
        }
    }
}

#[test]
fn partial_frame_is_retained_not_emitted() {
    let bytes = Message::new("pause").encode();
    let mut reader = MessageReader::new();
    let first = reader.read(&bytes[..3]).unwrap();
    assert!(first.is_empty());
    let rest = reader.read(&bytes[3..]).unwrap();
    assert_eq!(contents(rest), vec!["pause"]);
}

#[test]
fn byte_at_a_time_feeding() {
    let bytes = Message::new("continue").encode();
    let mut reader = MessageReader::new();
    let mut got: Vec<String> = Vec::new();
    for b in &bytes {
        got.extend(contents(reader.read(std::slice::from_ref(b)).unwrap()));
    }
    assert_eq!(got, vec!["continue"]);
}

#[test]
fn wrong_tag_is_a_protocol_error() {
    let mut reader = MessageReader::new();
    let r = reader.read(&[9, 0, 0, 0, 0]);
    assert_eq!(r.unwrap_err(), TransferError::ProtocolError);
}

#[test]
fn non_utf8_payload_is_a_protocol_error() {
    let mut reader = MessageReader::new();
    let r = reader.read(&[100, 0, 0, 0, 2, 0xff, 0xfe]);
    assert_eq!(r.unwrap_err(), TransferError::ProtocolError);
}
