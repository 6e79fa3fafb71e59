use vertex_store::codec::{decode_labels, encode_key, encode_label, encode_labels, CodecError, Component};
use vertex_store::model::Gid;
use vertex_store::repository::vertex_key;

fn strings(v: &[&str]) -> Vec<String> {
    v.iter().map(|s| s.to_string()).collect()
}

#[test]
fn encode_label_prefixes_length() {
    assert_eq!(encode_label(&"person".to_string()), Ok(vec![6, b'p', b'e', b'r', b's', b'o', b'n']));
}

#[test]
fn encode_labels_concatenates_records() {
    let bytes = encode_labels(&strings(&["ab", "", "c"])).unwrap();
    assert_eq!(bytes, vec![2, b'a', b'b', 0, 1, b'c']);
}

#[test]
fn encode_labels_empty_list_is_empty() {
    assert_eq!(encode_labels(&vec![]), Ok(vec![]));
}

#[test]
fn encode_counts_utf8_bytes() {
    assert_eq!(encode_label(&"é".to_string()), Ok(vec![2, 0xc3, 0xa9]));
}

#[test]
fn round_trip_keeps_order() {
    let labels = strings(&["person", "admin", "", "ünïcode"]);
    let bytes = encode_labels(&labels).unwrap();
    assert_eq!(decode_labels(&bytes), Ok(labels));
}

#[test]
fn label_of_255_bytes_round_trips() {
    let label = "x".repeat(255);
    let bytes = encode_labels(&vec![label.clone()]).unwrap();
    assert_eq!(bytes.len(), 256);
    assert_eq!(bytes[0], 255);
    assert_eq!(decode_labels(&bytes), Ok(vec![label]));
}

#[test]
fn label_of_256_bytes_is_rejected() {
    let label = "x".repeat(256);
    assert_eq!(encode_label(&label), Err(CodecError::LabelTooLong));
    assert_eq!(encode_labels(&vec!["ok".to_string(), label]), Err(CodecError::LabelTooLong));
}

#[test]
fn decode_truncated_record_fails() {
    assert_eq!(decode_labels(&vec![3, b'a', b'b']), Err(CodecError::Truncated));
    assert_eq!(decode_labels(&vec![1, b'a', 5]), Err(CodecError::Truncated));
}

#[test]
fn decode_invalid_utf8_fails() {
    assert_eq!(decode_labels(&vec![1, 0xff]), Err(CodecError::InvalidUtf8));
}

#[test]
fn decode_empty_is_no_labels() {
    assert_eq!(decode_labels(&vec![]), Ok(vec![]));
}


#[test]
fn encode_key_concatenates_components() {
    let key = encode_key(&vec![
        Component::Gid(Gid::from_bytes(vec![9, 8])),
        Component::Label("ab".to_string()),
        Component::Length(3),
    ]);
    assert_eq!(key, Ok(vec![9, 8, 2, b'a', b'b', 3]));
}

#[test]
fn encode_key_of_gid_alone_is_its_bytes() {
    assert_eq!(encode_key(&vec![Component::Gid(Gid::from_string("v1"))]), Ok(b"v1".to_vec()));
    assert_eq!(encode_key(&vec![]), Ok(vec![]));
}

#[test]
fn encode_key_refuses_oversized_parts() {
    assert_eq!(encode_key(&vec![Component::Length(256)]), Err(CodecError::LengthTooLarge));
    assert_eq!(encode_key(&vec![Component::Length(255)]), Ok(vec![255]));
    assert_eq!(encode_key(&vec![Component::Label("z".repeat(256))]), Err(CodecError::LabelTooLong));
}

#[test]
fn vertex_key_is_gid_bytes() {
    assert_eq!(vertex_key(&Gid::from_bytes(vec![0, 255, 3])), vec![0, 255, 3]);
}
