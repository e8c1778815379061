use pairings::permission::Permission;
use pairings::tlv::{decode, encode, TlvError, Value};

fn id_value(text: &str) -> Value {
    Value::Identifier(text.as_bytes().to_vec())
}

#[test]
fn encode_simple_container() {
    let container = vec![Value::State(1), Value::Method(3)];
    let bytes = encode(&container);
    assert_eq!(bytes, vec![6, 1, 1, 0, 1, 3]);
}

#[test]
fn encode_empty_value_and_separator() {
    let container = vec![Value::Separator];
    let bytes = encode(&container);
    assert_eq!(bytes, vec![255, 0]);
}

#[test]
fn round_trip_small_container() {
    let container = vec![
        Value::State(1),
        Value::Method(4),
        id_value("abc"),
        Value::Permissions(Permission::Admin),
    ];
    let bytes = encode(&container);
    let map = decode(&bytes).unwrap();
    assert_eq!(map.get(6).unwrap(), &vec![1]);
    assert_eq!(map.get(0).unwrap(), &vec![4]);
    assert_eq!(map.get(1).unwrap(), b"abc".as_slice());
    assert_eq!(map.get(11).unwrap(), &vec![1]);
    assert!(map.get(3).is_none());
}

#[test]
fn round_trip_fragmented_value() {
    let long: Vec<u8> = (0..600).map(|i| (i % 251) as u8).collect();
    let container = vec![Value::State(1), Value::PublicKey(long.clone())];
    let bytes = encode(&container);
    // 600 bytes travel as fragments of 255, 255 and 90 bytes.
    assert_eq!(bytes.len(), 2 + 1 + 3 * 2 + 600);
    let map = decode(&bytes).unwrap();
    assert_eq!(map.get(3).unwrap(), &long);
    assert_eq!(map.get(6).unwrap(), &vec![1]);
}

#[test]
fn exact_multiple_ends_with_empty_fragment() {
    let long: Vec<u8> = vec![7; 255];
    let container = vec![Value::PublicKey(long.clone())];
    let bytes = encode(&container);
    // One full fragment, then an empty one to end fragmentation.
    assert_eq!(bytes.len(), 2 + 255 + 2);
    assert_eq!(bytes[0], 3);
    assert_eq!(bytes[1], 255);
    assert_eq!(bytes[257], 3);
    assert_eq!(bytes[258], 0);
    let map = decode(&bytes).unwrap();
    assert_eq!(map.get(3).unwrap(), &long);
}

#[test]
fn decode_concatenates_same_type_runs() {
    // Two fragments of type 1 with another item between them: the mapping
    // still concatenates them in order.
    let bytes = vec![1, 2, b'a', b'b', 6, 1, 1, 1, 1, b'c'];
    let map = decode(&bytes).unwrap();
    assert_eq!(map.get(1).unwrap(), b"abc".as_slice());
    assert_eq!(map.get(6).unwrap(), &vec![1]);
}

#[test]
fn decode_truncated_length_fails() {
    assert!(matches!(decode(&[6]), Err(TlvError::Unknown)));
}

#[test]
fn decode_truncated_value_fails() {
    assert!(matches!(decode(&[6, 5, 1, 2]), Err(TlvError::Unknown)));
}

#[test]
fn decode_empty_stream_is_empty_map() {
    let map = decode(&[]).unwrap();
    assert!(map.get(6).is_none());
}
