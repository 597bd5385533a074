use ipc_channel::channel;
use ipc_channel::decode_message;
use ipc_channel::encode_message;
use ipc_channel::IpcSender;
use ipc_channel::Payload;
use ipc_channel::RecvError;
use ipc_channel::Value;

fn le64(n: u64) -> Vec<u8> {
    n.to_le_bytes().to_vec()
}

#[test]
fn round_trip_int() {
    let v = Value::Int(42);
    let (bytes, handles) = encode_message(&v);
    match decode_message(&bytes, &handles) {
        Ok(Value::Int(n)) => assert_eq!(n, 42),
        _ => panic!("expected the integer back"),
    }
}

#[test]
fn round_trip_int_max() {
    let v = Value::Int(u64::MAX);
    let (bytes, handles) = encode_message(&v);
    match decode_message(&bytes, &handles) {
        Ok(Value::Int(n)) => assert_eq!(n, u64::MAX),
        _ => panic!("expected the integer back"),
    }
}

#[test]
fn round_trip_string() {
    let v = Value::Str(String::from("hello κόσμε ✓"));
    let (bytes, handles) = encode_message(&v);
    match decode_message(&bytes, &handles) {
        Ok(Value::Str(s)) => assert_eq!(s, "hello κόσμε ✓"),
        _ => panic!("expected the string back"),
    }
}

#[test]
fn round_trip_empty_string() {
    let v = Value::Str(String::new());
    let (bytes, handles) = encode_message(&v);
    assert_eq!(handles.len(), 0);
    match decode_message(&bytes, &handles) {
        Ok(Value::Str(s)) => assert_eq!(s, ""),
        _ => panic!("expected the empty string back"),
    }
}

#[test]
fn round_trip_empty_list() {
    let v = Value::List(Vec::new());
    let (bytes, handles) = encode_message(&v);
    let mut expected = vec![2u8];
    expected.extend(le64(0));
    assert_eq!(bytes, expected);
    match decode_message(&bytes, &handles) {
        Ok(Value::List(vs)) => assert_eq!(vs.len(), 0),
        _ => panic!("expected the empty list back"),
    }
}

#[test]
fn round_trip_nested() {
    let v = Value::List(vec![
        Value::Int(1),
        Value::Str(String::from("ab")),
        Value::List(vec![Value::Int(2), Value::List(vec![])]),
    ]);
    let (bytes, handles) = encode_message(&v);
    assert_eq!(handles.len(), 0);
    match decode_message(&bytes, &handles) {
        Ok(Value::List(vs)) => {
            assert_eq!(vs.len(), 3);
            match &vs[0] {
                Value::Int(n) => assert_eq!(*n, 1),
                _ => panic!("first element"),
            }
            match &vs[1] {
                Value::Str(s) => assert_eq!(s, "ab"),
                _ => panic!("second element"),
            }
            match &vs[2] {
                Value::List(inner) => {
                    assert_eq!(inner.len(), 2);
                    match &inner[0] {
                        Value::Int(n) => assert_eq!(*n, 2),
                        _ => panic!("inner first"),
                    }
                },
                _ => panic!("third element"),
            }
        },
        _ => panic!("expected the list back"),
    }
}

#[test]
fn wire_layout_int() {
    let (bytes, handles) = encode_message(&Value::Int(42));
    let mut expected = vec![0u8];
    expected.extend(le64(42));
    assert_eq!(bytes, expected);
    assert_eq!(handles.len(), 0);
}

#[test]
fn wire_layout_string() {
    let (bytes, _) = encode_message(&Value::Str(String::from("A")));
    let mut expected = vec![1u8];
    expected.extend(le64(1));
    expected.extend(vec![65u8, 0, 0, 0]);
    assert_eq!(bytes, expected);
}

#[test]
fn decode_empty_payload_is_malformed() {
    let bytes: Vec<u8> = Vec::new();
    let handles = Vec::new();
    assert_eq!(decode_message(&bytes, &handles).err(), Some(RecvError::Decode));
}

#[test]
fn decode_unknown_tag_is_malformed() {
    let mut bytes = vec![9u8];
    bytes.extend(le64(0));
    let handles = Vec::new();
    assert_eq!(decode_message(&bytes, &handles).err(), Some(RecvError::Decode));
}

#[test]
fn decode_trailing_bytes_is_malformed() {
    let (mut bytes, handles) = encode_message(&Value::Int(7));
    bytes.push(0);
    assert_eq!(decode_message(&bytes, &handles).err(), Some(RecvError::Decode));
}

#[test]
fn decode_truncated_string_is_malformed() {
    // claims one character but carries no bytes for it
    let mut bytes = vec![1u8];
    bytes.extend(le64(1));
    let handles = Vec::new();
    assert_eq!(decode_message(&bytes, &handles).err(), Some(RecvError::Decode));
}

#[test]
fn decode_surrogate_scalar_is_malformed() {
    // one character whose 32-bit value falls in the surrogate range
    let mut bytes = vec![1u8];
    bytes.extend(le64(1));
    bytes.extend(0xD800u32.to_le_bytes().to_vec());
    let handles = Vec::new();
    assert_eq!(decode_message(&bytes, &handles).err(), Some(RecvError::Decode));
}

#[test]
fn out_of_range_index_is_reported() {
    // a capability index with no matching entry in the handle list
    let mut bytes = vec![3u8];
    bytes.extend(le64(5));
    let handles = Vec::new();
    assert_eq!(
        decode_message(&bytes, &handles).err(),
        Some(RecvError::HandleIndexOutOfRange)
    );
}

#[test]
fn index_determinism() {
    let (a_tx, a_rx) = channel::<u64>().unwrap();
    let (b_tx, b_rx) = channel::<u64>().unwrap();
    let v = Value::List(vec![a_tx.to_value(), b_tx.to_value()]);
    let (bytes, handles) = encode_message(&v);
    assert_eq!(handles.len(), 2);
    // first-encountered endpoint gets index 0, the second index 1
    let mut expected = vec![2u8];
    expected.extend(le64(2));
    expected.push(3u8);
    expected.extend(le64(0));
    expected.push(3u8);
    expected.extend(le64(1));
    assert_eq!(bytes, expected);
    // decoding resolves index 0 to the first endpoint, index 1 to the second
    match decode_message(&bytes, &handles) {
        Ok(Value::List(vs)) => {
            let mut it = vs.into_iter();
            let s0 = <IpcSender<u64> as Payload>::from_value(it.next().unwrap()).unwrap();
            let s1 = <IpcSender<u64> as Payload>::from_value(it.next().unwrap()).unwrap();
            s0.send(7).unwrap();
            s1.send(8).unwrap();
            assert_eq!(a_rx.recv(), Ok(7));
            assert_eq!(b_rx.recv(), Ok(8));
        },
        _ => panic!("expected a list of two endpoints"),
    }
}

#[test]
fn decode_payload_of_wrong_type_fails() {
    let (bytes, handles) = encode_message(&Value::Str(String::from("x")));
    let r: Result<u64, RecvError> = ipc_channel::decode_payload(&bytes, &handles);
    assert_eq!(r, Err(RecvError::Decode));
}

#[test]
fn decode_short_list_is_malformed() {
    // claims two elements but carries only one
    let mut bytes = vec![2u8];
    bytes.extend(le64(2));
    bytes.push(0u8);
    bytes.extend(le64(7));
    let handles = Vec::new();
    assert_eq!(decode_message(&bytes, &handles).err(), Some(RecvError::Decode));
}

#[test]
fn round_trip_boundary_character() {
    let v = Value::Str(String::from("\u{10FFFF}\u{E000}\u{D7FF}"));
    let (bytes, handles) = encode_message(&v);
    match decode_message(&bytes, &handles) {
        Ok(Value::Str(s)) => assert_eq!(s, "\u{10FFFF}\u{E000}\u{D7FF}"),
        _ => panic!("expected the string back"),
    }
}

#[test]
fn endpoint_position_in_structure_is_irrelevant() {
    // the endpoint sits after plain fields and inside a nested list; its
    // index still counts from the front of the capability list
    let (tx, rx) = channel::<u64>().unwrap();
    let v = Value::List(vec![
        Value::Int(1),
        Value::List(vec![Value::Str(String::from("x")), tx.to_value()]),
    ]);
    let (bytes, handles) = encode_message(&v);
    assert_eq!(handles.len(), 1);
    match decode_message(&bytes, &handles) {
        Ok(Value::List(vs)) => match vs.into_iter().nth(1) {
            Some(Value::List(inner)) => {
                let carried = inner.into_iter().nth(1).unwrap();
                let s = <IpcSender<u64> as Payload>::from_value(carried).unwrap();
                s.send(21).unwrap();
                assert_eq!(rx.recv(), Ok(21));
            },
            _ => panic!("expected the inner list"),
        },
        _ => panic!("expected the outer list"),
    }
}
