use fifo_mempool::network::{Channel, MempoolTransactionBatch, NetworkMsg, ProtoAny, ProtoError};

fn msg(type_url: &str, value: Vec<u8>) -> NetworkMsg {
    NetworkMsg::TransactionBatch(MempoolTransactionBatch::new(ProtoAny {
        type_url: type_url.to_string(),
        value,
    }))
}

#[test]
fn channel_is_mempool() {
    assert_eq!(msg("x", vec![]).channel(), Channel::Mempool);
}

#[test]
fn wire_form_of_a_batch() {
    let m = msg("mempool.transaction", vec![1, 2, 3]);
    let bytes = m.to_network_bytes().unwrap();
    let mut expected = vec![0x0a, 19];
    expected.extend_from_slice(b"mempool.transaction");
    expected.extend_from_slice(&[0x12, 3, 1, 2, 3]);
    assert_eq!(bytes, expected);
    assert_eq!(m.size_bytes(), expected.len());
}

#[test]
fn empty_fields_are_left_out() {
    let m = msg("", vec![]);
    assert_eq!(m.to_network_bytes().unwrap(), Vec::<u8>::new());
    assert_eq!(m.size_bytes(), 0);
}

#[test]
fn long_value_has_two_byte_length() {
    let m = msg("", vec![7; 200]);
    let bytes = m.to_network_bytes().unwrap();
    assert_eq!(&bytes[..3], &[0x12, 200 % 128 + 128, 1]);
    assert_eq!(m.size_bytes(), 203);
}

#[test]
fn wire_round_trip() {
    let m = msg("mempool.transaction", vec![9, 9]);
    let bytes = m.to_network_bytes().unwrap();
    assert_eq!(NetworkMsg::from_network_bytes(&bytes), Ok(m));
}

#[test]
fn any_type_url_reads_back() {
    let m = msg("other.type", vec![1]);
    let bytes = m.to_network_bytes().unwrap();
    assert_eq!(NetworkMsg::from_network_bytes(&bytes), Ok(m));
    let empty = msg("", vec![]);
    assert_eq!(
        NetworkMsg::from_network_bytes(&empty.to_network_bytes().unwrap()),
        Ok(empty)
    );
}

#[test]
fn garbage_does_not_decode() {
    assert_eq!(
        NetworkMsg::from_network_bytes(&[0x0a, 5, 1]),
        Err(ProtoError::Decode)
    );
}

#[test]
fn proto_conversions() {
    let m = msg("mempool.transaction", vec![4]);
    let any = m.to_proto().unwrap();
    assert_eq!(any.type_url, "mempool.transaction");
    assert_eq!(any.value, vec![4]);
    assert_eq!(NetworkMsg::from_proto(any.clone()), Ok(m));
    assert_eq!(
        NetworkMsg::from_proto(ProtoAny {
            type_url: "x".to_string(),
            value: vec![]
        }),
        Err(ProtoError::Other("Unknown type URL: x".to_string()))
    );
}
