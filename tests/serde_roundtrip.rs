use rpc_format::{
    encode_hex, Bytes, Bytes32, Index, Quantity, Status, TransactionType, UInt,
};

fn index_roundtrip(val: Index) {
    let other = Index::from_hex(&val.to_hex()).unwrap();
    assert_eq!(val, other);
}

fn bytes32_roundtrip(val: &Bytes32) {
    let other = Bytes32::from_hex(&val.to_hex()).unwrap();
    assert_eq!(val, &other);
}

fn status_roundtrip(val: Status) {
    assert_eq!(Status::from_hex(val.as_str()).unwrap(), val);
}

fn transaction_type_roundtrip(val: TransactionType) {
    assert_eq!(TransactionType::from_hex(val.as_str()).unwrap(), val);
}

// Raw payloads keep every byte, leading zero bytes included.
fn bytes_roundtrip(val: Bytes) {
    let other = Bytes::from_hex(&val.to_hex()).unwrap();
    assert_eq!(val.as_bytes(), other.as_bytes());
}

fn ignore_leading_zeroes_roundtrip(val: &[u8]) {
    let other = Quantity::from_hex(&encode_hex(val)).unwrap();
    let val = match val.iter().enumerate().find(|(_, b)| **b != 0) {
        Some((idx, _)) => &val[idx..],
        None => &[0],
    };
    assert_eq!(val, other.as_bytes());
}

#[test]
fn test_index_roundtrip() {
    index_roundtrip(Index::default());
    index_roundtrip(Index::from(0));
    index_roundtrip(Index::from(u64::MAX));
    index_roundtrip(Index::from(25));
}

#[test]
fn test_index_serialize() {
    assert_eq!(&serde_json::to_string(&Index::from(0).to_hex()).unwrap(), "\"0x0\"");
    assert_eq!(&serde_json::to_string(&Index::from(1).to_hex()).unwrap(), "\"0x1\"");
    assert_eq!(
        &serde_json::to_string(&Index::from(25).to_hex()).unwrap(),
        "\"0x19\""
    );
}

#[test]
fn test_status_roundtrip() {
    status_roundtrip(Status::Success);
    status_roundtrip(Status::Failure);
}

#[test]
fn test_transaction_type_roundtrip() {
    transaction_type_roundtrip(TransactionType::Legacy);
    transaction_type_roundtrip(TransactionType::AccessListType);
    transaction_type_roundtrip(TransactionType::DynamicFee);
}

#[test]
fn test_bytes32_roundtrip() {
    bytes32_roundtrip(&Bytes32::default());
    bytes32_roundtrip(&Bytes32::try_from_slice((0..32).collect::<Vec<u8>>().as_slice()).unwrap());
}

#[test]
fn test_bytes32_zeroes_in_middle_roundtrip() {
    bytes32_roundtrip(
        &Bytes32::try_from_slice(
            (0..15)
                .chain(std::iter::repeat(0).take(2))
                .chain(0..15)
                .collect::<Vec<u8>>()
                .as_slice(),
        )
        .unwrap(),
    );
}

#[test]
fn test_bytes32_trailing_zeroes_roundtrip() {
    bytes32_roundtrip(
        &Bytes32::try_from_slice(
            (0..15)
                .chain(std::iter::repeat(0).take(17))
                .collect::<Vec<u8>>()
                .as_slice(),
        )
        .unwrap(),
    );
}

#[test]
fn test_bytes32_leading_zeroes_roundtrip() {
    bytes32_roundtrip(
        &Bytes32::try_from_slice(
            std::iter::repeat(0)
                .take(16)
                .chain(0..16)
                .collect::<Vec<u8>>()
                .as_slice(),
        )
        .unwrap(),
    );
}

#[test]
fn test_bytes_roundtrip() {
    bytes_roundtrip(Bytes::default());
    bytes_roundtrip(Bytes::from_slice((1..32).collect::<Vec<u8>>().as_slice()));
}

#[test]
fn test_bytes_zeroes_in_middle_roundtrip() {
    bytes_roundtrip(Bytes::from_slice(
        (3..15)
            .chain(std::iter::repeat(3).take(2))
            .chain(0..15)
            .collect::<Vec<u8>>()
            .as_slice(),
    ));
}

#[test]
fn test_bytes_trailing_zeroes_roundtrip() {
    bytes_roundtrip(Bytes::from_slice(
        (1..15)
            .chain(std::iter::repeat(0).take(17))
            .collect::<Vec<u8>>()
            .as_slice(),
    ));
}

// A payload's leading zero bytes are part of it: they come back unchanged.
#[test]
fn test_bytes_leading_zeroes_roundtrip() {
    bytes_roundtrip(Bytes::from_slice(
        std::iter::repeat(0)
            .take(16)
            .chain(0..16)
            .collect::<Vec<u8>>()
            .as_slice(),
    ));
}

#[test]
fn test_bytes_empty_serialize() {
    assert_eq!(&serde_json::to_string(&Bytes::default().to_hex()).unwrap(), "\"0x\"");
}

#[test]
fn test_quantity_roundtrip() {
    ignore_leading_zeroes_roundtrip(Quantity::default().as_bytes());
    ignore_leading_zeroes_roundtrip((1..32).collect::<Vec<u8>>().as_slice());
}

#[test]
fn test_quantity_zeroes_in_middle_roundtrip() {
    ignore_leading_zeroes_roundtrip(
        (3..15)
            .chain(std::iter::repeat(3).take(2))
            .chain(0..15)
            .collect::<Vec<u8>>()
            .as_slice(),
    );
}

#[test]
fn test_quantity_trailing_zeroes_roundtrip() {
    ignore_leading_zeroes_roundtrip(
        (1..15)
            .chain(std::iter::repeat(0).take(17))
            .collect::<Vec<u8>>()
            .as_slice(),
    );
}

#[test]
fn test_quantity_leading_zeroes_roundtrip() {
    ignore_leading_zeroes_roundtrip(
        std::iter::repeat(0)
            .take(16)
            .chain(0..16)
            .collect::<Vec<u8>>()
            .as_slice(),
    );
}

#[test]
fn test_quantity_empty_serialize() {
    assert_eq!(
        &serde_json::to_string(&Quantity::default().to_hex()).unwrap(),
        "\"0x0\""
    );
}

#[test]
fn test_serde_empty() {
    assert_eq!(Quantity::default().to_hex(), "0x0");
    assert_eq!(Quantity::from_hex("0x0").unwrap(), Quantity::default());
}

#[test]
fn test_serialize() {
    assert_eq!(encode_hex(&[0x00, 0x42, 0x00]), "0x4200");
    assert_eq!(encode_hex(&[0x42, 0x00, 0x00]), "0x420000");
    assert_eq!(encode_hex(&[0x00, 0x00, 0x42]), "0x42");
}

#[test]
fn test_deserialize() {
    assert_eq!(
        Quantity::from_hex("0x420000").unwrap(),
        Quantity::from_vec(vec![0x42, 0x00, 0x00])
    );
}

#[test]
#[should_panic]
fn test_deserialize_leading_zeroes() {
    assert_eq!(
        Quantity::from_hex("0x00420000").unwrap(),
        Quantity::from_vec(vec![0x42, 0x00, 0x00])
    );
}

#[test]
fn test_serde_zero() {
    assert_eq!(UInt::default(), UInt::from(0));
    assert_eq!(UInt::from(0).to_hex(), "0x0");
    assert_eq!(UInt::from_hex("0x0").unwrap(), UInt::from(0));
}

#[test]
fn test_serde_max() {
    assert_eq!(UInt::from(u64::MAX).to_hex(), "0xffffffffffffffff");
    assert_eq!(UInt::from_hex("0xffffffffffffffff").unwrap(), UInt::from(u64::MAX));
}

#[test]
fn test_serde() {
    assert_eq!(UInt::from(19).to_hex(), "0x13");
    assert_eq!(UInt::from_hex("0x13").unwrap(), UInt::from(19));
}

#[test]
fn hash_alias_is_thirty_two_bytes() {
    assert!(rpc_format::fixed_size_data::Hash::try_from_slice(&[0u8; 32]).is_ok());
}
