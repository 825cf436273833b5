use rpc_format::entity::{
    decode_optional_fixed, decode_optional_status, encode_optional_fixed, encode_optional_status,
};
use rpc_format::{
    decode_hex, encode_hex_data, encode_hex_fixed_size_data, encode_hex_quantity, Address,
    BloomFilter, Bytes32, Data, Error, HexError, Log, LogArgument, Nonce, Quantity, Status,
    Transaction, TransactionType, UInt,
};

#[test]
fn quantity_zero_is_0x0() {
    assert_eq!(Quantity::zero().to_hex(), "0x0");
    assert_eq!(encode_hex_quantity(&[]), "0x0");
    assert_eq!(encode_hex_quantity(&[0, 0, 0]), "0x0");
    assert_eq!(encode_hex_quantity(&[0]), "0x0");
}

#[test]
fn quantity_leading_zero_digits_are_refused() {
    assert_eq!(
        Quantity::from_hex("0x00"),
        Err(Error::UnexpectedLeadingZeroes("0x00".to_string()))
    );
    assert_eq!(
        Quantity::from_hex("0x0019"),
        Err(Error::UnexpectedLeadingZeroes("0x0019".to_string()))
    );
    assert_eq!(Quantity::from_hex("0x19").unwrap().as_bytes(), &[0x19]);
    assert_eq!(UInt::from_hex("0x19").unwrap().value(), 25);
    assert_eq!(
        UInt::from_hex("0x0019"),
        Err(Error::UnexpectedLeadingZeroes("0x0019".to_string()))
    );
}

#[test]
fn quantity_odd_digit_count_gets_a_leading_nibble() {
    let q = Quantity::from_hex("0x420").unwrap();
    assert_eq!(q.as_bytes(), &[0x04, 0x20]);
    assert_eq!(q.to_hex(), "0x420");
    assert_eq!(Quantity::from_hex("0xABC").unwrap().as_bytes(), &[0x0a, 0xbc]);
}

#[test]
fn quantity_errors() {
    assert_eq!(
        Quantity::from_hex("42"),
        Err(Error::InvalidHexPrefix("42".to_string()))
    );
    assert_eq!(
        Quantity::from_hex("0x"),
        Err(Error::DecodeHex(HexError::InvalidStringLength))
    );
    assert!(matches!(
        Quantity::from_hex("0x4g"),
        Err(Error::DecodeHex(HexError::InvalidHexCharacter { .. }))
    ));
}

#[test]
fn quantity_text_round_trip() {
    for s in ["0x0", "0x1", "0xff", "0x100", "0xdeadbeef", "0x1234567890abcdef01"] {
        assert_eq!(Quantity::from_hex(s).unwrap().to_hex(), s);
    }
}

#[test]
fn uint_round_trip_and_text() {
    for v in [0u64, 1, 15, 16, 255, 256, 0x1234, u64::MAX - 1, u64::MAX] {
        let u = UInt::new(v);
        assert_eq!(UInt::from_hex(&u.to_hex()).unwrap(), u);
    }
    assert_eq!(UInt::new(0x100).to_hex(), "0x100");
    assert_eq!(u64::from(UInt::from(7)), 7);
}

#[test]
fn uint_overflow_is_refused() {
    assert_eq!(
        UInt::from_hex("0xffffffffffffffffa"),
        Err(Error::UnexpectedLength { expected: 8, got: 9 })
    );
}

#[test]
fn fixed_size_keeps_zero_bytes() {
    let mut bytes = vec![0u8; 32];
    bytes[5] = 7;
    bytes[31] = 1;
    let v = Bytes32::try_from_slice(&bytes).unwrap();
    let text = v.to_hex();
    assert_eq!(text.len(), 2 + 64);
    assert!(text.starts_with("0x00000000000700"));
    assert_eq!(Bytes32::from_hex(&text).unwrap().as_bytes(), bytes.as_slice());
}

#[test]
fn fixed_size_wrong_length() {
    assert_eq!(
        Bytes32::try_from_slice(&[1u8; 31]),
        Err(Error::UnexpectedLength { expected: 32, got: 31 })
    );
    assert_eq!(
        Bytes32::try_from_vec(vec![1u8; 33]),
        Err(Error::UnexpectedLength { expected: 32, got: 33 })
    );
    assert_eq!(
        Address::from_hex("0x0102"),
        Err(Error::UnexpectedLength { expected: 20, got: 2 })
    );
    assert_eq!(
        Nonce::from_hex("0102"),
        Err(Error::InvalidHexPrefix("0102".to_string()))
    );
}

#[test]
fn fixed_size_text() {
    let n = Nonce::try_from_slice(&[0, 1, 2, 3, 4, 5, 6, 0xff]).unwrap();
    assert_eq!(n.to_hex(), "0x00010203040506ff");
    assert_eq!(BloomFilter::default().to_hex().len(), 2 + 512);
    assert_eq!(rpc_format::fixed_size_data::Hash::default().as_bytes(), &[0u8; 32]);
    assert_eq!(encode_hex_fixed_size_data(&[0xab, 0x00]), "0xab00");
}

#[test]
fn data_keeps_every_byte() {
    let d = Data::from_vec(vec![0x00, 0x01, 0x02]);
    assert_eq!(d.to_hex(), "0x000102");
    assert_eq!(Data::from_hex("0x000102").unwrap().as_bytes(), &[0x00, 0x01, 0x02]);
    assert_eq!(encode_hex_data(&[]), "0x");
    assert_eq!(Data::from_hex("0x").unwrap().len(), 0);
    assert_eq!(Data::from_hex("0xABcd").unwrap().as_bytes(), &[0xab, 0xcd]);
}

#[test]
fn data_needs_whole_bytes() {
    assert_eq!(
        Data::from_hex("0x123"),
        Err(Error::DecodeHex(HexError::OddLength))
    );
    assert_eq!(
        Data::from_hex("0xzz"),
        Err(Error::DecodeHex(HexError::InvalidHexCharacter { c: 'z', index: 0 }))
    );
}

#[test]
fn decode_hex_pads_odd_counts() {
    assert_eq!(decode_hex("0x123").unwrap(), vec![0x01, 0x23]);
    assert_eq!(decode_hex("0x1234").unwrap(), vec![0x12, 0x34]);
    assert_eq!(decode_hex("0x").unwrap(), Vec::<u8>::new());
    assert_eq!(
        decode_hex("x12"),
        Err(Error::InvalidHexPrefix("x12".to_string()))
    );
}

#[test]
fn status_tokens() {
    assert_eq!(Status::from_hex("0x1"), Ok(Status::Success));
    assert_eq!(Status::from_hex("0x0"), Ok(Status::Failure));
    assert_eq!(
        Status::from_hex("0x2"),
        Err(Error::UnknownTransactionStatus("0x2".to_string()))
    );
    assert_eq!(Status::Success.as_str(), "0x1");
    assert_eq!(Status::Failure.as_str(), "0x0");
}

#[test]
fn transaction_type_tokens() {
    assert_eq!(TransactionType::Legacy.as_str(), "0x0");
    assert_eq!(TransactionType::AccessListType.as_str(), "0x1");
    assert_eq!(TransactionType::DynamicFee.as_str(), "0x2");
    assert_eq!("0x2".parse::<TransactionType>(), Ok(TransactionType::DynamicFee));
    assert_eq!(
        TransactionType::from_hex("0x3"),
        Err(Error::UnknownTransactionType("0x3".to_string()))
    );
}

#[test]
fn optional_field_absent_stays_absent() {
    let tx = Transaction::default();
    assert!(tx.to.is_none());
    assert_eq!(encode_optional_fixed(&tx.to), None);
    assert_eq!(decode_optional_fixed::<20>(None), Ok(None));
    assert_ne!(decode_optional_fixed::<20>(None), Ok(Some(Address::default())));
    let a = Address::try_from_slice(&[9u8; 20]).unwrap();
    let text = encode_optional_fixed(&Some(a.clone())).unwrap();
    assert_eq!(decode_optional_fixed::<20>(Some(&text)), Ok(Some(a)));
    assert_eq!(encode_optional_status(&None), None);
    assert_eq!(decode_optional_status(None), Ok(None));
    assert_eq!(decode_optional_status(Some("0x1")), Ok(Some(Status::Success)));
}

#[test]
fn log_with_four_topics() {
    let mut log = Log::default();
    for i in 0..4u8 {
        log.topics.push(LogArgument::try_from_slice(&[i; 32]).unwrap());
    }
    assert!(log.topics.try_push(LogArgument::default()).is_err());
    log.data = Data::from_vec(vec![0x00, 0x00, 0x05]);
    log.removed = true;
    let copy = log.clone();
    assert_eq!(copy.topics.len(), 4);
    for (i, t) in copy.topics.iter().enumerate() {
        assert_eq!(LogArgument::from_hex(&t.to_hex()).unwrap().as_bytes(), &[i as u8; 32]);
    }
    assert_eq!(Data::from_hex(&copy.data.to_hex()).unwrap(), log.data);
    assert!(copy.removed);
}
