use ledger_shell::tx::Tx;
use ledger_shell::wire::{decode_bytes, decode_key, decode_other, DecodeError};

fn varint(value: u64) -> Vec<u8> {
    let mut bytes = Vec::new();
    prost::encoding::encode_varint(value, &mut bytes);
    bytes
}

fn field(tag: u32, value: &[u8]) -> Vec<u8> {
    let mut bytes = Vec::new();
    prost::encoding::bytes::encode(tag, &value.to_vec(), &mut bytes);
    bytes
}

#[test]
fn empty_bytes_are_the_empty_transaction() {
    assert_eq!(Tx::decode(&[]), Ok(Tx { code: vec![], data: None }));
}

#[test]
fn code_and_data_are_decoded() {
    let mut bytes = field(1, &[1, 2, 3]);
    bytes.extend(field(2, &[9]));
    assert_eq!(bytes, vec![0x0a, 3, 1, 2, 3, 0x12, 1, 9]);
    assert_eq!(Tx::decode(&bytes), Ok(Tx { code: vec![1, 2, 3], data: Some(vec![9]) }));
    assert_eq!(Tx::decode(&field(1, &[7])), Ok(Tx { code: vec![7], data: None }));
    assert_eq!(Tx::decode(&field(2, &[])), Ok(Tx { code: vec![], data: Some(vec![]) }));
}

#[test]
fn long_fields_are_decoded() {
    let code = vec![5u8; 300];
    let data = vec![6u8; 70000];
    let mut bytes = field(2, &data);
    bytes.extend(field(1, &code));
    assert_eq!(Tx::decode(&bytes), Ok(Tx { code, data: Some(data) }));
}

#[test]
fn a_later_field_replaces_an_earlier_one() {
    let mut bytes = field(1, &[1]);
    bytes.extend(field(2, &[2]));
    bytes.extend(field(1, &[3, 4]));
    bytes.extend(field(2, &[5]));
    assert_eq!(Tx::decode(&bytes), Ok(Tx { code: vec![3, 4], data: Some(vec![5]) }));
}

#[test]
fn other_fields_are_skipped() {
    let mut bytes = field(3, &[1, 2, 3]);
    bytes.extend([0x20, 0xac, 0x02]);
    bytes.extend([0x29, 1, 2, 3, 4, 5, 6, 7, 8]);
    bytes.extend([0x35, 1, 2, 3, 4]);
    bytes.extend([0x3b, 0x08, 0x01, 0x3c]);
    bytes.extend(field(1, &[7]));
    assert_eq!(Tx::decode(&bytes), Ok(Tx { code: vec![7], data: None }));
}

#[test]
fn bytes_that_are_no_transaction_are_refused() {
    assert_eq!(Tx::decode(&[0x80]), Err(DecodeError::InvalidVarint));
    assert_eq!(Tx::decode(&[0xff; 11]), Err(DecodeError::InvalidVarint));
    assert_eq!(Tx::decode(&[0x80, 0x80, 0x80, 0x80, 0x10]), Err(DecodeError::InvalidKey));
    assert_eq!(Tx::decode(&[0x0e]), Err(DecodeError::InvalidWireType));
    assert_eq!(Tx::decode(&[0x02]), Err(DecodeError::InvalidTag));
    assert_eq!(Tx::decode(&[0x08, 0x01]), Err(DecodeError::WrongWireType));
    assert_eq!(Tx::decode(&[0x10, 0x01]), Err(DecodeError::WrongWireType));
    assert_eq!(Tx::decode(&[0x0a]), Err(DecodeError::InvalidVarint));
    assert_eq!(Tx::decode(&[0x0a, 0x02, 1]), Err(DecodeError::BufferUnderflow));
    assert_eq!(Tx::decode(&[0x1a, 0x02, 1]), Err(DecodeError::InvalidField));
    assert_eq!(Tx::decode(&[0x1c]), Err(DecodeError::InvalidField));
    assert_eq!(Tx::decode(&[0x1b, 0x24]), Err(DecodeError::InvalidField));
    assert_eq!(Tx::decode(&[0x19, 1, 2, 3]), Err(DecodeError::InvalidField));
}

#[test]
fn keys_are_tag_and_wire_type() {
    assert_eq!(decode_key(&[0x0a, 7]), Ok((1, 2, &[7u8][..])));
    assert_eq!(decode_key(&[0x12]), Ok((2, 2, &[][..])));
    let mut bytes = varint((300 << 3) | 5);
    bytes.push(9);
    assert_eq!(decode_key(&bytes), Ok((300, 5, &[9u8][..])));
    assert_eq!(decode_key(&[]), Err(DecodeError::InvalidVarint));
}

#[test]
fn length_delimited_bytes() {
    assert_eq!(decode_bytes(2, &[2, 8, 9, 10]), Ok((vec![8, 9], &[10u8][..])));
    assert_eq!(decode_bytes(2, &[0]), Ok((vec![], &[][..])));
    assert_eq!(decode_bytes(0, &[0]), Err(DecodeError::WrongWireType));
    assert_eq!(decode_bytes(2, &[3, 1]), Err(DecodeError::BufferUnderflow));
    let mut long = varint(200);
    long.extend(vec![1u8; 200]);
    long.push(2);
    assert_eq!(decode_bytes(2, &long), Ok((vec![1u8; 200], &[2u8][..])));
}

#[test]
fn other_fields_are_skipped_by_wire_type() {
    assert_eq!(decode_other(0, 3, &[0xac, 0x02, 7]), Ok(&[7u8][..]));
    assert_eq!(decode_other(5, 3, &[1, 2, 3, 4, 7]), Ok(&[7u8][..]));
    assert_eq!(decode_other(1, 3, &[1, 2, 3, 4, 5, 6, 7, 8]), Ok(&[][..]));
    assert_eq!(decode_other(2, 3, &[1, 9, 7]), Ok(&[7u8][..]));
    assert_eq!(decode_other(3, 3, &[0x1c, 7]), Ok(&[7u8][..]));
    assert_eq!(decode_other(4, 3, &[7]), Err(DecodeError::InvalidField));
    assert_eq!(decode_other(9, 3, &[7]), Err(DecodeError::InvalidField));
    assert_eq!(decode_other(5, 3, &[1, 2, 3]), Err(DecodeError::InvalidField));
}

#[test]
fn decode_errors_in_words() {
    assert_eq!(DecodeError::InvalidVarint.to_string(), "invalid varint");
    assert_eq!(DecodeError::BufferUnderflow.to_string(), "buffer underflow");
    assert_eq!(DecodeError::InvalidTag.to_string(), "invalid tag value: 0");
}

#[test]
fn variable_length_integers_have_at_most_ten_bytes() {
    let mut largest = vec![0xffu8; 9];
    largest.push(0x01);
    assert_eq!(varint(u64::MAX), largest);
    let mut field = largest.clone();
    field.push(7);
    assert_eq!(decode_bytes(2, &field), Err(DecodeError::BufferUnderflow));
    let mut overflowing = vec![0xffu8; 9];
    overflowing.push(0x02);
    overflowing.push(7);
    assert_eq!(decode_bytes(2, &overflowing), Err(DecodeError::InvalidVarint));
    let mut endless = vec![0x80u8; 10];
    endless.push(0x00);
    assert_eq!(decode_bytes(2, &endless), Err(DecodeError::InvalidVarint));
    assert_eq!(decode_bytes(2, &[0x80, 0x80]), Err(DecodeError::InvalidVarint));
    assert_eq!(decode_bytes(2, &[0x81, 0x00, 9]), Ok((vec![9], &[][..])));
    assert_eq!(decode_bytes(2, &[0x80, 0x00, 0x80]), Ok((vec![], &[0x80u8][..])));
    let mut padded = vec![0x80u8; 9];
    padded.push(0x00);
    padded.push(5);
    assert_eq!(decode_bytes(2, &padded), Ok((vec![], &[5u8][..])));
    let mut two_bytes = varint(300);
    assert_eq!(two_bytes, vec![0xac, 0x02]);
    two_bytes.extend(vec![1u8; 300]);
    assert_eq!(decode_bytes(2, &two_bytes), Ok((vec![1u8; 300], &[][..])));
}
