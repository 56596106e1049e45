//! The wire form of a transaction.
//!
//! A transaction travels as a Protocol Buffers message with two fields: the
//! code under tag 1 and, if there is any, the data under tag 2, both as
//! length-delimited bytes. Fields with other tags are skipped.

use prost::encoding::{DecodeContext, WireType};
use vstd::prelude::*;

verus! {

/// The tag of the code of a transaction.
pub const CODE_TAG: u32 = 1;

/// The tag of the data of a transaction.
pub const DATA_TAG: u32 = 2;

/// The wire type of length-delimited bytes.
pub const LENGTH_DELIMITED: u64 = 2;

/// The largest wire type.
pub const MAX_WIRE_TYPE: u64 = 5;

/// Why bytes are not a transaction.
#[derive(Clone, Copy, Debug, PartialEq, Eq, Structural)]
pub enum DecodeError {
    /// A variable-length integer is cut off or too long.
    InvalidVarint,
    /// The key of a field does not fit in 32 bits.
    InvalidKey,
    /// The key of a field names no wire type.
    InvalidWireType,
    /// The key of a field has the tag zero.
    InvalidTag,
    /// The code or the data is not length-delimited.
    WrongWireType,
    /// The code or the data is longer than what is left.
    BufferUnderflow,
    /// A field with another tag cannot be skipped.
    InvalidField,
}

impl DecodeError {
    /// The error in words.
    pub open spec fn text(self) -> Seq<char> {
        match self {
            DecodeError::InvalidVarint => "invalid varint"@,
            DecodeError::InvalidKey => "invalid key value"@,
            DecodeError::InvalidWireType => "invalid wire type value"@,
            DecodeError::InvalidTag => "invalid tag value: 0"@,
            DecodeError::WrongWireType => "invalid wire type"@,
            DecodeError::BufferUnderflow => "buffer underflow"@,
            DecodeError::InvalidField => "invalid field"@,
        }
    }

    /// The error in words.
    pub fn to_string(&self) -> (text: String)
        ensures
            text@ == self.text(),
    {
        match self {
            DecodeError::InvalidVarint => String::from_str("invalid varint"),
            DecodeError::InvalidKey => String::from_str("invalid key value"),
            DecodeError::InvalidWireType => String::from_str("invalid wire type value"),
            DecodeError::InvalidTag => String::from_str("invalid tag value: 0"),
            DecodeError::WrongWireType => String::from_str("invalid wire type"),
            DecodeError::BufferUnderflow => String::from_str("buffer underflow"),
            DecodeError::InvalidField => String::from_str("invalid field"),
        }
    }
}

/// The most bytes that a variable-length integer has.
pub const MAX_VARINT_LENGTH: usize = 10;

/// 128 to the power of `n`.
pub open spec fn pow128(n: nat) -> int
    decreases n,
{
    if n == 0 {
        1
    } else {
        128 * pow128((n - 1) as nat)
    }
}

/// The variable-length integer of which `count` bytes have been read and
/// have given `value`, and what follows it. Each byte gives seven bits, the
/// low ones first; a byte below 128 is the last. There is no integer where
/// the bytes end before the last byte, where ten bytes are none of them the
/// last, or where the tenth byte gives more than the one bit that is left.
pub open spec fn varint_from(bytes: Seq<u8>, count: nat, value: int) -> Option<(u64, Seq<u8>)>
    decreases MAX_VARINT_LENGTH - count,
{
    if count >= MAX_VARINT_LENGTH || count >= bytes.len() {
        None
    } else {
        let byte = bytes[count as int];
        let next = value + (byte % 128) * pow128(count);
        if byte < 128 {
            if count == 9 && byte >= 2 {
                None
            } else {
                Some((next as u64, bytes.skip(count as int + 1)))
            }
        } else {
            varint_from(bytes, count + 1, next)
        }
    }
}

/// The variable-length integer at the start of the bytes and what follows
/// it, if the bytes start with one.
pub open spec fn varint_of(bytes: Seq<u8>) -> Option<(u64, Seq<u8>)> {
    varint_from(bytes, 0, 0)
}

/// What follows a field of the given wire type and tag at the start of the
/// bytes, if the bytes start with one.
pub uninterp spec fn skipped_field(wire_type: u64, tag: u32, bytes: Seq<u8>) -> Option<Seq<u8>>;

/// `rest` is what is left of `bytes` after some of its first bytes.
pub open spec fn is_rest_of(rest: Seq<u8>, bytes: Seq<u8>) -> bool {
    rest.len() <= bytes.len() && rest == bytes.skip(bytes.len() - rest.len())
}

/// Calls `prost::encoding::decode_varint` on the bytes and returns the
/// integer with the bytes that the call left unread. The contract claims
/// that the call reads a variable-length integer as [`varint_of`] says, byte
/// by byte with its check of the tenth byte, and that it reads at least one
/// byte and leaves the rest as it is.
#[verifier::external_body]
fn decode_varint<'a>(bytes: &'a [u8]) -> (result: Option<(u64, &'a [u8])>)
    ensures
        match result {
            Some((value, rest)) => varint_of(bytes@) == Some((value, rest@)) && is_rest_of(
                rest@,
                bytes@,
            ) && rest@.len() < bytes@.len(),
            None => varint_of(bytes@).is_none(),
        },
{
    let mut buf = bytes;
    match prost::encoding::decode_varint(&mut buf) {
        Ok(value) => Some((value, buf)),
        Err(_) => None,
    }
}

/// Calls `prost::encoding::skip_field` on the bytes, with the wire type made
/// by `WireType::try_from` and a fresh `DecodeContext`, and returns the bytes
/// that the call left unread. The contract claims that they are a function
/// of the arguments alone and are what is left of the bytes.
#[verifier::external_body]
fn skip_field<'a>(wire_type: u64, tag: u32, bytes: &'a [u8]) -> (result: Option<&'a [u8]>)
    ensures
        match result {
            Some(rest) => skipped_field(wire_type, tag, bytes@) == Some(rest@) && is_rest_of(
                rest@,
                bytes@,
            ),
            None => skipped_field(wire_type, tag, bytes@).is_none(),
        },
{
    let wire_type = WireType::try_from(wire_type).ok()?;
    let mut buf = bytes;
    prost::encoding::skip_field(wire_type, tag, &mut buf, DecodeContext::default()).ok()?;
    Some(buf)
}

/// The variable-length integer at the start of the bytes and what follows
/// it. What follows is shorter than the bytes.
pub open spec fn read_varint(bytes: Seq<u8>) -> Option<(u64, Seq<u8>)> {
    match varint_of(bytes) {
        Some((value, rest)) => if rest.len() < bytes.len() {
            Some((value, rest))
        } else {
            None
        },
        None => None,
    }
}

/// The key at the start of the bytes: the tag and the wire type of a field,
/// and what follows the key.
pub open spec fn read_key(bytes: Seq<u8>) -> Result<(u32, u64, Seq<u8>), DecodeError> {
    match read_varint(bytes) {
        None => Err(DecodeError::InvalidVarint),
        Some((key, rest)) => if key > u32::MAX {
            Err(DecodeError::InvalidKey)
        } else if key % 8 > MAX_WIRE_TYPE {
            Err(DecodeError::InvalidWireType)
        } else if key / 8 < 1 {
            Err(DecodeError::InvalidTag)
        } else {
            Ok(((key / 8) as u32, key % 8, rest))
        },
    }
}

/// The length-delimited bytes at the start of `bytes`, and what follows
/// them.
pub open spec fn read_bytes(wire_type: u64, bytes: Seq<u8>) -> Result<(Seq<u8>, Seq<u8>), DecodeError> {
    if wire_type != LENGTH_DELIMITED {
        Err(DecodeError::WrongWireType)
    } else {
        match read_varint(bytes) {
            None => Err(DecodeError::InvalidVarint),
            Some((len, rest)) => if len > rest.len() {
                Err(DecodeError::BufferUnderflow)
            } else {
                Ok((rest.take(len as int), rest.skip(len as int)))
            },
        }
    }
}

/// What follows a field that is neither the code nor the data.
pub open spec fn read_other(wire_type: u64, tag: u32, bytes: Seq<u8>) -> Result<
    Seq<u8>,
    DecodeError,
> {
    match skipped_field(wire_type, tag, bytes) {
        Some(rest) => if rest.len() <= bytes.len() {
            Ok(rest)
        } else {
            Err(DecodeError::InvalidField)
        },
        None => Err(DecodeError::InvalidField),
    }
}

/// What a decoded transaction stands for in contracts.
pub struct TxView {
    pub code: Seq<u8>,
    pub data: Option<Seq<u8>>,
}

/// The transaction after the fields in `bytes` were read into it one after
/// the other. A later code or data replaces an earlier one.
pub open spec fn decode_fields(bytes: Seq<u8>, tx: TxView) -> Result<TxView, DecodeError>
    decreases bytes.len(),
{
    if bytes.len() == 0 {
        Ok(tx)
    } else {
        match read_key(bytes) {
            Err(e) => Err(e),
            Ok((tag, wire_type, rest)) => if rest.len() >= bytes.len() {
                Err(DecodeError::InvalidVarint)
            } else if tag == CODE_TAG {
                match read_bytes(wire_type, rest) {
                    Err(e) => Err(e),
                    Ok((code, after)) => decode_fields(after, TxView { code, ..tx }),
                }
            } else if tag == DATA_TAG {
                match read_bytes(wire_type, rest) {
                    Err(e) => Err(e),
                    Ok((data, after)) => decode_fields(after, TxView { data: Some(data), ..tx }),
                }
            } else {
                match read_other(wire_type, tag, rest) {
                    Err(e) => Err(e),
                    Ok(after) => decode_fields(after, tx),
                }
            },
        }
    }
}

/// The transaction that bytes stand for: no code and no data, and then what
/// the fields in the bytes say.
pub open spec fn decode_tx(bytes: Seq<u8>) -> Result<TxView, DecodeError> {
    decode_fields(bytes, TxView { code: Seq::empty(), data: None })
}

/// Read the key of a field.
pub fn decode_key<'a>(bytes: &'a [u8]) -> (result: Result<(u32, u64, &'a [u8]), DecodeError>)
    ensures
        match result {
            Ok((tag, wire_type, rest)) => read_key(bytes@) == Ok::<
                (u32, u64, Seq<u8>),
                DecodeError,
            >((tag, wire_type, rest@)) && rest@.len() < bytes@.len(),
            Err(e) => read_key(bytes@) == Err::<(u32, u64, Seq<u8>), DecodeError>(e),
        },
{
    match decode_varint(bytes) {
        None => Err(DecodeError::InvalidVarint),
        Some((key, rest)) => {
            if key > 0xffff_ffff {
                Err(DecodeError::InvalidKey)
            } else if key % 8 > MAX_WIRE_TYPE {
                Err(DecodeError::InvalidWireType)
            } else if key / 8 < 1 {
                Err(DecodeError::InvalidTag)
            } else {
                Ok(((key / 8) as u32, key % 8, rest))
            }
        },
    }
}

/// Read length-delimited bytes.
pub fn decode_bytes<'a>(wire_type: u64, bytes: &'a [u8]) -> (result: Result<
    (Vec<u8>, &'a [u8]),
    DecodeError,
>)
    ensures
        match result {
            Ok((value, rest)) => read_bytes(wire_type, bytes@) == Ok::<
                (Seq<u8>, Seq<u8>),
                DecodeError,
            >((value@, rest@)) && rest@.len() < bytes@.len(),
            Err(e) => read_bytes(wire_type, bytes@) == Err::<(Seq<u8>, Seq<u8>), DecodeError>(e),
        },
{
    if wire_type != LENGTH_DELIMITED {
        return Err(DecodeError::WrongWireType);
    }
    match decode_varint(bytes) {
        None => Err(DecodeError::InvalidVarint),
        Some((len, rest)) => {
            if len > rest.len() as u64 {
                Err(DecodeError::BufferUnderflow)
            } else {
                let at: usize = len as usize;
                let value = vstd::slice::slice_subrange(rest, 0, at);
                let after = vstd::slice::slice_subrange(rest, at, rest.len());
                proof {
                    assert(value@ =~= rest@.take(len as int));
                    assert(after@ =~= rest@.skip(len as int));
                }
                Ok((crate::hash::copy_bytes(value), after))
            }
        },
    }
}

/// Skip a field that is neither the code nor the data.
pub fn decode_other<'a>(wire_type: u64, tag: u32, bytes: &'a [u8]) -> (result: Result<
    &'a [u8],
    DecodeError,
>)
    ensures
        match result {
            Ok(rest) => read_other(wire_type, tag, bytes@) == Ok::<Seq<u8>, DecodeError>(rest@)
                && rest@.len() <= bytes@.len(),
            Err(e) => read_other(wire_type, tag, bytes@) == Err::<Seq<u8>, DecodeError>(e),
        },
{
    match skip_field(wire_type, tag, bytes) {
        Some(rest) => Ok(rest),
        None => Err(DecodeError::InvalidField),
    }
}

} // verus!
