use vstd::prelude::*;
use crate::bytes::{le_bytes, le_value};

verus! {

#[verifier::external_type_specification]
#[verifier::external_body]
pub struct ExBincodeErrorKind(bincode::ErrorKind);

/// Relies on bincode::serialize: with bincode's default options a `u32` is
/// written as its four little-endian bytes into a fresh `Vec`, which cannot fail.
#[verifier::external_body]
fn bincode_encode_u32(v: &u32) -> (r: Result<Vec<u8>, Box<bincode::ErrorKind>>)
    ensures
        r is Ok,
        r is Ok ==> r->Ok_0@ == le_bytes(*v as nat, 4),
{
    bincode::serialize(v)
}

/// Relies on bincode::deserialize: with bincode's default options (trailing
/// bytes allowed) a `u32` is read from the first four bytes, little-endian, and
/// the call fails only when fewer than four bytes are given.
#[verifier::external_body]
fn bincode_decode_u32(b: &[u8]) -> (r: Result<u32, Box<bincode::ErrorKind>>)
    ensures
        r is Ok <==> b@.len() >= 4,
        r is Ok ==> r->Ok_0 as nat == le_value(b@.subrange(0, 4)),
{
    bincode::deserialize::<u32>(b)
}

/// The kind of value a bridge message moves.
#[derive(Debug, Clone, Copy, PartialEq, Eq, Structural)]
pub enum MessageType {
    Native,
    Token,
    NFT,
}

impl MessageType {
    /// The position of the variant in the declaration, which is what bincode
    /// writes for a unit variant.
    pub open spec fn index(self) -> nat {
        match self {
            MessageType::Native => 0,
            MessageType::Token => 1,
            MessageType::NFT => 2,
        }
    }

    /// The variant at position `i`, for `i < 3`.
    pub open spec fn from_index(i: nat) -> MessageType {
        if i == 0 {
            MessageType::Native
        } else if i == 1 {
            MessageType::Token
        } else {
            MessageType::NFT
        }
    }

    /// The bincode encoding of the variant: its index as a little-endian `u32`.
    pub open spec fn encoding(self) -> Seq<u8> {
        le_bytes(self.index(), 4)
    }

    pub fn to_bytes(&self) -> (r: Vec<u8>)
        ensures
            r@ == self.encoding(),
    {
        let i: u32 = match self {
            MessageType::Native => 0,
            MessageType::Token => 1,
            MessageType::NFT => 2,
        };
        match bincode_encode_u32(&i) {
            Ok(b) => b,
            Err(_) => {
                proof {
                    assert(false);
                }
                Vec::new()
            },
        }
    }

    /// Reads a variant back from its bincode encoding; bytes after the first
    /// four are ignored.
    pub fn from_bytes(bytes: &[u8]) -> (r: Self)
        requires
            bytes@.len() >= 4,
            le_value(bytes@.subrange(0, 4)) < 3,
        ensures
            r == MessageType::from_index(le_value(bytes@.subrange(0, 4))),
            r.index() == le_value(bytes@.subrange(0, 4)),
    {
        match bincode_decode_u32(bytes) {
            Ok(0) => MessageType::Native,
            Ok(1) => MessageType::Token,
            Ok(_) => MessageType::NFT,
            Err(_) => {
                proof {
                    assert(false);
                }
                MessageType::Native
            },
        }
    }
}

} // verus!
