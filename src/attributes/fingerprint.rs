//! FINGERPRINT: CRC-32 of the message so far, masked with "STUN".
use vstd::prelude::*;
use vstd::slice::slice_subrange;
use super::Attribute;
use super::integrity::covered;
use crate::builder::MessageBuilder;
use crate::crypto::{crc32, crc32_of};
use crate::error::Error;
use crate::parse::{ParsedAttr, ParsedMessage};
use crate::wire::{be_bytes, ct_eq, lemma_be_bytes_len, put_be};

verus! {

/// "STUN" in ASCII, XORed into the checksum.
pub const FINGERPRINT_XOR: u32 = 0x5354554E;

/// The fingerprint value for the bytes `data` it covers.
pub open spec fn fingerprint_of(data: Seq<u8>) -> Seq<u8> {
    be_bytes((crc32_of(data) ^ FINGERPRINT_XOR) as nat, 4)
}

/// FINGERPRINT; when present it is the last attribute.
#[derive(Debug, Clone, Copy, PartialEq, Eq, Default)]
pub struct Fingerprint;

impl Attribute for Fingerprint {
    type Context = ();

    open spec fn type_code() -> u16 {
        0x8028
    }

    open spec fn value_len(&self) -> nat {
        4
    }

    open spec fn value_bytes(&self, ctx: (), id: u128, prefix: Seq<u8>) -> Seq<u8> {
        fingerprint_of(covered(prefix))
    }

    open spec fn decodes_to(ctx: (), id: u128, before: Seq<u8>, value: Seq<u8>, r: Result<Self, Error>) -> bool {
        if value == fingerprint_of(before) {
            r == Ok::<Self, Error>(Fingerprint)
        } else {
            r == Err::<Self, Error>(Error::InvalidData("failed to verify fingerprint"))
        }
    }

    open spec fn representable(&self) -> bool {
        true
    }

    open spec fn same_as(&self, other: Self) -> bool {
        true
    }

    fn attr_type() -> (r: u16) {
        0x8028
    }

    fn encode_len(&self) -> (r: Result<u16, Error>) {
        Ok(4)
    }

    fn encode(&self, ctx: (), builder: &mut MessageBuilder) -> (r: Result<(), Error>) {
        let data = builder.buffer();
        let n = data.len();
        let crc = crc32(slice_subrange(data.as_slice(), 0, n - 4));
        builder.put_be((crc ^ FINGERPRINT_XOR) as u128, 4);
        proof {
            lemma_be_bytes_len((crc ^ FINGERPRINT_XOR) as nat, 4);
        }
        Ok(())
    }

    fn decode(ctx: (), msg: &ParsedMessage, attr: &ParsedAttr) -> (r: Result<Self, Error>) {
        let before = slice_subrange(msg.buffer().as_slice(), 0, attr.attr_idx);
        let crc = crc32(before);
        let mut expected: Vec<u8> = Vec::new();
        put_be(&mut expected, (crc ^ FINGERPRINT_XOR) as u128, 4);
        assert(expected@ =~= fingerprint_of(before@));
        if ct_eq(attr.value.as_slice(), expected.as_slice()) {
            Ok(Fingerprint)
        } else {
            Err(Error::InvalidData("failed to verify fingerprint"))
        }
    }

    proof fn lemma_round_trip(&self, ctx: (), id: u128, before: Seq<u8>, header: Seq<u8>, r: Result<Self, Error>) {
        assert(covered(before + header) =~= before);
    }
}

} // verus!
