//! ERROR-CODE: a class digit, a two-digit number and a reason phrase.
use vstd::prelude::*;
use vstd::slice::slice_subrange;
use vstd::utf8::{decode_utf8, encode_utf8, encode_utf8_decode_utf8, encode_utf8_valid_utf8, valid_utf8};
use super::Attribute;
use crate::builder::MessageBuilder;
use crate::crypto::utf8_to_string;
use crate::error::Error;
use crate::parse::{ParsedAttr, ParsedMessage};
use crate::wire::{be_bytes, be_value, lemma_be_bytes_len, lemma_be_round_trip, lemma_be_value_bound, lemma_pow256_facts, read_be};

verus! {

/// The header word: class (`code / 100`, four bits) at bits 8 to 11, number
/// (`code % 100`) at bits 0 to 7.
pub open spec fn code_word(code: u32) -> u32 {
    (((code / 100) & 0xF) << 8u32) | (code % 100)
}

/// The code that a header word gives: `class * 100 + number`.
pub open spec fn code_of(w: u32) -> int {
    ((w >> 8u32) & 0xF) * 100 + (w & 0xFF)
}

/// ERROR-CODE; codes 300 to 699 are the ones in use.
pub struct ErrorCode {
    pub number: u32,
    pub reason: String,
}

impl Attribute for ErrorCode {
    type Context = ();

    open spec fn type_code() -> u16 {
        0x0009
    }

    open spec fn value_len(&self) -> nat {
        4 + encode_utf8(self.reason@).len()
    }

    open spec fn value_bytes(&self, ctx: (), id: u128, prefix: Seq<u8>) -> Seq<u8> {
        be_bytes(code_word(self.number) as nat, 4) + encode_utf8(self.reason@)
    }

    open spec fn decodes_to(ctx: (), id: u128, before: Seq<u8>, value: Seq<u8>, r: Result<Self, Error>) -> bool {
        if value.len() < 4 {
            r == Err::<Self, Error>(Error::InvalidData("error code must be at least 4 bytes"))
        } else {
            let w = be_value(value.subrange(0, 4)) as u32;
            let rest = value.subrange(4, value.len() as int);
            if valid_utf8(rest) {
                r matches Ok(a) && a.number == code_of(w) && a.reason@ == decode_utf8(rest)
            } else {
                r == Err::<Self, Error>(Error::Utf8)
            }
        }
    }

    /// The class digit fits in its four bits.
    open spec fn representable(&self) -> bool {
        self.number < 1600
    }

    open spec fn same_as(&self, other: Self) -> bool {
        self.number == other.number && self.reason@ == other.reason@
    }

    fn attr_type() -> (r: u16) {
        0x0009
    }

    fn encode_len(&self) -> (r: Result<u16, Error>) {
        let n = self.reason.as_str().as_bytes().len();
        if n > 0xFFFF - 4 {
            Err(Error::IntegerOverflow)
        } else {
            Ok((4 + n) as u16)
        }
    }

    fn encode(&self, ctx: (), builder: &mut MessageBuilder) -> (r: Result<(), Error>) {
        let class = self.number / 100;
        let number = self.number % 100;
        let w: u32 = ((class & 0xF) << 8u32) | number;
        builder.put_be(w as u128, 4);
        builder.put_bytes(self.reason.as_str().as_bytes());
        proof {
            lemma_be_bytes_len(w as nat, 4);
            assert(builder@.bytes =~= old(builder)@.bytes + (be_bytes(code_word(self.number) as nat, 4)
                + encode_utf8(self.reason@)));
        }
        Ok(())
    }

    fn decode(ctx: (), msg: &ParsedMessage, attr: &ParsedAttr) -> (r: Result<Self, Error>) {
        let v = attr.value.as_slice();
        if v.len() < 4 {
            return Err(Error::InvalidData("error code must be at least 4 bytes"));
        }
        proof {
            lemma_pow256_facts();
            lemma_be_value_bound(v@.subrange(0, 4));
        }
        let w = read_be(v, 0, 4) as u32;
        let class = (w >> 8u32) & 0xF;
        let digits = w & 0xFF;
        assert(class <= 15 && digits <= 255) by (bit_vector)
            requires
                class == (w >> 8u32) & 0xF,
                digits == w & 0xFF,
        ;
        let number = class * 100 + digits;
        match utf8_to_string(slice_subrange(v, 4, v.len())) {
            Some(reason) => Ok(ErrorCode { number, reason }),
            None => Err(Error::Utf8),
        }
    }

    proof fn lemma_round_trip(&self, ctx: (), id: u128, before: Seq<u8>, header: Seq<u8>, r: Result<Self, Error>) {
        let n = self.number;
        let w = code_word(n);
        let c = n / 100;
        let m = n % 100;
        assert(c < 16);
        assert(((c & 0xF) << 8u32) | m == w);
        assert((((c & 0xF) << 8u32) | m) >> 8u32 & 0xF == c && (((c & 0xF) << 8u32) | m) & 0xFF == m)
            by (bit_vector)
            requires
                c < 16,
                m < 100,
        ;
        lemma_pow256_facts();
        lemma_be_bytes_len(w as nat, 4);
        lemma_be_round_trip(w as nat, 4);
        let value = self.value_bytes(ctx, id, before + header);
        assert(value.subrange(0, 4) =~= be_bytes(w as nat, 4));
        assert(value.subrange(4, value.len() as int) =~= encode_utf8(self.reason@));
        encode_utf8_valid_utf8(self.reason@);
        encode_utf8_decode_utf8(self.reason@);
    }
}

} // verus!
