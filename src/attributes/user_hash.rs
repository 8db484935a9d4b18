//! USERHASH: SHA-256 of `username ":" realm`.
use vstd::prelude::*;
use vstd::slice::slice_to_vec;
use vstd::utf8::encode_utf8;
use super::Attribute;
use crate::builder::MessageBuilder;
use crate::crypto::{sha256, sha256_of};
use crate::error::Error;
use crate::parse::{ParsedAttr, ParsedMessage};
use crate::wire::push_all;

verus! {

/// The bytes `username ":" realm` that the hash covers.
pub open spec fn user_hash_input(username: Seq<char>, realm: Seq<char>) -> Seq<u8> {
    encode_utf8(username) + seq![0x3Au8] + encode_utf8(realm)
}

/// USERHASH: a 32-byte value.
pub struct UserHash(pub Vec<u8>);

impl UserHash {
    /// The hash of `username ":" realm`.
    pub fn new(username: &str, realm: &str) -> (r: Self)
        ensures
            r.0@ == sha256_of(user_hash_input(username@, realm@)),
            r.0@.len() == 32,
    {
        let mut input: Vec<u8> = slice_to_vec(username.as_bytes());
        input.push(0x3A);
        push_all(&mut input, realm.as_bytes());
        assert(input@ =~= user_hash_input(username@, realm@));
        UserHash(sha256(input.as_slice()))
    }
}

impl Attribute for UserHash {
    type Context = ();

    open spec fn type_code() -> u16 {
        0x001E
    }

    open spec fn value_len(&self) -> nat {
        self.0@.len()
    }

    open spec fn value_bytes(&self, ctx: (), id: u128, prefix: Seq<u8>) -> Seq<u8> {
        self.0@
    }

    open spec fn decodes_to(ctx: (), id: u128, before: Seq<u8>, value: Seq<u8>, r: Result<Self, Error>) -> bool {
        if value.len() == 32 {
            r matches Ok(a) && a.0@ == value
        } else {
            r == Err::<Self, Error>(Error::InvalidData("user hash must be 32 bytes"))
        }
    }

    open spec fn representable(&self) -> bool {
        self.0@.len() == 32
    }

    open spec fn same_as(&self, other: Self) -> bool {
        self.0@ == other.0@
    }

    fn attr_type() -> (r: u16) {
        0x001E
    }

    fn encode_len(&self) -> (r: Result<u16, Error>) {
        let n = self.0.len();
        if n > 0xFFFF {
            Err(Error::IntegerOverflow)
        } else {
            Ok(n as u16)
        }
    }

    fn encode(&self, ctx: (), builder: &mut MessageBuilder) -> (r: Result<(), Error>) {
        builder.put_bytes(self.0.as_slice());
        Ok(())
    }

    fn decode(ctx: (), msg: &ParsedMessage, attr: &ParsedAttr) -> (r: Result<Self, Error>) {
        if attr.value.len() == 32 {
            Ok(UserHash(attr.value.clone()))
        } else {
            Err(Error::InvalidData("user hash must be 32 bytes"))
        }
    }

    proof fn lemma_round_trip(&self, ctx: (), id: u128, before: Seq<u8>, header: Seq<u8>, r: Result<Self, Error>) {
    }
}

} // verus!
