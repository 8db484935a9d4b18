//! MESSAGE-INTEGRITY and MESSAGE-INTEGRITY-SHA256, and their key derivation.
use vstd::prelude::*;
use vstd::slice::{slice_subrange, slice_to_vec};
use vstd::utf8::encode_utf8;
use super::Attribute;
use crate::builder::MessageBuilder;
use crate::crypto::{hmac_sha1, hmac_sha1_of, hmac_sha256, hmac_sha256_of, md5, md5_of};
use crate::error::Error;
use crate::parse::{ParsedAttr, ParsedMessage};
use crate::wire::{ct_eq, push_all};

verus! {

/// The bytes `username ":" realm ":" password` that the long-term key digests.
pub open spec fn long_term_input(username: Seq<char>, realm: Seq<char>, password: Seq<char>) -> Seq<u8> {
    encode_utf8(username) + seq![0x3Au8] + encode_utf8(realm) + seq![0x3Au8] + encode_utf8(password)
}

/// The HMAC key of an integrity attribute.
#[derive(Debug, Clone)]
pub struct MessageIntegrityKey {
    pub key: Vec<u8>,
}

impl MessageIntegrityKey {
    /// Short-term credential: the password bytes are the key.
    pub fn new_short_term(password: &str) -> (r: Self)
        ensures
            r.key@ == encode_utf8(password@),
    {
        MessageIntegrityKey { key: slice_to_vec(password.as_bytes()) }
    }

    /// Long-term credential: the key is `MD5(username ":" realm ":" password)`.
    pub fn new_long_term(username: &str, realm: &str, password: &str) -> (r: Self)
        ensures
            r.key@ == md5_of(long_term_input(username@, realm@, password@)),
            r.key@.len() == 16,
    {
        let mut input: Vec<u8> = slice_to_vec(username.as_bytes());
        input.push(0x3A);
        push_all(&mut input, realm.as_bytes());
        input.push(0x3A);
        push_all(&mut input, password.as_bytes());
        proof {
            assert(input@ =~= long_term_input(username@, realm@, password@));
        }
        MessageIntegrityKey { key: md5(input.as_slice()) }
    }
}

/// The HMAC-SHA1 key for a credential string: its MD5 digest.
pub fn new_hmac_sha1(password: &str) -> (r: MessageIntegrityKey)
    ensures
        r.key@ == md5_of(encode_utf8(password@)),
        r.key@.len() == 16,
{
    MessageIntegrityKey { key: md5(password.as_bytes()) }
}

/// The HMAC-SHA256 key for a credential string: its MD5 digest.
pub fn new_hmac_sha256(password: &str) -> (r: MessageIntegrityKey)
    ensures
        r.key@ == md5_of(encode_utf8(password@)),
        r.key@.len() == 16,
{
    MessageIntegrityKey { key: md5(password.as_bytes()) }
}

/// The bytes an integrity attribute covers when it is written: the message so
/// far without the attribute's own TLV header, with which `prefix` ends.
pub open spec fn covered(prefix: Seq<u8>) -> Seq<u8> {
    prefix.subrange(0, prefix.len() - 4)
}

/// MESSAGE-INTEGRITY: HMAC-SHA1 over the message up to this attribute.
#[derive(Debug, Clone, Copy, PartialEq, Eq, Default)]
pub struct MessageIntegrity;

impl Attribute for MessageIntegrity {
    type Context = MessageIntegrityKey;

    open spec fn type_code() -> u16 {
        0x0008
    }

    open spec fn value_len(&self) -> nat {
        20
    }

    open spec fn value_bytes(&self, ctx: MessageIntegrityKey, id: u128, prefix: Seq<u8>) -> Seq<u8> {
        hmac_sha1_of(ctx.key@, covered(prefix))
    }

    open spec fn decodes_to(
        ctx: MessageIntegrityKey,
        id: u128,
        before: Seq<u8>,
        value: Seq<u8>,
        r: Result<Self, Error>,
    ) -> bool {
        if value == hmac_sha1_of(ctx.key@, before) {
            r == Ok::<Self, Error>(MessageIntegrity)
        } else {
            r == Err::<Self, Error>(Error::InvalidData("failed to verify message integrity"))
        }
    }

    open spec fn representable(&self) -> bool {
        true
    }

    open spec fn same_as(&self, other: Self) -> bool {
        true
    }

    fn attr_type() -> (r: u16) {
        0x0008
    }

    fn encode_len(&self) -> (r: Result<u16, Error>) {
        Ok(20)
    }

    fn encode(&self, ctx: MessageIntegrityKey, builder: &mut MessageBuilder) -> (r: Result<(), Error>) {
        let data = builder.buffer();
        let n = data.len();
        let mac = hmac_sha1(ctx.key.as_slice(), slice_subrange(data.as_slice(), 0, n - 4));
        builder.put_bytes(mac.as_slice());
        Ok(())
    }

    fn decode(ctx: MessageIntegrityKey, msg: &ParsedMessage, attr: &ParsedAttr) -> (r: Result<Self, Error>) {
        let before = slice_subrange(msg.buffer().as_slice(), 0, attr.attr_idx);
        let mac = hmac_sha1(ctx.key.as_slice(), before);
        if ct_eq(attr.value.as_slice(), mac.as_slice()) {
            Ok(MessageIntegrity)
        } else {
            Err(Error::InvalidData("failed to verify message integrity"))
        }
    }

    proof fn lemma_round_trip(
        &self,
        ctx: MessageIntegrityKey,
        id: u128,
        before: Seq<u8>,
        header: Seq<u8>,
        r: Result<Self, Error>,
    ) {
        assert(covered(before + header) =~= before);
    }
}

/// MESSAGE-INTEGRITY-SHA256: HMAC-SHA256 over the message up to this attribute.
#[derive(Debug, Clone, Copy, PartialEq, Eq, Default)]
pub struct MessageIntegritySha256;

impl Attribute for MessageIntegritySha256 {
    type Context = MessageIntegrityKey;

    open spec fn type_code() -> u16 {
        0x001C
    }

    open spec fn value_len(&self) -> nat {
        32
    }

    open spec fn value_bytes(&self, ctx: MessageIntegrityKey, id: u128, prefix: Seq<u8>) -> Seq<u8> {
        hmac_sha256_of(ctx.key@, covered(prefix))
    }

    open spec fn decodes_to(
        ctx: MessageIntegrityKey,
        id: u128,
        before: Seq<u8>,
        value: Seq<u8>,
        r: Result<Self, Error>,
    ) -> bool {
        if value == hmac_sha256_of(ctx.key@, before) {
            r == Ok::<Self, Error>(MessageIntegritySha256)
        } else {
            r == Err::<Self, Error>(Error::InvalidData("failed to verify message integrity"))
        }
    }

    open spec fn representable(&self) -> bool {
        true
    }

    open spec fn same_as(&self, other: Self) -> bool {
        true
    }

    fn attr_type() -> (r: u16) {
        0x001C
    }

    fn encode_len(&self) -> (r: Result<u16, Error>) {
        Ok(32)
    }

    fn encode(&self, ctx: MessageIntegrityKey, builder: &mut MessageBuilder) -> (r: Result<(), Error>) {
        let data = builder.buffer();
        let n = data.len();
        let mac = hmac_sha256(ctx.key.as_slice(), slice_subrange(data.as_slice(), 0, n - 4));
        builder.put_bytes(mac.as_slice());
        Ok(())
    }

    fn decode(ctx: MessageIntegrityKey, msg: &ParsedMessage, attr: &ParsedAttr) -> (r: Result<Self, Error>) {
        let before = slice_subrange(msg.buffer().as_slice(), 0, attr.attr_idx);
        let mac = hmac_sha256(ctx.key.as_slice(), before);
        if ct_eq(attr.value.as_slice(), mac.as_slice()) {
            Ok(MessageIntegritySha256)
        } else {
            Err(Error::InvalidData("failed to verify message integrity"))
        }
    }

    proof fn lemma_round_trip(
        &self,
        ctx: MessageIntegrityKey,
        id: u128,
        before: Seq<u8>,
        header: Seq<u8>,
        r: Result<Self, Error>,
    ) {
        assert(covered(before + header) =~= before);
    }
}

} // verus!
