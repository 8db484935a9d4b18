//! The attribute codec contract and the simple attributes.
use vstd::prelude::*;
use vstd::slice::slice_to_vec;
use crate::builder::MessageBuilder;
use crate::error::Error;
use crate::parse::{ParsedAttr, ParsedMessage};
use crate::crypto::utf8_to_string;
use crate::wire::{be_bytes, lemma_be2};
use vstd::utf8::{decode_utf8, encode_utf8, encode_utf8_decode_utf8, encode_utf8_valid_utf8, valid_utf8};

pub mod addr;
pub mod integrity;
pub mod fingerprint;
pub mod error_code;
pub mod user_hash;
pub mod password_algs;

pub use addr::{AlternateServer, MappedAddress, SocketAddress, XorMappedAddress};
pub use integrity::{new_hmac_sha1, new_hmac_sha256, MessageIntegrity, MessageIntegrityKey, MessageIntegritySha256};
pub use fingerprint::Fingerprint;
pub use error_code::ErrorCode;
pub use user_hash::UserHash;
pub use password_algs::{PasswordAlgorithm, PasswordAlgorithms};

verus! {

/// What every attribute codec provides. `encode` runs after the builder has
/// written the attribute's TLV header and set the message length to include the
/// whole attribute, so a codec may checksum the message so far.
pub trait Attribute: Sized {
    /// What the caller hands to `encode` and `decode` (a key, or nothing).
    type Context;

    /// The attribute's type code on the wire.
    spec fn type_code() -> u16;

    /// The length of the encoded value, padding excluded.
    spec fn value_len(&self) -> nat;

    /// The value bytes `encode` appends after `prefix`, the message so far
    /// including this attribute's TLV header; `id` is the message's id word.
    spec fn value_bytes(&self, ctx: Self::Context, id: u128, prefix: Seq<u8>) -> Seq<u8>;

    /// `r` is what `decode` gives for the value `value`, found in a message with
    /// id word `id` after the bytes `before` (everything up to its TLV header).
    spec fn decodes_to(
        ctx: Self::Context,
        id: u128,
        before: Seq<u8>,
        value: Seq<u8>,
        r: Result<Self, Error>,
    ) -> bool;

    /// The wire form can hold this value without loss.
    spec fn representable(&self) -> bool;

    /// `other` carries the same content as `self`.
    spec fn same_as(&self, other: Self) -> bool;

    /// The type code, at run time.
    fn attr_type() -> (r: u16)
        ensures
            r == Self::type_code(),
    ;

    /// The length of the encoded value, or `IntegerOverflow` if it does not fit
    /// in 16 bits.
    fn encode_len(&self) -> (r: Result<u16, Error>)
        ensures
            self.value_len() <= 0xFFFF ==> r == Ok::<u16, Error>(self.value_len() as u16),
            self.value_len() > 0xFFFF ==> r == Err::<u16, Error>(Error::IntegerOverflow),
    ;

    /// Appends the value bytes to the builder.
    fn encode(&self, ctx: Self::Context, builder: &mut MessageBuilder) -> (r: Result<(), Error>)
        requires
            old(builder).wf(),
            old(builder)@.bytes.len() >= 24,
            self.value_len() <= 0xFFFF,
        ensures
            r is Ok,
            final(builder).wf(),
            final(builder)@ == old(builder)@.append(
                self.value_bytes(ctx, old(builder)@.id, old(builder)@.bytes),
            ),
            self.value_bytes(ctx, old(builder)@.id, old(builder)@.bytes).len() == self.value_len(),
    ;

    /// Reads the attribute from a parsed message.
    fn decode(ctx: Self::Context, msg: &ParsedMessage, attr: &ParsedAttr) -> (r: Result<Self, Error>)
        requires
            msg.wf(),
            msg.holds(attr),
        ensures
            Self::decodes_to(
                ctx,
                msg.id_word(),
                msg.bytes().subrange(0, attr.attr_idx as int),
                attr.value@,
                r,
            ),
    ;

    /// Decoding what `encode` wrote, with the same context and id, gives back
    /// the value.
    proof fn lemma_round_trip(
        &self,
        ctx: Self::Context,
        id: u128,
        before: Seq<u8>,
        header: Seq<u8>,
        r: Result<Self, Error>,
    )
        requires
            self.value_len() <= 0xFFFF,
            self.representable(),
            header.len() == 4,
            Self::decodes_to(ctx, id, before, self.value_bytes(ctx, id, before + header), r),
        ensures
            r matches Ok(v) && self.same_as(v),
    ;
}

/// A UTF-8 text attribute.
pub struct StringAttribute<const TYPE: u16>(pub String);

impl<const TYPE: u16> StringAttribute<TYPE> {
    pub fn new(s: &str) -> (r: Self)
        ensures
            r.0@ == s@,
    {
        StringAttribute(s.to_owned())
    }
}

impl<const TYPE: u16> Attribute for StringAttribute<TYPE> {
    type Context = ();

    open spec fn type_code() -> u16 {
        TYPE
    }

    open spec fn value_len(&self) -> nat {
        encode_utf8(self.0@).len()
    }

    open spec fn value_bytes(&self, ctx: (), id: u128, prefix: Seq<u8>) -> Seq<u8> {
        encode_utf8(self.0@)
    }

    open spec fn decodes_to(ctx: (), id: u128, before: Seq<u8>, value: Seq<u8>, r: Result<Self, Error>) -> bool {
        match r {
            Ok(a) => valid_utf8(value) && a.0@ == decode_utf8(value),
            Err(e) => !valid_utf8(value) && e == Error::Utf8,
        }
    }

    open spec fn representable(&self) -> bool {
        true
    }

    open spec fn same_as(&self, other: Self) -> bool {
        self.0@ == other.0@
    }

    fn attr_type() -> (r: u16) {
        TYPE
    }

    fn encode_len(&self) -> (r: Result<u16, Error>) {
        let n = self.0.as_str().as_bytes().len();
        if n > 0xFFFF {
            Err(Error::IntegerOverflow)
        } else {
            Ok(n as u16)
        }
    }

    fn encode(&self, ctx: (), builder: &mut MessageBuilder) -> (r: Result<(), Error>) {
        builder.put_bytes(self.0.as_str().as_bytes());
        Ok(())
    }

    fn decode(ctx: (), msg: &ParsedMessage, attr: &ParsedAttr) -> (r: Result<Self, Error>) {
        match utf8_to_string(attr.value.as_slice()) {
            Some(s) => Ok(StringAttribute(s)),
            None => Err(Error::Utf8),
        }
    }

    proof fn lemma_round_trip(&self, ctx: (), id: u128, before: Seq<u8>, header: Seq<u8>, r: Result<Self, Error>) {
        encode_utf8_valid_utf8(self.0@);
        encode_utf8_decode_utf8(self.0@);
    }
}

/// An attribute holding opaque bytes.
pub struct BytesAttribute<const TYPE: u16>(pub Vec<u8>);

impl<const TYPE: u16> BytesAttribute<TYPE> {
    pub fn new(s: &[u8]) -> (r: Self)
        ensures
            r.0@ == s@,
    {
        BytesAttribute(slice_to_vec(s))
    }
}

impl<const TYPE: u16> Attribute for BytesAttribute<TYPE> {
    type Context = ();

    open spec fn type_code() -> u16 {
        TYPE
    }

    open spec fn value_len(&self) -> nat {
        self.0@.len()
    }

    open spec fn value_bytes(&self, ctx: (), id: u128, prefix: Seq<u8>) -> Seq<u8> {
        self.0@
    }

    open spec fn decodes_to(ctx: (), id: u128, before: Seq<u8>, value: Seq<u8>, r: Result<Self, Error>) -> bool {
        r matches Ok(a) && a.0@ == value
    }

    open spec fn representable(&self) -> bool {
        true
    }

    open spec fn same_as(&self, other: Self) -> bool {
        self.0@ == other.0@
    }

    fn attr_type() -> (r: u16) {
        TYPE
    }

    fn encode_len(&self) -> (r: Result<u16, Error>) {
        let n = self.0.len();
        if n > 0xFFFF {
            Err(Error::IntegerOverflow)
        } else {
            Ok(n as u16)
        }
    }

    fn encode(&self, ctx: (), builder: &mut MessageBuilder) -> (r: Result<(), Error>) {
        builder.put_bytes(self.0.as_slice());
        Ok(())
    }

    fn decode(ctx: (), msg: &ParsedMessage, attr: &ParsedAttr) -> (r: Result<Self, Error>) {
        Ok(BytesAttribute(attr.value.clone()))
    }

    proof fn lemma_round_trip(&self, ctx: (), id: u128, before: Seq<u8>, header: Seq<u8>, r: Result<Self, Error>) {
    }
}

/// The attribute types listed, two bytes each, most significant first.
pub open spec fn u16s_bytes(s: Seq<u16>) -> Seq<u8> {
    Seq::new(
        2 * s.len(),
        |j: int|
            if j % 2 == 0 {
                (s[j / 2] / 256) as u8
            } else {
                (s[j / 2] % 256) as u8
            },
    )
}

/// The 16-bit numbers that consecutive byte pairs of `v` give.
pub open spec fn u16s_of(v: Seq<u8>) -> Seq<u16> {
    Seq::new(v.len() / 2, |i: int| (v[2 * i] as int * 256 + v[2 * i + 1] as int) as u16)
}

/// UNKNOWN-ATTRIBUTES: the types a server did not understand.
pub struct UnknownAttributes(pub Vec<u16>);

impl Attribute for UnknownAttributes {
    type Context = ();

    open spec fn type_code() -> u16 {
        0x000A
    }

    open spec fn value_len(&self) -> nat {
        2 * self.0@.len()
    }

    open spec fn value_bytes(&self, ctx: (), id: u128, prefix: Seq<u8>) -> Seq<u8> {
        u16s_bytes(self.0@)
    }

    open spec fn decodes_to(ctx: (), id: u128, before: Seq<u8>, value: Seq<u8>, r: Result<Self, Error>) -> bool {
        if value.len() % 2 == 0 {
            r matches Ok(a) && a.0@ == u16s_of(value)
        } else {
            r == Err::<Self, Error>(Error::InvalidData("failed to read from buffer"))
        }
    }

    open spec fn representable(&self) -> bool {
        true
    }

    open spec fn same_as(&self, other: Self) -> bool {
        self.0@ == other.0@
    }

    fn attr_type() -> (r: u16) {
        0x000A
    }

    fn encode_len(&self) -> (r: Result<u16, Error>) {
        let n = self.0.len();
        if n > 0x7FFF {
            Err(Error::IntegerOverflow)
        } else {
            Ok((2 * n) as u16)
        }
    }

    fn encode(&self, ctx: (), builder: &mut MessageBuilder) -> (r: Result<(), Error>) {
        let mut i: usize = 0;
        while i < self.0.len()
            invariant
                i <= self.0@.len(),
                builder.wf(),
                builder@ == old(builder)@.append(u16s_bytes(self.0@.subrange(0, i as int))),
            decreases self.0@.len() - i,
        {
            let x = self.0[i];
            builder.put_be(x as u128, 2);
            proof {
                lemma_be2(x as nat);
                assert(u16s_bytes(self.0@.subrange(0, i + 1)) =~= u16s_bytes(self.0@.subrange(0, i as int))
                    + be_bytes(x as nat, 2));
                assert(builder@.bytes =~= old(builder)@.bytes + u16s_bytes(self.0@.subrange(0, i + 1)));
            }
            i = i + 1;
        }
        assert(self.0@.subrange(0, self.0@.len() as int) =~= self.0@);
        Ok(())
    }

    fn decode(ctx: (), msg: &ParsedMessage, attr: &ParsedAttr) -> (r: Result<Self, Error>) {
        let v = attr.value.as_slice();
        if v.len() % 2 != 0 {
            return Err(Error::InvalidData("failed to read from buffer"));
        }
        let mut out: Vec<u16> = Vec::new();
        let mut i: usize = 0;
        while i < v.len() / 2
            invariant
                v@.len() % 2 == 0,
                i <= v@.len() / 2,
                out@ =~= u16s_of(v@).subrange(0, i as int),
            decreases v@.len() / 2 - i,
        {
            let x = v[2 * i] as u16 * 256 + v[2 * i + 1] as u16;
            out.push(x);
            i = i + 1;
        }
        assert(out@ =~= u16s_of(v@));
        Ok(UnknownAttributes(out))
    }

    proof fn lemma_round_trip(&self, ctx: (), id: u128, before: Seq<u8>, header: Seq<u8>, r: Result<Self, Error>) {
        assert(u16s_of(u16s_bytes(self.0@)) =~= self.0@);
    }
}

/// USERNAME.
pub type Username = StringAttribute<0x0006>;

/// REALM.
pub type Realm = StringAttribute<0x0014>;

/// NONCE.
pub type Nonce = BytesAttribute<0x0015>;

/// SOFTWARE.
pub type Software = StringAttribute<0x8022>;

/// ALTERNATE-DOMAIN.
pub type AlternateDomain = BytesAttribute<0x8003>;

} // verus!
