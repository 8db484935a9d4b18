//! Address attributes: MAPPED-ADDRESS, XOR-MAPPED-ADDRESS, ALTERNATE-SERVER.
use vstd::prelude::*;
use super::Attribute;
use crate::builder::MessageBuilder;
use crate::error::Error;
use crate::header::COOKIE;
use crate::parse::{ParsedAttr, ParsedMessage};
use crate::wire::{be_bytes, be_value, lemma_be_bytes_len, lemma_be_round_trip, lemma_be_value_bound, lemma_pow256_facts, read_be};

verus! {

/// The high 16 bits of the magic cookie, which mask the port.
pub const XOR16: u16 = 0x2112;

/// A transport address: IPv4 or IPv6 address, network-endian as a number, and
/// port.
#[derive(Debug, Clone, Copy, PartialEq, Eq, Hash, Structural)]
pub enum SocketAddress {
    V4 { ip: u32, port: u16 },
    V6 { ip: u128, port: u16 },
}

/// The wire form `0x00 | family | port ^ x16 | address ^ (x32 or x128)`.
pub open spec fn addr_bytes(a: SocketAddress, x16: u16, x32: u32, x128: u128) -> Seq<u8> {
    match a {
        SocketAddress::V4 { ip, port } => seq![0u8, 1u8] + be_bytes((port ^ x16) as nat, 2)
            + be_bytes((ip ^ x32) as nat, 4),
        SocketAddress::V6 { ip, port } => seq![0u8, 2u8] + be_bytes((port ^ x16) as nat, 2)
            + be_bytes((ip ^ x128) as nat, 16),
    }
}

/// The length of the wire form: 8 bytes for IPv4, 20 for IPv6.
pub open spec fn addr_len(a: SocketAddress) -> nat {
    match a {
        SocketAddress::V4 { .. } => 8,
        SocketAddress::V6 { .. } => 20,
    }
}

/// Reading an address back from its wire form; bytes after the address are
/// ignored.
pub open spec fn addr_decoded(v: Seq<u8>, x16: u16, x32: u32, x128: u128) -> Result<SocketAddress, Error> {
    if v.len() < 1 {
        Err(Error::InvalidData("failed to read from buffer"))
    } else if v[0] != 0 {
        Err(Error::InvalidData("first byte must be zero"))
    } else if v.len() < 4 {
        Err(Error::InvalidData("failed to read from buffer"))
    } else {
        let port = (be_value(v.subrange(2, 4)) as u16) ^ x16;
        if v[1] == 1 {
            if v.len() < 8 {
                Err(Error::InvalidData("failed to read from buffer"))
            } else {
                Ok(SocketAddress::V4 { ip: (be_value(v.subrange(4, 8)) as u32) ^ x32, port })
            }
        } else if v[1] == 2 {
            if v.len() < 20 {
                Err(Error::InvalidData("failed to read from buffer"))
            } else {
                Ok(SocketAddress::V6 { ip: (be_value(v.subrange(4, 20)) as u128) ^ x128, port })
            }
        } else {
            Err(Error::InvalidData("invalid address family"))
        }
    }
}

/// Reading back the wire form of an address with the same masks gives the
/// address.
pub proof fn lemma_addr_round_trip(a: SocketAddress, x16: u16, x32: u32, x128: u128)
    ensures
        addr_decoded(addr_bytes(a, x16, x32, x128), x16, x32, x128) == Ok::<SocketAddress, Error>(a),
        addr_bytes(a, x16, x32, x128).len() == addr_len(a),
{
    lemma_pow256_facts();
    let v = addr_bytes(a, x16, x32, x128);
    match a {
        SocketAddress::V4 { ip, port } => {
            let p = port ^ x16;
            let i = ip ^ x32;
            lemma_be_bytes_len(p as nat, 2);
            lemma_be_bytes_len(i as nat, 4);
            assert(v.subrange(2, 4) =~= be_bytes(p as nat, 2));
            assert(v.subrange(4, 8) =~= be_bytes(i as nat, 4));
            lemma_be_round_trip(p as nat, 2);
            lemma_be_round_trip(i as nat, 4);
            assert(p ^ x16 == port) by (bit_vector)
                requires
                    p == port ^ x16,
            ;
            assert(i ^ x32 == ip) by (bit_vector)
                requires
                    i == ip ^ x32,
            ;
        },
        SocketAddress::V6 { ip, port } => {
            let p = port ^ x16;
            let i = ip ^ x128;
            lemma_be_bytes_len(p as nat, 2);
            lemma_be_bytes_len(i as nat, 16);
            assert(v.subrange(2, 4) =~= be_bytes(p as nat, 2));
            assert(v.subrange(4, 20) =~= be_bytes(i as nat, 16));
            lemma_be_round_trip(p as nat, 2);
            lemma_be_round_trip(i as nat, 16);
            assert(p ^ x16 == port) by (bit_vector)
                requires
                    p == port ^ x16,
            ;
            assert(i ^ x128 == ip) by (bit_vector)
                requires
                    i == ip ^ x128,
            ;
        },
    }
}

/// XOR-MAPPED-ADDRESS masking undone with the same transaction id gives back
/// the address, for every address and every id word.
pub proof fn lemma_xor_addr_identity(a: SocketAddress, id: u128)
    ensures
        addr_decoded(addr_bytes(a, XOR16, COOKIE, id), XOR16, COOKIE, id) == Ok::<SocketAddress, Error>(a),
{
    lemma_addr_round_trip(a, XOR16, COOKIE, id);
}

fn decode_addr(v: &[u8], x16: u16, x32: u32, x128: u128) -> (r: Result<SocketAddress, Error>)
    ensures
        r == addr_decoded(v@, x16, x32, x128),
{
    let len = v.len();
    if len < 1 {
        return Err(Error::InvalidData("failed to read from buffer"));
    }
    if v[0] != 0 {
        return Err(Error::InvalidData("first byte must be zero"));
    }
    if len < 4 {
        return Err(Error::InvalidData("failed to read from buffer"));
    }
    proof {
        lemma_pow256_facts();
        lemma_be_value_bound(v@.subrange(2, 4));
    }
    let family = v[1];
    let port = (read_be(v, 2, 2) as u16) ^ x16;
    if family == 1 {
        if len < 8 {
            return Err(Error::InvalidData("failed to read from buffer"));
        }
        proof {
            lemma_be_value_bound(v@.subrange(4, 8));
        }
        let ip = (read_be(v, 4, 4) as u32) ^ x32;
        Ok(SocketAddress::V4 { ip, port })
    } else if family == 2 {
        if len < 20 {
            return Err(Error::InvalidData("failed to read from buffer"));
        }
        let ip = read_be(v, 4, 16) ^ x128;
        Ok(SocketAddress::V6 { ip, port })
    } else {
        Err(Error::InvalidData("invalid address family"))
    }
}

fn encode_addr(addr: SocketAddress, builder: &mut MessageBuilder, x16: u16, x32: u32, x128: u128)
    requires
        old(builder).wf(),
    ensures
        final(builder).wf(),
        final(builder)@ == old(builder)@.append(addr_bytes(addr, x16, x32, x128)),
{
    let ghost start = builder@;
    builder.put_be(0, 1);
    match addr {
        SocketAddress::V4 { ip, port } => {
            builder.put_be(1, 1);
            builder.put_be((port ^ x16) as u128, 2);
            builder.put_be((ip ^ x32) as u128, 4);
        },
        SocketAddress::V6 { ip, port } => {
            builder.put_be(2, 1);
            builder.put_be((port ^ x16) as u128, 2);
            builder.put_be(ip ^ x128, 16);
        },
    }
    proof {
        reveal_with_fuel(be_bytes, 2);
        assert(builder@.bytes =~= start.bytes + addr_bytes(addr, x16, x32, x128));
    }
}

fn addr_encode_len(addr: SocketAddress) -> (r: u16)
    ensures
        r as nat == addr_len(addr),
{
    match addr {
        SocketAddress::V4 { .. } => 8,
        SocketAddress::V6 { .. } => 20,
    }
}

/// MAPPED-ADDRESS: the address as it is.
pub struct MappedAddress(pub SocketAddress);

impl Attribute for MappedAddress {
    type Context = ();

    open spec fn type_code() -> u16 {
        0x0001
    }

    open spec fn value_len(&self) -> nat {
        addr_len(self.0)
    }

    open spec fn value_bytes(&self, ctx: (), id: u128, prefix: Seq<u8>) -> Seq<u8> {
        addr_bytes(self.0, 0, 0, 0)
    }

    open spec fn decodes_to(ctx: (), id: u128, before: Seq<u8>, value: Seq<u8>, r: Result<Self, Error>) -> bool {
        match addr_decoded(value, 0, 0, 0) {
            Ok(a) => r == Ok::<Self, Error>(MappedAddress(a)),
            Err(e) => r == Err::<Self, Error>(e),
        }
    }

    open spec fn representable(&self) -> bool {
        true
    }

    open spec fn same_as(&self, other: Self) -> bool {
        self.0 == other.0
    }

    fn attr_type() -> (r: u16) {
        0x0001
    }

    fn encode_len(&self) -> (r: Result<u16, Error>) {
        Ok(addr_encode_len(self.0))
    }

    fn encode(&self, ctx: (), builder: &mut MessageBuilder) -> (r: Result<(), Error>) {
        proof {
            lemma_addr_round_trip(self.0, 0, 0, 0);
        }
        encode_addr(self.0, builder, 0, 0, 0);
        Ok(())
    }

    fn decode(ctx: (), msg: &ParsedMessage, attr: &ParsedAttr) -> (r: Result<Self, Error>) {
        match decode_addr(attr.value.as_slice(), 0, 0, 0) {
            Ok(a) => Ok(MappedAddress(a)),
            Err(e) => Err(e),
        }
    }

    proof fn lemma_round_trip(&self, ctx: (), id: u128, before: Seq<u8>, header: Seq<u8>, r: Result<Self, Error>) {
        lemma_addr_round_trip(self.0, 0, 0, 0);
    }
}

/// XOR-MAPPED-ADDRESS: the port masked with the high half of the magic cookie,
/// an IPv4 address with the cookie, an IPv6 address with the id word.
pub struct XorMappedAddress(pub SocketAddress);

impl Attribute for XorMappedAddress {
    type Context = ();

    open spec fn type_code() -> u16 {
        0x0020
    }

    open spec fn value_len(&self) -> nat {
        addr_len(self.0)
    }

    open spec fn value_bytes(&self, ctx: (), id: u128, prefix: Seq<u8>) -> Seq<u8> {
        addr_bytes(self.0, XOR16, COOKIE, id)
    }

    open spec fn decodes_to(ctx: (), id: u128, before: Seq<u8>, value: Seq<u8>, r: Result<Self, Error>) -> bool {
        match addr_decoded(value, XOR16, COOKIE, id) {
            Ok(a) => r == Ok::<Self, Error>(XorMappedAddress(a)),
            Err(e) => r == Err::<Self, Error>(e),
        }
    }

    open spec fn representable(&self) -> bool {
        true
    }

    open spec fn same_as(&self, other: Self) -> bool {
        self.0 == other.0
    }

    fn attr_type() -> (r: u16) {
        0x0020
    }

    fn encode_len(&self) -> (r: Result<u16, Error>) {
        Ok(addr_encode_len(self.0))
    }

    fn encode(&self, ctx: (), builder: &mut MessageBuilder) -> (r: Result<(), Error>) {
        let id = builder.id().0;
        proof {
            lemma_addr_round_trip(self.0, XOR16, COOKIE, id);
        }
        encode_addr(self.0, builder, XOR16, COOKIE, id);
        Ok(())
    }

    fn decode(ctx: (), msg: &ParsedMessage, attr: &ParsedAttr) -> (r: Result<Self, Error>) {
        match decode_addr(attr.value.as_slice(), XOR16, COOKIE, msg.id().0) {
            Ok(a) => Ok(XorMappedAddress(a)),
            Err(e) => Err(e),
        }
    }

    proof fn lemma_round_trip(&self, ctx: (), id: u128, before: Seq<u8>, header: Seq<u8>, r: Result<Self, Error>) {
        lemma_addr_round_trip(self.0, XOR16, COOKIE, id);
    }
}

/// ALTERNATE-SERVER: the address as it is.
pub struct AlternateServer(pub SocketAddress);

impl Attribute for AlternateServer {
    type Context = ();

    open spec fn type_code() -> u16 {
        0x8023
    }

    open spec fn value_len(&self) -> nat {
        addr_len(self.0)
    }

    open spec fn value_bytes(&self, ctx: (), id: u128, prefix: Seq<u8>) -> Seq<u8> {
        addr_bytes(self.0, 0, 0, 0)
    }

    open spec fn decodes_to(ctx: (), id: u128, before: Seq<u8>, value: Seq<u8>, r: Result<Self, Error>) -> bool {
        match addr_decoded(value, 0, 0, 0) {
            Ok(a) => r == Ok::<Self, Error>(AlternateServer(a)),
            Err(e) => r == Err::<Self, Error>(e),
        }
    }

    open spec fn representable(&self) -> bool {
        true
    }

    open spec fn same_as(&self, other: Self) -> bool {
        self.0 == other.0
    }

    fn attr_type() -> (r: u16) {
        0x8023
    }

    fn encode_len(&self) -> (r: Result<u16, Error>) {
        Ok(addr_encode_len(self.0))
    }

    fn encode(&self, ctx: (), builder: &mut MessageBuilder) -> (r: Result<(), Error>) {
        proof {
            lemma_addr_round_trip(self.0, 0, 0, 0);
        }
        encode_addr(self.0, builder, 0, 0, 0);
        Ok(())
    }

    fn decode(ctx: (), msg: &ParsedMessage, attr: &ParsedAttr) -> (r: Result<Self, Error>) {
        match decode_addr(attr.value.as_slice(), 0, 0, 0) {
            Ok(a) => Ok(AlternateServer(a)),
            Err(e) => Err(e),
        }
    }

    proof fn lemma_round_trip(&self, ctx: (), id: u128, before: Seq<u8>, header: Seq<u8>, r: Result<Self, Error>) {
        lemma_addr_round_trip(self.0, 0, 0, 0);
    }
}

} // verus!
