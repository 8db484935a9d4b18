//! Parsing a received buffer into a message with located attributes.
use vstd::prelude::*;
use vstd::slice::{slice_subrange, slice_to_vec};
use crate::attributes::Attribute;
use crate::error::Error;
use crate::header::{class_of, Class, Method, MessageHead, MessageId, COOKIE};
use crate::wire::{be_bytes, be_value, pad_len, padding_usize, read_be, zeros, lemma_be_bytes_len, lemma_be_round_trip, lemma_be_value_bound, lemma_pow256_facts};

verus! {

/// The message type in the first two bytes, without the two leading bits.
pub open spec fn msg_type(b: Seq<u8>) -> u16 {
    (be_value(b.subrange(0, 2)) as u16) & 0x3FFF
}

/// The method field as `parse` reports it.
pub open spec fn method_result(typ: u16) -> Result<Method, Error> {
    if typ & 0x3EEF == 0x001 {
        Ok(Method::Binding)
    } else {
        Err(Error::InvalidData("unknown method"))
    }
}

/// The bytes start like a STUN message: a whole header, two zero leading bits,
/// and the magic cookie in bytes 4 to 8.
pub open spec fn looks_like_stun(b: Seq<u8>) -> bool {
    &&& b.len() >= 20
    &&& b[0] < 64
    &&& be_value(b.subrange(4, 8)) == COOKIE
}

/// Whether `i` starts like a STUN message: at least a header long, the two
/// leading bits zero, and the magic cookie in place.
pub fn check_if_stun_message(i: &[u8]) -> (r: bool)
    ensures
        r == looks_like_stun(i@),
{
    if i.len() < 20 {
        return false;
    }
    if i[0] >= 64 {
        return false;
    }
    proof {
        lemma_pow256_facts();
        lemma_be_value_bound(i@.subrange(4, 8));
    }
    read_be(i, 4, 4) as u32 == COOKIE
}

/// The attributes from offset `pos` on, as (offset of the TLV header, type,
/// value length), or the error that walking them meets.
pub open spec fn walk(b: Seq<u8>, pos: nat) -> Result<Seq<(nat, u16, nat)>, Error>
    decreases b.len() - pos,
{
    if pos >= b.len() {
        Ok(Seq::empty())
    } else if pos + 4 > b.len() {
        Err(Error::InvalidData("failed to read from buffer"))
    } else {
        let typ = be_value(b.subrange(pos as int, pos + 2int)) as u16;
        let len = be_value(b.subrange(pos + 2int, pos + 4int));
        let end = pos + 4 + len + pad_len(len);
        if end > b.len() {
            Err(Error::InvalidData("Invalid attribute length in STUN message"))
        } else {
            match walk(b, end) {
                Ok(rest) => Ok(seq![(pos, typ, len)] + rest),
                Err(e) => Err(e),
            }
        }
    }
}

/// One attribute's TLV form with length field `field`: the value's length,
/// or for old peers the value's length with its padding.
pub open spec fn tlv(typ: u16, field: nat, value: Seq<u8>) -> Seq<u8> {
    be_bytes(typ as nat, 2) + be_bytes(field, 2) + value + zeros(pad_len(value.len()))
}

/// Walking from `pos` reads only the bytes at `pos` and after.
pub proof fn lemma_walk_suffix(b1: Seq<u8>, b2: Seq<u8>, pos: nat)
    requires
        b1.len() == b2.len(),
        pos <= b1.len(),
        forall|i: int| pos <= i < b1.len() ==> b1[i] == b2[i],
    ensures
        walk(b1, pos) == walk(b2, pos),
    decreases b1.len() - pos,
{
    if pos < b1.len() && pos + 4 <= b1.len() {
        assert(b1.subrange(pos as int, pos + 2int) =~= b2.subrange(pos as int, pos + 2int));
        assert(b1.subrange(pos + 2int, pos + 4int) =~= b2.subrange(pos + 2int, pos + 4int));
        let len = be_value(b1.subrange(pos + 2int, pos + 4int));
        let end = pos + 4 + len + pad_len(len);
        if end <= b1.len() {
            lemma_walk_suffix(b1, b2, end);
        }
    }
}

/// Bytes appended after a message that walks to its end leave its attributes
/// in place, and the walk goes on from where the message ended.
pub proof fn lemma_walk_append(b: Seq<u8>, tail: Seq<u8>, pos: nat)
    requires
        pos <= b.len(),
        walk(b, pos) is Ok,
    ensures
        walk(b + tail, pos) == match walk(b + tail, b.len()) {
            Ok(r) => Ok::<Seq<(nat, u16, nat)>, Error>(walk(b, pos)->Ok_0 + r),
            Err(e) => Err(e),
        },
    decreases b.len() - pos,
{
    let c = b + tail;
    if pos == b.len() {
        match walk(c, b.len()) {
            Ok(r) => {
                assert(Seq::<(nat, u16, nat)>::empty() + r =~= r);
            },
            Err(e) => {},
        }
    } else {
        assert(c.subrange(pos as int, pos + 2int) =~= b.subrange(pos as int, pos + 2int));
        assert(c.subrange(pos + 2int, pos + 4int) =~= b.subrange(pos + 2int, pos + 4int));
        let typ = be_value(b.subrange(pos as int, pos + 2int)) as u16;
        let len = be_value(b.subrange(pos + 2int, pos + 4int));
        let end = pos + 4 + len + pad_len(len);
        lemma_walk_append(b, tail, end);
        let rest = walk(b, end)->Ok_0;
        match walk(c, b.len()) {
            Ok(r) => {
                assert(seq![(pos, typ, len)] + (rest + r) =~= (seq![(pos, typ, len)] + rest) + r);
            },
            Err(e) => {},
        }
    }
}

/// An attribute written at the end of `b` is found there, with the length its
/// TLV header gives.
pub proof fn lemma_walk_one(b: Seq<u8>, typ: u16, field: nat, value: Seq<u8>)
    requires
        field <= 0xFFFF,
        field == value.len() || field == value.len() + pad_len(value.len()),
    ensures
        walk(b + tlv(typ, field, value), b.len()) == Ok::<Seq<(nat, u16, nat)>, Error>(
            seq![(b.len(), typ, field)],
        ),
{
    let c = b + tlv(typ, field, value);
    let pos = b.len() as int;
    let n = value.len();
    lemma_pow256_facts();
    lemma_be_bytes_len(typ as nat, 2);
    lemma_be_bytes_len(field, 2);
    assert(c.subrange(pos, pos + 2) =~= be_bytes(typ as nat, 2));
    assert(c.subrange(pos + 2, pos + 4) =~= be_bytes(field, 2));
    lemma_be_round_trip(typ as nat, 2);
    lemma_be_round_trip(field, 2);
    assert(field + pad_len(field) == n + pad_len(n));
    assert(c.len() == pos + 4 + field + pad_len(field));
    assert(walk(c, c.len()) == Ok::<Seq<(nat, u16, nat)>, Error>(Seq::empty()));
    assert(seq![(b.len(), typ, field)] + Seq::<(nat, u16, nat)>::empty() =~= seq![(b.len(), typ, field)]);
}

/// An attribute found by the parser.
#[derive(Debug)]
pub struct ParsedAttr {
    /// Index where the attribute's TLV header begins.
    pub attr_idx: usize,
    /// Attribute type code.
    pub typ: u16,
    /// The attribute's value, padding excluded.
    pub value: Vec<u8>,
}

/// A received message: its bytes, header fields and located attributes.
pub struct ParsedMessage {
    pub buffer: Vec<u8>,
    pub head: MessageHead,
    pub id: MessageId,
    pub class: Class,
    pub method: Result<Method, Error>,
    pub tsx_id: u128,
    pub attributes: Vec<ParsedAttr>,
}

impl ParsedMessage {
    /// The received bytes.
    pub open spec fn bytes(&self) -> Seq<u8> {
        self.buffer@
    }

    /// The id word: magic cookie and transaction id.
    pub open spec fn id_word(&self) -> u128 {
        self.id.0
    }

    /// The header word: leading bits, type and length.
    pub open spec fn head_word(&self) -> u32 {
        self.head.0
    }

    /// `attr` is the attribute whose TLV header starts at `attr.attr_idx`.
    pub open spec fn holds(&self, attr: &ParsedAttr) -> bool {
        &&& attr.attr_idx + 4 + attr.value@.len() <= self.bytes().len()
        &&& attr.value@ == self.bytes().subrange(
            attr.attr_idx + 4,
            attr.attr_idx + 4 + attr.value@.len(),
        )
    }

    pub open spec fn wf(&self) -> bool {
        &&& self.bytes().len() >= 20
        &&& self.id_word() as nat == be_value(self.bytes().subrange(4, 20))
        &&& forall|i: int| 0 <= i < self.attributes@.len() ==> self.holds(&#[trigger] self.attributes@[i])
    }

    /// The attribute list is the one that `locs` describes.
    pub open spec fn located(&self, locs: Seq<(nat, u16, nat)>) -> bool {
        &&& self.attributes@.len() == locs.len()
        &&& forall|i: int|
            0 <= i < locs.len() ==> {
                &&& (#[trigger] self.attributes@[i]).attr_idx == locs[i].0
                &&& self.attributes@[i].typ == locs[i].1
                &&& self.attributes@[i].value@.len() == locs[i].2
            }
    }

    /// Parses a buffer. `Ok(None)` means the bytes are not a STUN message:
    /// shorter than a header, leading bits set, or no magic cookie.
    pub fn parse(input: &Vec<u8>) -> (r: Result<Option<ParsedMessage>, Error>)
        ensures
            !looks_like_stun(input@) ==> r == Ok::<Option<ParsedMessage>, Error>(None),
            looks_like_stun(input@) ==> match walk(input@, 20) {
                Err(e) => r == Err::<Option<ParsedMessage>, Error>(e),
                Ok(locs) => r matches Ok(Some(m)) && {
                    &&& m.wf()
                    &&& m.bytes() == input@
                    &&& m.located(locs)
                    &&& m.class == class_of(msg_type(input@))
                    &&& m.method == method_result(msg_type(input@))
                    &&& m.tsx_id as nat == be_value(input@.subrange(8, 20))
                    &&& m.head_word() as nat == be_value(input@.subrange(0, 4))
                },
            },
    {
        if input.len() < 20 {
            return Ok(None);
        }
        if input[0] >= 64 {
            return Ok(None);
        }
        proof {
            lemma_pow256_facts();
            lemma_be_value_bound(input@.subrange(0, 4));
            lemma_be_value_bound(input@.subrange(0, 2));
            lemma_be_value_bound(input@.subrange(4, 8));
            lemma_be_value_bound(input@.subrange(8, 20));
        }
        let cookie = read_be(input.as_slice(), 4, 4) as u32;
        if cookie != COOKIE {
            return Ok(None);
        }
        assert(looks_like_stun(input@));
        let head = MessageHead(read_be(input.as_slice(), 0, 4) as u32);
        let id = MessageId(read_be(input.as_slice(), 4, 16));
        let tsx_id = read_be(input.as_slice(), 8, 12);
        let typ = (read_be(input.as_slice(), 0, 2) as u16) & 0x3FFF;
        let class = match Class::from_type(typ) {
            Ok(c) => c,
            Err(e) => {
                return Err(e);
            },
        };
        let method = Method::from_type(typ);
        proof {
            assert(typ & 0x3EEF == 0x001 <==> (typ & 0x3EEF == 0x001));
        }

        let len = input.len();
        let mut attributes: Vec<ParsedAttr> = Vec::new();
        let mut pos: usize = 20;
        let ghost b = input@;
        let ghost mut done: Seq<(nat, u16, nat)> = Seq::empty();
        while pos < len
            invariant
                looks_like_stun(b),
                b == input@,
                len == b.len(),
                20 <= pos <= len,
                walk(b, 20) == match walk(b, pos as nat) {
                    Ok(rest) => Ok::<Seq<(nat, u16, nat)>, Error>(done + rest),
                    Err(e) => Err(e),
                },
                attributes@.len() == done.len(),
                forall|i: int|
                    0 <= i < done.len() ==> {
                        &&& (#[trigger] attributes@[i]).attr_idx == done[i].0
                        &&& attributes@[i].typ == done[i].1
                        &&& attributes@[i].value@.len() == done[i].2
                        &&& attributes@[i].attr_idx + 4 + attributes@[i].value@.len() <= len
                        &&& attributes@[i].value@ == b.subrange(
                            attributes@[i].attr_idx + 4,
                            attributes@[i].attr_idx + 4 + attributes@[i].value@.len(),
                        )
                    },
            decreases len - pos,
        {
            if len - pos < 4 {
                return Err(Error::InvalidData("failed to read from buffer"));
            }
            proof {
                lemma_pow256_facts();
                lemma_be_value_bound(b.subrange(pos as int, pos + 2));
                lemma_be_value_bound(b.subrange(pos + 2, pos + 4));
            }
            let attr_typ = read_be(input.as_slice(), pos, 2) as u16;
            let attr_len = read_be(input.as_slice(), pos + 2, 2) as usize;
            let padding = padding_usize(attr_len);
            let value_begin = pos + 4;
            if attr_len + padding > len - value_begin {
                return Err(Error::InvalidData("Invalid attribute length in STUN message"));
            }
            let value_end = value_begin + attr_len;
            let padding_end = value_end + padding;
            let value = slice_to_vec(slice_subrange(input.as_slice(), value_begin, value_end));
            let ghost loc = (pos as nat, attr_typ, attr_len as nat);
            proof {
                assert(walk(b, pos as nat) == match walk(b, padding_end as nat) {
                    Ok(rest) => Ok::<Seq<(nat, u16, nat)>, Error>(seq![loc] + rest),
                    Err(e) => Err(e),
                });
                match walk(b, padding_end as nat) {
                    Ok(rest) => {
                        assert(done + (seq![loc] + rest) =~= done.push(loc) + rest);
                    },
                    Err(e) => {},
                }
            }
            attributes.push(ParsedAttr { attr_idx: pos, typ: attr_typ, value });
            proof {
                done = done.push(loc);
            }
            pos = padding_end;
        }
        proof {
            assert(done + Seq::<(nat, u16, nat)>::empty() =~= done);
        }
        let msg = ParsedMessage {
            buffer: input.clone(),
            head,
            id,
            class,
            method,
            tsx_id,
            attributes,
        };
        proof {
            assert(msg.buffer@ == input@);
        }
        Ok(Some(msg))
    }

    /// Decodes the first attribute of type `A`, if there is one.
    pub fn get_attr<A: Attribute<Context = ()>>(&self) -> (r: Option<Result<A, Error>>)
        requires
            self.wf(),
        ensures
            r is None <==> (forall|i: int|
                0 <= i < self.attributes@.len() ==> (#[trigger] self.attributes@[i]).typ != A::type_code()),
            r matches Some(res) ==> self.first_decodes_to((), res),
    {
        self.get_attr_with(())
    }

    /// The first attribute of type `A` decodes to `res` with context `ctx`.
    pub open spec fn first_decodes_to<A: Attribute>(&self, ctx: A::Context, res: Result<A, Error>) -> bool {
        exists|i: int|
            0 <= i < self.attributes@.len() && (#[trigger] self.attributes@[i]).typ == A::type_code()
                && (forall|j: int| 0 <= j < i ==> (#[trigger] self.attributes@[j]).typ != A::type_code())
                && A::decodes_to(
                ctx,
                self.id_word(),
                self.bytes().subrange(0, self.attributes@[i].attr_idx as int),
                self.attributes@[i].value@,
                res,
            )
    }

    /// Decodes the first attribute of type `A` with the context `ctx`, if there
    /// is one.
    pub fn get_attr_with<A: Attribute>(&self, ctx: A::Context) -> (r: Option<Result<A, Error>>)
        requires
            self.wf(),
        ensures
            r is None <==> (forall|i: int|
                0 <= i < self.attributes@.len() ==> (#[trigger] self.attributes@[i]).typ != A::type_code()),
            r matches Some(res) ==> self.first_decodes_to(ctx, res),
    {
        let t = A::attr_type();
        let mut i: usize = 0;
        while i < self.attributes.len()
            invariant
                self.wf(),
                t == A::type_code(),
                i <= self.attributes@.len(),
                forall|j: int| 0 <= j < i ==> (#[trigger] self.attributes@[j]).typ != t,
            decreases self.attributes@.len() - i,
        {
            if self.attributes[i].typ == t {
                let res = A::decode(ctx, self, &self.attributes[i]);
                proof {
                    assert(self.holds(&self.attributes@[i as int]));
                    assert(0 <= i < self.attributes@.len() && self.attributes@[i as int].typ == A::type_code());
                }
                return Some(res);
            }
            i = i + 1;
        }
        None
    }

    /// The received bytes.
    pub fn buffer(&self) -> (r: &Vec<u8>)
        ensures
            r@ == self.bytes(),
    {
        &self.buffer
    }

    /// The header word.
    pub fn head(&self) -> (r: &MessageHead)
        ensures
            r.0 == self.head_word(),
    {
        &self.head
    }

    /// The id word.
    pub fn id(&self) -> (r: &MessageId)
        ensures
            r.0 == self.id_word(),
    {
        &self.id
    }
}

} // verus!
