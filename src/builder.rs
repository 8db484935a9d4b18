//! Building a message attribute by attribute.
use vstd::prelude::*;
use crate::attributes::Attribute;
use crate::error::Error;
use crate::header::{id_word, lemma_type_word, type_word, Class, Method, MessageId, COOKIE, TSX_MASK};
use crate::wire::{be_bytes, be_value, pad_len, zeros, padding_u16, put_be, put_zeros, lemma_be_bytes_len, lemma_be_round_trip, lemma_be_value_bound, lemma_pow256_facts, lemma_be2, lemma_be_value_concat};

verus! {

/// The abstract state of a builder.
pub struct BuilderView {
    /// The message written so far.
    pub bytes: Seq<u8>,
    /// The type word of the header.
    pub typ: u16,
    /// The id word of the header.
    pub id: u128,
    /// Whether TLV lengths count the value's padding (for old peers).
    pub padding_in_value_len: bool,
}

impl BuilderView {
    /// The same state with `more` appended to the bytes.
    pub open spec fn append(self, more: Seq<u8>) -> BuilderView {
        BuilderView {
            bytes: self.bytes + more,
            typ: self.typ,
            id: self.id,
            padding_in_value_len: self.padding_in_value_len,
        }
    }

    /// The header words stand at the start of the bytes: the type word with its
    /// two leading bits zero, the id word with the magic cookie.
    pub open spec fn wf(self) -> bool {
        &&& self.bytes.len() >= 20
        &&& self.typ < 0x4000
        &&& self.bytes.subrange(0, 2) == be_bytes(self.typ as nat, 2)
        &&& be_value(self.bytes.subrange(4, 20)) == self.id
        &&& be_value(self.bytes.subrange(4, 8)) == COOKIE
    }

    /// The bytes form a whole message: aligned, with the length word counting
    /// everything after the header.
    pub open spec fn framed(self) -> bool {
        &&& self.bytes.len() % 4 == 0
        &&& be_value(self.bytes.subrange(2, 4)) == self.bytes.len() - 20
    }

    /// The TLV length field of an attribute whose value has `n` bytes.
    pub open spec fn tlv_len(self, n: nat) -> nat {
        if self.padding_in_value_len {
            n + pad_len(n)
        } else {
            n
        }
    }

    /// The message length once an attribute with an `n`-byte value is added.
    pub open spec fn len_with(self, n: nat) -> int {
        self.bytes.len() - 20 + 4 + n + pad_len(n)
    }

    /// An attribute with an `n`-byte value fits in the 16-bit fields.
    pub open spec fn fits(self, n: nat) -> bool {
        n <= 0xFFFF && self.len_with(n) <= 0xFFFF
    }

    /// The bytes just before an attribute's value: the message with its length
    /// word already counting the attribute, then the attribute's TLV header.
    pub open spec fn attr_prefix(self, typ: u16, n: nat) -> Seq<u8> {
        with_len(self.bytes, self.len_with(n) as nat) + be_bytes(typ as nat, 2) + be_bytes(
            self.tlv_len(n),
            2,
        )
    }

    /// The state after an attribute of type `typ` with value `value` is added.
    pub open spec fn with_attr(self, typ: u16, value: Seq<u8>) -> BuilderView {
        BuilderView {
            bytes: self.attr_prefix(typ, value.len()) + value + zeros(pad_len(value.len())),
            typ: self.typ,
            id: self.id,
            padding_in_value_len: self.padding_in_value_len,
        }
    }
}

/// The 20-byte header of a message with type word `typ` and no attributes.
pub open spec fn header_bytes(typ: u16, tsx_id: u128) -> Seq<u8> {
    be_bytes(typ as nat, 2) + be_bytes(0, 2) + be_bytes(COOKIE as nat, 4) + be_bytes(
        (tsx_id & TSX_MASK) as nat,
        12,
    )
}

pub proof fn lemma_header_bytes_len(typ: u16, tsx_id: u128)
    ensures
        header_bytes(typ, tsx_id).len() == 20,
{
    lemma_be_bytes_len(typ as nat, 2);
    lemma_be_bytes_len(0, 2);
    lemma_be_bytes_len(COOKIE as nat, 4);
    lemma_be_bytes_len((tsx_id & TSX_MASK) as nat, 12);
}

/// The id word of `tsx_id` is what the cookie and transaction id bytes denote.
pub proof fn lemma_id_bytes(tsx_id: u128)
    ensures
        be_value(be_bytes(COOKIE as nat, 4)) == COOKIE,
        be_value(be_bytes(COOKIE as nat, 4) + be_bytes((tsx_id & TSX_MASK) as nat, 12)) == id_word(tsx_id),
{
    let t = tsx_id & TSX_MASK;
    let c = COOKIE as u128;
    lemma_pow256_facts();
    assert(t < 0x1_0000_0000_0000_0000_0000_0000) by (bit_vector)
        requires
            t == tsx_id & 0xFFFF_FFFF_FFFF_FFFF_FFFF_FFFFu128,
    ;
    lemma_be_bytes_len(t as nat, 12);
    lemma_be_round_trip(COOKIE as nat, 4);
    lemma_be_round_trip(t as nat, 12);
    lemma_be_value_concat(be_bytes(COOKIE as nat, 4), be_bytes(t as nat, 12));
    assert((c << 96u128) | t == c * 0x1_0000_0000_0000_0000_0000_0000u128 + t) by (bit_vector)
        requires
            c == 0x2112A442u128,
            t < 0x1_0000_0000_0000_0000_0000_0000u128,
    ;
}

/// `b` with its length word (bytes 2 and 3) set to `l`.
pub open spec fn with_len(b: Seq<u8>, l: nat) -> Seq<u8> {
    b.subrange(0, 2) + be_bytes(l, 2) + b.subrange(4, b.len() as int)
}

/// Writes a STUN message. Each added attribute is complete on return, so the
/// bytes are a valid message after every call.
pub struct MessageBuilder {
    typ: u16,
    id: MessageId,
    padding_in_value_len: bool,
    buffer: Vec<u8>,
}

impl View for MessageBuilder {
    type V = BuilderView;

    closed spec fn view(&self) -> BuilderView {
        BuilderView {
            bytes: self.buffer@,
            typ: self.typ,
            id: self.id.0,
            padding_in_value_len: self.padding_in_value_len,
        }
    }
}

proof fn lemma_pad_aligns(n: nat)
    ensures
        (n + pad_len(n)) % 4 == 0,
        pad_len(n) < 4,
{
}

proof fn lemma_attr_prefix(v: BuilderView, typ: u16, n: nat)
    requires
        v.wf(),
        v.framed(),
        v.fits(n),
    ensures
        v.attr_prefix(typ, n).len() == v.bytes.len() + 4,
        v.attr_prefix(typ, n).subrange(0, 2) == v.bytes.subrange(0, 2),
        v.attr_prefix(typ, n).subrange(2, 4) == be_bytes(v.len_with(n) as nat, 2),
        v.attr_prefix(typ, n).subrange(4, 20) == v.bytes.subrange(4, 20),
        v.attr_prefix(typ, n).subrange(4, 8) == v.bytes.subrange(4, 8),
{
    lemma_be_bytes_len(typ as nat, 2);
    lemma_be_bytes_len(v.tlv_len(n), 2);
    lemma_be_bytes_len(v.len_with(n) as nat, 2);
    let p = v.attr_prefix(typ, n);
    assert(p.subrange(0, 2) =~= v.bytes.subrange(0, 2));
    assert(p.subrange(2, 4) =~= be_bytes(v.len_with(n) as nat, 2));
    assert(p.subrange(4, 20) =~= v.bytes.subrange(4, 20));
    assert(p.subrange(4, 8) =~= v.bytes.subrange(4, 8));
}

/// Adding an attribute that fits keeps the builder well formed and framed.
pub proof fn lemma_with_attr(v: BuilderView, typ: u16, value: Seq<u8>)
    requires
        v.wf(),
        v.framed(),
        v.fits(value.len()),
    ensures
        v.with_attr(typ, value).wf(),
        v.with_attr(typ, value).framed(),
{
    let n = value.len();
    lemma_attr_prefix(v, typ, n);
    lemma_pad_aligns(n);
    let w = v.with_attr(typ, value);
    let p = v.attr_prefix(typ, n);
    assert(w.bytes.subrange(0, 2) =~= p.subrange(0, 2));
    assert(w.bytes.subrange(2, 4) =~= p.subrange(2, 4));
    assert(w.bytes.subrange(4, 20) =~= p.subrange(4, 20));
    assert(w.bytes.subrange(4, 8) =~= p.subrange(4, 8));
    lemma_be2(v.len_with(n) as nat);
}

impl MessageBuilder {
    pub open spec fn wf(&self) -> bool {
        self@.wf()
    }

    pub open spec fn framed(&self) -> bool {
        self@.framed()
    }

    /// A builder holding the header of a message with no attributes.
    pub fn new(class: Class, method: Method, tsx_id: u128) -> (r: Self)
        ensures
            r.wf(),
            r.framed(),
            r@.bytes == header_bytes(type_word(class, method), tsx_id),
            r@.typ == type_word(class, method),
            r@.id == id_word(tsx_id),
            !r@.padding_in_value_len,
    {
        let mut typ: u16 = 0;
        method.set(&mut typ);
        class.set(&mut typ);
        let mut id = MessageId::new();
        id.set_tsx_id(tsx_id);
        let t = tsx_id & TSX_MASK;
        proof {
            lemma_type_word(class, method);
            let z: u128 = 0;
            let c: u128 = COOKIE as u128;
            assert((((c << 96u128) | (z & 0xFFFF_FFFF_FFFF_FFFF_FFFF_FFFFu128)) & !0xFFFF_FFFF_FFFF_FFFF_FFFF_FFFFu128)
                | (tsx_id & 0xFFFF_FFFF_FFFF_FFFF_FFFF_FFFFu128)
                == (c << 96u128) | (tsx_id & 0xFFFF_FFFF_FFFF_FFFF_FFFF_FFFFu128)) by (bit_vector);
        }
        let mut buffer: Vec<u8> = Vec::new();
        put_be(&mut buffer, typ as u128, 2);
        put_be(&mut buffer, 0, 2);
        put_be(&mut buffer, COOKIE as u128, 4);
        put_be(&mut buffer, t, 12);
        proof {
            lemma_id_bytes(tsx_id);
            lemma_be_bytes_len(typ as nat, 2);
            lemma_be_bytes_len(0, 2);
            lemma_be_bytes_len(COOKIE as nat, 4);
            lemma_be_bytes_len(t as nat, 12);
            let b = buffer@;
            assert(b =~= header_bytes(typ, tsx_id));
            assert(b.subrange(0, 2) =~= be_bytes(typ as nat, 2));
            assert(b.subrange(2, 4) =~= be_bytes(0, 2));
            assert(b.subrange(4, 8) =~= be_bytes(COOKIE as nat, 4));
            assert(b.subrange(4, 20) =~= be_bytes(COOKIE as nat, 4) + be_bytes(t as nat, 12));
            lemma_be2(0);
        }
        MessageBuilder { typ, id, padding_in_value_len: false, buffer }
    }

    /// Chooses whether TLV lengths count the value's padding, as some deployed
    /// peers expect; off by default.
    pub fn padding_in_value_len(&mut self, b: bool)
        ensures
            final(self)@ == (BuilderView { padding_in_value_len: b, ..old(self)@ }),
    {
        self.padding_in_value_len = b;
    }

    /// The id word of the message.
    pub fn id(&self) -> (r: &MessageId)
        ensures
            r.0 == self@.id,
    {
        &self.id
    }

    /// The message written so far.
    pub fn buffer(&self) -> (r: &Vec<u8>)
        ensures
            r@ == self@.bytes,
    {
        &self.buffer
    }

    /// Appends raw bytes.
    pub fn put_bytes(&mut self, b: &[u8])
        requires
            old(self).wf(),
        ensures
            final(self).wf(),
            final(self)@ == old(self)@.append(b@),
    {
        let mut i: usize = 0;
        while i < b.len()
            invariant
                i <= b@.len(),
                self.typ == old(self).typ,
                self.id == old(self).id,
                self.padding_in_value_len == old(self).padding_in_value_len,
                self.buffer@ == old(self)@.bytes + b@.subrange(0, i as int),
            decreases b@.len() - i,
        {
            self.buffer.push(b[i]);
            i = i + 1;
            assert(self.buffer@ =~= old(self)@.bytes + b@.subrange(0, i as int));
        }
        assert(b@.subrange(0, b@.len() as int) =~= b@);
        proof {
            let v = final(self)@;
            assert(v.bytes.subrange(0, 2) =~= old(self)@.bytes.subrange(0, 2));
            assert(v.bytes.subrange(4, 20) =~= old(self)@.bytes.subrange(4, 20));
            assert(v.bytes.subrange(4, 8) =~= old(self)@.bytes.subrange(4, 8));
        }
    }

    /// Appends the `n` low-order bytes of `x`, most significant first.
    pub fn put_be(&mut self, x: u128, n: usize)
        requires
            old(self).wf(),
            n <= 16,
        ensures
            final(self).wf(),
            final(self)@ == old(self)@.append(be_bytes(x as nat, n as nat)),
    {
        put_be(&mut self.buffer, x, n);
        proof {
            let v = final(self)@;
            assert(v.bytes.subrange(0, 2) =~= old(self)@.bytes.subrange(0, 2));
            assert(v.bytes.subrange(4, 20) =~= old(self)@.bytes.subrange(4, 20));
            assert(v.bytes.subrange(4, 8) =~= old(self)@.bytes.subrange(4, 8));
        }
    }

    /// Appends `n` zero bytes.
    pub fn put_zeros(&mut self, n: usize)
        requires
            old(self).wf(),
        ensures
            final(self).wf(),
            final(self)@ == old(self)@.append(zeros(n as nat)),
    {
        put_zeros(&mut self.buffer, n);
        proof {
            let v = final(self)@;
            assert(v.bytes.subrange(0, 2) =~= old(self)@.bytes.subrange(0, 2));
            assert(v.bytes.subrange(4, 20) =~= old(self)@.bytes.subrange(4, 20));
            assert(v.bytes.subrange(4, 8) =~= old(self)@.bytes.subrange(4, 8));
        }
    }

    /// Rewrites the length word of the header.
    fn set_len(&mut self, len: u16)
        requires
            old(self).wf(),
        ensures
            final(self).wf(),
            final(self)@ == (BuilderView { bytes: with_len(old(self)@.bytes, len as nat), ..old(self)@ }),
    {
        self.buffer.set(2, (len / 256) as u8);
        self.buffer.set(3, (len % 256) as u8);
        proof {
            lemma_be2(len as nat);
            let o = old(self)@.bytes;
            assert(self.buffer@ =~= with_len(o, len as nat));
            assert(self.buffer@.subrange(0, 2) =~= o.subrange(0, 2));
            assert(self.buffer@.subrange(4, 20) =~= o.subrange(4, 20));
            assert(self.buffer@.subrange(4, 8) =~= o.subrange(4, 8));
        }
    }

    /// Adds an attribute that needs no context.
    pub fn add_attr<A: Attribute<Context = ()>>(&mut self, attr: &A) -> (r: Result<(), Error>)
        requires
            old(self).wf(),
            old(self).framed(),
        ensures
            final(self).wf(),
            final(self).framed(),
            r is Err <==> !old(self)@.fits(attr.value_len()),
            r is Err ==> r == Err::<(), Error>(Error::IntegerOverflow) && final(self)@ == old(self)@,
            r is Ok ==> final(self)@ == old(self)@.with_attr(
                A::type_code(),
                attr.value_bytes((), old(self)@.id, old(self)@.attr_prefix(A::type_code(), attr.value_len())),
            ),
            r is Ok ==> attr.value_bytes(
                (),
                old(self)@.id,
                old(self)@.attr_prefix(A::type_code(), attr.value_len()),
            ).len() == attr.value_len(),
    {
        self.add_attr_with(attr, ())
    }

    /// Adds an attribute: writes its TLV header, sets the message length to
    /// include it, lets the attribute write its value, then pads to four bytes.
    pub fn add_attr_with<A: Attribute>(&mut self, attr: &A, ctx: A::Context) -> (r: Result<(), Error>)
        requires
            old(self).wf(),
            old(self).framed(),
        ensures
            final(self).wf(),
            final(self).framed(),
            r is Err <==> !old(self)@.fits(attr.value_len()),
            r is Err ==> r == Err::<(), Error>(Error::IntegerOverflow) && final(self)@ == old(self)@,
            r is Ok ==> final(self)@ == old(self)@.with_attr(
                A::type_code(),
                attr.value_bytes(ctx, old(self)@.id, old(self)@.attr_prefix(A::type_code(), attr.value_len())),
            ),
            r is Ok ==> attr.value_bytes(
                ctx,
                old(self)@.id,
                old(self)@.attr_prefix(A::type_code(), attr.value_len()),
            ).len() == attr.value_len(),
    {
        let enc_len = match attr.encode_len() {
            Ok(n) => n,
            Err(e) => {
                return Err(e);
            },
        };
        let padding = padding_u16(enc_len);
        proof {
            lemma_be_value_bound(self@.bytes.subrange(2, 4));
            lemma_pow256_facts();
        }
        let cur: usize = self.buffer.len() - 20;
        if cur + 4 + enc_len as usize + padding as usize > 0xFFFF {
            return Err(Error::IntegerOverflow);
        }
        let total: u16 = (cur + 4 + enc_len as usize + padding as usize) as u16;
        let ghost old_view = self@;
        let ghost n = enc_len as nat;
        self.set_len(total);
        self.put_be(A::attr_type() as u128, 2);
        if self.padding_in_value_len {
            self.put_be((enc_len + padding) as u128, 2);
        } else {
            self.put_be(enc_len as u128, 2);
        }
        let ghost prefix = self@.bytes;
        proof {
            lemma_attr_prefix(old_view, A::type_code(), n);
            assert(prefix =~= old_view.attr_prefix(A::type_code(), n));
        }
        let _ = attr.encode(ctx, self);
        let ghost value = attr.value_bytes(ctx, old_view.id, prefix);
        self.put_zeros(padding as usize);
        proof {
            lemma_with_attr(old_view, A::type_code(), value);
            assert(self@.bytes =~= old_view.with_attr(A::type_code(), value).bytes);
        }
        Ok(())
    }

    /// The finished message.
    pub fn finish(self) -> (r: Vec<u8>)
        requires
            self.wf(),
            self.framed(),
        ensures
            r@ == self@.bytes,
            r@.len() >= 20,
            r@.len() % 4 == 0,
            be_value(r@.subrange(2, 4)) == r@.len() - 20,
    {
        self.buffer
    }
}

} // verus!
