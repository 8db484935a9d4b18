//! What holds of messages across the builder and the parser.
use vstd::prelude::*;
use crate::attributes::{Attribute, Fingerprint, MessageIntegrity, MessageIntegrityKey};
use crate::builder::{with_len, BuilderView};
use crate::error::Error;
use crate::parse::{lemma_walk_append, lemma_walk_one, lemma_walk_suffix, looks_like_stun, tlv, walk, ParsedMessage};
use crate::wire::{be_bytes, lemma_be2, lemma_be_bytes_len};

verus! {

/// The builder state after `a` is added with context `ctx`, as `add_attr_with`
/// leaves it.
pub open spec fn added<A: Attribute>(v: BuilderView, a: A, ctx: A::Context) -> BuilderView {
    v.with_attr(A::type_code(), a.value_bytes(ctx, v.id, v.attr_prefix(A::type_code(), a.value_len())))
}

/// A builder state whose bytes the parser accepts as a whole message.
pub open spec fn parses(v: BuilderView) -> bool {
    &&& v.wf()
    &&& v.framed()
    &&& walk(v.bytes, 20) is Ok
}

/// The parser accepts the header a builder starts with.
pub proof fn lemma_new_parses(v: BuilderView)
    requires
        v.wf(),
        v.framed(),
        v.bytes.len() == 20,
    ensures
        parses(v),
{
}

/// Adding an attribute to a message the parser accepts gives a message the
/// parser accepts, with the new attribute found last, at the old end, with
/// the length its TLV header gives.
pub proof fn lemma_added_parses(v: BuilderView, typ: u16, value: Seq<u8>)
    requires
        parses(v),
        v.fits(value.len()),
    ensures
        parses(v.with_attr(typ, value)),
        looks_like_stun(v.with_attr(typ, value).bytes),
        walk(v.with_attr(typ, value).bytes, 20) == Ok::<Seq<(nat, u16, nat)>, Error>(
            walk(v.bytes, 20)->Ok_0.push((v.bytes.len(), typ, v.tlv_len(value.len()))),
        ),
{
    let n = value.len();
    let w = v.with_attr(typ, value);
    let l = v.len_with(n) as nat;
    let b1 = with_len(v.bytes, l);
    lemma_be_bytes_len(l, 2);
    lemma_be_bytes_len(typ as nat, 2);
    lemma_be_bytes_len(v.tlv_len(n), 2);
    assert(w.bytes =~= b1 + tlv(typ, v.tlv_len(n), value));
    assert forall|i: int| 20 <= i < v.bytes.len() implies v.bytes[i] == b1[i] by {}
    lemma_walk_suffix(v.bytes, b1, 20);
    lemma_walk_append(b1, tlv(typ, v.tlv_len(n), value), 20);
    lemma_walk_one(b1, typ, v.tlv_len(n), value);
    assert(walk(v.bytes, 20)->Ok_0 + seq![(v.bytes.len(), typ, v.tlv_len(n))]
        =~= walk(v.bytes, 20)->Ok_0.push((v.bytes.len(), typ, v.tlv_len(n))));
    crate::builder::lemma_with_attr(v, typ, value);
    lemma_be2(v.typ as nat);
    assert(v.bytes.subrange(0, 2)[0] == v.bytes[0]);
    assert(w.bytes[0] == v.bytes[0]);
    assert(w.bytes.subrange(4, 8) =~= v.bytes.subrange(4, 8));
}

/// Parsing a message that ends with an attribute the builder added, and
/// decoding that attribute where the parser found it with the context it was
/// written with, gives the attribute's value back. `m` is any message that
/// `parse` may return for the bytes, `r` any result `decode` may return. With
/// TLV lengths that count padding, this needs a value whose length is a
/// multiple of four, since the located value then takes in the padding.
pub proof fn lemma_built_attr_decodes<A: Attribute>(
    v: BuilderView,
    a: A,
    ctx: A::Context,
    m: ParsedMessage,
    r: Result<A, Error>,
)
    requires
        parses(v),
        v.fits(a.value_len()),
        !v.padding_in_value_len || a.value_len() % 4 == 0,
        a.representable(),
        a.value_bytes(ctx, v.id, v.attr_prefix(A::type_code(), a.value_len())).len() == a.value_len(),
        m.wf(),
        m.bytes() == added(v, a, ctx).bytes,
        m.located(walk(m.bytes(), 20)->Ok_0),
        A::decodes_to(
            ctx,
            m.id_word(),
            m.bytes().subrange(0, m.attributes@.last().attr_idx as int),
            m.attributes@.last().value@,
            r,
        ),
    ensures
        looks_like_stun(m.bytes()),
        walk(m.bytes(), 20) is Ok,
        m.attributes@.len() > 0,
        m.attributes@.last().typ == A::type_code(),
        m.attributes@.last().attr_idx == v.bytes.len(),
        r matches Ok(x) && a.same_as(x),
{
    let n = a.value_len();
    let p = v.attr_prefix(A::type_code(), n);
    let value = a.value_bytes(ctx, v.id, p);
    let w = added(v, a, ctx);
    lemma_added_parses(v, A::type_code(), value);
    let locs = walk(w.bytes, 20)->Ok_0;
    let k = m.attributes@.len() - 1;
    assert(m.attributes@[k] == m.attributes@.last());
    assert(v.tlv_len(n) == n);
    assert(locs[k] == (v.bytes.len(), A::type_code(), n));
    let l = v.len_with(n) as nat;
    let before = with_len(v.bytes, l);
    let header = be_bytes(A::type_code() as nat, 2) + be_bytes(v.tlv_len(n), 2);
    lemma_be_bytes_len(l, 2);
    lemma_be_bytes_len(A::type_code() as nat, 2);
    lemma_be_bytes_len(v.tlv_len(n), 2);
    assert(p =~= before + header);
    assert(m.bytes().subrange(0, v.bytes.len() as int) =~= before);
    assert(m.holds(&m.attributes@[k]));
    assert(m.attributes@.last().value@ =~= value);
    assert(before.subrange(4, 20) =~= v.bytes.subrange(4, 20));
    assert(m.bytes().subrange(4, 20) =~= before.subrange(4, 20));
    assert(m.bytes().subrange(4, 20) =~= v.bytes.subrange(4, 20));
    a.lemma_round_trip(ctx, v.id, before, header, r);
}

/// A message whose last attribute is MESSAGE-INTEGRITY under key `k` passes
/// the integrity check with `k`.
pub proof fn lemma_integrity_self_check(
    v: BuilderView,
    k: MessageIntegrityKey,
    m: ParsedMessage,
    r: Result<MessageIntegrity, Error>,
)
    requires
        parses(v),
        v.fits(20),
        MessageIntegrity.value_bytes(k, v.id, v.attr_prefix(0x0008, 20)).len() == 20,
        m.wf(),
        m.bytes() == added(v, MessageIntegrity, k).bytes,
        m.located(walk(m.bytes(), 20)->Ok_0),
        MessageIntegrity::decodes_to(
            k,
            m.id_word(),
            m.bytes().subrange(0, m.attributes@.last().attr_idx as int),
            m.attributes@.last().value@,
            r,
        ),
    ensures
        r is Ok,
{
    lemma_built_attr_decodes(v, MessageIntegrity, k, m, r);
}

/// Decoding through `get_attr_with` a message that ends with an attribute the
/// builder added, of a type that no earlier attribute has, gives the
/// attribute's value back: `r` is any result `get_attr_with` may return.
pub proof fn lemma_built_attr_get<A: Attribute>(
    v: BuilderView,
    a: A,
    ctx: A::Context,
    m: ParsedMessage,
    r: Result<A, Error>,
)
    requires
        parses(v),
        v.fits(a.value_len()),
        !v.padding_in_value_len || a.value_len() % 4 == 0,
        a.representable(),
        a.value_bytes(ctx, v.id, v.attr_prefix(A::type_code(), a.value_len())).len() == a.value_len(),
        forall|k: int|
            0 <= k < walk(v.bytes, 20)->Ok_0.len() ==> (#[trigger] walk(v.bytes, 20)->Ok_0[k]).1
                != A::type_code(),
        m.wf(),
        m.bytes() == added(v, a, ctx).bytes,
        m.located(walk(m.bytes(), 20)->Ok_0),
        m.first_decodes_to(ctx, r),
    ensures
        r matches Ok(x) && a.same_as(x),
{
    let n = a.value_len();
    let value = a.value_bytes(ctx, v.id, v.attr_prefix(A::type_code(), n));
    lemma_added_parses(v, A::type_code(), value);
    let before = walk(v.bytes, 20)->Ok_0;
    let locs = walk(m.bytes(), 20)->Ok_0;
    let last = m.attributes@.len() - 1;
    let i = choose|i: int|
        0 <= i < m.attributes@.len() && (#[trigger] m.attributes@[i]).typ == A::type_code()
            && (forall|j: int| 0 <= j < i ==> (#[trigger] m.attributes@[j]).typ != A::type_code())
            && A::decodes_to(
            ctx,
            m.id_word(),
            m.bytes().subrange(0, m.attributes@[i].attr_idx as int),
            m.attributes@[i].value@,
            r,
        );
    if i < last {
        assert(locs[i] == before[i]);
        assert(before[i].1 != A::type_code());
    }
    assert(i == last);
    assert(m.attributes@[i] == m.attributes@.last());
    lemma_built_attr_decodes(v, a, ctx, m, r);
}

/// FINGERPRINT depends on the message bytes alone: adding it to equal builder
/// states gives equal messages.
pub proof fn lemma_fingerprint_deterministic(v1: BuilderView, v2: BuilderView)
    requires
        v1 == v2,
    ensures
        added(v1, Fingerprint, ()) == added(v2, Fingerprint, ()),
{
}

} // verus!
