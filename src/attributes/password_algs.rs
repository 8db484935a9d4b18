//! PASSWORD-ALGORITHM and PASSWORD-ALGORITHMS.
use vstd::prelude::*;
use vstd::slice::{slice_subrange, slice_to_vec};
use super::Attribute;
use crate::builder::MessageBuilder;
use crate::error::Error;
use crate::parse::{ParsedAttr, ParsedMessage};
use crate::wire::{be_bytes, be_value, lemma_be_bytes_len, lemma_be_round_trip, lemma_be_value_bound, lemma_pow256_facts, pad_len, padding_usize, read_be, zeros};

verus! {

/// One record: algorithm, parameter length, parameters, padding to four bytes.
pub open spec fn alg_record(alg: u16, params: Seq<u8>) -> Seq<u8> {
    be_bytes(alg as nat, 2) + be_bytes(params.len(), 2) + params + zeros(pad_len(params.len()))
}

/// The records of `s`, one after the other.
pub open spec fn algs_bytes(s: Seq<(u16, Seq<u8>)>) -> Seq<u8>
    decreases s.len(),
{
    if s.len() == 0 {
        Seq::empty()
    } else {
        alg_record(s[0].0, s[0].1) + algs_bytes(s.drop_first())
    }
}

/// The records from offset `pos` of `v` on, or the error that reading them
/// meets. A record's parameters must lie inside the value; padding cut off by
/// the end of the value ends the walk.
pub open spec fn algs_walk(v: Seq<u8>, pos: nat) -> Result<Seq<(u16, Seq<u8>)>, Error>
    decreases v.len() - pos,
{
    if pos >= v.len() {
        Ok(Seq::empty())
    } else if pos + 4 > v.len() {
        Err(Error::InvalidData("failed to read from buffer"))
    } else {
        let alg = be_value(v.subrange(pos as int, pos + 2int)) as u16;
        let len = be_value(v.subrange(pos + 2int, pos + 4int));
        if pos + 4 + len > v.len() {
            Err(Error::InvalidData("invalid algorithm len"))
        } else {
            let end = if pos + 4 + len + pad_len(len) > v.len() {
                v.len()
            } else {
                pos + 4 + len + pad_len(len)
            };
            match algs_walk(v, end) {
                Ok(rest) => Ok(seq![(alg, v.subrange(pos + 4int, pos + 4int + len as int))] + rest),
                Err(e) => Err(e),
            }
        }
    }
}

/// The algorithms with their parameters as byte sequences.
pub open spec fn algs_view(a: Seq<(u16, Vec<u8>)>) -> Seq<(u16, Seq<u8>)> {
    a.map_values(|p: (u16, Vec<u8>)| (p.0, p.1@))
}

proof fn lemma_record_len(alg: u16, params: Seq<u8>)
    ensures
        alg_record(alg, params).len() == 4 + params.len() + pad_len(params.len()),
{
    lemma_be_bytes_len(alg as nat, 2);
    lemma_be_bytes_len(params.len(), 2);
}

proof fn lemma_algs_concat(a: Seq<(u16, Seq<u8>)>, b: Seq<(u16, Seq<u8>)>)
    ensures
        algs_bytes(a + b) == algs_bytes(a) + algs_bytes(b),
    decreases a.len(),
{
    if a.len() == 0 {
        assert(a + b =~= b);
        assert(algs_bytes(a) + algs_bytes(b) =~= algs_bytes(b));
    } else {
        lemma_algs_concat(a.drop_first(), b);
        assert((a + b).drop_first() =~= a.drop_first() + b);
        assert(algs_bytes(a + b) =~= algs_bytes(a) + algs_bytes(b));
    }
}

proof fn lemma_algs_push(a: Seq<(u16, Seq<u8>)>, x: (u16, Seq<u8>))
    ensures
        algs_bytes(a.push(x)) == algs_bytes(a) + alg_record(x.0, x.1),
{
    lemma_algs_concat(a, seq![x]);
    assert(a + seq![x] =~= a.push(x));
    assert(seq![x].drop_first() =~= Seq::<(u16, Seq<u8>)>::empty());
    assert(algs_bytes(Seq::<(u16, Seq<u8>)>::empty()) == Seq::<u8>::empty());
    assert(algs_bytes(seq![x]) == alg_record(x.0, x.1) + Seq::<u8>::empty());
    assert(alg_record(x.0, x.1) + Seq::<u8>::empty() =~= alg_record(x.0, x.1));
}

/// Walking the records written for `s`, after any prefix, gives `s` back.
proof fn lemma_algs_walk(prefix: Seq<u8>, s: Seq<(u16, Seq<u8>)>)
    requires
        forall|i: int| 0 <= i < s.len() ==> (#[trigger] s[i]).1.len() <= 0xFFFF,
    ensures
        algs_walk(prefix + algs_bytes(s), prefix.len()) == Ok::<Seq<(u16, Seq<u8>)>, Error>(s),
    decreases s.len(),
{
    let v = prefix + algs_bytes(s);
    if s.len() == 0 {
        assert(v =~= prefix);
        assert(s =~= Seq::<(u16, Seq<u8>)>::empty());
    } else {
        let (alg, params) = s[0];
        let rec = alg_record(alg, params);
        let rest = s.drop_first();
        let pos = prefix.len() as int;
        let len = params.len();
        lemma_record_len(alg, params);
        lemma_be_bytes_len(alg as nat, 2);
        lemma_be_bytes_len(len, 2);
        lemma_pow256_facts();
        assert(v =~= (prefix + rec) + algs_bytes(rest));
        assert(v.subrange(pos, pos + 2) =~= be_bytes(alg as nat, 2));
        assert(v.subrange(pos + 2, pos + 4) =~= be_bytes(len, 2));
        assert(v.subrange(pos + 4, pos + 4 + len as int) =~= params);
        lemma_be_round_trip(alg as nat, 2);
        lemma_be_round_trip(len, 2);
        assert forall|i: int| 0 <= i < rest.len() implies (#[trigger] rest[i]).1.len() <= 0xFFFF by {
            assert(rest[i] == s[i + 1]);
        }
        lemma_algs_walk(prefix + rec, rest);
        assert(seq![(alg, params)] + rest =~= s);
    }
}

/// PASSWORD-ALGORITHMS: the algorithms a server offers, with their parameters.
pub struct PasswordAlgorithms {
    pub algorithms: Vec<(u16, Vec<u8>)>,
}

impl Attribute for PasswordAlgorithms {
    type Context = ();

    open spec fn type_code() -> u16 {
        0x8002
    }

    open spec fn value_len(&self) -> nat {
        algs_bytes(algs_view(self.algorithms@)).len()
    }

    open spec fn value_bytes(&self, ctx: (), id: u128, prefix: Seq<u8>) -> Seq<u8> {
        algs_bytes(algs_view(self.algorithms@))
    }

    open spec fn decodes_to(ctx: (), id: u128, before: Seq<u8>, value: Seq<u8>, r: Result<Self, Error>) -> bool {
        match algs_walk(value, 0) {
            Ok(s) => r matches Ok(a) && algs_view(a.algorithms@) == s,
            Err(e) => r == Err::<Self, Error>(e),
        }
    }

    open spec fn representable(&self) -> bool {
        true
    }

    open spec fn same_as(&self, other: Self) -> bool {
        algs_view(self.algorithms@) == algs_view(other.algorithms@)
    }

    fn attr_type() -> (r: u16) {
        0x8002
    }

    fn encode_len(&self) -> (r: Result<u16, Error>) {
        let ghost s = algs_view(self.algorithms@);
        let mut len: usize = 0;
        let mut i: usize = 0;
        while i < self.algorithms.len()
            invariant
                s == algs_view(self.algorithms@),
                i <= s.len(),
                len == algs_bytes(s.subrange(0, i as int)).len(),
                len <= 0xFFFF,
            decreases s.len() - i,
        {
            let n = self.algorithms[i].1.len();
            proof {
                lemma_algs_push(s.subrange(0, i as int), s[i as int]);
                assert(s.subrange(0, i + 1) =~= s.subrange(0, i as int).push(s[i as int]));
                lemma_record_len(s[i as int].0, s[i as int].1);
                lemma_algs_concat(s.subrange(0, i + 1), s.subrange(i + 1, s.len() as int));
                assert(s.subrange(0, i + 1) + s.subrange(i + 1, s.len() as int) =~= s);
            }
            if n > 0xFFFF || len + 4 + n + padding_usize(n) > 0xFFFF {
                return Err(Error::IntegerOverflow);
            }
            len = len + 4 + n + padding_usize(n);
            i = i + 1;
        }
        assert(s.subrange(0, s.len() as int) =~= s);
        Ok(len as u16)
    }

    fn encode(&self, ctx: (), builder: &mut MessageBuilder) -> (r: Result<(), Error>) {
        let ghost s = algs_view(self.algorithms@);
        let mut i: usize = 0;
        while i < self.algorithms.len()
            invariant
                s == algs_view(self.algorithms@),
                algs_bytes(s).len() <= 0xFFFF,
                i <= s.len(),
                builder.wf(),
                builder@ == old(builder)@.append(algs_bytes(s.subrange(0, i as int))),
            decreases s.len() - i,
        {
            let alg = self.algorithms[i].0;
            let params = self.algorithms[i].1.as_slice();
            let n = params.len();
            proof {
                lemma_algs_push(s.subrange(0, i as int), s[i as int]);
                assert(s.subrange(0, i + 1) =~= s.subrange(0, i as int).push(s[i as int]));
                lemma_record_len(s[i as int].0, s[i as int].1);
                lemma_algs_concat(s.subrange(0, i + 1), s.subrange(i + 1, s.len() as int));
                assert(s.subrange(0, i + 1) + s.subrange(i + 1, s.len() as int) =~= s);
            }
            builder.put_be(alg as u128, 2);
            builder.put_be(n as u128, 2);
            builder.put_bytes(params);
            builder.put_zeros(padding_usize(n));
            proof {
                assert(builder@.bytes =~= old(builder)@.bytes + algs_bytes(s.subrange(0, i + 1)));
            }
            i = i + 1;
        }
        assert(s.subrange(0, s.len() as int) =~= s);
        Ok(())
    }

    fn decode(ctx: (), msg: &ParsedMessage, attr: &ParsedAttr) -> (r: Result<Self, Error>) {
        let v = attr.value.as_slice();
        let len = v.len();
        let mut algorithms: Vec<(u16, Vec<u8>)> = Vec::new();
        let mut pos: usize = 0;
        let ghost mut done: Seq<(u16, Seq<u8>)> = Seq::empty();
        while pos < len
            invariant
                v@ == attr.value@,
                len == v@.len(),
                pos <= len,
                algs_walk(v@, 0) == match algs_walk(v@, pos as nat) {
                    Ok(rest) => Ok::<Seq<(u16, Seq<u8>)>, Error>(done + rest),
                    Err(e) => Err(e),
                },
                algs_view(algorithms@) == done,
            decreases len - pos,
        {
            if len - pos < 4 {
                assert(algs_walk(v@, pos as nat) == Err::<Seq<(u16, Seq<u8>)>, Error>(
                    Error::InvalidData("failed to read from buffer"),
                ));
                return Err(Error::InvalidData("failed to read from buffer"));
            }
            proof {
                lemma_pow256_facts();
                lemma_be_value_bound(v@.subrange(pos as int, pos + 2));
                lemma_be_value_bound(v@.subrange(pos + 2, pos + 4));
            }
            let alg = read_be(v, pos, 2) as u16;
            let n = read_be(v, pos + 2, 2) as usize;
            let padding = padding_usize(n);
            if n > len - pos - 4 {
                assert(algs_walk(v@, pos as nat) == Err::<Seq<(u16, Seq<u8>)>, Error>(
                    Error::InvalidData("invalid algorithm len"),
                ));
                return Err(Error::InvalidData("invalid algorithm len"));
            }
            let params = slice_to_vec(slice_subrange(v, pos + 4, pos + 4 + n));
            let end = if padding > len - pos - 4 - n {
                len
            } else {
                pos + 4 + n + padding
            };
            let ghost item = (alg, params@);
            proof {
                match algs_walk(v@, end as nat) {
                    Ok(rest) => {
                        assert(done + (seq![item] + rest) =~= done.push(item) + rest);
                    },
                    Err(e) => {},
                }
            }
            algorithms.push((alg, params));
            proof {
                done = done.push(item);
                assert(algs_view(algorithms@) =~= done);
            }
            pos = end;
        }
        assert(done + Seq::<(u16, Seq<u8>)>::empty() =~= done);
        Ok(PasswordAlgorithms { algorithms })
    }

    proof fn lemma_round_trip(&self, ctx: (), id: u128, before: Seq<u8>, header: Seq<u8>, r: Result<Self, Error>) {
        let s = algs_view(self.algorithms@);
        assert forall|i: int| 0 <= i < s.len() implies (#[trigger] s[i]).1.len() <= 0xFFFF by {
            lemma_algs_concat(s.subrange(0, i), s.subrange(i, s.len() as int));
            assert(s.subrange(0, i) + s.subrange(i, s.len() as int) =~= s);
            assert(s.subrange(i, s.len() as int)[0] == s[i]);
            lemma_record_len(s[i].0, s[i].1);
        }
        lemma_algs_walk(Seq::empty(), s);
        assert(Seq::<u8>::empty() + algs_bytes(s) =~= algs_bytes(s));
    }
}

/// PASSWORD-ALGORITHM: the algorithm a client chose, with its parameters.
pub struct PasswordAlgorithm {
    pub algorithm: u16,
    pub params: Vec<u8>,
}

impl Attribute for PasswordAlgorithm {
    type Context = ();

    open spec fn type_code() -> u16 {
        0x001D
    }

    open spec fn value_len(&self) -> nat {
        alg_record(self.algorithm, self.params@).len()
    }

    open spec fn value_bytes(&self, ctx: (), id: u128, prefix: Seq<u8>) -> Seq<u8> {
        alg_record(self.algorithm, self.params@)
    }

    /// The first record of the value; padding cut off by the end of the value
    /// and bytes after the record are ignored.
    open spec fn decodes_to(ctx: (), id: u128, before: Seq<u8>, value: Seq<u8>, r: Result<Self, Error>) -> bool {
        if value.len() < 4 {
            r == Err::<Self, Error>(Error::InvalidData("failed to read from buffer"))
        } else {
            let len = be_value(value.subrange(2, 4));
            if 4 + len > value.len() {
                r == Err::<Self, Error>(Error::InvalidData("invalid algorithm len"))
            } else {
                r matches Ok(a) && a.algorithm == be_value(value.subrange(0, 2)) as u16
                    && a.params@ == value.subrange(4, 4 + len as int)
            }
        }
    }

    open spec fn representable(&self) -> bool {
        true
    }

    open spec fn same_as(&self, other: Self) -> bool {
        self.algorithm == other.algorithm && self.params@ == other.params@
    }

    fn attr_type() -> (r: u16) {
        0x001D
    }

    fn encode_len(&self) -> (r: Result<u16, Error>) {
        let n = self.params.len();
        proof {
            lemma_record_len(self.algorithm, self.params@);
        }
        if n > 0xFFFF - 4 || 4 + n + padding_usize(n) > 0xFFFF {
            return Err(Error::IntegerOverflow);
        }
        Ok((4 + n + padding_usize(n)) as u16)
    }

    fn encode(&self, ctx: (), builder: &mut MessageBuilder) -> (r: Result<(), Error>) {
        let n = self.params.len();
        proof {
            lemma_record_len(self.algorithm, self.params@);
        }
        builder.put_be(self.algorithm as u128, 2);
        builder.put_be(n as u128, 2);
        builder.put_bytes(self.params.as_slice());
        builder.put_zeros(padding_usize(n));
        assert(builder@.bytes =~= old(builder)@.bytes + alg_record(self.algorithm, self.params@));
        Ok(())
    }

    fn decode(ctx: (), msg: &ParsedMessage, attr: &ParsedAttr) -> (r: Result<Self, Error>) {
        let v = attr.value.as_slice();
        let len = v.len();
        if len < 4 {
            return Err(Error::InvalidData("failed to read from buffer"));
        }
        proof {
            lemma_pow256_facts();
            lemma_be_value_bound(v@.subrange(0, 2));
            lemma_be_value_bound(v@.subrange(2, 4));
        }
        let algorithm = read_be(v, 0, 2) as u16;
        let n = read_be(v, 2, 2) as usize;
        if n > len - 4 {
            return Err(Error::InvalidData("invalid algorithm len"));
        }
        let params = slice_to_vec(slice_subrange(v, 4, 4 + n));
        Ok(PasswordAlgorithm { algorithm, params })
    }

    proof fn lemma_round_trip(&self, ctx: (), id: u128, before: Seq<u8>, header: Seq<u8>, r: Result<Self, Error>) {
        let value = alg_record(self.algorithm, self.params@);
        let len = self.params@.len();
        lemma_record_len(self.algorithm, self.params@);
        lemma_be_bytes_len(self.algorithm as nat, 2);
        lemma_be_bytes_len(len, 2);
        lemma_pow256_facts();
        assert(value.subrange(0, 2) =~= be_bytes(self.algorithm as nat, 2));
        assert(value.subrange(2, 4) =~= be_bytes(len, 2));
        assert(value.subrange(4, 4 + len as int) =~= self.params@);
        lemma_be_round_trip(self.algorithm as nat, 2);
        lemma_be_round_trip(len, 2);
    }
}

} // verus!
