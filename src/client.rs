//! Client-side helpers: credentials that sign a request, and the binding
//! request a client sends.
use vstd::prelude::*;
use vstd::utf8::{encode_utf8, is_ascii_chars, is_ascii_chars_encode_utf8};
use crate::attributes::{MessageIntegrity, MessageIntegrityKey, MessageIntegritySha256, Realm, Software, Username};
use crate::attributes::integrity::{covered, long_term_input};
use crate::builder::{header_bytes, lemma_header_bytes_len, BuilderView, MessageBuilder};
use crate::crypto::{hmac_sha1_of, hmac_sha256_of, md5_of};
use crate::error::Error;
use crate::header::{id_word, type_word, transaction_id, Class, Method, TSX_MASK};


verus! {

/// Credentials a client signs its requests with.
pub enum StunCredential {
    ShortTerm { username: String, password: String },
    LongTerm { realm: String, username: String, password: String },
}

/// `v` with both integrity attributes added under `key`: the SHA-256 one
/// first, since the SHA-1 one covers it.
pub open spec fn with_integrity(v: BuilderView, key: Seq<u8>) -> BuilderView {
    let v1 = v.with_attr(0x001C, hmac_sha256_of(key, covered(v.attr_prefix(0x001C, 32))));
    v1.with_attr(0x0008, hmac_sha1_of(key, covered(v1.attr_prefix(0x0008, 20))))
}

/// Both integrity attributes fit after `v`.
pub open spec fn integrity_fits(v: BuilderView, key: Seq<u8>) -> bool {
    let v1 = v.with_attr(0x001C, hmac_sha256_of(key, covered(v.attr_prefix(0x001C, 32))));
    v.fits(32) && v1.fits(20)
}

impl StunCredential {
    /// The integrity key of these credentials.
    pub open spec fn key(&self) -> Seq<u8> {
        match self {
            StunCredential::ShortTerm { password, .. } => encode_utf8(password@),
            StunCredential::LongTerm { realm, username, password } => md5_of(
                long_term_input(username@, realm@, password@),
            ),
        }
    }

    /// The builder state after the credentials are added to `v`.
    pub open spec fn signed(&self, v: BuilderView) -> BuilderView {
        match self {
            StunCredential::ShortTerm { username, .. } => with_integrity(
                v.with_attr(0x0006, encode_utf8(username@)),
                self.key(),
            ),
            StunCredential::LongTerm { realm, username, .. } => {
                let v1 = v.with_attr(0x0014, encode_utf8(realm@));
                with_integrity(v1.with_attr(0x0006, encode_utf8(username@)), self.key())
            },
        }
    }

    /// The attributes the credentials add all fit in the message.
    pub open spec fn fits(&self, v: BuilderView) -> bool {
        match self {
            StunCredential::ShortTerm { username, .. } => {
                let u = encode_utf8(username@);
                v.fits(u.len()) && integrity_fits(v.with_attr(0x0006, u), self.key())
            },
            StunCredential::LongTerm { realm, username, .. } => {
                let rb = encode_utf8(realm@);
                let u = encode_utf8(username@);
                let v1 = v.with_attr(0x0014, rb);
                v.fits(rb.len()) && v1.fits(u.len()) && integrity_fits(v1.with_attr(0x0006, u), self.key())
            },
        }
    }

    fn add_integrity(key: &MessageIntegrityKey, msg: &mut MessageBuilder) -> (r: Result<(), Error>)
        requires
            old(msg).wf(),
            old(msg).framed(),
        ensures
            final(msg).wf(),
            final(msg).framed(),
            r is Ok <==> integrity_fits(old(msg)@, key.key@),
            r is Ok ==> final(msg)@ == with_integrity(old(msg)@, key.key@),
    {
        let k1 = MessageIntegrityKey { key: key.key.clone() };
        let k2 = MessageIntegrityKey { key: key.key.clone() };
        msg.add_attr_with(&MessageIntegritySha256, k1)?;
        msg.add_attr_with(&MessageIntegrity, k2)?;
        Ok(())
    }

    /// Adds the identity and integrity attributes of these credentials.
    pub fn auth_msg(&self, msg: &mut MessageBuilder) -> (r: Result<(), Error>)
        requires
            old(msg).wf(),
            old(msg).framed(),
        ensures
            final(msg).wf(),
            final(msg).framed(),
            r is Ok <==> self.fits(old(msg)@),
            r is Ok ==> final(msg)@ == self.signed(old(msg)@),
    {
        match self {
            StunCredential::ShortTerm { username, password } => {
                msg.add_attr(&Username::new(username.as_str()))?;
                let key = MessageIntegrityKey::new_short_term(password.as_str());
                Self::add_integrity(&key, msg)
            },
            StunCredential::LongTerm { realm, username, password } => {
                msg.add_attr(&Realm::new(realm.as_str()))?;
                msg.add_attr(&Username::new(username.as_str()))?;
                let key = MessageIntegrityKey::new_long_term(
                    username.as_str(),
                    realm.as_str(),
                    password.as_str(),
                );
                Self::add_integrity(&key, msg)
            },
        }
    }
}

/// Long-term credentials as a server hands them out, with its nonce.
pub struct StunCredentials {
    pub realm: Option<String>,
    pub username: String,
    pub password: String,
    pub nonce: Option<String>,
}

/// A STUN server's transport address.
pub struct StunServer {
    pub addr: crate::attributes::SocketAddress,
}

impl StunServer {
    pub fn new(addr: crate::attributes::SocketAddress) -> (r: StunServer)
        ensures
            r.addr == addr,
    {
        StunServer { addr }
    }
}

/// A client of one STUN server.
pub struct Client {
    pub server: StunServer,
}

/// The binding request for transaction id `tsx_id`: a Binding Request whose
/// one attribute is SOFTWARE `"ezk-stun"`.
pub open spec fn binding_request_bytes(tsx_id: u128) -> Seq<u8> {
    let v = BuilderView {
        bytes: header_bytes(type_word(Class::Request, Method::Binding), tsx_id),
        typ: type_word(Class::Request, Method::Binding),
        id: id_word(tsx_id),
        padding_in_value_len: false,
    };
    v.with_attr(0x8022, encode_utf8(software_name())).bytes
}

/// The name the client gives in SOFTWARE.
pub open spec fn software_name() -> Seq<char> {
    seq!['e', 'z', 'k', '-', 's', 't', 'u', 'n']
}

impl Client {
    pub fn new(server: StunServer) -> (r: Self)
        ensures
            r.server == server,
    {
        Client { server }
    }

    /// The binding request for a given transaction id.
    pub fn binding_request_with(&self, tsx_id: u128) -> (r: Vec<u8>)
        ensures
            r@ == binding_request_bytes(tsx_id),
    {
        let mut message = MessageBuilder::new(Class::Request, Method::Binding, tsx_id);
        let software = Software::new("ezk-stun");
        proof {
            reveal_strlit("ezk-stun");
            assert(software.0@ =~= software_name());
            assert(is_ascii_chars(software_name()));
            is_ascii_chars_encode_utf8(software_name());
            lemma_header_bytes_len(type_word(Class::Request, Method::Binding), tsx_id);
            assert(message@.bytes.len() == 20);
            assert(message@.fits(8));
        }
        let _ = message.add_attr(&software);
        message.finish()
    }

    /// A binding request under a fresh random transaction id.
    pub fn binding_request(&self) -> (r: Vec<u8>)
        ensures
            exists|t: u128| t == t & TSX_MASK && r@ == binding_request_bytes(t),
    {
        let t = transaction_id();
        self.binding_request_with(t)
    }
}

} // verus!
