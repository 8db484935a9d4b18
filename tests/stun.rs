use stun_types::attributes::{
    AlternateDomain, AlternateServer, Attribute, ErrorCode, Fingerprint, MappedAddress,
    MessageIntegrity, MessageIntegrityKey, MessageIntegritySha256, Nonce, PasswordAlgorithm,
    PasswordAlgorithms, Realm, SocketAddress, Software, UnknownAttributes, UserHash, Username,
    XorMappedAddress,
};
use stun_types::builder::MessageBuilder;
use stun_types::client::{Client, StunCredential, StunServer};
use stun_types::error::Error;
use stun_types::header::{transaction_id, tsx_id_from_draw, Class, MessageId, Method};
use stun_types::parse::{check_if_stun_message, ParsedMessage};

fn parse_ok(bytes: &Vec<u8>) -> ParsedMessage {
    match ParsedMessage::parse(bytes) {
        Ok(Some(m)) => m,
        Ok(None) => panic!("not a STUN message"),
        Err(e) => panic!("parse error {:?}", e),
    }
}

fn header(typ: u16, len: u16) -> Vec<u8> {
    let mut b = vec![(typ >> 8) as u8, typ as u8, (len >> 8) as u8, len as u8];
    b.extend_from_slice(&[0x21, 0x12, 0xA4, 0x42]);
    b.extend_from_slice(&[0u8; 12]);
    b
}

#[test]
fn binding_request_round_trip() {
    let mut b = MessageBuilder::new(Class::Request, Method::Binding, 0x00112233445566778899AABB);
    b.add_attr(&Software::new("ezk-stun")).unwrap();
    let bytes = b.finish();
    let expected: Vec<u8> = vec![
        0x00, 0x01, 0x00, 0x0C, 0x21, 0x12, 0xA4, 0x42, 0x00, 0x11, 0x22, 0x33, 0x44, 0x55, 0x66,
        0x77, 0x88, 0x99, 0xAA, 0xBB, 0x80, 0x22, 0x00, 0x08, 0x65, 0x7A, 0x6B, 0x2D, 0x73, 0x74,
        0x75, 0x6E,
    ];
    assert_eq!(bytes, expected);
    let msg = parse_ok(&bytes);
    assert_eq!(msg.class, Class::Request);
    assert_eq!(msg.method, Ok(Method::Binding));
    assert_eq!(msg.tsx_id, 0x00112233445566778899AABB);
    assert_eq!(msg.attributes.len(), 1);
    assert_eq!(msg.attributes[0].typ, 0x8022);
    assert_eq!(msg.attributes[0].attr_idx, 20);
    let sw: Software = msg.get_attr().unwrap().unwrap();
    assert_eq!(sw.0, "ezk-stun");
}

#[test]
fn xor_mapped_address_ipv4() {
    let addr = SocketAddress::V4 { ip: 0xC0000201, port: 32853 };
    let mut b = MessageBuilder::new(Class::Success, Method::Binding, 0);
    b.add_attr(&XorMappedAddress(addr)).unwrap();
    let bytes = b.finish();
    assert_eq!(&bytes[20..24], &[0x00, 0x20, 0x00, 0x08]);
    assert_eq!(&bytes[24..32], &[0x00, 0x01, 0xA1, 0x47, 0xE1, 0x12, 0xA6, 0x43]);
    let msg = parse_ok(&bytes);
    let got: XorMappedAddress = msg.get_attr().unwrap().unwrap();
    assert_eq!(got.0, addr);
}

#[test]
fn xor_mapped_address_ipv6_uses_transaction_id() {
    let addr = SocketAddress::V6 { ip: 0x2001_0db8_0000_0000_0000_0000_0000_0001, port: 3478 };
    let tid = 0x0102030405060708090A0B0Cu128;
    let mut b = MessageBuilder::new(Class::Success, Method::Binding, tid);
    b.add_attr(&XorMappedAddress(addr)).unwrap();
    let bytes = b.finish();
    assert_eq!(bytes.len(), 20 + 4 + 20);
    assert_eq!(&bytes[24..28], &[0x00, 0x02, 0x2C, 0x84]);
    let id_word = 0x2112A442_0102030405060708090A0B0Cu128;
    let masked = 0x2001_0db8_0000_0000_0000_0000_0000_0001u128 ^ id_word;
    assert_eq!(&bytes[28..44], &masked.to_be_bytes());
    let msg = parse_ok(&bytes);
    let got: XorMappedAddress = msg.get_attr().unwrap().unwrap();
    assert_eq!(got.0, addr);
}

#[test]
fn truncated_buffer() {
    let short = vec![0u8; 19];
    assert!(matches!(ParsedMessage::parse(&short), Ok(None)));
    let empty = header(0x0001, 0);
    let msg = parse_ok(&empty);
    assert!(msg.attributes.is_empty());
    assert_eq!(msg.class, Class::Request);
    assert_eq!(msg.tsx_id, 0);
}

#[test]
fn bad_attribute_length() {
    let mut b = header(0x0001, 8);
    b.extend_from_slice(&[0x80, 0x22, 0x00, 0x10, 1, 2, 3, 4]);
    assert!(matches!(
        ParsedMessage::parse(&b),
        Err(Error::InvalidData("Invalid attribute length in STUN message"))
    ));
}

#[test]
fn truncated_attribute_header() {
    let mut b = header(0x0001, 4);
    b.extend_from_slice(&[0x80, 0x22]);
    assert!(matches!(ParsedMessage::parse(&b), Err(Error::InvalidData(_))));
}

#[test]
fn message_integrity_verification() {
    let mut b = MessageBuilder::new(Class::Request, Method::Binding, 0);
    b.add_attr(&Username::new("alice")).unwrap();
    b.add_attr_with(&MessageIntegrity, MessageIntegrityKey::new_short_term("pw")).unwrap();
    let bytes = b.finish();
    let msg = parse_ok(&bytes);
    let ok: Result<MessageIntegrity, Error> =
        msg.get_attr_with(MessageIntegrityKey::new_short_term("pw")).unwrap();
    assert!(ok.is_ok());
    let bad: Result<MessageIntegrity, Error> =
        msg.get_attr_with(MessageIntegrityKey::new_short_term("wrong")).unwrap();
    assert_eq!(bad.err(), Some(Error::InvalidData("failed to verify message integrity")));
}

#[test]
fn message_integrity_detects_flipped_byte() {
    let mut b = MessageBuilder::new(Class::Request, Method::Binding, 7);
    b.add_attr(&Username::new("alice")).unwrap();
    b.add_attr_with(&MessageIntegrity, MessageIntegrityKey::new_short_term("pw")).unwrap();
    let mut bytes = b.finish();
    bytes[25] ^= 0x01;
    let msg = parse_ok(&bytes);
    let r: Result<MessageIntegrity, Error> =
        msg.get_attr_with(MessageIntegrityKey::new_short_term("pw")).unwrap();
    assert!(r.is_err());
}

#[test]
fn message_integrity_sha256_verification() {
    let mut b = MessageBuilder::new(Class::Request, Method::Binding, 9);
    b.add_attr(&Username::new("bob")).unwrap();
    b.add_attr_with(&MessageIntegritySha256, MessageIntegrityKey::new_short_term("secret"))
        .unwrap();
    let bytes = b.finish();
    assert_eq!(bytes.len(), 20 + 8 + 36);
    let msg = parse_ok(&bytes);
    let ok: Result<MessageIntegritySha256, Error> =
        msg.get_attr_with(MessageIntegrityKey::new_short_term("secret")).unwrap();
    assert!(ok.is_ok());
    let bad: Result<MessageIntegritySha256, Error> =
        msg.get_attr_with(MessageIntegrityKey::new_short_term("Secret")).unwrap();
    assert!(bad.is_err());
}

#[test]
fn long_term_key_derivation() {
    let key = MessageIntegrityKey::new_long_term("user", "realm", "pass");
    assert_eq!(
        key.key,
        vec![
            0x84, 0x93, 0xFB, 0xC5, 0x3B, 0xA5, 0x82, 0xFB, 0x4C, 0x04, 0x4C, 0x45, 0x6B, 0xDC,
            0x40, 0xEB
        ]
    );
}

#[test]
fn short_term_key_is_password() {
    let key = MessageIntegrityKey::new_short_term("pw");
    assert_eq!(key.key, b"pw".to_vec());
}

#[test]
fn magic_cookie_gate() {
    let mut b = header(0x0001, 0);
    b[7] = 0x43;
    assert!(matches!(ParsedMessage::parse(&b), Ok(None)));
    assert!(!check_if_stun_message(&b));
    let mut z = header(0x0001, 0);
    z[0] = 0x40;
    assert!(matches!(ParsedMessage::parse(&z), Ok(None)));
    assert!(!check_if_stun_message(&z));
    let good = header(0x0001, 0);
    assert!(check_if_stun_message(&good));
    assert!(!check_if_stun_message(&good[..19]));
}

#[test]
fn built_messages_are_framed() {
    let mut b = MessageBuilder::new(Class::Indication, Method::Binding, 1);
    for name in ["a", "ab", "abc", "abcd", "abcde"] {
        b.add_attr(&Username::new(name)).unwrap();
        let buf = b.buffer();
        assert_eq!(buf.len() % 4, 0);
        let len = ((buf[2] as usize) << 8) | buf[3] as usize;
        assert_eq!(len, buf.len() - 20);
    }
    let bytes = b.finish();
    assert_eq!(bytes.len(), 20 + 8 + 8 + 8 + 8 + 12);
    assert_eq!(&bytes[20..28], &[0x00, 0x06, 0x00, 0x01, b'a', 0, 0, 0]);
}

#[test]
fn padding_in_value_len_option() {
    let mut b = MessageBuilder::new(Class::Request, Method::Binding, 0);
    b.padding_in_value_len(true);
    b.add_attr(&Username::new("abcde")).unwrap();
    let bytes = b.finish();
    assert_eq!(&bytes[20..24], &[0x00, 0x06, 0x00, 0x08]);
    assert_eq!(&bytes[2..4], &[0x00, 0x0C]);
}

#[test]
fn string_and_bytes_round_trip() {
    let mut b = MessageBuilder::new(Class::Request, Method::Binding, 3);
    b.add_attr(&Realm::new("example.org")).unwrap();
    b.add_attr(&Nonce::new(&[1, 2, 3, 4, 5])).unwrap();
    b.add_attr(&AlternateDomain::new(b"alt.example")).unwrap();
    let bytes = b.finish();
    let msg = parse_ok(&bytes);
    let realm: Realm = msg.get_attr().unwrap().unwrap();
    assert_eq!(realm.0, "example.org");
    let nonce: Nonce = msg.get_attr().unwrap().unwrap();
    assert_eq!(nonce.0, vec![1, 2, 3, 4, 5]);
    let alt: AlternateDomain = msg.get_attr().unwrap().unwrap();
    assert_eq!(alt.0, b"alt.example".to_vec());
    assert!(msg.get_attr::<Username>().is_none());
}

#[test]
fn first_of_duplicate_attributes_wins() {
    let mut b = MessageBuilder::new(Class::Request, Method::Binding, 3);
    b.add_attr(&Username::new("first")).unwrap();
    b.add_attr(&Username::new("second")).unwrap();
    let msg = parse_ok(&b.finish());
    assert_eq!(msg.attributes.len(), 2);
    let u: Username = msg.get_attr().unwrap().unwrap();
    assert_eq!(u.0, "first");
}

#[test]
fn invalid_utf8_is_reported() {
    let mut b = header(0x0001, 8);
    b.extend_from_slice(&[0x00, 0x06, 0x00, 0x02, 0xC3, 0x28, 0, 0]);
    let msg = parse_ok(&b);
    let r: Result<Username, Error> = msg.get_attr().unwrap();
    assert_eq!(r.err(), Some(Error::Utf8));
}

#[test]
fn oversized_value_overflows() {
    let long = "x".repeat(70000);
    let mut b = MessageBuilder::new(Class::Request, Method::Binding, 0);
    assert_eq!(b.add_attr(&Username::new(&long)), Err(Error::IntegerOverflow));
    assert_eq!(b.buffer().len(), 20);
    let fits = "y".repeat(65000);
    b.add_attr(&Username::new(&fits)).unwrap();
    assert_eq!(b.add_attr(&Username::new(&fits)), Err(Error::IntegerOverflow));
    assert_eq!(Username::new(&long).encode_len(), Err(Error::IntegerOverflow));
}

#[test]
fn address_attributes_round_trip() {
    let v4 = SocketAddress::V4 { ip: 0x7F000001, port: 8080 };
    let v6 = SocketAddress::V6 { ip: 1, port: 443 };
    let mut b = MessageBuilder::new(Class::Success, Method::Binding, 5);
    b.add_attr(&MappedAddress(v4)).unwrap();
    b.add_attr(&AlternateServer(v6)).unwrap();
    let bytes = b.finish();
    assert_eq!(&bytes[24..32], &[0x00, 0x01, 0x1F, 0x90, 0x7F, 0x00, 0x00, 0x01]);
    let msg = parse_ok(&bytes);
    let m: MappedAddress = msg.get_attr().unwrap().unwrap();
    assert_eq!(m.0, v4);
    let a: AlternateServer = msg.get_attr().unwrap().unwrap();
    assert_eq!(a.0, v6);
    assert_eq!(MappedAddress(v4).encode_len(), Ok(8));
    assert_eq!(MappedAddress(v6).encode_len(), Ok(20));
}

#[test]
fn address_decode_errors() {
    let mut b = header(0x0101, 8);
    b.extend_from_slice(&[0x00, 0x01, 0x00, 0x04, 0x01, 0x01, 0x00, 0x50]);
    let msg = parse_ok(&b);
    let r: Result<MappedAddress, Error> = msg.get_attr().unwrap();
    assert!(matches!(r, Err(Error::InvalidData("first byte must be zero"))));

    let mut b = header(0x0101, 12);
    b.extend_from_slice(&[0x00, 0x01, 0x00, 0x08, 0x00, 0x03, 0x00, 0x50, 1, 2, 3, 4]);
    let msg = parse_ok(&b);
    let r: Result<MappedAddress, Error> = msg.get_attr().unwrap();
    assert!(matches!(r, Err(Error::InvalidData("invalid address family"))));
}

#[test]
fn error_code_round_trip() {
    let mut b = MessageBuilder::new(Class::Error, Method::Binding, 11);
    b.add_attr(&ErrorCode { number: 401, reason: "Unauthorized".to_string() }).unwrap();
    let bytes = b.finish();
    assert_eq!(&bytes[24..28], &[0x00, 0x00, 0x04, 0x01]);
    let msg = parse_ok(&bytes);
    assert_eq!(msg.class, Class::Error);
    let e: ErrorCode = msg.get_attr().unwrap().unwrap();
    assert_eq!(e.number, 401);
    assert_eq!(e.reason, "Unauthorized");
}

#[test]
fn error_code_empty_reason_and_short_value() {
    let mut b = MessageBuilder::new(Class::Error, Method::Binding, 11);
    b.add_attr(&ErrorCode { number: 699, reason: String::new() }).unwrap();
    let msg = parse_ok(&b.finish());
    let e: ErrorCode = msg.get_attr().unwrap().unwrap();
    assert_eq!(e.number, 699);
    assert_eq!(e.reason, "");

    let mut raw = header(0x0111, 4);
    raw.extend_from_slice(&[0x00, 0x09, 0x00, 0x00]);
    let msg = parse_ok(&raw);
    let r: Result<ErrorCode, Error> = msg.get_attr().unwrap();
    assert!(matches!(r, Err(Error::InvalidData("error code must be at least 4 bytes"))));
}

#[test]
fn unknown_attributes_round_trip() {
    let mut b = MessageBuilder::new(Class::Error, Method::Binding, 2);
    b.add_attr(&UnknownAttributes(vec![0x0001, 0x8022, 0xABCD])).unwrap();
    let bytes = b.finish();
    assert_eq!(&bytes[20..30], &[0x00, 0x0A, 0x00, 0x06, 0x00, 0x01, 0x80, 0x22, 0xAB, 0xCD]);
    let msg = parse_ok(&bytes);
    let u: UnknownAttributes = msg.get_attr().unwrap().unwrap();
    assert_eq!(u.0, vec![0x0001, 0x8022, 0xABCD]);
}

#[test]
fn password_algorithms_round_trip() {
    let algs = PasswordAlgorithms { algorithms: vec![(0x0001, vec![]), (0x0002, vec![9, 8, 7])] };
    assert_eq!(algs.encode_len(), Ok(4 + 4 + 3 + 1));
    let mut b = MessageBuilder::new(Class::Success, Method::Binding, 2);
    b.add_attr(&algs).unwrap();
    b.add_attr(&PasswordAlgorithm { algorithm: 0x0002, params: vec![1] }).unwrap();
    let bytes = b.finish();
    assert_eq!(
        &bytes[24..36],
        &[0x00, 0x01, 0x00, 0x00, 0x00, 0x02, 0x00, 0x03, 9, 8, 7, 0]
    );
    let msg = parse_ok(&bytes);
    let got: PasswordAlgorithms = msg.get_attr().unwrap().unwrap();
    assert_eq!(got.algorithms, vec![(0x0001, vec![]), (0x0002, vec![9, 8, 7])]);
    let one: PasswordAlgorithm = msg.get_attr().unwrap().unwrap();
    assert_eq!(one.algorithm, 2);
    assert_eq!(one.params, vec![1]);
}

#[test]
fn password_algorithms_bad_length() {
    let mut raw = header(0x0101, 8);
    raw.extend_from_slice(&[0x80, 0x02, 0x00, 0x04, 0x00, 0x01, 0x00, 0x09]);
    let msg = parse_ok(&raw);
    let r: Result<PasswordAlgorithms, Error> = msg.get_attr().unwrap();
    assert!(matches!(r, Err(Error::InvalidData("invalid algorithm len"))));
}

#[test]
fn user_hash_round_trip() {
    let h = UserHash::new("user", "realm");
    assert_eq!(h.0.len(), 32);
    let mut b = MessageBuilder::new(Class::Request, Method::Binding, 4);
    b.add_attr(&h).unwrap();
    let msg = parse_ok(&b.finish());
    let got: UserHash = msg.get_attr().unwrap().unwrap();
    assert_eq!(got.0, h.0);
    assert_ne!(UserHash::new("user", "realm2").0, h.0);

    let mut raw = header(0x0001, 8);
    raw.extend_from_slice(&[0x00, 0x1E, 0x00, 0x04, 1, 2, 3, 4]);
    let msg = parse_ok(&raw);
    let r: Result<UserHash, Error> = msg.get_attr().unwrap();
    assert!(matches!(r, Err(Error::InvalidData("user hash must be 32 bytes"))));
}

#[test]
fn fingerprint_is_deterministic_and_verifies() {
    let build = || {
        let mut b = MessageBuilder::new(Class::Request, Method::Binding, 0x42);
        b.add_attr(&Software::new("ezk-stun")).unwrap();
        b.add_attr(&Fingerprint).unwrap();
        b.finish()
    };
    let one = build();
    let two = build();
    assert_eq!(one, two);
    assert_eq!(&one[one.len() - 8..one.len() - 4], &[0x80, 0x28, 0x00, 0x04]);
    let msg = parse_ok(&one);
    let ok: Result<Fingerprint, Error> = msg.get_attr().unwrap();
    assert!(ok.is_ok());
    let mut bad = one.clone();
    bad[21] ^= 0x01;
    let msg = parse_ok(&bad);
    let r: Result<Fingerprint, Error> = msg.get_attr().unwrap();
    assert!(matches!(r, Err(Error::InvalidData("failed to verify fingerprint"))));
}

#[test]
fn fingerprint_known_value() {
    // CRC-32 of the 24 covered bytes, XORed with 0x5354554E.
    let mut b = MessageBuilder::new(Class::Request, Method::Binding, 0);
    b.add_attr(&Fingerprint).unwrap();
    let bytes = b.finish();
    let crc = crc32fast::hash(&bytes[..20]) ^ 0x5354554E;
    assert_eq!(&bytes[24..28], &crc.to_be_bytes());
    assert_ne!(&bytes[24..28], &[0, 0, 0, 0]);
}

#[test]
fn class_and_method_bits() {
    let mut t: u16 = 0xFFFF;
    Class::Success.set(&mut t);
    assert_eq!(t, 0x3EEF | 0x0100);
    Method::Binding.set(&mut t);
    assert_eq!(t, 0x0101);
    let mut t: u16 = 0;
    Method::Binding.set(&mut t);
    Class::Indication.set(&mut t);
    assert_eq!(t, 0x0011);
    assert_eq!(Class::from_type(0x0111), Ok(Class::Error));
    assert_eq!(Method::from_type(0x0002), Err(Error::InvalidData("unknown method")));
}

#[test]
fn unknown_method_is_kept_for_later() {
    let b = header(0x0112, 0);
    let msg = parse_ok(&b);
    assert_eq!(msg.class, Class::Error);
    assert_eq!(msg.method, Err(Error::InvalidData("unknown method")));
}

#[test]
fn message_id_words() {
    let id = MessageId::new();
    assert_eq!(id.cookie(), 0x2112A442);
    assert_eq!(id.tsx_id(), 0);
    let b = MessageBuilder::new(Class::Request, Method::Binding, u128::MAX);
    assert_eq!(b.id().cookie(), 0x2112A442);
    assert_eq!(b.id().tsx_id(), (1u128 << 96) - 1);
}

#[test]
fn transaction_ids_fit_in_96_bits() {
    for _ in 0..16 {
        assert_eq!(transaction_id() >> 96, 0);
    }
}

#[test]
fn short_term_credentials_sign_request() {
    let cred = StunCredential::ShortTerm { username: "alice".to_string(), password: "pw".to_string() };
    let mut b = MessageBuilder::new(Class::Request, Method::Binding, 77);
    cred.auth_msg(&mut b).unwrap();
    let msg = parse_ok(&b.finish());
    let types: Vec<u16> = msg.attributes.iter().map(|a| a.typ).collect();
    assert_eq!(types, vec![0x0006, 0x001C, 0x0008]);
    let sha1: Result<MessageIntegrity, Error> =
        msg.get_attr_with(MessageIntegrityKey::new_short_term("pw")).unwrap();
    assert!(sha1.is_ok());
}

#[test]
fn long_term_credentials_sign_request() {
    let cred = StunCredential::LongTerm {
        realm: "realm".to_string(),
        username: "user".to_string(),
        password: "pass".to_string(),
    };
    let mut b = MessageBuilder::new(Class::Request, Method::Binding, 78);
    cred.auth_msg(&mut b).unwrap();
    let msg = parse_ok(&b.finish());
    let types: Vec<u16> = msg.attributes.iter().map(|a| a.typ).collect();
    assert_eq!(types, vec![0x0014, 0x0006, 0x001C, 0x0008]);
    let key = || MessageIntegrityKey::new_long_term("user", "realm", "pass");
    let r1: Result<MessageIntegrity, Error> = msg.get_attr_with(key()).unwrap();
    assert!(r1.is_ok());
    let wrong = MessageIntegrityKey::new_long_term("user", "realm", "pas");
    let r2: Result<MessageIntegrity, Error> = msg.get_attr_with(wrong).unwrap();
    assert!(r2.is_err());
}

#[test]
fn client_binding_request() {
    let server = StunServer::new(SocketAddress::V4 { ip: 0x7F000001, port: 3478 });
    let client = Client::new(server);
    let fixed = client.binding_request_with(0x00112233445566778899AABB);
    assert_eq!(&fixed[..4], &[0x00, 0x01, 0x00, 0x0C]);
    let req = client.binding_request();
    assert_eq!(req.len(), 32);
    let msg = parse_ok(&req);
    assert_eq!(msg.method, Ok(Method::Binding));
    assert_eq!(&req[20..], &fixed[20..]);
}

#[test]
fn credential_string_keys() {
    let a = stun_types::attributes::new_hmac_sha1("user:realm:pass");
    let b = stun_types::attributes::new_hmac_sha256("user:realm:pass");
    assert_eq!(a.key, MessageIntegrityKey::new_long_term("user", "realm", "pass").key);
    assert_eq!(a.key, b.key);
}

#[test]
fn transaction_id_keeps_low_96_bits_of_draw() {
    assert_eq!(tsx_id_from_draw(u128::MAX), (1u128 << 96) - 1);
    assert_eq!(
        tsx_id_from_draw(0xDEADBEEF_00112233445566778899AABB),
        0x00112233445566778899AABB
    );
    assert_eq!(tsx_id_from_draw(5), 5);
}

#[test]
fn password_algorithms_tolerate_cut_off_padding() {
    // One record (algorithm 1, one parameter byte) whose padding the end of
    // the 5-byte value cuts off.
    let mut raw = header(0x0101, 24);
    raw.extend_from_slice(&[0x80, 0x02, 0x00, 0x05, 0x00, 0x01, 0x00, 0x01, 7, 0, 0, 0]);
    raw.extend_from_slice(&[0x00, 0x1D, 0x00, 0x05, 0x00, 0x02, 0x00, 0x01, 9, 0, 0, 0]);
    let msg = parse_ok(&raw);
    let all: PasswordAlgorithms = msg.get_attr().unwrap().unwrap();
    assert_eq!(all.algorithms, vec![(0x0001, vec![7])]);
    let one: PasswordAlgorithm = msg.get_attr().unwrap().unwrap();
    assert_eq!(one.algorithm, 2);
    assert_eq!(one.params, vec![9]);
}

#[test]
fn message_integrity_with_padded_tlv_lengths() {
    let mut b = MessageBuilder::new(Class::Request, Method::Binding, 12);
    b.padding_in_value_len(true);
    b.add_attr(&Username::new("abc")).unwrap();
    b.add_attr_with(&MessageIntegrity, MessageIntegrityKey::new_short_term("pw")).unwrap();
    let msg = parse_ok(&b.finish());
    let r: Result<MessageIntegrity, Error> =
        msg.get_attr_with(MessageIntegrityKey::new_short_term("pw")).unwrap();
    assert!(r.is_ok());
}
