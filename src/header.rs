//! The 20-byte message header: the type word with its class and method, the
//! length word, and the 128-bit id (magic cookie and transaction id).
use vstd::prelude::*;
use crate::error::Error;
use crate::crypto::random_u128;

verus! {

/// The fixed value of bytes 4 to 8 of every STUN message.
pub const COOKIE: u32 = 0x2112A442;

/// Bits of the type word that carry the class.
pub const CLASS_MASK: u16 = 0x0110;

/// Bits of the type word that carry the method.
pub const METHOD_MASK: u16 = 0x3EEF;

/// The low 96 bits of the id word: the transaction id.
pub const TSX_MASK: u128 = 0xFFFF_FFFF_FFFF_FFFF_FFFF_FFFF;

#[derive(Debug, Copy, Clone, PartialEq, Eq, Hash, PartialOrd, Ord, Structural)]
pub enum Class {
    Request,
    Indication,
    Success,
    Error,
}

impl Class {
    /// The class bits of the type word.
    pub open spec fn bits(self) -> u16 {
        match self {
            Class::Request => 0x000,
            Class::Indication => 0x010,
            Class::Success => 0x100,
            Class::Error => 0x110,
        }
    }

    /// Replaces the class bits of `typ` with this class, keeping its method bits.
    pub fn set(&self, typ: &mut u16)
        ensures
            *final(typ) == (*old(typ) & METHOD_MASK) | self.bits(),
    {
        *typ &= METHOD_MASK;
        match self {
            Class::Request => *typ |= 0x000,
            Class::Indication => *typ |= 0x010,
            Class::Success => *typ |= 0x100,
            Class::Error => *typ |= 0x110,
        }
    }

    /// Reads the class out of a type word; every class pattern is assigned.
    pub fn from_type(value: u16) -> (r: Result<Class, Error>)
        ensures
            r == Ok::<Class, Error>(class_of(value)),
    {
        let bits = value & CLASS_MASK;
        if bits == 0x000 {
            Ok(Class::Request)
        } else if bits == 0x010 {
            Ok(Class::Indication)
        } else if bits == 0x100 {
            Ok(Class::Success)
        } else {
            assert(value & CLASS_MASK == 0x110) by (bit_vector)
                requires
                    value & CLASS_MASK != 0x000,
                    value & CLASS_MASK != 0x010,
                    value & CLASS_MASK != 0x100,
            ;
            Ok(Class::Error)
        }
    }
}

/// The class that the bits `0x0110` of a type word give.
pub open spec fn class_of(typ: u16) -> Class {
    let bits = typ & CLASS_MASK;
    if bits == 0x000 {
        Class::Request
    } else if bits == 0x010 {
        Class::Indication
    } else if bits == 0x100 {
        Class::Success
    } else {
        Class::Error
    }
}

#[derive(Debug, Copy, Clone, PartialEq, Eq, Hash, PartialOrd, Ord, Structural)]
pub enum Method {
    Binding,
}

impl Method {
    /// The method bits of the type word.
    pub open spec fn bits(self) -> u16 {
        match self {
            Method::Binding => 0x001,
        }
    }

    /// Replaces the method bits of `typ` with this method, keeping its class bits.
    pub fn set(&self, typ: &mut u16)
        ensures
            *final(typ) == (*old(typ) & CLASS_MASK) | self.bits(),
    {
        *typ &= CLASS_MASK;
        match self {
            Method::Binding => *typ |= 0x001,
        }
    }

    /// Reads the method out of a type word.
    pub fn from_type(value: u16) -> (r: Result<Method, Error>)
        ensures
            method_of(value) matches Some(m) ==> r == Ok::<Method, Error>(m),
            method_of(value) is None ==> r == Err::<Method, Error>(Error::InvalidData("unknown method")),
    {
        if value & METHOD_MASK == 0x001 {
            Ok(Method::Binding)
        } else {
            Err(Error::InvalidData("unknown method"))
        }
    }
}

/// The method that the bits `0x3EEF` of a type word give, if one is assigned.
pub open spec fn method_of(typ: u16) -> Option<Method> {
    if typ & METHOD_MASK == 0x001 {
        Some(Method::Binding)
    } else {
        None
    }
}

/// The type word of a message of class `c` and method `m`.
pub open spec fn type_word(c: Class, m: Method) -> u16 {
    ((0u16 & CLASS_MASK) | m.bits()) & METHOD_MASK | c.bits()
}

/// Packing a class and a method into a type word and reading them back gives
/// the same class and method, and leaves the two leading bits zero.
pub proof fn lemma_type_word(c: Class, m: Method)
    ensures
        class_of(type_word(c, m)) == c,
        method_of(type_word(c, m)) == Some(m),
        type_word(c, m) < 0x4000,
{
    let mb = m.bits();
    let cb = c.bits();
    let t = type_word(c, m);
    assert(mb == 1);
    assert(cb == 0 || cb == 0x10 || cb == 0x100 || cb == 0x110);
    assert(t == ((0u16 & 0x0110u16) | mb) & 0x3EEFu16 | cb);
    assert(t & 0x0110u16 == cb && t & 0x3EEFu16 == 1 && t < 0x4000) by (bit_vector)
        requires
            t == ((0u16 & 0x0110u16) | mb) & 0x3EEFu16 | cb,
            mb == 1,
            cb == 0 || cb == 0x10 || cb == 0x100 || cb == 0x110,
    ;
}

/// The first word of the header: two zero bits, 14 bits of type, 16 bits of length.
#[derive(Debug, Copy, Clone, PartialEq, Eq)]
pub struct MessageHead(pub u32);

impl MessageHead {
    /// The two leading bits, zero in every STUN message.
    pub fn z(&self) -> (r: u8)
        ensures
            r == (self.0 >> 30u32) as u8,
    {
        (self.0 >> 30u32) as u8
    }

    /// The 14-bit message type.
    pub fn typ(&self) -> (r: u16)
        ensures
            r == ((self.0 >> 16u32) & 0x3FFFu32) as u16,
    {
        ((self.0 >> 16u32) & 0x3FFFu32) as u16
    }

    /// The length of the attributes in bytes.
    pub fn len(&self) -> (r: u16)
        ensures
            r == (self.0 & 0xFFFFu32) as u16,
    {
        (self.0 & 0xFFFFu32) as u16
    }
}

/// The id word of the header: the magic cookie in the high 32 bits, the
/// transaction id in the low 96.
#[derive(Debug, Copy, Clone, PartialEq, Eq)]
pub struct MessageId(pub u128);

/// The id word for a transaction id; bits of `tsx_id` above the 96th are dropped.
pub open spec fn id_word(tsx_id: u128) -> u128 {
    ((COOKIE as u128) << 96u128) | (tsx_id & TSX_MASK)
}

impl MessageId {
    /// An id word that holds the magic cookie and a zero transaction id.
    pub fn new() -> (r: Self)
        ensures
            r.0 == id_word(0),
    {
        let mut new = MessageId(0);
        new.set_cookie(COOKIE);
        proof {
            let w: u128 = 0;
            assert(((w & TSX_MASK) | ((COOKIE as u128) << 96u128)) == ((COOKIE as u128) << 96u128) | (w & TSX_MASK)) by (bit_vector);
        }
        new
    }

    /// The high 32 bits.
    pub fn cookie(&self) -> (r: u32)
        ensures
            r == (self.0 >> 96u128) as u32,
    {
        (self.0 >> 96u128) as u32
    }

    /// The low 96 bits.
    pub fn tsx_id(&self) -> (r: u128)
        ensures
            r == self.0 & TSX_MASK,
    {
        self.0 & TSX_MASK
    }

    /// Replaces the high 32 bits.
    pub fn set_cookie(&mut self, cookie: u32)
        ensures
            final(self).0 == (old(self).0 & TSX_MASK) | ((cookie as u128) << 96u128),
    {
        self.0 = (self.0 & TSX_MASK) | ((cookie as u128) << 96u128);
    }

    /// Replaces the low 96 bits with those of `tsx_id`.
    pub fn set_tsx_id(&mut self, tsx_id: u128)
        ensures
            final(self).0 == (old(self).0 & !TSX_MASK) | (tsx_id & TSX_MASK),
    {
        self.0 = (self.0 & !TSX_MASK) | (tsx_id & TSX_MASK);
    }
}

/// The transaction id made from a drawn 128-bit value: its low 96 bits, with
/// the 32 high bits cleared so that it never overlaps the cookie once embedded.
pub fn tsx_id_from_draw(draw: u128) -> (r: u128)
    ensures
        r == draw & TSX_MASK,
        r & !TSX_MASK == 0,
{
    let x = draw & TSX_MASK;
    assert(x & !0xFFFF_FFFF_FFFF_FFFF_FFFF_FFFFu128 == 0) by (bit_vector)
        requires
            x == draw & 0xFFFF_FFFF_FFFF_FFFF_FFFF_FFFFu128,
    ;
    x
}

/// A random 96-bit transaction id, drawn from the thread-local generator.
/// Whatever is drawn, the 32 high bits of the result are zero.
pub fn transaction_id() -> (r: u128)
    ensures
        r & !TSX_MASK == 0,
        r == r & TSX_MASK,
{
    let draw = random_u128();
    let x = tsx_id_from_draw(draw);
    assert(x == x & 0xFFFF_FFFF_FFFF_FFFF_FFFF_FFFFu128) by (bit_vector)
        requires
            x == draw & 0xFFFF_FFFF_FFFF_FFFF_FFFF_FFFFu128,
    ;
    x
}

/// The id word for `tsx_id` holds the cookie and the low 96 bits of `tsx_id`.
pub proof fn lemma_id_word(tsx_id: u128)
    ensures
        (id_word(tsx_id) >> 96u128) as u32 == COOKIE,
        id_word(tsx_id) & TSX_MASK == tsx_id & TSX_MASK,
{
    let c = COOKIE as u128;
    assert(c < 0x1_0000_0000);
    assert(((c << 96u128) | (tsx_id & 0xFFFF_FFFF_FFFF_FFFF_FFFF_FFFFu128)) >> 96u128 == c
        && ((c << 96u128) | (tsx_id & 0xFFFF_FFFF_FFFF_FFFF_FFFF_FFFFu128)) & 0xFFFF_FFFF_FFFF_FFFF_FFFF_FFFFu128
            == tsx_id & 0xFFFF_FFFF_FFFF_FFFF_FFFF_FFFFu128) by (bit_vector)
        requires
            c < 0x1_0000_0000,
    ;
}

} // verus!
