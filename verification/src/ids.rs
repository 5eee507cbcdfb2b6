//! Node identity.
use vstd::prelude::*;


verus! {

/// A 128-bit universally unique identifier.
#[derive(Debug, Clone, Copy, PartialEq, Eq, Hash, Structural)]
pub struct Uuid {
    pub value: u128,
}

/// `value` carries the version and variant marks of a random (version 4)
/// identifier.
pub open spec fn random_marks(value: u128) -> bool {
    &&& (value as int / 0x1000_0000_0000_0000_0000) % 16 == 4
    &&& (value as int / 0x4000_0000_0000_0000) % 4 == 2
}

/// The character of a hexadecimal digit, in lower case.
pub open spec fn hex_char(d: int) -> char {
    if d < 10 {
        crate::text::digit_char(d)
    } else if d == 10 {
        'a'
    } else if d == 11 {
        'b'
    } else if d == 12 {
        'c'
    } else if d == 13 {
        'd'
    } else if d == 14 {
        'e'
    } else {
        'f'
    }
}

/// The lowest `n` hexadecimal digits of `value`, the highest first.
pub open spec fn hex_digits(value: int, n: nat) -> Seq<char>
    decreases n,
{
    if n == 0 {
        Seq::empty()
    } else {
        hex_digits(value / 16, (n - 1) as nat).push(hex_char(value % 16))
    }
}

/// The hyphenated form: 8, 4, 4, 4 and 12 hexadecimal digits.
pub open spec fn hyphenated(value: u128) -> Seq<char> {
    let d = hex_digits(value as int, 32);
    d.subrange(0, 8).push('-') + d.subrange(8, 12).push('-') + d.subrange(12, 16).push('-')
        + d.subrange(16, 20).push('-') + d.subrange(20, 32)
}

impl Uuid {
    /// `uuid::Uuid::new_v4` with `as_u128`: some identifier that carries the
    /// marks of version 4. Its other bits are random, so nothing is said of
    /// them.
    #[verifier::external_body]
    pub fn new_v4() -> (r: Uuid)
        ensures
            random_marks(r.value),
    {
        Uuid { value: uuid::Uuid::new_v4().as_u128() }
    }

    /// `uuid::Uuid::from_u128` with `hyphenated().to_string()`: the usual
    /// written form, in lower case.
    #[verifier::external_body]
    pub fn to_text(&self) -> (r: String)
        ensures
            r@ == hyphenated(self.value),
    {
        uuid::Uuid::from_u128(self.value).hyphenated().to_string()
    }
}

} // verus!
