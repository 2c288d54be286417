//! Identifiers of panes, requests and jobs.

use vstd::arithmetic::power::pow;
use vstd::prelude::*;
use vstd::string::*;

verus! {

/// A 128-bit identifier.
#[derive(Debug, Clone, Copy, PartialEq, Eq, PartialOrd, Ord, Hash, Structural)]
pub struct Uuid(pub u128);

/// The character of one hexadecimal digit.
pub open spec fn hex_char(d: int) -> char {
    if d < 10 {
        (48 + d) as char
    } else {
        (87 + d) as char
    }
}

/// The hexadecimal digit of `id` that stands at `place`, counted from the left.
pub open spec fn hex_digit(id: u128, place: int) -> char {
    hex_char((id as int / pow(16, (31 - place) as nat)) % 16)
}

/// An identifier in groups of 8, 4, 4, 4 and 12 hexadecimal digits.
pub open spec fn hyphenated(id: u128) -> Seq<char> {
    Seq::new(
        36,
        |i: int|
            if i == 8 || i == 13 || i == 18 || i == 23 {
                '-'
            } else if i < 8 {
                hex_digit(id, i)
            } else if i < 13 {
                hex_digit(id, i - 1)
            } else if i < 18 {
                hex_digit(id, i - 2)
            } else if i < 23 {
                hex_digit(id, i - 3)
            } else {
                hex_digit(id, i - 4)
            },
    )
}

/// `uuid::Uuid::new_v4`: a random identifier. Nothing is claimed of the value, which is left to
/// chance.
#[verifier::external_body]
fn random_id() -> u128 {
    uuid::Uuid::new_v4().as_u128()
}

/// `uuid::Uuid::from_u128` and the `Display` of `uuid::Uuid`: the identifier in lower-case
/// hexadecimal digits, in hyphenated groups.
#[verifier::external_body]
fn id_text(id: u128) -> (s: String)
    ensures
        s@ == hyphenated(id),
{
    uuid::Uuid::from_u128(id).to_string()
}

impl Uuid {
    /// A random identifier.
    pub fn new_v4() -> Uuid {
        Uuid(random_id())
    }
}

/// The first eight characters of the identifier's text.
pub fn short_id(id: Uuid) -> (s: String)
    ensures
        s@ == hyphenated(id.0).take(8),
{
    let text = id_text(id.0);
    let head = text.as_str().substring_char(0, 8);
    assert(text@.subrange(0, 8) =~= hyphenated(id.0).take(8));
    String::from_str(head)
}

} // verus!
