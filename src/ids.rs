//! Universally unique identifiers, held as their 128-bit value.
use vstd::prelude::*;

verus! {

/// The value that the uuid crate reads from a string, if it reads one.
pub uninterp spec fn uuid_of(s: Seq<char>) -> Option<u128>;

/// The text that the uuid crate writes for a value.
pub uninterp spec fn uuid_text(v: u128) -> Seq<char>;

/// Relies on `uuid::Uuid::parse_str`: reads the simple, hyphenated, braced and URN forms.
#[verifier::external_body]
fn parse_uuid(s: &str) -> (r: Option<u128>)
    ensures
        r == uuid_of(s@),
{
    uuid::Uuid::parse_str(s).ok().map(|u| u.as_u128())
}

/// Relies on the `Display` impl of `uuid::Uuid`: the hyphenated lowercase form.
#[verifier::external_body]
fn uuid_to_string(v: u128) -> (r: String)
    ensures
        r@ == uuid_text(v),
{
    uuid::Uuid::from_u128(v).to_string()
}

/// A universally unique identifier.
#[derive(Debug, Clone, Copy, PartialEq, Eq, Structural, Hash)]
pub struct Uuid(pub u128);

impl Uuid {
    /// Reads an identifier from text.
    pub fn parse(s: &str) -> (r: Option<Uuid>)
        ensures
            match uuid_of(s@) {
                Some(v) => r == Some(Uuid(v)),
                None => r is None,
            },
    {
        match parse_uuid(s) {
            Some(v) => Some(Uuid(v)),
            None => None,
        }
    }

    /// The hyphenated lowercase text of the identifier.
    pub fn to_text(&self) -> (r: String)
        ensures
            r@ == uuid_text(self.0),
    {
        uuid_to_string(self.0)
    }
}

} // verus!
