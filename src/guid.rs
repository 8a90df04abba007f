//! 128-bit identifiers as stored on disk.
use vstd::prelude::*;

verus! {

/// A 128-bit identifier, held as its 16 on-disk bytes read in little-endian
/// order (the mixed-endian GUID layout is kept byte for byte).
#[derive(Debug, Clone, Copy, PartialEq, Eq, Structural)]
pub struct Guid {
    pub value: u128,
}

/// Canonical lower-case hyphenated text of the identifier whose on-disk
/// bytes read as `value` in little-endian order.
pub uninterp spec fn guid_text_of(value: u128) -> Seq<char>;

/// Relies on `uuid::Uuid::from_bytes_le` and `Uuid`'s `Display` impl: the
/// text depends on the identifier's bytes alone.
#[verifier::external_body]
fn guid_text(value: u128) -> (r: String)
    ensures
        r@ == guid_text_of(value),
{
    uuid::Uuid::from_bytes_le(value.to_le_bytes()).to_string()
}

impl Guid {
    /// The all-zero identifier.
    pub fn nil() -> (r: Guid)
        ensures
            r.value == 0,
    {
        Guid { value: 0 }
    }

    pub open spec fn spec_is_nil(self) -> bool {
        self.value == 0
    }

    pub fn is_nil(&self) -> (r: bool)
        ensures
            r == self.spec_is_nil(),
    {
        self.value == 0
    }

    /// The identifier's canonical text, e.g. `8b7ca206-4790-4b9a-b8fe-575f050f886e`.
    pub fn to_text(&self) -> (r: String)
        ensures
            r@ == guid_text_of(self.value),
    {
        guid_text(self.value)
    }
}

} // verus!
