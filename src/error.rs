//! Errors of the library: one variant for each way a resolution can stop.
use vstd::prelude::*;

verus! {

/// Declares `base64::DecodeError`, the error of a rejected base64 text.
#[verifier::external_type_specification]
#[verifier::external_body]
pub struct ExDecodeError(base64::DecodeError);

/// Declares `std::string::FromUtf8Error`, the error of bytes that are not UTF-8.
#[verifier::external_type_specification]
#[verifier::external_body]
pub struct ExFromUtf8Error(std::string::FromUtf8Error);

/// One of the three identity fields of a player page.
#[derive(Debug, Clone, Copy, PartialEq, Eq, Structural)]
pub enum Field {
    Type,
    Hash,
    Id,
}

impl Field {
    /// The name of the field as the page writes it after `videoInfo.`.
    pub fn name(&self) -> (r: &'static str)
        ensures
            r@ == field_name(*self),
    {
        match self {
            Field::Type => "type",
            Field::Hash => "hash",
            Field::Id => "id",
        }
    }
}

/// The name of a field, as characters.
pub open spec fn field_name(f: Field) -> Seq<char> {
    match f {
        Field::Type => "type"@,
        Field::Hash => "hash"@,
        Field::Id => "id"@,
    }
}

/// Why a resolution stopped.
#[derive(Debug)]
#[non_exhaustive]
pub enum Error {
    /// The page address holds no dotted host name.
    NoDomainFound,
    /// The page text assigns no value to this identity field.
    MissingField(Field),
    /// The page text holds no player script tag.
    NoPlayerScript,
    /// The player script holds no encoded endpoint.
    NoEndpointMarker,
    /// A text was not valid base64.
    Decode(base64::DecodeError),
    /// Decoded bytes were not valid UTF-8.
    FromUtf8(std::string::FromUtf8Error),
    /// No rotation turns this link into a decodable text.
    LinkCannotBeDecoded(String),
}

} // verus!
