//! The error taxonomy of the codec.

use vstd::prelude::*;

verus! {

/// Why a conversion from attribute values to a native value failed.
///
/// The three kinds keep "the field was absent", "an entry was found but held
/// the wrong variant" and "the variant was right but its content could not be
/// converted" apart, so a caller can tell them apart without looking at the
/// raw attribute value.
#[derive(Clone, Copy, Debug, PartialEq, Eq, Structural)]
pub enum ConversionError {
    /// A record held no entry at all for a required field name.
    MissingField,
    /// An entry (or value) was found, but it does not populate the attribute
    /// variant that the target type requires; the absent value counts here.
    MissingValue,
    /// The entry populated the right variant, but its content could not be
    /// converted: a numeric text that does not parse, or a set with such an
    /// element.
    InvalidValue,
}

impl ConversionError {
    /// A short description of the error, for embedding in messages.
    pub fn message(&self) -> (m: &'static str)
        ensures
            self is MissingField ==> m@ == "missing field"@,
            self is MissingValue ==> m@ == "missing value"@,
            self is InvalidValue ==> m@ == "invalid value"@,
    {
        match self {
            ConversionError::MissingField => "missing field",
            ConversionError::MissingValue => "missing value",
            ConversionError::InvalidValue => "invalid value",
        }
    }
}

} // verus!
