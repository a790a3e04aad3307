//! Errors of the codec.
//!
//! Offending entities are carried as symbol or type identifiers so that a
//! caller holding the ABI can render them; [`Error::message`] gives a short
//! human-readable description of the error kind.

use vstd::prelude::*;

verus! {

/// Everything that can go wrong while loading an ABI or while encoding or
/// decoding a value against one.
#[derive(Debug, Clone, Copy, PartialEq, Eq, Structural)]
pub enum Error {
    /// The input ended before the current item was fully read.
    Truncated,
    /// A character on the wire was not a valid ASCII byte.
    InvalidChar(u8),
    /// An unknown primitive tag byte was read.
    UnknownTag(u8),
    /// A symbol id was out of range of the symbol table.
    UnknownSymbol(u32),
    /// A type id did not reference an existing type.
    UnknownTypeId(u32),
    /// An enum variant offset was out of range of the enum's attribute list.
    EnumOffsetOutOfRange(u32),
    /// An enum operation was attempted on a type with no attributes; the
    /// payload is the type's name symbol.
    EnumWithoutAttrs(u32),
    /// A non-ASCII char cannot be serialized.
    NotAscii(char),
    /// A value did not match its attribute's static type; the payload is the
    /// attribute's name symbol and the owning type's name symbol.
    AttrTypeMismatch(u32, u32),
    /// An attribute's target slot was out of range of the instance's value
    /// array; the payload is the attribute's name symbol.
    AttrSlotOutOfRange(u32),
    /// An object had attributes defined but no stored values, or the reverse;
    /// the payload is the type's name symbol.
    ObjectShapeMismatch(u32),
    /// A native type has no registered loader; the payload is the type's name
    /// symbol.
    UnsupportedNative(u32),
    /// The function-pointer tag is reserved and not supported.
    UnsupportedFn,
    /// String bytes on the wire were not valid UTF-8.
    InvalidUtf8,
    /// A length or element count does not fit the wire's 32-bit framing.
    OversizeLength,
    /// Value nesting exceeded the decoder's recursion budget.
    NestingTooDeep,
    /// The ABI block breaks one of the documented ABI invariants.
    MalformedAbi,
    /// A payload's protocol number differs from the loaded ABI's; the payload
    /// holds the received and the expected number.
    ProtocolMismatch(u16, u16),
}

impl Error {
    /// A short, fixed description of the error kind.
    pub fn message(&self) -> (r: &'static str)
        ensures
            r@ == self.spec_message(),
    {
        match self {
            Error::Truncated => "unexpected end of input",
            Error::InvalidChar(_) => "invalid value for a char",
            Error::UnknownTag(_) => "unknown primitive type",
            Error::UnknownSymbol(_) => "unknown symbol",
            Error::UnknownTypeId(_) => "unknown type id",
            Error::EnumOffsetOutOfRange(_) => "enum variant offset out of range",
            Error::EnumWithoutAttrs(_) => "enum type has no attributes",
            Error::NotAscii(_) => "not an ASCII char",
            Error::AttrTypeMismatch(_, _) => "attribute value does not match its static type",
            Error::AttrSlotOutOfRange(_) => "attribute slot out of range",
            Error::ObjectShapeMismatch(_) => "attribute and value counts disagree",
            Error::UnsupportedNative(_) => "native type has no registered loader",
            Error::UnsupportedFn => "fn values are not supported",
            Error::InvalidUtf8 => "string bytes are not valid UTF-8",
            Error::OversizeLength => "length does not fit the 32-bit wire framing",
            Error::NestingTooDeep => "value nesting exceeds the recursion budget",
            Error::MalformedAbi => "ABI breaks a documented invariant",
            Error::ProtocolMismatch(_, _) => "mismatched ABI protocol",
        }
    }

    /// What [`Error::message`] returns, by kind.
    pub open spec fn spec_message(&self) -> Seq<char> {
        match self {
            Error::Truncated => "unexpected end of input"@,
            Error::InvalidChar(_) => "invalid value for a char"@,
            Error::UnknownTag(_) => "unknown primitive type"@,
            Error::UnknownSymbol(_) => "unknown symbol"@,
            Error::UnknownTypeId(_) => "unknown type id"@,
            Error::EnumOffsetOutOfRange(_) => "enum variant offset out of range"@,
            Error::EnumWithoutAttrs(_) => "enum type has no attributes"@,
            Error::NotAscii(_) => "not an ASCII char"@,
            Error::AttrTypeMismatch(_, _) => "attribute value does not match its static type"@,
            Error::AttrSlotOutOfRange(_) => "attribute slot out of range"@,
            Error::ObjectShapeMismatch(_) => "attribute and value counts disagree"@,
            Error::UnsupportedNative(_) => "native type has no registered loader"@,
            Error::UnsupportedFn => "fn values are not supported"@,
            Error::InvalidUtf8 => "string bytes are not valid UTF-8"@,
            Error::OversizeLength => "length does not fit the 32-bit wire framing"@,
            Error::NestingTooDeep => "value nesting exceeds the recursion budget"@,
            Error::MalformedAbi => "ABI breaks a documented invariant"@,
            Error::ProtocolMismatch(_, _) => "mismatched ABI protocol"@,
        }
    }
}

} // verus!
