//! Error taxonomy: parse errors are fatal to a load, validation findings are
//! collected, conversion errors are transactional (the source model is left
//! untouched).

use vstd::prelude::*;

verus! {

/// A structural defect in a byte buffer; fatal to the load that found it.
#[derive(Clone, Copy, Debug, PartialEq, Eq, Structural)]
pub enum ParseError {
    /// Fewer bytes remain than a header or a declared size requires.
    Truncated,
    /// The leading magic bytes are not those of the format.
    InvalidMagic,
    /// A chunk tag occurs that the declared version forbids.
    IllegalChunkForVersion,
    /// A known chunk tag occurs twice.
    DuplicateChunk,
    /// The header's version ordinal, or an expansion name, is not known.
    UnknownVersion,
}

/// A referential-integrity or count-consistency finding; collected, never
/// fail-fast. A model with findings still exists and can be inspected.
#[derive(Clone, Copy, Debug, PartialEq, Eq, Structural)]
pub enum ValidationError {
    /// An attachment names a bone index outside the bone list.
    DanglingReference,
    /// A per-bone table's length differs from the bone list's length.
    CountMismatch,
    /// A material names a texture index outside the texture list.
    OutOfBoundsIndex,
}

/// A reason a cross-version conversion was refused. Conversion is
/// all-or-nothing: any of these leaves the source model unchanged.
#[derive(Clone, Copy, Debug, PartialEq, Eq, Structural)]
pub enum ConversionError {
    /// The target version forbids a chunk that is flagged as required for
    /// model integrity, so it cannot be dropped.
    CannotDropRequiredChunk,
    /// The target version requires a chunk that is absent and has no
    /// documented zero-cost default.
    MissingRequiredChunk,
    /// A field's value does not fit the narrower encoding of the target
    /// version.
    FieldOverflow,
    /// The converted model failed whole-model validation.
    PostConversionValidationFailed,
}

} // verus!
