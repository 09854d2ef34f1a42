//! Decode-time failures.
//!
//! Every malformed or out-of-range trace payload is fatal at decode time;
//! the error names the field and the offending value, per the engine's
//! no-partial-result policy.

use vstd::prelude::*;

verus! {

/// The step-object field a decode error is about.
#[derive(Clone, Copy, Debug, PartialEq, Eq, Structural)]
pub enum FieldName {
    /// The step's `name` field.
    Name,
    /// The step's `args` byte array.
    Args,
    /// The step's `outs` byte array.
    Outs,
    /// The step's `startInk` counter.
    StartInk,
    /// The step's `endInk` counter.
    EndInk,
    /// The nested-call `info` object.
    Info,
    /// The nested-call callee address mapping.
    Address,
    /// The nested-call `steps` array.
    Steps,
}

/// Why a trace payload failed to decode.
#[derive(Debug, PartialEq)]
pub enum DecodeError {
    /// The value handed to the frame decoder is not an array.
    NotAnArray,
    /// A step record is not an object.
    NotAStep,
    /// A step object lacks a required field.
    MissingField { field: FieldName },
    /// A required field holds a value of the wrong shape.
    WrongFieldType { field: FieldName },
    /// An element of a byte array is not a value in `0..=255`.
    ///
    /// `value` carries the offending number when there was one; a value of
    /// a non-numeric shape is reported by position alone.
    NotAByte { field: FieldName, index: usize, value: Option<u64> },
    /// A fixed-width field's byte run has the wrong length.
    ///
    /// For `args` of an outgoing call, `expected` is the least length the
    /// fixed-offset layout needs.
    WrongLength { field: FieldName, expected: usize, actual: usize },
    /// The callee address mapping is not the decimal indices `0..n`, each
    /// exactly once: `index` is the position of the offending pair, or the
    /// address byte index that no pair supplies.
    BadAddressKey { index: usize },
    /// A step names a host operation this engine does not know.
    UnsupportedHostio { name: String },
}

/// Mathematical image of a [`DecodeError`].
pub enum DecodeErrorModel {
    NotAnArray,
    NotAStep,
    MissingField { field: FieldName },
    WrongFieldType { field: FieldName },
    NotAByte { field: FieldName, index: int, value: Option<u64> },
    WrongLength { field: FieldName, expected: int, actual: int },
    BadAddressKey { index: int },
    UnsupportedHostio { name: Seq<char> },
}

impl View for DecodeError {
    type V = DecodeErrorModel;

    open spec fn view(&self) -> DecodeErrorModel {
        match self {
            DecodeError::NotAnArray => DecodeErrorModel::NotAnArray,
            DecodeError::NotAStep => DecodeErrorModel::NotAStep,
            DecodeError::MissingField { field } => DecodeErrorModel::MissingField {
                field: *field,
            },
            DecodeError::WrongFieldType { field } => DecodeErrorModel::WrongFieldType {
                field: *field,
            },
            DecodeError::NotAByte { field, index, value } => DecodeErrorModel::NotAByte {
                field: *field,
                index: *index as int,
                value: *value,
            },
            DecodeError::WrongLength { field, expected, actual } => DecodeErrorModel::WrongLength {
                field: *field,
                expected: *expected as int,
                actual: *actual as int,
            },
            DecodeError::BadAddressKey { index } => DecodeErrorModel::BadAddressKey {
                index: *index as int,
            },
            DecodeError::UnsupportedHostio { name } => DecodeErrorModel::UnsupportedHostio {
                name: name@,
            },
        }
    }
}

} // verus!
