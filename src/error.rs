//! Errors of a load.

use vstd::prelude::*;

verus! {

/// Why a geometry or material text was rejected.
#[derive(Clone, Copy, Debug, PartialEq, Eq, Structural)]
pub enum ParseError {
    /// A directive lacks one of its operands.
    MissingOperand,
    /// A token that should be a number is not one.
    MalformedNumber,
    /// A face refers to an attribute that the table does not hold.
    IndexOutOfRange,
    /// A face has fewer than three corners.
    TooFewCorners,
    /// More expanded vertices than a 32-bit index can address.
    TooManyVertices,
    /// A face comes before the first material selection, or no material is
    /// ever selected.
    NoMaterial,
    /// No position was read.
    NoPositions,
    /// A material block lacks its specular exponent, ambient or specular color.
    MissingField,
    /// A selected material is defined in no loaded library.
    UndefinedMaterial,
    /// Normalization was asked for and the largest coordinate of the upper
    /// corner of the bounding box is zero.
    DegenerateBox,
}

/// Why a load failed.
#[derive(Clone, Copy, Debug, PartialEq, Eq, Structural)]
pub enum LoadError {
    /// A file could not be read, or an image could not be decoded.
    File,
    /// A text was malformed.
    Parse(ParseError),
}

} // verus!
