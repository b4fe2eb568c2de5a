//! Error values for the schematic codec. Every failure is reported as a
//! value; no operation in this crate panics.

use vstd::prelude::*;

verus! {

/// Hard failures of the schematic codec. Soft degradations (an unresolvable
/// palette entry, an out-of-range palette index) are not errors: the affected
/// position falls back to air and the decode continues.
#[derive(Clone, Copy, Debug, PartialEq, Eq, Structural)]
pub enum SchemError {
    /// A varint byte stream ended in the middle of a value.
    TruncatedVarint,
    /// A single varint consumed more than 35 accumulated bits.
    OversizedVarint,
    /// A packed array was asked to use 0 or more than 64 bits per entry.
    InvalidBitsPerEntry,
    /// The packed word array is shorter than the declared entry count needs.
    PackedArrayTooShort,
    /// A required `Width` tag is absent or has the wrong type.
    MissingWidth,
    /// A required `Height` tag is absent or has the wrong type.
    MissingHeight,
    /// A required `Length` tag is absent or has the wrong type.
    MissingLength,
    /// The nested `Blocks` compound is absent from a version-3 file.
    MissingBlocks,
    /// The `Palette` compound is absent.
    MissingPalette,
    /// The `Data` / `BlockData` byte array is absent.
    MissingData,
    /// The `Regions` compound is absent from a multi-region file.
    MissingRegions,
    /// A region carries no size and the file metadata has no fallback.
    MissingRegionSize,
    /// A region has no `BlockStatePalette` compound.
    MissingBlockStatePalette,
    /// A region has no `BlockStates` word array.
    MissingBlockStates,
    /// The varint-decoded index count differs from `Width*Height*Length`.
    CountMismatch,
    /// An empty block list cannot be encoded.
    EmptyClipboard,
    /// A multi-region file yielded no non-air block at all.
    NoBlocksInRegions,
    /// A state id to encode has no entry in the block registry.
    UnknownStateId,
    /// A bounding box does not fit the 16-bit dimension fields.
    BoundsTooLarge,
    /// A region position plus a local coordinate leaves the 32-bit range.
    CoordinateOverflow,
}

impl SchemError {
    /// A human-readable description of the failure.
    pub fn message(&self) -> &'static str {
        match self {
            SchemError::TruncatedVarint => "Unexpected end of varint data",
            SchemError::OversizedVarint => "Varint too large",
            SchemError::InvalidBitsPerEntry => "Invalid bits_per_entry",
            SchemError::PackedArrayTooShort => "BlockStates array too short",
            SchemError::MissingWidth => "Missing Width tag",
            SchemError::MissingHeight => "Missing Height tag",
            SchemError::MissingLength => "Missing Length tag",
            SchemError::MissingBlocks => "Missing Blocks compound",
            SchemError::MissingPalette => "Missing Palette compound",
            SchemError::MissingData => "Missing block data byte array",
            SchemError::MissingRegions => "Missing Regions compound",
            SchemError::MissingRegionSize => "Region missing Size/Dimensions and no Metadata fallback",
            SchemError::MissingBlockStatePalette => "Region missing BlockStatePalette",
            SchemError::MissingBlockStates => "Region missing BlockStates long array",
            SchemError::CountMismatch => "Block data count mismatch",
            SchemError::EmptyClipboard => "Clipboard is empty",
            SchemError::NoBlocksInRegions => "No blocks in regions",
            SchemError::UnknownStateId => "Unknown block state id",
            SchemError::BoundsTooLarge => "Bounding box exceeds 16-bit dimensions",
            SchemError::CoordinateOverflow => "Block coordinate overflows 32-bit range",
        }
    }
}

} // verus!
