//! Error kinds for decoding, compositing and text layout.

use vstd::prelude::*;

verus! {

/// Every failure the rendering core can report.
///
/// Decode and compose errors are fatal to the render request that raised
/// them; none is silently downgraded to a default value.
#[derive(Clone, Copy, Debug, PartialEq, Eq, Structural)]
pub enum RenderError {
    /// The hex payload of an icon string has odd length or a non-hex digit.
    MalformedHex,
    /// An icon byte stream holds fewer than the five header bytes.
    TooShort,
    /// The run bytes after the header do not pair up evenly.
    OddTrailingBytes,
    /// A decoded bounding rectangle has `right < left` or `bottom < top`,
    /// which would otherwise underflow when the width or height is taken.
    BoundsOutOfOrder,
    /// A run names a palette entry past the end of the palette.
    PaletteIndexOutOfBounds,
    /// A seed field names a catalog entry past the end of its category.
    SeedIndexOutOfBounds,
    /// A font description is unusable, such as a zero `units_per_em`.
    FontLoadFailure,
    /// A catalog field could not be read, such as a color string that is
    /// neither empty nor six hex digits.
    CatalogDeserializationFailure,
}

} // verus!
