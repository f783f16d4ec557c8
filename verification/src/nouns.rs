//! The icon catalog data model and the decoder for hex-encoded,
//! run-length-encoded icon descriptions.

use vstd::prelude::*;

verus! {

use crate::canvas::Rgb;
use crate::error::RenderError;
use crate::hexstr::{hex_bytes, hex_decode, hex_ok};
use vstd::string::StrSliceExecFns;

/// A palette or background entry: an opaque color, or transparent.
/// A transparent entry means "skip the draw and let what is below show".
#[derive(Clone, Copy, Debug)]
pub struct Color(pub Option<Rgb>);

impl Color {
    /// Parse a catalog color string: the empty string is transparent, and
    /// six hex digits give the red, green and blue channels in that order.
    /// Anything else is a catalog error.
    pub fn parse(s: &str) -> (r: Result<Color, RenderError>)
        ensures
            s@.len() == 0 ==> r == Ok::<Color, RenderError>(Color(None)),
            s@.len() > 0 ==> ((r is Ok) <==> (hex_ok(s@) && hex_bytes(s@).len() == 3)),
            s@.len() > 0 && hex_ok(s@) && hex_bytes(s@).len() == 3 ==> r == Ok::<
                Color,
                RenderError,
            >(
                Color(
                    Some(
                        Rgb {
                            r: hex_bytes(s@)[0],
                            g: hex_bytes(s@)[1],
                            b: hex_bytes(s@)[2],
                        },
                    ),
                ),
            ),
            r is Err ==> r == Err::<Color, RenderError>(RenderError::CatalogDeserializationFailure),
    {
        if s.is_empty() {
            return Ok(Color(None));
        }
        match hex_decode(s) {
            Ok(bytes) => {
                if bytes.len() == 3 {
                    Ok(Color(Some(Rgb { r: bytes[0], g: bytes[1], b: bytes[2] })))
                } else {
                    Err(RenderError::CatalogDeserializationFailure)
                }
            },
            Err(_) => Err(RenderError::CatalogDeserializationFailure),
        }
    }
}

/// An icon's bounding rectangle within its square; all edges are byte
/// coordinates, and a well-formed rectangle has ordered edges.
#[derive(Clone, Copy, Debug, PartialEq, Eq, Structural)]
pub struct Bounds {
    pub top: u8,
    pub left: u8,
    pub bottom: u8,
    pub right: u8,
}

impl Bounds {
    /// The edges are ordered, so width and height never underflow.
    pub open spec fn wf(self) -> bool {
        self.left <= self.right && self.top <= self.bottom
    }

    /// The rectangle's width in pixels.
    pub open spec fn spec_width(self) -> int {
        self.right - self.left
    }

    /// The rectangle's height in pixels.
    pub open spec fn spec_height(self) -> int {
        self.bottom - self.top
    }

    /// The rectangle's width in pixels.
    pub fn width(&self) -> (w: u8)
        requires
            self.left <= self.right,
        ensures
            w == self.spec_width(),
    {
        self.right - self.left
    }

    /// The rectangle's height in pixels.
    pub fn height(&self) -> (h: u8)
        requires
            self.top <= self.bottom,
        ensures
            h == self.spec_height(),
    {
        self.bottom - self.top
    }
}

/// One run of the run-length encoding: paint `length` pixels with the
/// palette entry at `color_index`, wrapping row by row.
#[derive(Clone, Copy, Debug, PartialEq, Eq, Structural)]
pub struct Rect {
    pub length: u8,
    pub color_index: u8,
}

/// A decoded icon: a palette hint, a bounding rectangle, and the ordered
/// run list that tiles the rectangle row-major.
#[derive(Clone, Debug)]
pub struct DecodedImage {
    pub palette_index: u8,
    pub bounds: Bounds,
    pub rects: Vec<Rect>,
}

/// The byte stream an icon string denotes once its two-character format
/// prefix is stripped and the rest is hex-decoded.
pub open spec fn icon_bytes(s: Seq<char>) -> Seq<u8> {
    hex_bytes(s.skip(2))
}

/// The bounding rectangle held in an icon header; the byte order is
/// top, right, bottom, left — a quirk of the format, kept exactly.
pub open spec fn icon_bounds(b: Seq<u8>) -> Bounds {
    Bounds { top: b[1], left: b[4], bottom: b[3], right: b[2] }
}

/// The run list held after an icon header: byte pairs of length and
/// palette index.
pub open spec fn icon_runs(b: Seq<u8>) -> Seq<Rect> {
    Seq::new(
        (((b.len() - 5) / 2) as nat),
        |i: int| Rect { length: b[5 + 2 * i], color_index: b[6 + 2 * i] },
    )
}

/// Whether an icon string decodes: hex payload, at least the five header
/// bytes, evenly paired run bytes, and ordered bounding edges.
pub open spec fn icon_decode_ok(s: Seq<char>) -> bool {
    &&& hex_ok(s.skip(2))
    &&& icon_bytes(s).len() >= 5
    &&& (icon_bytes(s).len() - 5) % 2 == 0
    &&& icon_bytes(s)[4] <= icon_bytes(s)[2]
    &&& icon_bytes(s)[1] <= icon_bytes(s)[3]
}

impl DecodedImage {
    /// The bounding rectangle is well formed.
    pub open spec fn wf(self) -> bool {
        self.bounds.wf()
    }

    /// Decode an icon string: strip the two-character format prefix,
    /// hex-decode the rest, read the header `palette_index, top, right,
    /// bottom, left`, and pair the remaining bytes into runs.
    ///
    /// The run lengths are deliberately not checked against the rectangle's
    /// area: a short run list leaves trailing pixels undrawn and a long one
    /// is ignored past the area when painting, preserving lenient catalogs.
    pub fn decode(s: &str) -> (r: Result<DecodedImage, RenderError>)
        requires
            s@.len() >= 2,
        ensures
            (r == Err::<DecodedImage, RenderError>(RenderError::MalformedHex)) <==> !hex_ok(
                s@.skip(2),
            ),
            hex_ok(s@.skip(2)) ==> ((r == Err::<DecodedImage, RenderError>(RenderError::TooShort))
                <==> icon_bytes(s@).len() < 5),
            hex_ok(s@.skip(2)) && icon_bytes(s@).len() >= 5 ==> ((r == Err::<
                DecodedImage,
                RenderError,
            >(RenderError::OddTrailingBytes)) <==> (icon_bytes(s@).len() - 5) % 2 != 0),
            hex_ok(s@.skip(2)) && icon_bytes(s@).len() >= 5 && (icon_bytes(s@).len() - 5) % 2 == 0
                ==> ((r == Err::<DecodedImage, RenderError>(RenderError::BoundsOutOfOrder)) <==> (
            icon_bytes(s@)[2] < icon_bytes(s@)[4] || icon_bytes(s@)[3] < icon_bytes(s@)[1])),
            (r is Ok) <==> icon_decode_ok(s@),
            r is Ok ==> r->Ok_0.palette_index == icon_bytes(s@)[0] && r->Ok_0.bounds == icon_bounds(
                icon_bytes(s@),
            ) && r->Ok_0.rects@ == icon_runs(icon_bytes(s@)) && r->Ok_0.wf(),
    {
        let n = s.unicode_len();
        let payload = s.substring_char(2, n);
        proof {
            assert(payload@ =~= s@.skip(2));
        }
        let bytes = match hex_decode(payload) {
            Ok(v) => v,
            Err(_) => {
                return Err(RenderError::MalformedHex);
            },
        };
        if bytes.len() < 5 {
            return Err(RenderError::TooShort);
        }
        let trailing = bytes.len() - 5;
        if trailing % 2 != 0 {
            return Err(RenderError::OddTrailingBytes);
        }
        let top = bytes[1];
        let right = bytes[2];
        let bottom = bytes[3];
        let left = bytes[4];
        if right < left || bottom < top {
            return Err(RenderError::BoundsOutOfOrder);
        }
        let pairs = trailing / 2;
        let blen: usize = bytes.len();
        let mut rects: Vec<Rect> = Vec::new();
        let mut i: usize = 0;
        while i < pairs
            invariant
                blen == bytes@.len(),
                bytes@.len() >= 5,
                pairs == (bytes@.len() - 5) / 2,
                2 * pairs == bytes@.len() - 5,
                i <= pairs,
                rects@.len() == i,
                forall|t: int|
                    0 <= t < i ==> rects@[t] == (Rect {
                        length: bytes@[5 + 2 * t],
                        color_index: bytes@[6 + 2 * t],
                    }),
            decreases pairs - i,
        {
            rects.push(Rect { length: bytes[5 + 2 * i], color_index: bytes[6 + 2 * i] });
            i = i + 1;
        }
        proof {
            assert(rects@ =~= icon_runs(bytes@));
        }
        Ok(
            DecodedImage {
                palette_index: bytes[0],
                bounds: Bounds { top, left, bottom, right },
                rects,
            },
        )
    }
}

/// One catalog entry: the source file name and its decoded icon.
#[derive(Clone, Debug)]
pub struct ImageData {
    pub filename: String,
    pub data: DecodedImage,
}

/// The four icon categories of a catalog, in their layering roles.
#[derive(Clone, Debug)]
pub struct Images {
    pub bodies: Vec<ImageData>,
    pub accessories: Vec<ImageData>,
    pub heads: Vec<ImageData>,
    pub glasses: Vec<ImageData>,
}

/// The five category selectors of one icon: an index per category, each
/// validated against its array before use.
#[derive(Clone, Copy, Debug, PartialEq, Eq, Structural)]
pub struct NounSeed {
    pub background: u8,
    pub body: u8,
    pub head: u8,
    pub accessory: u8,
    pub glasses: u8,
}

/// A full icon catalog: background colors, the shared palette, and the
/// category arrays. Built once, then only read.
#[derive(Clone, Debug)]
pub struct ImageDataContainer {
    pub bgcolors: Vec<Color>,
    pub palette: Vec<Color>,
    pub images: Images,
}

} // verus!
