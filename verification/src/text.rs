//! Autofit text layout: pick the largest integer font size at which a
//! string lays out on a single line within a pixel width budget, with a
//! caller-ordered fallback chain of fonts supplying the glyphs.

use vstd::prelude::*;

verus! {

use crate::error::RenderError;
use vstd::arithmetic::div_mod::{
    lemma_div_is_ordered,
    lemma_div_nonincreasing,
    lemma_div_pos_is_pos,
};
use vstd::string::StrSliceExecFns;

/// One glyph a font offers: a character and its horizontal advance in font
/// units; advances scale linearly with the font size.
#[derive(Clone, Copy, Debug, PartialEq, Eq, Structural)]
pub struct GlyphMetric {
    pub ch: char,
    pub advance: u32,
}

/// What the layout needs of a font: its unit scale, its line height in
/// font units, and the glyph table. The advance of a glyph at pixel size
/// `s` is `advance * s / units_per_em`, rounded down.
#[derive(Clone, Debug)]
pub struct FontMetrics {
    pub units_per_em: u32,
    pub line_height: u32,
    pub glyphs: Vec<GlyphMetric>,
}

/// One positioned glyph of a finished layout: which font of the chain
/// renders it, the character, its left edge, and the chosen pixel size.
#[derive(Clone, Copy, Debug, PartialEq, Eq, Structural)]
pub struct GlyphPlacement {
    pub font_index: usize,
    pub ch: char,
    pub x: u64,
    pub size: u32,
}

/// A single-line layout: the placed glyphs in text order, the size they
/// were placed at, the total advance width, and the derived line height.
#[derive(Clone, Debug)]
pub struct TextLayout {
    pub glyphs: Vec<GlyphPlacement>,
    pub size: u32,
    pub width: u64,
    pub height: u64,
}

impl FontMetrics {
    /// Usable for layout: a nonzero unit scale, and glyph advances within
    /// the range font formats store them in.
    pub open spec fn wf(self) -> bool {
        &&& self.units_per_em >= 1
        &&& forall|i: int|
            0 <= i < self.glyphs@.len() ==> (#[trigger] self.glyphs@[i]).advance <= 0xFFFF
    }

    /// Build a font description, rejecting one no layout could use.
    pub fn new(units_per_em: u32, line_height: u32, glyphs: Vec<GlyphMetric>) -> (r: Result<
        FontMetrics,
        RenderError,
    >)
        ensures
            (r is Ok) <==> (units_per_em >= 1 && forall|i: int|
                0 <= i < glyphs@.len() ==> (#[trigger] glyphs@[i]).advance <= 0xFFFF),
            r is Ok ==> r->Ok_0 == (FontMetrics { units_per_em, line_height, glyphs }),
            r is Err ==> r == Err::<FontMetrics, RenderError>(RenderError::FontLoadFailure),
    {
        if units_per_em == 0 {
            return Err(RenderError::FontLoadFailure);
        }
        let n = glyphs.len();
        let mut i: usize = 0;
        while i < n
            invariant
                n == glyphs@.len(),
                i <= n,
                forall|t: int| 0 <= t < i ==> (#[trigger] glyphs@[t]).advance <= 0xFFFF,
            decreases n - i,
        {
            if glyphs[i].advance > 0xFFFF {
                return Err(RenderError::FontLoadFailure);
            }
            i = i + 1;
        }
        Ok(FontMetrics { units_per_em, line_height, glyphs })
    }
}

/// Every font of a chain is usable.
pub open spec fn fonts_wf(fonts: Seq<FontMetrics>) -> bool {
    forall|i: int| 0 <= i < fonts.len() ==> (#[trigger] fonts[i]).wf()
}

/// The advance of the first glyph table entry for `c`, if the font has
/// one: first match wins, as in a glyph table scan.
pub open spec fn first_glyph_advance(glyphs: Seq<GlyphMetric>, c: char) -> Option<u32>
    decreases glyphs.len(),
{
    if glyphs.len() == 0 {
        None
    } else if glyphs[0].ch == c {
        Some(glyphs[0].advance)
    } else {
        first_glyph_advance(glyphs.drop_first(), c)
    }
}

/// The first font of the chain that has a glyph for `c`, together with
/// that glyph's advance in font units; the chain's order is the caller's
/// fallback order and the first match wins.
pub open spec fn chain_lookup(fonts: Seq<FontMetrics>, c: char) -> Option<(int, u32)>
    decreases fonts.len(),
{
    if fonts.len() == 0 {
        None
    } else {
        match first_glyph_advance(fonts[0].glyphs@, c) {
            Some(a) => Some((0int, a)),
            None => match chain_lookup(fonts.drop_first(), c) {
                Some(pair) => Some((pair.0 + 1, pair.1)),
                None => None,
            },
        }
    }
}

/// A successful chain lookup names a font of the chain.
pub proof fn lemma_chain_lookup_in_range(fonts: Seq<FontMetrics>, c: char)
    requires
        chain_lookup(fonts, c) is Some,
    ensures
        0 <= chain_lookup(fonts, c)->Some_0.0 < fonts.len(),
        first_glyph_advance(fonts[chain_lookup(fonts, c)->Some_0.0].glyphs@, c) == Some(
            chain_lookup(fonts, c)->Some_0.1,
        ),
    decreases fonts.len(),
{
    if fonts.len() > 0 {
        if first_glyph_advance(fonts[0].glyphs@, c) is Some {
        } else {
            lemma_chain_lookup_in_range(fonts.drop_first(), c);
            let pair = chain_lookup(fonts.drop_first(), c)->Some_0;
            assert(fonts.drop_first()[pair.0] == fonts[pair.0 + 1]);
        }
    }
}

/// A glyph found in a table whose advances are bounded is itself bounded.
proof fn lemma_first_glyph_advance_bounded(glyphs: Seq<GlyphMetric>, c: char)
    requires
        forall|i: int| 0 <= i < glyphs.len() ==> (#[trigger] glyphs[i]).advance <= 0xFFFF,
        first_glyph_advance(glyphs, c) is Some,
    ensures
        first_glyph_advance(glyphs, c)->Some_0 <= 0xFFFF,
    decreases glyphs.len(),
{
    if glyphs.len() > 0 && glyphs[0].ch != c {
        assert(forall|i: int|
            0 <= i < glyphs.drop_first().len() ==> (#[trigger] glyphs.drop_first()[i]).advance
                <= 0xFFFF) by {
            assert(forall|i: int|
                0 <= i < glyphs.drop_first().len() ==> glyphs.drop_first()[i] == glyphs[i + 1]);
        }
        lemma_first_glyph_advance_bounded(glyphs.drop_first(), c);
    }
}

/// The horizontal advance `c` contributes at pixel size `size`: the first
/// chain font's glyph scaled by the size, or nothing when no font has the
/// glyph — such a character is skipped, not an error.
pub open spec fn char_advance(fonts: Seq<FontMetrics>, c: char, size: int) -> int {
    match chain_lookup(fonts, c) {
        Some(pair) => (pair.1 * size) / (fonts[pair.0].units_per_em as int),
        None => 0,
    }
}

/// The advance width of the first `i` characters at pixel size `size`.
pub open spec fn width_prefix(fonts: Seq<FontMetrics>, text: Seq<char>, size: int, i: int) -> int
    decreases i,
{
    if i <= 0 {
        0
    } else {
        width_prefix(fonts, text, size, i - 1) + char_advance(fonts, text[i - 1], size)
    }
}

/// The advance width of the whole text at pixel size `size`.
pub open spec fn text_width(fonts: Seq<FontMetrics>, text: Seq<char>, size: int) -> int {
    width_prefix(fonts, text, size, text.len() as int)
}

/// Whether the text lays out as a single line within `budget` at `size`.
pub open spec fn fits(fonts: Seq<FontMetrics>, text: Seq<char>, size: int, budget: int) -> bool {
    text_width(fonts, text, size) <= budget
}

/// The glyph placements of the first `i` characters: each character the
/// chain can render is placed at the running advance, the rest are
/// silently skipped.
pub open spec fn layout_prefix(
    fonts: Seq<FontMetrics>,
    text: Seq<char>,
    size: int,
    i: int,
) -> Seq<GlyphPlacement>
    decreases i,
{
    if i <= 0 {
        Seq::empty()
    } else {
        let placed = layout_prefix(fonts, text, size, i - 1);
        match chain_lookup(fonts, text[i - 1]) {
            Some(pair) => placed.push(
                GlyphPlacement {
                    font_index: pair.0 as usize,
                    ch: text[i - 1],
                    x: width_prefix(fonts, text, size, i - 1) as u64,
                    size: size as u32,
                },
            ),
            None => placed,
        }
    }
}

/// The line height of the first `i` characters: the largest scaled line
/// height among the fonts that render one of them.
pub open spec fn height_prefix(fonts: Seq<FontMetrics>, text: Seq<char>, size: int, i: int) -> int
    decreases i,
{
    if i <= 0 {
        0
    } else {
        let prev = height_prefix(fonts, text, size, i - 1);
        match chain_lookup(fonts, text[i - 1]) {
            Some(pair) => {
                let lh = (fonts[pair.0].line_height * size) / (fonts[pair.0].units_per_em as int);
                if lh > prev {
                    lh
                } else {
                    prev
                }
            },
            None => prev,
        }
    }
}

/// The derived line height of the whole text at `size`.
pub open spec fn layout_height(fonts: Seq<FontMetrics>, text: Seq<char>, size: int) -> int {
    height_prefix(fonts, text, size, text.len() as int)
}

/// A character's advance is nonnegative and below `2^32` whenever the
/// chain is usable and the size stays within the font-size range.
proof fn lemma_char_advance_bounds(fonts: Seq<FontMetrics>, c: char, size: int)
    requires
        fonts_wf(fonts),
        0 <= size <= 0xFFFF,
    ensures
        0 <= char_advance(fonts, c, size) < 0x1_0000_0000,
{
    match chain_lookup(fonts, c) {
        Some(pair) => {
            lemma_chain_lookup_in_range(fonts, c);
            lemma_first_glyph_advance_bounded(fonts[pair.0].glyphs@, c);
            let upm = fonts[pair.0].units_per_em as int;
            lemma_div_pos_is_pos(pair.1 * size, upm);
            lemma_div_nonincreasing(pair.1 * size, upm);
            assert(pair.1 * size <= 0xFFFF * 0xFFFF) by (nonlinear_arith)
                requires
                    0 <= pair.1 <= 0xFFFF,
                    0 <= size <= 0xFFFF,
            ;
        },
        None => {},
    }
}

/// The prefix widths are nonnegative and grow by less than `2^32` per
/// character.
proof fn lemma_width_prefix_bounds(fonts: Seq<FontMetrics>, text: Seq<char>, size: int, i: int)
    requires
        fonts_wf(fonts),
        0 <= size <= 0xFFFF,
        0 <= i <= text.len(),
    ensures
        0 <= width_prefix(fonts, text, size, i) <= i * 0x1_0000_0000,
    decreases i,
{
    if i > 0 {
        lemma_width_prefix_bounds(fonts, text, size, i - 1);
        lemma_char_advance_bounds(fonts, text[i - 1], size);
    }
}

/// Smaller sizes never widen a character: the scaled advance is monotone
/// in the size.
proof fn lemma_char_advance_monotone(fonts: Seq<FontMetrics>, c: char, s1: int, s2: int)
    requires
        fonts_wf(fonts),
        0 <= s1 <= s2,
    ensures
        char_advance(fonts, c, s1) <= char_advance(fonts, c, s2),
{
    match chain_lookup(fonts, c) {
        Some(pair) => {
            lemma_chain_lookup_in_range(fonts, c);
            let upm = fonts[pair.0].units_per_em as int;
            assert(pair.1 * s1 <= pair.1 * s2) by (nonlinear_arith)
                requires
                    0 <= s1 <= s2,
                    pair.1 >= 0,
            ;
            lemma_div_is_ordered(pair.1 * s1, pair.1 * s2, upm);
        },
        None => {},
    }
}

/// Smaller sizes never widen a prefix.
proof fn lemma_width_prefix_monotone(
    fonts: Seq<FontMetrics>,
    text: Seq<char>,
    s1: int,
    s2: int,
    i: int,
)
    requires
        fonts_wf(fonts),
        0 <= s1 <= s2,
    ensures
        width_prefix(fonts, text, s1, i) <= width_prefix(fonts, text, s2, i),
    decreases i,
{
    if i > 0 {
        lemma_width_prefix_monotone(fonts, text, s1, s2, i - 1);
        lemma_char_advance_monotone(fonts, text[i - 1], s1, s2);
    }
}

/// The autofit monotonicity law: for a fixed text and width budget, if a
/// size fits on one line, every smaller size fits too.
pub proof fn lemma_autofit_monotone(
    fonts: Seq<FontMetrics>,
    text: Seq<char>,
    budget: int,
    s1: int,
    s2: int,
)
    requires
        fonts_wf(fonts),
        0 <= s1 <= s2,
        fits(fonts, text, s2, budget),
    ensures
        fits(fonts, text, s1, budget),
{
    lemma_width_prefix_monotone(fonts, text, s1, s2, text.len() as int);
}

/// Scan one font's glyph table for `c`; the first entry wins.
fn font_lookup(font: &FontMetrics, c: char) -> (r: Option<u32>)
    ensures
        r == first_glyph_advance(font.glyphs@, c),
{
    let n = font.glyphs.len();
    let mut i: usize = 0;
    proof {
        assert(font.glyphs@.skip(0) =~= font.glyphs@);
    }
    while i < n
        invariant
            n == font.glyphs@.len(),
            i <= n,
            first_glyph_advance(font.glyphs@, c) == first_glyph_advance(
                font.glyphs@.skip(i as int),
                c,
            ),
        decreases n - i,
    {
        let g = font.glyphs[i];
        proof {
            assert(font.glyphs@.skip(i as int)[0] == font.glyphs@[i as int]);
            assert(font.glyphs@.skip(i as int).drop_first() =~= font.glyphs@.skip(i as int + 1));
        }
        if g.ch == c {
            return Some(g.advance);
        }
        i = i + 1;
    }
    proof {
        assert(font.glyphs@.skip(n as int).len() == 0);
    }
    None
}

/// Skipping fonts that lack the glyph shifts the chain lookup's index.
proof fn lemma_chain_lookup_skip(fonts: Seq<FontMetrics>, c: char, i: int)
    requires
        0 <= i <= fonts.len(),
        forall|t: int|
            0 <= t < i ==> first_glyph_advance((#[trigger] fonts[t]).glyphs@, c) is None,
    ensures
        chain_lookup(fonts, c) == match chain_lookup(fonts.skip(i), c) {
            Some(pair) => Some((pair.0 + i, pair.1)),
            None => None::<(int, u32)>,
        },
    decreases i,
{
    if i == 0 {
        assert(fonts.skip(0) =~= fonts);
    } else {
        lemma_chain_lookup_skip(fonts, c, i - 1);
        assert(fonts.skip(i - 1).len() > 0);
        assert(fonts.skip(i - 1)[0] == fonts[i - 1]);
        assert(fonts.skip(i - 1).drop_first() =~= fonts.skip(i));
    }
}

/// Find the first font of the chain that has a glyph for `c`.
fn chain_lookup_exec(fonts: &Vec<FontMetrics>, c: char) -> (r: Option<(usize, u32)>)
    ensures
        (r is None) <==> (chain_lookup(fonts@, c) is None),
        r is Some ==> chain_lookup(fonts@, c) == Some(
            (r->Some_0.0 as int, r->Some_0.1),
        ),
{
    let n = fonts.len();
    let mut i: usize = 0;
    while i < n
        invariant
            n == fonts@.len(),
            i <= n,
            forall|t: int|
                0 <= t < i ==> first_glyph_advance((#[trigger] fonts@[t]).glyphs@, c) is None,
        decreases n - i,
    {
        match font_lookup(&fonts[i], c) {
            Some(a) => {
                proof {
                    lemma_chain_lookup_skip(fonts@, c, i as int);
                    assert(fonts@.skip(i as int)[0] == fonts@[i as int]);
                }
                return Some((i, a));
            },
            None => {},
        }
        i = i + 1;
    }
    proof {
        lemma_chain_lookup_skip(fonts@, c, n as int);
        assert(fonts@.skip(n as int).len() == 0);
    }
    None
}

/// Lay the text out at one size: place every renderable character at the
/// running advance and accumulate the width and line height.
fn measure_layout(fonts: &Vec<FontMetrics>, text: &str, size: u32) -> (r: (
    Vec<GlyphPlacement>,
    u64,
    u64,
))
    requires
        fonts_wf(fonts@),
        size <= 0xFFFF,
        text@.len() <= 0x7fff_ffff,
    ensures
        r.0@ == layout_prefix(fonts@, text@, size as int, text@.len() as int),
        r.1 == text_width(fonts@, text@, size as int),
        r.2 == layout_height(fonts@, text@, size as int),
{
    let n = text.unicode_len();
    let mut glyphs: Vec<GlyphPlacement> = Vec::new();
    let mut width: u64 = 0;
    let mut height: u64 = 0;
    let mut i: usize = 0;
    while i < n
        invariant
            fonts_wf(fonts@),
            size <= 0xFFFF,
            n == text@.len(),
            n <= 0x7fff_ffff,
            i <= n,
            glyphs@ == layout_prefix(fonts@, text@, size as int, i as int),
            width == width_prefix(fonts@, text@, size as int, i as int),
            height == height_prefix(fonts@, text@, size as int, i as int),
            height <= 0x1_0000_0000_0000,
        decreases n - i,
    {
        let c = text.get_char(i);
        proof {
            lemma_width_prefix_bounds(fonts@, text@, size as int, i as int);
            lemma_char_advance_bounds(fonts@, text@[i as int], size as int);
        }
        match chain_lookup_exec(fonts, c) {
            Some((font_index, advance)) => {
                proof {
                    lemma_chain_lookup_in_range(fonts@, c);
                }
                let font = &fonts[font_index];
                proof {
                    assert(fonts@[font_index as int].wf());
                    lemma_first_glyph_advance_bounded(font.glyphs@, c);
                    assert((advance as int) * (size as int) <= 0xFFFF * 0xFFFF)
                        by (nonlinear_arith)
                        requires
                            0 <= advance <= 0xFFFF,
                            0 <= size <= 0xFFFF,
                    ;
                    assert((font.line_height as int) * (size as int) <= 0x1_0000_0000_0000)
                        by (nonlinear_arith)
                        requires
                            0 <= font.line_height < 0x1_0000_0000,
                            0 <= size <= 0xFFFF,
                    ;
                }
                let adv = (advance as u64) * (size as u64) / (font.units_per_em as u64);
                let lh = (font.line_height as u64) * (size as u64) / (font.units_per_em as u64);
                proof {
                    lemma_div_nonincreasing(
                        (font.line_height as int) * (size as int),
                        font.units_per_em as int,
                    );
                    lemma_div_pos_is_pos(
                        (font.line_height as int) * (size as int),
                        font.units_per_em as int,
                    );
                }
                glyphs.push(
                    GlyphPlacement { font_index, ch: c, x: width, size },
                );
                width = width + adv;
                if lh > height {
                    height = lh;
                }
            },
            None => {},
        }
        i = i + 1;
    }
    (glyphs, width, height)
}

/// Choose the largest font size in `min_font_size ..= max_font_size` at
/// which the text's single-line advance width stays within `max_width`,
/// scanning downward from the largest; when no size fits, the layout at
/// `min_font_size` is returned regardless, as graceful degradation rather
/// than an error. A character no chain font can render is skipped and
/// contributes no width.
pub fn largest_text_layout_fitting(
    max_width: u32,
    text: &str,
    max_font_size: u32,
    min_font_size: u32,
    fonts: &Vec<FontMetrics>,
) -> (r: TextLayout)
    requires
        fonts_wf(fonts@),
        min_font_size <= max_font_size,
        max_font_size <= 0xFFFF,
        text@.len() <= 0x7fff_ffff,
    ensures
        min_font_size <= r.size <= max_font_size,
        forall|s: int|
            r.size < s <= max_font_size ==> !fits(fonts@, text@, s, max_width as int),
        fits(fonts@, text@, r.size as int, max_width as int) || r.size == min_font_size,
        r.glyphs@ == layout_prefix(fonts@, text@, r.size as int, text@.len() as int),
        r.width == text_width(fonts@, text@, r.size as int),
        r.height == layout_height(fonts@, text@, r.size as int),
{
    let mut size = max_font_size;
    loop
        invariant
            fonts_wf(fonts@),
            min_font_size <= size <= max_font_size,
            max_font_size <= 0xFFFF,
            text@.len() <= 0x7fff_ffff,
            forall|s: int|
                size < s <= max_font_size ==> !fits(fonts@, text@, s, max_width as int),
        decreases size,
    {
        let (glyphs, width, height) = measure_layout(fonts, text, size);
        if width <= max_width as u64 || size == min_font_size {
            return TextLayout { glyphs, size, width, height };
        }
        size = size - 1;
    }
}

} // verus!
