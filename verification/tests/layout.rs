use render_opengraph::error::RenderError;
use render_opengraph::text::{
    largest_text_layout_fitting, FontMetrics, GlyphMetric, TextLayout,
};

fn font(units_per_em: u32, line_height: u32, glyphs: &[(char, u32)]) -> FontMetrics {
    FontMetrics::new(
        units_per_em,
        line_height,
        glyphs
            .iter()
            .map(|&(ch, advance)| GlyphMetric { ch, advance })
            .collect(),
    )
    .unwrap()
}

fn fit(budget: u32, text: &str, max: u32, min: u32, fonts: &Vec<FontMetrics>) -> TextLayout {
    largest_text_layout_fitting(budget, text, max, min, fonts)
}

#[test]
fn widest_fitting_size_wins() {
    // Ten characters, each advancing by the pixel size: the width is ten
    // times the size, and a budget of 185 only fits at sizes up to 18.
    let fonts = vec![font(
        1,
        2,
        &[('a', 1), ('b', 1), ('c', 1), ('d', 1), ('e', 1), ('f', 1), ('g', 1), ('h', 1), (
            'i',
            1,
        ), ('j', 1)],
    )];
    let layout = fit(185, "abcdefghij", 40, 10, &fonts);
    assert_eq!(layout.size, 18);
    assert_eq!(layout.width, 180);
    assert!(layout.width <= 185);
    assert_eq!(layout.glyphs.len(), 10);
    assert_eq!(layout.height, 36);
}

#[test]
fn smaller_sizes_also_fit() {
    // The size the scan returns fits; by monotonicity every smaller size
    // fits too, checked here on concrete values.
    let fonts = vec![font(1, 1, &[('a', 3)])];
    for size in 1..=20u32 {
        let layout = fit(60, "aaaa", size, 1, &fonts);
        // Four glyphs of advance 3 * size: fits exactly when size <= 5.
        if size <= 5 {
            assert_eq!(layout.size, size);
        } else {
            assert_eq!(layout.size, 5);
        }
    }
}

#[test]
fn no_fitting_size_returns_minimum_layout() {
    // Even the smallest size overflows the budget; the layout at the
    // minimum is returned rather than an error.
    let fonts = vec![font(1, 1, &[('a', 10)])];
    let layout = fit(5, "aaaa", 40, 10, &fonts);
    assert_eq!(layout.size, 10);
    assert_eq!(layout.width, 400);
    assert!(layout.width > 5);
}

#[test]
fn advances_scale_by_units_per_em() {
    // advance 500 at units_per_em 1000 gives half the pixel size.
    let fonts = vec![font(1000, 1000, &[('x', 500)])];
    let layout = fit(1000, "xx", 20, 1, &fonts);
    assert_eq!(layout.size, 20);
    assert_eq!(layout.width, 20);
    assert_eq!(layout.glyphs[1].x, 10);
    assert_eq!(layout.height, 20);
}

#[test]
fn first_font_with_the_glyph_wins() {
    // Both fonts offer 'a'; the first one is used. 'b' only exists in the
    // second font and falls back to it.
    let fonts = vec![font(1, 1, &[('a', 10)]), font(1, 1, &[('a', 99), ('b', 7)])];
    let layout = fit(1000, "ab", 1, 1, &fonts);
    assert_eq!(layout.glyphs.len(), 2);
    assert_eq!(layout.glyphs[0].font_index, 0);
    assert_eq!(layout.glyphs[0].x, 0);
    assert_eq!(layout.glyphs[1].font_index, 1);
    assert_eq!(layout.glyphs[1].x, 10);
    assert_eq!(layout.width, 17);
}

#[test]
fn unknown_characters_are_skipped() {
    // 'z' exists in no font: it produces no glyph and advances by zero.
    let fonts = vec![font(1, 1, &[('a', 5)])];
    let layout = fit(1000, "aza", 2, 1, &fonts);
    assert_eq!(layout.glyphs.len(), 2);
    assert_eq!(layout.width, 20);
    assert_eq!(layout.glyphs[1].x, 10);
}

#[test]
fn empty_text_fits_at_the_largest_size() {
    let fonts = vec![font(1, 1, &[('a', 5)])];
    let layout = fit(0, "", 40, 10, &fonts);
    assert_eq!(layout.size, 40);
    assert_eq!(layout.width, 0);
    assert_eq!(layout.height, 0);
    assert_eq!(layout.glyphs.len(), 0);
}

#[test]
fn zero_units_per_em_is_a_font_error() {
    let r = FontMetrics::new(0, 10, vec![GlyphMetric { ch: 'a', advance: 1 }]);
    assert_eq!(r.unwrap_err(), RenderError::FontLoadFailure);
}

#[test]
fn oversized_advance_is_a_font_error() {
    let r = FontMetrics::new(1000, 10, vec![GlyphMetric { ch: 'a', advance: 0x10000 }]);
    assert_eq!(r.unwrap_err(), RenderError::FontLoadFailure);
}
