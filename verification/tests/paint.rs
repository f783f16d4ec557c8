use render_opengraph::canvas::{Canvas, Rgb};
use render_opengraph::error::RenderError;
use render_opengraph::nouns::{
    Bounds, Color, DecodedImage, ImageData, ImageDataContainer, Images, NounSeed, Rect,
};

const BG: Rgb = Rgb { r: 9, g: 9, b: 9 };
const RED: Rgb = Rgb { r: 200, g: 10, b: 10 };
const BLUE: Rgb = Rgb { r: 10, g: 10, b: 200 };
const WHITE: Rgb = Rgb { r: 255, g: 255, b: 255 };

fn icon(top: u8, left: u8, bottom: u8, right: u8, runs: &[(u8, u8)]) -> DecodedImage {
    DecodedImage {
        palette_index: 0,
        bounds: Bounds { top, left, bottom, right },
        rects: runs
            .iter()
            .map(|&(length, color_index)| Rect { length, color_index })
            .collect(),
    }
}

fn entry(img: DecodedImage) -> ImageData {
    ImageData { filename: String::new(), data: img }
}

fn empty_icon() -> DecodedImage {
    icon(0, 0, 0, 0, &[])
}

#[test]
fn two_full_width_runs_fill_two_rows() {
    // A 32 x 32 rectangle with two runs of 32 pixels of palette entry 0
    // covers exactly the first two rows; every other pixel keeps its color.
    let img = DecodedImage::decode("00000020200020002000").unwrap();
    let palette = vec![Color(Some(RED))];
    let mut canvas = Canvas::new(32, 32, BG);
    img.draw_part(&mut canvas, &palette, 0, 0).unwrap();
    for y in 0..32 {
        for x in 0..32 {
            let expected = if y < 2 { RED } else { BG };
            assert_eq!(canvas.pixel(x, y), expected);
        }
    }
}

#[test]
fn full_run_stream_fills_the_square() {
    // 255 * 4 + 4 = 1024 = 32 * 32 pixels: one flat square.
    let img = icon(0, 0, 32, 32, &[(255, 0), (255, 0), (255, 0), (255, 0), (4, 0)]);
    let palette = vec![Color(Some(RED))];
    let mut canvas = Canvas::new(32, 32, BG);
    img.draw_part(&mut canvas, &palette, 0, 0).unwrap();
    for y in 0..32 {
        for x in 0..32 {
            assert_eq!(canvas.pixel(x, y), RED);
        }
    }
}

#[test]
fn painting_respects_bounds_and_offset() {
    // A 2 x 2 rectangle at (1, 1), translated by (5, 5): only the four
    // pixels (6..8) x (6..8) change.
    let img = icon(1, 1, 3, 3, &[(4, 0)]);
    let palette = vec![Color(Some(RED))];
    let mut canvas = Canvas::new(16, 16, BG);
    img.draw_part(&mut canvas, &palette, 5, 5).unwrap();
    for y in 0..16 {
        for x in 0..16 {
            let inside = (6..8).contains(&x) && (6..8).contains(&y);
            let expected = if inside { RED } else { BG };
            assert_eq!(canvas.pixel(x, y), expected);
        }
    }
}

#[test]
fn run_overflow_past_area_is_ignored() {
    // The run is far longer than the 2 x 2 area; the excess paints nothing
    // and raises no error.
    let img = icon(0, 0, 2, 2, &[(255, 0)]);
    let palette = vec![Color(Some(RED))];
    let mut canvas = Canvas::new(8, 8, BG);
    img.draw_part(&mut canvas, &palette, 0, 0).unwrap();
    for y in 0..8 {
        for x in 0..8 {
            let inside = x < 2 && y < 2;
            let expected = if inside { RED } else { BG };
            assert_eq!(canvas.pixel(x, y), expected);
        }
    }
}

#[test]
fn short_run_stream_leaves_trailing_pixels() {
    // Three pixels of a 2 x 2 area: the last pixel keeps the background.
    let img = icon(0, 0, 2, 2, &[(3, 0)]);
    let palette = vec![Color(Some(RED))];
    let mut canvas = Canvas::new(8, 8, BG);
    img.draw_part(&mut canvas, &palette, 0, 0).unwrap();
    assert_eq!(canvas.pixel(0, 0), RED);
    assert_eq!(canvas.pixel(1, 0), RED);
    assert_eq!(canvas.pixel(0, 1), RED);
    assert_eq!(canvas.pixel(1, 1), BG);
}

#[test]
fn transparent_runs_draw_nothing() {
    // Every run names a transparent palette entry: the canvas is unchanged.
    let img = icon(0, 0, 4, 4, &[(8, 0), (8, 0)]);
    let palette = vec![Color(None)];
    let mut canvas = Canvas::new(8, 8, BG);
    img.draw_part(&mut canvas, &palette, 0, 0).unwrap();
    for y in 0..8 {
        for x in 0..8 {
            assert_eq!(canvas.pixel(x, y), BG);
        }
    }
}

#[test]
fn transparent_run_advances_the_position() {
    // Transparent, opaque: the opaque run lands after the transparent one.
    let img = icon(0, 0, 2, 2, &[(2, 0), (2, 1)]);
    let palette = vec![Color(None), Color(Some(RED))];
    let mut canvas = Canvas::new(4, 4, BG);
    img.draw_part(&mut canvas, &palette, 0, 0).unwrap();
    assert_eq!(canvas.pixel(0, 0), BG);
    assert_eq!(canvas.pixel(1, 0), BG);
    assert_eq!(canvas.pixel(0, 1), RED);
    assert_eq!(canvas.pixel(1, 1), RED);
}

#[test]
fn palette_index_out_of_bounds_stops_the_draw() {
    // The first run paints, the second names a missing palette entry.
    let img = icon(0, 0, 2, 2, &[(2, 0), (2, 7)]);
    let palette = vec![Color(Some(RED))];
    let mut canvas = Canvas::new(4, 4, BG);
    let err = img.draw_part(&mut canvas, &palette, 0, 0).unwrap_err();
    assert_eq!(err, RenderError::PaletteIndexOutOfBounds);
    assert_eq!(canvas.pixel(0, 0), RED);
    assert_eq!(canvas.pixel(1, 0), RED);
    assert_eq!(canvas.pixel(0, 1), BG);
    assert_eq!(canvas.pixel(1, 1), BG);
}

fn layered_container() -> ImageDataContainer {
    // Body: a red 2 x 2 square; head: a blue single pixel over its corner.
    ImageDataContainer {
        bgcolors: vec![Color(None), Color(Some(WHITE))],
        palette: vec![Color(Some(RED)), Color(Some(BLUE))],
        images: Images {
            bodies: vec![entry(icon(0, 0, 2, 2, &[(4, 0)]))],
            accessories: vec![entry(empty_icon())],
            heads: vec![entry(icon(0, 0, 1, 1, &[(1, 1)]))],
            glasses: vec![entry(empty_icon())],
        },
    }
}

#[test]
fn later_layer_occludes_earlier_one() {
    // The pixel opaque in both body and head shows the head's color.
    let container = layered_container();
    let seed = NounSeed { background: 0, body: 0, head: 0, accessory: 0, glasses: 0 };
    let mut canvas = Canvas::new(32, 32, BG);
    container.draw_noun(&mut canvas, &seed).unwrap();
    assert_eq!(canvas.pixel(0, 0), BLUE);
    assert_eq!(canvas.pixel(1, 0), RED);
    assert_eq!(canvas.pixel(0, 1), RED);
    assert_eq!(canvas.pixel(1, 1), RED);
    assert_eq!(canvas.pixel(2, 2), BG);
}

#[test]
fn transparent_background_leaves_canvas() {
    // The background seed selects a transparent catalog entry: no fill.
    let container = ImageDataContainer {
        bgcolors: vec![Color::parse("").unwrap()],
        palette: vec![Color(Some(RED))],
        images: Images {
            bodies: vec![entry(empty_icon())],
            accessories: vec![entry(empty_icon())],
            heads: vec![entry(empty_icon())],
            glasses: vec![entry(empty_icon())],
        },
    };
    let seed = NounSeed { background: 0, body: 0, head: 0, accessory: 0, glasses: 0 };
    let mut canvas = Canvas::new(32, 32, BG);
    container.draw_noun(&mut canvas, &seed).unwrap();
    for y in 0..32 {
        for x in 0..32 {
            assert_eq!(canvas.pixel(x, y), BG);
        }
    }
}

#[test]
fn opaque_background_fills_the_square() {
    let container = layered_container();
    let seed = NounSeed { background: 1, body: 0, head: 0, accessory: 0, glasses: 0 };
    let mut canvas = Canvas::new(32, 32, BG);
    container.draw_noun(&mut canvas, &seed).unwrap();
    assert_eq!(canvas.pixel(0, 0), BLUE);
    assert_eq!(canvas.pixel(1, 1), RED);
    assert_eq!(canvas.pixel(31, 31), WHITE);
}

#[test]
fn out_of_range_body_aborts_before_later_layers() {
    // The body index equals the array length: the render fails with the
    // seed error after the background fill, and the head never draws.
    let container = layered_container();
    let seed = NounSeed { background: 1, body: 1, head: 0, accessory: 0, glasses: 0 };
    let mut canvas = Canvas::new(32, 32, BG);
    let err = container.draw_noun(&mut canvas, &seed).unwrap_err();
    assert_eq!(err, RenderError::SeedIndexOutOfBounds);
    for y in 0..32 {
        for x in 0..32 {
            assert_eq!(canvas.pixel(x, y), WHITE);
        }
    }
}

#[test]
fn out_of_range_background_changes_nothing() {
    let container = layered_container();
    let seed = NounSeed { background: 9, body: 0, head: 0, accessory: 0, glasses: 0 };
    let mut canvas = Canvas::new(32, 32, BG);
    let err = container.draw_noun(&mut canvas, &seed).unwrap_err();
    assert_eq!(err, RenderError::SeedIndexOutOfBounds);
    assert_eq!(canvas.pixel(0, 0), BG);
    assert_eq!(canvas.pixel(16, 16), BG);
}
