use render_opengraph::canvas::{bgra_to_rgba, Canvas, Rgb};
use render_opengraph::card::{display_text, icon_grid, short_address};

const INK: Rgb = Rgb { r: 1, g: 2, b: 3 };
const FILL: Rgb = Rgb { r: 40, g: 50, b: 60 };

#[test]
fn new_canvas_is_filled() {
    let canvas = Canvas::new(3, 2, FILL);
    assert_eq!(canvas.width(), 3);
    assert_eq!(canvas.height(), 2);
    for y in 0..2 {
        for x in 0..3 {
            assert_eq!(canvas.pixel(x, y), FILL);
        }
    }
}

#[test]
fn fill_rect_is_clipped_at_the_edges() {
    let mut canvas = Canvas::new(8, 8, FILL);
    canvas.fill_rect(6, 7, 5, 5, INK);
    for y in 0..8 {
        for x in 0..8 {
            let inside = x >= 6 && y >= 7;
            let expected = if inside { INK } else { FILL };
            assert_eq!(canvas.pixel(x, y), expected);
        }
    }
}

#[test]
fn fill_row_paints_one_row() {
    let mut canvas = Canvas::new(6, 3, FILL);
    canvas.fill_row(2, 1, 3, INK);
    for y in 0..3 {
        for x in 0..6 {
            let inside = y == 1 && (2..5).contains(&x);
            let expected = if inside { INK } else { FILL };
            assert_eq!(canvas.pixel(x, y), expected);
        }
    }
}

#[test]
fn fill_outside_the_canvas_is_a_no_op() {
    let mut canvas = Canvas::new(4, 4, FILL);
    canvas.fill_rect(4, 0, 2, 2, INK);
    canvas.fill_rect(0, 9, 2, 2, INK);
    for y in 0..4 {
        for x in 0..4 {
            assert_eq!(canvas.pixel(x, y), FILL);
        }
    }
}

#[test]
fn bgra_export_orders_channels() {
    let canvas = Canvas::new(2, 1, Rgb { r: 10, g: 20, b: 30 });
    let data = canvas.data_bgra();
    assert_eq!(data, vec![30, 20, 10, 255, 30, 20, 10, 255]);
}

#[test]
fn bgra_to_rgba_permutes_each_pixel() {
    let data = vec![1u8, 2, 3, 4, 5, 6, 7, 8];
    assert_eq!(bgra_to_rgba(&data), vec![3, 2, 1, 4, 7, 6, 5, 8]);
}

#[test]
fn export_then_permute_yields_rgba() {
    let canvas = Canvas::new(1, 1, Rgb { r: 10, g: 20, b: 30 });
    let rgba = bgra_to_rgba(&canvas.data_bgra());
    assert_eq!(rgba, vec![10, 20, 30, 255]);
}

#[test]
fn grid_grows_columns_first() {
    assert_eq!(icon_grid(1), (1, 1));
    assert_eq!(icon_grid(4), (4, 1));
    assert_eq!(icon_grid(5), (5, 1));
    assert_eq!(icon_grid(6), (5, 2));
    assert_eq!(icon_grid(10), (5, 2));
    assert_eq!(icon_grid(11), (5, 3));
}

#[test]
fn grid_rows_are_capped() {
    assert_eq!(icon_grid(30), (5, 6));
    assert_eq!(icon_grid(31), (5, 6));
    assert_eq!(icon_grid(1000), (5, 6));
}

#[test]
fn short_address_keeps_both_ends() {
    let address = "0x1234567890abcdef1234567890abcdef12345678";
    assert_eq!(address.len(), 42);
    assert_eq!(short_address(address), "0x12...5678");
}

#[test]
fn display_text_prefers_the_resolved_name() {
    let address = "0x1234567890abcdef1234567890abcdef12345678";
    let name = Some(String::from("steward"));
    assert_eq!(display_text(&name, address), "steward");
    assert_eq!(display_text(&None, address), "0x12...5678");
}
