use fingering_chart::bitmap::{Bitmap, Pixel};
use fingering_chart::layout::{row_images, track_image};

fn px(r: u8, g: u8, b: u8) -> Pixel {
    Pixel { r, g, b, a: 255 }
}

fn cell(w: usize, h: usize, fill: Pixel) -> Bitmap {
    Bitmap::new(w, h, fill)
}

#[test]
fn row_width_is_cells_plus_gaps() {
    let a = px(10, 0, 0);
    let b = px(0, 10, 0);
    let cells = vec![cell(2, 3, a), cell(4, 5, b)];
    let rows = row_images(&cells, 2, 1);
    assert_eq!(rows.len(), 1);
    // width = 2 + 4 + 2 cells * 1 spacing; height = tallest cell.
    assert_eq!(rows[0].width(), 8);
    assert_eq!(rows[0].height(), 5);
}

#[test]
fn row_width_grows_by_cell_plus_spacing() {
    let a = px(10, 0, 0);
    let one = vec![cell(2, 3, a)];
    let two = vec![cell(2, 3, a), cell(4, 3, a)];
    let r1 = row_images(&one, 10, 7);
    let r2 = row_images(&two, 10, 7);
    // Appending a cell of width 4 grows the row by 4 + spacing.
    assert_eq!(r2[0].width(), r1[0].width() + 4 + 7);
}

#[test]
fn row_places_cells_left_to_right() {
    let a = px(10, 0, 0);
    let b = px(0, 10, 0);
    let bg = px(0, 0, 0);
    let cells = vec![cell(2, 3, a), cell(4, 5, b)];
    let rows = row_images(&cells, 2, 1);
    let row = &rows[0];
    // Gap before the first cell.
    assert_eq!(row.get(0, 0), bg);
    // First cell at x = 1.
    assert_eq!(row.get(1, 0), a);
    assert_eq!(row.get(2, 2), a);
    // Below the first cell the background shows.
    assert_eq!(row.get(1, 3), bg);
    // Gap between the cells at x = 3.
    assert_eq!(row.get(3, 0), bg);
    // Second cell at x = 4, flush with the right edge.
    assert_eq!(row.get(4, 0), b);
    assert_eq!(row.get(7, 4), b);
}

#[test]
fn cells_split_into_rows_of_at_most_n() {
    let a = px(10, 0, 0);
    let cells = vec![cell(2, 2, a), cell(2, 2, a), cell(2, 2, a)];
    let rows = row_images(&cells, 2, 1);
    assert_eq!(rows.len(), 2);
    assert_eq!(rows[0].width(), 2 + 2 + 2);
    assert_eq!(rows[1].width(), 2 + 1);
}

#[test]
fn track_height_is_rows_plus_gaps() {
    let a = px(10, 0, 0);
    let b = px(0, 10, 0);
    let cells = vec![cell(2, 3, a), cell(4, 5, b)];
    // One cell per row: two rows of heights 3 and 5, spacing 2.
    let img = track_image(&cells, 1, 2);
    assert_eq!(img.height(), 3 + 5 + 2 * 2);
    // Width is the widest row: the second cell's row, 4 + 2.
    assert_eq!(img.width(), 6);
}

#[test]
fn track_places_rows_top_to_bottom() {
    let a = px(10, 0, 0);
    let b = px(0, 10, 0);
    let bg = px(0, 0, 0);
    let cells = vec![cell(2, 3, a), cell(4, 5, b)];
    let img = track_image(&cells, 1, 2);
    // Gap above the first row.
    assert_eq!(img.get(2, 0), bg);
    // First row starts at y = 2; its cell starts at x = 2.
    assert_eq!(img.get(2, 2), a);
    // Gap between the rows at y = 5 and 6.
    assert_eq!(img.get(2, 5), bg);
    // Second row starts at y = 7; its cell starts at x = 2.
    assert_eq!(img.get(2, 7), b);
    assert_eq!(img.get(5, 11), b);
}

#[test]
fn empty_track_is_empty_image() {
    let cells: Vec<Bitmap> = Vec::new();
    let img = track_image(&cells, 3, 2);
    assert_eq!(img.width(), 0);
    assert_eq!(img.height(), 0);
    let rows = row_images(&cells, 3, 2);
    assert_eq!(rows.len(), 0);
}
