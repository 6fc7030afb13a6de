use fingering_chart::atlas::{GlyphAtlas, CHART_HEIGHT, CHART_WIDTH};
use fingering_chart::bitmap::{Bitmap, Pixel};
use fingering_chart::catalog::FingeringCatalog;
use fingering_chart::keys::{Key, KeySet};
use fingering_chart::song::Song;
use fingering_chart::track::charts_fit_check;

fn px(r: u8, g: u8, b: u8) -> Pixel {
    Pixel { r, g, b, a: 255 }
}

fn tiny_atlas() -> GlyphAtlas {
    let mut key_on = Vec::new();
    let mut key_off = Vec::new();
    for _ in 0..24 {
        key_on.push(Bitmap::new(1, 1, px(255, 0, 0)));
        key_off.push(Bitmap::new(1, 1, px(0, 0, 255)));
    }
    let mut names = Vec::new();
    for _ in 0..7 {
        names.push(Bitmap::new(1, 1, px(0, 0, 0)));
    }
    let flat = Bitmap::new(1, 1, px(0, 0, 0));
    let separator = Bitmap::new(1, 1, px(0, 255, 0));
    GlyphAtlas::new(key_on, key_off, names, flat, separator).expect("atlas must fit")
}

fn ks(keys: &[Key]) -> KeySet {
    let mut s = KeySet::empty();
    for k in keys {
        s = s.insert(*k);
    }
    s
}

#[test]
fn track_renders_one_cell_per_note() {
    let defs = vec![(60u8, vec![ks(&[Key::Octave])]), (62u8, vec![ks(&[Key::Left1])])];
    let catalog = FingeringCatalog::new(&defs);
    let (song, _) = Song::load(&vec![vec![60u8, 62u8, 60u8]], &catalog);
    assert_eq!(song.tracks.len(), 1);
    let piece = song.piece_keys();
    let atlas = tiny_atlas();
    let cells = song.tracks[0].cell_images(piece, &atlas);
    assert_eq!(cells.len(), 3);
    for c in &cells {
        assert_eq!(c.width(), CHART_WIDTH);
        assert_eq!(c.height(), CHART_HEIGHT);
    }
}

#[test]
fn track_rows_and_image_dimensions() {
    let defs = vec![(60u8, vec![ks(&[Key::Octave])])];
    let catalog = FingeringCatalog::new(&defs);
    let (song, _) = Song::load(&vec![vec![60u8, 60u8, 60u8]], &catalog);
    let piece = song.piece_keys();
    let atlas = tiny_atlas();
    let track = &song.tracks[0];
    assert!(track.is_resolvable());
    assert!(charts_fit_check(track.notes.len(), 4));

    let rows = track.row_images(piece, &atlas, 2, 4);
    assert_eq!(rows.len(), 2);
    // Two cells and two gaps; one cell and one gap.
    assert_eq!(rows[0].width(), 2 * CHART_WIDTH + 2 * 4);
    assert_eq!(rows[0].height(), CHART_HEIGHT);
    assert_eq!(rows[1].width(), CHART_WIDTH + 4);

    let img = track.track_image(piece, &atlas, 2, 4);
    assert_eq!(img.width(), 2 * CHART_WIDTH + 2 * 4);
    assert_eq!(img.height(), 2 * CHART_HEIGHT + 2 * 4);
}

#[test]
fn charts_fit_check_rejects_absurd_sizes() {
    assert!(charts_fit_check(10, 5));
    assert!(charts_fit_check(0, usize::MAX));
    assert!(!charts_fit_check(usize::MAX, usize::MAX));
}
