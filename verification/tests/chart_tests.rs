use fingering_chart::atlas::{GlyphAtlas, CHART_HEIGHT, CHART_WIDTH};
use fingering_chart::bitmap::{Bitmap, Pixel};
use fingering_chart::keys::{Key, KeySet};
use fingering_chart::note::Fingering;

fn red() -> Pixel {
    Pixel { r: 255, g: 0, b: 0, a: 255 }
}

fn blue() -> Pixel {
    Pixel { r: 0, g: 0, b: 255, a: 255 }
}

fn green() -> Pixel {
    Pixel { r: 0, g: 255, b: 0, a: 255 }
}

fn black() -> Pixel {
    Pixel { r: 0, g: 0, b: 0, a: 255 }
}

fn white() -> Pixel {
    Pixel { r: 255, g: 255, b: 255, a: 255 }
}

/// A tiny atlas: every stencil is a single pixel; on-state stencils
/// are red, off-state blue, name glyphs black, the separator green.
fn tiny_atlas() -> GlyphAtlas {
    let mut key_on = Vec::new();
    let mut key_off = Vec::new();
    for _ in 0..24 {
        key_on.push(Bitmap::new(1, 1, red()));
        key_off.push(Bitmap::new(1, 1, blue()));
    }
    let mut names = Vec::new();
    for _ in 0..7 {
        names.push(Bitmap::new(1, 1, black()));
    }
    let flat = Bitmap::new(1, 1, black());
    let separator = Bitmap::new(1, 1, green());
    GlyphAtlas::new(key_on, key_off, names, flat, separator).expect("atlas must fit")
}

fn ks(keys: &[Key]) -> KeySet {
    let mut s = KeySet::empty();
    for k in keys {
        s = s.insert(*k);
    }
    s
}

#[test]
fn chart_has_fixed_dimensions() {
    let atlas = tiny_atlas();
    let f = Fingering::new(ks(&[Key::Octave]));
    let chart = f.gen_chart(60, ks(&[Key::Octave]), &atlas);
    assert_eq!(chart.width(), CHART_WIDTH);
    assert_eq!(chart.height(), CHART_HEIGHT);
    let empty = Fingering::new(KeySet::empty());
    let chart2 = empty.gen_chart(0, KeySet::empty(), &atlas);
    assert_eq!(chart2.width(), CHART_WIDTH);
    assert_eq!(chart2.height(), CHART_HEIGHT);
}

#[test]
fn front_keys_chart_for_middle_c() {
    // Pitch 60 with the six front keys pressed: all six front-key
    // stencils on, the separator present, the name glyph C without a
    // flat mark, tinted with the fourth band color (the threshold
    // sits exactly at 60).
    let atlas = tiny_atlas();
    let six = ks(&[Key::Left1, Key::Left2, Key::Left3, Key::Right1, Key::Right2, Key::Right3]);
    let f = Fingering::new(six);
    let chart = f.gen_chart(60, six, &atlas);
    // The six front keys are on.
    for (x, y) in [(22, 23), (22, 38), (22, 53), (22, 68), (22, 83), (22, 98)] {
        assert_eq!(chart.get(x, y), red());
    }
    // The octave key stays visible but off.
    assert_eq!(chart.get(1, 12), blue());
    // The separator is always stamped.
    assert_eq!(chart.get(20, 65), green());
    // The name glyph is tinted with the band color of pitch 60.
    assert_eq!(chart.get(41, 104), Pixel { r: 184, g: 94, b: 191, a: 255 });
    // No flat mark: the flat position keeps the background.
    assert_eq!(chart.get(51, 104), white());
}

#[test]
fn band_color_boundary_below_60() {
    let atlas = tiny_atlas();
    let f = Fingering::new(ks(&[Key::Left1]));
    let chart = f.gen_chart(59, ks(&[Key::Left1]), &atlas);
    assert_eq!(chart.get(41, 104), Pixel { r: 97, g: 90, b: 199, a: 255 });
}

#[test]
fn flat_mark_is_stamped_for_flat_pitches() {
    let atlas = tiny_atlas();
    let f = Fingering::new(ks(&[Key::Left1]));
    // Pitch 61 carries a flat mark; it is tinted like the name.
    let chart = f.gen_chart(61, ks(&[Key::Left1]), &atlas);
    assert_eq!(chart.get(51, 104), Pixel { r: 184, g: 94, b: 191, a: 255 });
}

#[test]
fn ghost_group_follows_piece_keys() {
    // The piece uses Gsharp somewhere, but this note's fingering does
    // not: the whole pinky group is still shown in off-state.
    let atlas = tiny_atlas();
    let own = ks(&[Key::Left1]);
    let piece = ks(&[Key::Left1, Key::Gsharp]);
    let f = Fingering::new(own);
    let chart = f.gen_chart(60, piece, &atlas);
    for (x, y) in [(43, 61), (51, 69), (43, 69), (43, 75)] {
        assert_eq!(chart.get(x, y), blue());
    }
    assert_eq!(chart.get(22, 23), red());
}

#[test]
fn no_ghost_group_without_piece_usage() {
    let atlas = tiny_atlas();
    let own = ks(&[Key::Left1]);
    let f = Fingering::new(own);
    let chart = f.gen_chart(60, own, &atlas);
    // The pinky group positions keep the background.
    for (x, y) in [(43, 61), (51, 69), (43, 69), (43, 75)] {
        assert_eq!(chart.get(x, y), white());
    }
}

#[test]
fn own_keys_overwrite_ghost_group() {
    // A note that itself presses Gsharp shows it on-state even though
    // the ghost group stamped it off first.
    let atlas = tiny_atlas();
    let own = ks(&[Key::Gsharp]);
    let f = Fingering::new(own);
    let chart = f.gen_chart(60, own, &atlas);
    assert_eq!(chart.get(43, 61), red());
    // The rest of the pinky group stays off.
    for (x, y) in [(51, 69), (43, 69), (43, 75)] {
        assert_eq!(chart.get(x, y), blue());
    }
}

#[test]
fn atlas_rejects_oversized_stencil() {
    let mut key_on = Vec::new();
    let mut key_off = Vec::new();
    for _ in 0..24 {
        key_on.push(Bitmap::new(1, 1, red()));
        key_off.push(Bitmap::new(1, 1, blue()));
    }
    // A key stencil wider than the canvas can never fit.
    key_on[0] = Bitmap::new(200, 1, red());
    let mut names = Vec::new();
    for _ in 0..7 {
        names.push(Bitmap::new(1, 1, black()));
    }
    let flat = Bitmap::new(1, 1, black());
    let separator = Bitmap::new(1, 1, green());
    assert!(GlyphAtlas::new(key_on, key_off, names, flat, separator).is_none());
}
