//! The chart compositor.
//!
//! A chart is built in six steps: a background canvas; the seven
//! always-visible keys stamped in off-state; the four mutually
//! exclusive alternate-key groups re-stamped in off-state wherever the
//! whole piece uses any key of the group (the "ghost" groups); the
//! fingering's own keys stamped in on-state; the note name, tinted by
//! octave band, with its flat mark where the pitch calls for one; and
//! the separator between the two front-key clusters, always.

use vstd::prelude::*;
use crate::atlas::{
    AtlasView, GlyphAtlas, key_pos, CHART_WIDTH, CHART_HEIGHT, NAME_X, NAME_Y, FLAT_X, FLAT_Y,
    SEP_X, SEP_Y, NUM_NAMES,
};
use crate::bitmap::{blank, overlay_spec, Bitmap, ImageView, Pixel, StampMode};
use crate::keys::{key_index, key_of, mask_contains, Key, KeySet, NUM_KEYS};
use crate::note::{Fingering, Note};

verus! {

/// Name color of the lowest octave band (pitches below 48).
pub open spec fn octave_2_color() -> Pixel {
    Pixel { r: 164, g: 120, b: 59, a: 255 }
}

/// Name color of the second octave band (pitches 48 to 59).
pub open spec fn octave_3_color() -> Pixel {
    Pixel { r: 97, g: 90, b: 199, a: 255 }
}

/// Name color of the third octave band (pitches 60 to 71).
pub open spec fn octave_4_color() -> Pixel {
    Pixel { r: 184, g: 94, b: 191, a: 255 }
}

/// Name color of the highest octave band (pitches from 72 up).
pub open spec fn octave_5_color() -> Pixel {
    Pixel { r: 76, g: 158, b: 91, a: 255 }
}

/// The background every chart starts from.
pub open spec fn chart_bg() -> Pixel {
    Pixel { r: 255, g: 255, b: 255, a: 255 }
}

/// The note-name color of a pitch: one of the four octave-band colors.
pub open spec fn band_color(byte: u8) -> Pixel {
    if byte < 48 {
        octave_2_color()
    } else if byte < 60 {
        octave_3_color()
    } else if byte < 72 {
        octave_4_color()
    } else {
        octave_5_color()
    }
}

/// Which name glyph a pitch uses: 0 is A, up to 6 for G.
pub open spec fn name_index(byte: u8) -> int {
    let m = byte % 12;
    if m == 0 || m == 1 {
        2
    } else if m == 2 || m == 3 {
        3
    } else if m == 4 {
        4
    } else if m == 5 || m == 6 {
        5
    } else if m == 7 || m == 8 {
        6
    } else if m == 9 || m == 10 {
        0
    } else {
        1
    }
}

/// Whether the pitch's name carries a flat mark.
pub open spec fn has_flat(byte: u8) -> bool {
    let m = byte % 12;
    m == 1 || m == 3 || m == 6 || m == 8 || m == 10
}

/// The bit of one key in a key mask.
pub open spec fn key_bit(k: Key) -> u32 {
    1u32 << (key_index(k) as u32)
}

/// One key's stencil stamped at its fixed chart position.
pub open spec fn stamp_key(v: ImageView, atlas: AtlasView, k: Key, filled: bool) -> ImageView {
    overlay_spec(
        v,
        if filled {
            atlas.key_on[key_index(k)]
        } else {
            atlas.key_off[key_index(k)]
        },
        key_pos(k).0,
        key_pos(k).1,
        StampMode::Opaque,
    )
}

/// The blank canvas with the seven always-visible keys in off-state.
pub open spec fn base_chart_spec(atlas: AtlasView) -> ImageView {
    let v = blank(CHART_WIDTH as nat, CHART_HEIGHT as nat, chart_bg());
    let v = stamp_key(v, atlas, Key::Octave, false);
    let v = stamp_key(v, atlas, Key::Left1, false);
    let v = stamp_key(v, atlas, Key::Left2, false);
    let v = stamp_key(v, atlas, Key::Left3, false);
    let v = stamp_key(v, atlas, Key::Right1, false);
    let v = stamp_key(v, atlas, Key::Right2, false);
    stamp_key(v, atlas, Key::Right3, false)
}

/// The low E-flat alternate-key group.
pub open spec fn group_low_c_mask() -> u32 {
    (0u32 | key_bit(Key::LowEflat)) | key_bit(Key::LowC)
}

/// The pinky alternate-key group.
pub open spec fn group_pinky_mask() -> u32 {
    (((0u32 | key_bit(Key::Gsharp)) | key_bit(Key::LowCsharp)) | key_bit(Key::LowB)) | key_bit(
        Key::LowBflat,
    )
}

/// The palm alternate-key group.
pub open spec fn group_palm_mask() -> u32 {
    ((0u32 | key_bit(Key::PalmD)) | key_bit(Key::PalmEflat)) | key_bit(Key::PalmF)
}

/// The side alternate-key group.
pub open spec fn group_side_mask() -> u32 {
    ((((0u32 | key_bit(Key::SideE)) | key_bit(Key::SideC)) | key_bit(Key::SideBis)) | key_bit(
        Key::Fsharp,
    )) | key_bit(Key::HighFsharp)
}

/// The ghost groups: wherever the whole piece uses a key of a group,
/// the whole group is re-stamped in off-state.
pub open spec fn ghost_groups_spec(v: ImageView, atlas: AtlasView, piece: u32) -> ImageView {
    let v = if piece & group_low_c_mask() != 0 {
        let v = stamp_key(v, atlas, Key::LowEflat, false);
        stamp_key(v, atlas, Key::LowC, false)
    } else {
        v
    };
    let v = if piece & group_pinky_mask() != 0 {
        let v = stamp_key(v, atlas, Key::Gsharp, false);
        let v = stamp_key(v, atlas, Key::LowCsharp, false);
        let v = stamp_key(v, atlas, Key::LowB, false);
        stamp_key(v, atlas, Key::LowBflat, false)
    } else {
        v
    };
    let v = if piece & group_palm_mask() != 0 {
        let v = stamp_key(v, atlas, Key::PalmD, false);
        let v = stamp_key(v, atlas, Key::PalmEflat, false);
        stamp_key(v, atlas, Key::PalmF, false)
    } else {
        v
    };
    if piece & group_side_mask() != 0 {
        let v = stamp_key(v, atlas, Key::SideE, false);
        let v = stamp_key(v, atlas, Key::SideC, false);
        let v = stamp_key(v, atlas, Key::SideBis, false);
        let v = stamp_key(v, atlas, Key::Fsharp, false);
        stamp_key(v, atlas, Key::HighFsharp, false)
    } else {
        v
    }
}

/// The first `n` keys (by bit position) of the fingering stamped in
/// on-state.
pub open spec fn on_keys_upto(v: ImageView, atlas: AtlasView, keys: u32, n: int) -> ImageView
    decreases n,
{
    if n <= 0 {
        v
    } else {
        let p = on_keys_upto(v, atlas, keys, n - 1);
        if mask_contains(keys, key_of(n - 1)) {
            stamp_key(p, atlas, key_of(n - 1), true)
        } else {
            p
        }
    }
}

/// Every key of the fingering stamped in on-state, in key order.
pub open spec fn on_keys_spec(v: ImageView, atlas: AtlasView, keys: u32) -> ImageView {
    on_keys_upto(v, atlas, keys, NUM_KEYS as int)
}

/// The note name, tinted by octave band, with its flat mark where the
/// pitch calls for one.
pub open spec fn name_spec(v: ImageView, atlas: AtlasView, byte: u8) -> ImageView {
    let c = band_color(byte);
    let v1 = overlay_spec(
        v,
        atlas.names[name_index(byte)],
        NAME_X as int,
        NAME_Y as int,
        StampMode::Tint(c),
    );
    if has_flat(byte) {
        overlay_spec(v1, atlas.flat, FLAT_X as int, FLAT_Y as int, StampMode::Tint(c))
    } else {
        v1
    }
}

/// The finished chart for one fingering of one pitch, given the keys
/// the whole piece uses.
pub open spec fn chart_spec(atlas: AtlasView, keys: u32, piece: u32, byte: u8) -> ImageView {
    let v = base_chart_spec(atlas);
    let v = ghost_groups_spec(v, atlas, piece);
    let v = on_keys_spec(v, atlas, keys);
    let v = name_spec(v, atlas, byte);
    overlay_spec(v, atlas.separator, SEP_X as int, SEP_Y as int, StampMode::Opaque)
}

impl Key {
    /// Stamp this key's stencil onto a chart canvas.
    fn include_key_image(&self, filled: bool, image: &mut Bitmap, atlas: &GlyphAtlas)
        requires
            atlas@.wf(),
            old(image).wf(),
            old(image)@.width == CHART_WIDTH,
            old(image)@.height == CHART_HEIGHT,
        ensures
            final(image).wf(),
            final(image)@.width == CHART_WIDTH,
            final(image)@.height == CHART_HEIGHT,
            final(image)@ == stamp_key(old(image)@, atlas@, *self, filled),
    {
        proof {
            assert(key_of(key_index(*self)) == *self);
        }
        let (x, y) = self.get_image_data();
        let stencil = if filled {
            atlas.key_on(*self)
        } else {
            atlas.key_off(*self)
        };
        image.overlay(stencil, x, y, StampMode::Opaque);
    }
}

/// A blank chart: background, the seven always-visible keys in
/// off-state.
fn gen_base_chart(atlas: &GlyphAtlas) -> (r: Bitmap)
    requires
        atlas@.wf(),
    ensures
        r.wf(),
        r@.width == CHART_WIDTH,
        r@.height == CHART_HEIGHT,
        r@ == base_chart_spec(atlas@),
{
    let mut chart = Bitmap::new(CHART_WIDTH, CHART_HEIGHT, Pixel { r: 255, g: 255, b: 255, a: 255 });
    Key::Octave.include_key_image(false, &mut chart, atlas);
    Key::Left1.include_key_image(false, &mut chart, atlas);
    Key::Left2.include_key_image(false, &mut chart, atlas);
    Key::Left3.include_key_image(false, &mut chart, atlas);
    Key::Right1.include_key_image(false, &mut chart, atlas);
    Key::Right2.include_key_image(false, &mut chart, atlas);
    Key::Right3.include_key_image(false, &mut chart, atlas);
    chart
}

impl Note {
    /// The name data of a pitch: its band color, its name-glyph index
    /// (0 is A, 6 is G), and whether a flat mark follows.
    pub fn get_image_data(byte: u8) -> (r: (Pixel, usize, bool))
        ensures
            r.0 == band_color(byte),
            r.1 == name_index(byte),
            r.2 == has_flat(byte),
            r.1 < NUM_NAMES,
    {
        let m = byte % 12;
        let (ni, flat): (usize, bool) = match m {
            0 => (2, false),
            1 => (2, true),
            2 => (3, false),
            3 => (3, true),
            4 => (4, false),
            5 => (5, false),
            6 => (5, true),
            7 => (6, false),
            8 => (6, true),
            9 => (0, false),
            10 => (0, true),
            _ => (1, false),
        };
        let color = if byte < 48 {
            Pixel { r: 164, g: 120, b: 59, a: 255 }
        } else if byte < 60 {
            Pixel { r: 97, g: 90, b: 199, a: 255 }
        } else if byte < 72 {
            Pixel { r: 184, g: 94, b: 191, a: 255 }
        } else {
            Pixel { r: 76, g: 158, b: 91, a: 255 }
        };
        (color, ni, flat)
    }

    /// Stamp the note name, tinted by octave band, onto a chart.
    pub fn include_note_name(byte: u8, image: &mut Bitmap, atlas: &GlyphAtlas)
        requires
            atlas@.wf(),
            old(image).wf(),
            old(image)@.width == CHART_WIDTH,
            old(image)@.height == CHART_HEIGHT,
        ensures
            final(image).wf(),
            final(image)@.width == CHART_WIDTH,
            final(image)@.height == CHART_HEIGHT,
            final(image)@ == name_spec(old(image)@, atlas@, byte),
    {
        let (color, ni, flat) = Note::get_image_data(byte);
        let name = atlas.name(ni);
        image.overlay(name, NAME_X, NAME_Y, StampMode::Tint(color));
        if flat {
            image.overlay(atlas.flat(), FLAT_X, FLAT_Y, StampMode::Tint(color));
        }
    }
}

impl Fingering {
    /// Render the complete chart for this fingering of the given
    /// pitch: always exactly `CHART_WIDTH` by `CHART_HEIGHT` pixels.
    pub fn gen_chart(&self, byte: u8, piece: KeySet, atlas: &GlyphAtlas) -> (r: Bitmap)
        requires
            atlas@.wf(),
        ensures
            r.wf(),
            r@.width == CHART_WIDTH,
            r@.height == CHART_HEIGHT,
            r@ == chart_spec(atlas@, self@, piece@, byte),
    {
        let mut chart = gen_base_chart(atlas);
        let ghost v_base = chart@;

        let g_low_c = KeySet::empty().insert(Key::LowEflat).insert(Key::LowC);
        assert(g_low_c@ == group_low_c_mask());
        if !piece.is_disjoint(&g_low_c) {
            Key::LowEflat.include_key_image(false, &mut chart, atlas);
            Key::LowC.include_key_image(false, &mut chart, atlas);
        }
        let g_pinky = KeySet::empty().insert(Key::Gsharp).insert(Key::LowCsharp).insert(
            Key::LowB,
        ).insert(Key::LowBflat);
        assert(g_pinky@ == group_pinky_mask());
        if !piece.is_disjoint(&g_pinky) {
            Key::Gsharp.include_key_image(false, &mut chart, atlas);
            Key::LowCsharp.include_key_image(false, &mut chart, atlas);
            Key::LowB.include_key_image(false, &mut chart, atlas);
            Key::LowBflat.include_key_image(false, &mut chart, atlas);
        }
        let g_palm = KeySet::empty().insert(Key::PalmD).insert(Key::PalmEflat).insert(Key::PalmF);
        assert(g_palm@ == group_palm_mask());
        if !piece.is_disjoint(&g_palm) {
            Key::PalmD.include_key_image(false, &mut chart, atlas);
            Key::PalmEflat.include_key_image(false, &mut chart, atlas);
            Key::PalmF.include_key_image(false, &mut chart, atlas);
        }
        let g_side = KeySet::empty().insert(Key::SideE).insert(Key::SideC).insert(
            Key::SideBis,
        ).insert(Key::Fsharp).insert(Key::HighFsharp);
        assert(g_side@ == group_side_mask());
        if !piece.is_disjoint(&g_side) {
            Key::SideE.include_key_image(false, &mut chart, atlas);
            Key::SideC.include_key_image(false, &mut chart, atlas);
            Key::SideBis.include_key_image(false, &mut chart, atlas);
            Key::Fsharp.include_key_image(false, &mut chart, atlas);
            Key::HighFsharp.include_key_image(false, &mut chart, atlas);
        }
        assert(chart@ == ghost_groups_spec(v_base, atlas@, piece@));
        let ghost v_ghosts = chart@;

        let keys = self.keys;
        let mut i: usize = 0;
        while i < NUM_KEYS
            invariant
                i <= NUM_KEYS,
                atlas@.wf(),
                chart.wf(),
                chart@.width == CHART_WIDTH,
                chart@.height == CHART_HEIGHT,
                keys@ == self@,
                chart@ == on_keys_upto(v_ghosts, atlas@, keys@, i as int),
            decreases NUM_KEYS - i,
        {
            let k = Key::from_index(i);
            if keys.contains(k) {
                k.include_key_image(true, &mut chart, atlas);
            }
            i = i + 1;
        }
        assert(chart@ == on_keys_spec(v_ghosts, atlas@, self@));

        Note::include_note_name(byte, &mut chart, atlas);
        chart.overlay(atlas.separator(), SEP_X, SEP_Y, StampMode::Opaque);
        chart
    }
}

} // verus!
