//! The glyph atlas: the stencils that charts are stamped from.
//!
//! For every key the atlas holds an on-state and an off-state stencil;
//! besides them the seven note-name glyphs (A through G), the flat
//! mark, and the horizontal separator between the two front-key
//! clusters. Each key has a fixed placement on the chart canvas, and a
//! well-formed atlas only holds stencils that fit the canvas at their
//! placement, so that compositing can never run out of bounds.

use vstd::prelude::*;
use crate::bitmap::{Bitmap, ImageView};
use crate::keys::{Key, key_index, key_of, NUM_KEYS};

verus! {

/// Width of every chart, in pixels.
pub const CHART_WIDTH: usize = 63;

/// Height of every chart, in pixels.
pub const CHART_HEIGHT: usize = 118;

/// Number of note-name glyphs: the letters A through G.
pub const NUM_NAMES: usize = 7;

/// Placement of the note-name glyph.
pub const NAME_X: usize = 41;

/// Placement of the note-name glyph.
pub const NAME_Y: usize = 104;

/// Placement of the flat mark, beside the note name.
pub const FLAT_X: usize = 51;

/// Placement of the flat mark, beside the note name.
pub const FLAT_Y: usize = 104;

/// Placement of the separator between the front-key clusters.
pub const SEP_X: usize = 20;

/// Placement of the separator between the front-key clusters.
pub const SEP_Y: usize = 65;

/// The fixed chart position of a key's stencils.
pub open spec fn key_pos(k: Key) -> (int, int) {
    match k {
        Key::Octave => (1, 12),
        Key::Left1 => (22, 23),
        Key::Left2 => (22, 38),
        Key::Left3 => (22, 53),
        Key::FrontF => (22, 15),
        Key::Bis => (29, 31),
        Key::PalmD => (53, 10),
        Key::PalmEflat => (44, 1),
        Key::PalmF => (37, 14),
        Key::Gsharp => (43, 61),
        Key::LowCsharp => (51, 69),
        Key::LowB => (43, 69),
        Key::LowBflat => (43, 75),
        Key::Right1 => (22, 68),
        Key::Right2 => (22, 83),
        Key::Right3 => (22, 98),
        Key::Fsharp => (9, 93),
        Key::SideE => (7, 62),
        Key::SideC => (7, 71),
        Key::SideBis => (7, 80),
        Key::HighFsharp => (12, 84),
        Key::LowEflat => (4, 105),
        Key::LowC => (4, 110),
        Key::LowA => (3, 34),
    }
}

impl Key {
    /// The chart position of this key's stencils.
    pub fn get_image_data(&self) -> (r: (usize, usize))
        ensures
            r.0 == key_pos(*self).0,
            r.1 == key_pos(*self).1,
    {
        match *self {
            Key::Octave => (1, 12),
            Key::Left1 => (22, 23),
            Key::Left2 => (22, 38),
            Key::Left3 => (22, 53),
            Key::FrontF => (22, 15),
            Key::Bis => (29, 31),
            Key::PalmD => (53, 10),
            Key::PalmEflat => (44, 1),
            Key::PalmF => (37, 14),
            Key::Gsharp => (43, 61),
            Key::LowCsharp => (51, 69),
            Key::LowB => (43, 69),
            Key::LowBflat => (43, 75),
            Key::Right1 => (22, 68),
            Key::Right2 => (22, 83),
            Key::Right3 => (22, 98),
            Key::Fsharp => (9, 93),
            Key::SideE => (7, 62),
            Key::SideC => (7, 71),
            Key::SideBis => (7, 80),
            Key::HighFsharp => (12, 84),
            Key::LowEflat => (4, 105),
            Key::LowC => (4, 110),
            Key::LowA => (3, 34),
        }
    }
}

/// A stencil fits the chart canvas at position `(x, y)`.
pub open spec fn fits_at(img: ImageView, x: int, y: int) -> bool {
    &&& img.wf()
    &&& x + img.width <= CHART_WIDTH
    &&& y + img.height <= CHART_HEIGHT
}

/// The mathematical content of a glyph atlas.
#[verifier::ext_equal]
pub struct AtlasView {
    pub key_on: Seq<ImageView>,
    pub key_off: Seq<ImageView>,
    pub names: Seq<ImageView>,
    pub flat: ImageView,
    pub separator: ImageView,
}

impl AtlasView {
    /// Every stencil is present, well formed and fits the canvas at
    /// its placement.
    pub open spec fn wf(self) -> bool {
        &&& self.key_on.len() == NUM_KEYS
        &&& self.key_off.len() == NUM_KEYS
        &&& self.names.len() == NUM_NAMES
        &&& forall|i: int| 0 <= i < NUM_KEYS ==> fits_at(
            #[trigger] self.key_on[i],
            key_pos(key_of(i)).0,
            key_pos(key_of(i)).1,
        )
        &&& forall|i: int| 0 <= i < NUM_KEYS ==> fits_at(
            #[trigger] self.key_off[i],
            key_pos(key_of(i)).0,
            key_pos(key_of(i)).1,
        )
        &&& forall|i: int| 0 <= i < NUM_NAMES ==> fits_at(
            #[trigger] self.names[i],
            NAME_X as int,
            NAME_Y as int,
        )
        &&& fits_at(self.flat, FLAT_X as int, FLAT_Y as int)
        &&& fits_at(self.separator, SEP_X as int, SEP_Y as int)
    }
}

/// The views of the stencils an atlas would be built from.
pub open spec fn atlas_view_of(
    key_on: Seq<Bitmap>,
    key_off: Seq<Bitmap>,
    names: Seq<Bitmap>,
    flat: Bitmap,
    separator: Bitmap,
) -> AtlasView {
    AtlasView {
        key_on: key_on.map_values(|b: Bitmap| b@),
        key_off: key_off.map_values(|b: Bitmap| b@),
        names: names.map_values(|b: Bitmap| b@),
        flat: flat@,
        separator: separator@,
    }
}

/// The immutable set of stencils that every chart is stamped from.
pub struct GlyphAtlas {
    key_on: Vec<Bitmap>,
    key_off: Vec<Bitmap>,
    names: Vec<Bitmap>,
    flat: Bitmap,
    separator: Bitmap,
}

impl View for GlyphAtlas {
    type V = AtlasView;

    closed spec fn view(&self) -> AtlasView {
        atlas_view_of(self.key_on@, self.key_off@, self.names@, self.flat, self.separator)
    }
}

fn keys_fit(stencils: &Vec<Bitmap>) -> (r: bool)
    requires
        stencils@.len() == NUM_KEYS,
    ensures
        r == forall|i: int| 0 <= i < NUM_KEYS ==> fits_at(
            (#[trigger] stencils@[i])@,
            key_pos(key_of(i)).0,
            key_pos(key_of(i)).1,
        ),
{
    let mut i: usize = 0;
    while i < NUM_KEYS
        invariant
            i <= NUM_KEYS,
            stencils@.len() == NUM_KEYS,
            forall|j: int| 0 <= j < i ==> fits_at(
                (#[trigger] stencils@[j])@,
                key_pos(key_of(j)).0,
                key_pos(key_of(j)).1,
            ),
        decreases NUM_KEYS - i,
    {
        let k = Key::from_index(i);
        let (x, y) = k.get_image_data();
        let s = &stencils[i];
        if !(s.check_wf() && s.width() <= CHART_WIDTH - x && s.height() <= CHART_HEIGHT - y) {
            assert(!fits_at(
                stencils@[i as int]@,
                key_pos(key_of(i as int)).0,
                key_pos(key_of(i as int)).1,
            ));
            return false;
        }
        i = i + 1;
    }
    true
}

fn name_fits(s: &Bitmap, x: usize, y: usize) -> (r: bool)
    requires
        x <= CHART_WIDTH,
        y <= CHART_HEIGHT,
    ensures
        r == fits_at(s@, x as int, y as int),
{
    s.check_wf() && s.width() <= CHART_WIDTH - x && s.height() <= CHART_HEIGHT - y
}

impl GlyphAtlas {
    /// Build the atlas, checking every stencil against its placement;
    /// `None` means the assets are corrupt (a stencil would not fit
    /// the canvas, or a stencil is missing).
    pub fn new(
        key_on: Vec<Bitmap>,
        key_off: Vec<Bitmap>,
        names: Vec<Bitmap>,
        flat: Bitmap,
        separator: Bitmap,
    ) -> (r: Option<GlyphAtlas>)
        ensures
            match r {
                Some(a) => a@ == atlas_view_of(key_on@, key_off@, names@, flat, separator)
                    && a@.wf(),
                None => !atlas_view_of(key_on@, key_off@, names@, flat, separator).wf(),
            },
    {
        let ghost av = atlas_view_of(key_on@, key_off@, names@, flat, separator);
        if key_on.len() != NUM_KEYS || key_off.len() != NUM_KEYS || names.len() != NUM_NAMES {
            proof {
                assert(av.key_on.len() == key_on@.len());
                assert(av.key_off.len() == key_off@.len());
                assert(av.names.len() == names@.len());
            }
            return None;
        }
        if !keys_fit(&key_on) {
            proof {
                let i = choose|i: int| 0 <= i < NUM_KEYS && !fits_at(
                    (#[trigger] key_on@[i])@,
                    key_pos(key_of(i)).0,
                    key_pos(key_of(i)).1,
                );
                assert(av.key_on[i] == key_on@[i]@);
            }
            return None;
        }
        if !keys_fit(&key_off) {
            proof {
                let i = choose|i: int| 0 <= i < NUM_KEYS && !fits_at(
                    (#[trigger] key_off@[i])@,
                    key_pos(key_of(i)).0,
                    key_pos(key_of(i)).1,
                );
                assert(av.key_off[i] == key_off@[i]@);
            }
            return None;
        }
        let mut i: usize = 0;
        while i < NUM_NAMES
            invariant
                i <= NUM_NAMES,
                names@.len() == NUM_NAMES,
                key_on@.len() == NUM_KEYS,
                key_off@.len() == NUM_KEYS,
                av == atlas_view_of(key_on@, key_off@, names@, flat, separator),
                forall|j: int| 0 <= j < NUM_KEYS ==> fits_at(
                    (#[trigger] key_on@[j])@,
                    key_pos(key_of(j)).0,
                    key_pos(key_of(j)).1,
                ),
                forall|j: int| 0 <= j < NUM_KEYS ==> fits_at(
                    (#[trigger] key_off@[j])@,
                    key_pos(key_of(j)).0,
                    key_pos(key_of(j)).1,
                ),
                forall|j: int| 0 <= j < i ==> fits_at(
                    (#[trigger] names@[j])@,
                    NAME_X as int,
                    NAME_Y as int,
                ),
            decreases NUM_NAMES - i,
        {
            if !name_fits(&names[i], NAME_X, NAME_Y) {
                proof {
                    assert(av.names[i as int] == names@[i as int]@);
                }
                return None;
            }
            i = i + 1;
        }
        if !name_fits(&flat, FLAT_X, FLAT_Y) {
            return None;
        }
        if !name_fits(&separator, SEP_X, SEP_Y) {
            return None;
        }
        proof {
            assert forall|j: int| 0 <= j < NUM_KEYS implies fits_at(
                #[trigger] av.key_on[j],
                key_pos(key_of(j)).0,
                key_pos(key_of(j)).1,
            ) by {
                assert(av.key_on[j] == key_on@[j]@);
            }
            assert forall|j: int| 0 <= j < NUM_KEYS implies fits_at(
                #[trigger] av.key_off[j],
                key_pos(key_of(j)).0,
                key_pos(key_of(j)).1,
            ) by {
                assert(av.key_off[j] == key_off@[j]@);
            }
            assert forall|j: int| 0 <= j < NUM_NAMES implies fits_at(
                #[trigger] av.names[j],
                NAME_X as int,
                NAME_Y as int,
            ) by {
                assert(av.names[j] == names@[j]@);
            }
            assert(av.wf());
        }
        Some(GlyphAtlas { key_on, key_off, names, flat, separator })
    }

    /// The on-state stencil of a key.
    pub fn key_on(&self, k: Key) -> (r: &Bitmap)
        requires
            self@.wf(),
        ensures
            r@ == self@.key_on[key_index(k)],
    {
        &self.key_on[k.index()]
    }

    /// The off-state stencil of a key.
    pub fn key_off(&self, k: Key) -> (r: &Bitmap)
        requires
            self@.wf(),
        ensures
            r@ == self@.key_off[key_index(k)],
    {
        &self.key_off[k.index()]
    }

    /// The glyph of a note-name letter (0 is A, 6 is G).
    pub fn name(&self, i: usize) -> (r: &Bitmap)
        requires
            self@.wf(),
            i < NUM_NAMES,
        ensures
            r@ == self@.names[i as int],
    {
        &self.names[i]
    }

    /// The flat mark.
    pub fn flat(&self) -> (r: &Bitmap)
        ensures
            r@ == self@.flat,
    {
        &self.flat
    }

    /// The separator between the front-key clusters.
    pub fn separator(&self) -> (r: &Bitmap)
        ensures
            r@ == self@.separator,
    {
        &self.separator
    }
}

} // verus!
