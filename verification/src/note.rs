//! Notes and their candidate fingerings.
//!
//! A `Fingering` is one valid key combination for a pitch; a `Note` is
//! a pitch byte together with its ordered, nonempty list of candidate
//! fingerings. The view of a fingering is its key mask; the view of a
//! note is a `NoteView`.

use vstd::prelude::*;
use crate::keys::KeySet;

verus! {

/// One valid key combination for a pitch.
#[derive(Clone, Copy, PartialEq, Eq, Structural, Debug)]
pub struct Fingering {
    pub keys: KeySet,
}

impl View for Fingering {
    type V = u32;

    open spec fn view(&self) -> u32 {
        self.keys@
    }
}

impl Fingering {
    /// A fingering pressing exactly the given keys.
    pub fn new(keys: KeySet) -> (r: Fingering)
        ensures
            r.keys == keys,
            r@ == keys@,
    {
        Fingering { keys }
    }
}

/// The key masks of a list of fingerings, in order.
pub open spec fn fings_of(v: Seq<Fingering>) -> Seq<u32> {
    v.map_values(|f: Fingering| f@)
}

/// The mathematical content of a note: its pitch byte and the key
/// masks of its candidate fingerings.
pub struct NoteView {
    pub byte: u8,
    pub fings: Seq<u32>,
}

/// A pitch byte with its ordered candidate fingerings.
#[derive(Debug)]
pub struct Note {
    pub byte: u8,
    pub fingerings: Vec<Fingering>,
}

impl View for Note {
    type V = NoteView;

    open spec fn view(&self) -> NoteView {
        NoteView { byte: self.byte, fings: fings_of(self.fingerings@) }
    }
}

impl Note {
    /// A note with the given pitch byte and candidate fingerings.
    pub fn new(byte: u8, fingerings: Vec<Fingering>) -> (r: Note)
        ensures
            r@.byte == byte,
            r@.fings == fings_of(fingerings@),
    {
        Note { byte, fingerings }
    }

    /// A copy of this note's candidate list.
    pub fn copy_fingerings(&self) -> (r: Vec<Fingering>)
        ensures
            r@ == self.fingerings@,
    {
        let mut r: Vec<Fingering> = Vec::new();
        let mut i: usize = 0;
        while i < self.fingerings.len()
            invariant
                i <= self.fingerings@.len(),
                r@.len() == i,
                forall|j: int| 0 <= j < i ==> r@[j] == self.fingerings@[j],
            decreases self.fingerings@.len() - i,
        {
            r.push(self.fingerings[i]);
            i = i + 1;
        }
        proof {
            assert(r@ =~= self.fingerings@);
        }
        r
    }
}

} // verus!
