//! The fingering catalog: pitch byte to candidate fingerings.
//!
//! Built once from a definition list (pitch byte, key sets); entries
//! for the same pitch are merged in order. A pitch with no key set
//! defined has no note: looking it up is the normal "out of range"
//! outcome. Every note the catalog holds has at least one fingering.

use vstd::prelude::*;
use crate::keys::KeySet;
use crate::note::{Fingering, Note, NoteView, fings_of};

verus! {

/// The key masks of a list of key sets, in order.
pub open spec fn ksets_of(v: Seq<KeySet>) -> Seq<u32> {
    v.map_values(|k: KeySet| k@)
}

/// The key masks defined for pitch `b`: the concatenation, in order,
/// of every definition entry for that pitch.
pub open spec fn defs_for(defs: Seq<(u8, Vec<KeySet>)>, b: u8) -> Seq<u32>
    decreases defs.len(),
{
    if defs.len() == 0 {
        Seq::empty()
    } else {
        defs_for(defs.drop_last(), b) + (if defs.last().0 == b {
            ksets_of(defs.last().1@)
        } else {
            Seq::empty()
        })
    }
}

/// Maps each pitch byte to its note, if the definitions gave it one.
pub struct FingeringCatalog {
    notes: Vec<Option<Note>>,
}

impl FingeringCatalog {
    /// One entry per possible pitch byte; every note has at least one
    /// fingering and carries its own pitch byte.
    pub closed spec fn wf(self) -> bool {
        &&& self.notes@.len() == 256
        &&& forall|b: int| 0 <= b < 256 ==> match #[trigger] self.notes@[b] {
            Some(n) => n@.byte == b && n@.fings.len() >= 1,
            None => true,
        }
    }

    /// What the catalog holds for a pitch byte.
    pub closed spec fn spec_lookup(self, b: u8) -> Option<NoteView> {
        match self.notes@[b as int] {
            Some(n) => Some(n@),
            None => None,
        }
    }

    /// Build the catalog from a definition list. A pitch is present
    /// exactly when some entry gives it a key set, and its fingerings
    /// are all its entries' key sets in order.
    pub fn new(defs: &Vec<(u8, Vec<KeySet>)>) -> (r: FingeringCatalog)
        ensures
            r.wf(),
            forall|b: u8| #[trigger] r.spec_lookup(b) == (if defs_for(defs@, b).len() == 0 {
                None
            } else {
                Some(NoteView { byte: b, fings: defs_for(defs@, b) })
            }),
    {
        let mut notes: Vec<Option<Note>> = Vec::new();
        let mut b: usize = 0;
        while b < 256
            invariant
                b <= 256,
                notes@.len() == b,
                forall|bb: int| 0 <= bb < b ==> match #[trigger] notes@[bb] {
                    Some(n) => n@.byte == bb && n@.fings.len() >= 1 && n@.fings == defs_for(
                        defs@,
                        bb as u8,
                    ),
                    None => defs_for(defs@, bb as u8).len() == 0,
                },
            decreases 256 - b,
        {
            let byte = b as u8;
            let fings = collect_fingerings(defs, byte);
            if fings.len() == 0 {
                notes.push(None);
            } else {
                notes.push(Some(Note::new(byte, fings)));
            }
            b = b + 1;
        }
        let r = FingeringCatalog { notes };
        proof {
            assert forall|bb: u8| #[trigger] r.spec_lookup(bb) == (if defs_for(defs@, bb).len()
                == 0 {
                None
            } else {
                Some(NoteView { byte: bb, fings: defs_for(defs@, bb) })
            }) by {
                assert((bb as int) >= 0 && (bb as int) < 256);
            }
        }
        r
    }

    /// The note for a pitch byte, or `None` when the pitch is out of
    /// the instrument's range.
    pub fn get(&self, byte: u8) -> (r: Option<&Note>)
        requires
            self.wf(),
        ensures
            match r {
                Some(n) => self.spec_lookup(byte) == Some(n@) && n@.byte == byte
                    && n@.fings.len() >= 1,
                None => self.spec_lookup(byte) is None,
            },
    {
        match &self.notes[byte as usize] {
            Some(n) => Some(n),
            None => None,
        }
    }
}

fn collect_fingerings(defs: &Vec<(u8, Vec<KeySet>)>, byte: u8) -> (r: Vec<Fingering>)
    ensures
        fings_of(r@) == defs_for(defs@, byte),
{
    let mut r: Vec<Fingering> = Vec::new();
    let mut d: usize = 0;
    while d < defs.len()
        invariant
            d <= defs@.len(),
            fings_of(r@) == defs_for(defs@.take(d as int), byte),
        decreases defs@.len() - d,
    {
        let ghost before = r@;
        if defs[d].0 == byte {
            let ksets = &defs[d].1;
            let mut k: usize = 0;
            while k < ksets.len()
                invariant
                    k <= ksets@.len(),
                    ksets@ == defs@[d as int].1@,
                    fings_of(r@) =~= fings_of(before) + ksets_of(ksets@.take(k as int)),
                decreases ksets@.len() - k,
            {
                let ghost prev = r@;
                let f = Fingering::new(ksets[k]);
                r.push(f);
                proof {
                    assert(f@ == ksets@[k as int]@);
                    assert(fings_of(r@) =~= fings_of(prev).push(f@));
                    assert(ksets_of(ksets@.take(k + 1)) =~= ksets_of(ksets@.take(k as int)).push(
                        f@,
                    ));
                    assert(fings_of(before) + ksets_of(ksets@.take(k as int)).push(f@) =~= (
                    fings_of(before) + ksets_of(ksets@.take(k as int))).push(f@));
                    assert(fings_of(r@) =~= fings_of(before) + ksets_of(ksets@.take(k + 1)));
                }
                k = k + 1;
            }
            proof {
                assert(ksets@.take(ksets@.len() as int) =~= ksets@);
            }
        } else {
            proof {
                assert(fings_of(r@) =~= fings_of(before) + Seq::<u32>::empty());
            }
        }
        proof {
            assert(defs@.take(d + 1).drop_last() =~= defs@.take(d as int));
            assert(defs@.take(d + 1).last() == defs@[d as int]);
        }
        d = d + 1;
    }
    proof {
        assert(defs@.take(defs@.len() as int) =~= defs@);
    }
    r
}

} // verus!
