//! A whole song: its tracks, built from pitch lists and the catalog.
//!
//! `Song::load` consumes the ordered pitch lists that a MIDI source
//! yields (one list per source track, already transposed) and keeps,
//! per track, the notes the catalog knows. A pitch out of the
//! instrument's range is dropped and reported once per run; a track
//! with no kept note is dropped whole.

use vstd::prelude::*;
use crate::catalog::FingeringCatalog;
use crate::keys::KeySet;
use crate::note::{Note, NoteView};
use crate::track::{resolvable, resolve_at, track_wf, Track};

verus! {

/// The pitch lists as mathematical sequences.
pub open spec fn pitch_views(tracks: Seq<Vec<u8>>) -> Seq<Seq<u8>> {
    tracks.map_values(|v: Vec<u8>| v@)
}

/// The notes kept from one pitch list: each pitch the catalog knows
/// becomes its note, in order; unknown pitches are dropped.
pub open spec fn kept_notes(cat: FingeringCatalog, pitches: Seq<u8>) -> Seq<NoteView>
    decreases pitches.len(),
{
    if pitches.len() == 0 {
        Seq::empty()
    } else {
        kept_notes(cat, pitches.drop_last()) + (match cat.spec_lookup(pitches.last()) {
            Some(nv) => seq![nv],
            None => Seq::empty(),
        })
    }
}

/// The distinct unknown pitches of one pitch list, in first-appearance
/// order, appended to what was already collected.
pub open spec fn missing_after(cat: FingeringCatalog, pitches: Seq<u8>, acc: Seq<u8>) -> Seq<u8>
    decreases pitches.len(),
{
    if pitches.len() == 0 {
        acc
    } else {
        let first = pitches[0];
        let acc2 = if cat.spec_lookup(first) is None && !acc.contains(first) {
            acc.push(first)
        } else {
            acc
        };
        missing_after(cat, pitches.skip(1), acc2)
    }
}

/// The distinct unknown pitches across all pitch lists, in
/// first-appearance order.
pub open spec fn missing_song(cat: FingeringCatalog, tracks: Seq<Seq<u8>>, acc: Seq<u8>) -> Seq<u8>
    decreases tracks.len(),
{
    if tracks.len() == 0 {
        acc
    } else {
        missing_song(cat, tracks.skip(1), missing_after(cat, tracks[0], acc))
    }
}

/// The tracks kept from the pitch lists: per list its known notes;
/// lists with no kept note are dropped.
pub open spec fn kept_tracks(cat: FingeringCatalog, tracks: Seq<Seq<u8>>) -> Seq<Seq<NoteView>>
    decreases tracks.len(),
{
    if tracks.len() == 0 {
        Seq::empty()
    } else {
        kept_tracks(cat, tracks.drop_last()) + (if kept_notes(cat, tracks.last()).len() > 0 {
            seq![kept_notes(cat, tracks.last())]
        } else {
            Seq::empty()
        })
    }
}

/// The union of the chosen fingerings of the first `k` positions.
pub open spec fn track_keys_upto(track: Seq<NoteView>, k: int) -> u32
    decreases k,
{
    if k <= 0 {
        0u32
    } else {
        track_keys_upto(track, k - 1) | resolve_at(track, k - 1)
    }
}

/// The union of the chosen fingerings of one track.
pub open spec fn track_keys(track: Seq<NoteView>) -> u32 {
    track_keys_upto(track, track.len() as int)
}

/// The union of the chosen fingerings of the first `t` tracks.
pub open spec fn song_keys_upto(song: Seq<Seq<NoteView>>, t: int) -> u32
    decreases t,
{
    if t <= 0 {
        0u32
    } else {
        song_keys_upto(song, t - 1) | track_keys(song[t - 1])
    }
}

/// The whole-piece key-usage set: the union of all chosen fingerings
/// across all tracks.
pub open spec fn song_keys(song: Seq<Seq<NoteView>>) -> u32 {
    song_keys_upto(song, song.len() as int)
}

/// One diagnostic per distinct unknown pitch: the collected list
/// never repeats a pitch, and it holds exactly the pitches that occur
/// in the list and are unknown to the catalog, besides what was
/// already collected.
pub proof fn lemma_missing_after_distinct(cat: FingeringCatalog, pitches: Seq<u8>, acc: Seq<u8>)
    requires
        acc.no_duplicates(),
    ensures
        missing_after(cat, pitches, acc).no_duplicates(),
        forall|p: u8| missing_after(cat, pitches, acc).contains(p) <==> acc.contains(p) || (
        pitches.contains(p) && cat.spec_lookup(p) is None),
    decreases pitches.len(),
{
    if pitches.len() == 0 {
        assert forall|p: u8| pitches.contains(p) implies false by {
            if pitches.contains(p) {
                let i = choose|i: int| 0 <= i < pitches.len() && pitches[i] == p;
            }
        }
    } else {
        let first = pitches[0];
        let rest = pitches.skip(1);
        let acc2 = if cat.spec_lookup(first) is None && !acc.contains(first) {
            acc.push(first)
        } else {
            acc
        };
        assert(acc2.no_duplicates()) by {
            if cat.spec_lookup(first) is None && !acc.contains(first) {
                assert forall|i: int, j: int|
                    0 <= i < j < acc2.len() implies acc2[i] != acc2[j] by {
                    if j < acc.len() {
                        assert(acc[i] != acc[j]);
                    } else {
                        assert(acc2[j] == first);
                        assert(acc2[i] == acc[i]);
                        assert(!acc.contains(first));
                        assert(acc[i] != first);
                    }
                }
            }
        }
        lemma_missing_after_distinct(cat, rest, acc2);
        assert forall|p: u8| pitches.contains(p) <==> p == first || rest.contains(p) by {
            if pitches.contains(p) {
                let i = choose|i: int| 0 <= i < pitches.len() && pitches[i] == p;
                if i > 0 {
                    assert(rest[i - 1] == p);
                }
            }
            if rest.contains(p) {
                let i = choose|i: int| 0 <= i < rest.len() && rest[i] == p;
                assert(pitches[i + 1] == p);
            }
            if p == first {
                assert(pitches[0] == p);
            }
        }
        assert forall|p: u8| acc2.contains(p) <==> acc.contains(p) || (p == first
            && cat.spec_lookup(p) is None) by {
            if cat.spec_lookup(first) is None && !acc.contains(first) {
                if acc2.contains(p) {
                    let i = choose|i: int| 0 <= i < acc2.len() && acc2[i] == p;
                    if i < acc.len() {
                        assert(acc[i] == p);
                    }
                }
                if acc.contains(p) {
                    let i = choose|i: int| 0 <= i < acc.len() && acc[i] == p;
                    assert(acc2[i] == p);
                }
                assert(acc2[acc.len() as int] == first);
            }
        }
    }
}

/// The same, across all the tracks of a song.
pub proof fn lemma_missing_song_distinct(cat: FingeringCatalog, tracks: Seq<Seq<u8>>, acc: Seq<u8>)
    requires
        acc.no_duplicates(),
    ensures
        missing_song(cat, tracks, acc).no_duplicates(),
        forall|p: u8| missing_song(cat, tracks, acc).contains(p) <==> acc.contains(p) || (exists|t: int|
            0 <= t < tracks.len() && (#[trigger] tracks[t]).contains(p) && cat.spec_lookup(
                p,
            ) is None),
    decreases tracks.len(),
{
    if tracks.len() > 0 {
        let rest = tracks.skip(1);
        lemma_missing_after_distinct(cat, tracks[0], acc);
        lemma_missing_song_distinct(cat, rest, missing_after(cat, tracks[0], acc));
        assert forall|p: u8| missing_song(cat, tracks, acc).contains(p) <==> acc.contains(p) || (
        exists|t: int| 0 <= t < tracks.len() && (#[trigger] tracks[t]).contains(p)
            && cat.spec_lookup(p) is None) by {
            if missing_song(cat, tracks, acc).contains(p) && !acc.contains(p)
                && cat.spec_lookup(p) is None {
                if tracks[0].contains(p) {
                    assert(tracks[0] == tracks[0]);
                } else {
                    if exists|t: int| 0 <= t < rest.len() && (#[trigger] rest[t]).contains(p) {
                        let t = choose|t: int| 0 <= t < rest.len() && (#[trigger] rest[t]).contains(
                            p,
                        );
                        assert(tracks[t + 1] == rest[t]);
                    }
                }
            }
            if exists|t: int| 0 <= t < tracks.len() && (#[trigger] tracks[t]).contains(p)
                && cat.spec_lookup(p) is None {
                let t = choose|t: int| 0 <= t < tracks.len() && (#[trigger] tracks[t]).contains(p)
                    && cat.spec_lookup(p) is None;
                if t > 0 {
                    assert(rest[t - 1] == tracks[t]);
                    assert(rest[t - 1].contains(p));
                }
            }
        }
    }
}

fn contains_byte(v: &Vec<u8>, b: u8) -> (r: bool)
    ensures
        r == v@.contains(b),
{
    let mut i: usize = 0;
    while i < v.len()
        invariant
            i <= v@.len(),
            forall|k: int| 0 <= k < i ==> v@[k] != b,
        decreases v@.len() - i,
    {
        if v[i] == b {
            return true;
        }
        i = i + 1;
    }
    false
}

/// An entire song: the tracks that had notes the catalog knows.
#[derive(Debug)]
pub struct Song {
    pub tracks: Vec<Track>,
}

impl View for Song {
    type V = Seq<Seq<NoteView>>;

    open spec fn view(&self) -> Seq<Seq<NoteView>> {
        self.tracks@.map_values(|t: Track| t@)
    }
}

impl Song {
    /// Build the song from pitch lists: per list, look up each pitch
    /// and keep its note; drop lists that keep nothing. Also returns
    /// the distinct pitches the catalog did not know, in order of
    /// first appearance.
    pub fn load(pitch_tracks: &Vec<Vec<u8>>, catalog: &FingeringCatalog) -> (r: (Song, Vec<u8>))
        requires
            catalog.wf(),
        ensures
            r.0@ == kept_tracks(*catalog, pitch_views(pitch_tracks@)),
            r.1@ == missing_song(*catalog, pitch_views(pitch_tracks@), Seq::empty()),
            forall|t: int| 0 <= t < r.0@.len() ==> track_wf(#[trigger] r.0@[t]) && r.0@[t].len()
                >= 1,
    {
        let ghost tv = pitch_views(pitch_tracks@);
        let mut tracks: Vec<Track> = Vec::new();
        let mut missing: Vec<u8> = Vec::new();
        let mut t: usize = 0;
        proof {
            assert(tv.skip(0) =~= tv);
        }
        while t < pitch_tracks.len()
            invariant
                t <= pitch_tracks@.len(),
                tv == pitch_views(pitch_tracks@),
                catalog.wf(),
                tracks@.map_values(|tr: Track| tr@) =~= kept_tracks(*catalog, tv.take(t as int)),
                missing_song(*catalog, tv, Seq::empty()) == missing_song(
                    *catalog,
                    tv.skip(t as int),
                    missing@,
                ),
                forall|k: int| 0 <= k < tracks@.len() ==> track_wf((#[trigger] tracks@[k])@)
                    && tracks@[k]@.len() >= 1,
            decreases pitch_tracks@.len() - t,
        {
            let pitches = &pitch_tracks[t];
            let ghost pv = pitches@;
            let ghost missing0 = missing@;
            let mut notes: Vec<Note> = Vec::new();
            let mut j: usize = 0;
            proof {
                assert(pv.skip(0) =~= pv);
                assert(tv[t as int] == pv);
            }
            while j < pitches.len()
                invariant
                    j <= pv.len(),
                    pv == pitches@,
                    catalog.wf(),
                    notes@.map_values(|nn: Note| nn@) =~= kept_notes(*catalog, pv.take(j as int)),
                    missing_after(*catalog, pv, missing0) == missing_after(
                        *catalog,
                        pv.skip(j as int),
                        missing@,
                    ),
                    forall|k: int| 0 <= k < notes@.len() ==> (#[trigger] notes@[k])@.fings.len()
                        >= 1,
                decreases pv.len() - j,
            {
                let p = pitches[j];
                let ghost ji = j as int;
                proof {
                    assert(pv.take(ji + 1).drop_last() =~= pv.take(ji));
                    assert(pv.take(ji + 1).last() == pv[ji]);
                    assert(pv.skip(ji)[0] == pv[ji]);
                    assert(pv.skip(ji).skip(1) =~= pv.skip(ji + 1));
                }
                match catalog.get(p) {
                    Some(n) => {
                        let copied = Note::new(n.byte, n.copy_fingerings());
                        proof {
                            assert(copied@ == n@);
                        }
                        notes.push(copied);
                        proof {
                            assert(notes@.map_values(|nn: Note| nn@) =~= kept_notes(
                                *catalog,
                                pv.take(ji + 1),
                            ));
                        }
                    },
                    None => {
                        if !contains_byte(&missing, p) {
                            missing.push(p);
                        }
                        proof {
                            assert(notes@.map_values(|nn: Note| nn@) =~= kept_notes(
                                *catalog,
                                pv.take(ji + 1),
                            ));
                        }
                    },
                }
                j = j + 1;
            }
            proof {
                assert(pv.take(pv.len() as int) =~= pv);
                assert(pv.skip(pv.len() as int) =~= Seq::<u8>::empty());
                assert(tv.skip(t as int)[0] == tv[t as int]);
                assert(tv.skip(t as int).skip(1) =~= tv.skip(t as int + 1));
            }
            if notes.len() > 0 {
                let ghost before = tracks@;
                tracks.push(Track::new(notes));
                proof {
                    assert(tracks@.drop_last() =~= before);
                    assert(tv.take(t as int + 1).drop_last() =~= tv.take(t as int));
                    assert(tv.take(t as int + 1).last() == tv[t as int]);
                    assert(tracks@.map_values(|tr: Track| tr@) =~= kept_tracks(
                        *catalog,
                        tv.take(t as int + 1),
                    ));
                }
            } else {
                proof {
                    assert(tv.take(t as int + 1).drop_last() =~= tv.take(t as int));
                    assert(tv.take(t as int + 1).last() == tv[t as int]);
                    assert(tracks@.map_values(|tr: Track| tr@) =~= kept_tracks(
                        *catalog,
                        tv.take(t as int + 1),
                    ));
                }
            }
            t = t + 1;
        }
        proof {
            assert(tv.take(pitch_tracks@.len() as int) =~= tv);
            assert(tv.skip(pitch_tracks@.len() as int) =~= Seq::<Seq<u8>>::empty());
        }
        (Song { tracks }, missing)
    }

    /// The tracks of the song.
    pub fn tracks(&self) -> (r: &Vec<Track>)
        ensures
            r@.map_values(|t: Track| t@) == self@,
    {
        &self.tracks
    }

    /// The whole-piece key-usage set: the union of every chosen
    /// fingering's keys across all tracks. Computed once, before any
    /// note is composited.
    pub fn piece_keys(&self) -> (r: KeySet)
        requires
            forall|t: int| 0 <= t < self@.len() ==> resolvable(#[trigger] self@[t]),
        ensures
            r@ == song_keys(self@),
    {
        let mut acc = KeySet::empty();
        let mut t: usize = 0;
        while t < self.tracks.len()
            invariant
                t <= self.tracks@.len(),
                forall|k: int| 0 <= k < self@.len() ==> resolvable(#[trigger] self@[k]),
                acc@ == song_keys_upto(self@, t as int),
            decreases self.tracks@.len() - t,
        {
            let ghost ti = t as int;
            let track = &self.tracks[t];
            assert(track@ == self@[ti]);
            let chosen = track.select_fingerings();
            proof {
                let a0 = song_keys_upto(self@, ti);
                assert(a0 | 0u32 == a0) by (bit_vector);
            }
            let mut i: usize = 0;
            while i < chosen.len()
                invariant
                    i <= chosen@.len(),
                    chosen@.len() == self@[ti].len(),
                    0 <= ti < self@.len(),
                    forall|k: int| 0 <= k < chosen@.len() ==> (#[trigger] chosen@[k])@
                        == resolve_at(self@[ti], k),
                    acc@ == (song_keys_upto(self@, ti) | track_keys_upto(self@[ti], i as int)),
                decreases chosen@.len() - i,
            {
                let f = chosen[i];
                acc = acc.union(&f.keys);
                proof {
                    let prev = song_keys_upto(self@, ti);
                    let tk = track_keys_upto(self@[ti], i as int);
                    let c = resolve_at(self@[ti], i as int);
                    assert(f@ == c);
                    assert(f.keys@ == f@);
                    assert((prev | tk) | c == prev | (tk | c)) by (bit_vector);
                }
                i = i + 1;
            }
            proof {
                assert(acc@ == (song_keys_upto(self@, ti) | track_keys(self@[ti])));
                assert(song_keys_upto(self@, ti + 1) == (song_keys_upto(self@, ti) | track_keys(
                    self@[ti],
                )));
            }
            t = t + 1;
        }
        assert(t == self@.len());
        acc
    }
}

} // verus!
