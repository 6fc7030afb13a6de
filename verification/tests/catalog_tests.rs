use fingering_chart::catalog::FingeringCatalog;
use fingering_chart::keys::{Key, KeySet};
use fingering_chart::song::Song;

fn ks(keys: &[Key]) -> KeySet {
    let mut s = KeySet::empty();
    for k in keys {
        s = s.insert(*k);
    }
    s
}

#[test]
fn lookup_returns_defined_fingerings_in_order() {
    let a = ks(&[Key::Octave]);
    let b = ks(&[Key::Left1]);
    let defs = vec![(60u8, vec![a]), (60u8, vec![b])];
    let catalog = FingeringCatalog::new(&defs);
    let note = catalog.get(60).expect("pitch 60 is defined");
    assert_eq!(note.byte, 60);
    assert_eq!(note.fingerings.len(), 2);
    assert_eq!(note.fingerings[0].keys, a);
    assert_eq!(note.fingerings[1].keys, b);
}

#[test]
fn lookup_of_unknown_pitch_is_none() {
    let defs = vec![(60u8, vec![ks(&[Key::Octave])])];
    let catalog = FingeringCatalog::new(&defs);
    assert!(catalog.get(61).is_none());
}

#[test]
fn pitch_with_only_empty_definitions_is_absent() {
    let defs = vec![(61u8, vec![]), (60u8, vec![ks(&[Key::Octave])])];
    let catalog = FingeringCatalog::new(&defs);
    assert!(catalog.get(61).is_none());
    assert!(catalog.get(60).is_some());
}

#[test]
fn load_keeps_known_notes_and_drops_empty_tracks() {
    let a = ks(&[Key::Octave]);
    let defs = vec![(60u8, vec![a])];
    let catalog = FingeringCatalog::new(&defs);
    let pitch_tracks = vec![vec![60u8, 61u8, 60u8], vec![61u8]];
    let (song, missing) = Song::load(&pitch_tracks, &catalog);
    // The second source track kept nothing and is dropped.
    assert_eq!(song.tracks.len(), 1);
    assert_eq!(song.tracks[0].notes.len(), 2);
    assert_eq!(song.tracks[0].notes[0].byte, 60);
    assert_eq!(song.tracks[0].notes[1].byte, 60);
    // The unknown pitch is reported once, though it occurred twice.
    assert_eq!(missing, vec![61u8]);
}

#[test]
fn missing_pitches_dedup_across_tracks() {
    let defs = vec![(60u8, vec![ks(&[Key::Octave])])];
    let catalog = FingeringCatalog::new(&defs);
    let pitch_tracks = vec![vec![61u8, 62u8], vec![62u8, 63u8, 61u8]];
    let (song, missing) = Song::load(&pitch_tracks, &catalog);
    assert_eq!(song.tracks.len(), 0);
    assert_eq!(missing, vec![61u8, 62u8, 63u8]);
}

#[test]
fn piece_keys_union_all_chosen_fingerings() {
    let a = ks(&[Key::Octave, Key::Left1]);
    let b = ks(&[Key::Gsharp]);
    let defs = vec![(60u8, vec![a]), (61u8, vec![b])];
    let catalog = FingeringCatalog::new(&defs);
    let pitch_tracks = vec![vec![60u8], vec![61u8]];
    let (song, missing) = Song::load(&pitch_tracks, &catalog);
    assert!(missing.is_empty());
    let piece = song.piece_keys();
    assert_eq!(piece.bits(), a.union(&b).bits());
    assert!(piece.contains(Key::Octave));
    assert!(piece.contains(Key::Left1));
    assert!(piece.contains(Key::Gsharp));
    assert!(!piece.contains(Key::LowC));
}
