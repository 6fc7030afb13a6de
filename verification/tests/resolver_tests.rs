use fingering_chart::keys::{Key, KeySet};
use fingering_chart::note::{Fingering, Note};
use fingering_chart::track::Track;

fn ks(keys: &[Key]) -> KeySet {
    let mut s = KeySet::empty();
    for k in keys {
        s = s.insert(*k);
    }
    s
}

fn note(byte: u8, sets: &[KeySet]) -> Note {
    let mut fings = Vec::new();
    for s in sets {
        fings.push(Fingering::new(*s));
    }
    Note::new(byte, fings)
}

#[test]
fn output_length_matches_input() {
    let a = ks(&[Key::Octave]);
    let b = ks(&[Key::Left1]);
    let c = ks(&[Key::Left2]);
    let track = Track::new(vec![
        note(60, &[a]),
        note(61, &[b, c]),
        note(62, &[c]),
        note(63, &[a, b]),
    ]);
    assert!(track.is_resolvable());
    let out = track.select_fingerings();
    assert_eq!(out.len(), 4);
}

#[test]
fn unique_candidates_pass_through() {
    let a = ks(&[Key::Octave, Key::Left1]);
    let b = ks(&[Key::Left2]);
    let c = ks(&[Key::PalmD, Key::PalmF]);
    let track = Track::new(vec![note(60, &[a]), note(61, &[b]), note(62, &[c])]);
    let out = track.select_fingerings();
    assert_eq!(out.len(), 3);
    assert_eq!(out[0].keys, a);
    assert_eq!(out[1].keys, b);
    assert_eq!(out[2].keys, c);
}

#[test]
fn tie_keeps_earlier_candidate() {
    // Both candidates have the same score against the previous choice:
    // each shares no key with it and differs in the same number of
    // keys, so the fold must keep the earlier one.
    let prev = ks(&[Key::Octave]);
    let first = ks(&[Key::Left1]);
    let second = ks(&[Key::Left2]);
    let track = Track::new(vec![note(60, &[prev]), note(61, &[first, second])]);
    let out = track.select_fingerings();
    assert_eq!(out[1].keys, first);
}

#[test]
fn previous_choice_guides_selection() {
    // Candidate sets [{f1}, {f2a, f2b}, {f3}]: f2a shares more keys
    // with the previous choice f1 and differs from it less than f2b
    // does, so the resolver must select f2a, whatever follows.
    let f1 = ks(&[Key::Octave, Key::Left1, Key::Left2]);
    let f2a = ks(&[Key::Octave, Key::Left1, Key::Left3]);
    let f2b = ks(&[Key::PalmD]);
    let f3 = ks(&[Key::Right1]);
    let track = Track::new(vec![note(60, &[f1]), note(61, &[f2a, f2b]), note(62, &[f3])]);
    let out = track.select_fingerings();
    assert_eq!(out[0].keys, f1);
    assert_eq!(out[1].keys, f2a);
    assert_eq!(out[2].keys, f3);
}

#[test]
fn second_candidate_wins_when_strictly_better() {
    let f1 = ks(&[Key::Octave, Key::Left1, Key::Left2]);
    let worse = ks(&[Key::PalmD]);
    let better = ks(&[Key::Octave, Key::Left1, Key::Left3]);
    let track = Track::new(vec![note(60, &[f1]), note(61, &[worse, better])]);
    let out = track.select_fingerings();
    assert_eq!(out[1].keys, better);
}

#[test]
fn first_position_looks_ahead() {
    // The first position is ambiguous: its candidates are scored
    // against the next position's candidate set.
    let close = ks(&[Key::Octave, Key::Left1]);
    let far = ks(&[Key::PalmD, Key::PalmF]);
    let next = ks(&[Key::Octave, Key::Left3]);
    let track = Track::new(vec![note(60, &[far, close]), note(61, &[next])]);
    let out = track.select_fingerings();
    assert_eq!(out[0].keys, close);
}

#[test]
fn first_position_penalizes_worst_case_difference() {
    // At the first position the difference against the look-ahead
    // set is aggregated with max: a candidate close to one successor
    // but far from another is penalized for the far one.
    let a = ks(&[Key::Octave]);
    let b = ks(&[Key::PalmD, Key::PalmEflat, Key::PalmF]);
    let c1 = ks(&[Key::Octave]);
    let c2 = ks(&[Key::PalmD, Key::PalmEflat, Key::PalmF, Key::Gsharp, Key::LowB]);
    // Against {c1, c2}: a scores 1 - max(0, 6); b scores 3 - max(4, 2).
    let track = Track::new(vec![note(60, &[a, b]), note(61, &[c1, c2])]);
    let out = track.select_fingerings();
    assert_eq!(out[0].keys, b);
    // The second position then follows the previous choice.
    assert_eq!(out[1].keys, c2);
}

#[test]
fn lone_ambiguous_note_is_not_resolvable() {
    let a = ks(&[Key::Octave]);
    let b = ks(&[Key::Left1]);
    let track = Track::new(vec![note(60, &[a, b])]);
    assert!(!track.is_resolvable());
}

#[test]
fn empty_candidate_set_is_not_resolvable() {
    let a = ks(&[Key::Octave]);
    let track = Track::new(vec![note(60, &[a]), note(61, &[])]);
    assert!(!track.is_resolvable());
}
