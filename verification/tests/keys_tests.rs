use fingering_chart::keys::{Key, KeySet};

#[test]
fn set_operations_follow_the_bit_model() {
    let a = KeySet::empty().insert(Key::Octave).insert(Key::Left1);
    let b = KeySet::empty().insert(Key::Left1).insert(Key::Left2);
    assert_eq!(a.len(), 2);
    assert_eq!(a.union(&b).len(), 3);
    assert_eq!(a.intersection(&b).len(), 1);
    assert_eq!(a.symmetrical_difference(&b).len(), 2);
    assert!(a.contains(Key::Octave));
    assert!(!a.contains(Key::Left2));
    assert!(!a.is_disjoint(&b));
    let c = KeySet::empty().insert(Key::PalmD);
    assert!(a.is_disjoint(&c));
}

#[test]
fn empty_set_has_no_keys() {
    let e = KeySet::empty();
    assert_eq!(e.len(), 0);
    assert_eq!(e.bits(), 0);
    assert!(!e.contains(Key::LowA));
}

#[test]
fn bits_round_trip() {
    let a = KeySet::empty().insert(Key::Gsharp).insert(Key::LowC);
    let b = KeySet::from_bits(a.bits());
    assert_eq!(a, b);
    assert!(b.contains(Key::Gsharp));
    assert!(b.contains(Key::LowC));
    assert_eq!(b.len(), 2);
}

#[test]
fn key_indices_are_distinct() {
    let mut seen = [false; 24];
    let keys = [
        Key::Octave,
        Key::Left1,
        Key::Left2,
        Key::Left3,
        Key::FrontF,
        Key::Bis,
        Key::PalmD,
        Key::PalmEflat,
        Key::PalmF,
        Key::Gsharp,
        Key::LowCsharp,
        Key::LowB,
        Key::LowBflat,
        Key::Right1,
        Key::Right2,
        Key::Right3,
        Key::Fsharp,
        Key::SideE,
        Key::SideC,
        Key::SideBis,
        Key::HighFsharp,
        Key::LowEflat,
        Key::LowC,
        Key::LowA,
    ];
    for k in keys {
        let i = k.index();
        assert!(i < 24);
        assert!(!seen[i]);
        seen[i] = true;
        assert_eq!(Key::from_index(i), k);
    }
}
