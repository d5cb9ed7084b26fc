use chord_fusion::chord::Chord;
use chord_fusion::note::Note;
use chord_fusion::recognize::{distinct_pitches, permute, recognize};

fn notes(pitches: &[u8]) -> Vec<Note> {
    pitches.iter().map(|&p| Note(p)).collect()
}

/// Whether a chord of the catalog spells the notes of `kind` on `root` from a
/// lower root.
fn has_lower_reading(kind: Chord, root: u8) -> bool {
    match kind {
        Chord::Augmented => root >= 4,
        Chord::Diminished7 => root >= 3,
        Chord::Suspended2 => root >= 5,
        Chord::Suspended4 => root >= 7,
        _ => false,
    }
}

#[test]
fn recognize_gives_back_root_and_kind() {
    for index in 0..Chord::COUNT {
        let kind = Chord::from_repr(index).unwrap();
        for root in 0..12u8 {
            let found = recognize(&kind.get_notes(Note(root)));
            assert_eq!(
                found == Some((Note(root), kind)),
                !has_lower_reading(kind, root),
                "{:?} on {}",
                kind,
                root
            );
        }
    }
}

#[test]
fn recognize_gives_back_every_major_and_minor_chord() {
    for root in 0..12u8 {
        assert_eq!(
            recognize(&Chord::Major.get_notes(Note(root))),
            Some((Note(root), Chord::Major))
        );
        assert_eq!(
            recognize(&Chord::Minor.get_notes(Note(root))),
            Some((Note(root), Chord::Minor))
        );
        assert_eq!(
            recognize(&Chord::Dominant7.get_notes(Note(root))),
            Some((Note(root), Chord::Dominant7))
        );
    }
}

#[test]
fn recognize_names_the_lowest_root_of_a_symmetric_chord() {
    assert_eq!(
        recognize(&Chord::Augmented.get_notes(Note(4))),
        Some((Note(0), Chord::Augmented))
    );
    assert_eq!(
        recognize(&Chord::Augmented.get_notes(Note(11))),
        Some((Note(3), Chord::Augmented))
    );
    assert_eq!(
        recognize(&Chord::Diminished7.get_notes(Note(3))),
        Some((Note(0), Chord::Diminished7))
    );
    assert_eq!(
        recognize(&Chord::Diminished7.get_notes(Note(10))),
        Some((Note(1), Chord::Diminished7))
    );
}

#[test]
fn recognize_reads_a_suspended_chord_from_its_lower_root() {
    assert_eq!(
        recognize(&Chord::Suspended4.get_notes(Note(7))),
        Some((Note(0), Chord::Suspended2))
    );
    assert_eq!(
        recognize(&Chord::Suspended2.get_notes(Note(5))),
        Some((Note(0), Chord::Suspended4))
    );
    assert_eq!(
        recognize(&Chord::Suspended2.get_notes(Note(4))),
        Some((Note(4), Chord::Suspended2))
    );
    assert_eq!(
        recognize(&Chord::Suspended4.get_notes(Note(6))),
        Some((Note(6), Chord::Suspended4))
    );
}

#[test]
fn recognize_finds_a_chord_for_every_kind_and_root() {
    for index in 0..Chord::COUNT {
        let kind = Chord::from_repr(index).unwrap();
        for root in 0..12u8 {
            let (found_root, found_kind) = recognize(&kind.get_notes(Note(root))).unwrap();
            let mut spelled: Vec<u8> =
                found_kind.get_notes(found_root).iter().map(|n| n.0).collect();
            let mut given: Vec<u8> = kind.get_notes(Note(root)).iter().map(|n| n.0).collect();
            spelled.sort();
            given.sort();
            assert_eq!(spelled, given);
            assert!(found_root.0 <= root);
        }
    }
}

#[test]
fn recognize_c_major() {
    assert_eq!(recognize(&notes(&[0, 4, 7])), Some((Note(0), Chord::Major)));
}

#[test]
fn recognize_an_inversion() {
    assert_eq!(recognize(&notes(&[4, 7, 0])), Some((Note(0), Chord::Major)));
    assert_eq!(recognize(&notes(&[7, 0, 4])), Some((Note(0), Chord::Major)));
    assert_eq!(recognize(&notes(&[2, 7, 11])), Some((Note(7), Chord::Major)));
    assert_eq!(recognize(&notes(&[11, 2, 7])), Some((Note(7), Chord::Major)));
    assert_eq!(recognize(&notes(&[5, 7, 11, 2])), Some((Note(7), Chord::Dominant7)));
}

#[test]
fn recognize_ignores_the_order_of_the_notes() {
    let orders: [[u8; 4]; 6] = [
        [0, 4, 7, 10],
        [10, 7, 4, 0],
        [4, 0, 10, 7],
        [7, 10, 0, 4],
        [0, 10, 4, 7],
        [10, 0, 7, 4],
    ];
    for order in orders.iter() {
        assert_eq!(recognize(&notes(order)), Some((Note(0), Chord::Dominant7)));
    }
}

#[test]
fn recognize_ignores_repeated_notes() {
    assert_eq!(recognize(&notes(&[0, 0, 4, 7])), Some((Note(0), Chord::Major)));
    assert_eq!(recognize(&notes(&[0, 4, 0, 7, 4, 7, 7])), Some((Note(0), Chord::Major)));
    assert_eq!(recognize(&notes(&[9, 0, 4, 9, 9])), Some((Note(9), Chord::Minor)));
    assert_eq!(recognize(&notes(&[0, 0, 0])), None);
    assert_eq!(recognize(&notes(&[0, 4, 0, 4])), None);
}

#[test]
fn recognize_reads_notes_modulo_twelve() {
    assert_eq!(recognize(&notes(&[12, 16, 19])), Some((Note(0), Chord::Major)));
    assert_eq!(recognize(&notes(&[0, 12, 4, 7])), Some((Note(0), Chord::Major)));
}

#[test]
fn recognize_needs_three_or_four_pitch_classes() {
    assert_eq!(recognize(&notes(&[])), None);
    assert_eq!(recognize(&notes(&[0])), None);
    assert_eq!(recognize(&notes(&[0, 4])), None);
    assert_eq!(recognize(&notes(&[0, 4, 7, 11, 2])), None);
    assert_eq!(recognize(&notes(&[0, 2, 4, 5, 7, 9, 11])), None);
    assert_eq!(recognize(&notes(&[0, 1, 2, 3, 4, 5, 6, 7, 8, 9, 10, 11])), None);
}

#[test]
fn recognize_of_no_known_pattern_is_none() {
    assert_eq!(recognize(&notes(&[0, 1, 2])), None);
    assert_eq!(recognize(&notes(&[0, 1, 2, 3])), None);
    assert_eq!(recognize(&notes(&[0, 4, 5])), None);
}

#[test]
fn distinct_pitches_are_sorted_and_unique() {
    assert_eq!(distinct_pitches(&notes(&[7, 0, 4, 0, 7])), vec![0, 4, 7]);
    assert_eq!(distinct_pitches(&notes(&[11, 23, 2])), vec![2, 11]);
    assert_eq!(distinct_pitches(&notes(&[])), Vec::<u8>::new());
    assert_eq!(distinct_pitches(&notes(&[5, 5, 5])), vec![5]);
}

#[test]
fn permute_reads_the_pattern_from_a_position() {
    assert_eq!(permute(&[0, 4, 7], 0), vec![0, 4, 7]);
    assert_eq!(permute(&[0, 4, 7], 1), vec![0, 3, 8]);
    assert_eq!(permute(&[0, 4, 7], 2), vec![0, 5, 9]);
    assert_eq!(permute(&[2, 7, 11], 1), vec![0, 4, 7]);
    assert_eq!(permute(&[2, 5, 7, 11], 2), vec![0, 4, 7, 10]);
    assert_eq!(permute(&[9], 0), vec![0]);
}
