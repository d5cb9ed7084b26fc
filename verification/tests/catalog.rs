use chord_fusion::chord::{same_pattern, Chord};
use chord_fusion::note::Note;

fn kinds() -> Vec<Chord> {
    (0..Chord::COUNT).map(|i| Chord::from_repr(i).unwrap()).collect()
}

#[test]
fn there_are_fifteen_kinds() {
    assert_eq!(Chord::COUNT, 15);
    assert_eq!(kinds().len(), 15);
    assert_eq!(Chord::from_repr(0), Some(Chord::Major));
    assert_eq!(Chord::from_repr(5), Some(Chord::Suspended4));
    assert_eq!(Chord::from_repr(6), Some(Chord::Dominant7));
    assert_eq!(Chord::from_repr(14), Some(Chord::Dominant11));
    assert_eq!(Chord::from_repr(15), None);
    assert_eq!(Chord::from_repr(usize::MAX), None);
}

#[test]
fn interval_patterns_of_the_catalog() {
    assert_eq!(Chord::Major.intervals(), vec![0, 4, 7]);
    assert_eq!(Chord::Minor.intervals(), vec![0, 3, 7]);
    assert_eq!(Chord::Diminished.intervals(), vec![0, 3, 6]);
    assert_eq!(Chord::Augmented.intervals(), vec![0, 4, 8]);
    assert_eq!(Chord::Suspended2.intervals(), vec![0, 2, 7]);
    assert_eq!(Chord::Suspended4.intervals(), vec![0, 5, 7]);
    assert_eq!(Chord::Dominant7.intervals(), vec![0, 4, 7, 10]);
    assert_eq!(Chord::Major7.intervals(), vec![0, 4, 7, 11]);
    assert_eq!(Chord::Minor7.intervals(), vec![0, 3, 7, 10]);
    assert_eq!(Chord::MinorMajor7.intervals(), vec![0, 3, 7, 11]);
    assert_eq!(Chord::HalfDiminished.intervals(), vec![0, 3, 6, 10]);
    assert_eq!(Chord::Diminished7.intervals(), vec![0, 3, 6, 9]);
    assert_eq!(Chord::Augmented7.intervals(), vec![0, 4, 8, 10]);
    assert_eq!(Chord::AugmentedMaj7.intervals(), vec![0, 4, 8, 11]);
    assert_eq!(Chord::Dominant11.intervals(), vec![0, 5, 7, 10]);
}

#[test]
fn interval_patterns_start_at_zero_and_ascend() {
    for kind in kinds() {
        let pattern = kind.intervals();
        assert!(pattern.len() == 3 || pattern.len() == 4);
        assert_eq!(pattern[0], 0);
        assert!(pattern.windows(2).all(|pair| pair[0] < pair[1]));
        assert!(pattern.iter().all(|&offset| offset < 12));
    }
}

#[test]
fn no_two_kinds_share_a_pattern() {
    let all = kinds();
    for (i, left) in all.iter().enumerate() {
        for right in &all[i + 1..] {
            assert_ne!(left.intervals(), right.intervals());
        }
    }
}

#[test]
fn lookup_finds_each_kind_by_its_pattern() {
    for kind in kinds() {
        assert_eq!(Chord::lookup(&kind.intervals()), Some(kind));
    }
}

#[test]
fn lookup_of_an_unknown_pattern_is_none() {
    assert_eq!(Chord::lookup(&[]), None);
    assert_eq!(Chord::lookup(&[0]), None);
    assert_eq!(Chord::lookup(&[0, 4]), None);
    assert_eq!(Chord::lookup(&[0, 1, 2]), None);
    assert_eq!(Chord::lookup(&[4, 7, 0]), None);
    assert_eq!(Chord::lookup(&[0, 4, 7, 10, 2]), None);
    assert_eq!(Chord::lookup(&[0, 2, 4, 5, 7]), None);
}

#[test]
fn the_table_holds_every_kind_in_order() {
    let table = Chord::all();
    assert_eq!(table.len(), 15);
    for (i, (pattern, kind)) in table.iter().enumerate() {
        assert_eq!(Chord::from_repr(i), Some(*kind));
        assert_eq!(*pattern, kind.intervals());
    }
}

#[test]
fn short_names_of_the_kinds() {
    let names: Vec<&str> = kinds().iter().map(|k| k.short_name()).collect();
    assert_eq!(
        names,
        vec![
            "M", "m", "o", "+", "s2", "s4", "7", "M7", "m7", "mM7", "\u{c3}\u{b8}7", "o7", "+7",
            "+M7", "11"
        ]
    );
}

#[test]
fn nice_names_of_the_kinds() {
    let names: Vec<&str> = kinds().iter().map(|k| k.nice_name()).collect();
    assert_eq!(
        names,
        vec![
            "major",
            "minor",
            "dim",
            "aug",
            "sus2",
            "sus4",
            "7",
            "major7",
            "minor7",
            "minor major7",
            "half dim7",
            "dim7",
            "aug7",
            "aug major7",
            "11"
        ]
    );
}

#[test]
fn notes_of_a_chord_on_a_root() {
    assert_eq!(Chord::Major.get_notes(Note(0)), vec![Note(0), Note(4), Note(7)]);
    assert_eq!(Chord::Minor.get_notes(Note(9)), vec![Note(9), Note(0), Note(4)]);
    assert_eq!(
        Chord::Dominant7.get_notes(Note(7)),
        vec![Note(7), Note(11), Note(2), Note(5)]
    );
    assert_eq!(Chord::Major.get_notes(Note(12)), vec![Note(0), Note(4), Note(7)]);
    assert_eq!(Chord::Major.get_notes(Note(255)), vec![Note(3), Note(7), Note(10)]);
}

#[test]
fn notes_of_a_chord_are_its_root_transposed() {
    for kind in kinds() {
        for root in 0..12u8 {
            let expected: Vec<Note> = kind
                .intervals()
                .iter()
                .map(|&offset| Note(root).transpose(offset as i32))
                .collect();
            assert_eq!(kind.get_notes(Note(root)), expected);
        }
    }
}

#[test]
fn same_pattern_compares_element_by_element() {
    assert!(same_pattern(&[0, 4, 7], &[0, 4, 7]));
    assert!(same_pattern(&[], &[]));
    assert!(!same_pattern(&[0, 4, 7], &[0, 4, 8]));
    assert!(!same_pattern(&[0, 4, 7], &[0, 4, 7, 10]));
    assert!(!same_pattern(&[0, 4, 7, 10], &[0, 4, 7]));
}
