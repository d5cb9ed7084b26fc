use chord_fusion::chord::Chord;
use chord_fusion::note::Note;
use chord_fusion::objective::{all_complete, Objective};

#[test]
fn an_objective_without_filter_accepts_any_chord() {
    let objective = Objective::new(None);
    assert!(objective.accepts(Some((Note(0), Chord::Major))));
    assert!(objective.accepts(Some((Note(5), Chord::Diminished7))));
    assert!(!objective.accepts(None));
}

#[test]
fn an_objective_with_filter_accepts_only_its_kind() {
    let objective = Objective::new(Some(Chord::Minor));
    assert!(objective.accepts(Some((Note(0), Chord::Minor))));
    assert!(objective.accepts(Some((Note(9), Chord::Minor))));
    assert!(!objective.accepts(Some((Note(0), Chord::Major))));
    assert!(!objective.accepts(None));
}

#[test]
fn a_complete_objective_is_not_excited() {
    let mut objective = Objective::new(Some(Chord::Major));
    assert!(objective.is_excited(Some((Note(0), Chord::Major))));
    assert!(!objective.is_excited(Some((Note(0), Chord::Minor))));
    assert!(!objective.is_excited(None));
    objective.is_complete = true;
    assert!(!objective.is_excited(Some((Note(0), Chord::Major))));
}

#[test]
fn offering_the_right_chord_completes_an_objective() {
    let mut objective = Objective::new(Some(Chord::Major));
    assert!(!objective.offer(None));
    assert!(!objective.is_complete);
    assert!(!objective.offer(Some((Note(0), Chord::Minor))));
    assert!(!objective.is_complete);
    assert!(objective.offer(Some((Note(0), Chord::Major))));
    assert!(objective.is_complete);
    assert!(!objective.offer(Some((Note(0), Chord::Major))));
    assert!(objective.is_complete);
    assert_eq!(objective.filter, Some(Chord::Major));
}

#[test]
fn releasing_opens_an_objective_again() {
    let mut objective = Objective::new(None);
    assert!(objective.offer(Some((Note(3), Chord::Augmented))));
    objective.release();
    assert_eq!(objective, Objective::new(None));
    assert!(objective.offer(Some((Note(3), Chord::Augmented))));
}

#[test]
fn the_label_of_an_objective() {
    assert_eq!(Objective::new(Some(Chord::MinorMajor7)).label(), "minor major7");
    assert_eq!(Objective::new(None).label(), "");
}

#[test]
fn a_level_is_won_when_all_objectives_are_complete() {
    let open = Objective::new(None);
    let mut done = Objective::new(Some(Chord::Major));
    done.is_complete = true;
    assert!(all_complete(&[]));
    assert!(all_complete(&[done]));
    assert!(all_complete(&[done, done]));
    assert!(!all_complete(&[open]));
    assert!(!all_complete(&[done, open]));
    assert!(!all_complete(&[open, done]));
}
