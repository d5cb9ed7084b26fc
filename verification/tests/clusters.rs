use chord_fusion::chord::Chord;
use chord_fusion::cluster::{Cluster, ClusterDrawMode};
use chord_fusion::note::Note;

fn cluster_of(pitches: &[u8]) -> Cluster {
    Cluster::from_notes(pitches.iter().map(|&p| Note(p)).collect())
}

#[test]
fn a_cluster_keeps_its_notes_in_order() {
    let cluster = cluster_of(&[7, 0, 4, 0, 11, 2]);
    assert_eq!(
        cluster.as_slice().to_vec(),
        vec![Note(7), Note(0), Note(4), Note(0), Note(11), Note(2)]
    );
    assert_eq!(cluster.len(), 6);
    assert_eq!(cluster_of(&[]).len(), 0);
}

#[test]
fn a_cluster_of_one_note() {
    assert_eq!(Cluster::single(Note(5)).as_slice().to_vec(), vec![Note(5)]);
    assert_eq!(Cluster::from(Note(5)), Cluster::single(Note(5)));
    assert_eq!(Cluster::from(Note(5)), cluster_of(&[5]));
}

#[test]
fn a_clone_holds_the_same_notes() {
    let cluster = cluster_of(&[0, 4, 7, 10, 2]);
    assert_eq!(cluster.clone(), cluster);
    assert_eq!(cluster.clone().as_slice().to_vec(), cluster.as_slice().to_vec());
}

#[test]
fn chord_of_a_cluster() {
    assert_eq!(cluster_of(&[0, 4, 7]).get_chord(), Some((Note(0), Chord::Major)));
    assert_eq!(cluster_of(&[7, 4, 0, 4]).get_chord(), Some((Note(0), Chord::Major)));
    assert_eq!(cluster_of(&[0, 4]).get_chord(), None);
}

#[test]
fn chord_name_of_c_major() {
    assert_eq!(cluster_of(&[0, 4, 7]).get_chord_name(), Some("Cmajor".to_string()));
}

#[test]
fn chord_name_is_root_then_kind() {
    assert_eq!(cluster_of(&[9, 0, 4]).get_chord_name(), Some("Aminor".to_string()));
    assert_eq!(cluster_of(&[7, 11, 2, 5]).get_chord_name(), Some("G7".to_string()));
    assert_eq!(cluster_of(&[1, 4, 7, 11]).get_chord_name(), Some("C#half dim7".to_string()));
    assert_eq!(
        cluster_of(&[6, 10, 2, 5]).get_chord_name(),
        Some("F#aug major7".to_string())
    );
}

#[test]
fn chord_name_of_no_chord_is_none() {
    assert_eq!(cluster_of(&[0]).get_chord_name(), None);
    assert_eq!(cluster_of(&[0, 1, 2]).get_chord_name(), None);
    assert_eq!(cluster_of(&[0, 4, 7, 11, 2]).get_chord_name(), None);
}

#[test]
fn notes_text_joins_the_names_in_order() {
    assert_eq!(cluster_of(&[0, 4, 7]).get_notes_text(), "C E G");
    assert_eq!(cluster_of(&[7, 0, 4, 0]).get_notes_text(), "G C E C");
    assert_eq!(cluster_of(&[6]).get_notes_text(), "F#");
    assert_eq!(cluster_of(&[]).get_notes_text(), "");
}

#[test]
fn draw_mode_of_a_single_note() {
    assert_eq!(
        Cluster::single(Note(4)).get_draw_mode(true),
        ClusterDrawMode::FillNote(Note(4))
    );
    assert_eq!(Cluster::single(Note(4)).get_draw_mode(false), ClusterDrawMode::FillNone);
}

#[test]
fn draw_mode_of_several_notes() {
    assert_eq!(cluster_of(&[0, 4]).get_draw_mode(true), ClusterDrawMode::FillChord);
    assert_eq!(cluster_of(&[0, 4]).get_draw_mode(false), ClusterDrawMode::StrokeChord);
    assert_eq!(cluster_of(&[]).get_draw_mode(true), ClusterDrawMode::FillChord);
    assert_eq!(cluster_of(&[]).get_draw_mode(false), ClusterDrawMode::StrokeChord);
}

#[test]
fn deconstruct_takes_a_chord_apart() {
    assert_eq!(
        cluster_of(&[7, 0, 4]).deconstruct(),
        Some(vec![cluster_of(&[7]), cluster_of(&[0]), cluster_of(&[4])])
    );
    assert_eq!(
        cluster_of(&[0, 0]).deconstruct(),
        Some(vec![cluster_of(&[0]), cluster_of(&[0])])
    );
}

#[test]
fn deconstruct_leaves_a_single_note() {
    assert_eq!(cluster_of(&[7]).deconstruct(), None);
    assert_eq!(cluster_of(&[]).deconstruct(), None);
}
