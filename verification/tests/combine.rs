use chord_fusion::cluster::Cluster;
use chord_fusion::note::Note;

fn cluster_of(pitches: &[u8]) -> Cluster {
    Cluster::from_notes(pitches.iter().map(|&p| Note(p)).collect())
}

fn pitch_totals(clusters: &[Cluster]) -> [usize; 12] {
    let mut totals = [0usize; 12];
    for cluster in clusters {
        for note in cluster.as_slice() {
            totals[(note.0 % 12) as usize] += 1;
        }
    }
    totals
}

#[test]
fn combine_of_nothing_is_nothing() {
    let merged = Cluster::combine(&Vec::new());
    assert_eq!(merged, Vec::<Cluster>::new());
}

#[test]
fn combine_of_one_single_note_gives_it_back() {
    let merged = Cluster::combine(&vec![Cluster::single(Note(0))]);
    assert_eq!(merged, vec![cluster_of(&[0])]);
}

#[test]
fn combine_of_one_chord_gives_it_back() {
    let merged = Cluster::combine(&vec![cluster_of(&[0, 4, 7])]);
    assert_eq!(merged, vec![cluster_of(&[0, 4, 7])]);
}

#[test]
fn combine_lets_a_doubled_note_fall_out() {
    let merged = Cluster::combine(&vec![cluster_of(&[0, 4, 7]), cluster_of(&[0])]);
    assert_eq!(merged, vec![cluster_of(&[0]), cluster_of(&[0]), cluster_of(&[4, 7])]);
}

#[test]
fn combine_keeps_distinct_notes_together() {
    let merged = Cluster::combine(&vec![cluster_of(&[0, 4, 7]), cluster_of(&[2, 5, 9])]);
    assert_eq!(merged, vec![cluster_of(&[0, 2, 4, 5, 7, 9])]);
}

#[test]
fn combine_breaks_up_the_full_chromatic_set() {
    let singles: Vec<Cluster> = (0..12u8).map(|p| Cluster::single(Note(p))).collect();
    let merged = Cluster::combine(&singles);
    assert_eq!(merged.len(), 12);
    assert_eq!(merged, singles);
}

#[test]
fn combine_keeps_eleven_distinct_notes_together() {
    let singles: Vec<Cluster> = (0..11u8).map(|p| Cluster::single(Note(p))).collect();
    let merged = Cluster::combine(&singles);
    assert_eq!(merged, vec![cluster_of(&[0, 1, 2, 3, 4, 5, 6, 7, 8, 9, 10])]);
}

#[test]
fn combine_emits_an_empty_remainder() {
    let merged = Cluster::combine(&vec![cluster_of(&[0]), cluster_of(&[0])]);
    assert_eq!(merged, vec![cluster_of(&[0]), cluster_of(&[0]), cluster_of(&[])]);
}

#[test]
fn combine_of_an_empty_cluster_is_an_empty_cluster() {
    let merged = Cluster::combine(&vec![cluster_of(&[])]);
    assert_eq!(merged, vec![cluster_of(&[])]);
}

#[test]
fn combine_breaks_up_doubles_inside_one_cluster() {
    let merged = Cluster::combine(&vec![cluster_of(&[4, 0, 4, 7, 4])]);
    assert_eq!(
        merged,
        vec![cluster_of(&[4]), cluster_of(&[4]), cluster_of(&[4]), cluster_of(&[0, 7])]
    );
}

#[test]
fn combine_orders_what_falls_out_by_pitch() {
    let merged = Cluster::combine(&vec![
        cluster_of(&[9, 2, 5]),
        cluster_of(&[5, 9, 0]),
        cluster_of(&[11]),
    ]);
    assert_eq!(
        merged,
        vec![
            cluster_of(&[5]),
            cluster_of(&[5]),
            cluster_of(&[9]),
            cluster_of(&[9]),
            cluster_of(&[0, 2, 11])
        ]
    );
}

#[test]
fn combine_counts_by_pitch_class() {
    let merged = Cluster::combine(&vec![cluster_of(&[12, 4]), cluster_of(&[0, 19])]);
    assert_eq!(merged, vec![cluster_of(&[0]), cluster_of(&[0]), cluster_of(&[4, 7])]);
}

#[test]
fn combine_loses_no_note_and_adds_none() {
    let inputs: Vec<Vec<Cluster>> = vec![
        vec![cluster_of(&[0, 4, 7]), cluster_of(&[0])],
        vec![cluster_of(&[0, 4, 7]), cluster_of(&[2, 5, 9])],
        vec![cluster_of(&[1, 1, 1]), cluster_of(&[1, 2]), cluster_of(&[])],
        (0..12u8).map(|p| Cluster::single(Note(p))).collect(),
        vec![cluster_of(&[0, 1, 2, 3, 4, 5, 6, 7, 8, 9, 10, 11, 0])],
    ];
    for input in inputs {
        let merged = Cluster::combine(&input);
        assert_eq!(pitch_totals(&merged), pitch_totals(&input));
    }
}
