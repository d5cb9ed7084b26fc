//! Clusters: the notes that sound together as one body, and the rule by which
//! colliding clusters merge.

use crate::chord::Chord;
use crate::note::{pitch_name, Note};
use crate::recognize::{pitch_set, recognize, spec_recognize};
use crate::trusted::{
    cluster_as_slice, cluster_from_vec, count_each, held_notes, join_texts, joined_text,
};
use smallvec::SmallVec;
use std::collections::HashMap;
use vstd::prelude::*;

verus! {

/// An unordered collection of notes in which a pitch class may occur more than
/// once. The notes are kept in a small vector; their order is that in which
/// they are listed for display.
#[verifier::external_body]
#[derive(PartialEq, Eq, PartialOrd, Ord, Debug)]
pub struct Cluster {
    pub(crate) notes: SmallVec<[Note; 4]>,
}

impl View for Cluster {
    type V = Seq<Note>;

    open spec fn view(&self) -> Seq<Note> {
        held_notes(*self)
    }
}

impl Clone for Cluster {
    fn clone(&self) -> (copy: Cluster)
        ensures
            copy@ == self@,
    {
        let notes = cluster_as_slice(self);
        let mut copied: Vec<Note> = Vec::new();
        let mut i: usize = 0;
        while i < notes.len()
            invariant
                0 <= i <= notes@.len(),
                copied@ == notes@.take(i as int),
            decreases notes@.len() - i,
        {
            copied.push(notes[i]);
            assert(notes@.take(i + 1) =~= notes@.take(i as int).push(notes@[i as int]));
            i += 1;
        }
        assert(notes@.take(notes@.len() as int) =~= notes@);
        cluster_from_vec(copied)
    }
}

impl From<Note> for Cluster {
    /// The cluster of the one note `val`.
    fn from(val: Note) -> (cluster: Cluster)
        ensures
            cluster@ == seq![val],
    {
        Cluster::single(val)
    }
}

/// A cluster is known by the notes it holds, so none can be named as the one
/// that `from` gives: what it gives is stated on `from` itself.
impl vstd::std_specs::convert::FromSpecImpl<Note> for Cluster {
    open spec fn obeys_from_spec() -> bool {
        false
    }

    open spec fn from_spec(v: Note) -> Cluster {
        choose|cluster: Cluster| cluster@ == seq![v]
    }
}

/// How a cluster is drawn.
#[derive(Clone, Copy, PartialEq, Eq, Hash, Debug, Structural)]
pub enum ClusterDrawMode {
    /// Filled with the dark colour of the one note it holds.
    FillNote(Note),
    /// Filled with no colour at all.
    FillNone,
    /// Filled with the colour of chords.
    FillChord,
    /// Outlined in the colour of chords.
    StrokeChord,
}

impl Cluster {
    /// The cluster of `notes`, in that order.
    pub fn from_notes(notes: Vec<Note>) -> (cluster: Cluster)
        ensures
            cluster@ == notes@,
    {
        cluster_from_vec(notes)
    }

    /// The cluster of the one note `note`.
    pub fn single(note: Note) -> (cluster: Cluster)
        ensures
            cluster@ == seq![note],
    {
        let mut notes: Vec<Note> = Vec::new();
        notes.push(note);
        assert(notes@ =~= seq![note]);
        cluster_from_vec(notes)
    }

    /// The notes of the cluster, in order.
    pub fn as_slice(&self) -> (notes: &[Note])
        ensures
            notes@ == self@,
    {
        cluster_as_slice(self)
    }

    /// How many notes the cluster holds.
    pub fn len(&self) -> (count: usize)
        ensures
            count == self@.len(),
    {
        cluster_as_slice(self).len()
    }

    /// How the cluster is drawn while it sounds (`playing`) and while it does
    /// not: a single note by its own colour, anything else as a chord.
    pub fn get_draw_mode(&self, playing: bool) -> (mode: ClusterDrawMode)
        ensures
            mode == if self@.len() == 1 {
                if playing {
                    ClusterDrawMode::FillNote(self@[0])
                } else {
                    ClusterDrawMode::FillNone
                }
            } else {
                if playing {
                    ClusterDrawMode::FillChord
                } else {
                    ClusterDrawMode::StrokeChord
                }
            },
    {
        let notes = cluster_as_slice(self);
        if notes.len() == 1 {
            if playing {
                ClusterDrawMode::FillNote(notes[0])
            } else {
                ClusterDrawMode::FillNone
            }
        } else {
            if playing {
                ClusterDrawMode::FillChord
            } else {
                ClusterDrawMode::StrokeChord
            }
        }
    }

    /// The chord that the notes of the cluster form, by root and kind.
    pub fn get_chord(&self) -> (found: Option<(Note, Chord)>)
        ensures
            found == spec_recognize(pitch_set(self@)),
    {
        recognize(cluster_as_slice(self))
    }

    /// The name of the chord that the notes of the cluster form: the name of
    /// the root, then at once the kind's name. `None` where they form none.
    pub fn get_chord_name(&self) -> (label: Option<String>)
        ensures
            chord_label(spec_recognize(pitch_set(self@))) == match label {
                Some(text) => Some(text@),
                None => None,
            },
    {
        match recognize(cluster_as_slice(self)) {
            Some((root, kind)) => {
                let mut text = String::from_str(root.get_name());
                text.append(kind.nice_name());
                Some(text)
            },
            None => None,
        }
    }

    /// The names of the notes in the order of the cluster, with a space
    /// between each two.
    pub fn get_notes_text(&self) -> (text: String)
        ensures
            text@ == joined_text(note_names(self@), " "@),
    {
        let notes = cluster_as_slice(self);
        let mut names: Vec<&'static str> = Vec::new();
        let mut i: usize = 0;
        while i < notes.len()
            invariant
                0 <= i <= notes@.len(),
                names@.len() == i,
                forall|j: int| 0 <= j < i ==> (#[trigger] names@[j])@ == pitch_name(notes@[j].pitch()),
            decreases notes@.len() - i,
        {
            names.push(notes[i].get_name());
            i += 1;
        }
        assert(names@.map_values(|part: &'static str| part@) =~= note_names(self@));
        join_texts(&names, " ")
    }

    /// What becomes of the cluster when it is taken apart: a cluster of more
    /// than one note falls into its notes, each a cluster of its own, in
    /// order; a cluster of one note or none stays as it is, which `None` says.
    pub fn deconstruct(&self) -> (parts: Option<Vec<Cluster>>)
        ensures
            self@.len() <= 1 ==> parts is None,
            self@.len() > 1 ==> parts is Some && cluster_views(parts->0@) == Seq::new(
                self@.len(),
                |i: int| seq![self@[i]],
            ),
    {
        let notes = cluster_as_slice(self);
        if notes.len() <= 1 {
            return None;
        }
        let mut parts: Vec<Cluster> = Vec::new();
        let mut i: usize = 0;
        assert(cluster_views(parts@) =~= Seq::new(0, |j: int| seq![notes@[j]]));
        while i < notes.len()
            invariant
                0 <= i <= notes@.len(),
                cluster_views(parts@) == Seq::new(i as nat, |j: int| seq![notes@[j]]),
            decreases notes@.len() - i,
        {
            proof {
                lemma_views_push(parts@, seq![notes@[i as int]]);
            }
            parts.push(Cluster::single(notes[i]));
            assert(cluster_views(parts@) =~= Seq::new((i + 1) as nat, |j: int| seq![notes@[j]]));
            i += 1;
        }
        Some(parts)
    }

    /// What becomes of `clusters` when they collide.
    ///
    /// The notes of all of them are counted by pitch class. A pitch class
    /// that occurs more than once falls out: each of its occurrences becomes
    /// a cluster of its own. These come first, by ascending pitch class. The
    /// pitch classes that occur once stay together as one cluster, in
    /// ascending order, and that cluster comes last, also where it is empty.
    /// Where all twelve pitch classes occur once, they too fall apart into
    /// twelve single notes. No clusters at all give none.
    pub fn combine(clusters: &Vec<Cluster>) -> (merged: Vec<Cluster>)
        ensures
            cluster_views(merged@) == spec_combine(cluster_views(clusters@)),
    {
        let ghost groups = cluster_views(clusters@);
        let mut merged: Vec<Cluster> = Vec::new();
        if clusters.len() == 0 {
            assert(cluster_views(merged@) =~= Seq::empty());
            return merged;
        }
        let mut flat: Vec<u8> = Vec::new();
        let mut g: usize = 0;
        proof {
            assert forall|pitch: u8|
                flat@.to_multiset().count(pitch) == #[trigger] total_count(
                    groups.take(0),
                    pitch,
                ) by {
                lemma_count_in_empty(flat@, pitch);
            }
        }
        while g < clusters.len()
            invariant
                groups == cluster_views(clusters@),
                0 <= g <= clusters@.len(),
                forall|pitch: u8|
                    flat@.to_multiset().count(pitch) == #[trigger] total_count(
                        groups.take(g as int),
                        pitch,
                    ),
            decreases clusters@.len() - g,
        {
            let notes = cluster_as_slice(&clusters[g]);
            let mut k: usize = 0;
            while k < notes.len()
                invariant
                    groups == cluster_views(clusters@),
                    0 <= g < clusters@.len(),
                    notes@ == groups[g as int],
                    0 <= k <= notes@.len(),
                    forall|pitch: u8|
                        flat@.to_multiset().count(pitch) == #[trigger] total_count(
                            groups.take(g as int),
                            pitch,
                        ) + pitch_count(notes@.take(k as int), pitch),
                decreases notes@.len() - k,
            {
                proof {
                    assert(notes@.take(k + 1).drop_last() =~= notes@.take(k as int));
                    assert forall|pitch: u8|
                        flat@.push(notes@[k as int].pitch()).to_multiset().count(pitch)
                            == #[trigger] total_count(groups.take(g as int), pitch) + pitch_count(
                            notes@.take(k + 1),
                            pitch,
                        ) by {
                        lemma_count_after_push(flat@, notes@[k as int].pitch(), pitch);
                    }
                }
                flat.push(notes[k].pitch_class());
                k += 1;
            }
            proof {
                assert(notes@.take(k as int) =~= notes@);
                assert(groups.take(g + 1).drop_last() =~= groups.take(g as int));
                assert forall|pitch: u8|
                    flat@.to_multiset().count(pitch) == #[trigger] total_count(
                        groups.take(g + 1),
                        pitch,
                    ) by {
                    assert(total_count(groups.take(g + 1), pitch) == total_count(
                        groups.take(g as int),
                        pitch,
                    ) + pitch_count(notes@, pitch));
                }
            }
            g += 1;
        }
        proof {
            assert(groups.take(g as int) =~= groups);
            flat@.to_multiset_ensures();
        }
        let ghost flat_seq = flat@;
        let counts: HashMap<u8, usize> = count_each(flat);
        let mut rest: Vec<Note> = Vec::new();
        let mut pitch: u8 = 0;
        while pitch < 12
            invariant
                0 <= pitch <= 12,
                forall|p: u8| flat_seq.to_multiset().count(p) == #[trigger] total_count(groups, p),
                forall|v: u8| #[trigger] counts@.contains_key(v) <==> flat_seq.contains(v),
                forall|v: u8|
                    counts@.contains_key(v) ==> #[trigger] counts@[v]
                        == flat_seq.to_multiset().count(v),
                forall|v: u8| flat_seq.contains(v) <==> flat_seq.to_multiset().count(v) > 0,
                cluster_views(merged@) == fallen_out(groups, pitch as nat),
                rest@ == remainder(groups, pitch as nat),
            decreases 12 - pitch,
        {
            let ghost before = cluster_views(merged@);
            match counts.get(&pitch) {
                Some(seen) => {
                    let count: usize = *seen;
                    if count == 1 {
                        rest.push(Note(pitch));
                    } else {
                        let mut made: usize = 0;
                        while made < count
                            invariant
                                0 <= made <= count,
                                cluster_views(merged@) == before + Seq::new(
                                    made as nat,
                                    |i: int| seq![Note(pitch)],
                                ),
                            decreases count - made,
                        {
                            proof {
                                lemma_views_push(merged@, seq![Note(pitch)]);
                            }
                            merged.push(Cluster::single(Note(pitch)));
                            assert(cluster_views(merged@) =~= before + Seq::new(
                                (made + 1) as nat,
                                |i: int| seq![Note(pitch)],
                            ));
                            made += 1;
                        }
                    }
                },
                None => {},
            }
            pitch += 1;
        }
        if rest.len() >= 12 {
            let ghost before = cluster_views(merged@);
            let mut i: usize = 0;
            while i < rest.len()
                invariant
                    0 <= i <= rest@.len(),
                    cluster_views(merged@) == before + Seq::new(i as nat, |j: int| seq![rest@[j]]),
                decreases rest@.len() - i,
            {
                proof {
                    lemma_views_push(merged@, seq![rest@[i as int]]);
                }
                merged.push(Cluster::single(rest[i]));
                assert(cluster_views(merged@) =~= before + Seq::new(
                    (i + 1) as nat,
                    |j: int| seq![rest@[j]],
                ));
                i += 1;
            }
        } else {
            let ghost before = cluster_views(merged@);
            let ghost kept = rest@;
            proof {
                lemma_views_push(merged@, kept);
            }
            merged.push(Cluster::from_notes(rest));
            assert(cluster_views(merged@) =~= before.push(kept));
        }
        merged
    }
}

/// The notes of each of `clusters`, in order.
pub open spec fn cluster_views(clusters: Seq<Cluster>) -> Seq<Seq<Note>> {
    clusters.map_values(|cluster: Cluster| cluster@)
}

/// The display name of each of `notes`, in order.
pub open spec fn note_names(notes: Seq<Note>) -> Seq<Seq<char>> {
    notes.map_values(|note: Note| pitch_name(note.pitch()))
}

/// The label of a recognized chord: the name of its root, then at once the
/// kind's name.
pub open spec fn chord_label(found: Option<(Note, Chord)>) -> Option<Seq<char>> {
    match found {
        Some((root, kind)) => Some(pitch_name(root.pitch()) + kind.spec_nice_name()),
        None => None,
    }
}

/// Appending a cluster appends its notes to the views.
pub proof fn lemma_views_push(clusters: Seq<Cluster>, notes: Seq<Note>)
    ensures
        forall|added: Cluster|
            added@ == notes ==> #[trigger] cluster_views(clusters.push(added)) == cluster_views(
                clusters,
            ).push(notes),
{
    assert forall|added: Cluster| added@ == notes implies #[trigger] cluster_views(
        clusters.push(added),
    ) == cluster_views(clusters).push(notes) by {
        assert(cluster_views(clusters.push(added)) =~= cluster_views(clusters).push(notes));
    }
}

/// An empty sequence holds no value at all.
pub proof fn lemma_count_in_empty(values: Seq<u8>, v: u8)
    requires
        values.len() == 0,
    ensures
        values.to_multiset().count(v) == 0,
{
    values.to_multiset_ensures();
}

/// Appending a value raises its count by one and leaves the other counts.
pub proof fn lemma_count_after_push(values: Seq<u8>, added: u8, v: u8)
    ensures
        values.push(added).to_multiset().count(v) == values.to_multiset().count(v) + if v
            == added {
            1nat
        } else {
            0nat
        },
{
    values.to_multiset_ensures();
}

/// How many of `notes` have the pitch class `pitch`.
pub open spec fn pitch_count(notes: Seq<Note>, pitch: u8) -> nat
    decreases notes.len(),
{
    if notes.len() == 0 {
        0
    } else {
        pitch_count(notes.drop_last(), pitch) + if notes.last().pitch() == pitch {
            1nat
        } else {
            0nat
        }
    }
}

/// How many notes of all of `groups` together have the pitch class `pitch`.
pub open spec fn total_count(groups: Seq<Seq<Note>>, pitch: u8) -> nat
    decreases groups.len(),
{
    if groups.len() == 0 {
        0
    } else {
        total_count(groups.drop_last(), pitch) + pitch_count(groups.last(), pitch)
    }
}

/// The single notes that fall out of `groups` when they merge, for the pitch
/// classes below `bound`: each pitch class that occurs more than once, as
/// often as it occurs, by ascending pitch class.
pub open spec fn fallen_out(groups: Seq<Seq<Note>>, bound: nat) -> Seq<Seq<Note>>
    decreases bound,
{
    if bound == 0 {
        Seq::empty()
    } else {
        let lower = fallen_out(groups, (bound - 1) as nat);
        let pitch = (bound - 1) as u8;
        if total_count(groups, pitch) > 1 {
            lower + Seq::new(total_count(groups, pitch), |i: int| seq![Note(pitch)])
        } else {
            lower
        }
    }
}

/// The pitch classes below `bound` that occur exactly once in `groups`, in
/// ascending order.
pub open spec fn remainder(groups: Seq<Seq<Note>>, bound: nat) -> Seq<Note>
    decreases bound,
{
    if bound == 0 {
        Seq::empty()
    } else {
        let lower = remainder(groups, (bound - 1) as nat);
        let pitch = (bound - 1) as u8;
        if total_count(groups, pitch) == 1 {
            lower.push(Note(pitch))
        } else {
            lower
        }
    }
}

/// What `groups` merge into.
pub open spec fn spec_combine(groups: Seq<Seq<Note>>) -> Seq<Seq<Note>> {
    let rest = remainder(groups, 12);
    if groups.len() == 0 {
        Seq::empty()
    } else if rest.len() >= 12 {
        fallen_out(groups, 12) + Seq::new(rest.len(), |i: int| seq![rest[i]])
    } else {
        fallen_out(groups, 12).push(rest)
    }
}

/// The count in a sequence with one more group is the count before plus the
/// count in that group.
pub proof fn lemma_total_count_push(groups: Seq<Seq<Note>>, added: Seq<Note>, pitch: u8)
    ensures
        total_count(groups.push(added), pitch) == total_count(groups, pitch) + pitch_count(
            added,
            pitch,
        ),
{
    assert(groups.push(added).drop_last() =~= groups);
}

/// The count in two sequences of groups, one after the other, is the sum of
/// the counts in each.
pub proof fn lemma_total_count_add(left: Seq<Seq<Note>>, right: Seq<Seq<Note>>, pitch: u8)
    ensures
        total_count(left + right, pitch) == total_count(left, pitch) + total_count(right, pitch),
    decreases right.len(),
{
    if right.len() == 0 {
        assert(left + right =~= left);
    } else {
        lemma_total_count_add(left, right.drop_last(), pitch);
        assert((left + right).drop_last() =~= left + right.drop_last());
    }
}

/// The count in a single note is one for its own pitch class and none for
/// any other.
pub proof fn lemma_pitch_count_single(note: Note, pitch: u8)
    ensures
        pitch_count(seq![note], pitch) == if note.pitch() == pitch {
            1nat
        } else {
            0nat
        },
{
    assert(seq![note].drop_last() =~= Seq::<Note>::empty());
    assert(pitch_count(seq![note].drop_last(), pitch) == 0);
}

/// The count in `copies` single notes of one pitch class.
pub proof fn lemma_total_count_copies(note: Note, copies: nat, pitch: u8)
    ensures
        total_count(Seq::new(copies, |i: int| seq![note]), pitch) == if note.pitch() == pitch {
            copies
        } else {
            0nat
        },
    decreases copies,
{
    let singles = Seq::new(copies, |i: int| seq![note]);
    if copies > 0 {
        lemma_total_count_copies(note, (copies - 1) as nat, pitch);
        lemma_pitch_count_single(note, pitch);
        assert(singles.drop_last() =~= Seq::new((copies - 1) as nat, |i: int| seq![note]));
    }
}

/// The count in the notes of a group, each taken alone, is the count in the
/// group.
pub proof fn lemma_total_count_apart(notes: Seq<Note>, pitch: u8)
    ensures
        total_count(Seq::new(notes.len(), |i: int| seq![notes[i]]), pitch) == pitch_count(
            notes,
            pitch,
        ),
    decreases notes.len(),
{
    let apart = Seq::new(notes.len(), |i: int| seq![notes[i]]);
    if notes.len() > 0 {
        let shorter = notes.drop_last();
        lemma_total_count_apart(shorter, pitch);
        lemma_pitch_count_single(notes.last(), pitch);
        assert(apart.drop_last() =~= Seq::new(shorter.len(), |i: int| seq![shorter[i]]));
        assert(apart.last() == seq![notes.last()]);
    }
}

/// No note has a pitch class of 12 or above.
pub proof fn lemma_no_count_outside(groups: Seq<Seq<Note>>, pitch: u8)
    requires
        pitch >= 12,
    ensures
        total_count(groups, pitch) == 0,
    decreases groups.len(),
{
    if groups.len() > 0 {
        lemma_no_count_outside(groups.drop_last(), pitch);
        lemma_no_pitch_outside(groups.last(), pitch);
    }
}

/// No note of a group has a pitch class of 12 or above.
pub proof fn lemma_no_pitch_outside(notes: Seq<Note>, pitch: u8)
    requires
        pitch >= 12,
    ensures
        pitch_count(notes, pitch) == 0,
    decreases notes.len(),
{
    if notes.len() > 0 {
        lemma_no_pitch_outside(notes.drop_last(), pitch);
    }
}

/// How often a pitch class occurs among the notes that fall out: as often as
/// it occurs in all, where that is more than once, and not at all otherwise.
pub proof fn lemma_fallen_out_count(groups: Seq<Seq<Note>>, bound: nat, pitch: u8)
    requires
        bound <= 12,
    ensures
        total_count(fallen_out(groups, bound), pitch) == if pitch < bound && total_count(
            groups,
            pitch,
        ) > 1 {
            total_count(groups, pitch)
        } else {
            0nat
        },
    decreases bound,
{
    if bound > 0 {
        let lower = fallen_out(groups, (bound - 1) as nat);
        let top = (bound - 1) as u8;
        lemma_fallen_out_count(groups, (bound - 1) as nat, pitch);
        if total_count(groups, top) > 1 {
            let singles = Seq::new(total_count(groups, top), |i: int| seq![Note(top)]);
            lemma_total_count_add(lower, singles, pitch);
            lemma_total_count_copies(Note(top), total_count(groups, top), pitch);
        }
    }
}

/// How often a pitch class occurs in the remainder: once where it occurs
/// once in all, and not at all otherwise.
pub proof fn lemma_remainder_count(groups: Seq<Seq<Note>>, bound: nat, pitch: u8)
    requires
        bound <= 12,
    ensures
        pitch_count(remainder(groups, bound), pitch) == if pitch < bound && total_count(
            groups,
            pitch,
        ) == 1 {
            1nat
        } else {
            0nat
        },
    decreases bound,
{
    if bound > 0 {
        let lower = remainder(groups, (bound - 1) as nat);
        let top = (bound - 1) as u8;
        lemma_remainder_count(groups, (bound - 1) as nat, pitch);
        if total_count(groups, top) == 1 {
            assert(lower.push(Note(top)).drop_last() =~= lower);
        }
    }
}

/// Merging loses no note and adds none: every pitch class occurs in what
/// comes out as often as in what went in.
pub proof fn lemma_combine_keeps_notes(groups: Seq<Seq<Note>>, pitch: u8)
    ensures
        total_count(spec_combine(groups), pitch) == total_count(groups, pitch),
{
    let rest = remainder(groups, 12);
    let fallen = fallen_out(groups, 12);
    if groups.len() > 0 {
        lemma_fallen_out_count(groups, 12, pitch);
        lemma_remainder_count(groups, 12, pitch);
        if pitch >= 12 {
            lemma_no_count_outside(groups, pitch);
        }
        if rest.len() >= 12 {
            let apart = Seq::new(rest.len(), |i: int| seq![rest[i]]);
            lemma_total_count_add(fallen, apart, pitch);
            lemma_total_count_apart(rest, pitch);
        } else {
            lemma_total_count_push(fallen, rest, pitch);
        }
    }
}

} // verus!
