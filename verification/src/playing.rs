//! The notes that sound at one time: the text that is shown for them, and how
//! loud each pitch class is.

use crate::chord::Chord;
use crate::cluster::{
    lemma_count_after_push, lemma_count_in_empty, note_names, pitch_count, Cluster,
};
use crate::note::{notes_of, pitch_name, Note};
use crate::recognize::{ascending, distinct_pitches, pitch_set, recognize, spec_recognize};
use crate::trusted::{count_each, joined_text};
use std::collections::HashMap;
use vstd::prelude::*;

verus! {

/// The title for a chord: the name of its root, a space, and the kind's name.
pub open spec fn chord_title(root: Note, kind: Chord) -> Seq<char> {
    pitch_name(root.pitch()) + " "@ + kind.spec_nice_name()
}

/// The names of the pitch classes among `notes`, each once, in ascending
/// order, with a space between each two.
pub open spec fn distinct_names(notes: Seq<Note>) -> Seq<char> {
    joined_text(note_names(notes_of(ascending(pitch_set(notes)))), " "@)
}

/// The two lines of text for the notes that sound.
///
/// Where they form a chord, the first line names it and the second lists the
/// notes; where they do not, the first line lists the notes and the second is
/// empty. The notes are listed by pitch class, each once, in ascending order.
pub fn playing_text(notes: &[Note]) -> (lines: (String, String))
    ensures
        match spec_recognize(pitch_set(notes@)) {
            Some((root, kind)) => lines.0@ == chord_title(root, kind) && lines.1@
                == distinct_names(notes@),
            None => lines.0@ == distinct_names(notes@) && lines.1@ == Seq::<char>::empty(),
        },
{
    let distinct = distinct_pitches(notes);
    let mut sounding: Vec<Note> = Vec::new();
    let mut i: usize = 0;
    while i < distinct.len()
        invariant
            0 <= i <= distinct@.len(),
            sounding@.len() == i,
            forall|j: int| 0 <= j < i ==> sounding@[j] == Note(distinct@[j]),
        decreases distinct@.len() - i,
    {
        sounding.push(Note(distinct[i]));
        i += 1;
    }
    assert(sounding@ =~= notes_of(distinct@));
    let listed = Cluster::from_notes(sounding).get_notes_text();
    match recognize(notes) {
        Some((root, kind)) => {
            let mut title = String::from_str(root.get_name());
            title.append(" ");
            title.append(kind.nice_name());
            (title, listed)
        },
        None => (listed, String::new()),
    }
}

/// How often each pitch class occurs among `notes`: twelve counts, by
/// ascending pitch class. The loudness of a pitch class is its count as a
/// share of all notes.
pub fn pitch_counts(notes: &[Note]) -> (counts: Vec<usize>)
    ensures
        counts@.len() == 12,
        forall|pitch: u8| pitch < 12 ==> counts@[pitch as int] == #[trigger] pitch_count(notes@, pitch),
{
    let mut raw: Vec<u8> = Vec::new();
    let mut k: usize = 0;
    proof {
        assert(notes@.take(0) =~= Seq::empty());
        assert forall|pitch: u8|
            raw@.to_multiset().count(pitch) == #[trigger] pitch_count(notes@.take(0), pitch) by {
            lemma_count_in_empty(raw@, pitch);
        }
    }
    while k < notes.len()
        invariant
            0 <= k <= notes@.len(),
            forall|pitch: u8|
                raw@.to_multiset().count(pitch) == #[trigger] pitch_count(
                    notes@.take(k as int),
                    pitch,
                ),
        decreases notes@.len() - k,
    {
        proof {
            assert(notes@.take(k + 1).drop_last() =~= notes@.take(k as int));
            assert forall|pitch: u8|
                raw@.push(notes@[k as int].pitch()).to_multiset().count(pitch)
                    == #[trigger] pitch_count(notes@.take(k + 1), pitch) by {
                lemma_count_after_push(raw@, notes@[k as int].pitch(), pitch);
                assert(raw@.to_multiset().count(pitch) == pitch_count(
                    notes@.take(k as int),
                    pitch,
                ));
            }
        }
        raw.push(notes[k].pitch_class());
        k += 1;
    }
    proof {
        assert(notes@.take(k as int) =~= notes@);
        raw@.to_multiset_ensures();
    }
    let ghost raw_seq = raw@;
    let seen: HashMap<u8, usize> = count_each(raw);
    let mut counts: Vec<usize> = Vec::new();
    let mut pitch: u8 = 0;
    while pitch < 12
        invariant
            0 <= pitch <= 12,
            counts@.len() == pitch,
            forall|p: u8| raw_seq.to_multiset().count(p) == #[trigger] pitch_count(notes@, p),
            forall|v: u8| #[trigger] seen@.contains_key(v) <==> raw_seq.contains(v),
            forall|v: u8|
                seen@.contains_key(v) ==> #[trigger] seen@[v] == raw_seq.to_multiset().count(v),
            forall|v: u8| raw_seq.contains(v) <==> raw_seq.to_multiset().count(v) > 0,
            forall|p: u8| p < pitch ==> counts@[p as int] == #[trigger] pitch_count(notes@, p),
        decreases 12 - pitch,
    {
        match seen.get(&pitch) {
            Some(count) => {
                counts.push(*count);
            },
            None => {
                counts.push(0);
            },
        }
        pitch += 1;
    }
    counts
}

} // verus!
