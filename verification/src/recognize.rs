//! Chord recognition: from the notes that sound together to a root and a
//! chord kind.

use crate::chord::Chord;
use crate::note::Note;
use crate::trusted::{dedup_adjacent, sorted_ascending, without_repeats};
use vstd::prelude::*;

verus! {

/// Whether `pitch` is the pitch class of one of `notes`.
pub open spec fn has_pitch(notes: Seq<Note>, pitch: u8) -> bool {
    exists|i: int| 0 <= i < notes.len() && #[trigger] notes[i].pitch() == pitch
}

/// The pitch classes that occur among `notes`, however often and in whatever
/// order.
pub open spec fn pitch_set(notes: Seq<Note>) -> Set<u8> {
    Set::new(|pitch: u8| has_pitch(notes, pitch))
}

/// The members of `pitches` that are below `bound`, in ascending order.
pub open spec fn ascending_below(pitches: Set<u8>, bound: nat) -> Seq<u8>
    decreases bound,
{
    if bound == 0 {
        Seq::empty()
    } else {
        let lower = ascending_below(pitches, (bound - 1) as nat);
        if pitches.contains((bound - 1) as u8) {
            lower.push((bound - 1) as u8)
        } else {
            lower
        }
    }
}

/// The pitch classes of `pitches` in ascending order.
pub open spec fn ascending(pitches: Set<u8>) -> Seq<u8> {
    ascending_below(pitches, 12)
}

/// The position `position` on a circle of `len` places, for a position that
/// has gone round at most once.
pub open spec fn wrapped(position: int, len: int) -> int {
    if position < len {
        position
    } else {
        position - len
    }
}

/// How many semitones the pitch class of `to` lies above that of `from`.
pub open spec fn distance(from: u8, to: u8) -> u8 {
    ((to % 12 + 12 - from % 12) % 12) as u8
}

/// The interval pattern of `sorted` read from the note at `index`: the notes
/// from there on, then those before it, each as its distance above that note.
pub open spec fn rotation(sorted: Seq<u8>, index: int) -> Seq<u8> {
    Seq::new(
        sorted.len(),
        |j: int| distance(sorted[index], sorted[wrapped(index + j, sorted.len() as int)]),
    )
}

/// The first position at or after `from` whose rotation is a pattern of the
/// catalog, as the note there and the kind found.
pub open spec fn first_match(sorted: Seq<u8>, from: int) -> Option<(Note, Chord)>
    decreases sorted.len() - from,
{
    if from < 0 || from >= sorted.len() {
        None
    } else {
        match Chord::spec_lookup(rotation(sorted, from)) {
            Some(kind) => Some((Note(sorted[from]), kind)),
            None => first_match(sorted, from + 1),
        }
    }
}

/// The chord that a set of pitch classes forms: with three or four of them,
/// the lowest one from which the others spell a pattern of the catalog is the
/// root; otherwise there is none.
pub open spec fn spec_recognize(pitches: Set<u8>) -> Option<(Note, Chord)> {
    let sorted = ascending(pitches);
    if sorted.len() == 3 || sorted.len() == 4 {
        first_match(sorted, 0)
    } else {
        None
    }
}

/// The interval pattern of `notes` read from position `index`.
pub fn permute(notes: &[u8], index: usize) -> (pattern: Vec<u8>)
    requires
        index < notes@.len(),
    ensures
        pattern@ == rotation(notes@, index as int),
{
    let len = notes.len();
    let anchor: u8 = notes[index] % 12;
    let mut pattern: Vec<u8> = Vec::new();
    let mut j: usize = 0;
    while j < len
        invariant
            len == notes@.len(),
            index < len,
            anchor == notes@[index as int] % 12,
            0 <= j <= len,
            pattern@.len() == j,
            forall|k: int| 0 <= k < j ==> pattern@[k] == rotation(notes@, index as int)[k],
        decreases len - j,
    {
        let at: usize = if j < len - index {
            index + j
        } else {
            j - (len - index)
        };
        assert(at == wrapped(index + j, len as int));
        pattern.push((notes[at] % 12 + 12 - anchor) % 12);
        j += 1;
    }
    assert(pattern@ =~= rotation(notes@, index as int));
    pattern
}

/// The pitch classes that occur among `notes`, each once, in ascending
/// order.
pub fn distinct_pitches(notes: &[Note]) -> (distinct: Vec<u8>)
    ensures
        distinct@ == ascending(pitch_set(notes@)),
        pitch_set(notes@).finite(),
        distinct@.len() == pitch_set(notes@).len(),
{
    let mut raw: Vec<u8> = Vec::new();
    let mut k: usize = 0;
    while k < notes.len()
        invariant
            0 <= k <= notes@.len(),
            raw@.len() == k,
            forall|i: int| 0 <= i < k ==> raw@[i] == (#[trigger] notes@[i]).pitch(),
        decreases notes@.len() - k,
    {
        raw.push(notes[k].pitch_class());
        k += 1;
    }
    let ghost raw_seq = raw@;
    let sorted = sorted_ascending(raw);
    let ghost sorted_seq = sorted@;
    let distinct = dedup_adjacent(sorted);
    proof {
        let pitches = pitch_set(notes@);
        lemma_without_repeats(sorted_seq);
        raw_seq.to_multiset_ensures();
        sorted_seq.to_multiset_ensures();
        assert forall|pitch: u8| distinct@.contains(pitch) <==> (pitches.contains(pitch) && pitch
            < 12) by {
            if distinct@.contains(pitch) {
                assert(sorted_seq.contains(pitch));
                assert(sorted_seq.to_multiset().count(pitch) > 0);
                assert(raw_seq.to_multiset().count(pitch) > 0);
                assert(raw_seq.contains(pitch));
                let i = choose|i: int| 0 <= i < raw_seq.len() && raw_seq[i] == pitch;
                assert(notes@[i].pitch() == pitch);
                assert(has_pitch(notes@, pitch));
            }
            if pitches.contains(pitch) {
                assert(has_pitch(notes@, pitch));
                let i = choose|i: int| 0 <= i < notes@.len() && notes@[i].pitch() == pitch;
                assert(raw_seq[i] == pitch);
                assert(raw_seq.contains(pitch));
                assert(raw_seq.to_multiset().count(pitch) > 0);
                assert(sorted_seq.to_multiset().count(pitch) > 0);
                assert(sorted_seq.contains(pitch));
            }
        }
        lemma_ascending_unique(distinct@, pitches, 12);
        assert forall|pitch: u8| pitches.contains(pitch) implies pitch < 12 by {
            assert(has_pitch(notes@, pitch));
        }
        lemma_ascending_len(pitches);
    }
    distinct
}

/// The chord that `notes` form, by root and kind.
///
/// Only the pitch classes that occur count, not their order nor how often
/// each occurs. With three or four distinct pitch classes, each is tried as
/// the root in ascending order, and the first from which the others spell a
/// pattern of the catalog decides. With any other number, or where no root
/// fits, there is no chord.
pub fn recognize(notes: &[Note]) -> (found: Option<(Note, Chord)>)
    ensures
        found == spec_recognize(pitch_set(notes@)),
        pitch_set(notes@).len() != 3 && pitch_set(notes@).len() != 4 ==> found is None,
{
    let distinct = distinct_pitches(notes);
    let count = distinct.len();
    if count != 3 && count != 4 {
        return None;
    }
    let mut index: usize = 0;
    while index < count
        invariant
            count == distinct@.len(),
            count == 3 || count == 4,
            distinct@ == ascending(pitch_set(notes@)),
            distinct@.len() == pitch_set(notes@).len(),
            0 <= index <= count,
            first_match(distinct@, 0) == first_match(distinct@, index as int),
        decreases count - index,
    {
        let pattern = permute(distinct.as_slice(), index);
        match Chord::lookup(pattern.as_slice()) {
            Some(kind) => {
                return Some((Note(distinct[index]), kind));
            },
            None => {},
        }
        index += 1;
    }
    None
}

/// Whether each element of `values` is below the next.
pub open spec fn strictly_ascending(values: Seq<u8>) -> bool {
    forall|i: int, j: int| 0 <= i < j < values.len() ==> values[i] < values[j]
}

/// Cutting the repeats out of an ascending sequence leaves the same values,
/// each once, still ascending.
pub proof fn lemma_without_repeats(values: Seq<u8>)
    requires
        forall|i: int, j: int| 0 <= i < j < values.len() ==> values[i] <= values[j],
    ensures
        strictly_ascending(without_repeats(values)),
        forall|v: u8|
            #![trigger without_repeats(values).contains(v)]
            #![trigger values.contains(v)]
            without_repeats(values).contains(v) <==> values.contains(v),
        values.len() > 0 ==> without_repeats(values).len() > 0 && without_repeats(values).last()
            == values.last(),
    decreases values.len(),
{
    if values.len() > 0 {
        let shorter = values.drop_last();
        let front = without_repeats(shorter);
        let kept = without_repeats(values);
        lemma_without_repeats(shorter);
        assert forall|v: u8| kept.contains(v) <==> values.contains(v) by {
            if values.contains(v) {
                let i = choose|i: int| 0 <= i < values.len() && values[i] == v;
                if i < values.len() - 1 {
                    assert(shorter[i] == v);
                    assert(shorter.contains(v));
                    assert(front.contains(v));
                    let at = choose|at: int| 0 <= at < front.len() && front[at] == v;
                    assert(kept[at] == v);
                    assert(kept.contains(v));
                } else if values.len() >= 2 && values[values.len() - 2] == values.last() {
                    assert(shorter[values.len() - 2] == v);
                    assert(shorter.contains(v));
                    assert(front.contains(v));
                    assert(kept.contains(v));
                } else {
                    assert(kept[kept.len() - 1] == v);
                    assert(kept.contains(v));
                }
            }
            if kept.contains(v) {
                let at = choose|at: int| 0 <= at < kept.len() && kept[at] == v;
                if at < front.len() {
                    assert(front[at] == v);
                    assert(front.contains(v));
                    assert(shorter.contains(v));
                    let i = choose|i: int| 0 <= i < shorter.len() && shorter[i] == v;
                    assert(values[i] == v);
                    assert(values.contains(v));
                } else {
                    assert(values[values.len() - 1] == v);
                    assert(values.contains(v));
                }
            }
        }
        if !(values.len() >= 2 && values[values.len() - 2] == values.last()) {
            assert forall|i: int, j: int| 0 <= i < j < kept.len() implies kept[i] < kept[j] by {
                if j == kept.len() - 1 {
                    assert(front.contains(front[i]));
                    assert(shorter.contains(front[i]));
                    let at = choose|at: int| 0 <= at < shorter.len() && shorter[at] == front[i];
                    assert(values[at] <= values[values.len() - 2]);
                    assert(front.last() == shorter.last());
                } else {
                    assert(front[i] < front[j]);
                }
            }
        }
    }
}

/// The ascending listing of a set holds the members below the bound, each
/// once, in ascending order.
pub proof fn lemma_ascending_below(pitches: Set<u8>, bound: nat)
    requires
        bound <= 256,
    ensures
        strictly_ascending(ascending_below(pitches, bound)),
        forall|v: u8|
            #![trigger ascending_below(pitches, bound).contains(v)]
            #![trigger pitches.contains(v)]
            ascending_below(pitches, bound).contains(v) <==> (pitches.contains(v) && v < bound),
    decreases bound,
{
    if bound > 0 {
        let lower = ascending_below(pitches, (bound - 1) as nat);
        let listing = ascending_below(pitches, bound);
        let top = (bound - 1) as u8;
        lemma_ascending_below(pitches, (bound - 1) as nat);
        assert forall|v: u8| listing.contains(v) <==> (pitches.contains(v) && v < bound) by {
            if listing.contains(v) {
                let at = choose|at: int| 0 <= at < listing.len() && listing[at] == v;
                if at < lower.len() {
                    assert(lower[at] == v);
                    assert(lower.contains(v));
                }
            }
            if pitches.contains(v) && v < bound {
                if v == top {
                    assert(listing[listing.len() - 1] == v);
                } else {
                    assert(lower.contains(v));
                    let at = choose|at: int| 0 <= at < lower.len() && lower[at] == v;
                    assert(listing[at] == v);
                }
            }
        }
        assert forall|i: int, j: int| 0 <= i < j < listing.len() implies listing[i]
            < listing[j] by {
            if j < lower.len() {
                assert(lower[i] < lower[j]);
            } else {
                assert(lower.contains(lower[i]));
                assert(lower[i] < bound - 1);
                assert(listing[j] == top);
            }
        }
    }
}

/// A strictly ascending sequence that holds exactly the members of a set
/// below a bound is the ascending listing of that set.
pub proof fn lemma_ascending_unique(values: Seq<u8>, pitches: Set<u8>, bound: nat)
    requires
        bound <= 256,
        strictly_ascending(values),
        forall|v: u8|
            #![trigger values.contains(v)]
            #![trigger pitches.contains(v)]
            values.contains(v) <==> (pitches.contains(v) && v < bound),
    ensures
        values == ascending_below(pitches, bound),
    decreases bound,
{
    if bound == 0 {
        if values.len() > 0 {
            assert(values.contains(values[0]));
        }
        assert(values =~= ascending_below(pitches, bound));
    } else {
        let top = (bound - 1) as u8;
        if pitches.contains(top) {
            assert(values.contains(top));
            let at = choose|at: int| 0 <= at < values.len() && values[at] == top;
            assert(values.contains(values.last()));
            assert(at == values.len() - 1);
            let shorter = values.drop_last();
            assert forall|v: u8| shorter.contains(v) <==> (pitches.contains(v) && v < bound
                - 1) by {
                if shorter.contains(v) {
                    let i = choose|i: int| 0 <= i < shorter.len() && shorter[i] == v;
                    assert(values[i] == v);
                    assert(values.contains(v));
                    assert(values[i] < values[at]);
                }
                if pitches.contains(v) && v < bound - 1 {
                    assert(values.contains(v));
                    let i = choose|i: int| 0 <= i < values.len() && values[i] == v;
                    assert(shorter[i] == v);
                }
            }
            lemma_ascending_unique(shorter, pitches, (bound - 1) as nat);
            assert(values =~= shorter.push(top));
        } else {
            assert forall|v: u8| values.contains(v) <==> (pitches.contains(v) && v < bound
                - 1) by {
                if values.contains(v) {
                    assert(v != top);
                }
            }
            lemma_ascending_unique(values, pitches, (bound - 1) as nat);
        }
    }
}

/// The members of `pitches` that are below `bound`.
pub open spec fn members_below(pitches: Set<u8>, bound: nat) -> Set<u8> {
    Set::new(|v: u8| pitches.contains(v) && v < bound)
}

/// The ascending listing is as long as the set has members below the bound.
pub proof fn lemma_ascending_below_len(pitches: Set<u8>, bound: nat)
    requires
        bound <= 256,
    ensures
        members_below(pitches, bound).finite(),
        ascending_below(pitches, bound).len() == members_below(pitches, bound).len(),
    decreases bound,
{
    if bound == 0 {
        assert(members_below(pitches, bound) =~= Set::empty());
    } else {
        let top = (bound - 1) as u8;
        lemma_ascending_below_len(pitches, (bound - 1) as nat);
        let lower = members_below(pitches, (bound - 1) as nat);
        if pitches.contains(top) {
            assert(members_below(pitches, bound) =~= lower.insert(top));
        } else {
            assert(members_below(pitches, bound) =~= lower);
        }
    }
}

/// A set of pitch classes is finite, and its ascending listing is as long as
/// the set is large.
pub proof fn lemma_ascending_len(pitches: Set<u8>)
    requires
        forall|v: u8| pitches.contains(v) ==> v < 12,
    ensures
        pitches.finite(),
        ascending(pitches).len() == pitches.len(),
{
    lemma_ascending_below_len(pitches, 12);
    assert(members_below(pitches, 12) =~= pitches);
}

} // verus!
