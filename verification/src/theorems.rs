//! What recognition finds, stated as theorems: the chord found spells exactly
//! the pitch classes given, its root is the lowest that does, and a chord
//! built from the catalog is found again.

use crate::chord::{
    lemma_intervals_shape, lemma_lookup_intervals, lemma_lookup_sound, pitch_above, Chord,
};
use crate::note::Note;
use crate::recognize::{
    ascending, first_match, has_pitch, lemma_ascending_below, lemma_ascending_len,
    lemma_ascending_unique, pitch_set, rotation, spec_recognize, strictly_ascending, wrapped,
};
use vstd::prelude::*;

verus! {

/// Whether `sorted` lists pitch classes, or offsets within the octave, in
/// strictly ascending order.
pub open spec fn is_listing(sorted: Seq<u8>) -> bool {
    &&& strictly_ascending(sorted)
    &&& forall|i: int| 0 <= i < sorted.len() ==> sorted[i] < 12
}

/// The pitch class `offset` semitones above the pitch class `root`.
pub open spec fn raised(root: u8, offset: u8) -> u8 {
    ((root + offset) % 12) as u8
}

/// Whether `pitch` lies one of the offsets of `pattern` above `root`.
pub open spec fn reached(root: u8, pattern: Seq<u8>, pitch: u8) -> bool {
    exists|k: int| 0 <= k < pattern.len() && #[trigger] raised(root, pattern[k]) == pitch
}

/// Whether the offsets of `pattern` above the note at `index` of `sorted`
/// reach exactly the pitch classes that `sorted` lists.
pub open spec fn spells(sorted: Seq<u8>, index: int, pattern: Seq<u8>) -> bool {
    forall|v: u8| sorted.contains(v) <==> #[trigger] reached(sorted[index], pattern, v)
}

/// The entry `j` of the rotation of `pattern` at `index`, for a listing:
/// the distance from the entry at `index` up to the entry `j` places further
/// round.
pub open spec fn turned_entry(pattern: Seq<u8>, index: int, j: int) -> int {
    if index + j < pattern.len() {
        pattern[index + j] - pattern[index]
    } else {
        pattern[index + j - pattern.len()] + 12 - pattern[index]
    }
}

/// Each entry of a rotation is the distance from the note read from up to the
/// note `j` places further round.
proof fn lemma_rotation_entry(sorted: Seq<u8>, index: int, j: int)
    requires
        is_listing(sorted),
        0 <= index < sorted.len(),
        0 <= j < sorted.len(),
    ensures
        rotation(sorted, index)[j] < 12,
        rotation(sorted, index)[j] == turned_entry(sorted, index, j),
        raised(sorted[index], rotation(sorted, index)[j]) == sorted[wrapped(
            index + j,
            sorted.len() as int,
        )],
        j == 0 ==> rotation(sorted, index)[j] == 0,
{
    let at = wrapped(index + j, sorted.len() as int);
    if index + j < sorted.len() {
        assert(sorted[index] <= sorted[at]);
    } else {
        assert(sorted[at] < sorted[index]);
    }
}

/// A rotation of a listing ascends strictly.
proof fn lemma_rotation_ascends(sorted: Seq<u8>, index: int)
    requires
        is_listing(sorted),
        0 <= index < sorted.len(),
    ensures
        strictly_ascending(rotation(sorted, index)),
{
    let n = sorted.len() as int;
    let turned = rotation(sorted, index);
    assert forall|j: int, k: int| 0 <= j < k < turned.len() implies turned[j] < turned[k] by {
        let a = wrapped(index + j, n);
        let b = wrapped(index + k, n);
        if index + k < n {
            assert(sorted[index] <= sorted[a]);
            assert(sorted[a] < sorted[b]);
        } else if index + j < n {
            assert(sorted[index] <= sorted[a]);
            assert(sorted[b] < sorted[index]);
        } else {
            assert(sorted[a] < sorted[b]);
            assert(sorted[b] < sorted[index]);
        }
    }
}

/// Where the rotation at a note is `pattern`, the offsets of `pattern` above
/// that note reach exactly the pitch classes listed.
pub proof fn lemma_rotation_spells(sorted: Seq<u8>, index: int, pattern: Seq<u8>)
    requires
        is_listing(sorted),
        0 <= index < sorted.len(),
        rotation(sorted, index) == pattern,
    ensures
        spells(sorted, index, pattern),
{
    let n = sorted.len() as int;
    let root = sorted[index];
    assert(rotation(sorted, index).len() == n);
    assert forall|v: u8| sorted.contains(v) <==> #[trigger] reached(root, pattern, v) by {
        if sorted.contains(v) {
            let m = choose|m: int| 0 <= m < sorted.len() && sorted[m] == v;
            let j = if m >= index {
                m - index
            } else {
                m - index + n
            };
            lemma_rotation_entry(sorted, index, j);
            assert(raised(root, pattern[j]) == v);
        }
        if reached(root, pattern, v) {
            let j = choose|j: int| 0 <= j < pattern.len() && raised(root, pattern[j]) == v;
            lemma_rotation_entry(sorted, index, j);
            let m = wrapped(index + j, n);
            assert(sorted[m] == v);
            assert(sorted.contains(v));
        }
    }
}

/// Every entry of the rotation at a note is an offset of a pattern that
/// spells the listing from that note.
proof fn lemma_turned_in_pattern(sorted: Seq<u8>, index: int, pattern: Seq<u8>, j: int)
    requires
        is_listing(sorted),
        is_listing(pattern),
        0 <= index < sorted.len(),
        0 <= j < sorted.len(),
        spells(sorted, index, pattern),
    ensures
        pattern.contains(rotation(sorted, index)[j]),
{
    let n = sorted.len() as int;
    let root = sorted[index];
    lemma_rotation_entry(sorted, index, j);
    let m = wrapped(index + j, n);
    assert(sorted.contains(sorted[m]));
    assert(reached(root, pattern, sorted[m]));
    let k = choose|k: int| 0 <= k < pattern.len() && raised(root, pattern[k]) == sorted[m];
    assert(pattern[k] < 12);
    assert(pattern[k] == rotation(sorted, index)[j]);
}

/// Every offset of a pattern that spells the listing from a note is an entry
/// of the rotation at that note.
proof fn lemma_pattern_in_turned(sorted: Seq<u8>, index: int, pattern: Seq<u8>, k: int)
    requires
        is_listing(sorted),
        is_listing(pattern),
        0 <= index < sorted.len(),
        0 <= k < pattern.len(),
        spells(sorted, index, pattern),
    ensures
        rotation(sorted, index).contains(pattern[k]),
{
    let n = sorted.len() as int;
    let root = sorted[index];
    let pitch = raised(root, pattern[k]);
    assert(reached(root, pattern, pitch));
    assert(sorted.contains(pitch));
    let m = choose|m: int| 0 <= m < sorted.len() && sorted[m] == pitch;
    let j = if m >= index {
        m - index
    } else {
        m - index + n
    };
    lemma_rotation_entry(sorted, index, j);
    assert(pattern[k] < 12);
    assert(rotation(sorted, index)[j] == pattern[k]);
}

/// Where the offsets of a pattern above a note of a listing reach exactly the
/// pitch classes listed, the rotation at that note is the pattern.
pub proof fn lemma_spelling_rotates(sorted: Seq<u8>, index: int, pattern: Seq<u8>)
    requires
        is_listing(sorted),
        is_listing(pattern),
        0 <= index < sorted.len(),
        spells(sorted, index, pattern),
    ensures
        rotation(sorted, index) == pattern,
{
    let turned = rotation(sorted, index);
    let offsets = Set::new(|d: u8| pattern.contains(d));
    lemma_rotation_ascends(sorted, index);
    assert forall|d: u8|
        #![trigger turned.contains(d)]
        #![trigger offsets.contains(d)]
        turned.contains(d) <==> (offsets.contains(d) && d < 12) by {
        if turned.contains(d) {
            let j = choose|j: int| 0 <= j < turned.len() && turned[j] == d;
            lemma_turned_in_pattern(sorted, index, pattern, j);
            lemma_rotation_entry(sorted, index, j);
        }
        if offsets.contains(d) && d < 12 {
            let k = choose|k: int| 0 <= k < pattern.len() && pattern[k] == d;
            lemma_pattern_in_turned(sorted, index, pattern, k);
        }
    }
    assert forall|d: u8|
        #![trigger pattern.contains(d)]
        #![trigger offsets.contains(d)]
        pattern.contains(d) <==> (offsets.contains(d) && d < 12) by {
        if pattern.contains(d) {
            let k = choose|k: int| 0 <= k < pattern.len() && pattern[k] == d;
            assert(pattern[k] < 12);
        }
    }
    lemma_ascending_unique(turned, offsets, 12);
    lemma_ascending_unique(pattern, offsets, 12);
}

/// Whether every member of `pitches` is a pitch class.
pub open spec fn is_pitch_set(pitches: Set<u8>) -> bool {
    forall|v: u8| pitches.contains(v) ==> v < 12
}

/// The pitch classes of the notes of a chord are those that its pattern
/// reaches from its root.
pub proof fn lemma_chord_reaches(kind: Chord, root: Note)
    ensures
        is_listing(kind.spec_intervals()),
        is_pitch_set(pitch_set(kind.spec_notes(root))),
        forall|v: u8|
            #![trigger pitch_set(kind.spec_notes(root)).contains(v)]
            #![trigger reached(root.pitch(), kind.spec_intervals(), v)]
            pitch_set(kind.spec_notes(root)).contains(v) <==> reached(
                root.pitch(),
                kind.spec_intervals(),
                v,
            ),
{
    let notes = kind.spec_notes(root);
    let pattern = kind.spec_intervals();
    lemma_intervals_shape(kind);
    assert forall|k: int| 0 <= k < pattern.len() implies #[trigger] notes[k].pitch() == raised(
        root.pitch(),
        pattern[k],
    ) by {
        assert(notes[k] == Note(pitch_above(root, pattern[k])));
    }
    assert forall|v: u8|
        #![trigger pitch_set(notes).contains(v)]
        #![trigger reached(root.pitch(), pattern, v)]
        pitch_set(notes).contains(v) <==> reached(root.pitch(), pattern, v) by {
        if pitch_set(notes).contains(v) {
            assert(has_pitch(notes, v));
            let k = choose|k: int| 0 <= k < notes.len() && notes[k].pitch() == v;
            assert(raised(root.pitch(), pattern[k]) == v);
        }
        if reached(root.pitch(), pattern, v) {
            let k = choose|k: int| 0 <= k < pattern.len() && raised(root.pitch(), pattern[k]) == v;
            assert(notes[k].pitch() == v);
            assert(has_pitch(notes, v));
        }
    }
}

/// The ascending listing of a set of pitch classes is a listing of exactly
/// its members.
pub proof fn lemma_listing(pitches: Set<u8>)
    requires
        is_pitch_set(pitches),
    ensures
        is_listing(ascending(pitches)),
        forall|v: u8|
            #![trigger ascending(pitches).contains(v)]
            #![trigger pitches.contains(v)]
            ascending(pitches).contains(v) <==> pitches.contains(v),
{
    let sorted = ascending(pitches);
    lemma_ascending_below(pitches, 12);
    assert forall|i: int| 0 <= i < sorted.len() implies sorted[i] < 12 by {
        assert(sorted.contains(sorted[i]));
    }
}

/// Whether reading `sorted` from `from` on finds `kind` first at `index`.
pub open spec fn found_at(sorted: Seq<u8>, from: int, index: int, kind: Chord) -> bool {
    &&& from <= index < sorted.len()
    &&& Chord::spec_lookup(rotation(sorted, index)) == Some(kind)
    &&& forall|earlier: int|
        from <= earlier < index ==> Chord::spec_lookup(#[trigger] rotation(sorted, earlier))
            is None
}

/// What the first match is: the kind found at the first position whose
/// rotation the catalog holds, with the note there as root; none where the
/// catalog holds no rotation.
pub proof fn lemma_first_match(sorted: Seq<u8>, from: int)
    requires
        0 <= from <= sorted.len(),
    ensures
        match first_match(sorted, from) {
            Some((root, kind)) => exists|index: int|
                #[trigger] found_at(sorted, from, index, kind) && root == Note(sorted[index]),
            None => forall|index: int|
                from <= index < sorted.len() ==> Chord::spec_lookup(
                    #[trigger] rotation(sorted, index),
                ) is None,
        },
    decreases sorted.len() - from,
{
    if from < sorted.len() {
        match Chord::spec_lookup(rotation(sorted, from)) {
            Some(kind) => {
                assert(found_at(sorted, from, from, kind));
            },
            None => {
                lemma_first_match(sorted, from + 1);
                match first_match(sorted, from + 1) {
                    Some((root, kind)) => {
                        let index = choose|index: int|
                            #[trigger] found_at(sorted, from + 1, index, kind) && root == Note(
                                sorted[index],
                            );
                        assert(found_at(sorted, from, index, kind));
                    },
                    None => {},
                }
            },
        }
    }
}

/// Where recognition finds a chord, it finds it at a position of the
/// ascending listing: the note there is the root, the rotation there is the
/// kind's pattern, and the catalog holds no rotation before it.
proof fn lemma_recognized_at(pitches: Set<u8>, root: Note, kind: Chord) -> (index: int)
    requires
        spec_recognize(pitches) == Some((root, kind)),
    ensures
        found_at(ascending(pitches), 0, index, kind),
        root == Note(ascending(pitches)[index]),
        rotation(ascending(pitches), index) == kind.spec_intervals(),
{
    let sorted = ascending(pitches);
    lemma_first_match(sorted, 0);
    let index = choose|index: int|
        #[trigger] found_at(sorted, 0, index, kind) && root == Note(sorted[index]);
    lemma_lookup_sound(rotation(sorted, index), kind);
    index
}

/// Two sets with the same members as a third are the same set.
proof fn lemma_same_members(
    pitches: Set<u8>,
    sorted: Seq<u8>,
    root: u8,
    pattern: Seq<u8>,
    spelled: Set<u8>,
)
    requires
        forall|v: u8|
            #![trigger sorted.contains(v)]
            #![trigger pitches.contains(v)]
            sorted.contains(v) <==> pitches.contains(v),
        forall|v: u8| sorted.contains(v) <==> #[trigger] reached(root, pattern, v),
        forall|v: u8|
            #![trigger spelled.contains(v)]
            #![trigger reached(root, pattern, v)]
            spelled.contains(v) <==> reached(root, pattern, v),
    ensures
        spelled == pitches,
{
    assert forall|v: u8| spelled.contains(v) <==> pitches.contains(v) by {
        assert(sorted.contains(v) <==> reached(root, pattern, v));
    }
    assert(spelled =~= pitches);
}

/// Where the rotation at a position of the ascending listing is a pattern,
/// what the pattern reaches from the note there is the set itself.
proof fn lemma_spelled_from(pitches: Set<u8>, index: int, pattern: Seq<u8>, spelled: Set<u8>)
    requires
        is_pitch_set(pitches),
        0 <= index < ascending(pitches).len(),
        rotation(ascending(pitches), index) == pattern,
        forall|v: u8|
            #![trigger spelled.contains(v)]
            #![trigger reached(ascending(pitches)[index], pattern, v)]
            spelled.contains(v) <==> reached(ascending(pitches)[index], pattern, v),
    ensures
        ascending(pitches)[index] < 12,
        pitches.contains(ascending(pitches)[index]),
        spelled == pitches,
{
    let sorted = ascending(pitches);
    lemma_listing(pitches);
    assert(sorted.contains(sorted[index]));
    lemma_rotation_spells(sorted, index, pattern);
    lemma_same_members(pitches, sorted, sorted[index], pattern, spelled);
}

/// Where the rotation at a position of the ascending listing is the pattern
/// of a kind, the chord of that kind on the note there has exactly the pitch
/// classes of the set.
proof fn lemma_spelled_at(pitches: Set<u8>, index: int, kind: Chord)
    requires
        is_pitch_set(pitches),
        0 <= index < ascending(pitches).len(),
        rotation(ascending(pitches), index) == kind.spec_intervals(),
    ensures
        ascending(pitches)[index] < 12,
        pitches.contains(ascending(pitches)[index]),
        pitch_set(kind.spec_notes(Note(ascending(pitches)[index]))) == pitches,
{
    let root = Note(ascending(pitches)[index]);
    lemma_listing(pitches);
    assert(root.pitch() == root.0);
    lemma_chord_reaches(kind, root);
    lemma_spelled_from(
        pitches,
        index,
        kind.spec_intervals(),
        pitch_set(kind.spec_notes(root)),
    );
}

/// The chord that is recognized spells exactly the pitch classes given: its
/// root is one of them, and its notes have these pitch classes and no others.
pub proof fn lemma_recognize_sound(pitches: Set<u8>, root: Note, kind: Chord)
    requires
        is_pitch_set(pitches),
        spec_recognize(pitches) == Some((root, kind)),
    ensures
        root.is_reduced(),
        pitches.contains(root.0),
        pitch_set(kind.spec_notes(root)) == pitches,
{
    let index = lemma_recognized_at(pitches, root, kind);
    lemma_spelled_at(pitches, index, kind);
}

/// Where a chord of the catalog on a note of a listing spells the listing,
/// the catalog holds the rotation at that note, as that chord's kind.
proof fn lemma_reading_is_found(pitches: Set<u8>, kind: Chord, root: Note) -> (index: int)
    requires
        is_pitch_set(pitches),
        root.is_reduced(),
        pitch_set(kind.spec_notes(root)) == pitches,
    ensures
        0 <= index < ascending(pitches).len(),
        ascending(pitches)[index] == root.0,
        rotation(ascending(pitches), index) == kind.spec_intervals(),
        Chord::spec_lookup(rotation(ascending(pitches), index)) == Some(kind),
        ascending(pitches).len() == 3 || ascending(pitches).len() == 4,
{
    let sorted = ascending(pitches);
    let pattern = kind.spec_intervals();
    lemma_listing(pitches);
    lemma_chord_reaches(kind, root);
    lemma_intervals_shape(kind);
    assert(raised(root.pitch(), pattern[0]) == root.0);
    assert(reached(root.pitch(), pattern, root.0));
    assert(pitches.contains(root.0));
    assert(sorted.contains(root.0));
    let index = choose|index: int| 0 <= index < sorted.len() && sorted[index] == root.0;
    assert forall|v: u8| sorted.contains(v) <==> #[trigger] reached(sorted[index], pattern, v) by {
        assert(pitches.contains(v) <==> sorted.contains(v));
        assert(pitches.contains(v) <==> reached(root.pitch(), pattern, v));
    }
    lemma_spelling_rotates(sorted, index, pattern);
    lemma_lookup_intervals(kind);
    assert(rotation(sorted, index).len() == sorted.len());
    index
}

/// The root that is recognized is the lowest one: no chord of the catalog
/// spells the same pitch classes from a lower note.
pub proof fn lemma_recognize_lowest_root(
    pitches: Set<u8>,
    root: Note,
    kind: Chord,
    other_root: Note,
    other_kind: Chord,
)
    requires
        is_pitch_set(pitches),
        spec_recognize(pitches) == Some((root, kind)),
        other_root.is_reduced(),
        pitch_set(other_kind.spec_notes(other_root)) == pitches,
    ensures
        root.0 <= other_root.0,
        root.0 == other_root.0 ==> kind == other_kind,
{
    let sorted = ascending(pitches);
    lemma_listing(pitches);
    let index = lemma_recognized_at(pitches, root, kind);
    let other_index = lemma_reading_is_found(pitches, other_kind, other_root);
    if other_index < index {
        assert(Chord::spec_lookup(rotation(sorted, other_index)) is None);
    }
    if other_index > index {
        assert(sorted[index] < sorted[other_index]);
    }
}

/// Pitch classes that some chord of the catalog spells are recognized as a
/// chord.
pub proof fn lemma_recognize_finds(pitches: Set<u8>, kind: Chord, root: Note)
    requires
        root.is_reduced(),
        pitch_set(kind.spec_notes(root)) == pitches,
    ensures
        spec_recognize(pitches) is Some,
{
    let sorted = ascending(pitches);
    lemma_chord_reaches(kind, root);
    let index = lemma_reading_is_found(pitches, kind, root);
    lemma_first_match(sorted, 0);
}

/// Building a chord and recognizing its notes gives back its root and kind,
/// unless a chord of the catalog spells the same pitch classes from a lower
/// note: recognition then names that one.
pub proof fn lemma_recognize_round_trip(kind: Chord, root: Note)
    requires
        root.is_reduced(),
        forall|lower_kind: Chord, lower: Note|
            lower.0 < root.0 ==> #[trigger] pitch_set(lower_kind.spec_notes(lower)) != pitch_set(
                kind.spec_notes(root),
            ),
    ensures
        spec_recognize(pitch_set(kind.spec_notes(root))) == Some((root, kind)),
{
    let pitches = pitch_set(kind.spec_notes(root));
    lemma_chord_reaches(kind, root);
    lemma_recognize_finds(pitches, kind, root);
    let found = spec_recognize(pitches)->0;
    lemma_recognize_sound(pitches, found.0, found.1);
    lemma_recognize_lowest_root(pitches, found.0, found.1, root, kind);
    if found.0.0 < root.0 {
        assert(pitch_set(found.1.spec_notes(found.0)) != pitches);
    }
}

/// The pitch classes among notes are pitch classes.
pub proof fn lemma_pitch_set_is_pitch_set(notes: Seq<Note>)
    ensures
        is_pitch_set(pitch_set(notes)),
{
    assert forall|v: u8| pitch_set(notes).contains(v) implies v < 12 by {
        assert(has_pitch(notes, v));
    }
}

/// Recognition does not depend on the order of the notes: two sequences that
/// hold the same notes equally often are recognized alike.
pub proof fn lemma_recognize_ignores_order(notes: Seq<Note>, shuffled: Seq<Note>)
    requires
        notes.to_multiset() == shuffled.to_multiset(),
    ensures
        pitch_set(notes) == pitch_set(shuffled),
        spec_recognize(pitch_set(notes)) == spec_recognize(pitch_set(shuffled)),
{
    notes.to_multiset_ensures();
    shuffled.to_multiset_ensures();
    assert forall|v: u8| pitch_set(notes).contains(v) <==> pitch_set(shuffled).contains(v) by {
        if has_pitch(notes, v) {
            let i = choose|i: int| 0 <= i < notes.len() && notes[i].pitch() == v;
            assert(notes.contains(notes[i]));
            assert(shuffled.to_multiset().count(notes[i]) > 0);
            assert(shuffled.contains(notes[i]));
            let j = choose|j: int| 0 <= j < shuffled.len() && shuffled[j] == notes[i];
            assert(shuffled[j].pitch() == v);
        }
        if has_pitch(shuffled, v) {
            let i = choose|i: int| 0 <= i < shuffled.len() && shuffled[i].pitch() == v;
            assert(shuffled.contains(shuffled[i]));
            assert(notes.to_multiset().count(shuffled[i]) > 0);
            assert(notes.contains(shuffled[i]));
            let j = choose|j: int| 0 <= j < notes.len() && notes[j] == shuffled[i];
            assert(notes[j].pitch() == v);
        }
    }
    assert(pitch_set(notes) =~= pitch_set(shuffled));
}

/// Recognition does not depend on how often a pitch class occurs: one more
/// note of a pitch class that is already there, put in at any place, changes
/// nothing.
pub proof fn lemma_recognize_ignores_repeats(notes: Seq<Note>, at: int, again: Note)
    requires
        0 <= at <= notes.len(),
        has_pitch(notes, again.pitch()),
    ensures
        pitch_set(notes.insert(at, again)) == pitch_set(notes),
        spec_recognize(pitch_set(notes.insert(at, again))) == spec_recognize(pitch_set(notes)),
{
    let longer = notes.insert(at, again);
    assert forall|v: u8| pitch_set(longer).contains(v) <==> pitch_set(notes).contains(v) by {
        if has_pitch(longer, v) {
            let i = choose|i: int| 0 <= i < longer.len() && longer[i].pitch() == v;
            if i < at {
                assert(notes[i].pitch() == v);
            } else if i > at {
                assert(notes[i - 1].pitch() == v);
            }
        }
        if has_pitch(notes, v) {
            let i = choose|i: int| 0 <= i < notes.len() && notes[i].pitch() == v;
            if i < at {
                assert(longer[i].pitch() == v);
            } else {
                assert(longer[i + 1].pitch() == v);
            }
        }
    }
    assert(pitch_set(longer) =~= pitch_set(notes));
}

/// Fewer than three distinct pitch classes, or more than four, are no chord.
pub proof fn lemma_recognize_needs_three_or_four(notes: Seq<Note>)
    requires
        pitch_set(notes).len() != 3,
        pitch_set(notes).len() != 4,
    ensures
        spec_recognize(pitch_set(notes)) is None,
{
    lemma_pitch_set_is_pitch_set(notes);
    lemma_ascending_len(pitch_set(notes));
}

/// Whether a chord of the catalog spells the notes of the chord of kind
/// `kind` on `root` from a lower root. The augmented triad and the
/// diminished seventh divide the octave evenly, so each of their notes can be
/// the root; a suspended second is the suspended fourth on its fifth.
pub open spec fn has_lower_reading(kind: Chord, root: Note) -> bool {
    match kind {
        Chord::Augmented => root.0 >= 4,
        Chord::Diminished7 => root.0 >= 3,
        Chord::Suspended2 => root.0 >= 5,
        Chord::Suspended4 => root.0 >= 7,
        _ => false,
    }
}

/// The only triads of the catalog whose pattern is a rotation of a triad of
/// the catalog: the augmented triad, of itself, and the two suspended triads,
/// of each other.
proof fn lemma_rotated_triads(from: Chord, index: int, to: Chord)
    requires
        from.spec_intervals().len() == 3,
        to.spec_intervals().len() == 3,
        1 <= index < 3,
        to.spec_intervals()[1] == turned_entry(from.spec_intervals(), index, 1),
        to.spec_intervals()[2] == turned_entry(from.spec_intervals(), index, 2),
    ensures
        has_lower_reading(to, Note(from.spec_intervals()[index])),
{
}

/// The only tetrad of the catalog whose pattern is a rotation of a tetrad of
/// the catalog: the diminished seventh, of itself.
proof fn lemma_rotated_tetrads(from: Chord, index: int, to: Chord)
    requires
        from.spec_intervals().len() == 4,
        to.spec_intervals().len() == 4,
        1 <= index < 4,
        to.spec_intervals()[1] == turned_entry(from.spec_intervals(), index, 1),
        to.spec_intervals()[2] == turned_entry(from.spec_intervals(), index, 2),
        to.spec_intervals()[3] == turned_entry(from.spec_intervals(), index, 3),
    ensures
        has_lower_reading(to, Note(from.spec_intervals()[index])),
{
}

/// A pattern of the catalog that is a rotation of another, read from an
/// offset above 0, belongs to a chord that has a lower reading once its root
/// is that offset or higher.
proof fn lemma_rotated_patterns(from: Chord, index: int, to: Chord)
    requires
        1 <= index < from.spec_intervals().len(),
        rotation(from.spec_intervals(), index) == to.spec_intervals(),
    ensures
        has_lower_reading(to, Note(from.spec_intervals()[index])),
{
    let pattern = from.spec_intervals();
    lemma_intervals_shape(from);
    assert(rotation(pattern, index).len() == pattern.len());
    lemma_rotation_entry(pattern, index, 1);
    lemma_rotation_entry(pattern, index, 2);
    if pattern.len() == 3 {
        lemma_rotated_triads(from, index, to);
    } else {
        lemma_rotation_entry(pattern, index, 3);
        lemma_rotated_tetrads(from, index, to);
    }
}

/// Rotating a rotation rotates further, entry by entry.
proof fn lemma_entries_compose(sorted: Seq<u8>, once: Seq<u8>, first: int, further: int, j: int)
    requires
        is_listing(sorted),
        once.len() == sorted.len(),
        forall|x: int| 0 <= x < sorted.len() ==> once[x] == turned_entry(sorted, first, x),
        0 <= first,
        0 <= further,
        first + further < sorted.len(),
        0 <= j < sorted.len(),
    ensures
        turned_entry(once, further, j) == turned_entry(sorted, first + further, j),
{
}

/// Rotating a rotation rotates further: reading a listing from one note and
/// the result from a later offset is reading the listing from the later note.
proof fn lemma_rotation_composes(sorted: Seq<u8>, first: int, further: int)
    requires
        is_listing(sorted),
        0 <= first,
        0 <= further,
        first + further < sorted.len(),
    ensures
        rotation(rotation(sorted, first), further) == rotation(sorted, first + further),
{
    let n = sorted.len() as int;
    let once = rotation(sorted, first);
    let twice = rotation(once, further);
    let direct = rotation(sorted, first + further);
    lemma_rotation_ascends(sorted, first);
    assert forall|x: int| 0 <= x < n implies once[x] == turned_entry(sorted, first, x)
        && once[x] < 12 by {
        lemma_rotation_entry(sorted, first, x);
    }
    assert forall|j: int| 0 <= j < n implies twice[j] == direct[j] by {
        lemma_rotation_entry(once, further, j);
        lemma_rotation_entry(sorted, first + further, j);
        lemma_entries_compose(sorted, once, first, further, j);
    }
    assert(twice =~= direct);
}

/// A chord whose pitch classes a chord of the catalog spells from a lower
/// root is one of those that have a lower reading.
pub proof fn lemma_lower_reading_is_known(
    kind: Chord,
    root: Note,
    lower_kind: Chord,
    lower_root: Note,
)
    requires
        root.is_reduced(),
        lower_root.0 < root.0,
        pitch_set(lower_kind.spec_notes(lower_root)) == pitch_set(kind.spec_notes(root)),
    ensures
        has_lower_reading(kind, root),
{
    let pitches = pitch_set(kind.spec_notes(root));
    let sorted = ascending(pitches);
    lemma_chord_reaches(kind, root);
    lemma_listing(pitches);
    let high = lemma_reading_is_found(pitches, kind, root);
    let low = lemma_reading_is_found(pitches, lower_kind, lower_root);
    if high <= low {
        if high < low {
            assert(sorted[high] < sorted[low]);
        }
    }
    let further = high - low;
    lemma_rotation_composes(sorted, low, further);
    lemma_rotation_entry(sorted, low, further);
    assert(lower_kind.spec_intervals()[further] == root.0 - lower_root.0);
    lemma_rotated_patterns(lower_kind, further, kind);
}

/// What a pattern of three or four offsets reaches from a root, offset by
/// offset.
proof fn lemma_reached_entries(root: u8, pattern: Seq<u8>, pitch: u8)
    requires
        pattern.len() == 3 || pattern.len() == 4,
    ensures
        reached(root, pattern, pitch) <==> (pitch == raised(root, pattern[0]) || pitch == raised(
            root,
            pattern[1],
        ) || pitch == raised(root, pattern[2]) || (pattern.len() == 4 && pitch == raised(
            root,
            pattern[3],
        ))),
{
    if reached(root, pattern, pitch) {
        let k = choose|k: int| 0 <= k < pattern.len() && #[trigger] raised(root, pattern[k])
            == pitch;
        assert(k == 0 || k == 1 || k == 2 || k == 3);
    }
}

/// The chord that spells the same pitch classes from a lower root, for a
/// chord that has a lower reading: the same kind a third lower for the
/// augmented triad and the diminished seventh, the other suspended triad a
/// fourth or a fifth lower for a suspended triad.
pub open spec fn lower_reading(kind: Chord, root: Note) -> (Chord, Note) {
    match kind {
        Chord::Augmented => (Chord::Augmented, Note((root.0 - 4) as u8)),
        Chord::Diminished7 => (Chord::Diminished7, Note((root.0 - 3) as u8)),
        Chord::Suspended2 => (Chord::Suspended4, Note((root.0 - 5) as u8)),
        _ => (Chord::Suspended2, Note((root.0 - 7) as u8)),
    }
}

/// A chord that divides the octave into equal steps reaches the same pitch
/// classes from one step lower.
proof fn lemma_even_steps(root: u8, step: u8, pitch: u8)
    requires
        step == 3 || step == 4,
        step <= root < 12,
    ensures
        step == 4 ==> ((pitch == raised((root - 4) as u8, 0) || pitch == raised(
            (root - 4) as u8,
            4,
        ) || pitch == raised((root - 4) as u8, 8)) <==> (pitch == raised(root, 0) || pitch
            == raised(root, 4) || pitch == raised(root, 8))),
        step == 3 ==> ((pitch == raised((root - 3) as u8, 0) || pitch == raised(
            (root - 3) as u8,
            3,
        ) || pitch == raised((root - 3) as u8, 6) || pitch == raised((root - 3) as u8, 9)) <==> (
        pitch == raised(root, 0) || pitch == raised(root, 3) || pitch == raised(root, 6) || pitch
            == raised(root, 9))),
{
}

/// A suspended second reaches the pitch classes of the suspended fourth a
/// fourth below it, and a suspended fourth those of the suspended second a
/// fifth below it.
proof fn lemma_suspended_steps(root: u8, pitch: u8)
    requires
        root < 12,
    ensures
        root >= 5 ==> ((pitch == raised((root - 5) as u8, 0) || pitch == raised(
            (root - 5) as u8,
            5,
        ) || pitch == raised((root - 5) as u8, 7)) <==> (pitch == raised(root, 0) || pitch
            == raised(root, 2) || pitch == raised(root, 7))),
        root >= 7 ==> ((pitch == raised((root - 7) as u8, 0) || pitch == raised(
            (root - 7) as u8,
            2,
        ) || pitch == raised((root - 7) as u8, 7)) <==> (pitch == raised(root, 0) || pitch
            == raised(root, 5) || pitch == raised(root, 7))),
{
}

/// A chord that has a lower reading reaches the same pitch classes as that
/// reading.
proof fn lemma_lower_reading_reaches(kind: Chord, root: Note, pitch: u8)
    requires
        root.is_reduced(),
        has_lower_reading(kind, root),
    ensures
        lower_reading(kind, root).1.0 < root.0,
        reached(
            lower_reading(kind, root).1.0,
            lower_reading(kind, root).0.spec_intervals(),
            pitch,
        ) <==> reached(root.0, kind.spec_intervals(), pitch),
{
    let lower = lower_reading(kind, root);
    lemma_reached_entries(lower.1.0, lower.0.spec_intervals(), pitch);
    lemma_reached_entries(root.0, kind.spec_intervals(), pitch);
    match kind {
        Chord::Augmented => {
            lemma_even_steps(root.0, 4, pitch);
        },
        Chord::Diminished7 => {
            lemma_even_steps(root.0, 3, pitch);
        },
        _ => {
            lemma_suspended_steps(root.0, pitch);
        },
    }
}

/// A chord that has a lower reading is spelled by a chord of the catalog from
/// a lower root.
pub proof fn lemma_lower_reading_spells(kind: Chord, root: Note)
    requires
        root.is_reduced(),
        has_lower_reading(kind, root),
    ensures
        lower_reading(kind, root).1.0 < root.0,
        pitch_set(lower_reading(kind, root).0.spec_notes(lower_reading(kind, root).1))
            == pitch_set(kind.spec_notes(root)),
{
    let lower = lower_reading(kind, root);
    let spelled = pitch_set(kind.spec_notes(root));
    let spelled_lower = pitch_set(lower.0.spec_notes(lower.1));
    lemma_lower_reading_reaches(kind, root, 0);
    lemma_chord_reaches(kind, root);
    lemma_chord_reaches(lower.0, lower.1);
    assert forall|v: u8| spelled_lower.contains(v) <==> spelled.contains(v) by {
        lemma_lower_reading_reaches(kind, root, v);
    }
    assert(spelled_lower =~= spelled);
}

/// Building a chord on a root and recognizing its notes gives back that root
/// and kind for every chord of the catalog but those that have a lower
/// reading; for those it gives the reading from the lowest root.
pub proof fn lemma_round_trip_exactly(kind: Chord, root: Note)
    requires
        root.is_reduced(),
    ensures
        spec_recognize(pitch_set(kind.spec_notes(root))) == Some((root, kind))
            <==> !has_lower_reading(kind, root),
{
    let pitches = pitch_set(kind.spec_notes(root));
    if has_lower_reading(kind, root) {
        let lower = lower_reading(kind, root);
        lemma_lower_reading_spells(kind, root);
        if spec_recognize(pitches) == Some((root, kind)) {
            lemma_pitch_set_is_pitch_set(kind.spec_notes(root));
            lemma_recognize_lowest_root(pitches, root, kind, lower.1, lower.0);
        }
    } else {
        assert forall|lower_kind: Chord, lower: Note| lower.0 < root.0 implies #[trigger] pitch_set(
            lower_kind.spec_notes(lower),
        ) != pitches by {
            if pitch_set(lower_kind.spec_notes(lower)) == pitches {
                lemma_lower_reading_is_known(kind, root, lower_kind, lower);
            }
        }
        lemma_recognize_round_trip(kind, root);
    }
}

} // verus!
