//! The catalog of chord kinds: names, interval patterns and lookup by pattern.

use crate::note::Note;
use vstd::prelude::*;

verus! {

/// A chord archetype, independent of its root: six triads and nine tetrads.
#[derive(Clone, Copy, PartialEq, Eq, Hash, Debug, Structural)]
pub enum Chord {
    Major,
    Minor,
    Diminished,
    Augmented,
    Suspended2,
    Suspended4,
    Dominant7,
    Major7,
    Minor7,
    MinorMajor7,
    HalfDiminished,
    Diminished7,
    Augmented7,
    AugmentedMaj7,
    Dominant11,
}

/// The pitch class `interval` semitones above the pitch class of `root`.
pub open spec fn pitch_above(root: Note, interval: u8) -> u8 {
    ((root.pitch() + interval) % 12) as u8
}

impl Chord {
    /// How many chord kinds there are.
    pub const COUNT: usize = 15;

    /// The position of the kind in the order of declaration.
    pub open spec fn repr(self) -> int {
        match self {
            Chord::Major => 0,
            Chord::Minor => 1,
            Chord::Diminished => 2,
            Chord::Augmented => 3,
            Chord::Suspended2 => 4,
            Chord::Suspended4 => 5,
            Chord::Dominant7 => 6,
            Chord::Major7 => 7,
            Chord::Minor7 => 8,
            Chord::MinorMajor7 => 9,
            Chord::HalfDiminished => 10,
            Chord::Diminished7 => 11,
            Chord::Augmented7 => 12,
            Chord::AugmentedMaj7 => 13,
            Chord::Dominant11 => 14,
        }
    }

    /// The kind at position `index` of the order of declaration.
    pub open spec fn spec_from_repr(index: int) -> Option<Chord> {
        if index == 0 {
            Some(Chord::Major)
        } else if index == 1 {
            Some(Chord::Minor)
        } else if index == 2 {
            Some(Chord::Diminished)
        } else if index == 3 {
            Some(Chord::Augmented)
        } else if index == 4 {
            Some(Chord::Suspended2)
        } else if index == 5 {
            Some(Chord::Suspended4)
        } else if index == 6 {
            Some(Chord::Dominant7)
        } else if index == 7 {
            Some(Chord::Major7)
        } else if index == 8 {
            Some(Chord::Minor7)
        } else if index == 9 {
            Some(Chord::MinorMajor7)
        } else if index == 10 {
            Some(Chord::HalfDiminished)
        } else if index == 11 {
            Some(Chord::Diminished7)
        } else if index == 12 {
            Some(Chord::Augmented7)
        } else if index == 13 {
            Some(Chord::AugmentedMaj7)
        } else if index == 14 {
            Some(Chord::Dominant11)
        } else {
            None
        }
    }

    /// The semitone offsets of the chord's notes from its root: ascending,
    /// starting at 0, three or four of them.
    pub open spec fn spec_intervals(self) -> Seq<u8> {
        match self {
            Chord::Major => seq![0u8, 4u8, 7u8],
            Chord::Minor => seq![0u8, 3u8, 7u8],
            Chord::Diminished => seq![0u8, 3u8, 6u8],
            Chord::Augmented => seq![0u8, 4u8, 8u8],
            Chord::Suspended2 => seq![0u8, 2u8, 7u8],
            Chord::Suspended4 => seq![0u8, 5u8, 7u8],
            Chord::Dominant7 => seq![0u8, 4u8, 7u8, 10u8],
            Chord::Major7 => seq![0u8, 4u8, 7u8, 11u8],
            Chord::Minor7 => seq![0u8, 3u8, 7u8, 10u8],
            Chord::MinorMajor7 => seq![0u8, 3u8, 7u8, 11u8],
            Chord::HalfDiminished => seq![0u8, 3u8, 6u8, 10u8],
            Chord::Diminished7 => seq![0u8, 3u8, 6u8, 9u8],
            Chord::Augmented7 => seq![0u8, 4u8, 8u8, 10u8],
            Chord::AugmentedMaj7 => seq![0u8, 4u8, 8u8, 11u8],
            Chord::Dominant11 => seq![0u8, 5u8, 7u8, 10u8],
        }
    }

    /// The short symbol of the kind.
    pub open spec fn spec_short_name(self) -> Seq<char> {
        match self {
            Chord::Major => "M"@,
            Chord::Minor => "m"@,
            Chord::Diminished => "o"@,
            Chord::Augmented => "+"@,
            Chord::Suspended2 => "s2"@,
            Chord::Suspended4 => "s4"@,
            Chord::Dominant7 => "7"@,
            Chord::Major7 => "M7"@,
            Chord::Minor7 => "m7"@,
            Chord::MinorMajor7 => "mM7"@,
            Chord::HalfDiminished => "\u{c3}\u{b8}7"@,
            Chord::Diminished7 => "o7"@,
            Chord::Augmented7 => "+7"@,
            Chord::AugmentedMaj7 => "+M7"@,
            Chord::Dominant11 => "11"@,
        }
    }

    /// The name of the kind as it is displayed after a root.
    pub open spec fn spec_nice_name(self) -> Seq<char> {
        match self {
            Chord::Major => "major"@,
            Chord::Minor => "minor"@,
            Chord::Diminished => "dim"@,
            Chord::Augmented => "aug"@,
            Chord::Suspended2 => "sus2"@,
            Chord::Suspended4 => "sus4"@,
            Chord::Dominant7 => "7"@,
            Chord::Major7 => "major7"@,
            Chord::Minor7 => "minor7"@,
            Chord::MinorMajor7 => "minor major7"@,
            Chord::HalfDiminished => "half dim7"@,
            Chord::Diminished7 => "dim7"@,
            Chord::Augmented7 => "aug7"@,
            Chord::AugmentedMaj7 => "aug major7"@,
            Chord::Dominant11 => "11"@,
        }
    }

    /// The notes of the chord on `root`, in the order of its intervals.
    pub open spec fn spec_notes(self, root: Note) -> Seq<Note> {
        Seq::new(
            self.spec_intervals().len(),
            |i: int| Note(pitch_above(root, self.spec_intervals()[i])),
        )
    }

    /// The kind that has the interval pattern `pattern`, if there is one.
    pub open spec fn spec_lookup(pattern: Seq<u8>) -> Option<Chord> {
        if exists|kind: Chord| kind.spec_intervals() == pattern {
            Some(choose|kind: Chord| kind.spec_intervals() == pattern)
        } else {
            None
        }
    }

    /// The short symbol of the kind.
    pub fn short_name(&self) -> (name: &'static str)
        ensures
            name@ == self.spec_short_name(),
    {
        match self {
            Chord::Major => "M",
            Chord::Minor => "m",
            Chord::Diminished => "o",
            Chord::Augmented => "+",
            Chord::Suspended2 => "s2",
            Chord::Suspended4 => "s4",
            Chord::Dominant7 => "7",
            Chord::Major7 => "M7",
            Chord::Minor7 => "m7",
            Chord::MinorMajor7 => "mM7",
            Chord::HalfDiminished => "\u{c3}\u{b8}7",
            Chord::Diminished7 => "o7",
            Chord::Augmented7 => "+7",
            Chord::AugmentedMaj7 => "+M7",
            Chord::Dominant11 => "11",
        }
    }

    /// The name of the kind as it is displayed after a root.
    pub fn nice_name(&self) -> (name: &'static str)
        ensures
            name@ == self.spec_nice_name(),
    {
        match self {
            Chord::Major => "major",
            Chord::Minor => "minor",
            Chord::Diminished => "dim",
            Chord::Augmented => "aug",
            Chord::Suspended2 => "sus2",
            Chord::Suspended4 => "sus4",
            Chord::Dominant7 => "7",
            Chord::Major7 => "major7",
            Chord::Minor7 => "minor7",
            Chord::MinorMajor7 => "minor major7",
            Chord::HalfDiminished => "half dim7",
            Chord::Diminished7 => "dim7",
            Chord::Augmented7 => "aug7",
            Chord::AugmentedMaj7 => "aug major7",
            Chord::Dominant11 => "11",
        }
    }

    /// The semitone offsets of the chord's notes from its root: ascending,
    /// starting at 0, three or four of them.
    pub fn intervals(&self) -> (pattern: Vec<u8>)
        ensures
            pattern@ == self.spec_intervals(),
    {
        let pattern: Vec<u8> = match self {
            Chord::Major => vec![0, 4, 7],
            Chord::Minor => vec![0, 3, 7],
            Chord::Diminished => vec![0, 3, 6],
            Chord::Augmented => vec![0, 4, 8],
            Chord::Suspended2 => vec![0, 2, 7],
            Chord::Suspended4 => vec![0, 5, 7],
            Chord::Dominant7 => vec![0, 4, 7, 10],
            Chord::Major7 => vec![0, 4, 7, 11],
            Chord::Minor7 => vec![0, 3, 7, 10],
            Chord::MinorMajor7 => vec![0, 3, 7, 11],
            Chord::HalfDiminished => vec![0, 3, 6, 10],
            Chord::Diminished7 => vec![0, 3, 6, 9],
            Chord::Augmented7 => vec![0, 4, 8, 10],
            Chord::AugmentedMaj7 => vec![0, 4, 8, 11],
            Chord::Dominant11 => vec![0, 5, 7, 10],
        };
        assert(pattern@ =~= self.spec_intervals());
        pattern
    }

    /// The kind at position `index` of the declaration order, if `index` is
    /// below [`Chord::COUNT`].
    pub fn from_repr(index: usize) -> (kind: Option<Chord>)
        ensures
            kind == Chord::spec_from_repr(index as int),
            index < Chord::COUNT ==> kind is Some && kind->0.repr() == index,
            index >= Chord::COUNT ==> kind is None,
    {
        match index {
            0 => Some(Chord::Major),
            1 => Some(Chord::Minor),
            2 => Some(Chord::Diminished),
            3 => Some(Chord::Augmented),
            4 => Some(Chord::Suspended2),
            5 => Some(Chord::Suspended4),
            6 => Some(Chord::Dominant7),
            7 => Some(Chord::Major7),
            8 => Some(Chord::Minor7),
            9 => Some(Chord::MinorMajor7),
            10 => Some(Chord::HalfDiminished),
            11 => Some(Chord::Diminished7),
            12 => Some(Chord::Augmented7),
            13 => Some(Chord::AugmentedMaj7),
            14 => Some(Chord::Dominant11),
            _ => None,
        }
    }

    /// The notes of the chord on `root`: the root raised by each interval in
    /// turn, wrapped into the octave.
    pub fn get_notes(self, root: Note) -> (notes: Vec<Note>)
        ensures
            notes@ == self.spec_notes(root),
    {
        let pattern = self.intervals();
        let base: u8 = root.pitch_class();
        let mut notes: Vec<Note> = Vec::new();
        let mut i: usize = 0;
        while i < pattern.len()
            invariant
                pattern@ == self.spec_intervals(),
                base == root.pitch(),
                0 <= i <= pattern.len(),
                notes@.len() == i,
                forall|j: int| 0 <= j < i ==> notes@[j] == self.spec_notes(root)[j],
            decreases pattern.len() - i,
        {
            notes.push(Note((base + pattern[i]) % 12));
            i += 1;
        }
        assert(notes@ =~= self.spec_notes(root));
        notes
    }

    /// The catalog: every kind once, in the order of declaration, each beside
    /// its interval pattern, by which it is looked up. No pattern occurs
    /// twice.
    pub fn all() -> (table: Vec<(Vec<u8>, Chord)>)
        ensures
            table@.len() == Chord::COUNT,
            forall|i: int|
                0 <= i < table@.len() ==> {
                    &&& (#[trigger] table@[i]).1.repr() == i
                    &&& table@[i].0@ == table@[i].1.spec_intervals()
                },
            forall|i: int, j: int|
                0 <= i < j < table@.len() ==> (#[trigger] table@[i]).0@ != (#[trigger] table@[j]).0@,
    {
        let mut table: Vec<(Vec<u8>, Chord)> = Vec::new();
        let mut index: usize = 0;
        while index < Chord::COUNT
            invariant
                0 <= index <= Chord::COUNT,
                table@.len() == index,
                forall|i: int|
                    0 <= i < table@.len() ==> {
                        &&& (#[trigger] table@[i]).1.repr() == i
                        &&& table@[i].0@ == table@[i].1.spec_intervals()
                    },
            decreases Chord::COUNT - index,
        {
            match Chord::from_repr(index) {
                Some(kind) => {
                    table.push((kind.intervals(), kind));
                },
                None => {},
            }
            index += 1;
        }
        proof {
            lemma_intervals_distinct_all();
        }
        table
    }

    /// The kind whose interval pattern is exactly `pattern`, or `None` where
    /// the catalog holds no such pattern.
    pub fn lookup(pattern: &[u8]) -> (kind: Option<Chord>)
        ensures
            kind == Chord::spec_lookup(pattern@),
            match kind {
                Some(found) => found.spec_intervals() == pattern@,
                None => forall|other: Chord| other.spec_intervals() != pattern@,
            },
    {
        let table = Chord::all();
        let mut index: usize = 0;
        while index < table.len()
            invariant
                0 <= index <= table@.len(),
                table@.len() == Chord::COUNT,
                forall|i: int|
                    0 <= i < table@.len() ==> {
                        &&& (#[trigger] table@[i]).1.repr() == i
                        &&& table@[i].0@ == table@[i].1.spec_intervals()
                    },
                forall|i: int| 0 <= i < index ==> (#[trigger] table@[i]).0@ != pattern@,
            decreases table@.len() - index,
        {
            if same_pattern(table[index].0.as_slice(), pattern) {
                let found = table[index].1;
                proof {
                    lemma_intervals_distinct_all();
                }
                return Some(found);
            }
            index += 1;
        }
        proof {
            assert forall|other: Chord| other.spec_intervals() != pattern@ by {
                lemma_repr_in_range(other);
                assert(table@[other.repr()].1.repr() == other.repr());
                lemma_repr_distinct(table@[other.repr()].1, other);
            }
        }
        None
    }
}

/// Whether two patterns hold the same offsets in the same order.
pub fn same_pattern(left: &[u8], right: &[u8]) -> (same: bool)
    ensures
        same == (left@ == right@),
{
    if left.len() != right.len() {
        return false;
    }
    let mut i: usize = 0;
    while i < left.len()
        invariant
            left@.len() == right@.len(),
            0 <= i <= left@.len(),
            forall|j: int| 0 <= j < i ==> left@[j] == right@[j],
        decreases left@.len() - i,
    {
        if left[i] != right[i] {
            return false;
        }
        i += 1;
    }
    assert(left@ =~= right@);
    true
}

/// A kind's position in the order of declaration is below the number of kinds.
pub proof fn lemma_repr_in_range(kind: Chord)
    ensures
        0 <= kind.repr() < Chord::COUNT,
{
}

/// Two kinds at the same position are the same kind.
pub proof fn lemma_repr_distinct(left: Chord, right: Chord)
    requires
        left.repr() == right.repr(),
    ensures
        left == right,
{
}

/// Every interval pattern of the catalog has three or four offsets below 12,
/// starts at 0 and ascends strictly.
pub proof fn lemma_intervals_shape(kind: Chord)
    ensures
        kind.spec_intervals().len() == 3 || kind.spec_intervals().len() == 4,
        kind.spec_intervals()[0] == 0,
        forall|i: int| 0 <= i < kind.spec_intervals().len() ==> kind.spec_intervals()[i] < 12,
        forall|i: int, j: int|
            0 <= i < j < kind.spec_intervals().len() ==> kind.spec_intervals()[i]
                < kind.spec_intervals()[j],
{
}

/// No two distinct kinds share an interval pattern.
pub proof fn lemma_intervals_distinct(left: Chord, right: Chord)
    requires
        left.spec_intervals() == right.spec_intervals(),
    ensures
        left == right,
{
    let a = left.spec_intervals();
    let b = right.spec_intervals();
    assert(a.len() == b.len());
    assert(a[1] == b[1]);
    assert(a[2] == b[2]);
    if a.len() == 4 {
        assert(a[3] == b[3]);
    }
}

/// No two distinct kinds share an interval pattern, for all pairs at once.
pub proof fn lemma_intervals_distinct_all()
    ensures
        forall|left: Chord, right: Chord|
            left.spec_intervals() == right.spec_intervals() ==> left == right,
{
    assert forall|left: Chord, right: Chord|
        left.spec_intervals() == right.spec_intervals() implies left == right by {
        lemma_intervals_distinct(left, right);
    }
}

/// Looking up a kind's own interval pattern finds that kind: the catalog is
/// a well-defined function from patterns to kinds.
pub proof fn lemma_lookup_intervals(kind: Chord)
    ensures
        Chord::spec_lookup(kind.spec_intervals()) == Some(kind),
{
    lemma_intervals_distinct_all();
}

/// A pattern is found in the catalog exactly when it is the pattern of the
/// kind that is found.
pub proof fn lemma_lookup_sound(pattern: Seq<u8>, kind: Chord)
    ensures
        Chord::spec_lookup(pattern) == Some(kind) <==> kind.spec_intervals() == pattern,
{
    lemma_intervals_distinct_all();
}

} // verus!
