//! The levels of the game: nine that are fixed, and after them levels drawn
//! at random from a seed.

use crate::chord::Chord;
use crate::note::{notes_of, Note, A, AB, B, BB, C, D, DB, E, EB, F, G, GB};
use crate::trusted::{draw_index, draw_number, seeded_generator};
use vstd::prelude::*;

verus! {

/// A level: its texts, the chords that are to be built, and the notes that
/// are handed out for it.
pub struct GameLevel {
    pub header: &'static str,
    pub name: &'static str,
    pub objectives: Vec<Option<Chord>>,
    pub notes: Vec<Note>,
}

/// What a level holds, as plain values.
pub struct LevelView {
    pub header: Seq<char>,
    pub name: Seq<char>,
    pub objectives: Seq<Option<Chord>>,
    pub notes: Seq<Note>,
}

impl View for GameLevel {
    type V = LevelView;

    open spec fn view(&self) -> LevelView {
        LevelView {
            header: self.header@,
            name: self.name@,
            objectives: self.objectives@,
            notes: self.notes@,
        }
    }
}

/// The fixed levels, for `number` from 1 to 9.
pub open spec fn fixed_level(number: int) -> LevelView {
    if number == 1 {
        LevelView {
            header: "I"@,
            name: "Harmonious Materials"@,
            objectives: seq![Some(Chord::Major)],
            notes: notes_of(seq![C, E, G]),
        }
    } else if number == 2 {
        LevelView {
            header: "ii"@,
            name: "Piano Down a Mine Shaft"@,
            objectives: seq![Some(Chord::Minor)],
            notes: notes_of(seq![AB, B, C, EB]),
        }
    } else if number == 3 {
        LevelView {
            header: "iii"@,
            name: "Interval Training"@,
            objectives: seq![Some(Chord::Major), Some(Chord::Major)],
            notes: notes_of(seq![C, C, E, G, F, A]),
        }
    } else if number == 4 {
        LevelView {
            header: "IV"@,
            name: "Invariant Ringlet"@,
            objectives: seq![Some(Chord::Suspended4), Some(Chord::Minor)],
            notes: notes_of(seq![C, C, E, G, F, A]),
        }
    } else if number == 5 {
        LevelView {
            header: "V"@,
            name: "Dissonant Constonants"@,
            objectives: seq![Some(Chord::Diminished), Some(Chord::Diminished)],
            notes: notes_of(seq![D, B, F, DB, GB, E]),
        }
    } else if number == 6 {
        LevelView {
            header: "vio"@,
            name: "Auganized Chaos"@,
            objectives: seq![Some(Chord::Augmented), Some(Chord::Augmented)],
            notes: notes_of(seq![A, B, DB, EB, F, G]),
        }
    } else if number == 7 {
        LevelView {
            header: "VII\u{394}"@,
            name: "Try Tone Substitution"@,
            objectives: seq![Some(Chord::Dominant7), Some(Chord::Dominant7)],
            notes: notes_of(seq![A, DB, G, E, EB, DB, G, BB]),
        }
    } else if number == 8 {
        LevelView {
            header: "VIII"@,
            name: "I'm too young to Diatonic"@,
            objectives: seq![Some(Chord::Major7), Some(Chord::Minor7)],
            notes: notes_of(seq![C, C, D, E, F, G, A, B]),
        }
    } else {
        LevelView {
            header: "IX"@,
            name: "Chromatic Tac Toe"@,
            objectives: seq![None, None, None],
            notes: notes_of(seq![C, DB, D, EB, E, F, GB, G, AB, A, BB, B]),
        }
    }
}

/// The name of the level `number` where it is drawn at random.
pub open spec fn drawn_name(number: int) -> Seq<char> {
    if number % 5 == 0 {
        "Levels are Random now"@
    } else if number % 5 == 1 {
        "You can stop!"@
    } else if number % 5 == 2 {
        "No really, you can!"@
    } else if number % 5 == 3 {
        "Hey, you're getting good at this!"@
    } else {
        "Is it sight reading, or right seeding?"@
    }
}

/// The level `number` as it comes out where two chords are drawn: both are
/// to be built, from their own notes.
pub open spec fn drawn_level(
    number: int,
    first_kind: Chord,
    first_root: Note,
    second_kind: Chord,
    second_root: Note,
) -> LevelView {
    LevelView {
        header: ""@,
        name: drawn_name(number),
        objectives: seq![Some(first_kind), Some(second_kind)],
        notes: first_kind.spec_notes(first_root) + second_kind.spec_notes(second_root),
    }
}

/// Whether `level` is the level `number` for some two chords on roots in the
/// octave.
pub open spec fn is_drawn_level(level: LevelView, number: int) -> bool {
    exists|first_kind: Chord, first_root: Note, second_kind: Chord, second_root: Note|
        first_root.is_reduced() && second_root.is_reduced() && level == #[trigger] drawn_level(
            number,
            first_kind,
            first_root,
            second_kind,
            second_root,
        )
}

/// The notes of `pitches`, in order.
fn notes_from(pitches: Vec<u8>) -> (notes: Vec<Note>)
    ensures
        notes@ == notes_of(pitches@),
{
    let mut notes: Vec<Note> = Vec::new();
    let mut i: usize = 0;
    while i < pitches.len()
        invariant
            0 <= i <= pitches@.len(),
            notes@.len() == i,
            forall|j: int| 0 <= j < i ==> notes@[j] == Note(pitches@[j]),
        decreases pitches@.len() - i,
    {
        notes.push(Note(pitches[i]));
        i += 1;
    }
    assert(notes@ =~= notes_of(pitches@));
    notes
}

impl GameLevel {
    /// The level `number` for the chords drawn: the kinds by their positions
    /// in the order of declaration, the roots by their pitch classes.
    pub fn from_draws(
        number: usize,
        first_kind: usize,
        first_root: u8,
        second_kind: usize,
        second_root: u8,
    ) -> (level: GameLevel)
        requires
            first_kind < Chord::COUNT,
            second_kind < Chord::COUNT,
        ensures
            level@ == drawn_level(
                number as int,
                Chord::spec_from_repr(first_kind as int)->0,
                Note(first_root),
                Chord::spec_from_repr(second_kind as int)->0,
                Note(second_root),
            ),
    {
        let mut objectives: Vec<Option<Chord>> = Vec::new();
        let mut notes: Vec<Note> = Vec::new();
        let first = Chord::from_repr(first_kind);
        let second = Chord::from_repr(second_kind);
        match (first, second) {
            (Some(first_chord), Some(second_chord)) => {
                objectives.push(Some(first_chord));
                objectives.push(Some(second_chord));
                let mut first_notes = first_chord.get_notes(Note(first_root));
                let mut second_notes = second_chord.get_notes(Note(second_root));
                notes.append(&mut first_notes);
                notes.append(&mut second_notes);
            },
            _ => {},
        }
        let name = match number % 5 {
            0 => "Levels are Random now",
            1 => "You can stop!",
            2 => "No really, you can!",
            3 => "Hey, you're getting good at this!",
            _ => "Is it sight reading, or right seeding?",
        };
        let level = GameLevel { name, header: "", objectives, notes };
        assert(level@.objectives =~= seq![first, second]);
        assert(level@.notes =~= first->0.spec_notes(Note(first_root)) + second->0.spec_notes(
            Note(second_root),
        ));
        level
    }

    /// A level drawn at random from the seed `number`: two chords, each of
    /// any kind on any root, both to be built from their own notes.
    pub fn random_level(number: usize) -> (level: GameLevel)
        ensures
            is_drawn_level(level@, number as int),
    {
        let mut generator = seeded_generator(number as u64);
        let first_kind = draw_index(&mut generator, Chord::COUNT);
        let first_root = draw_number(&mut generator, 12) as u8;
        let second_kind = draw_index(&mut generator, Chord::COUNT);
        let second_root = draw_number(&mut generator, 12) as u8;
        let level = GameLevel::from_draws(
            number,
            first_kind,
            first_root,
            second_kind,
            second_root,
        );
        assert(level@ == drawn_level(
            number as int,
            Chord::spec_from_repr(first_kind as int)->0,
            Note(first_root),
            Chord::spec_from_repr(second_kind as int)->0,
            Note(second_root),
        ));
        level
    }

    /// The level `number`: one of the nine fixed levels for 1 to 9, and a
    /// level drawn at random from the seed `number` for every other number.
    pub fn get_level(number: usize) -> (level: GameLevel)
        ensures
            1 <= number <= 9 ==> level@ == fixed_level(number as int),
            !(1 <= number <= 9) ==> is_drawn_level(level@, number as int),
    {
        let level = match number {
            1 => GameLevel {
                name: "Harmonious Materials",
                header: "I",
                objectives: vec![Some(Chord::Major)],
                notes: notes_from(vec![C, E, G]),
            },
            2 => GameLevel {
                header: "ii",
                name: "Piano Down a Mine Shaft",
                objectives: vec![Some(Chord::Minor)],
                notes: notes_from(vec![AB, B, C, EB]),
            },
            3 => GameLevel {
                header: "iii",
                name: "Interval Training",
                objectives: vec![Some(Chord::Major), Some(Chord::Major)],
                notes: notes_from(vec![C, C, E, G, F, A]),
            },
            4 => GameLevel {
                header: "IV",
                name: "Invariant Ringlet",
                objectives: vec![Some(Chord::Suspended4), Some(Chord::Minor)],
                notes: notes_from(vec![C, C, E, G, F, A]),
            },
            5 => GameLevel {
                header: "V",
                name: "Dissonant Constonants",
                objectives: vec![Some(Chord::Diminished), Some(Chord::Diminished)],
                notes: notes_from(vec![D, B, F, DB, GB, E]),
            },
            6 => GameLevel {
                header: "vio",
                name: "Auganized Chaos",
                objectives: vec![Some(Chord::Augmented), Some(Chord::Augmented)],
                notes: notes_from(vec![A, B, DB, EB, F, G]),
            },
            7 => GameLevel {
                header: "VII\u{394}",
                name: "Try Tone Substitution",
                objectives: vec![Some(Chord::Dominant7), Some(Chord::Dominant7)],
                notes: notes_from(vec![A, DB, G, E, EB, DB, G, BB]),
            },
            8 => GameLevel {
                header: "VIII",
                name: "I'm too young to Diatonic",
                objectives: vec![Some(Chord::Major7), Some(Chord::Minor7)],
                notes: notes_from(vec![C, C, D, E, F, G, A, B]),
            },
            9 => GameLevel {
                header: "IX",
                name: "Chromatic Tac Toe",
                objectives: vec![None, None, None],
                notes: notes_from(vec![C, DB, D, EB, E, F, GB, G, AB, A, BB, B]),
            },
            _ => {
                return GameLevel::random_level(number);
            },
        };
        assert(level@.objectives =~= fixed_level(number as int).objectives);
        assert(level@.notes =~= fixed_level(number as int).notes);
        level
    }
}

} // verus!
