//! Pitch classes and what is derived from them: name, tuning ratio and colour.

use vstd::prelude::*;

verus! {

/// One of the twelve equal-tempered pitch classes, without octave.
///
/// The number is meant to lie in `0..12`; [`Note::new`] and
/// [`Note::transpose`] keep it there. Every function of this crate reads a
/// note through its residue modulo 12, so a number outside that range stands
/// for the pitch class it reduces to.
#[derive(Clone, Copy, PartialEq, Eq, PartialOrd, Ord, Hash, Debug, Structural)]
pub struct Note(pub u8);

/// A colour by hue, saturation, lightness and opacity: the hue in degrees, the
/// other three in hundredths.
#[derive(Clone, Copy, PartialEq, Eq, Hash, Debug, Structural)]
pub struct Hsla {
    pub hue: u16,
    pub saturation: u8,
    pub lightness: u8,
    pub alpha: u8,
}

/// A frequency relative to that of C, as a fraction in lowest terms.
#[derive(Clone, Copy, PartialEq, Eq, Hash, Debug, Structural)]
pub struct Ratio {
    pub numerator: u8,
    pub denominator: u8,
}

/// The pitch class of C.
pub const C: u8 = 0;

/// The pitch class of D flat.
pub const DB: u8 = 1;

/// The pitch class of D.
pub const D: u8 = 2;

/// The pitch class of E flat.
pub const EB: u8 = 3;

/// The pitch class of E.
pub const E: u8 = 4;

/// The pitch class of F.
pub const F: u8 = 5;

/// The pitch class of G flat.
pub const GB: u8 = 6;

/// The pitch class of G.
pub const G: u8 = 7;

/// The pitch class of A flat.
pub const AB: u8 = 8;

/// The pitch class of A.
pub const A: u8 = 9;

/// The pitch class of B flat.
pub const BB: u8 = 10;

/// The pitch class of B.
pub const B: u8 = 11;

/// The notes of the pitch classes `pitches`, in order.
pub open spec fn notes_of(pitches: Seq<u8>) -> Seq<Note> {
    pitches.map_values(|pitch: u8| Note(pitch))
}

/// The name of the pitch class `pitch`, for `pitch` in `0..12`.
pub open spec fn pitch_name(pitch: u8) -> Seq<char> {
    if pitch == 0 {
        "C"@
    } else if pitch == 1 {
        "C#"@
    } else if pitch == 2 {
        "D"@
    } else if pitch == 3 {
        "D#"@
    } else if pitch == 4 {
        "E"@
    } else if pitch == 5 {
        "F"@
    } else if pitch == 6 {
        "F#"@
    } else if pitch == 7 {
        "G"@
    } else if pitch == 8 {
        "G#"@
    } else if pitch == 9 {
        "A"@
    } else if pitch == 10 {
        "A#"@
    } else {
        "B"@
    }
}

/// The just-intonation ratio of the pitch class `pitch` to C, as numerator
/// and denominator.
pub open spec fn pitch_ratio(pitch: u8) -> (u8, u8) {
    if pitch == 0 {
        (1u8, 1u8)
    } else if pitch == 1 {
        (16u8, 15u8)
    } else if pitch == 2 {
        (9u8, 8u8)
    } else if pitch == 3 {
        (6u8, 5u8)
    } else if pitch == 4 {
        (5u8, 4u8)
    } else if pitch == 5 {
        (4u8, 3u8)
    } else if pitch == 6 {
        (64u8, 45u8)
    } else if pitch == 7 {
        (3u8, 2u8)
    } else if pitch == 8 {
        (8u8, 5u8)
    } else if pitch == 9 {
        (5u8, 3u8)
    } else if pitch == 10 {
        (16u8, 9u8)
    } else {
        (15u8, 8u8)
    }
}

impl Note {
    /// The pitch class this note stands for: its number reduced modulo 12.
    pub open spec fn pitch(self) -> u8 {
        (self.0 % 12) as u8
    }

    /// Whether the number itself is a pitch class.
    pub open spec fn is_reduced(self) -> bool {
        self.0 < 12
    }

    /// The note of pitch class `value mod 12`.
    pub fn new(value: u8) -> (note: Note)
        ensures
            note.0 == value % 12,
            note.is_reduced(),
    {
        Note(value % 12)
    }

    /// The pitch class as a number in `0..12`.
    pub fn pitch_class(self) -> (pitch: u8)
        ensures
            pitch == self.pitch(),
            pitch < 12,
    {
        self.0 % 12
    }

    /// The note `semitones` above this one (below it, where `semitones` is
    /// negative), wrapped into the octave.
    pub fn transpose(self, semitones: i32) -> (note: Note)
        ensures
            note.0 as int == (self.0 as int + semitones as int) % 12,
            note.is_reduced(),
    {
        let base: i64 = (self.0 % 12) as i64;
        let step: i64 = (semitones as i64) % 12;
        let sum: i64 = (base + step + 12) % 12;
        assert(sum == (self.0 as int + semitones as int) % 12) by (nonlinear_arith)
            requires
                base == self.0 as int % 12,
                -12 < step < 12,
                (semitones as int - step as int) % 12 == 0,
                sum == (base + step + 12) % 12,
        ;
        Note(sum as u8)
    }

    /// The twelve notes in ascending order.
    pub fn all_notes() -> (notes: [Note; 12])
        ensures
            forall|i: int| 0 <= i < 12 ==> (#[trigger] notes[i]).0 == i,
    {
        [
            Note(0),
            Note(1),
            Note(2),
            Note(3),
            Note(4),
            Note(5),
            Note(6),
            Note(7),
            Note(8),
            Note(9),
            Note(10),
            Note(11),
        ]
    }

    /// The display name of the pitch class.
    pub fn get_name(self) -> (name: &'static str)
        ensures
            name@ == pitch_name(self.pitch()),
    {
        match self.0 % 12 {
            0 => "C",
            1 => "C#",
            2 => "D",
            3 => "D#",
            4 => "E",
            5 => "F",
            6 => "F#",
            7 => "G",
            8 => "G#",
            9 => "A",
            10 => "A#",
            _ => "B",
        }
    }

    /// The just-intonation ratio of this pitch class to C.
    pub fn get_frequency_ratio(self) -> (ratio: Ratio)
        ensures
            (ratio.numerator, ratio.denominator) == pitch_ratio(self.pitch()),
    {
        match self.0 % 12 {
            0 => Ratio { numerator: 1, denominator: 1 },
            1 => Ratio { numerator: 16, denominator: 15 },
            2 => Ratio { numerator: 9, denominator: 8 },
            3 => Ratio { numerator: 6, denominator: 5 },
            4 => Ratio { numerator: 5, denominator: 4 },
            5 => Ratio { numerator: 4, denominator: 3 },
            6 => Ratio { numerator: 64, denominator: 45 },
            7 => Ratio { numerator: 3, denominator: 2 },
            8 => Ratio { numerator: 8, denominator: 5 },
            9 => Ratio { numerator: 5, denominator: 3 },
            10 => Ratio { numerator: 16, denominator: 9 },
            _ => Ratio { numerator: 15, denominator: 8 },
        }
    }

    /// The light colour of the note: the hue steps by 210 degrees per
    /// semitone round the colour wheel.
    pub fn get_color(self) -> (color: Hsla)
        ensures
            color == (Hsla {
                hue: ((210 * self.0) % 360) as u16,
                saturation: 70,
                lightness: 80,
                alpha: 80,
            }),
    {
        let turns: u32 = 210 * (self.0 as u32);
        Hsla { hue: (turns % 360) as u16, saturation: 70, lightness: 80, alpha: 80 }
    }

    /// The dark colour of the note: the hue steps by 30 degrees per semitone.
    pub fn get_dark_color(self) -> (color: Hsla)
        ensures
            color == (Hsla { hue: (30 * self.0) as u16, saturation: 70, lightness: 40, alpha: 80 }),
    {
        Hsla { hue: 30 * (self.0 as u16), saturation: 70, lightness: 40, alpha: 80 }
    }
}

} // verus!
