use chord_fusion::note::{Hsla, Note, Ratio};

#[test]
fn names_of_the_twelve_pitch_classes() {
    let names: Vec<&str> = (0..12u8).map(|p| Note(p).get_name()).collect();
    assert_eq!(
        names,
        vec!["C", "C#", "D", "D#", "E", "F", "F#", "G", "G#", "A", "A#", "B"]
    );
}

#[test]
fn name_reads_a_note_modulo_twelve() {
    assert_eq!(Note(12).get_name(), "C");
    assert_eq!(Note(25).get_name(), "C#");
    assert_eq!(Note(255).get_name(), "D#");
}

#[test]
fn new_reduces_modulo_twelve() {
    assert_eq!(Note::new(0), Note(0));
    assert_eq!(Note::new(11), Note(11));
    assert_eq!(Note::new(12), Note(0));
    assert_eq!(Note::new(255), Note(3));
}

#[test]
fn pitch_class_is_the_residue() {
    assert_eq!(Note(7).pitch_class(), 7);
    assert_eq!(Note(19).pitch_class(), 7);
}

#[test]
fn transpose_up_wraps_round() {
    assert_eq!(Note(0).transpose(4), Note(4));
    assert_eq!(Note(9).transpose(7), Note(4));
    assert_eq!(Note(11).transpose(1), Note(0));
    assert_eq!(Note(5).transpose(24), Note(5));
}

#[test]
fn transpose_down_stays_in_the_octave() {
    assert_eq!(Note(0).transpose(-1), Note(11));
    assert_eq!(Note(3).transpose(-7), Note(8));
    assert_eq!(Note(0).transpose(-12), Note(0));
    assert_eq!(Note(0).transpose(-25), Note(11));
    assert_eq!(Note(0).transpose(i32::MIN), Note(4));
    assert_eq!(Note(11).transpose(i32::MAX), Note(6));
}

#[test]
fn transpose_there_and_back() {
    for pitch in 0..12u8 {
        for step in -30..30 {
            assert_eq!(Note(pitch).transpose(step).transpose(-step), Note(pitch));
        }
    }
}

#[test]
fn all_notes_ascend_from_c() {
    let notes = Note::all_notes();
    for (i, note) in notes.iter().enumerate() {
        assert_eq!(note.0 as usize, i);
    }
}

#[test]
fn frequency_ratios_of_just_intonation() {
    let ratios: Vec<(u8, u8)> = (0..12u8)
        .map(|p| {
            let Ratio { numerator, denominator } = Note(p).get_frequency_ratio();
            (numerator, denominator)
        })
        .collect();
    assert_eq!(
        ratios,
        vec![
            (1, 1),
            (16, 15),
            (9, 8),
            (6, 5),
            (5, 4),
            (4, 3),
            (64, 45),
            (3, 2),
            (8, 5),
            (5, 3),
            (16, 9),
            (15, 8)
        ]
    );
    assert_eq!(Note(19).get_frequency_ratio(), Ratio { numerator: 3, denominator: 2 });
}

#[test]
fn frequency_of_a_is_five_thirds_of_c() {
    let ratio = Note(9).get_frequency_ratio();
    let hertz = 261.62f32 * ratio.numerator as f32 / ratio.denominator as f32;
    assert_eq!(hertz, 261.62f32 * 5. / 3.);
}

#[test]
fn light_colour_steps_by_210_degrees() {
    assert_eq!(Note(0).get_color(), Hsla { hue: 0, saturation: 70, lightness: 80, alpha: 80 });
    assert_eq!(Note(1).get_color().hue, 210);
    assert_eq!(Note(2).get_color().hue, 60);
    assert_eq!(Note(7).get_color().hue, 30);
    assert_eq!(Note(11).get_color().hue, 150);
}

#[test]
fn dark_colour_steps_by_30_degrees() {
    assert_eq!(Note(0).get_dark_color(), Hsla { hue: 0, saturation: 70, lightness: 40, alpha: 80 });
    assert_eq!(Note(4).get_dark_color().hue, 120);
    assert_eq!(Note(11).get_dark_color().hue, 330);
}
