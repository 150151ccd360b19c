use shr_daw::chord::{HeldNotes, NoteNaming};

fn recognize(notes: &[u8]) -> (String, String) {
    let mut held = HeldNotes::default();
    for note in notes {
        held.observe(&[0x90, *note, 100]);
    }
    let display = held.display(NoteNaming::German).unwrap();
    (
        display.chord,
        display
            .notes
            .iter()
            .map(|note| note.name)
            .collect::<Vec<_>>()
            .join(" "),
    )
}

#[test]
fn recognizes_note_chord_inversion_and_unusual_set() {
    assert_eq!(recognize(&[61]), ("C#".into(), "C#".into()));
    assert_eq!(recognize(&[60, 64, 67]), ("C maj".into(), "C E G".into()));
    assert_eq!(
        recognize(&[61, 66, 68, 72]),
        ("C#maj7sus4".into(), "C# F# G# C".into())
    );
    assert_eq!(recognize(&[64, 67, 72]).0, "C maj/E");
    assert_eq!(recognize(&[60, 61, 66]).0, "C [b2 b5]");
}

#[test]
fn note_off_and_all_notes_off_clear_notes() {
    let mut held = HeldNotes::default();
    held.observe(&[0x91, 60, 100]);
    held.observe(&[0x81, 60, 0]);
    assert!(held.display(NoteNaming::German).is_none());
    held.observe(&[0x92, 60, 100]);
    held.observe(&[0xb2, 123, 0]);
    assert!(held.display(NoteNaming::German).is_none());
}

#[test]
fn malformed_data_bytes_are_ignored() {
    let mut held = HeldNotes::default();
    held.observe(&[0x90, 255, 100]);
    held.observe(&[0x90, 60, 255]);
    held.observe(&[0x90, 60, 100, 0]);
    assert!(held.display(NoteNaming::German).is_none());
}

#[test]
fn uses_central_european_b_and_h_names() {
    assert_eq!(recognize(&[70]).0, "B");
    assert_eq!(recognize(&[71]).0, "H");
}

#[test]
fn english_naming_uses_a_sharp_and_b() {
    let mut held = HeldNotes::default();
    held.observe(&[0x90, 70, 100]);
    held.observe(&[0x90, 74, 100]);
    held.observe(&[0x90, 77, 100]);
    let display = held.display(NoteNaming::English).unwrap();
    assert_eq!(display.chord, "A# maj");
    assert_eq!(
        display
            .notes
            .iter()
            .map(|note| note.name)
            .collect::<Vec<_>>(),
        ["A#", "D", "F"]
    );
}

#[test]
fn held_notes_retain_velocity_and_zero_velocity_is_note_off() {
    let mut held = HeldNotes::default();
    held.observe(&[0x90, 60, 37]);
    held.observe(&[0x90, 60, 55]);
    held.observe(&[0x90, 64, 92]);
    held.observe(&[0x90, 67, 127]);
    let display = held.display(NoteNaming::German).unwrap();
    assert_eq!(display.chord, "C maj");
    assert_eq!(
        display
            .notes
            .iter()
            .map(|note| (note.midi_note, note.velocity))
            .collect::<Vec<_>>(),
        [(60, 55), (64, 92), (67, 127)]
    );

    held.observe(&[0x90, 64, 0]);
    let display = held.display(NoteNaming::German).unwrap();
    assert_eq!(
        display
            .notes
            .iter()
            .map(|note| (note.midi_note, note.velocity))
            .collect::<Vec<_>>(),
        [(60, 55), (67, 127)]
    );
}

#[test]
fn channel_ownership_and_duplicate_pitch_use_highest_held_velocity() {
    let mut held = HeldNotes::default();
    held.observe(&[0x90, 60, 48]);
    held.observe(&[0x91, 60, 110]);
    held.observe(&[0x91, 64, 76]);

    let display = held.display(NoteNaming::German).unwrap();
    assert_eq!(display.notes[0].velocity, 110);
    held.observe(&[0x81, 60, 0]);
    let display = held.display(NoteNaming::German).unwrap();
    assert_eq!(display.notes[0].velocity, 48);
    assert_eq!(display.notes[1].velocity, 76);

    held.observe(&[0xb0, 120, 0]);
    let display = held.display(NoteNaming::German).unwrap();
    assert_eq!(display.notes.len(), 1);
    assert_eq!(
        (display.notes[0].midi_note, display.notes[0].velocity),
        (64, 76)
    );
}

#[test]
fn naming_config_values_and_held_queries() {
    assert_eq!(NoteNaming::German.config_value(), "german");
    assert_eq!(NoteNaming::English.config_value(), "english");
    let mut held = HeldNotes::default();
    held.observe(&[0x93, 62, 90]);
    assert!(held.is_held(62));
    assert!(!held.is_held(63));
    held.observe(&[0x83, 62, 0]);
    assert!(!held.is_held(62));
}
