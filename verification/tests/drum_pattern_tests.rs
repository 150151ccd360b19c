use shr_daw::drum_pattern::{arrange, decode, decode_outcome, encode, load, DrumPattern, Entry};
use shr_daw::sequencer::{Cell, Command, Note, LANES_PER_PAGE};
use std::path::PathBuf;

fn blank_pattern(name: &str, genre: &str, meter: u8, rows: usize) -> DrumPattern {
    DrumPattern {
        name: name.into(),
        genre: genre.into(),
        meter,
        rows: vec![[Cell::default(); LANES_PER_PAGE]; rows],
    }
}

fn hit(note: u8, velocity: u8) -> Cell {
    Cell {
        note: Note::On(note),
        velocity: Some(velocity),
        ..Cell::default()
    }
}

#[test]
fn drum_pattern_round_trips_full_cells() {
    let mut pattern = blank_pattern("Test beat", "Test", 4, 16);
    pattern.rows[0][0] = Cell {
        note: Note::On(36),
        velocity: Some(110),
        gate: Some(50),
        command: Command::Retrigger(2),
        ..Cell::default()
    };
    assert_eq!(decode(&encode(&pattern).unwrap()).unwrap(), pattern);
}

#[test]
fn rejects_invalid_or_future_files() {
    assert!(decode("SHR-DRUM-PATTERN 2\nname=x\nmeter=4\nrows=16\n").is_err());
    assert!(decode("SHR-DRUM-PATTERN 1\nname=x\nmeter=5\nrows=16\n").is_err());
}

#[test]
fn encoded_text_lists_header_and_non_empty_cells() {
    let mut pattern = blank_pattern("Beat = one", "Rock", 3, 12);
    pattern.rows[2][1] = Cell {
        note: Note::Off,
        program: Some(5),
        command: Command::Cut(7),
        ..Cell::default()
    };
    let text = encode(&pattern).unwrap();
    assert_eq!(
        text,
        "SHR-DRUM-PATTERN 1\nname=Beat = one\ngenre=Rock\nmeter=3\nrows=12\ncell=2|1|off|-|5|-|C7\n"
    );
    assert_eq!(decode(&text).unwrap(), pattern);
}

#[test]
fn decoding_reports_each_malformed_file() {
    assert_eq!(decode("").unwrap_err(), "empty drum pattern");
    assert_eq!(decode("HELLO\n").unwrap_err(), "not an SHR-DAW drum pattern");
    assert_eq!(
        decode("SHR-DRUM-PATTERN 1\nname=x\nmeter=4\n").unwrap_err(),
        "missing rows"
    );
    assert_eq!(
        decode("SHR-DRUM-PATTERN 1\nmeter=4\nrows=4\n").unwrap_err(),
        "missing name"
    );
    assert_eq!(
        decode("SHR-DRUM-PATTERN 1\nname=x\nname=y\nmeter=4\nrows=4\n").unwrap_err(),
        "duplicate drum pattern field name"
    );
    assert_eq!(
        decode("SHR-DRUM-PATTERN 1\nname=x\ntempo=4\n").unwrap_err(),
        "unknown drum pattern field tempo"
    );
    assert_eq!(
        decode("SHR-DRUM-PATTERN 1\nname=x\nmeter=4\nrows=4\ncell=9|0|36|-|-|-|-\n").unwrap_err(),
        "drum cell outside pattern"
    );
    assert_eq!(
        decode("SHR-DRUM-PATTERN 1\nname=x\nmeter=4\nrows=4\ncell=0|0|36|-|-|-|-\ncell=0|0|38|-|-|-|-\n")
            .unwrap_err(),
        "duplicate drum cell"
    );
    assert_eq!(
        decode("SHR-DRUM-PATTERN 1\nname=x\nmeter=4\nrows=4\ncell=0|0|200|-|-|-|-\n").unwrap_err(),
        "drum note outside MIDI range"
    );
    assert!(decode_outcome("SHR-DRUM-PATTERN 1\nname=x\nmeter=4\nrows=4\ncell=0|0|36|-|-|-|\n").is_none());
}

#[test]
fn comments_blank_lines_and_crlf_are_tolerated() {
    let pattern = decode("SHR-DRUM-PATTERN 1\r\n# comment\r\n\r\nname=Loop\r\nmeter=4\r\nrows=2\r\n")
        .unwrap();
    assert_eq!(pattern.name, "Loop");
    assert_eq!(pattern.genre, "Other");
    assert_eq!(pattern.rows.len(), 2);
}

#[test]
fn arrangement_repeats_the_bar_and_adds_variation_and_fill() {
    let mut seed = blank_pattern("Groove", "Rock", 4, 16);
    seed.rows[0][0] = hit(36, 100);
    let short = arrange(&seed, 32).unwrap();
    assert_eq!(short.rows.len(), 32);
    assert_eq!(short.name, "Groove · 32");
    assert_eq!(short.rows[16][0], hit(36, 100));
    assert_eq!(short.rows[30][0], hit(36, 76));
    assert_eq!(short.rows[28][3], hit(45, 72));
    assert_eq!(short.rows[31][3], hit(47, 102));
    assert_eq!(short.rows[31][2], Cell::default());
    assert_ne!(short.rows[16..], seed.rows[..]);
    let single = arrange(&seed, 16).unwrap();
    assert_eq!(single.rows, seed.rows);
    assert_eq!(
        arrange(&seed, 24).unwrap_err(),
        "16 rows do not expand evenly into 24"
    );
    assert_eq!(
        arrange(&seed, 512).unwrap_err(),
        "drum pattern needs 1..=256 rows"
    );
}

#[test]
fn house_fill_rises_over_the_last_four_rows() {
    let seed = blank_pattern("Club", "House", 4, 16);
    let phrase = arrange(&seed, 64).unwrap();
    assert_eq!(phrase.rows[60][1], hit(38, 58));
    assert_eq!(phrase.rows[63][1], hit(38, 94));
    assert_eq!(phrase.rows[31][2], hit(46, 72));
    assert_eq!(phrase.rows[47][2], Cell::default());
}

#[test]
fn bundled_entries_load_without_reading_files() {
    let mut pattern = blank_pattern("Bundled", "Jazz", 3, 12);
    pattern.rows[0][1] = hit(38, 40);
    let entry = Entry {
        name: pattern.name.clone(),
        genre: pattern.genre.clone(),
        meter: pattern.meter,
        rows: pattern.rows.len(),
        path: PathBuf::from("catalog.shrdrums"),
        user: false,
        bundled: Some(pattern.clone()),
    };
    assert_eq!(load(&entry, "").unwrap().unwrap(), pattern);
    let user = Entry { bundled: None, user: true, ..entry };
    let text = encode(&pattern).unwrap();
    assert_eq!(load(&user, &text).unwrap().unwrap(), pattern);
}

#[test]
fn malformed_numbers_are_reported_as_rust_reports_them() {
    assert_eq!(
        decode("SHR-DRUM-PATTERN \n").unwrap_err(),
        "cannot parse integer from empty string"
    );
    assert_eq!(decode("SHR-DRUM-PATTERN +\n").unwrap_err(), "invalid digit found in string");
    assert_eq!(decode("SHR-DRUM-PATTERN -1\n").unwrap_err(), "invalid digit found in string");
    assert_eq!(
        decode("SHR-DRUM-PATTERN 256\n").unwrap_err(),
        "number too large to fit in target type"
    );
    assert_eq!(
        decode("SHR-DRUM-PATTERN 9999x\n").unwrap_err(),
        "number too large to fit in target type"
    );
    assert_eq!(
        decode("SHR-DRUM-PATTERN 1\nname=x\nmeter=4x\nrows=4\n").unwrap_err(),
        "invalid digit found in string"
    );
    assert_eq!(
        decode("SHR-DRUM-PATTERN 1\nname=x\nmeter=4\nrows=4\ncell=0|0|300|-|-|-|-\n").unwrap_err(),
        "number too large to fit in target type"
    );
    assert!(decode("SHR-DRUM-PATTERN +1\nname=x\nmeter=4\nrows=4\n").is_ok());
}
