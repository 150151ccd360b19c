use shr_daw::drum_catalog::decode_catalog;
use shr_daw::sequencer::Note;

#[test]
fn catalog_lines_become_patterns_with_lane_defaults() {
    let text = "SHR-DRUM-CATALOG 1\n# grooves\n\npattern=rock|4|Basic|0,8|4X,12|0,2,4,6,8,10,12,14|-\n";
    let patterns = decode_catalog(text).unwrap();
    assert_eq!(patterns.len(), 1);
    let p = &patterns[0];
    assert_eq!(p.genre, "rock");
    assert_eq!(p.name, "Basic");
    assert_eq!(p.meter, 4);
    assert_eq!(p.rows.len(), 16);
    assert_eq!(p.rows[0][0].note, Note::On(36));
    assert_eq!(p.rows[0][0].velocity, Some(92));
    assert_eq!(p.rows[4][1].note, Note::On(38));
    assert_eq!(p.rows[4][1].velocity, Some(118));
    assert_eq!(p.rows[12][1].velocity, Some(92));
    assert_eq!(p.rows[14][2].note, Note::On(42));
    assert_eq!(p.rows[1][2].note, Note::Empty);
    assert!(p.rows.iter().all(|row| row[3].note == Note::Empty));
}

#[test]
fn catalog_hit_kinds_pick_note_and_velocity() {
    let text = "SHR-DRUM-CATALOG 0\npattern=waltz|3|Brush|0g|3c,6r|2o|9r\n";
    let p = &decode_catalog(text).unwrap()[0];
    assert_eq!(p.rows.len(), 12);
    assert_eq!((p.rows[0][0].note, p.rows[0][0].velocity), (Note::On(36), Some(54)));
    assert_eq!((p.rows[3][1].note, p.rows[3][1].velocity), (Note::On(39), Some(108)));
    assert_eq!((p.rows[6][1].note, p.rows[6][1].velocity), (Note::On(37), Some(82)));
    assert_eq!((p.rows[2][2].note, p.rows[2][2].velocity), (Note::On(46), Some(98)));
    assert_eq!((p.rows[9][3].note, p.rows[9][3].velocity), (Note::On(37), Some(82)));
}

#[test]
fn catalog_errors_name_the_problem() {
    assert_eq!(decode_catalog("").unwrap_err(), "empty drum catalog");
    assert_eq!(decode_catalog("HELLO\n").unwrap_err(), "not an SHR-DAW drum catalog");
    assert_eq!(decode_catalog("SHR-DRUM-CATALOG 2\n").unwrap_err(), "unsupported drum catalog version 2");
    assert_eq!(decode_catalog("SHR-DRUM-CATALOG x\n").unwrap_err(), "invalid digit found in string");
    assert_eq!(decode_catalog("SHR-DRUM-CATALOG 1\nrock|4\n").unwrap_err(), "invalid drum catalog line");
    assert_eq!(
        decode_catalog("SHR-DRUM-CATALOG 1\npattern=rock|4|A|-|-\n").unwrap_err(),
        "drum catalog pattern needs genre, meter, name, and four lanes"
    );
    assert_eq!(
        decode_catalog("SHR-DRUM-CATALOG 1\npattern=rock|5|A|-|-|-|-\n").unwrap_err(),
        "catalog meter must be 3 or 4"
    );
    assert_eq!(
        decode_catalog("SHR-DRUM-CATALOG 1\npattern=rock|4|A|0,0|-|-|-\n").unwrap_err(),
        "duplicate or out-of-range catalog drum step"
    );
    assert_eq!(
        decode_catalog("SHR-DRUM-CATALOG 1\npattern=rock|4|A|16|-|-|-\n").unwrap_err(),
        "duplicate or out-of-range catalog drum step"
    );
    assert_eq!(
        decode_catalog("SHR-DRUM-CATALOG 1\npattern=rock|4|A|0o|-|-|-\n").unwrap_err(),
        "invalid catalog drum hit kind \"o\" for lane 0"
    );
    assert_eq!(
        decode_catalog("SHR-DRUM-CATALOG 1\npattern=rock|4||0|-|-|-\n").unwrap_err(),
        "drum pattern name must contain 1..=64 printable characters"
    );
    assert_eq!(
        decode_catalog("SHR-DRUM-CATALOG 1\npattern=rock|4|A|0|-|-|-\npattern=rock|3|A|-|-|-|-\n").unwrap_err(),
        "duplicate genre/name in drum catalog"
    );
    assert_eq!(decode_catalog("SHR-DRUM-CATALOG 1\n").unwrap().len(), 0);
}
