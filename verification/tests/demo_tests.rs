use shr_daw::demo::{check_demo, check_manifest, is_sha256, validate_midi, Demo, Hashes, Manifest};

fn track(body: &[u8]) -> Vec<u8> {
    let mut out = b"MTrk".to_vec();
    out.extend_from_slice(&(body.len() as u32).to_be_bytes());
    out.extend_from_slice(body);
    out
}

fn midi(format: u16, declared: u16, division: u16, tracks: &[Vec<u8>]) -> Vec<u8> {
    let mut out = b"MThd".to_vec();
    out.extend_from_slice(&6u32.to_be_bytes());
    out.extend_from_slice(&format.to_be_bytes());
    out.extend_from_slice(&declared.to_be_bytes());
    out.extend_from_slice(&division.to_be_bytes());
    for t in tracks {
        out.extend_from_slice(t);
    }
    out
}

fn end_of_track() -> Vec<u8> {
    track(&[0x00, 0xFF, 0x2F, 0x00])
}

#[test]
fn well_formed_demo_midi_is_accepted() {
    let tracks = vec![end_of_track(); 5];
    assert_eq!(validate_midi(&midi(1, 5, 480, &tracks), 4), Ok(()));
}

#[test]
fn midi_header_problems_are_named() {
    assert_eq!(validate_midi(b"MThd", 4).unwrap_err(), "invalid Standard MIDI header");
    let mut wrong_tag = midi(1, 5, 480, &vec![end_of_track(); 5]);
    wrong_tag[0] = b'X';
    assert_eq!(validate_midi(&wrong_tag, 4).unwrap_err(), "invalid Standard MIDI header");
    let format0 = midi(0, 5, 480, &vec![end_of_track(); 5]);
    assert_eq!(
        validate_midi(&format0, 4).unwrap_err(),
        "demo MIDI must be format 1 with conductor plus declared parts"
    );
    let undeclared = midi(1, 4, 480, &vec![end_of_track(); 5]);
    assert_eq!(
        validate_midi(&undeclared, 4).unwrap_err(),
        "demo MIDI must be format 1 with conductor plus declared parts"
    );
    let no_division = midi(1, 5, 0, &vec![end_of_track(); 5]);
    assert_eq!(
        validate_midi(&no_division, 4).unwrap_err(),
        "demo MIDI must be format 1 with conductor plus declared parts"
    );
}

#[test]
fn midi_track_problems_are_named() {
    let mut tracks = vec![end_of_track(); 4];
    tracks.push(b"MTxx".to_vec());
    assert_eq!(validate_midi(&midi(1, 5, 480, &tracks), 4).unwrap_err(), "invalid MIDI track chunk");

    let mut short_length = vec![end_of_track(); 4];
    short_length.push(b"MTrk\0\0".to_vec());
    assert_eq!(
        validate_midi(&midi(1, 5, 480, &short_length), 4).unwrap_err(),
        "truncated MIDI track length"
    );

    let mut truncated = vec![end_of_track(); 4];
    let mut cut = end_of_track();
    cut.pop();
    truncated.push(cut);
    assert_eq!(validate_midi(&midi(1, 5, 480, &truncated), 4).unwrap_err(), "truncated MIDI track");

    let mut unterminated = vec![end_of_track(); 4];
    unterminated.push(track(&[0x00, 0x90, 0x3C, 0x40]));
    assert_eq!(
        validate_midi(&midi(1, 5, 480, &unterminated), 4).unwrap_err(),
        "MIDI track lacks an end marker"
    );

    let too_few = vec![end_of_track(); 4];
    assert_eq!(
        validate_midi(&midi(1, 5, 480, &too_few), 4).unwrap_err(),
        "MIDI chunk count does not match its header"
    );
}

#[test]
fn sha256_digests_are_sixty_four_hex_digits() {
    assert!(is_sha256(&"0123456789abcdefABCDEF".repeat(3)[..64]));
    assert!(!is_sha256(&"a".repeat(63)));
    assert!(!is_sha256(&"g".repeat(64)));
    assert!(!is_sha256(&"a".repeat(65)));
}

fn demo(id: &str) -> Demo {
    Demo {
        id: id.into(),
        title: "A Tune".into(),
        bpm: 96,
        time_signature: "4/4".into(),
        key: "D minor".into(),
        tracks: vec!["Drums".into(), "Bass".into(), "Pad".into(), "Lead".into()],
        description: "A short arrangement.".into(),
        style_ideas: vec!["swing the hats".into()],
        public_domain_reasoning: "x".repeat(80),
        sources: vec!["https://example.org/score".into()],
        midi: format!("{id}.mid"),
        project: format!("{id}.shsong"),
        sha256: Hashes { midi: "a".repeat(64), project: "b".repeat(64) },
    }
}

#[test]
fn a_complete_demo_entry_passes() {
    assert_eq!(check_demo(&demo("old-tune-1"), &vec!["other".into()]), Ok(()));
}

#[test]
fn demo_ids_must_be_new_and_well_formed() {
    let message = "duplicate demo id or empty title";
    assert_eq!(check_demo(&demo("tune"), &vec!["tune".into()]).unwrap_err(), message);
    for id in ["", "-tune", "tune-", "tu--ne", "Tune", "tune_1"] {
        assert_eq!(check_demo(&demo(id), &vec![]).unwrap_err(), message, "{id}");
    }
    let mut untitled = demo("tune");
    untitled.title = " \t".into();
    assert_eq!(check_demo(&untitled, &vec![]).unwrap_err(), message);
}

#[test]
fn demo_files_must_be_named_after_the_id() {
    let mut entry = demo("tune");
    entry.midi = "other.mid".into();
    assert_eq!(
        check_demo(&entry, &vec![]).unwrap_err(),
        "demo paths must be safe and derived from their id"
    );
}

#[test]
fn demos_need_the_useful_parts() {
    let mut entry = demo("tune");
    entry.tracks.retain(|t| t != "Pad");
    entry.tracks.push("Keys".into());
    assert_eq!(check_demo(&entry, &vec![]).unwrap_err(), "demo lacks the required useful parts");
    let mut crowded = demo("tune");
    for n in 0..5 {
        crowded.tracks.push(format!("Extra {n}"));
    }
    assert_eq!(check_demo(&crowded, &vec![]).unwrap_err(), "demo lacks the required useful parts");
}

#[test]
fn demo_metadata_and_provenance_must_be_complete() {
    let message = "demo metadata or provenance is incomplete";
    let mut slow = demo("tune");
    slow.bpm = 19;
    assert_eq!(check_demo(&slow, &vec![]).unwrap_err(), message);
    let mut short = demo("tune");
    short.public_domain_reasoning = "x".repeat(79);
    assert_eq!(check_demo(&short, &vec![]).unwrap_err(), message);
    let mut wide = demo("tune");
    wide.public_domain_reasoning = "é".repeat(40);
    assert_eq!(check_demo(&wide, &vec![]), Ok(()));
    let mut insecure = demo("tune");
    insecure.sources.push("http://example.org".into());
    assert_eq!(check_demo(&insecure, &vec![]).unwrap_err(), message);
    let mut unhashed = demo("tune");
    unhashed.sha256.project = "xyz".into();
    assert_eq!(check_demo(&unhashed, &vec![]).unwrap_err(), message);
}

#[test]
fn manifest_policy_and_contents_are_checked() {
    let manifest = |schema: u8, policy: &str, demos: Vec<Demo>| Manifest { schema, policy: policy.into(), demos };
    let policy = "Only files named here are cleared for distribution.";
    assert_eq!(check_manifest(&manifest(1, policy, vec![demo("tune")])), Ok(()));
    assert_eq!(
        check_manifest(&manifest(2, policy, vec![demo("tune")])).unwrap_err(),
        "unknown or non-explicit demo manifest policy"
    );
    assert_eq!(
        check_manifest(&manifest(1, "Anything goes", vec![demo("tune")])).unwrap_err(),
        "unknown or non-explicit demo manifest policy"
    );
    assert_eq!(check_manifest(&manifest(1, policy, vec![])).unwrap_err(), "demo manifest is empty");
}
