use shr_daw::engine::{
    owner_record_text, parse_owner_record, merge_planned_input, mark_input_open_error, PlannedMidiInput, stat_start_time, same_executable, MidiInputState, MidiInputAvailability, valid_note_message, invalid_note_message,
    controller_allows_musical, controller_learning_owns_message, parse_alsa_clients,
    parse_alsa_destinations, parse_alsa_source_ports, parse_jack_audio_sources,
    parse_jack_connections, resolve_managed_audio_outputs, unique_client_match, InputRoles,
};

#[test]
fn alsa_graph_parser_finds_clients_and_owned_destinations() {
    let lines: [String; 7] = [
        "client 28: 'AudioBox USB 96' [type=kernel]".into(),
        "    0 'AudioBox MIDI'".into(),
        "    1 'AudioBox Control'".into(),
        "client 133: 'shs-casio' [type=user]".into(),
        "    0 'SHR-DAW accompaniment'".into(),
        "\tConnecting To: 28:0, 134:0, 28:0[real:0]".into(),
        "client 134: 'yoshimi-shs-yoshimi' [type=user]".into(),
    ];
    assert_eq!(
        parse_alsa_clients(&lines),
        [
            (28, "AudioBox USB 96".into()),
            (133, "shs-casio".into()),
            (134, "yoshimi-shs-yoshimi".into())
        ]
    );
    assert_eq!(parse_alsa_destinations(&lines, 133), [(28, 0), (134, 0)]);
    assert_eq!(
        parse_alsa_source_ports(&lines),
        [
            (28, 0, "AudioBox USB 96:AudioBox MIDI".into()),
            (28, 1, "AudioBox USB 96:AudioBox Control".into()),
            (133, 0, "shs-casio:SHR-DAW accompaniment".into())
        ]
    );
    let clients = parse_alsa_clients(&lines);
    assert_eq!(
        unique_client_match(&clients, "AudioBox").map(|client| client.0),
        Some(28)
    );
}

#[test]
fn unique_client_match_rejects_ambiguity_and_prefers_exact() {
    let clients = vec![(1, "synth-one".to_string()), (2, "synth-two".to_string())];
    assert!(unique_client_match(&clients, "synth").is_none());
    assert_eq!(
        unique_client_match(&clients, "synth-one").map(|client| client.0),
        Some(1)
    );
    assert_eq!(
        unique_client_match(&clients, "SYNTH-TWO").map(|client| client.0),
        Some(2)
    );
    assert!(unique_client_match(&clients, "").is_none());
}

#[test]
fn control_only_suppresses_unmapped_music_but_keeps_mapped_controls() {
    let roles = InputRoles {
        controller: true,
        performance: false,
    };
    assert!(!controller_allows_musical(roles, false, false));
    assert!(controller_allows_musical(roles, true, false));
    assert!(controller_allows_musical(roles, false, true));
}

#[test]
fn learning_accepts_only_the_selected_controller_role() {
    assert!(controller_learning_owns_message(
        InputRoles {
            controller: true,
            performance: false
        },
        true
    ));
    assert!(!controller_learning_owns_message(
        InputRoles {
            controller: false,
            performance: true
        },
        true
    ));
    assert!(!controller_learning_owns_message(
        InputRoles {
            controller: true,
            performance: true
        },
        false
    ));
}

#[test]
fn managed_audio_graph_resolves_only_one_exact_stereo_client() {
    let ports = vec![
        "shs-synth:audio_out_1".into(),
        "unrelated:audio_out_1".into(),
        "shs-synth:audio_out_2".into(),
        "shs-synth-midi:audio_out_1".into(),
    ];
    assert_eq!(
        resolve_managed_audio_outputs("shs-synth", ports).unwrap(),
        ["shs-synth:audio_out_1", "shs-synth:audio_out_2"]
    );
    assert!(resolve_managed_audio_outputs(
        "shs-synth",
        vec![
            "shs-synth:audio_out_1".into(),
            "shs-synth:audio_out_2".into(),
            "shs-synth:audio_out_3".into(),
        ]
    )
    .is_err());
}

#[test]
fn managed_audio_outputs_accept_one_unambiguous_backend_prefix() {
    let ports = vec![
        "yoshimi-shs-yoshimi:audio/out_1".into(),
        "yoshimi-shs-yoshimi:audio/out_2".into(),
        "unrelated:audio/out_1".into(),
    ];
    assert_eq!(
        resolve_managed_audio_outputs("shs-yoshimi", ports).unwrap(),
        [
            "yoshimi-shs-yoshimi:audio/out_1",
            "yoshimi-shs-yoshimi:audio/out_2"
        ]
    );

    let ambiguous = vec![
        "first-shs-yoshimi:audio/out_1".into(),
        "first-shs-yoshimi:audio/out_2".into(),
        "second-shs-yoshimi:audio/out_1".into(),
        "second-shs-yoshimi:audio/out_2".into(),
    ];
    assert!(resolve_managed_audio_outputs("shs-yoshimi", ambiguous).is_err());
}

#[test]
fn jack_connection_listing_preserves_exact_existing_routes() {
    let lines = [
        "yoshimi-shs-yoshimi:left",
        "   system:playback_1",
        "yoshimi-shs-yoshimi:right",
        "   system:playback_2",
        "system:playback_1",
        "   yoshimi-shs-yoshimi:left",
    ]
    .into_iter()
    .map(str::to_owned)
    .collect();
    assert_eq!(
        parse_jack_connections(lines),
        vec![
            (
                "yoshimi-shs-yoshimi:left".into(),
                "system:playback_1".into()
            ),
            (
                "yoshimi-shs-yoshimi:right".into(),
                "system:playback_2".into()
            ),
            (
                "system:playback_1".into(),
                "yoshimi-shs-yoshimi:left".into()
            ),
        ]
    );
}

#[test]
fn jack_source_discovery_keeps_only_exact_audio_outputs() {
    let lines = [
        "system:capture_2",
        "    properties: output,physical,terminal,",
        "    32 bit float mono audio",
        "midi:out",
        "    properties: output,",
        "    8 bit raw midi",
        "system:playback_1",
        "    properties: input,physical,terminal,",
        "    32 bit float mono audio",
        "source:one",
        "    properties: output,",
        "    32 bit float mono audio",
        "system:capture_1",
        "    properties: output,physical,terminal,",
        "    32 bit float mono audio",
    ]
    .map(str::to_owned)
    .to_vec();
    assert_eq!(
        parse_jack_audio_sources(lines),
        ["source:one", "system:capture_1", "system:capture_2"]
    );
}

#[test]
fn deleted_executable_suffix_does_not_orphan_a_verified_owner() {
    assert!(same_executable("/usr/bin/shr".as_bytes(), "/usr/bin/shr (deleted)".as_bytes()));
    assert!(!same_executable("/usr/bin/shr".as_bytes(), "/usr/bin/other (deleted)".as_bytes()));
}

#[test]
fn executable_identity_keeps_other_suffixes() {
    assert!(same_executable(b"/a (deleted)", b"/a"));
    assert!(!same_executable(b"/a (deleted) ", b"/a"));
    assert!(!same_executable(b"/a", b"/b"));
    assert!(same_executable(b"", b" (deleted)"));
}

#[test]
fn midi_input_states_describe_connection_and_errors() {
    let connected = MidiInputState { wanted: "Pad".into(), resolved: Some("Pad MIDI 1".into()), error: None };
    let failed = MidiInputState { wanted: "Keys".into(), resolved: Some("Keys".into()), error: Some("busy".into()) };
    let missing = MidiInputState { wanted: "Other".into(), resolved: None, error: None };
    assert!(connected.available());
    assert!(!failed.available());
    assert!(!missing.available());
    assert_eq!(connected.description(), "connected · Pad MIDI 1");
    assert_eq!(failed.description(), "unavailable · busy");
    assert_eq!(missing.description(), "not configured");
    let availability = MidiInputAvailability {
        controller: Some(connected.clone()),
        performance: vec![connected.clone(), failed, missing, connected],
    };
    assert!(availability.controller_available());
    assert_eq!(availability.performance_available(), 2);
    assert!(!MidiInputAvailability::default().controller_available());
}

#[test]
fn note_messages_need_three_bytes_and_seven_bit_data() {
    assert!(valid_note_message(&[0x90, 60, 100]));
    assert!(valid_note_message(&[0x8f, 0, 0]));
    assert!(!valid_note_message(&[0x90, 128, 1]));
    assert!(!valid_note_message(&[0xb0, 1, 1]));
    assert!(invalid_note_message(&[0x90, 60]));
    assert!(invalid_note_message(&[0x80, 60, 200]));
    assert!(!invalid_note_message(&[0xb0, 60]));
    assert!(!invalid_note_message(&[]));
    assert!(!invalid_note_message(&[0x90, 60, 1]));
}

#[test]
fn owner_records_round_trip_and_reject_missing_fields() {
    let text = owner_record_text(42, 123, "/usr/bin/shr");
    assert_eq!(text, "pid=42\nstart=123\nexe=/usr/bin/shr\n");
    assert_eq!(parse_owner_record(&text), Some((42, 123, "/usr/bin/shr".to_string())));
    assert_eq!(parse_owner_record("start=1\nexe=/x\n"), None);
    assert_eq!(parse_owner_record("pid=x\nstart=1\nexe=/x\n"), None);
    assert_eq!(parse_owner_record("exe=/a b\npid=-5\nstart=+7\n"), Some((-5, 7, "/a b".to_string())));
    assert_eq!(parse_owner_record("pid=2147483648\nstart=1\nexe=/x\n"), None);
    assert_eq!(owner_record_text(-3, 0, ""), "pid=-3\nstart=0\nexe=\n");
    assert_eq!(parse_owner_record("12\n"), None);
}

#[test]
fn stat_start_time_counts_fields_after_the_command_name() {
    let stat = "1234 (my (odd) proc) S 1 2 3 4 5 6 7 8 9 10 11 12 13 14 15 16 17 18 999 x";
    assert_eq!(stat_start_time(stat), Some(999));
    assert_eq!(stat_start_time("1234 no paren S 1 2"), None);
    assert_eq!(stat_start_time("1 (a) S 1 2"), None);
}

fn state(wanted: &str, resolved: Option<&str>) -> MidiInputState {
    MidiInputState { wanted: wanted.into(), resolved: resolved.map(Into::into), error: None }
}

#[test]
fn planned_inputs_join_roles_for_the_same_port() {
    let mut inputs = Vec::new();
    merge_planned_input(&mut inputs, "Pad".into(), InputRoles { controller: true, performance: false });
    merge_planned_input(&mut inputs, "Keys".into(), InputRoles { controller: false, performance: true });
    merge_planned_input(&mut inputs, "Pad".into(), InputRoles { controller: false, performance: true });
    assert_eq!(
        inputs,
        vec![
            PlannedMidiInput { name: "Pad".into(), roles: InputRoles { controller: true, performance: true } },
            PlannedMidiInput { name: "Keys".into(), roles: InputRoles { controller: false, performance: true } },
        ]
    );
}

#[test]
fn open_errors_mark_the_inputs_the_port_serves() {
    let mut availability = MidiInputAvailability {
        controller: Some(state("Pad", Some("Pad"))),
        performance: vec![state("Pad", Some("Pad")), state("Keys", Some("Keys")), state("Gone", None)],
    };
    let pad = PlannedMidiInput { name: "Pad".into(), roles: InputRoles { controller: false, performance: true } };
    mark_input_open_error(&mut availability, &pad, "busy".into());
    assert_eq!(availability.controller.as_ref().unwrap().error, None);
    assert_eq!(availability.performance[0].error.as_deref(), Some("busy"));
    assert_eq!(availability.performance[1].error, None);
    assert_eq!(availability.performance[2].error, None);

    let control = PlannedMidiInput { name: "Pad".into(), roles: InputRoles { controller: true, performance: false } };
    mark_input_open_error(&mut availability, &control, "locked".into());
    assert_eq!(availability.controller.as_ref().unwrap().error.as_deref(), Some("locked"));
    assert_eq!(availability.performance[0].error.as_deref(), Some("busy"));
    assert_eq!(availability.controller.as_ref().unwrap().description(), "unavailable · locked");
}

#[test]
fn command_paths_with_line_breaks_are_refused() {
    assert_eq!(shr_daw::engine::safe_command_path("/presets/Warm Pad.synthv1"), Ok("/presets/Warm Pad.synthv1".to_string()));
    assert_eq!(shr_daw::engine::safe_command_path("/presets/a\nb").unwrap_err(), "preset path contains a newline");
    assert_eq!(shr_daw::engine::safe_command_path("/presets/a\r").unwrap_err(), "preset path contains a newline");
}
