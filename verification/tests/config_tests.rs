use shr_daw::chord::NoteNaming;
use shr_daw::config::{setting_values, AudioRouteState, BankSelectMode, RuntimeConfig, StereoOutputConfig};

const TYPICAL: &str = "synthv1.command=synthv1_jack\nsynthv1.client=synthv1\nsynth.startup_timeout_ms=8000\nsynthv1.midi_output=synthv1\nyoshimi.command=yoshimi\nyoshimi.client=yoshimi\nyoshimi.midi_output=yoshimi\nyoshimi.presets_per_category=8\nfluidsynth.command=fluidsynth\nfluidsynth.client=fluidsynth\nfluidsynth.midi_output=FLUID\ncapture.directory=/tmp/recordings\nloop.import_directory=/tmp/music\n";

fn defaults() -> RuntimeConfig {
    RuntimeConfig::base(None).merged(TYPICAL, "defaults.conf", None).unwrap()
}

fn load(text: &str) -> Result<RuntimeConfig, String> {
    defaults().merged(text, "test.conf", None)
}

fn reload(config: &RuntimeConfig) -> RuntimeConfig {
    let text = config.save_text("test.conf", None).unwrap();
    load(&text).unwrap()
}

#[test]
fn note_names_default_to_german_and_round_trip_english() {
    assert_eq!(RuntimeConfig::base(None).note_naming, NoteNaming::German);
    let config = load("display.note_names=english\n").unwrap();
    assert_eq!(config.note_naming, NoteNaming::English);
    assert_eq!(reload(&config).note_naming, NoteNaming::English);
    let error = load("display.note_names=solfege\n").unwrap_err();
    assert_eq!(error, "display.note_names must be german or english");
}

#[test]
fn legacy_keys_set_client_input_and_output() {
    let config = load("synth.client=my-synth\nmidi.input=Controller X\naudio.output=usb:out_1\n").unwrap();
    assert_eq!(config.client_name, "my-synth");
    assert_eq!(config.midi_input_matches, ["Controller X"]);
    assert_eq!(config.audio_outputs, ["usb:out_1"]);
    assert_eq!(reload(&config).client_name, "my-synth");
}

#[test]
fn configured_lists_replace_earlier_lists() {
    let mut base = defaults();
    base.yoshimi.backend.preset_roots = vec!["/old".to_string()];
    base.yoshimi.categories = vec!["pads".to_string()];
    let config = base
        .merged(
            "yoshimi.preset_root=/sounds/yoshimi\nyoshimi.category=Bass\nyoshimi.category=lead\nfluidsynth.soundfont=/sounds/tim.sf2\n",
            "test.conf",
            None,
        )
        .unwrap();
    assert_eq!(config.yoshimi.backend.preset_roots, ["/sounds/yoshimi"]);
    assert_eq!(config.yoshimi.categories, ["bass", "lead"]);
    assert_eq!(config.fluidsynth.soundfonts, ["/sounds/tim.sf2"]);
}

#[test]
fn loop_routing_and_import_inbox_round_trip() {
    let config = load(
        "loop.client=my-loop\nloop.import_directory=/private/inbox\nloop.output=usb:left\nloop.output=usb:right\n",
    )
    .unwrap();
    assert_eq!(config.loop_player.client_name, "my-loop");
    assert_eq!(config.loop_player.import_directory, "/private/inbox");
    assert_eq!(config.loop_player.outputs, ["usb:left", "usb:right"]);
    assert_eq!(reload(&config).loop_player.outputs, ["usb:left", "usb:right"]);
}

#[test]
fn duplicate_channels_and_sparse_drum_map_are_kept() {
    let config = load(
        "external_midi.channel=1\nexternal_midi.channel=2\nexternal_midi.channel=3\nexternal_midi.channel=3\nexternal_midi.percussion_channel=3\nexternal_midi.percussion_program=9\nexternal_midi.percussion_input_base=60\nexternal_midi.percussion_note=36\nexternal_midi.percussion_note=38\n",
    )
    .unwrap();
    assert_eq!(config.external_midi.channels, [0, 1, 2, 2]);
    assert_eq!(config.external_midi.percussion_channel, Some(2));
    assert_eq!(config.external_midi.percussion_program, Some(9));
    assert_eq!(config.external_midi.percussion_notes, [36, 38]);
    let loaded = reload(&config);
    assert_eq!(loaded.external_midi.channels, [0, 1, 2, 2]);
    assert_eq!(loaded.external_midi.percussion_notes, [36, 38]);
}

#[test]
fn unknown_settings_and_malformed_lines_are_rejected_with_their_line() {
    assert_eq!(load("audio.typo=yes\n").unwrap_err(), "test.conf:1: unknown setting audio.typo");
    assert_eq!(load("# note\n\nno equals sign\n").unwrap_err(), "test.conf:3: expected KEY=VALUE");
}

#[test]
fn audio_engine_cpu_is_optional_and_round_trips() {
    let config = load("audio.engine_cpu=3\n").unwrap();
    assert_eq!(config.audio_engine_cpu, Some(3));
    assert_eq!(reload(&config).audio_engine_cpu, Some(3));
    assert_eq!(load("audio.engine_cpu=\n").unwrap().audio_engine_cpu, None);
}

#[test]
fn audio_graph_needs_autoconnect_and_a_stereo_pair() {
    let config = load(
        "audio.autoconnect=true\naudio.output=usb:l\naudio.output=usb:r\naudio.graph.enabled=true\naudio.graph.client=my-graph\naudio.graph.maximum_callback_frames=256\n",
    )
    .unwrap();
    assert!(config.audio_graph.enabled);
    assert_eq!(config.audio_graph.client_name, "my-graph");
    assert_eq!(config.audio_graph.maximum_callback_frames, 256);
    assert!(reload(&config).audio_graph.enabled);
    assert!(load("audio.autoconnect=false\naudio.graph.enabled=true\n").is_err());
    assert_eq!(
        load("audio.autoconnect=yes\naudio.output=only:left\naudio.graph.enabled=true\n").unwrap_err(),
        "audio.graph.enabled requires audio.autoconnect and two audio.output entries"
    );
    assert!(!RuntimeConfig::base(None).audio_graph.enabled);
}

#[test]
fn audio_fallback_priority_is_runtime_only_and_headphones_are_last() {
    let mut config = RuntimeConfig::base(None);
    config.audio_autoconnect = true;
    config.audio_outputs = vec!["usb:l".into(), "usb:r".into()];
    config.audio_internal_outputs = vec![StereoOutputConfig {
        name: "Pi HDMI".into(),
        left_port: "hdmi:l".into(),
        right_port: "hdmi:r".into(),
    }];
    config.audio_headphone_output = Some(StereoOutputConfig {
        name: "Pi analogue".into(),
        left_port: "phones:l".into(),
        right_port: "phones:r".into(),
    });

    let all = ["usb:l", "usb:r", "hdmi:l", "hdmi:r", "phones:l", "phones:r"].map(str::to_owned);
    assert_eq!(config.resolve_audio_route(&all).state, AudioRouteState::Preferred);
    let internal = ["hdmi:l", "hdmi:r", "phones:l", "phones:r"].map(str::to_owned);
    assert_eq!(
        config.resolve_audio_route(&internal).state,
        AudioRouteState::InternalFallback { name: "Pi HDMI".into() }
    );
    let phones = ["phones:l", "phones:r"].map(str::to_owned);
    assert_eq!(
        config.resolve_audio_route(&phones).state,
        AudioRouteState::HeadphoneFallback { name: "Pi analogue".into() }
    );
    assert_eq!(config.audio_outputs, ["usb:l", "usb:r"]);
}

#[test]
fn route_notices_name_the_missing_preferred_pair() {
    let config = load(
        "audio.autoconnect=true\naudio.output=usb:l\naudio.output=usb:r\naudio.internal_output=Built in|soc:l|soc:r\n",
    )
    .unwrap();
    let route = config.resolve_audio_route(&["soc:l".to_string(), "soc:r".to_string()]);
    assert_eq!(route.outputs, ["soc:l", "soc:r"]);
    assert_eq!(route.notice.as_deref(), Some("audio fallback: Built in · missing usb:l + usb:r"));
    let disabled = RuntimeConfig::base(None).resolve_audio_route(&[]);
    assert_eq!(disabled.state, AudioRouteState::Disabled);
    assert!(disabled.outputs.is_empty());
    assert_eq!(disabled.notice, None);
}

#[test]
fn audio_routes_round_trip_and_no_hardware_keeps_preference() {
    let config = load(
        "audio.autoconnect=true\naudio.output=usb:l\naudio.output=usb:r\naudio.internal_output=Built in|soc:l|soc:r\naudio.headphone_output=Analogue|hp:l|hp:r\n",
    )
    .unwrap();
    let none = config.resolve_audio_route(&[]);
    assert_eq!(none.state, AudioRouteState::Unavailable);
    assert_eq!(none.outputs, ["usb:l", "usb:r"]);
    assert_eq!(none.notice.as_deref(), Some("audio unavailable · missing usb:l + usb:r"));
    let loaded = reload(&config);
    assert_eq!(loaded.audio_internal_outputs, config.audio_internal_outputs);
    assert_eq!(loaded.audio_headphone_output, config.audio_headphone_output);
}

#[test]
fn explicitly_empty_lists_survive_save_and_reload() {
    let mut config = defaults();
    config.yoshimi.backend.preset_roots = vec!["/a".into()];
    config.midi_input_matches = vec!["x".into()];
    config.midi_autoconnect = false;
    config.audio_autoconnect = false;
    config.yoshimi.backend.preset_roots.clear();
    config.yoshimi.categories.clear();
    config.fluidsynth.soundfonts.clear();
    config.midi_input_matches.clear();
    config.audio_outputs.clear();
    config.audio_internal_outputs.clear();
    config.audio_headphone_output = None;
    config.external_midi.percussion_notes.clear();
    config.capture.inputs.clear();
    config.loop_player.outputs.clear();
    let text = config.save_text("test.conf", None).unwrap();
    let mut stale = defaults();
    stale.yoshimi.categories = vec!["old".into()];
    stale.loop_player.outputs = vec!["old:out".into()];
    let loaded = stale.merged(&text, "test.conf", None).unwrap();
    assert!(loaded.yoshimi.backend.preset_roots.is_empty());
    assert!(loaded.yoshimi.categories.is_empty());
    assert!(loaded.fluidsynth.soundfonts.is_empty());
    assert!(loaded.midi_input_matches.is_empty());
    assert!(loaded.audio_outputs.is_empty());
    assert!(loaded.audio_internal_outputs.is_empty());
    assert!(loaded.audio_headphone_output.is_none());
    assert!(loaded.external_midi.percussion_notes.is_empty());
    assert!(loaded.capture.inputs.is_empty());
    assert!(loaded.loop_player.outputs.is_empty());
}

#[test]
fn save_refuses_invalid_in_memory_configuration() {
    let mut config = defaults();
    config.external_midi.channels.clear();
    assert_eq!(
        config.save_text("test.conf", None).unwrap_err(),
        "refusing to save invalid runtime configuration: external_midi requires at least one channel"
    );
}

#[test]
fn hash_characters_are_preserved_inside_values() {
    let config = load("# full-line comment\nsynth.client=synth #1\nmidi.input=Controller #1\n").unwrap();
    assert_eq!(config.client_name, "synth #1");
    assert_eq!(config.midi_input_matches, ["Controller #1"]);
}

#[test]
fn saved_text_lists_every_setting_in_order() {
    let text = RuntimeConfig::base(None).to_text();
    assert!(text.starts_with("# SHR-DAW runtime and routing configuration v4\nsynthv1.command=\nsynthv1.client=\nsynth.startup_timeout_ms=0\ndisplay.note_names=german\n"));
    assert!(text.contains("\nexternal_midi.channel=1\nexternal_midi.channel=2\nexternal_midi.channel=3\nexternal_midi.channel=10\nexternal_midi.melody_channel=1\nexternal_midi.percussion_channel=10\nexternal_midi.percussion_program=\n"));
    assert!(text.contains("\nfluidsynth.gain=0.4\n"));
    assert!(text.ends_with("loop.output=\nstatus.cpu_temperature_path=\n"));
}

#[test]
fn values_are_checked_and_errors_name_the_setting() {
    assert_eq!(load("synth.startup_timeout_ms=0\n").unwrap_err(), "startup timeout must be greater than zero");
    assert_eq!(load("synth.startup_timeout_ms=soon\n").unwrap_err(), "startup timeout must be milliseconds");
    assert_eq!(load("external_midi.max_tracks=17\n").unwrap_err(), "external_midi.max_tracks must be 1..=16");
    assert_eq!(load("external_midi.max_tracks=x\n").unwrap_err(), "external_midi.max_tracks must be a number");
    assert_eq!(load("midi.autoconnect=maybe\n").unwrap_err(), "midi.autoconnect must be true or false");
    assert_eq!(load("synth.client=\n").unwrap_err(), "synth.client may not be empty");
    assert_eq!(
        load("audio.internal_output=A|l|r|extra\n").unwrap_err(),
        "audio.internal_output must be NAME|LEFT_JACK_PORT|RIGHT_JACK_PORT"
    );
    assert_eq!(load("audio.internal_output=A|l\n").unwrap_err(), "audio.internal_output may not be empty");
    assert_eq!(
        load("audio.internal_output=Same|x:l|x:l\n").unwrap_err(),
        "stereo audio route \"Same\" must use distinct ports"
    );
    assert_eq!(
        load("external_midi.bank_select=CC0+CC32\n").unwrap().external_midi.bank_select,
        BankSelectMode::Cc0Cc32
    );
    assert_eq!(
        load("external_midi.melody_channel=5\n").unwrap_err(),
        "external_midi.melody_channel must also be an available channel"
    );
    assert_eq!(
        load("external_midi.percussion_input_base=120\nexternal_midi.percussion_note=1\nexternal_midi.percussion_note=2\nexternal_midi.percussion_note=3\nexternal_midi.percussion_note=4\nexternal_midi.percussion_note=5\nexternal_midi.percussion_note=6\nexternal_midi.percussion_note=7\nexternal_midi.percussion_note=8\nexternal_midi.percussion_note=9\n").unwrap_err(),
        "external_midi percussion input map exceeds MIDI note 127"
    );
}

#[test]
fn home_relative_paths_expand_against_the_home_directory() {
    let config = RuntimeConfig::base(Some("/home/ada"))
        .merged("capture.directory=~/takes\npresets.directory=~/presets\n", "test.conf", Some("/home/ada/"))
        .unwrap();
    assert_eq!(config.capture.directory, "/home/ada/takes");
    assert_eq!(config.preset_dir.as_deref(), Some("/home/ada/presets"));
    assert_eq!(config.loop_player.import_directory, "/home/ada/Music");
    let unexpanded = RuntimeConfig::base(None);
    assert_eq!(unexpanded.loop_player.import_directory, "~/Music");
}

#[test]
fn gain_lines_are_listed_with_their_line_numbers() {
    let text = "# gain\nfluidsynth.gain = 0.5\n\n  fluidsynth.gain=abc  \nfluidsynth.command=fluidsynth\nfluidsynth.gain";
    let values = setting_values(text, "fluidsynth.gain");
    assert_eq!(values, vec![(2, "0.5".to_string()), (4, "abc".to_string())]);
    assert!(setting_values("", "fluidsynth.gain").is_empty());
}

#[test]
fn a_line_error_before_a_bad_gain_line_comes_first() {
    let text = "synth.startup_timeout_ms=soon\nfluidsynth.gain=abc\n";
    let base = RuntimeConfig::base(None);
    let earlier = base.line_error_before_with(text, "cfg", None, 4, 2);
    assert!(earlier.is_some());
    let whole = RuntimeConfig::base(None).merged_with(text, "cfg", None, 4);
    assert_eq!(whole.err(), earlier);
    let clean = "fluidsynth.command=fluidsynth\nfluidsynth.gain=abc\nbroken line\n";
    assert_eq!(RuntimeConfig::base(None).line_error_before_with(clean, "cfg", None, 4, 2), None);
    assert!(RuntimeConfig::base(None).line_error_before_with(clean, "cfg", None, 4, 4).unwrap().starts_with("cfg:3:"));
}
