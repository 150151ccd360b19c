//! Saved settings read back as themselves.
use vstd::prelude::*;
use crate::config::{
    byte_texts, list_block, list_lines, opt_number, opt_text, route_texts, text_capture, text_external,
    text_external_rest, text_fluid, text_graph, text_percussion, text_routes, text_synth,
    bank_text, bool_text, config_text, expand_home, merge_from, route_text, spec_boolean, spec_bounded,
    spec_byte_item, spec_merge, spec_required, spec_setting, spec_stereo, spec_stereo_item, BankSelectMode,
    ConfigModel, ListsSeen, StereoModel, BackendModel, YoshimiModel, FluidModel, GraphModel, ExternalMidiModel,
    CaptureModel, LoopModel, list_base, settings_error, base_model,
    settings_synth, settings_yoshimi, settings_yoshimi_lists, settings_fluid, settings_routes, settings_outputs, settings_fallbacks, settings_headphones, settings_engine, settings_external_1, settings_external_2, settings_external_3, settings_external_4, settings_external_lists, settings_capture, settings_loop,
};
use crate::chord::NoteNaming;
use crate::text::{decimal, lemma_parse_decimal, lower_seq, spec_lines, split_all};
use crate::drum_pattern::{lemma_lines_of_terminated, lemma_split_key, lemma_terminated_concat, line_ok, terminated};
use crate::text::{is_ws, skip_ws_back, skip_ws_from, split_once, trim, trim_end, trim_start};

verus! {

/// A character a setting name is made of.
pub open spec fn key_char(c: char) -> bool {
    ('a' <= c <= 'z') || ('0' <= c <= '9') || c == '.' || c == '_'
}

/// A setting name: lowercase letters, digits, dots and underscores.
pub open spec fn key_ok(k: Seq<char>) -> bool {
    k.len() > 0 && forall|i: int| 0 <= i < k.len() ==> key_char(#[trigger] k[i])
}

/// The line `key=value`.
pub open spec fn kv_line(k: Seq<char>, v: Seq<char>) -> Seq<char> {
    k + "="@ + v
}

/// A value a line carries unchanged: no surrounding whitespace, no newline.
pub open spec fn clean(v: Seq<char>) -> bool {
    trim(v) == v && (forall|i: int| 0 <= i < v.len() ==> #[trigger] v[i] != '\n')
}

/// The lengths and distinguishing characters of the setting names.
proof fn lemma_key_names()
    ensures
        "audio.autoconnect"@.len() == 17,
        "audio.autoconnect"@[0] == 'a',
        "audio.engine_cpu"@.len() == 16,
        "audio.engine_cpu"@[0] == 'a',
        "audio.graph.client"@.len() == 18,
        "audio.graph.client"@[0] == 'a',
        "audio.graph.enabled"@.len() == 19,
        "audio.graph.enabled"@[0] == 'a',
        "audio.graph.enabled"@[8] == 'a',
        "audio.graph.maximum_callback_frames"@.len() == 35,
        "audio.graph.maximum_callback_frames"@[0] == 'a',
        "audio.headphone_output"@.len() == 22,
        "audio.headphone_output"@[0] == 'a',
        "audio.internal_output"@.len() == 21,
        "audio.internal_output"@[14] == '_',
        "audio.output"@.len() == 12,
        "audio.output"@[0] == 'a',
        "capture.client"@.len() == 14,
        "capture.client"@[0] == 'c',
        "capture.directory"@.len() == 17,
        "capture.directory"@[0] == 'c',
        "capture.input"@.len() == 13,
        "capture.input"@[0] == 'c',
        "capture.ring_frames"@.len() == 19,
        "capture.ring_frames"@[0] == 'c',
        "capture.ring_frames"@[8] == 'r',
        "display.note_names"@.len() == 18,
        "display.note_names"@[0] == 'd',
        "external_midi.bank_select"@.len() == 25,
        "external_midi.channel"@.len() == 21,
        "external_midi.channel"@[14] == 'c',
        "external_midi.client"@.len() == 20,
        "external_midi.client"@[14] == 'c',
        "external_midi.default_tempo"@.len() == 27,
        "external_midi.default_tempo"@[0] == 'e',
        "external_midi.enabled"@.len() == 21,
        "external_midi.enabled"@[14] == 'e',
        "external_midi.gate_percent"@.len() == 26,
        "external_midi.gate_percent"@[14] == 'g',
        "external_midi.gesture_settle_ms"@.len() == 31,
        "external_midi.live_thru"@.len() == 23,
        "external_midi.max_tracks"@.len() == 24,
        "external_midi.max_tracks"@[0] == 'e',
        "external_midi.melody_channel"@.len() == 28,
        "external_midi.melody_channel"@[16] == 'l',
        "external_midi.output"@.len() == 20,
        "external_midi.output"@[14] == 'o',
        "external_midi.pattern_rows"@.len() == 26,
        "external_midi.pattern_rows"@[14] == 'p',
        "external_midi.percussion_channel"@.len() == 32,
        "external_midi.percussion_channel"@[25] == 'c',
        "external_midi.percussion_input_base"@.len() == 35,
        "external_midi.percussion_input_base"@[0] == 'e',
        "external_midi.percussion_note"@.len() == 29,
        "external_midi.percussion_note"@[15] == 'e',
        "external_midi.percussion_program"@.len() == 32,
        "external_midi.percussion_program"@[25] == 'p',
        "external_midi.profile"@.len() == 21,
        "external_midi.profile"@[14] == 'p',
        "external_midi.program_changes"@.len() == 29,
        "external_midi.program_changes"@[15] == 'r',
        "external_midi.send_transport"@.len() == 28,
        "external_midi.send_transport"@[16] == 'n',
        "external_midi.steps_per_beat"@.len() == 28,
        "external_midi.steps_per_beat"@[16] == 'e',
        "fluidsynth.client"@.len() == 17,
        "fluidsynth.client"@[0] == 'f',
        "fluidsynth.command"@.len() == 18,
        "fluidsynth.command"@[0] == 'f',
        "fluidsynth.gain"@.len() == 15,
        "fluidsynth.gain"@[0] == 'f',
        "fluidsynth.gain"@[8] == 't',
        "fluidsynth.midi_output"@.len() == 22,
        "fluidsynth.midi_output"@[0] == 'f',
        "fluidsynth.soundfont"@.len() == 20,
        "fluidsynth.soundfont"@[14] == 'n',
        "loop.client"@.len() == 11,
        "loop.client"@[5] == 'c',
        "loop.import_directory"@.len() == 21,
        "loop.import_directory"@[14] == 'r',
        "loop.output"@.len() == 11,
        "loop.output"@[5] == 'o',
        "midi.autoconnect"@.len() == 16,
        "midi.autoconnect"@[0] == 'm',
        "midi.input"@.len() == 10,
        "midi.synth_output"@.len() == 17,
        "midi.synth_output"@[0] == 'm',
        "presets.directory"@.len() == 17,
        "presets.directory"@[0] == 'p',
        "status.cpu_temperature_path"@.len() == 27,
        "status.cpu_temperature_path"@[0] == 's',
        "synth.client"@.len() == 12,
        "synth.client"@[0] == 's',
        "synth.command"@.len() == 13,
        "synth.command"@[0] == 's',
        "synth.startup_timeout_ms"@.len() == 24,
        "synth.startup_timeout_ms"@[0] == 's',
        "synthv1.client"@.len() == 14,
        "synthv1.client"@[0] == 's',
        "synthv1.command"@.len() == 15,
        "synthv1.command"@[0] == 's',
        "synthv1.command"@[8] == 'c',
        "synthv1.midi_output"@.len() == 19,
        "synthv1.midi_output"@[0] == 's',
        "synthv1.midi_output"@[8] == 'm',
        "synthv1.presets"@.len() == 15,
        "synthv1.presets"@[0] == 's',
        "synthv1.presets"@[8] == 'p',
        "yoshimi.category"@.len() == 16,
        "yoshimi.category"@[0] == 'y',
        "yoshimi.client"@.len() == 14,
        "yoshimi.client"@[0] == 'y',
        "yoshimi.command"@.len() == 15,
        "yoshimi.command"@[0] == 'y',
        "yoshimi.command"@[8] == 'c',
        "yoshimi.midi_output"@.len() == 19,
        "yoshimi.midi_output"@[0] == 'y',
        "yoshimi.midi_output"@[8] == 'm',
        "yoshimi.preset_root"@.len() == 19,
        "yoshimi.preset_root"@[0] == 'y',
        "yoshimi.preset_root"@[8] == 'p',
        "yoshimi.presets_per_category"@.len() == 28,
        "yoshimi.presets_per_category"@[16] == 'p',
        key_ok("audio.autoconnect"@),
        key_ok("audio.engine_cpu"@),
        key_ok("audio.graph.client"@),
        key_ok("audio.graph.enabled"@),
        key_ok("audio.graph.maximum_callback_frames"@),
        key_ok("audio.headphone_output"@),
        key_ok("audio.internal_output"@),
        key_ok("audio.output"@),
        key_ok("capture.client"@),
        key_ok("capture.directory"@),
        key_ok("capture.input"@),
        key_ok("capture.ring_frames"@),
        key_ok("display.note_names"@),
        key_ok("external_midi.bank_select"@),
        key_ok("external_midi.channel"@),
        key_ok("external_midi.client"@),
        key_ok("external_midi.default_tempo"@),
        key_ok("external_midi.enabled"@),
        key_ok("external_midi.gate_percent"@),
        key_ok("external_midi.gesture_settle_ms"@),
        key_ok("external_midi.live_thru"@),
        key_ok("external_midi.max_tracks"@),
        key_ok("external_midi.melody_channel"@),
        key_ok("external_midi.output"@),
        key_ok("external_midi.pattern_rows"@),
        key_ok("external_midi.percussion_channel"@),
        key_ok("external_midi.percussion_input_base"@),
        key_ok("external_midi.percussion_note"@),
        key_ok("external_midi.percussion_program"@),
        key_ok("external_midi.profile"@),
        key_ok("external_midi.program_changes"@),
        key_ok("external_midi.send_transport"@),
        key_ok("external_midi.steps_per_beat"@),
        key_ok("fluidsynth.client"@),
        key_ok("fluidsynth.command"@),
        key_ok("fluidsynth.gain"@),
        key_ok("fluidsynth.midi_output"@),
        key_ok("fluidsynth.soundfont"@),
        key_ok("loop.client"@),
        key_ok("loop.import_directory"@),
        key_ok("loop.output"@),
        key_ok("midi.autoconnect"@),
        key_ok("midi.input"@),
        key_ok("midi.synth_output"@),
        key_ok("presets.directory"@),
        key_ok("status.cpu_temperature_path"@),
        key_ok("synth.client"@),
        key_ok("synth.command"@),
        key_ok("synth.startup_timeout_ms"@),
        key_ok("synthv1.client"@),
        key_ok("synthv1.command"@),
        key_ok("synthv1.midi_output"@),
        key_ok("synthv1.presets"@),
        key_ok("yoshimi.category"@),
        key_ok("yoshimi.client"@),
        key_ok("yoshimi.command"@),
        key_ok("yoshimi.midi_output"@),
        key_ok("yoshimi.preset_root"@),
        key_ok("yoshimi.presets_per_category"@),
{
    reveal_strlit("audio.autoconnect");
    reveal_strlit("audio.engine_cpu");
    reveal_strlit("audio.graph.client");
    reveal_strlit("audio.graph.enabled");
    reveal_strlit("audio.graph.maximum_callback_frames");
    reveal_strlit("audio.headphone_output");
    reveal_strlit("audio.internal_output");
    reveal_strlit("audio.output");
    reveal_strlit("capture.client");
    reveal_strlit("capture.directory");
    reveal_strlit("capture.input");
    reveal_strlit("capture.ring_frames");
    reveal_strlit("display.note_names");
    reveal_strlit("external_midi.bank_select");
    reveal_strlit("external_midi.channel");
    reveal_strlit("external_midi.client");
    reveal_strlit("external_midi.default_tempo");
    reveal_strlit("external_midi.enabled");
    reveal_strlit("external_midi.gate_percent");
    reveal_strlit("external_midi.gesture_settle_ms");
    reveal_strlit("external_midi.live_thru");
    reveal_strlit("external_midi.max_tracks");
    reveal_strlit("external_midi.melody_channel");
    reveal_strlit("external_midi.output");
    reveal_strlit("external_midi.pattern_rows");
    reveal_strlit("external_midi.percussion_channel");
    reveal_strlit("external_midi.percussion_input_base");
    reveal_strlit("external_midi.percussion_note");
    reveal_strlit("external_midi.percussion_program");
    reveal_strlit("external_midi.profile");
    reveal_strlit("external_midi.program_changes");
    reveal_strlit("external_midi.send_transport");
    reveal_strlit("external_midi.steps_per_beat");
    reveal_strlit("fluidsynth.client");
    reveal_strlit("fluidsynth.command");
    reveal_strlit("fluidsynth.gain");
    reveal_strlit("fluidsynth.midi_output");
    reveal_strlit("fluidsynth.soundfont");
    reveal_strlit("loop.client");
    reveal_strlit("loop.import_directory");
    reveal_strlit("loop.output");
    reveal_strlit("midi.autoconnect");
    reveal_strlit("midi.input");
    reveal_strlit("midi.synth_output");
    reveal_strlit("presets.directory");
    reveal_strlit("status.cpu_temperature_path");
    reveal_strlit("synth.client");
    reveal_strlit("synth.command");
    reveal_strlit("synth.startup_timeout_ms");
    reveal_strlit("synthv1.client");
    reveal_strlit("synthv1.command");
    reveal_strlit("synthv1.midi_output");
    reveal_strlit("synthv1.presets");
    reveal_strlit("yoshimi.category");
    reveal_strlit("yoshimi.client");
    reveal_strlit("yoshimi.command");
    reveal_strlit("yoshimi.midi_output");
    reveal_strlit("yoshimi.preset_root");
    reveal_strlit("yoshimi.presets_per_category");
}


/// A text without whitespace at either end is its own trim.
proof fn lemma_trim_self(s: Seq<char>)
    requires
        s.len() > 0 ==> !is_ws(s[0]) && !is_ws(s.last()),
    ensures
        trim(s) == s,
{
    if s.len() == 0 {
        assert(trim_start(s) =~= s);
        assert(trim_end(s) =~= s);
    } else {
        assert(skip_ws_from(s, 0) == 0);
        assert(trim_start(s) =~= s);
        assert(skip_ws_back(s, s.len() as int) == s.len());
        assert(trim_end(s) =~= s);
    }
}

/// A `key=value` line reads back as its key and value.
proof fn lemma_kv_line(k: Seq<char>, v: Seq<char>)
    requires
        key_ok(k),
        clean(v),
    ensures
        trim(kv_line(k, v)) == kv_line(k, v),
        kv_line(k, v).len() > 0,
        kv_line(k, v)[0] != '#',
        split_once(kv_line(k, v), '=') == Some((k, v)),
        trim(k) == k,
        trim(v) == v,
        line_ok(kv_line(k, v)),
{
    reveal_strlit("=");
    let l = kv_line(k, v);
    assert(key_char(k[0]));
    assert(key_char(k.last()));
    lemma_trim_self(k);
    assert forall|i: int| 0 <= i < k.len() implies #[trigger] k[i] != '=' by {
        assert(key_char(k[i]));
    }
    lemma_split_key(k, v);
    assert(l[0] == k[0]);
    if v.len() > 0 {
        assert(l.last() == v.last());
        crate::text::lemma_trim_nonempty_ends(v);
        assert(!is_ws(v.last()));
    } else {
        assert(l.last() == '=');
    }
    lemma_trim_self(l);
    assert forall|i: int| 0 <= i < l.len() implies #[trigger] l[i] != '\n' by {
        if i < k.len() {
            assert(l[i] == k[i]);
            assert(key_char(k[i]));
        } else if i == k.len() {
        } else {
            assert(l[i] == v[i - k.len() - 1]);
        }
    }
}

// ---------------------------------------------------------------------------
// Values read back
// ---------------------------------------------------------------------------

proof fn lemma_required_back(k: Seq<char>, v: Seq<char>)
    requires
        v.len() > 0,
    ensures
        spec_required(k, v) == Ok::<Seq<char>, Seq<char>>(v),
{
    reveal(spec_required);
}

proof fn lemma_boolean_back(k: Seq<char>, b: bool)
    ensures
        spec_boolean(k, bool_text(b)) == Ok::<bool, Seq<char>>(b),
{
    reveal(spec_boolean);
    reveal_strlit("true");
    reveal_strlit("false");
    reveal_strlit("yes");
    reveal_strlit("1");
    reveal_strlit("on");
    assert(lower_seq("true"@) =~= "true"@);
    assert(lower_seq("false"@) =~= "false"@);
    assert("false"@ != "true"@) by {
        assert("false"@.len() != "true"@.len());
    }
    assert("false"@ != "yes"@) by {
        assert("false"@.len() != "yes"@.len());
    }
    assert("false"@ != "1"@) by {
        assert("false"@.len() != "1"@.len());
    }
    assert("false"@ != "on"@) by {
        assert("false"@.len() != "on"@.len());
    }
}

proof fn lemma_bounded_back(k: Seq<char>, n: nat, min: nat, max: nat)
    requires
        min <= n <= max,
        n <= usize::MAX,
    ensures
        spec_bounded(k, decimal(n), min, max) == Ok::<nat, Seq<char>>(n),
{
    reveal(spec_bounded);
    lemma_parse_decimal(n, usize::MAX as int);
}

proof fn lemma_byte_item_back(k: Seq<char>, b: u8, min: nat, max: nat, offset: nat)
    requires
        min <= b + offset <= max,
        max <= usize::MAX,
    ensures
        spec_byte_item(k, decimal((b + offset) as nat), min, max, offset) == Ok::<Option<u8>, Seq<char>>(Some(b)),
{
    reveal(spec_byte_item);
    lemma_bounded_back(k, (b + offset) as nat, min, max);
    crate::text::lemma_decimal_digits((b + offset) as nat);
}

/// A path that does not start with `~/` is kept as written.
pub open spec fn plain_path(p: Seq<char>) -> bool {
    clean(p) && p.len() > 0 && !(p.len() >= 2 && p[0] == '~' && p[1] == '/')
}

proof fn lemma_path_back(p: Seq<char>, home: Option<Seq<char>>)
    requires
        !(p.len() >= 2 && p[0] == '~' && p[1] == '/'),
    ensures
        expand_home(p, home) == p,
{
    reveal(expand_home);
}

/// A stereo route's three names: non-empty, clean, without `|`.
pub open spec fn route_ok(r: StereoModel) -> bool {
    &&& r.name.len() > 0 && clean(r.name) && !r.name.contains('|')
    &&& r.left_port.len() > 0 && clean(r.left_port) && !r.left_port.contains('|')
    &&& r.right_port.len() > 0 && clean(r.right_port) && !r.right_port.contains('|')
}

proof fn lemma_split_no_bar(s: Seq<char>)
    requires
        !s.contains('|'),
    ensures
        split_all(s, '|') == seq![s],
{
    crate::text::lemma_find_from_bounds(s, '|', 0);
    if crate::text::find(s, '|') is Some {
        let i = crate::text::find(s, '|')->0;
        assert(s[i] == '|');
        assert(s.contains('|'));
    }
}

proof fn lemma_split_bar(a: Seq<char>, rest: Seq<char>)
    requires
        !a.contains('|'),
    ensures
        split_all(a + "|"@ + rest, '|') == seq![a] + split_all(rest, '|'),
{
    reveal_strlit("|");
    let s = a + "|"@ + rest;
    assert(s[a.len() as int] == '|');
    assert forall|k: int| 0 <= k < a.len() implies #[trigger] s[k] != '|' by {
        assert(s[k] == a[k]);
        if a[k] == '|' {
            assert(a.contains('|'));
        }
    }
    crate::drum_pattern::lemma_find_at(s, '|', 0, a.len() as int);
    assert(s.subrange(0, a.len() as int) =~= a);
    assert(s.subrange(a.len() as int + 1, s.len() as int) =~= rest);
}

proof fn lemma_stereo_back(k: Seq<char>, r: StereoModel)
    requires
        route_ok(r),
    ensures
        spec_stereo_item(k, route_text(r)) == Ok::<Option<StereoModel>, Seq<char>>(Some(r)),
{
    reveal(spec_stereo_item);
    reveal(spec_stereo);
    reveal(spec_required);
    reveal_strlit("|");
    let text = route_text(r);
    assert(text =~= r.name + "|"@ + (r.left_port + "|"@ + r.right_port));
    lemma_split_bar(r.name, r.left_port + "|"@ + r.right_port);
    lemma_split_bar(r.left_port, r.right_port);
    lemma_split_no_bar(r.right_port);
    let pieces = split_all(text, '|');
    assert(pieces =~= seq![r.name, r.left_port, r.right_port]);
    assert(text.len() > 0);
}


// ---------------------------------------------------------------------------
// Which group handles a key
// ---------------------------------------------------------------------------

/// The keys of `settings_synth` are handled by it.
proof fn lemma_dispatch_synth(m: ConfigModel, s: ListsSeen, k: Seq<char>, v: Seq<char>, home: Option<Seq<char>>,
    cpus: nat, path: Seq<char>, line: nat)
    requires
        k == "synth.command"@ || k == "synthv1.command"@ || k == "synth.client"@ || k == "synthv1.client"@ || k == "synth.startup_timeout_ms"@ || k == "display.note_names"@ || k == "presets.directory"@ || k == "synthv1.presets"@ || k == "synthv1.midi_output"@ || k == "midi.synth_output"@,
    ensures
        settings_synth(m, s, k, v, home) is Some,
        spec_setting(m, s, k, v, home, cpus, path, line) == settings_synth(m, s, k, v, home)->0,
{
    lemma_key_names();
    reveal(settings_synth);
}

/// The keys of `settings_yoshimi` are handled by it.
proof fn lemma_dispatch_yoshimi(m: ConfigModel, s: ListsSeen, k: Seq<char>, v: Seq<char>, home: Option<Seq<char>>,
    cpus: nat, path: Seq<char>, line: nat)
    requires
        k == "yoshimi.command"@ || k == "yoshimi.client"@ || k == "yoshimi.midi_output"@,
    ensures
        settings_yoshimi(m, s, k, v, home) is Some,
        spec_setting(m, s, k, v, home, cpus, path, line) == settings_yoshimi(m, s, k, v, home)->0,
{
    lemma_key_names();
    reveal(settings_synth);
    reveal(settings_yoshimi);
}

/// The keys of `settings_yoshimi_lists` are handled by it.
proof fn lemma_dispatch_yoshimi_lists(m: ConfigModel, s: ListsSeen, k: Seq<char>, v: Seq<char>, home: Option<Seq<char>>,
    cpus: nat, path: Seq<char>, line: nat)
    requires
        k == "yoshimi.preset_root"@ || k == "yoshimi.category"@ || k == "yoshimi.presets_per_category"@,
    ensures
        settings_yoshimi_lists(m, s, k, v, home) is Some,
        spec_setting(m, s, k, v, home, cpus, path, line) == settings_yoshimi_lists(m, s, k, v, home)->0,
{
    lemma_key_names();
    reveal(settings_synth);
    reveal(settings_yoshimi);
    reveal(settings_yoshimi_lists);
}

/// The keys of `settings_fluid` are handled by it.
proof fn lemma_dispatch_fluid(m: ConfigModel, s: ListsSeen, k: Seq<char>, v: Seq<char>, home: Option<Seq<char>>,
    cpus: nat, path: Seq<char>, line: nat)
    requires
        k == "fluidsynth.command"@ || k == "fluidsynth.client"@ || k == "fluidsynth.midi_output"@ || k == "fluidsynth.gain"@ || k == "fluidsynth.soundfont"@,
    ensures
        settings_fluid(m, s, k, v, home) is Some,
        spec_setting(m, s, k, v, home, cpus, path, line) == settings_fluid(m, s, k, v, home)->0,
{
    lemma_key_names();
    reveal(settings_synth);
    reveal(settings_yoshimi);
    reveal(settings_yoshimi_lists);
    reveal(settings_fluid);
}

/// The keys of `settings_routes` are handled by it.
proof fn lemma_dispatch_routes(m: ConfigModel, s: ListsSeen, k: Seq<char>, v: Seq<char>, home: Option<Seq<char>>,
    cpus: nat, path: Seq<char>, line: nat)
    requires
        k == "midi.autoconnect"@ || k == "midi.input"@,
    ensures
        settings_routes(m, s, k, v) is Some,
        spec_setting(m, s, k, v, home, cpus, path, line) == settings_routes(m, s, k, v)->0,
{
    lemma_key_names();
    reveal(settings_synth);
    reveal(settings_yoshimi);
    reveal(settings_yoshimi_lists);
    reveal(settings_fluid);
    reveal(settings_routes);
}

/// The keys of `settings_outputs` are handled by it.
proof fn lemma_dispatch_outputs(m: ConfigModel, s: ListsSeen, k: Seq<char>, v: Seq<char>, home: Option<Seq<char>>,
    cpus: nat, path: Seq<char>, line: nat)
    requires
        k == "audio.autoconnect"@ || k == "audio.output"@,
    ensures
        settings_outputs(m, s, k, v) is Some,
        spec_setting(m, s, k, v, home, cpus, path, line) == settings_outputs(m, s, k, v)->0,
{
    lemma_key_names();
    reveal(settings_synth);
    reveal(settings_yoshimi);
    reveal(settings_yoshimi_lists);
    reveal(settings_fluid);
    reveal(settings_routes);
    reveal(settings_outputs);
}

/// The keys of `settings_fallbacks` are handled by it.
proof fn lemma_dispatch_fallbacks(m: ConfigModel, s: ListsSeen, k: Seq<char>, v: Seq<char>, home: Option<Seq<char>>,
    cpus: nat, path: Seq<char>, line: nat)
    requires
        k == "audio.internal_output"@,
    ensures
        settings_fallbacks(m, s, k, v) is Some,
        spec_setting(m, s, k, v, home, cpus, path, line) == settings_fallbacks(m, s, k, v)->0,
{
    lemma_key_names();
    reveal(settings_synth);
    reveal(settings_yoshimi);
    reveal(settings_yoshimi_lists);
    reveal(settings_fluid);
    reveal(settings_routes);
    reveal(settings_outputs);
    reveal(settings_fallbacks);
}

/// The keys of `settings_headphones` are handled by it.
proof fn lemma_dispatch_headphones(m: ConfigModel, s: ListsSeen, k: Seq<char>, v: Seq<char>, home: Option<Seq<char>>,
    cpus: nat, path: Seq<char>, line: nat)
    requires
        k == "audio.headphone_output"@,
    ensures
        settings_headphones(m, s, k, v) is Some,
        spec_setting(m, s, k, v, home, cpus, path, line) == settings_headphones(m, s, k, v)->0,
{
    lemma_key_names();
    reveal(settings_synth);
    reveal(settings_yoshimi);
    reveal(settings_yoshimi_lists);
    reveal(settings_fluid);
    reveal(settings_routes);
    reveal(settings_outputs);
    reveal(settings_fallbacks);
    reveal(settings_headphones);
}

/// The keys of `settings_engine` are handled by it.
proof fn lemma_dispatch_engine(m: ConfigModel, s: ListsSeen, k: Seq<char>, v: Seq<char>, home: Option<Seq<char>>,
    cpus: nat, path: Seq<char>, line: nat)
    requires
        k == "audio.graph.enabled"@ || k == "audio.graph.client"@ || k == "audio.graph.maximum_callback_frames"@ || k == "audio.engine_cpu"@ || k == "status.cpu_temperature_path"@,
    ensures
        settings_engine(m, s, k, v, home, cpus) is Some,
        spec_setting(m, s, k, v, home, cpus, path, line) == settings_engine(m, s, k, v, home, cpus)->0,
{
    lemma_key_names();
    reveal(settings_synth);
    reveal(settings_yoshimi);
    reveal(settings_yoshimi_lists);
    reveal(settings_fluid);
    reveal(settings_routes);
    reveal(settings_outputs);
    reveal(settings_fallbacks);
    reveal(settings_headphones);
    reveal(settings_engine);
}

/// The keys of `settings_external_1` are handled by it.
proof fn lemma_dispatch_external_1(m: ConfigModel, s: ListsSeen, k: Seq<char>, v: Seq<char>, home: Option<Seq<char>>,
    cpus: nat, path: Seq<char>, line: nat)
    requires
        k == "external_midi.enabled"@ || k == "external_midi.client"@ || k == "external_midi.output"@ || k == "external_midi.max_tracks"@,
    ensures
        settings_external_1(m, s, k, v) is Some,
        spec_setting(m, s, k, v, home, cpus, path, line) == settings_external_1(m, s, k, v)->0,
{
    lemma_key_names();
    reveal(settings_synth);
    reveal(settings_yoshimi);
    reveal(settings_yoshimi_lists);
    reveal(settings_fluid);
    reveal(settings_routes);
    reveal(settings_outputs);
    reveal(settings_fallbacks);
    reveal(settings_headphones);
    reveal(settings_engine);
    reveal(settings_external_1);
}

/// The keys of `settings_external_2` are handled by it.
proof fn lemma_dispatch_external_2(m: ConfigModel, s: ListsSeen, k: Seq<char>, v: Seq<char>, home: Option<Seq<char>>,
    cpus: nat, path: Seq<char>, line: nat)
    requires
        k == "external_midi.melody_channel"@ || k == "external_midi.percussion_channel"@ || k == "external_midi.percussion_program"@ || k == "external_midi.percussion_input_base"@,
    ensures
        settings_external_2(m, s, k, v) is Some,
        spec_setting(m, s, k, v, home, cpus, path, line) == settings_external_2(m, s, k, v)->0,
{
    lemma_key_names();
    reveal(settings_synth);
    reveal(settings_yoshimi);
    reveal(settings_yoshimi_lists);
    reveal(settings_fluid);
    reveal(settings_routes);
    reveal(settings_outputs);
    reveal(settings_fallbacks);
    reveal(settings_headphones);
    reveal(settings_engine);
    reveal(settings_external_1);
    reveal(settings_external_2);
}

/// The keys of `settings_external_3` are handled by it.
proof fn lemma_dispatch_external_3(m: ConfigModel, s: ListsSeen, k: Seq<char>, v: Seq<char>, home: Option<Seq<char>>,
    cpus: nat, path: Seq<char>, line: nat)
    requires
        k == "external_midi.bank_select"@ || k == "external_midi.program_changes"@ || k == "external_midi.send_transport"@ || k == "external_midi.default_tempo"@ || k == "external_midi.pattern_rows"@,
    ensures
        settings_external_3(m, s, k, v) is Some,
        spec_setting(m, s, k, v, home, cpus, path, line) == settings_external_3(m, s, k, v)->0,
{
    lemma_key_names();
    reveal(settings_synth);
    reveal(settings_yoshimi);
    reveal(settings_yoshimi_lists);
    reveal(settings_fluid);
    reveal(settings_routes);
    reveal(settings_outputs);
    reveal(settings_fallbacks);
    reveal(settings_headphones);
    reveal(settings_engine);
    reveal(settings_external_1);
    reveal(settings_external_2);
    reveal(settings_external_3);
}

/// The keys of `settings_external_4` are handled by it.
proof fn lemma_dispatch_external_4(m: ConfigModel, s: ListsSeen, k: Seq<char>, v: Seq<char>, home: Option<Seq<char>>,
    cpus: nat, path: Seq<char>, line: nat)
    requires
        k == "external_midi.steps_per_beat"@ || k == "external_midi.live_thru"@ || k == "external_midi.profile"@ || k == "external_midi.gate_percent"@ || k == "external_midi.gesture_settle_ms"@,
    ensures
        settings_external_4(m, s, k, v) is Some,
        spec_setting(m, s, k, v, home, cpus, path, line) == settings_external_4(m, s, k, v)->0,
{
    lemma_key_names();
    reveal(settings_synth);
    reveal(settings_yoshimi);
    reveal(settings_yoshimi_lists);
    reveal(settings_fluid);
    reveal(settings_routes);
    reveal(settings_outputs);
    reveal(settings_fallbacks);
    reveal(settings_headphones);
    reveal(settings_engine);
    reveal(settings_external_1);
    reveal(settings_external_2);
    reveal(settings_external_3);
    reveal(settings_external_4);
}

/// The keys of `settings_external_lists` are handled by it.
proof fn lemma_dispatch_external_lists(m: ConfigModel, s: ListsSeen, k: Seq<char>, v: Seq<char>, home: Option<Seq<char>>,
    cpus: nat, path: Seq<char>, line: nat)
    requires
        k == "external_midi.channel"@ || k == "external_midi.percussion_note"@,
    ensures
        settings_external_lists(m, s, k, v) is Some,
        spec_setting(m, s, k, v, home, cpus, path, line) == settings_external_lists(m, s, k, v)->0,
{
    lemma_key_names();
    reveal(settings_synth);
    reveal(settings_yoshimi);
    reveal(settings_yoshimi_lists);
    reveal(settings_fluid);
    reveal(settings_routes);
    reveal(settings_outputs);
    reveal(settings_fallbacks);
    reveal(settings_headphones);
    reveal(settings_engine);
    reveal(settings_external_1);
    reveal(settings_external_2);
    reveal(settings_external_3);
    reveal(settings_external_4);
    reveal(settings_external_lists);
}

/// The keys of `settings_capture` are handled by it.
proof fn lemma_dispatch_capture(m: ConfigModel, s: ListsSeen, k: Seq<char>, v: Seq<char>, home: Option<Seq<char>>,
    cpus: nat, path: Seq<char>, line: nat)
    requires
        k == "capture.client"@ || k == "capture.directory"@ || k == "capture.input"@ || k == "capture.ring_frames"@,
    ensures
        settings_capture(m, s, k, v, home) is Some,
        spec_setting(m, s, k, v, home, cpus, path, line) == settings_capture(m, s, k, v, home)->0,
{
    lemma_key_names();
    reveal(settings_synth);
    reveal(settings_yoshimi);
    reveal(settings_yoshimi_lists);
    reveal(settings_fluid);
    reveal(settings_routes);
    reveal(settings_outputs);
    reveal(settings_fallbacks);
    reveal(settings_headphones);
    reveal(settings_engine);
    reveal(settings_external_1);
    reveal(settings_external_2);
    reveal(settings_external_3);
    reveal(settings_external_4);
    reveal(settings_external_lists);
    reveal(settings_capture);
}

/// The keys of `settings_loop` are handled by it.
proof fn lemma_dispatch_loop(m: ConfigModel, s: ListsSeen, k: Seq<char>, v: Seq<char>, home: Option<Seq<char>>,
    cpus: nat, path: Seq<char>, line: nat)
    requires
        k == "loop.client"@ || k == "loop.output"@ || k == "loop.import_directory"@,
    ensures
        settings_loop(m, s, k, v, home) is Some,
        spec_setting(m, s, k, v, home, cpus, path, line) == settings_loop(m, s, k, v, home)->0,
{
    lemma_key_names();
    reveal(settings_synth);
    reveal(settings_yoshimi);
    reveal(settings_yoshimi_lists);
    reveal(settings_fluid);
    reveal(settings_routes);
    reveal(settings_outputs);
    reveal(settings_fallbacks);
    reveal(settings_headphones);
    reveal(settings_engine);
    reveal(settings_external_1);
    reveal(settings_external_2);
    reveal(settings_external_3);
    reveal(settings_external_4);
    reveal(settings_external_lists);
    reveal(settings_capture);
    reveal(settings_loop);
}

// ---------------------------------------------------------------------------
// Running lines
// ---------------------------------------------------------------------------

/// Every line holds no newline and does not end in a carriage return.
pub open spec fn all_ok(ls: Seq<Seq<char>>) -> bool {
    forall|i: int| 0 <= i < ls.len() ==> line_ok(#[trigger] ls[i])
}

proof fn lemma_ok_concat(a: Seq<Seq<char>>, b: Seq<Seq<char>>)
    requires
        all_ok(a),
        all_ok(b),
    ensures
        all_ok(a + b),
{
    assert forall|i: int| 0 <= i < (a + b).len() implies line_ok(#[trigger] (a + b)[i]) by {
        if i < a.len() {
            assert((a + b)[i] == a[i]);
        } else {
            assert((a + b)[i] == b[i - a.len()]);
        }
    }
}

/// The first line of the saved text is a comment.
proof fn lemma_run_header(m: ConfigModel, s: ListsSeen, home: Option<Seq<char>>, cpus: nat)
    ensures
        run_lines(m, s, seq![header_line()], home, cpus) == Some((m, s)),
        all_ok(seq![header_line()]),
{
    reveal_strlit("# SHR-DAW runtime and routing configuration v4");
    let h = header_line();
    assert(h.len() == 46);
    assert(h[0] == '#');
    assert(h.last() == '4');
    lemma_trim_self(h);
    assert forall|i: int| 0 <= i < h.len() implies #[trigger] h[i] != '\n' by {}
    let ls = seq![h];
    assert(ls[0] == h);
    assert(ls.drop_first() =~= Seq::<Seq<char>>::empty());
    assert(trim(ls[0])[0] == '#');
    assert(run_lines(m, s, Seq::<Seq<char>>::empty(), home, cpus) == Some((m, s)));
    assert(run_lines(m, s, ls, home, cpus) == run_lines(m, s, ls.drop_first(), home, cpus));
}

/// The settings after `lines`, each trimmed, blank and `#` lines skipped;
/// `None` at the first line that does not apply.
pub open spec fn run_lines(m: ConfigModel, s: ListsSeen, lines: Seq<Seq<char>>, home: Option<Seq<char>>, cpus: nat)
    -> Option<(ConfigModel, ListsSeen)>
    decreases lines.len(),
{
    if lines.len() == 0 {
        Some((m, s))
    } else {
        let line = trim(lines[0]);
        if line.len() == 0 || line[0] == '#' {
            run_lines(m, s, lines.drop_first(), home, cpus)
        } else {
            match split_once(line, '=') {
                None => None,
                Some((k, v)) => match spec_setting(m, s, trim(k), trim(v), home, cpus, Seq::empty(), 0) {
                    Err(_) => None,
                    Ok((m2, s2)) => run_lines(m2, s2, lines.drop_first(), home, cpus),
                },
            }
        }
    }
}

/// A setting that applies does so whatever line it is on.
proof fn lemma_setting_any_line(m: ConfigModel, s: ListsSeen, k: Seq<char>, v: Seq<char>, home: Option<Seq<char>>,
    cpus: nat, path: Seq<char>, line: nat)
    requires
        spec_setting(m, s, k, v, home, cpus, Seq::empty(), 0) is Ok,
    ensures
        spec_setting(m, s, k, v, home, cpus, path, line) == spec_setting(m, s, k, v, home, cpus, Seq::empty(), 0),
{
}

/// Lines that apply one after another take `merge_from` to their end.
proof fn lemma_run_merge(m: ConfigModel, s: ListsSeen, ls: Seq<Seq<char>>, i: int, home: Option<Seq<char>>,
    cpus: nat, path: Seq<char>)
    requires
        0 <= i <= ls.len(),
        run_lines(m, s, ls.subrange(i, ls.len() as int), home, cpus) is Some,
    ensures
        ({
            let (m2, s2) = run_lines(m, s, ls.subrange(i, ls.len() as int), home, cpus)->0;
            merge_from(m, s, ls, i, home, cpus, path) == merge_from(m2, s2, ls, ls.len() as int, home, cpus, path)
        }),
    decreases ls.len() - i,
{
    let rest = ls.subrange(i, ls.len() as int);
    if i < ls.len() {
        assert(rest[0] == ls[i]);
        assert(rest.drop_first() =~= ls.subrange(i + 1, ls.len() as int));
        let line = trim(ls[i]);
        if line.len() == 0 || line[0] == '#' {
            lemma_run_merge(m, s, ls, i + 1, home, cpus, path);
        } else {
            let (k, v) = split_once(line, '=')->0;
            let (m2, s2) = spec_setting(m, s, trim(k), trim(v), home, cpus, Seq::empty(), 0)->Ok_0;
            lemma_setting_any_line(m, s, trim(k), trim(v), home, cpus, path, (i + 1) as nat);
            lemma_run_merge(m2, s2, ls, i + 1, home, cpus, path);
        }
    } else {
        assert(rest.len() == 0);
    }
}

/// Running `a + b` runs `a`, then `b`.
proof fn lemma_run_concat(m: ConfigModel, s: ListsSeen, a: Seq<Seq<char>>, b: Seq<Seq<char>>, home: Option<Seq<char>>,
    cpus: nat)
    ensures
        run_lines(m, s, a + b, home, cpus) == match run_lines(m, s, a, home, cpus) {
            None => None,
            Some((m1, s1)) => run_lines(m1, s1, b, home, cpus),
        },
    decreases a.len(),
{
    if a.len() == 0 {
        assert(a + b =~= b);
    } else {
        assert((a + b)[0] == a[0]);
        assert((a + b).drop_first() =~= a.drop_first() + b);
        let line = trim(a[0]);
        if line.len() == 0 || line[0] == '#' {
            lemma_run_concat(m, s, a.drop_first(), b, home, cpus);
        } else {
            match split_once(line, '=') {
                None => {},
                Some((k, v)) => match spec_setting(m, s, trim(k), trim(v), home, cpus, Seq::empty(), 0) {
                    Err(_) => {},
                    Ok((m2, s2)) => {
                        lemma_run_concat(m2, s2, a.drop_first(), b, home, cpus);
                    },
                },
            }
        }
    }
}

/// One `key=value` line runs its setting.
proof fn lemma_run_kv(m: ConfigModel, s: ListsSeen, k: Seq<char>, v: Seq<char>, home: Option<Seq<char>>, cpus: nat)
    requires
        key_ok(k),
        clean(v),
    ensures
        run_lines(m, s, seq![kv_line(k, v)], home, cpus) == match spec_setting(m, s, k, v, home, cpus, Seq::empty(), 0) {
            Err(_) => None,
            Ok((m2, s2)) => Some((m2, s2)),
        },
        line_ok(kv_line(k, v)),
{
    lemma_kv_line(k, v);
    let ls = seq![kv_line(k, v)];
    assert(ls[0] == kv_line(k, v));
    assert(ls.drop_first() =~= Seq::<Seq<char>>::empty());
    match spec_setting(m, s, k, v, home, cpus, Seq::empty(), 0) {
        Err(_) => {},
        Ok((m2, s2)) => {
            assert(run_lines(m2, s2, Seq::<Seq<char>>::empty(), home, cpus) == Some((m2, s2)));
        },
    }
}

// ---------------------------------------------------------------------------
// The saved text as lines
// ---------------------------------------------------------------------------

pub open spec fn header_line() -> Seq<char> {
    "# SHR-DAW runtime and routing configuration v4"@
}

/// The lines of a list setting: one per item, or one empty line.
pub open spec fn block(k: Seq<char>, items: Seq<Seq<char>>) -> Seq<Seq<char>> {
    if items.len() == 0 {
        seq![kv_line(k, Seq::empty())]
    } else {
        Seq::new(items.len(), |i: int| kv_line(k, items[i]))
    }
}

proof fn lemma_header_text()
    ensures
        "# SHR-DAW runtime and routing configuration v4\n"@ == header_line() + "\n"@,
{
    reveal_strlit("# SHR-DAW runtime and routing configuration v4\n");
    reveal_strlit("# SHR-DAW runtime and routing configuration v4");
    reveal_strlit("\n");
    assert("# SHR-DAW runtime and routing configuration v4\n"@ =~= header_line() + "\n"@);
}

proof fn lemma_terminated_single(x: Seq<char>)
    ensures
        terminated(seq![x]) == x + "\n"@,
{
    assert(seq![x].drop_last() =~= Seq::<Seq<char>>::empty());
    assert(terminated(Seq::<Seq<char>>::empty()) =~= Seq::<char>::empty());
    assert(Seq::<char>::empty() + x + "\n"@ =~= x + "\n"@);
}

proof fn lemma_list_lines(k: Seq<char>, items: Seq<Seq<char>>)
    ensures
        list_lines(k, items) == terminated(Seq::new(items.len(), |i: int| kv_line(k, items[i]))),
    decreases items.len(),
{
    let ls = Seq::new(items.len(), |i: int| kv_line(k, items[i]));
    if items.len() > 0 {
        lemma_list_lines(k, items.drop_last());
        assert(ls.drop_last() =~= Seq::new(items.drop_last().len(), |i: int| kv_line(k, items.drop_last()[i])));
        assert(ls.last() == kv_line(k, items.last()));
    } else {
        assert(terminated(ls) =~= Seq::<char>::empty());
    }
}

proof fn lemma_list_block(k: Seq<char>, items: Seq<Seq<char>>)
    ensures
        list_block(k, items) == terminated(block(k, items)),
{
    if items.len() == 0 {
        lemma_terminated_single(kv_line(k, Seq::empty()));
    } else {
        lemma_list_lines(k, items);
    }
}

pub open spec fn lines_synth(m: ConfigModel) -> Seq<Seq<char>> {
    seq![header_line()]
        + seq![kv_line("synthv1.command"@, m.synth_command)]
        + seq![kv_line("synthv1.client"@, m.client_name)]
        + seq![kv_line("synth.startup_timeout_ms"@, decimal(m.startup_timeout_ms as nat))]
        + seq![kv_line("display.note_names"@, m.note_naming.spec_config_value())]
        + seq![kv_line("synthv1.presets"@, opt_text(m.preset_dir))]
        + seq![kv_line("synthv1.midi_output"@, m.midi_output_match)]
        + seq![kv_line("yoshimi.command"@, m.yoshimi.backend.command)]
        + seq![kv_line("yoshimi.client"@, m.yoshimi.backend.client_name)]
        + seq![kv_line("yoshimi.midi_output"@, m.yoshimi.backend.midi_output_match)]
        + block("yoshimi.preset_root"@, m.yoshimi.backend.preset_roots)
        + block("yoshimi.category"@, m.yoshimi.categories)
}

pub open spec fn lines_fluid(m: ConfigModel) -> Seq<Seq<char>> {
    seq![kv_line("yoshimi.presets_per_category"@, decimal(m.yoshimi.presets_per_category as nat))]
        + seq![kv_line("fluidsynth.command"@, m.fluidsynth.backend.command)]
        + seq![kv_line("fluidsynth.client"@, m.fluidsynth.backend.client_name)]
        + seq![kv_line("fluidsynth.midi_output"@, m.fluidsynth.backend.midi_output_match)]
        + seq![kv_line("fluidsynth.gain"@, m.fluidsynth.gain)]
        + block("fluidsynth.soundfont"@, m.fluidsynth.soundfonts)
}

pub open spec fn lines_routes(m: ConfigModel) -> Seq<Seq<char>> {
    seq![kv_line("midi.autoconnect"@, bool_text(m.midi_autoconnect))]
        + block("midi.input"@, m.midi_input_matches)
        + seq![kv_line("audio.autoconnect"@, bool_text(m.audio_autoconnect))]
        + block("audio.output"@, m.audio_outputs)
        + block("audio.internal_output"@, route_texts(m.audio_internal_outputs))
        + seq![kv_line("audio.headphone_output"@, match m.audio_headphone_output { Some(r) => route_text(r), None => Seq::empty(), })]
}

pub open spec fn lines_graph(m: ConfigModel) -> Seq<Seq<char>> {
    seq![kv_line("audio.graph.enabled"@, bool_text(m.audio_graph.enabled))]
        + seq![kv_line("audio.graph.client"@, m.audio_graph.client_name)]
        + seq![kv_line("audio.graph.maximum_callback_frames"@, decimal(m.audio_graph.maximum_callback_frames as nat))]
        + seq![kv_line("audio.engine_cpu"@, opt_number(match m.audio_engine_cpu { Some(c) => Some(c as nat), None => None, }))]
}

pub open spec fn lines_external(m: ConfigModel) -> Seq<Seq<char>> {
    let x = m.external_midi;
    seq![kv_line("external_midi.enabled"@, bool_text(x.enabled))]
        + seq![kv_line("external_midi.client"@, x.client_name)]
        + seq![kv_line("external_midi.output"@, x.output_match)]
        + seq![kv_line("external_midi.max_tracks"@, decimal(x.max_tracks as nat))]
        + block("external_midi.channel"@, byte_texts(x.channels, 1))
}

pub open spec fn lines_percussion(m: ConfigModel) -> Seq<Seq<char>> {
    let x = m.external_midi;
    seq![kv_line("external_midi.melody_channel"@, decimal((x.melody_channel + 1) as nat))]
        + seq![kv_line("external_midi.percussion_channel"@, opt_number(match x.percussion_channel { Some(c) => Some((c + 1) as nat), None => None, }))]
        + seq![kv_line("external_midi.percussion_program"@, opt_number(match x.percussion_program { Some(p) => Some(p as nat), None => None, }))]
        + seq![kv_line("external_midi.percussion_input_base"@, decimal(x.percussion_input_base as nat))]
        + block("external_midi.percussion_note"@, byte_texts(x.percussion_notes, 0))
}

pub open spec fn lines_external_rest(m: ConfigModel) -> Seq<Seq<char>> {
    let x = m.external_midi;
    seq![kv_line("external_midi.bank_select"@, bank_text(x.bank_select))]
        + seq![kv_line("external_midi.program_changes"@, bool_text(x.program_changes))]
        + seq![kv_line("external_midi.send_transport"@, bool_text(x.send_transport))]
        + seq![kv_line("external_midi.default_tempo"@, decimal(x.default_tempo as nat))]
        + seq![kv_line("external_midi.pattern_rows"@, decimal(x.default_pattern_rows as nat))]
        + seq![kv_line("external_midi.steps_per_beat"@, decimal(x.steps_per_beat as nat))]
        + seq![kv_line("external_midi.live_thru"@, bool_text(x.live_thru))]
        + seq![kv_line("external_midi.profile"@, x.profile)]
        + seq![kv_line("external_midi.gate_percent"@, decimal(x.gate_percent as nat))]
        + seq![kv_line("external_midi.gesture_settle_ms"@, decimal(x.gesture_settle_ms as nat))]
}

pub open spec fn lines_capture(m: ConfigModel) -> Seq<Seq<char>> {
    seq![kv_line("capture.client"@, m.capture.client_name)]
        + seq![kv_line("capture.directory"@, m.capture.directory)]
        + seq![kv_line("capture.ring_frames"@, decimal(m.capture.ring_frames as nat))]
        + block("capture.input"@, route_texts(m.capture.inputs))
        + seq![kv_line("loop.client"@, m.loop_player.client_name)]
        + seq![kv_line("loop.import_directory"@, m.loop_player.import_directory)]
        + block("loop.output"@, m.loop_player.outputs)
        + seq![kv_line("status.cpu_temperature_path"@, opt_text(m.cpu_temperature_path))]
}

proof fn lemma_text_synth_lines(m: ConfigModel)
    ensures
        text_synth(m) == terminated(lines_synth(m)),
{
    lemma_terminated_concat(((((((((((seq![header_line()]) + seq![kv_line("synthv1.command"@, m.synth_command)]) + seq![kv_line("synthv1.client"@, m.client_name)]) + seq![kv_line("synth.startup_timeout_ms"@, decimal(m.startup_timeout_ms as nat))]) + seq![kv_line("display.note_names"@, m.note_naming.spec_config_value())]) + seq![kv_line("synthv1.presets"@, opt_text(m.preset_dir))]) + seq![kv_line("synthv1.midi_output"@, m.midi_output_match)]) + seq![kv_line("yoshimi.command"@, m.yoshimi.backend.command)]) + seq![kv_line("yoshimi.client"@, m.yoshimi.backend.client_name)]) + seq![kv_line("yoshimi.midi_output"@, m.yoshimi.backend.midi_output_match)]) + block("yoshimi.preset_root"@, m.yoshimi.backend.preset_roots), block("yoshimi.category"@, m.yoshimi.categories));
    lemma_terminated_concat((((((((((seq![header_line()]) + seq![kv_line("synthv1.command"@, m.synth_command)]) + seq![kv_line("synthv1.client"@, m.client_name)]) + seq![kv_line("synth.startup_timeout_ms"@, decimal(m.startup_timeout_ms as nat))]) + seq![kv_line("display.note_names"@, m.note_naming.spec_config_value())]) + seq![kv_line("synthv1.presets"@, opt_text(m.preset_dir))]) + seq![kv_line("synthv1.midi_output"@, m.midi_output_match)]) + seq![kv_line("yoshimi.command"@, m.yoshimi.backend.command)]) + seq![kv_line("yoshimi.client"@, m.yoshimi.backend.client_name)]) + seq![kv_line("yoshimi.midi_output"@, m.yoshimi.backend.midi_output_match)], block("yoshimi.preset_root"@, m.yoshimi.backend.preset_roots));
    lemma_terminated_concat(((((((((seq![header_line()]) + seq![kv_line("synthv1.command"@, m.synth_command)]) + seq![kv_line("synthv1.client"@, m.client_name)]) + seq![kv_line("synth.startup_timeout_ms"@, decimal(m.startup_timeout_ms as nat))]) + seq![kv_line("display.note_names"@, m.note_naming.spec_config_value())]) + seq![kv_line("synthv1.presets"@, opt_text(m.preset_dir))]) + seq![kv_line("synthv1.midi_output"@, m.midi_output_match)]) + seq![kv_line("yoshimi.command"@, m.yoshimi.backend.command)]) + seq![kv_line("yoshimi.client"@, m.yoshimi.backend.client_name)], seq![kv_line("yoshimi.midi_output"@, m.yoshimi.backend.midi_output_match)]);
    lemma_terminated_concat((((((((seq![header_line()]) + seq![kv_line("synthv1.command"@, m.synth_command)]) + seq![kv_line("synthv1.client"@, m.client_name)]) + seq![kv_line("synth.startup_timeout_ms"@, decimal(m.startup_timeout_ms as nat))]) + seq![kv_line("display.note_names"@, m.note_naming.spec_config_value())]) + seq![kv_line("synthv1.presets"@, opt_text(m.preset_dir))]) + seq![kv_line("synthv1.midi_output"@, m.midi_output_match)]) + seq![kv_line("yoshimi.command"@, m.yoshimi.backend.command)], seq![kv_line("yoshimi.client"@, m.yoshimi.backend.client_name)]);
    lemma_terminated_concat(((((((seq![header_line()]) + seq![kv_line("synthv1.command"@, m.synth_command)]) + seq![kv_line("synthv1.client"@, m.client_name)]) + seq![kv_line("synth.startup_timeout_ms"@, decimal(m.startup_timeout_ms as nat))]) + seq![kv_line("display.note_names"@, m.note_naming.spec_config_value())]) + seq![kv_line("synthv1.presets"@, opt_text(m.preset_dir))]) + seq![kv_line("synthv1.midi_output"@, m.midi_output_match)], seq![kv_line("yoshimi.command"@, m.yoshimi.backend.command)]);
    lemma_terminated_concat((((((seq![header_line()]) + seq![kv_line("synthv1.command"@, m.synth_command)]) + seq![kv_line("synthv1.client"@, m.client_name)]) + seq![kv_line("synth.startup_timeout_ms"@, decimal(m.startup_timeout_ms as nat))]) + seq![kv_line("display.note_names"@, m.note_naming.spec_config_value())]) + seq![kv_line("synthv1.presets"@, opt_text(m.preset_dir))], seq![kv_line("synthv1.midi_output"@, m.midi_output_match)]);
    lemma_terminated_concat(((((seq![header_line()]) + seq![kv_line("synthv1.command"@, m.synth_command)]) + seq![kv_line("synthv1.client"@, m.client_name)]) + seq![kv_line("synth.startup_timeout_ms"@, decimal(m.startup_timeout_ms as nat))]) + seq![kv_line("display.note_names"@, m.note_naming.spec_config_value())], seq![kv_line("synthv1.presets"@, opt_text(m.preset_dir))]);
    lemma_terminated_concat((((seq![header_line()]) + seq![kv_line("synthv1.command"@, m.synth_command)]) + seq![kv_line("synthv1.client"@, m.client_name)]) + seq![kv_line("synth.startup_timeout_ms"@, decimal(m.startup_timeout_ms as nat))], seq![kv_line("display.note_names"@, m.note_naming.spec_config_value())]);
    lemma_terminated_concat(((seq![header_line()]) + seq![kv_line("synthv1.command"@, m.synth_command)]) + seq![kv_line("synthv1.client"@, m.client_name)], seq![kv_line("synth.startup_timeout_ms"@, decimal(m.startup_timeout_ms as nat))]);
    lemma_terminated_concat((seq![header_line()]) + seq![kv_line("synthv1.command"@, m.synth_command)], seq![kv_line("synthv1.client"@, m.client_name)]);
    lemma_terminated_concat(seq![header_line()], seq![kv_line("synthv1.command"@, m.synth_command)]);
    lemma_header_text();
    lemma_terminated_single(header_line());
    lemma_terminated_single(kv_line("synthv1.command"@, m.synth_command));
    lemma_terminated_single(kv_line("synthv1.client"@, m.client_name));
    lemma_terminated_single(kv_line("synth.startup_timeout_ms"@, decimal(m.startup_timeout_ms as nat)));
    lemma_terminated_single(kv_line("display.note_names"@, m.note_naming.spec_config_value()));
    lemma_terminated_single(kv_line("synthv1.presets"@, opt_text(m.preset_dir)));
    lemma_terminated_single(kv_line("synthv1.midi_output"@, m.midi_output_match));
    lemma_terminated_single(kv_line("yoshimi.command"@, m.yoshimi.backend.command));
    lemma_terminated_single(kv_line("yoshimi.client"@, m.yoshimi.backend.client_name));
    lemma_terminated_single(kv_line("yoshimi.midi_output"@, m.yoshimi.backend.midi_output_match));
    lemma_list_block("yoshimi.preset_root"@, m.yoshimi.backend.preset_roots);
    lemma_list_block("yoshimi.category"@, m.yoshimi.categories);
}

proof fn lemma_text_fluid_lines(m: ConfigModel)
    ensures
        text_fluid(m) == terminated(lines_fluid(m)),
{
    lemma_terminated_concat(((((seq![kv_line("yoshimi.presets_per_category"@, decimal(m.yoshimi.presets_per_category as nat))]) + seq![kv_line("fluidsynth.command"@, m.fluidsynth.backend.command)]) + seq![kv_line("fluidsynth.client"@, m.fluidsynth.backend.client_name)]) + seq![kv_line("fluidsynth.midi_output"@, m.fluidsynth.backend.midi_output_match)]) + seq![kv_line("fluidsynth.gain"@, m.fluidsynth.gain)], block("fluidsynth.soundfont"@, m.fluidsynth.soundfonts));
    lemma_terminated_concat((((seq![kv_line("yoshimi.presets_per_category"@, decimal(m.yoshimi.presets_per_category as nat))]) + seq![kv_line("fluidsynth.command"@, m.fluidsynth.backend.command)]) + seq![kv_line("fluidsynth.client"@, m.fluidsynth.backend.client_name)]) + seq![kv_line("fluidsynth.midi_output"@, m.fluidsynth.backend.midi_output_match)], seq![kv_line("fluidsynth.gain"@, m.fluidsynth.gain)]);
    lemma_terminated_concat(((seq![kv_line("yoshimi.presets_per_category"@, decimal(m.yoshimi.presets_per_category as nat))]) + seq![kv_line("fluidsynth.command"@, m.fluidsynth.backend.command)]) + seq![kv_line("fluidsynth.client"@, m.fluidsynth.backend.client_name)], seq![kv_line("fluidsynth.midi_output"@, m.fluidsynth.backend.midi_output_match)]);
    lemma_terminated_concat((seq![kv_line("yoshimi.presets_per_category"@, decimal(m.yoshimi.presets_per_category as nat))]) + seq![kv_line("fluidsynth.command"@, m.fluidsynth.backend.command)], seq![kv_line("fluidsynth.client"@, m.fluidsynth.backend.client_name)]);
    lemma_terminated_concat(seq![kv_line("yoshimi.presets_per_category"@, decimal(m.yoshimi.presets_per_category as nat))], seq![kv_line("fluidsynth.command"@, m.fluidsynth.backend.command)]);
    lemma_terminated_single(kv_line("yoshimi.presets_per_category"@, decimal(m.yoshimi.presets_per_category as nat)));
    lemma_terminated_single(kv_line("fluidsynth.command"@, m.fluidsynth.backend.command));
    lemma_terminated_single(kv_line("fluidsynth.client"@, m.fluidsynth.backend.client_name));
    lemma_terminated_single(kv_line("fluidsynth.midi_output"@, m.fluidsynth.backend.midi_output_match));
    lemma_terminated_single(kv_line("fluidsynth.gain"@, m.fluidsynth.gain));
    lemma_list_block("fluidsynth.soundfont"@, m.fluidsynth.soundfonts);
}

proof fn lemma_text_routes_lines(m: ConfigModel)
    ensures
        text_routes(m) == terminated(lines_routes(m)),
{
    lemma_terminated_concat(((((seq![kv_line("midi.autoconnect"@, bool_text(m.midi_autoconnect))]) + block("midi.input"@, m.midi_input_matches)) + seq![kv_line("audio.autoconnect"@, bool_text(m.audio_autoconnect))]) + block("audio.output"@, m.audio_outputs)) + block("audio.internal_output"@, route_texts(m.audio_internal_outputs)), seq![kv_line("audio.headphone_output"@, match m.audio_headphone_output { Some(r) => route_text(r), None => Seq::empty(), })]);
    lemma_terminated_concat((((seq![kv_line("midi.autoconnect"@, bool_text(m.midi_autoconnect))]) + block("midi.input"@, m.midi_input_matches)) + seq![kv_line("audio.autoconnect"@, bool_text(m.audio_autoconnect))]) + block("audio.output"@, m.audio_outputs), block("audio.internal_output"@, route_texts(m.audio_internal_outputs)));
    lemma_terminated_concat(((seq![kv_line("midi.autoconnect"@, bool_text(m.midi_autoconnect))]) + block("midi.input"@, m.midi_input_matches)) + seq![kv_line("audio.autoconnect"@, bool_text(m.audio_autoconnect))], block("audio.output"@, m.audio_outputs));
    lemma_terminated_concat((seq![kv_line("midi.autoconnect"@, bool_text(m.midi_autoconnect))]) + block("midi.input"@, m.midi_input_matches), seq![kv_line("audio.autoconnect"@, bool_text(m.audio_autoconnect))]);
    lemma_terminated_concat(seq![kv_line("midi.autoconnect"@, bool_text(m.midi_autoconnect))], block("midi.input"@, m.midi_input_matches));
    lemma_terminated_single(kv_line("midi.autoconnect"@, bool_text(m.midi_autoconnect)));
    lemma_list_block("midi.input"@, m.midi_input_matches);
    lemma_terminated_single(kv_line("audio.autoconnect"@, bool_text(m.audio_autoconnect)));
    lemma_list_block("audio.output"@, m.audio_outputs);
    lemma_list_block("audio.internal_output"@, route_texts(m.audio_internal_outputs));
    lemma_terminated_single(kv_line("audio.headphone_output"@, match m.audio_headphone_output { Some(r) => route_text(r), None => Seq::empty(), }));
}

proof fn lemma_text_graph_lines(m: ConfigModel)
    ensures
        text_graph(m) == terminated(lines_graph(m)),
{
    lemma_terminated_concat(((seq![kv_line("audio.graph.enabled"@, bool_text(m.audio_graph.enabled))]) + seq![kv_line("audio.graph.client"@, m.audio_graph.client_name)]) + seq![kv_line("audio.graph.maximum_callback_frames"@, decimal(m.audio_graph.maximum_callback_frames as nat))], seq![kv_line("audio.engine_cpu"@, opt_number(match m.audio_engine_cpu { Some(c) => Some(c as nat), None => None, }))]);
    lemma_terminated_concat((seq![kv_line("audio.graph.enabled"@, bool_text(m.audio_graph.enabled))]) + seq![kv_line("audio.graph.client"@, m.audio_graph.client_name)], seq![kv_line("audio.graph.maximum_callback_frames"@, decimal(m.audio_graph.maximum_callback_frames as nat))]);
    lemma_terminated_concat(seq![kv_line("audio.graph.enabled"@, bool_text(m.audio_graph.enabled))], seq![kv_line("audio.graph.client"@, m.audio_graph.client_name)]);
    lemma_terminated_single(kv_line("audio.graph.enabled"@, bool_text(m.audio_graph.enabled)));
    lemma_terminated_single(kv_line("audio.graph.client"@, m.audio_graph.client_name));
    lemma_terminated_single(kv_line("audio.graph.maximum_callback_frames"@, decimal(m.audio_graph.maximum_callback_frames as nat)));
    lemma_terminated_single(kv_line("audio.engine_cpu"@, opt_number(match m.audio_engine_cpu { Some(c) => Some(c as nat), None => None, })));
}

proof fn lemma_text_external_lines(m: ConfigModel)
    ensures
        text_external(m) == terminated(lines_external(m)),
{
    let x = m.external_midi;
    lemma_terminated_concat((((seq![kv_line("external_midi.enabled"@, bool_text(x.enabled))]) + seq![kv_line("external_midi.client"@, x.client_name)]) + seq![kv_line("external_midi.output"@, x.output_match)]) + seq![kv_line("external_midi.max_tracks"@, decimal(x.max_tracks as nat))], block("external_midi.channel"@, byte_texts(x.channels, 1)));
    lemma_terminated_concat(((seq![kv_line("external_midi.enabled"@, bool_text(x.enabled))]) + seq![kv_line("external_midi.client"@, x.client_name)]) + seq![kv_line("external_midi.output"@, x.output_match)], seq![kv_line("external_midi.max_tracks"@, decimal(x.max_tracks as nat))]);
    lemma_terminated_concat((seq![kv_line("external_midi.enabled"@, bool_text(x.enabled))]) + seq![kv_line("external_midi.client"@, x.client_name)], seq![kv_line("external_midi.output"@, x.output_match)]);
    lemma_terminated_concat(seq![kv_line("external_midi.enabled"@, bool_text(x.enabled))], seq![kv_line("external_midi.client"@, x.client_name)]);
    lemma_terminated_single(kv_line("external_midi.enabled"@, bool_text(x.enabled)));
    lemma_terminated_single(kv_line("external_midi.client"@, x.client_name));
    lemma_terminated_single(kv_line("external_midi.output"@, x.output_match));
    lemma_terminated_single(kv_line("external_midi.max_tracks"@, decimal(x.max_tracks as nat)));
    lemma_list_block("external_midi.channel"@, byte_texts(x.channels, 1));
}

proof fn lemma_text_percussion_lines(m: ConfigModel)
    ensures
        text_percussion(m) == terminated(lines_percussion(m)),
{
    let x = m.external_midi;
    lemma_terminated_concat((((seq![kv_line("external_midi.melody_channel"@, decimal((x.melody_channel + 1) as nat))]) + seq![kv_line("external_midi.percussion_channel"@, opt_number(match x.percussion_channel { Some(c) => Some((c + 1) as nat), None => None, }))]) + seq![kv_line("external_midi.percussion_program"@, opt_number(match x.percussion_program { Some(p) => Some(p as nat), None => None, }))]) + seq![kv_line("external_midi.percussion_input_base"@, decimal(x.percussion_input_base as nat))], block("external_midi.percussion_note"@, byte_texts(x.percussion_notes, 0)));
    lemma_terminated_concat(((seq![kv_line("external_midi.melody_channel"@, decimal((x.melody_channel + 1) as nat))]) + seq![kv_line("external_midi.percussion_channel"@, opt_number(match x.percussion_channel { Some(c) => Some((c + 1) as nat), None => None, }))]) + seq![kv_line("external_midi.percussion_program"@, opt_number(match x.percussion_program { Some(p) => Some(p as nat), None => None, }))], seq![kv_line("external_midi.percussion_input_base"@, decimal(x.percussion_input_base as nat))]);
    lemma_terminated_concat((seq![kv_line("external_midi.melody_channel"@, decimal((x.melody_channel + 1) as nat))]) + seq![kv_line("external_midi.percussion_channel"@, opt_number(match x.percussion_channel { Some(c) => Some((c + 1) as nat), None => None, }))], seq![kv_line("external_midi.percussion_program"@, opt_number(match x.percussion_program { Some(p) => Some(p as nat), None => None, }))]);
    lemma_terminated_concat(seq![kv_line("external_midi.melody_channel"@, decimal((x.melody_channel + 1) as nat))], seq![kv_line("external_midi.percussion_channel"@, opt_number(match x.percussion_channel { Some(c) => Some((c + 1) as nat), None => None, }))]);
    lemma_terminated_single(kv_line("external_midi.melody_channel"@, decimal((x.melody_channel + 1) as nat)));
    lemma_terminated_single(kv_line("external_midi.percussion_channel"@, opt_number(match x.percussion_channel { Some(c) => Some((c + 1) as nat), None => None, })));
    lemma_terminated_single(kv_line("external_midi.percussion_program"@, opt_number(match x.percussion_program { Some(p) => Some(p as nat), None => None, })));
    lemma_terminated_single(kv_line("external_midi.percussion_input_base"@, decimal(x.percussion_input_base as nat)));
    lemma_list_block("external_midi.percussion_note"@, byte_texts(x.percussion_notes, 0));
}

proof fn lemma_text_external_rest_lines(m: ConfigModel)
    ensures
        text_external_rest(m) == terminated(lines_external_rest(m)),
{
    let x = m.external_midi;
    lemma_terminated_concat(((((((((seq![kv_line("external_midi.bank_select"@, bank_text(x.bank_select))]) + seq![kv_line("external_midi.program_changes"@, bool_text(x.program_changes))]) + seq![kv_line("external_midi.send_transport"@, bool_text(x.send_transport))]) + seq![kv_line("external_midi.default_tempo"@, decimal(x.default_tempo as nat))]) + seq![kv_line("external_midi.pattern_rows"@, decimal(x.default_pattern_rows as nat))]) + seq![kv_line("external_midi.steps_per_beat"@, decimal(x.steps_per_beat as nat))]) + seq![kv_line("external_midi.live_thru"@, bool_text(x.live_thru))]) + seq![kv_line("external_midi.profile"@, x.profile)]) + seq![kv_line("external_midi.gate_percent"@, decimal(x.gate_percent as nat))], seq![kv_line("external_midi.gesture_settle_ms"@, decimal(x.gesture_settle_ms as nat))]);
    lemma_terminated_concat((((((((seq![kv_line("external_midi.bank_select"@, bank_text(x.bank_select))]) + seq![kv_line("external_midi.program_changes"@, bool_text(x.program_changes))]) + seq![kv_line("external_midi.send_transport"@, bool_text(x.send_transport))]) + seq![kv_line("external_midi.default_tempo"@, decimal(x.default_tempo as nat))]) + seq![kv_line("external_midi.pattern_rows"@, decimal(x.default_pattern_rows as nat))]) + seq![kv_line("external_midi.steps_per_beat"@, decimal(x.steps_per_beat as nat))]) + seq![kv_line("external_midi.live_thru"@, bool_text(x.live_thru))]) + seq![kv_line("external_midi.profile"@, x.profile)], seq![kv_line("external_midi.gate_percent"@, decimal(x.gate_percent as nat))]);
    lemma_terminated_concat(((((((seq![kv_line("external_midi.bank_select"@, bank_text(x.bank_select))]) + seq![kv_line("external_midi.program_changes"@, bool_text(x.program_changes))]) + seq![kv_line("external_midi.send_transport"@, bool_text(x.send_transport))]) + seq![kv_line("external_midi.default_tempo"@, decimal(x.default_tempo as nat))]) + seq![kv_line("external_midi.pattern_rows"@, decimal(x.default_pattern_rows as nat))]) + seq![kv_line("external_midi.steps_per_beat"@, decimal(x.steps_per_beat as nat))]) + seq![kv_line("external_midi.live_thru"@, bool_text(x.live_thru))], seq![kv_line("external_midi.profile"@, x.profile)]);
    lemma_terminated_concat((((((seq![kv_line("external_midi.bank_select"@, bank_text(x.bank_select))]) + seq![kv_line("external_midi.program_changes"@, bool_text(x.program_changes))]) + seq![kv_line("external_midi.send_transport"@, bool_text(x.send_transport))]) + seq![kv_line("external_midi.default_tempo"@, decimal(x.default_tempo as nat))]) + seq![kv_line("external_midi.pattern_rows"@, decimal(x.default_pattern_rows as nat))]) + seq![kv_line("external_midi.steps_per_beat"@, decimal(x.steps_per_beat as nat))], seq![kv_line("external_midi.live_thru"@, bool_text(x.live_thru))]);
    lemma_terminated_concat(((((seq![kv_line("external_midi.bank_select"@, bank_text(x.bank_select))]) + seq![kv_line("external_midi.program_changes"@, bool_text(x.program_changes))]) + seq![kv_line("external_midi.send_transport"@, bool_text(x.send_transport))]) + seq![kv_line("external_midi.default_tempo"@, decimal(x.default_tempo as nat))]) + seq![kv_line("external_midi.pattern_rows"@, decimal(x.default_pattern_rows as nat))], seq![kv_line("external_midi.steps_per_beat"@, decimal(x.steps_per_beat as nat))]);
    lemma_terminated_concat((((seq![kv_line("external_midi.bank_select"@, bank_text(x.bank_select))]) + seq![kv_line("external_midi.program_changes"@, bool_text(x.program_changes))]) + seq![kv_line("external_midi.send_transport"@, bool_text(x.send_transport))]) + seq![kv_line("external_midi.default_tempo"@, decimal(x.default_tempo as nat))], seq![kv_line("external_midi.pattern_rows"@, decimal(x.default_pattern_rows as nat))]);
    lemma_terminated_concat(((seq![kv_line("external_midi.bank_select"@, bank_text(x.bank_select))]) + seq![kv_line("external_midi.program_changes"@, bool_text(x.program_changes))]) + seq![kv_line("external_midi.send_transport"@, bool_text(x.send_transport))], seq![kv_line("external_midi.default_tempo"@, decimal(x.default_tempo as nat))]);
    lemma_terminated_concat((seq![kv_line("external_midi.bank_select"@, bank_text(x.bank_select))]) + seq![kv_line("external_midi.program_changes"@, bool_text(x.program_changes))], seq![kv_line("external_midi.send_transport"@, bool_text(x.send_transport))]);
    lemma_terminated_concat(seq![kv_line("external_midi.bank_select"@, bank_text(x.bank_select))], seq![kv_line("external_midi.program_changes"@, bool_text(x.program_changes))]);
    lemma_terminated_single(kv_line("external_midi.bank_select"@, bank_text(x.bank_select)));
    lemma_terminated_single(kv_line("external_midi.program_changes"@, bool_text(x.program_changes)));
    lemma_terminated_single(kv_line("external_midi.send_transport"@, bool_text(x.send_transport)));
    lemma_terminated_single(kv_line("external_midi.default_tempo"@, decimal(x.default_tempo as nat)));
    lemma_terminated_single(kv_line("external_midi.pattern_rows"@, decimal(x.default_pattern_rows as nat)));
    lemma_terminated_single(kv_line("external_midi.steps_per_beat"@, decimal(x.steps_per_beat as nat)));
    lemma_terminated_single(kv_line("external_midi.live_thru"@, bool_text(x.live_thru)));
    lemma_terminated_single(kv_line("external_midi.profile"@, x.profile));
    lemma_terminated_single(kv_line("external_midi.gate_percent"@, decimal(x.gate_percent as nat)));
    lemma_terminated_single(kv_line("external_midi.gesture_settle_ms"@, decimal(x.gesture_settle_ms as nat)));
}

proof fn lemma_text_capture_lines(m: ConfigModel)
    ensures
        text_capture(m) == terminated(lines_capture(m)),
{
    lemma_terminated_concat(((((((seq![kv_line("capture.client"@, m.capture.client_name)]) + seq![kv_line("capture.directory"@, m.capture.directory)]) + seq![kv_line("capture.ring_frames"@, decimal(m.capture.ring_frames as nat))]) + block("capture.input"@, route_texts(m.capture.inputs))) + seq![kv_line("loop.client"@, m.loop_player.client_name)]) + seq![kv_line("loop.import_directory"@, m.loop_player.import_directory)]) + block("loop.output"@, m.loop_player.outputs), seq![kv_line("status.cpu_temperature_path"@, opt_text(m.cpu_temperature_path))]);
    lemma_terminated_concat((((((seq![kv_line("capture.client"@, m.capture.client_name)]) + seq![kv_line("capture.directory"@, m.capture.directory)]) + seq![kv_line("capture.ring_frames"@, decimal(m.capture.ring_frames as nat))]) + block("capture.input"@, route_texts(m.capture.inputs))) + seq![kv_line("loop.client"@, m.loop_player.client_name)]) + seq![kv_line("loop.import_directory"@, m.loop_player.import_directory)], block("loop.output"@, m.loop_player.outputs));
    lemma_terminated_concat(((((seq![kv_line("capture.client"@, m.capture.client_name)]) + seq![kv_line("capture.directory"@, m.capture.directory)]) + seq![kv_line("capture.ring_frames"@, decimal(m.capture.ring_frames as nat))]) + block("capture.input"@, route_texts(m.capture.inputs))) + seq![kv_line("loop.client"@, m.loop_player.client_name)], seq![kv_line("loop.import_directory"@, m.loop_player.import_directory)]);
    lemma_terminated_concat((((seq![kv_line("capture.client"@, m.capture.client_name)]) + seq![kv_line("capture.directory"@, m.capture.directory)]) + seq![kv_line("capture.ring_frames"@, decimal(m.capture.ring_frames as nat))]) + block("capture.input"@, route_texts(m.capture.inputs)), seq![kv_line("loop.client"@, m.loop_player.client_name)]);
    lemma_terminated_concat(((seq![kv_line("capture.client"@, m.capture.client_name)]) + seq![kv_line("capture.directory"@, m.capture.directory)]) + seq![kv_line("capture.ring_frames"@, decimal(m.capture.ring_frames as nat))], block("capture.input"@, route_texts(m.capture.inputs)));
    lemma_terminated_concat((seq![kv_line("capture.client"@, m.capture.client_name)]) + seq![kv_line("capture.directory"@, m.capture.directory)], seq![kv_line("capture.ring_frames"@, decimal(m.capture.ring_frames as nat))]);
    lemma_terminated_concat(seq![kv_line("capture.client"@, m.capture.client_name)], seq![kv_line("capture.directory"@, m.capture.directory)]);
    lemma_terminated_single(kv_line("capture.client"@, m.capture.client_name));
    lemma_terminated_single(kv_line("capture.directory"@, m.capture.directory));
    lemma_terminated_single(kv_line("capture.ring_frames"@, decimal(m.capture.ring_frames as nat)));
    lemma_list_block("capture.input"@, route_texts(m.capture.inputs));
    lemma_terminated_single(kv_line("loop.client"@, m.loop_player.client_name));
    lemma_terminated_single(kv_line("loop.import_directory"@, m.loop_player.import_directory));
    lemma_list_block("loop.output"@, m.loop_player.outputs);
    lemma_terminated_single(kv_line("status.cpu_temperature_path"@, opt_text(m.cpu_temperature_path)));
}

/// The lines the saved text is made of.
pub open spec fn config_lines(m: ConfigModel) -> Seq<Seq<char>> {
    lines_synth(m) + lines_fluid(m) + lines_routes(m) + lines_graph(m) + lines_external(m)
        + lines_percussion(m) + lines_external_rest(m) + lines_capture(m)
}

proof fn lemma_config_text_lines(m: ConfigModel)
    ensures
        config_text(m) == terminated(config_lines(m)),
{
    lemma_text_synth_lines(m);
    lemma_text_fluid_lines(m);
    lemma_text_routes_lines(m);
    lemma_text_graph_lines(m);
    lemma_text_external_lines(m);
    lemma_text_percussion_lines(m);
    lemma_text_external_rest_lines(m);
    lemma_text_capture_lines(m);
    let a1 = lines_synth(m);
    let a2 = a1 + lines_fluid(m);
    let a3 = a2 + lines_routes(m);
    let a4 = a3 + lines_graph(m);
    let a5 = a4 + lines_external(m);
    let a6 = a5 + lines_percussion(m);
    let a7 = a6 + lines_external_rest(m);
    lemma_terminated_concat(a7, lines_capture(m));
    lemma_terminated_concat(a6, lines_external_rest(m));
    lemma_terminated_concat(a5, lines_percussion(m));
    lemma_terminated_concat(a4, lines_external(m));
    lemma_terminated_concat(a3, lines_graph(m));
    lemma_terminated_concat(a2, lines_routes(m));
    lemma_terminated_concat(a1, lines_fluid(m));
}

// ---------------------------------------------------------------------------
// Saved values are clean
// ---------------------------------------------------------------------------

/// A non-empty clean value.
pub open spec fn req_ok(v: Seq<char>) -> bool {
    v.len() > 0 && clean(v)
}

proof fn lemma_clean_by_ends(v: Seq<char>)
    requires
        v.len() > 0 ==> !is_ws(v[0]) && !is_ws(v.last()),
        forall|i: int| 0 <= i < v.len() ==> #[trigger] v[i] != '\n',
    ensures
        clean(v),
{
    lemma_trim_self(v);
}

proof fn lemma_decimal_clean(n: nat)
    ensures
        clean(decimal(n)),
        decimal(n).len() > 0,
{
    crate::text::lemma_decimal_digits(n);
    let d = decimal(n);
    assert(crate::text::is_digit(d[0]));
    assert(crate::text::is_digit(d.last()));
    assert forall|i: int| 0 <= i < d.len() implies #[trigger] d[i] != '\n' by {
        assert(crate::text::is_digit(d[i]));
    }
    lemma_clean_by_ends(d);
}

proof fn lemma_bool_clean(b: bool)
    ensures
        clean(bool_text(b)),
        bool_text(b).len() > 0,
{
    reveal_strlit("true");
    reveal_strlit("false");
    lemma_clean_by_ends(bool_text(b));
}

proof fn lemma_naming_back(n: NoteNaming)
    ensures
        clean(n.spec_config_value()),
        n.spec_config_value().len() > 0,
        lower_seq(n.spec_config_value()) == n.spec_config_value(),
        n.spec_config_value() == "german"@ <==> n == NoteNaming::German,
        n.spec_config_value() == "english"@ <==> n == NoteNaming::English,
{
    reveal_strlit("german");
    reveal_strlit("english");
    assert("german"@.len() != "english"@.len());
    lemma_clean_by_ends(n.spec_config_value());
    assert(lower_seq(n.spec_config_value()) =~= n.spec_config_value());
}

proof fn lemma_bank_back(b: BankSelectMode)
    ensures
        clean(bank_text(b)),
        bank_text(b).len() > 0,
        lower_seq(bank_text(b)) == bank_text(b),
        bank_text(b) == "off"@ <==> b == BankSelectMode::Off,
        bank_text(b) == "cc0"@ <==> b == BankSelectMode::Cc0,
        (bank_text(b) == "cc0+cc32"@ || bank_text(b) == "cc0_cc32"@) <==> b == BankSelectMode::Cc0Cc32,
{
    reveal_strlit("off");
    reveal_strlit("cc0");
    reveal_strlit("cc0+cc32");
    reveal_strlit("cc0_cc32");
    assert("off"@.len() == 3 && "cc0"@.len() == 3 && "cc0+cc32"@.len() == 8 && "cc0_cc32"@.len() == 8);
    assert("off"@[0] == 'o' && "cc0"@[0] == 'c');
    assert("cc0+cc32"@[3] == '+' && "cc0_cc32"@[3] == '_');
    lemma_clean_by_ends(bank_text(b));
    assert(lower_seq(bank_text(b)) =~= bank_text(b));
}

proof fn lemma_route_clean(r: StereoModel)
    requires
        route_ok(r),
    ensures
        clean(route_text(r)),
        route_text(r).len() > 0,
{
    reveal_strlit("|");
    let t = route_text(r);
    crate::text::lemma_trim_nonempty_ends(r.name);
    crate::text::lemma_trim_nonempty_ends(r.right_port);
    assert(t[0] == r.name[0]);
    assert(t.last() == r.right_port.last());
    assert forall|i: int| 0 <= i < t.len() implies #[trigger] t[i] != '\n' by {
        let a = r.name.len() as int;
        let b = a + 1 + r.left_port.len();
        if i < a {
            assert(t[i] == r.name[i]);
        } else if i == a {
        } else if i < b {
            assert(t[i] == r.left_port[i - a - 1]);
        } else if i == b {
        } else {
            assert(t[i] == r.right_port[i - b - 1]);
        }
    }
    lemma_clean_by_ends(t);
}

proof fn lemma_stereo_plain_back(k: Seq<char>, r: StereoModel)
    requires
        route_ok(r),
    ensures
        spec_stereo(k, route_text(r)) == Ok::<StereoModel, Seq<char>>(r),
{
    lemma_stereo_back(k, r);
    lemma_route_clean(r);
    reveal(spec_stereo_item);
}

proof fn lemma_empty_clean()
    ensures
        clean(Seq::<char>::empty()),
{
    lemma_trim_self(Seq::<char>::empty());
}

proof fn lemma_opt_path_back(p: Option<Seq<char>>, home: Option<Seq<char>>)
    requires
        p is Some ==> plain_path(p->0),
    ensures
        clean(opt_text(p)),
        p is None ==> opt_text(p).len() == 0,
        p is Some ==> opt_text(p).len() > 0 && expand_home(p->0, home) == p->0,
{
    lemma_empty_clean();
    if p is Some {
        lemma_path_back(p->0, home);
    }
}

proof fn lemma_headphones_back(k: Seq<char>, h: Option<StereoModel>)
    requires
        h is Some ==> route_ok(h->0),
    ensures
        clean(match h { Some(r) => route_text(r), None => Seq::<char>::empty() }),
        h is None ==> (match h { Some(r) => route_text(r), None => Seq::<char>::empty() }).len() == 0,
        h is Some ==> (match h { Some(r) => route_text(r), None => Seq::<char>::empty() }).len() > 0
            && spec_stereo(k, route_text(h->0)) == Ok::<StereoModel, Seq<char>>(h->0),
{
    lemma_empty_clean();
    if h is Some {
        lemma_route_clean(h->0);
        lemma_stereo_plain_back(k, h->0);
    }
}

proof fn lemma_cpu_back(k: Seq<char>, c: Option<usize>, cpus: nat)
    requires
        cpus >= 1,
        c is Some ==> c->0 < cpus,
    ensures
        clean(opt_number(match c { Some(c) => Some(c as nat), None => None })),
        c is None ==> opt_number(match c { Some(c) => Some(c as nat), None => None }).len() == 0,
        c is Some ==> opt_number(match c { Some(c) => Some(c as nat), None => None }).len() > 0
            && spec_bounded(k, decimal(c->0 as nat), 0, (cpus - 1) as nat) == Ok::<nat, Seq<char>>(c->0 as nat),
{
    lemma_empty_clean();
    if c is Some {
        lemma_decimal_clean(c->0 as nat);
        lemma_bounded_back(k, c->0 as nat, 0, (cpus - 1) as nat);
    }
}

proof fn lemma_opt_byte_back(k: Seq<char>, c: Option<u8>, min: nat, max: nat, offset: nat)
    requires
        c is Some ==> min <= c->0 + offset <= max,
        max <= 255,
    ensures
        clean(opt_number(match c { Some(b) => Some((b + offset) as nat), None => None })),
        c is None ==> opt_number(match c { Some(b) => Some((b + offset) as nat), None => None }).len() == 0,
        c is Some ==> opt_number(match c { Some(b) => Some((b + offset) as nat), None => None }).len() > 0
            && spec_bounded(k, decimal((c->0 + offset) as nat), min, max) == Ok::<nat, Seq<char>>((c->0 + offset) as nat),
{
    lemma_empty_clean();
    if c is Some {
        lemma_decimal_clean((c->0 + offset) as nat);
        lemma_bounded_back(k, (c->0 + offset) as nat, min, max);
    }
}

// ---------------------------------------------------------------------------
// Each saved setting line reads back
// ---------------------------------------------------------------------------

proof fn lemma_run_synth_command(m1: ConfigModel, s1: ListsSeen, m: ConfigModel, home: Option<Seq<char>>, cpus: nat)
    requires
        req_ok(m.synth_command),
    ensures
        run_lines(m1, s1, seq![kv_line("synthv1.command"@, m.synth_command)], home, cpus) == Some((ConfigModel { synth_command: m.synth_command, ..m1 }, s1)),
        all_ok(seq![kv_line("synthv1.command"@, m.synth_command)]),
{
    lemma_key_names();
    lemma_required_back("synthv1.command"@, m.synth_command);
    lemma_run_kv(m1, s1, "synthv1.command"@, m.synth_command, home, cpus);
    lemma_dispatch_synth(m1, s1, "synthv1.command"@, m.synth_command, home, cpus, Seq::empty(), 0);
    reveal(settings_synth);
}

proof fn lemma_run_synth_client(m1: ConfigModel, s1: ListsSeen, m: ConfigModel, home: Option<Seq<char>>, cpus: nat)
    requires
        req_ok(m.client_name),
    ensures
        run_lines(m1, s1, seq![kv_line("synthv1.client"@, m.client_name)], home, cpus) == Some((ConfigModel { client_name: m.client_name, ..m1 }, s1)),
        all_ok(seq![kv_line("synthv1.client"@, m.client_name)]),
{
    lemma_key_names();
    lemma_required_back("synthv1.client"@, m.client_name);
    lemma_run_kv(m1, s1, "synthv1.client"@, m.client_name, home, cpus);
    lemma_dispatch_synth(m1, s1, "synthv1.client"@, m.client_name, home, cpus, Seq::empty(), 0);
    reveal(settings_synth);
}

proof fn lemma_run_startup_timeout(m1: ConfigModel, s1: ListsSeen, m: ConfigModel, home: Option<Seq<char>>, cpus: nat)
    requires
        m.startup_timeout_ms > 0,
    ensures
        run_lines(m1, s1, seq![kv_line("synth.startup_timeout_ms"@, decimal(m.startup_timeout_ms as nat))], home, cpus) == Some((ConfigModel { startup_timeout_ms: m.startup_timeout_ms, ..m1 }, s1)),
        all_ok(seq![kv_line("synth.startup_timeout_ms"@, decimal(m.startup_timeout_ms as nat))]),
{
    lemma_key_names();
    lemma_decimal_clean(m.startup_timeout_ms as nat);
    lemma_parse_decimal(m.startup_timeout_ms as nat, u64::MAX as int);
    lemma_run_kv(m1, s1, "synth.startup_timeout_ms"@, decimal(m.startup_timeout_ms as nat), home, cpus);
    lemma_dispatch_synth(m1, s1, "synth.startup_timeout_ms"@, decimal(m.startup_timeout_ms as nat), home, cpus, Seq::empty(), 0);
    reveal(settings_synth);
}

proof fn lemma_run_note_names(m1: ConfigModel, s1: ListsSeen, m: ConfigModel, home: Option<Seq<char>>, cpus: nat)
    ensures
        run_lines(m1, s1, seq![kv_line("display.note_names"@, m.note_naming.spec_config_value())], home, cpus) == Some((ConfigModel { note_naming: m.note_naming, ..m1 }, s1)),
        all_ok(seq![kv_line("display.note_names"@, m.note_naming.spec_config_value())]),
{
    lemma_key_names();
    lemma_naming_back(m.note_naming);
    lemma_run_kv(m1, s1, "display.note_names"@, m.note_naming.spec_config_value(), home, cpus);
    lemma_dispatch_synth(m1, s1, "display.note_names"@, m.note_naming.spec_config_value(), home, cpus, Seq::empty(), 0);
    reveal(settings_synth);
}

proof fn lemma_run_presets(m1: ConfigModel, s1: ListsSeen, m: ConfigModel, home: Option<Seq<char>>, cpus: nat)
    requires
        m.preset_dir is Some ==> plain_path(m.preset_dir->0),
    ensures
        run_lines(m1, s1, seq![kv_line("synthv1.presets"@, opt_text(m.preset_dir))], home, cpus) == Some((ConfigModel { preset_dir: m.preset_dir, ..m1 }, s1)),
        all_ok(seq![kv_line("synthv1.presets"@, opt_text(m.preset_dir))]),
{
    lemma_key_names();
    lemma_opt_path_back(m.preset_dir, home);
    lemma_run_kv(m1, s1, "synthv1.presets"@, opt_text(m.preset_dir), home, cpus);
    lemma_dispatch_synth(m1, s1, "synthv1.presets"@, opt_text(m.preset_dir), home, cpus, Seq::empty(), 0);
    reveal(settings_synth);
}

proof fn lemma_run_synth_output(m1: ConfigModel, s1: ListsSeen, m: ConfigModel, home: Option<Seq<char>>, cpus: nat)
    requires
        req_ok(m.midi_output_match),
    ensures
        run_lines(m1, s1, seq![kv_line("synthv1.midi_output"@, m.midi_output_match)], home, cpus) == Some((ConfigModel { midi_output_match: m.midi_output_match, ..m1 }, s1)),
        all_ok(seq![kv_line("synthv1.midi_output"@, m.midi_output_match)]),
{
    lemma_key_names();
    lemma_required_back("synthv1.midi_output"@, m.midi_output_match);
    lemma_run_kv(m1, s1, "synthv1.midi_output"@, m.midi_output_match, home, cpus);
    lemma_dispatch_synth(m1, s1, "synthv1.midi_output"@, m.midi_output_match, home, cpus, Seq::empty(), 0);
    reveal(settings_synth);
}

proof fn lemma_run_yoshimi_command(m1: ConfigModel, s1: ListsSeen, m: ConfigModel, home: Option<Seq<char>>, cpus: nat)
    requires
        req_ok(m.yoshimi.backend.command),
    ensures
        run_lines(m1, s1, seq![kv_line("yoshimi.command"@, m.yoshimi.backend.command)], home, cpus) == Some((ConfigModel { yoshimi: YoshimiModel { backend: BackendModel { command: m.yoshimi.backend.command, ..m1.yoshimi.backend }, ..m1.yoshimi }, ..m1 }, s1)),
        all_ok(seq![kv_line("yoshimi.command"@, m.yoshimi.backend.command)]),
{
    lemma_key_names();
    lemma_required_back("yoshimi.command"@, m.yoshimi.backend.command);
    lemma_run_kv(m1, s1, "yoshimi.command"@, m.yoshimi.backend.command, home, cpus);
    lemma_dispatch_yoshimi(m1, s1, "yoshimi.command"@, m.yoshimi.backend.command, home, cpus, Seq::empty(), 0);
    reveal(settings_yoshimi);
}

proof fn lemma_run_yoshimi_client(m1: ConfigModel, s1: ListsSeen, m: ConfigModel, home: Option<Seq<char>>, cpus: nat)
    requires
        req_ok(m.yoshimi.backend.client_name),
    ensures
        run_lines(m1, s1, seq![kv_line("yoshimi.client"@, m.yoshimi.backend.client_name)], home, cpus) == Some((ConfigModel { yoshimi: YoshimiModel { backend: BackendModel { client_name: m.yoshimi.backend.client_name, ..m1.yoshimi.backend }, ..m1.yoshimi }, ..m1 }, s1)),
        all_ok(seq![kv_line("yoshimi.client"@, m.yoshimi.backend.client_name)]),
{
    lemma_key_names();
    lemma_required_back("yoshimi.client"@, m.yoshimi.backend.client_name);
    lemma_run_kv(m1, s1, "yoshimi.client"@, m.yoshimi.backend.client_name, home, cpus);
    lemma_dispatch_yoshimi(m1, s1, "yoshimi.client"@, m.yoshimi.backend.client_name, home, cpus, Seq::empty(), 0);
    reveal(settings_yoshimi);
}

proof fn lemma_run_yoshimi_output(m1: ConfigModel, s1: ListsSeen, m: ConfigModel, home: Option<Seq<char>>, cpus: nat)
    requires
        req_ok(m.yoshimi.backend.midi_output_match),
    ensures
        run_lines(m1, s1, seq![kv_line("yoshimi.midi_output"@, m.yoshimi.backend.midi_output_match)], home, cpus) == Some((ConfigModel { yoshimi: YoshimiModel { backend: BackendModel { midi_output_match: m.yoshimi.backend.midi_output_match, ..m1.yoshimi.backend }, ..m1.yoshimi }, ..m1 }, s1)),
        all_ok(seq![kv_line("yoshimi.midi_output"@, m.yoshimi.backend.midi_output_match)]),
{
    lemma_key_names();
    lemma_required_back("yoshimi.midi_output"@, m.yoshimi.backend.midi_output_match);
    lemma_run_kv(m1, s1, "yoshimi.midi_output"@, m.yoshimi.backend.midi_output_match, home, cpus);
    lemma_dispatch_yoshimi(m1, s1, "yoshimi.midi_output"@, m.yoshimi.backend.midi_output_match, home, cpus, Seq::empty(), 0);
    reveal(settings_yoshimi);
}

proof fn lemma_run_presets_per_category(m1: ConfigModel, s1: ListsSeen, m: ConfigModel, home: Option<Seq<char>>, cpus: nat)
    requires
        m.yoshimi.presets_per_category > 0,
    ensures
        run_lines(m1, s1, seq![kv_line("yoshimi.presets_per_category"@, decimal(m.yoshimi.presets_per_category as nat))], home, cpus) == Some((ConfigModel { yoshimi: YoshimiModel { presets_per_category: m.yoshimi.presets_per_category, ..m1.yoshimi }, ..m1 }, s1)),
        all_ok(seq![kv_line("yoshimi.presets_per_category"@, decimal(m.yoshimi.presets_per_category as nat))]),
{
    lemma_key_names();
    lemma_decimal_clean(m.yoshimi.presets_per_category as nat);
    lemma_parse_decimal(m.yoshimi.presets_per_category as nat, usize::MAX as int);
    lemma_run_kv(m1, s1, "yoshimi.presets_per_category"@, decimal(m.yoshimi.presets_per_category as nat), home, cpus);
    lemma_dispatch_yoshimi_lists(m1, s1, "yoshimi.presets_per_category"@, decimal(m.yoshimi.presets_per_category as nat), home, cpus, Seq::empty(), 0);
    reveal(settings_yoshimi_lists);
}

proof fn lemma_run_fluid_command(m1: ConfigModel, s1: ListsSeen, m: ConfigModel, home: Option<Seq<char>>, cpus: nat)
    requires
        req_ok(m.fluidsynth.backend.command),
    ensures
        run_lines(m1, s1, seq![kv_line("fluidsynth.command"@, m.fluidsynth.backend.command)], home, cpus) == Some((ConfigModel { fluidsynth: FluidModel { backend: BackendModel { command: m.fluidsynth.backend.command, ..m1.fluidsynth.backend }, ..m1.fluidsynth }, ..m1 }, s1)),
        all_ok(seq![kv_line("fluidsynth.command"@, m.fluidsynth.backend.command)]),
{
    lemma_key_names();
    lemma_required_back("fluidsynth.command"@, m.fluidsynth.backend.command);
    lemma_run_kv(m1, s1, "fluidsynth.command"@, m.fluidsynth.backend.command, home, cpus);
    lemma_dispatch_fluid(m1, s1, "fluidsynth.command"@, m.fluidsynth.backend.command, home, cpus, Seq::empty(), 0);
    reveal(settings_fluid);
}

proof fn lemma_run_fluid_client(m1: ConfigModel, s1: ListsSeen, m: ConfigModel, home: Option<Seq<char>>, cpus: nat)
    requires
        req_ok(m.fluidsynth.backend.client_name),
    ensures
        run_lines(m1, s1, seq![kv_line("fluidsynth.client"@, m.fluidsynth.backend.client_name)], home, cpus) == Some((ConfigModel { fluidsynth: FluidModel { backend: BackendModel { client_name: m.fluidsynth.backend.client_name, ..m1.fluidsynth.backend }, ..m1.fluidsynth }, ..m1 }, s1)),
        all_ok(seq![kv_line("fluidsynth.client"@, m.fluidsynth.backend.client_name)]),
{
    lemma_key_names();
    lemma_required_back("fluidsynth.client"@, m.fluidsynth.backend.client_name);
    lemma_run_kv(m1, s1, "fluidsynth.client"@, m.fluidsynth.backend.client_name, home, cpus);
    lemma_dispatch_fluid(m1, s1, "fluidsynth.client"@, m.fluidsynth.backend.client_name, home, cpus, Seq::empty(), 0);
    reveal(settings_fluid);
}

proof fn lemma_run_fluid_output(m1: ConfigModel, s1: ListsSeen, m: ConfigModel, home: Option<Seq<char>>, cpus: nat)
    requires
        req_ok(m.fluidsynth.backend.midi_output_match),
    ensures
        run_lines(m1, s1, seq![kv_line("fluidsynth.midi_output"@, m.fluidsynth.backend.midi_output_match)], home, cpus) == Some((ConfigModel { fluidsynth: FluidModel { backend: BackendModel { midi_output_match: m.fluidsynth.backend.midi_output_match, ..m1.fluidsynth.backend }, ..m1.fluidsynth }, ..m1 }, s1)),
        all_ok(seq![kv_line("fluidsynth.midi_output"@, m.fluidsynth.backend.midi_output_match)]),
{
    lemma_key_names();
    lemma_required_back("fluidsynth.midi_output"@, m.fluidsynth.backend.midi_output_match);
    lemma_run_kv(m1, s1, "fluidsynth.midi_output"@, m.fluidsynth.backend.midi_output_match, home, cpus);
    lemma_dispatch_fluid(m1, s1, "fluidsynth.midi_output"@, m.fluidsynth.backend.midi_output_match, home, cpus, Seq::empty(), 0);
    reveal(settings_fluid);
}

proof fn lemma_run_fluid_gain(m1: ConfigModel, s1: ListsSeen, m: ConfigModel, home: Option<Seq<char>>, cpus: nat)
    requires
        clean(m.fluidsynth.gain),
    ensures
        run_lines(m1, s1, seq![kv_line("fluidsynth.gain"@, m.fluidsynth.gain)], home, cpus) == Some((ConfigModel { fluidsynth: FluidModel { gain: m.fluidsynth.gain, ..m1.fluidsynth }, ..m1 }, s1)),
        all_ok(seq![kv_line("fluidsynth.gain"@, m.fluidsynth.gain)]),
{
    lemma_key_names();
    lemma_run_kv(m1, s1, "fluidsynth.gain"@, m.fluidsynth.gain, home, cpus);
    lemma_dispatch_fluid(m1, s1, "fluidsynth.gain"@, m.fluidsynth.gain, home, cpus, Seq::empty(), 0);
    reveal(settings_fluid);
}

proof fn lemma_run_midi_autoconnect(m1: ConfigModel, s1: ListsSeen, m: ConfigModel, home: Option<Seq<char>>, cpus: nat)
    ensures
        run_lines(m1, s1, seq![kv_line("midi.autoconnect"@, bool_text(m.midi_autoconnect))], home, cpus) == Some((ConfigModel { midi_autoconnect: m.midi_autoconnect, ..m1 }, s1)),
        all_ok(seq![kv_line("midi.autoconnect"@, bool_text(m.midi_autoconnect))]),
{
    lemma_key_names();
    lemma_bool_clean(m.midi_autoconnect);
    lemma_boolean_back("midi.autoconnect"@, m.midi_autoconnect);
    lemma_run_kv(m1, s1, "midi.autoconnect"@, bool_text(m.midi_autoconnect), home, cpus);
    lemma_dispatch_routes(m1, s1, "midi.autoconnect"@, bool_text(m.midi_autoconnect), home, cpus, Seq::empty(), 0);
    reveal(settings_routes);
}

proof fn lemma_run_audio_autoconnect(m1: ConfigModel, s1: ListsSeen, m: ConfigModel, home: Option<Seq<char>>, cpus: nat)
    ensures
        run_lines(m1, s1, seq![kv_line("audio.autoconnect"@, bool_text(m.audio_autoconnect))], home, cpus) == Some((ConfigModel { audio_autoconnect: m.audio_autoconnect, ..m1 }, s1)),
        all_ok(seq![kv_line("audio.autoconnect"@, bool_text(m.audio_autoconnect))]),
{
    lemma_key_names();
    lemma_bool_clean(m.audio_autoconnect);
    lemma_boolean_back("audio.autoconnect"@, m.audio_autoconnect);
    lemma_run_kv(m1, s1, "audio.autoconnect"@, bool_text(m.audio_autoconnect), home, cpus);
    lemma_dispatch_outputs(m1, s1, "audio.autoconnect"@, bool_text(m.audio_autoconnect), home, cpus, Seq::empty(), 0);
    reveal(settings_outputs);
}

proof fn lemma_run_headphones(m1: ConfigModel, s1: ListsSeen, m: ConfigModel, home: Option<Seq<char>>, cpus: nat)
    requires
        m.audio_headphone_output is Some ==> route_ok(m.audio_headphone_output->0),
    ensures
        run_lines(m1, s1, seq![kv_line("audio.headphone_output"@, match m.audio_headphone_output { Some(r) => route_text(r), None => Seq::<char>::empty() })], home, cpus) == Some((ConfigModel { audio_headphone_output: m.audio_headphone_output, ..m1 }, s1)),
        all_ok(seq![kv_line("audio.headphone_output"@, match m.audio_headphone_output { Some(r) => route_text(r), None => Seq::<char>::empty() })]),
{
    lemma_key_names();
    lemma_headphones_back("audio.headphone_output"@, m.audio_headphone_output);
    lemma_run_kv(m1, s1, "audio.headphone_output"@, match m.audio_headphone_output { Some(r) => route_text(r), None => Seq::<char>::empty() }, home, cpus);
    lemma_dispatch_headphones(m1, s1, "audio.headphone_output"@, match m.audio_headphone_output { Some(r) => route_text(r), None => Seq::<char>::empty() }, home, cpus, Seq::empty(), 0);
    reveal(settings_headphones);
}

proof fn lemma_run_graph_enabled(m1: ConfigModel, s1: ListsSeen, m: ConfigModel, home: Option<Seq<char>>, cpus: nat)
    ensures
        run_lines(m1, s1, seq![kv_line("audio.graph.enabled"@, bool_text(m.audio_graph.enabled))], home, cpus) == Some((ConfigModel { audio_graph: GraphModel { enabled: m.audio_graph.enabled, ..m1.audio_graph }, ..m1 }, s1)),
        all_ok(seq![kv_line("audio.graph.enabled"@, bool_text(m.audio_graph.enabled))]),
{
    lemma_key_names();
    lemma_bool_clean(m.audio_graph.enabled);
    lemma_boolean_back("audio.graph.enabled"@, m.audio_graph.enabled);
    lemma_run_kv(m1, s1, "audio.graph.enabled"@, bool_text(m.audio_graph.enabled), home, cpus);
    lemma_dispatch_engine(m1, s1, "audio.graph.enabled"@, bool_text(m.audio_graph.enabled), home, cpus, Seq::empty(), 0);
    reveal(settings_engine);
}

proof fn lemma_run_graph_client(m1: ConfigModel, s1: ListsSeen, m: ConfigModel, home: Option<Seq<char>>, cpus: nat)
    requires
        req_ok(m.audio_graph.client_name),
    ensures
        run_lines(m1, s1, seq![kv_line("audio.graph.client"@, m.audio_graph.client_name)], home, cpus) == Some((ConfigModel { audio_graph: GraphModel { client_name: m.audio_graph.client_name, ..m1.audio_graph }, ..m1 }, s1)),
        all_ok(seq![kv_line("audio.graph.client"@, m.audio_graph.client_name)]),
{
    lemma_key_names();
    lemma_required_back("audio.graph.client"@, m.audio_graph.client_name);
    lemma_run_kv(m1, s1, "audio.graph.client"@, m.audio_graph.client_name, home, cpus);
    lemma_dispatch_engine(m1, s1, "audio.graph.client"@, m.audio_graph.client_name, home, cpus, Seq::empty(), 0);
    reveal(settings_engine);
}

proof fn lemma_run_graph_frames(m1: ConfigModel, s1: ListsSeen, m: ConfigModel, home: Option<Seq<char>>, cpus: nat)
    requires
        1 <= m.audio_graph.maximum_callback_frames <= 4096,
    ensures
        run_lines(m1, s1, seq![kv_line("audio.graph.maximum_callback_frames"@, decimal(m.audio_graph.maximum_callback_frames as nat))], home, cpus) == Some((ConfigModel { audio_graph: GraphModel { maximum_callback_frames: m.audio_graph.maximum_callback_frames, ..m1.audio_graph }, ..m1 }, s1)),
        all_ok(seq![kv_line("audio.graph.maximum_callback_frames"@, decimal(m.audio_graph.maximum_callback_frames as nat))]),
{
    lemma_key_names();
    lemma_decimal_clean(m.audio_graph.maximum_callback_frames as nat);
    lemma_bounded_back("audio.graph.maximum_callback_frames"@, m.audio_graph.maximum_callback_frames as nat, 1, 4096);
    lemma_run_kv(m1, s1, "audio.graph.maximum_callback_frames"@, decimal(m.audio_graph.maximum_callback_frames as nat), home, cpus);
    lemma_dispatch_engine(m1, s1, "audio.graph.maximum_callback_frames"@, decimal(m.audio_graph.maximum_callback_frames as nat), home, cpus, Seq::empty(), 0);
    reveal(settings_engine);
}

proof fn lemma_run_engine_cpu(m1: ConfigModel, s1: ListsSeen, m: ConfigModel, home: Option<Seq<char>>, cpus: nat)
    requires
        cpus >= 1,
        m.audio_engine_cpu is Some ==> m.audio_engine_cpu->0 < cpus,
    ensures
        run_lines(m1, s1, seq![kv_line("audio.engine_cpu"@, opt_number(match m.audio_engine_cpu { Some(c) => Some(c as nat), None => None }))], home, cpus) == Some((ConfigModel { audio_engine_cpu: m.audio_engine_cpu, ..m1 }, s1)),
        all_ok(seq![kv_line("audio.engine_cpu"@, opt_number(match m.audio_engine_cpu { Some(c) => Some(c as nat), None => None }))]),
{
    lemma_key_names();
    lemma_cpu_back("audio.engine_cpu"@, m.audio_engine_cpu, cpus);
    lemma_run_kv(m1, s1, "audio.engine_cpu"@, opt_number(match m.audio_engine_cpu { Some(c) => Some(c as nat), None => None }), home, cpus);
    lemma_dispatch_engine(m1, s1, "audio.engine_cpu"@, opt_number(match m.audio_engine_cpu { Some(c) => Some(c as nat), None => None }), home, cpus, Seq::empty(), 0);
    reveal(settings_engine);
}

proof fn lemma_run_temperature(m1: ConfigModel, s1: ListsSeen, m: ConfigModel, home: Option<Seq<char>>, cpus: nat)
    requires
        m.cpu_temperature_path is Some ==> plain_path(m.cpu_temperature_path->0),
    ensures
        run_lines(m1, s1, seq![kv_line("status.cpu_temperature_path"@, opt_text(m.cpu_temperature_path))], home, cpus) == Some((ConfigModel { cpu_temperature_path: m.cpu_temperature_path, ..m1 }, s1)),
        all_ok(seq![kv_line("status.cpu_temperature_path"@, opt_text(m.cpu_temperature_path))]),
{
    lemma_key_names();
    lemma_opt_path_back(m.cpu_temperature_path, home);
    lemma_run_kv(m1, s1, "status.cpu_temperature_path"@, opt_text(m.cpu_temperature_path), home, cpus);
    lemma_dispatch_engine(m1, s1, "status.cpu_temperature_path"@, opt_text(m.cpu_temperature_path), home, cpus, Seq::empty(), 0);
    reveal(settings_engine);
}

proof fn lemma_run_ext_enabled(m1: ConfigModel, s1: ListsSeen, m: ConfigModel, home: Option<Seq<char>>, cpus: nat)
    ensures
        run_lines(m1, s1, seq![kv_line("external_midi.enabled"@, bool_text(m.external_midi.enabled))], home, cpus) == Some((ConfigModel { external_midi: ExternalMidiModel { enabled: m.external_midi.enabled, ..m1.external_midi }, ..m1 }, s1)),
        all_ok(seq![kv_line("external_midi.enabled"@, bool_text(m.external_midi.enabled))]),
{
    lemma_key_names();
    lemma_bool_clean(m.external_midi.enabled);
    lemma_boolean_back("external_midi.enabled"@, m.external_midi.enabled);
    lemma_run_kv(m1, s1, "external_midi.enabled"@, bool_text(m.external_midi.enabled), home, cpus);
    lemma_dispatch_external_1(m1, s1, "external_midi.enabled"@, bool_text(m.external_midi.enabled), home, cpus, Seq::empty(), 0);
    reveal(settings_external_1);
}

proof fn lemma_run_ext_client(m1: ConfigModel, s1: ListsSeen, m: ConfigModel, home: Option<Seq<char>>, cpus: nat)
    requires
        req_ok(m.external_midi.client_name),
    ensures
        run_lines(m1, s1, seq![kv_line("external_midi.client"@, m.external_midi.client_name)], home, cpus) == Some((ConfigModel { external_midi: ExternalMidiModel { client_name: m.external_midi.client_name, ..m1.external_midi }, ..m1 }, s1)),
        all_ok(seq![kv_line("external_midi.client"@, m.external_midi.client_name)]),
{
    lemma_key_names();
    lemma_required_back("external_midi.client"@, m.external_midi.client_name);
    lemma_run_kv(m1, s1, "external_midi.client"@, m.external_midi.client_name, home, cpus);
    lemma_dispatch_external_1(m1, s1, "external_midi.client"@, m.external_midi.client_name, home, cpus, Seq::empty(), 0);
    reveal(settings_external_1);
}

proof fn lemma_run_ext_output(m1: ConfigModel, s1: ListsSeen, m: ConfigModel, home: Option<Seq<char>>, cpus: nat)
    requires
        clean(m.external_midi.output_match),
    ensures
        run_lines(m1, s1, seq![kv_line("external_midi.output"@, m.external_midi.output_match)], home, cpus) == Some((ConfigModel { external_midi: ExternalMidiModel { output_match: m.external_midi.output_match, ..m1.external_midi }, ..m1 }, s1)),
        all_ok(seq![kv_line("external_midi.output"@, m.external_midi.output_match)]),
{
    lemma_key_names();
    lemma_run_kv(m1, s1, "external_midi.output"@, m.external_midi.output_match, home, cpus);
    lemma_dispatch_external_1(m1, s1, "external_midi.output"@, m.external_midi.output_match, home, cpus, Seq::empty(), 0);
    reveal(settings_external_1);
}

proof fn lemma_run_ext_tracks(m1: ConfigModel, s1: ListsSeen, m: ConfigModel, home: Option<Seq<char>>, cpus: nat)
    requires
        1 <= m.external_midi.max_tracks <= 16,
    ensures
        run_lines(m1, s1, seq![kv_line("external_midi.max_tracks"@, decimal(m.external_midi.max_tracks as nat))], home, cpus) == Some((ConfigModel { external_midi: ExternalMidiModel { max_tracks: m.external_midi.max_tracks, ..m1.external_midi }, ..m1 }, s1)),
        all_ok(seq![kv_line("external_midi.max_tracks"@, decimal(m.external_midi.max_tracks as nat))]),
{
    lemma_key_names();
    lemma_decimal_clean(m.external_midi.max_tracks as nat);
    lemma_bounded_back("external_midi.max_tracks"@, m.external_midi.max_tracks as nat, 1, 16);
    lemma_run_kv(m1, s1, "external_midi.max_tracks"@, decimal(m.external_midi.max_tracks as nat), home, cpus);
    lemma_dispatch_external_1(m1, s1, "external_midi.max_tracks"@, decimal(m.external_midi.max_tracks as nat), home, cpus, Seq::empty(), 0);
    reveal(settings_external_1);
}

proof fn lemma_run_ext_melody(m1: ConfigModel, s1: ListsSeen, m: ConfigModel, home: Option<Seq<char>>, cpus: nat)
    requires
        m.external_midi.melody_channel <= 15,
    ensures
        run_lines(m1, s1, seq![kv_line("external_midi.melody_channel"@, decimal((m.external_midi.melody_channel + 1) as nat))], home, cpus) == Some((ConfigModel { external_midi: ExternalMidiModel { melody_channel: m.external_midi.melody_channel, ..m1.external_midi }, ..m1 }, s1)),
        all_ok(seq![kv_line("external_midi.melody_channel"@, decimal((m.external_midi.melody_channel + 1) as nat))]),
{
    lemma_key_names();
    lemma_decimal_clean((m.external_midi.melody_channel + 1) as nat);
    lemma_bounded_back("external_midi.melody_channel"@, (m.external_midi.melody_channel + 1) as nat, 1, 16);
    lemma_run_kv(m1, s1, "external_midi.melody_channel"@, decimal((m.external_midi.melody_channel + 1) as nat), home, cpus);
    lemma_dispatch_external_2(m1, s1, "external_midi.melody_channel"@, decimal((m.external_midi.melody_channel + 1) as nat), home, cpus, Seq::empty(), 0);
    reveal(settings_external_2);
}

proof fn lemma_run_ext_percussion_channel(m1: ConfigModel, s1: ListsSeen, m: ConfigModel, home: Option<Seq<char>>, cpus: nat)
    requires
        m.external_midi.percussion_channel is Some ==> m.external_midi.percussion_channel->0 <= 15,
    ensures
        run_lines(m1, s1, seq![kv_line("external_midi.percussion_channel"@, opt_number(match m.external_midi.percussion_channel { Some(c) => Some((c + 1) as nat), None => None }))], home, cpus) == Some((ConfigModel { external_midi: ExternalMidiModel { percussion_channel: m.external_midi.percussion_channel, ..m1.external_midi }, ..m1 }, s1)),
        all_ok(seq![kv_line("external_midi.percussion_channel"@, opt_number(match m.external_midi.percussion_channel { Some(c) => Some((c + 1) as nat), None => None }))]),
{
    lemma_key_names();
    lemma_opt_byte_back("external_midi.percussion_channel"@, m.external_midi.percussion_channel, 1, 16, 1);
    lemma_run_kv(m1, s1, "external_midi.percussion_channel"@, opt_number(match m.external_midi.percussion_channel { Some(c) => Some((c + 1) as nat), None => None }), home, cpus);
    lemma_dispatch_external_2(m1, s1, "external_midi.percussion_channel"@, opt_number(match m.external_midi.percussion_channel { Some(c) => Some((c + 1) as nat), None => None }), home, cpus, Seq::empty(), 0);
    reveal(settings_external_2);
}

proof fn lemma_run_ext_percussion_program(m1: ConfigModel, s1: ListsSeen, m: ConfigModel, home: Option<Seq<char>>, cpus: nat)
    requires
        m.external_midi.percussion_program is Some ==> m.external_midi.percussion_program->0 <= 127,
    ensures
        run_lines(m1, s1, seq![kv_line("external_midi.percussion_program"@, opt_number(match m.external_midi.percussion_program { Some(p) => Some(p as nat), None => None }))], home, cpus) == Some((ConfigModel { external_midi: ExternalMidiModel { percussion_program: m.external_midi.percussion_program, ..m1.external_midi }, ..m1 }, s1)),
        all_ok(seq![kv_line("external_midi.percussion_program"@, opt_number(match m.external_midi.percussion_program { Some(p) => Some(p as nat), None => None }))]),
{
    lemma_key_names();
    lemma_opt_byte_back("external_midi.percussion_program"@, m.external_midi.percussion_program, 0, 127, 0);
    lemma_run_kv(m1, s1, "external_midi.percussion_program"@, opt_number(match m.external_midi.percussion_program { Some(p) => Some(p as nat), None => None }), home, cpus);
    lemma_dispatch_external_2(m1, s1, "external_midi.percussion_program"@, opt_number(match m.external_midi.percussion_program { Some(p) => Some(p as nat), None => None }), home, cpus, Seq::empty(), 0);
    reveal(settings_external_2);
}

proof fn lemma_run_ext_input_base(m1: ConfigModel, s1: ListsSeen, m: ConfigModel, home: Option<Seq<char>>, cpus: nat)
    requires
        0 <= m.external_midi.percussion_input_base <= 127,
    ensures
        run_lines(m1, s1, seq![kv_line("external_midi.percussion_input_base"@, decimal(m.external_midi.percussion_input_base as nat))], home, cpus) == Some((ConfigModel { external_midi: ExternalMidiModel { percussion_input_base: m.external_midi.percussion_input_base, ..m1.external_midi }, ..m1 }, s1)),
        all_ok(seq![kv_line("external_midi.percussion_input_base"@, decimal(m.external_midi.percussion_input_base as nat))]),
{
    lemma_key_names();
    lemma_decimal_clean(m.external_midi.percussion_input_base as nat);
    lemma_bounded_back("external_midi.percussion_input_base"@, m.external_midi.percussion_input_base as nat, 0, 127);
    lemma_run_kv(m1, s1, "external_midi.percussion_input_base"@, decimal(m.external_midi.percussion_input_base as nat), home, cpus);
    lemma_dispatch_external_2(m1, s1, "external_midi.percussion_input_base"@, decimal(m.external_midi.percussion_input_base as nat), home, cpus, Seq::empty(), 0);
    reveal(settings_external_2);
}

proof fn lemma_run_ext_bank(m1: ConfigModel, s1: ListsSeen, m: ConfigModel, home: Option<Seq<char>>, cpus: nat)
    ensures
        run_lines(m1, s1, seq![kv_line("external_midi.bank_select"@, bank_text(m.external_midi.bank_select))], home, cpus) == Some((ConfigModel { external_midi: ExternalMidiModel { bank_select: m.external_midi.bank_select, ..m1.external_midi }, ..m1 }, s1)),
        all_ok(seq![kv_line("external_midi.bank_select"@, bank_text(m.external_midi.bank_select))]),
{
    lemma_key_names();
    lemma_bank_back(m.external_midi.bank_select);
    lemma_run_kv(m1, s1, "external_midi.bank_select"@, bank_text(m.external_midi.bank_select), home, cpus);
    lemma_dispatch_external_3(m1, s1, "external_midi.bank_select"@, bank_text(m.external_midi.bank_select), home, cpus, Seq::empty(), 0);
    reveal(settings_external_3);
}

proof fn lemma_run_ext_program_changes(m1: ConfigModel, s1: ListsSeen, m: ConfigModel, home: Option<Seq<char>>, cpus: nat)
    ensures
        run_lines(m1, s1, seq![kv_line("external_midi.program_changes"@, bool_text(m.external_midi.program_changes))], home, cpus) == Some((ConfigModel { external_midi: ExternalMidiModel { program_changes: m.external_midi.program_changes, ..m1.external_midi }, ..m1 }, s1)),
        all_ok(seq![kv_line("external_midi.program_changes"@, bool_text(m.external_midi.program_changes))]),
{
    lemma_key_names();
    lemma_bool_clean(m.external_midi.program_changes);
    lemma_boolean_back("external_midi.program_changes"@, m.external_midi.program_changes);
    lemma_run_kv(m1, s1, "external_midi.program_changes"@, bool_text(m.external_midi.program_changes), home, cpus);
    lemma_dispatch_external_3(m1, s1, "external_midi.program_changes"@, bool_text(m.external_midi.program_changes), home, cpus, Seq::empty(), 0);
    reveal(settings_external_3);
}

proof fn lemma_run_ext_transport(m1: ConfigModel, s1: ListsSeen, m: ConfigModel, home: Option<Seq<char>>, cpus: nat)
    ensures
        run_lines(m1, s1, seq![kv_line("external_midi.send_transport"@, bool_text(m.external_midi.send_transport))], home, cpus) == Some((ConfigModel { external_midi: ExternalMidiModel { send_transport: m.external_midi.send_transport, ..m1.external_midi }, ..m1 }, s1)),
        all_ok(seq![kv_line("external_midi.send_transport"@, bool_text(m.external_midi.send_transport))]),
{
    lemma_key_names();
    lemma_bool_clean(m.external_midi.send_transport);
    lemma_boolean_back("external_midi.send_transport"@, m.external_midi.send_transport);
    lemma_run_kv(m1, s1, "external_midi.send_transport"@, bool_text(m.external_midi.send_transport), home, cpus);
    lemma_dispatch_external_3(m1, s1, "external_midi.send_transport"@, bool_text(m.external_midi.send_transport), home, cpus, Seq::empty(), 0);
    reveal(settings_external_3);
}

proof fn lemma_run_ext_tempo(m1: ConfigModel, s1: ListsSeen, m: ConfigModel, home: Option<Seq<char>>, cpus: nat)
    requires
        20 <= m.external_midi.default_tempo <= 300,
    ensures
        run_lines(m1, s1, seq![kv_line("external_midi.default_tempo"@, decimal(m.external_midi.default_tempo as nat))], home, cpus) == Some((ConfigModel { external_midi: ExternalMidiModel { default_tempo: m.external_midi.default_tempo, ..m1.external_midi }, ..m1 }, s1)),
        all_ok(seq![kv_line("external_midi.default_tempo"@, decimal(m.external_midi.default_tempo as nat))]),
{
    lemma_key_names();
    lemma_decimal_clean(m.external_midi.default_tempo as nat);
    lemma_bounded_back("external_midi.default_tempo"@, m.external_midi.default_tempo as nat, 20, 300);
    lemma_run_kv(m1, s1, "external_midi.default_tempo"@, decimal(m.external_midi.default_tempo as nat), home, cpus);
    lemma_dispatch_external_3(m1, s1, "external_midi.default_tempo"@, decimal(m.external_midi.default_tempo as nat), home, cpus, Seq::empty(), 0);
    reveal(settings_external_3);
}

proof fn lemma_run_ext_rows(m1: ConfigModel, s1: ListsSeen, m: ConfigModel, home: Option<Seq<char>>, cpus: nat)
    requires
        1 <= m.external_midi.default_pattern_rows <= 256,
    ensures
        run_lines(m1, s1, seq![kv_line("external_midi.pattern_rows"@, decimal(m.external_midi.default_pattern_rows as nat))], home, cpus) == Some((ConfigModel { external_midi: ExternalMidiModel { default_pattern_rows: m.external_midi.default_pattern_rows, ..m1.external_midi }, ..m1 }, s1)),
        all_ok(seq![kv_line("external_midi.pattern_rows"@, decimal(m.external_midi.default_pattern_rows as nat))]),
{
    lemma_key_names();
    lemma_decimal_clean(m.external_midi.default_pattern_rows as nat);
    lemma_bounded_back("external_midi.pattern_rows"@, m.external_midi.default_pattern_rows as nat, 1, 256);
    lemma_run_kv(m1, s1, "external_midi.pattern_rows"@, decimal(m.external_midi.default_pattern_rows as nat), home, cpus);
    lemma_dispatch_external_3(m1, s1, "external_midi.pattern_rows"@, decimal(m.external_midi.default_pattern_rows as nat), home, cpus, Seq::empty(), 0);
    reveal(settings_external_3);
}

proof fn lemma_run_ext_steps(m1: ConfigModel, s1: ListsSeen, m: ConfigModel, home: Option<Seq<char>>, cpus: nat)
    requires
        1 <= m.external_midi.steps_per_beat <= 16,
    ensures
        run_lines(m1, s1, seq![kv_line("external_midi.steps_per_beat"@, decimal(m.external_midi.steps_per_beat as nat))], home, cpus) == Some((ConfigModel { external_midi: ExternalMidiModel { steps_per_beat: m.external_midi.steps_per_beat, ..m1.external_midi }, ..m1 }, s1)),
        all_ok(seq![kv_line("external_midi.steps_per_beat"@, decimal(m.external_midi.steps_per_beat as nat))]),
{
    lemma_key_names();
    lemma_decimal_clean(m.external_midi.steps_per_beat as nat);
    lemma_bounded_back("external_midi.steps_per_beat"@, m.external_midi.steps_per_beat as nat, 1, 16);
    lemma_run_kv(m1, s1, "external_midi.steps_per_beat"@, decimal(m.external_midi.steps_per_beat as nat), home, cpus);
    lemma_dispatch_external_4(m1, s1, "external_midi.steps_per_beat"@, decimal(m.external_midi.steps_per_beat as nat), home, cpus, Seq::empty(), 0);
    reveal(settings_external_4);
}

proof fn lemma_run_ext_thru(m1: ConfigModel, s1: ListsSeen, m: ConfigModel, home: Option<Seq<char>>, cpus: nat)
    ensures
        run_lines(m1, s1, seq![kv_line("external_midi.live_thru"@, bool_text(m.external_midi.live_thru))], home, cpus) == Some((ConfigModel { external_midi: ExternalMidiModel { live_thru: m.external_midi.live_thru, ..m1.external_midi }, ..m1 }, s1)),
        all_ok(seq![kv_line("external_midi.live_thru"@, bool_text(m.external_midi.live_thru))]),
{
    lemma_key_names();
    lemma_bool_clean(m.external_midi.live_thru);
    lemma_boolean_back("external_midi.live_thru"@, m.external_midi.live_thru);
    lemma_run_kv(m1, s1, "external_midi.live_thru"@, bool_text(m.external_midi.live_thru), home, cpus);
    lemma_dispatch_external_4(m1, s1, "external_midi.live_thru"@, bool_text(m.external_midi.live_thru), home, cpus, Seq::empty(), 0);
    reveal(settings_external_4);
}

proof fn lemma_run_ext_profile(m1: ConfigModel, s1: ListsSeen, m: ConfigModel, home: Option<Seq<char>>, cpus: nat)
    requires
        req_ok(m.external_midi.profile),
    ensures
        run_lines(m1, s1, seq![kv_line("external_midi.profile"@, m.external_midi.profile)], home, cpus) == Some((ConfigModel { external_midi: ExternalMidiModel { profile: m.external_midi.profile, ..m1.external_midi }, ..m1 }, s1)),
        all_ok(seq![kv_line("external_midi.profile"@, m.external_midi.profile)]),
{
    lemma_key_names();
    lemma_required_back("external_midi.profile"@, m.external_midi.profile);
    lemma_run_kv(m1, s1, "external_midi.profile"@, m.external_midi.profile, home, cpus);
    lemma_dispatch_external_4(m1, s1, "external_midi.profile"@, m.external_midi.profile, home, cpus, Seq::empty(), 0);
    reveal(settings_external_4);
}

proof fn lemma_run_ext_gate(m1: ConfigModel, s1: ListsSeen, m: ConfigModel, home: Option<Seq<char>>, cpus: nat)
    requires
        1 <= m.external_midi.gate_percent <= 100,
    ensures
        run_lines(m1, s1, seq![kv_line("external_midi.gate_percent"@, decimal(m.external_midi.gate_percent as nat))], home, cpus) == Some((ConfigModel { external_midi: ExternalMidiModel { gate_percent: m.external_midi.gate_percent, ..m1.external_midi }, ..m1 }, s1)),
        all_ok(seq![kv_line("external_midi.gate_percent"@, decimal(m.external_midi.gate_percent as nat))]),
{
    lemma_key_names();
    lemma_decimal_clean(m.external_midi.gate_percent as nat);
    lemma_bounded_back("external_midi.gate_percent"@, m.external_midi.gate_percent as nat, 1, 100);
    lemma_run_kv(m1, s1, "external_midi.gate_percent"@, decimal(m.external_midi.gate_percent as nat), home, cpus);
    lemma_dispatch_external_4(m1, s1, "external_midi.gate_percent"@, decimal(m.external_midi.gate_percent as nat), home, cpus, Seq::empty(), 0);
    reveal(settings_external_4);
}

proof fn lemma_run_ext_settle(m1: ConfigModel, s1: ListsSeen, m: ConfigModel, home: Option<Seq<char>>, cpus: nat)
    requires
        10 <= m.external_midi.gesture_settle_ms <= 250,
    ensures
        run_lines(m1, s1, seq![kv_line("external_midi.gesture_settle_ms"@, decimal(m.external_midi.gesture_settle_ms as nat))], home, cpus) == Some((ConfigModel { external_midi: ExternalMidiModel { gesture_settle_ms: m.external_midi.gesture_settle_ms, ..m1.external_midi }, ..m1 }, s1)),
        all_ok(seq![kv_line("external_midi.gesture_settle_ms"@, decimal(m.external_midi.gesture_settle_ms as nat))]),
{
    lemma_key_names();
    lemma_decimal_clean(m.external_midi.gesture_settle_ms as nat);
    lemma_bounded_back("external_midi.gesture_settle_ms"@, m.external_midi.gesture_settle_ms as nat, 10, 250);
    lemma_run_kv(m1, s1, "external_midi.gesture_settle_ms"@, decimal(m.external_midi.gesture_settle_ms as nat), home, cpus);
    lemma_dispatch_external_4(m1, s1, "external_midi.gesture_settle_ms"@, decimal(m.external_midi.gesture_settle_ms as nat), home, cpus, Seq::empty(), 0);
    reveal(settings_external_4);
}

proof fn lemma_run_capture_client(m1: ConfigModel, s1: ListsSeen, m: ConfigModel, home: Option<Seq<char>>, cpus: nat)
    requires
        req_ok(m.capture.client_name),
    ensures
        run_lines(m1, s1, seq![kv_line("capture.client"@, m.capture.client_name)], home, cpus) == Some((ConfigModel { capture: CaptureModel { client_name: m.capture.client_name, ..m1.capture }, ..m1 }, s1)),
        all_ok(seq![kv_line("capture.client"@, m.capture.client_name)]),
{
    lemma_key_names();
    lemma_required_back("capture.client"@, m.capture.client_name);
    lemma_run_kv(m1, s1, "capture.client"@, m.capture.client_name, home, cpus);
    lemma_dispatch_capture(m1, s1, "capture.client"@, m.capture.client_name, home, cpus, Seq::empty(), 0);
    reveal(settings_capture);
}

proof fn lemma_run_capture_directory(m1: ConfigModel, s1: ListsSeen, m: ConfigModel, home: Option<Seq<char>>, cpus: nat)
    requires
        plain_path(m.capture.directory),
    ensures
        run_lines(m1, s1, seq![kv_line("capture.directory"@, m.capture.directory)], home, cpus) == Some((ConfigModel { capture: CaptureModel { directory: m.capture.directory, ..m1.capture }, ..m1 }, s1)),
        all_ok(seq![kv_line("capture.directory"@, m.capture.directory)]),
{
    lemma_key_names();
    lemma_required_back("capture.directory"@, m.capture.directory);
    lemma_path_back(m.capture.directory, home);
    lemma_run_kv(m1, s1, "capture.directory"@, m.capture.directory, home, cpus);
    lemma_dispatch_capture(m1, s1, "capture.directory"@, m.capture.directory, home, cpus, Seq::empty(), 0);
    reveal(settings_capture);
}

proof fn lemma_run_capture_ring(m1: ConfigModel, s1: ListsSeen, m: ConfigModel, home: Option<Seq<char>>, cpus: nat)
    requires
        1024 <= m.capture.ring_frames <= 4194304,
    ensures
        run_lines(m1, s1, seq![kv_line("capture.ring_frames"@, decimal(m.capture.ring_frames as nat))], home, cpus) == Some((ConfigModel { capture: CaptureModel { ring_frames: m.capture.ring_frames, ..m1.capture }, ..m1 }, s1)),
        all_ok(seq![kv_line("capture.ring_frames"@, decimal(m.capture.ring_frames as nat))]),
{
    lemma_key_names();
    lemma_decimal_clean(m.capture.ring_frames as nat);
    lemma_bounded_back("capture.ring_frames"@, m.capture.ring_frames as nat, 1024, 4194304);
    lemma_run_kv(m1, s1, "capture.ring_frames"@, decimal(m.capture.ring_frames as nat), home, cpus);
    lemma_dispatch_capture(m1, s1, "capture.ring_frames"@, decimal(m.capture.ring_frames as nat), home, cpus, Seq::empty(), 0);
    reveal(settings_capture);
}

proof fn lemma_run_loop_client(m1: ConfigModel, s1: ListsSeen, m: ConfigModel, home: Option<Seq<char>>, cpus: nat)
    requires
        req_ok(m.loop_player.client_name),
    ensures
        run_lines(m1, s1, seq![kv_line("loop.client"@, m.loop_player.client_name)], home, cpus) == Some((ConfigModel { loop_player: LoopModel { client_name: m.loop_player.client_name, ..m1.loop_player }, ..m1 }, s1)),
        all_ok(seq![kv_line("loop.client"@, m.loop_player.client_name)]),
{
    lemma_key_names();
    lemma_required_back("loop.client"@, m.loop_player.client_name);
    lemma_run_kv(m1, s1, "loop.client"@, m.loop_player.client_name, home, cpus);
    lemma_dispatch_loop(m1, s1, "loop.client"@, m.loop_player.client_name, home, cpus, Seq::empty(), 0);
    reveal(settings_loop);
}

proof fn lemma_run_loop_directory(m1: ConfigModel, s1: ListsSeen, m: ConfigModel, home: Option<Seq<char>>, cpus: nat)
    requires
        plain_path(m.loop_player.import_directory),
    ensures
        run_lines(m1, s1, seq![kv_line("loop.import_directory"@, m.loop_player.import_directory)], home, cpus) == Some((ConfigModel { loop_player: LoopModel { import_directory: m.loop_player.import_directory, ..m1.loop_player }, ..m1 }, s1)),
        all_ok(seq![kv_line("loop.import_directory"@, m.loop_player.import_directory)]),
{
    lemma_key_names();
    lemma_required_back("loop.import_directory"@, m.loop_player.import_directory);
    lemma_path_back(m.loop_player.import_directory, home);
    lemma_run_kv(m1, s1, "loop.import_directory"@, m.loop_player.import_directory, home, cpus);
    lemma_dispatch_loop(m1, s1, "loop.import_directory"@, m.loop_player.import_directory, home, cpus, Seq::empty(), 0);
    reveal(settings_loop);
}


// ---------------------------------------------------------------------------
// List settings read back
// ---------------------------------------------------------------------------

/// A category as saved: non-empty, clean and lowercase.
pub open spec fn category_ok(c: Seq<char>) -> bool {
    req_ok(c) && lower_seq(c) == c
}

proof fn lemma_step_preset_roots(m2: ConfigModel, s2: ListsSeen, it: Seq<char>, home: Option<Seq<char>>, cpus: nat)
    requires
        plain_path(it),
    ensures
        run_lines(m2, s2, seq![kv_line("yoshimi.preset_root"@, it)], home, cpus)
            == Some((ConfigModel { yoshimi: YoshimiModel { backend: BackendModel { preset_roots: list_base(s2.preset_roots, m2.yoshimi.backend.preset_roots).push(it), ..m2.yoshimi.backend }, ..m2.yoshimi }, ..m2 }, ListsSeen { preset_roots: true, ..s2 })),
{
    lemma_key_names();
    lemma_path_back(it, home);
    lemma_run_kv(m2, s2, "yoshimi.preset_root"@, it, home, cpus);
    lemma_dispatch_yoshimi_lists(m2, s2, "yoshimi.preset_root"@, it, home, cpus, Seq::empty(), 0);
    reveal(settings_yoshimi_lists);
}

proof fn lemma_empty_preset_roots(m2: ConfigModel, s2: ListsSeen, home: Option<Seq<char>>, cpus: nat)
    ensures
        run_lines(m2, s2, seq![kv_line("yoshimi.preset_root"@, Seq::<char>::empty())], home, cpus)
            == Some((ConfigModel { yoshimi: YoshimiModel { backend: BackendModel { preset_roots: list_base(s2.preset_roots, m2.yoshimi.backend.preset_roots), ..m2.yoshimi.backend }, ..m2.yoshimi }, ..m2 }, ListsSeen { preset_roots: true, ..s2 })),
{
    lemma_key_names();
    lemma_empty_clean();
    lemma_run_kv(m2, s2, "yoshimi.preset_root"@, Seq::<char>::empty(), home, cpus);
    lemma_dispatch_yoshimi_lists(m2, s2, "yoshimi.preset_root"@, Seq::<char>::empty(), home, cpus, Seq::empty(), 0);
    reveal(settings_yoshimi_lists);
}

proof fn lemma_prefix_preset_roots(m1: ConfigModel, s1: ListsSeen, items: Seq<Seq<char>>, j: int, home: Option<Seq<char>>, cpus: nat)
    requires
        !s1.preset_roots,
        1 <= j <= items.len(),
        forall|i: int| 0 <= i < items.len() ==> #[trigger] plain_path(items[i]),
    ensures
        run_lines(m1, s1, Seq::new(j as nat, |i: int| kv_line("yoshimi.preset_root"@, items[i])), home, cpus)
            == Some((ConfigModel { yoshimi: YoshimiModel { backend: BackendModel { preset_roots: items.take(j), ..m1.yoshimi.backend }, ..m1.yoshimi }, ..m1 }, ListsSeen { preset_roots: true, ..s1 })),
    decreases j,
{
    let ts = items;
    if j == 1 {
        assert(Seq::new(1, |i: int| kv_line("yoshimi.preset_root"@, ts[i])) =~= seq![kv_line("yoshimi.preset_root"@, items[0])]);
        lemma_step_preset_roots(m1, s1, items[0], home, cpus);
        assert(list_base(false, m1.yoshimi.backend.preset_roots).push(items[0]) =~= items.take(1));
    } else {
        lemma_prefix_preset_roots(m1, s1, items, j - 1, home, cpus);
        let before = Seq::new((j - 1) as nat, |i: int| kv_line("yoshimi.preset_root"@, ts[i]));
        assert(Seq::new(j as nat, |i: int| kv_line("yoshimi.preset_root"@, ts[i])) =~= before + seq![kv_line("yoshimi.preset_root"@, items[j - 1])]);
        lemma_run_concat(m1, s1, before, seq![kv_line("yoshimi.preset_root"@, items[j - 1])], home, cpus);
        let m2 = ConfigModel { yoshimi: YoshimiModel { backend: BackendModel { preset_roots: items.take(j - 1), ..m1.yoshimi.backend }, ..m1.yoshimi }, ..m1 };
        let s2 = ListsSeen { preset_roots: true, ..s1 };
        lemma_step_preset_roots(m2, s2, items[j - 1], home, cpus);
        assert(items.take(j - 1).push(items[j - 1]) =~= items.take(j));
    }
}

proof fn lemma_block_preset_roots(m1: ConfigModel, s1: ListsSeen, items: Seq<Seq<char>>, home: Option<Seq<char>>, cpus: nat)
    requires
        !s1.preset_roots,
        forall|i: int| 0 <= i < items.len() ==> #[trigger] plain_path(items[i]),
    ensures
        run_lines(m1, s1, block("yoshimi.preset_root"@, items), home, cpus)
            == Some((ConfigModel { yoshimi: YoshimiModel { backend: BackendModel { preset_roots: items, ..m1.yoshimi.backend }, ..m1.yoshimi }, ..m1 }, ListsSeen { preset_roots: true, ..s1 })),
        all_ok(block("yoshimi.preset_root"@, items)),
{
    lemma_key_names();
    let bl = block("yoshimi.preset_root"@, items);
    assert forall|i: int| 0 <= i < bl.len() implies line_ok(#[trigger] bl[i]) by {
        if items.len() == 0 {
            lemma_empty_clean();
            lemma_kv_line("yoshimi.preset_root"@, Seq::<char>::empty());
        } else {
            let it = items[i];
            assert(plain_path(it));
            
            lemma_kv_line("yoshimi.preset_root"@, it);
        }
    }
    if items.len() == 0 {
        lemma_empty_preset_roots(m1, s1, home, cpus);
        assert(items =~= Seq::<Seq<char>>::empty());
        assert(list_base(false, m1.yoshimi.backend.preset_roots) =~= Seq::<Seq<char>>::empty());
    } else {
        lemma_prefix_preset_roots(m1, s1, items, items.len() as int, home, cpus);
        assert(items.take(items.len() as int) =~= items);
    }
}

proof fn lemma_step_categories(m2: ConfigModel, s2: ListsSeen, it: Seq<char>, home: Option<Seq<char>>, cpus: nat)
    requires
        category_ok(it),
    ensures
        run_lines(m2, s2, seq![kv_line("yoshimi.category"@, it)], home, cpus)
            == Some((ConfigModel { yoshimi: YoshimiModel { categories: list_base(s2.categories, m2.yoshimi.categories).push(it), ..m2.yoshimi }, ..m2 }, ListsSeen { categories: true, ..s2 })),
{
    lemma_key_names();
    
    lemma_run_kv(m2, s2, "yoshimi.category"@, it, home, cpus);
    lemma_dispatch_yoshimi_lists(m2, s2, "yoshimi.category"@, it, home, cpus, Seq::empty(), 0);
    reveal(settings_yoshimi_lists);
}

proof fn lemma_empty_categories(m2: ConfigModel, s2: ListsSeen, home: Option<Seq<char>>, cpus: nat)
    ensures
        run_lines(m2, s2, seq![kv_line("yoshimi.category"@, Seq::<char>::empty())], home, cpus)
            == Some((ConfigModel { yoshimi: YoshimiModel { categories: list_base(s2.categories, m2.yoshimi.categories), ..m2.yoshimi }, ..m2 }, ListsSeen { categories: true, ..s2 })),
{
    lemma_key_names();
    lemma_empty_clean();
    lemma_run_kv(m2, s2, "yoshimi.category"@, Seq::<char>::empty(), home, cpus);
    lemma_dispatch_yoshimi_lists(m2, s2, "yoshimi.category"@, Seq::<char>::empty(), home, cpus, Seq::empty(), 0);
    reveal(settings_yoshimi_lists);
}

proof fn lemma_prefix_categories(m1: ConfigModel, s1: ListsSeen, items: Seq<Seq<char>>, j: int, home: Option<Seq<char>>, cpus: nat)
    requires
        !s1.categories,
        1 <= j <= items.len(),
        forall|i: int| 0 <= i < items.len() ==> #[trigger] category_ok(items[i]),
    ensures
        run_lines(m1, s1, Seq::new(j as nat, |i: int| kv_line("yoshimi.category"@, items[i])), home, cpus)
            == Some((ConfigModel { yoshimi: YoshimiModel { categories: items.take(j), ..m1.yoshimi }, ..m1 }, ListsSeen { categories: true, ..s1 })),
    decreases j,
{
    let ts = items;
    if j == 1 {
        assert(Seq::new(1, |i: int| kv_line("yoshimi.category"@, ts[i])) =~= seq![kv_line("yoshimi.category"@, items[0])]);
        lemma_step_categories(m1, s1, items[0], home, cpus);
        assert(list_base(false, m1.yoshimi.categories).push(items[0]) =~= items.take(1));
    } else {
        lemma_prefix_categories(m1, s1, items, j - 1, home, cpus);
        let before = Seq::new((j - 1) as nat, |i: int| kv_line("yoshimi.category"@, ts[i]));
        assert(Seq::new(j as nat, |i: int| kv_line("yoshimi.category"@, ts[i])) =~= before + seq![kv_line("yoshimi.category"@, items[j - 1])]);
        lemma_run_concat(m1, s1, before, seq![kv_line("yoshimi.category"@, items[j - 1])], home, cpus);
        let m2 = ConfigModel { yoshimi: YoshimiModel { categories: items.take(j - 1), ..m1.yoshimi }, ..m1 };
        let s2 = ListsSeen { categories: true, ..s1 };
        lemma_step_categories(m2, s2, items[j - 1], home, cpus);
        assert(items.take(j - 1).push(items[j - 1]) =~= items.take(j));
    }
}

proof fn lemma_block_categories(m1: ConfigModel, s1: ListsSeen, items: Seq<Seq<char>>, home: Option<Seq<char>>, cpus: nat)
    requires
        !s1.categories,
        forall|i: int| 0 <= i < items.len() ==> #[trigger] category_ok(items[i]),
    ensures
        run_lines(m1, s1, block("yoshimi.category"@, items), home, cpus)
            == Some((ConfigModel { yoshimi: YoshimiModel { categories: items, ..m1.yoshimi }, ..m1 }, ListsSeen { categories: true, ..s1 })),
        all_ok(block("yoshimi.category"@, items)),
{
    lemma_key_names();
    let bl = block("yoshimi.category"@, items);
    assert forall|i: int| 0 <= i < bl.len() implies line_ok(#[trigger] bl[i]) by {
        if items.len() == 0 {
            lemma_empty_clean();
            lemma_kv_line("yoshimi.category"@, Seq::<char>::empty());
        } else {
            let it = items[i];
            assert(category_ok(it));
            
            lemma_kv_line("yoshimi.category"@, it);
        }
    }
    if items.len() == 0 {
        lemma_empty_categories(m1, s1, home, cpus);
        assert(items =~= Seq::<Seq<char>>::empty());
        assert(list_base(false, m1.yoshimi.categories) =~= Seq::<Seq<char>>::empty());
    } else {
        lemma_prefix_categories(m1, s1, items, items.len() as int, home, cpus);
        assert(items.take(items.len() as int) =~= items);
    }
}

proof fn lemma_step_soundfonts(m2: ConfigModel, s2: ListsSeen, it: Seq<char>, home: Option<Seq<char>>, cpus: nat)
    requires
        plain_path(it),
    ensures
        run_lines(m2, s2, seq![kv_line("fluidsynth.soundfont"@, it)], home, cpus)
            == Some((ConfigModel { fluidsynth: FluidModel { soundfonts: list_base(s2.soundfonts, m2.fluidsynth.soundfonts).push(it), ..m2.fluidsynth }, ..m2 }, ListsSeen { soundfonts: true, ..s2 })),
{
    lemma_key_names();
    lemma_path_back(it, home);
    lemma_run_kv(m2, s2, "fluidsynth.soundfont"@, it, home, cpus);
    lemma_dispatch_fluid(m2, s2, "fluidsynth.soundfont"@, it, home, cpus, Seq::empty(), 0);
    reveal(settings_fluid);
}

proof fn lemma_empty_soundfonts(m2: ConfigModel, s2: ListsSeen, home: Option<Seq<char>>, cpus: nat)
    ensures
        run_lines(m2, s2, seq![kv_line("fluidsynth.soundfont"@, Seq::<char>::empty())], home, cpus)
            == Some((ConfigModel { fluidsynth: FluidModel { soundfonts: list_base(s2.soundfonts, m2.fluidsynth.soundfonts), ..m2.fluidsynth }, ..m2 }, ListsSeen { soundfonts: true, ..s2 })),
{
    lemma_key_names();
    lemma_empty_clean();
    lemma_run_kv(m2, s2, "fluidsynth.soundfont"@, Seq::<char>::empty(), home, cpus);
    lemma_dispatch_fluid(m2, s2, "fluidsynth.soundfont"@, Seq::<char>::empty(), home, cpus, Seq::empty(), 0);
    reveal(settings_fluid);
}

proof fn lemma_prefix_soundfonts(m1: ConfigModel, s1: ListsSeen, items: Seq<Seq<char>>, j: int, home: Option<Seq<char>>, cpus: nat)
    requires
        !s1.soundfonts,
        1 <= j <= items.len(),
        forall|i: int| 0 <= i < items.len() ==> #[trigger] plain_path(items[i]),
    ensures
        run_lines(m1, s1, Seq::new(j as nat, |i: int| kv_line("fluidsynth.soundfont"@, items[i])), home, cpus)
            == Some((ConfigModel { fluidsynth: FluidModel { soundfonts: items.take(j), ..m1.fluidsynth }, ..m1 }, ListsSeen { soundfonts: true, ..s1 })),
    decreases j,
{
    let ts = items;
    if j == 1 {
        assert(Seq::new(1, |i: int| kv_line("fluidsynth.soundfont"@, ts[i])) =~= seq![kv_line("fluidsynth.soundfont"@, items[0])]);
        lemma_step_soundfonts(m1, s1, items[0], home, cpus);
        assert(list_base(false, m1.fluidsynth.soundfonts).push(items[0]) =~= items.take(1));
    } else {
        lemma_prefix_soundfonts(m1, s1, items, j - 1, home, cpus);
        let before = Seq::new((j - 1) as nat, |i: int| kv_line("fluidsynth.soundfont"@, ts[i]));
        assert(Seq::new(j as nat, |i: int| kv_line("fluidsynth.soundfont"@, ts[i])) =~= before + seq![kv_line("fluidsynth.soundfont"@, items[j - 1])]);
        lemma_run_concat(m1, s1, before, seq![kv_line("fluidsynth.soundfont"@, items[j - 1])], home, cpus);
        let m2 = ConfigModel { fluidsynth: FluidModel { soundfonts: items.take(j - 1), ..m1.fluidsynth }, ..m1 };
        let s2 = ListsSeen { soundfonts: true, ..s1 };
        lemma_step_soundfonts(m2, s2, items[j - 1], home, cpus);
        assert(items.take(j - 1).push(items[j - 1]) =~= items.take(j));
    }
}

proof fn lemma_block_soundfonts(m1: ConfigModel, s1: ListsSeen, items: Seq<Seq<char>>, home: Option<Seq<char>>, cpus: nat)
    requires
        !s1.soundfonts,
        forall|i: int| 0 <= i < items.len() ==> #[trigger] plain_path(items[i]),
    ensures
        run_lines(m1, s1, block("fluidsynth.soundfont"@, items), home, cpus)
            == Some((ConfigModel { fluidsynth: FluidModel { soundfonts: items, ..m1.fluidsynth }, ..m1 }, ListsSeen { soundfonts: true, ..s1 })),
        all_ok(block("fluidsynth.soundfont"@, items)),
{
    lemma_key_names();
    let bl = block("fluidsynth.soundfont"@, items);
    assert forall|i: int| 0 <= i < bl.len() implies line_ok(#[trigger] bl[i]) by {
        if items.len() == 0 {
            lemma_empty_clean();
            lemma_kv_line("fluidsynth.soundfont"@, Seq::<char>::empty());
        } else {
            let it = items[i];
            assert(plain_path(it));
            
            lemma_kv_line("fluidsynth.soundfont"@, it);
        }
    }
    if items.len() == 0 {
        lemma_empty_soundfonts(m1, s1, home, cpus);
        assert(items =~= Seq::<Seq<char>>::empty());
        assert(list_base(false, m1.fluidsynth.soundfonts) =~= Seq::<Seq<char>>::empty());
    } else {
        lemma_prefix_soundfonts(m1, s1, items, items.len() as int, home, cpus);
        assert(items.take(items.len() as int) =~= items);
    }
}

proof fn lemma_step_midi_inputs(m2: ConfigModel, s2: ListsSeen, it: Seq<char>, home: Option<Seq<char>>, cpus: nat)
    requires
        req_ok(it),
    ensures
        run_lines(m2, s2, seq![kv_line("midi.input"@, it)], home, cpus)
            == Some((ConfigModel { midi_input_matches: list_base(s2.midi_inputs, m2.midi_input_matches).push(it), ..m2 }, ListsSeen { midi_inputs: true, ..s2 })),
{
    lemma_key_names();
    
    lemma_run_kv(m2, s2, "midi.input"@, it, home, cpus);
    lemma_dispatch_routes(m2, s2, "midi.input"@, it, home, cpus, Seq::empty(), 0);
    reveal(settings_routes);
}

proof fn lemma_empty_midi_inputs(m2: ConfigModel, s2: ListsSeen, home: Option<Seq<char>>, cpus: nat)
    ensures
        run_lines(m2, s2, seq![kv_line("midi.input"@, Seq::<char>::empty())], home, cpus)
            == Some((ConfigModel { midi_input_matches: list_base(s2.midi_inputs, m2.midi_input_matches), ..m2 }, ListsSeen { midi_inputs: true, ..s2 })),
{
    lemma_key_names();
    lemma_empty_clean();
    lemma_run_kv(m2, s2, "midi.input"@, Seq::<char>::empty(), home, cpus);
    lemma_dispatch_routes(m2, s2, "midi.input"@, Seq::<char>::empty(), home, cpus, Seq::empty(), 0);
    reveal(settings_routes);
}

proof fn lemma_prefix_midi_inputs(m1: ConfigModel, s1: ListsSeen, items: Seq<Seq<char>>, j: int, home: Option<Seq<char>>, cpus: nat)
    requires
        !s1.midi_inputs,
        1 <= j <= items.len(),
        forall|i: int| 0 <= i < items.len() ==> #[trigger] req_ok(items[i]),
    ensures
        run_lines(m1, s1, Seq::new(j as nat, |i: int| kv_line("midi.input"@, items[i])), home, cpus)
            == Some((ConfigModel { midi_input_matches: items.take(j), ..m1 }, ListsSeen { midi_inputs: true, ..s1 })),
    decreases j,
{
    let ts = items;
    if j == 1 {
        assert(Seq::new(1, |i: int| kv_line("midi.input"@, ts[i])) =~= seq![kv_line("midi.input"@, items[0])]);
        lemma_step_midi_inputs(m1, s1, items[0], home, cpus);
        assert(list_base(false, m1.midi_input_matches).push(items[0]) =~= items.take(1));
    } else {
        lemma_prefix_midi_inputs(m1, s1, items, j - 1, home, cpus);
        let before = Seq::new((j - 1) as nat, |i: int| kv_line("midi.input"@, ts[i]));
        assert(Seq::new(j as nat, |i: int| kv_line("midi.input"@, ts[i])) =~= before + seq![kv_line("midi.input"@, items[j - 1])]);
        lemma_run_concat(m1, s1, before, seq![kv_line("midi.input"@, items[j - 1])], home, cpus);
        let m2 = ConfigModel { midi_input_matches: items.take(j - 1), ..m1 };
        let s2 = ListsSeen { midi_inputs: true, ..s1 };
        lemma_step_midi_inputs(m2, s2, items[j - 1], home, cpus);
        assert(items.take(j - 1).push(items[j - 1]) =~= items.take(j));
    }
}

proof fn lemma_block_midi_inputs(m1: ConfigModel, s1: ListsSeen, items: Seq<Seq<char>>, home: Option<Seq<char>>, cpus: nat)
    requires
        !s1.midi_inputs,
        forall|i: int| 0 <= i < items.len() ==> #[trigger] req_ok(items[i]),
    ensures
        run_lines(m1, s1, block("midi.input"@, items), home, cpus)
            == Some((ConfigModel { midi_input_matches: items, ..m1 }, ListsSeen { midi_inputs: true, ..s1 })),
        all_ok(block("midi.input"@, items)),
{
    lemma_key_names();
    let bl = block("midi.input"@, items);
    assert forall|i: int| 0 <= i < bl.len() implies line_ok(#[trigger] bl[i]) by {
        if items.len() == 0 {
            lemma_empty_clean();
            lemma_kv_line("midi.input"@, Seq::<char>::empty());
        } else {
            let it = items[i];
            assert(req_ok(it));
            
            lemma_kv_line("midi.input"@, it);
        }
    }
    if items.len() == 0 {
        lemma_empty_midi_inputs(m1, s1, home, cpus);
        assert(items =~= Seq::<Seq<char>>::empty());
        assert(list_base(false, m1.midi_input_matches) =~= Seq::<Seq<char>>::empty());
    } else {
        lemma_prefix_midi_inputs(m1, s1, items, items.len() as int, home, cpus);
        assert(items.take(items.len() as int) =~= items);
    }
}

proof fn lemma_step_audio_outputs(m2: ConfigModel, s2: ListsSeen, it: Seq<char>, home: Option<Seq<char>>, cpus: nat)
    requires
        req_ok(it),
    ensures
        run_lines(m2, s2, seq![kv_line("audio.output"@, it)], home, cpus)
            == Some((ConfigModel { audio_outputs: list_base(s2.audio_outputs, m2.audio_outputs).push(it), ..m2 }, ListsSeen { audio_outputs: true, ..s2 })),
{
    lemma_key_names();
    
    lemma_run_kv(m2, s2, "audio.output"@, it, home, cpus);
    lemma_dispatch_outputs(m2, s2, "audio.output"@, it, home, cpus, Seq::empty(), 0);
    reveal(settings_outputs);
}

proof fn lemma_empty_audio_outputs(m2: ConfigModel, s2: ListsSeen, home: Option<Seq<char>>, cpus: nat)
    ensures
        run_lines(m2, s2, seq![kv_line("audio.output"@, Seq::<char>::empty())], home, cpus)
            == Some((ConfigModel { audio_outputs: list_base(s2.audio_outputs, m2.audio_outputs), ..m2 }, ListsSeen { audio_outputs: true, ..s2 })),
{
    lemma_key_names();
    lemma_empty_clean();
    lemma_run_kv(m2, s2, "audio.output"@, Seq::<char>::empty(), home, cpus);
    lemma_dispatch_outputs(m2, s2, "audio.output"@, Seq::<char>::empty(), home, cpus, Seq::empty(), 0);
    reveal(settings_outputs);
}

proof fn lemma_prefix_audio_outputs(m1: ConfigModel, s1: ListsSeen, items: Seq<Seq<char>>, j: int, home: Option<Seq<char>>, cpus: nat)
    requires
        !s1.audio_outputs,
        1 <= j <= items.len(),
        forall|i: int| 0 <= i < items.len() ==> #[trigger] req_ok(items[i]),
    ensures
        run_lines(m1, s1, Seq::new(j as nat, |i: int| kv_line("audio.output"@, items[i])), home, cpus)
            == Some((ConfigModel { audio_outputs: items.take(j), ..m1 }, ListsSeen { audio_outputs: true, ..s1 })),
    decreases j,
{
    let ts = items;
    if j == 1 {
        assert(Seq::new(1, |i: int| kv_line("audio.output"@, ts[i])) =~= seq![kv_line("audio.output"@, items[0])]);
        lemma_step_audio_outputs(m1, s1, items[0], home, cpus);
        assert(list_base(false, m1.audio_outputs).push(items[0]) =~= items.take(1));
    } else {
        lemma_prefix_audio_outputs(m1, s1, items, j - 1, home, cpus);
        let before = Seq::new((j - 1) as nat, |i: int| kv_line("audio.output"@, ts[i]));
        assert(Seq::new(j as nat, |i: int| kv_line("audio.output"@, ts[i])) =~= before + seq![kv_line("audio.output"@, items[j - 1])]);
        lemma_run_concat(m1, s1, before, seq![kv_line("audio.output"@, items[j - 1])], home, cpus);
        let m2 = ConfigModel { audio_outputs: items.take(j - 1), ..m1 };
        let s2 = ListsSeen { audio_outputs: true, ..s1 };
        lemma_step_audio_outputs(m2, s2, items[j - 1], home, cpus);
        assert(items.take(j - 1).push(items[j - 1]) =~= items.take(j));
    }
}

proof fn lemma_block_audio_outputs(m1: ConfigModel, s1: ListsSeen, items: Seq<Seq<char>>, home: Option<Seq<char>>, cpus: nat)
    requires
        !s1.audio_outputs,
        forall|i: int| 0 <= i < items.len() ==> #[trigger] req_ok(items[i]),
    ensures
        run_lines(m1, s1, block("audio.output"@, items), home, cpus)
            == Some((ConfigModel { audio_outputs: items, ..m1 }, ListsSeen { audio_outputs: true, ..s1 })),
        all_ok(block("audio.output"@, items)),
{
    lemma_key_names();
    let bl = block("audio.output"@, items);
    assert forall|i: int| 0 <= i < bl.len() implies line_ok(#[trigger] bl[i]) by {
        if items.len() == 0 {
            lemma_empty_clean();
            lemma_kv_line("audio.output"@, Seq::<char>::empty());
        } else {
            let it = items[i];
            assert(req_ok(it));
            
            lemma_kv_line("audio.output"@, it);
        }
    }
    if items.len() == 0 {
        lemma_empty_audio_outputs(m1, s1, home, cpus);
        assert(items =~= Seq::<Seq<char>>::empty());
        assert(list_base(false, m1.audio_outputs) =~= Seq::<Seq<char>>::empty());
    } else {
        lemma_prefix_audio_outputs(m1, s1, items, items.len() as int, home, cpus);
        assert(items.take(items.len() as int) =~= items);
    }
}

proof fn lemma_step_loop_outputs(m2: ConfigModel, s2: ListsSeen, it: Seq<char>, home: Option<Seq<char>>, cpus: nat)
    requires
        req_ok(it),
    ensures
        run_lines(m2, s2, seq![kv_line("loop.output"@, it)], home, cpus)
            == Some((ConfigModel { loop_player: LoopModel { outputs: list_base(s2.loop_outputs, m2.loop_player.outputs).push(it), ..m2.loop_player }, ..m2 }, ListsSeen { loop_outputs: true, ..s2 })),
{
    lemma_key_names();
    
    lemma_run_kv(m2, s2, "loop.output"@, it, home, cpus);
    lemma_dispatch_loop(m2, s2, "loop.output"@, it, home, cpus, Seq::empty(), 0);
    reveal(settings_loop);
}

proof fn lemma_empty_loop_outputs(m2: ConfigModel, s2: ListsSeen, home: Option<Seq<char>>, cpus: nat)
    ensures
        run_lines(m2, s2, seq![kv_line("loop.output"@, Seq::<char>::empty())], home, cpus)
            == Some((ConfigModel { loop_player: LoopModel { outputs: list_base(s2.loop_outputs, m2.loop_player.outputs), ..m2.loop_player }, ..m2 }, ListsSeen { loop_outputs: true, ..s2 })),
{
    lemma_key_names();
    lemma_empty_clean();
    lemma_run_kv(m2, s2, "loop.output"@, Seq::<char>::empty(), home, cpus);
    lemma_dispatch_loop(m2, s2, "loop.output"@, Seq::<char>::empty(), home, cpus, Seq::empty(), 0);
    reveal(settings_loop);
}

proof fn lemma_prefix_loop_outputs(m1: ConfigModel, s1: ListsSeen, items: Seq<Seq<char>>, j: int, home: Option<Seq<char>>, cpus: nat)
    requires
        !s1.loop_outputs,
        1 <= j <= items.len(),
        forall|i: int| 0 <= i < items.len() ==> #[trigger] req_ok(items[i]),
    ensures
        run_lines(m1, s1, Seq::new(j as nat, |i: int| kv_line("loop.output"@, items[i])), home, cpus)
            == Some((ConfigModel { loop_player: LoopModel { outputs: items.take(j), ..m1.loop_player }, ..m1 }, ListsSeen { loop_outputs: true, ..s1 })),
    decreases j,
{
    let ts = items;
    if j == 1 {
        assert(Seq::new(1, |i: int| kv_line("loop.output"@, ts[i])) =~= seq![kv_line("loop.output"@, items[0])]);
        lemma_step_loop_outputs(m1, s1, items[0], home, cpus);
        assert(list_base(false, m1.loop_player.outputs).push(items[0]) =~= items.take(1));
    } else {
        lemma_prefix_loop_outputs(m1, s1, items, j - 1, home, cpus);
        let before = Seq::new((j - 1) as nat, |i: int| kv_line("loop.output"@, ts[i]));
        assert(Seq::new(j as nat, |i: int| kv_line("loop.output"@, ts[i])) =~= before + seq![kv_line("loop.output"@, items[j - 1])]);
        lemma_run_concat(m1, s1, before, seq![kv_line("loop.output"@, items[j - 1])], home, cpus);
        let m2 = ConfigModel { loop_player: LoopModel { outputs: items.take(j - 1), ..m1.loop_player }, ..m1 };
        let s2 = ListsSeen { loop_outputs: true, ..s1 };
        lemma_step_loop_outputs(m2, s2, items[j - 1], home, cpus);
        assert(items.take(j - 1).push(items[j - 1]) =~= items.take(j));
    }
}

proof fn lemma_block_loop_outputs(m1: ConfigModel, s1: ListsSeen, items: Seq<Seq<char>>, home: Option<Seq<char>>, cpus: nat)
    requires
        !s1.loop_outputs,
        forall|i: int| 0 <= i < items.len() ==> #[trigger] req_ok(items[i]),
    ensures
        run_lines(m1, s1, block("loop.output"@, items), home, cpus)
            == Some((ConfigModel { loop_player: LoopModel { outputs: items, ..m1.loop_player }, ..m1 }, ListsSeen { loop_outputs: true, ..s1 })),
        all_ok(block("loop.output"@, items)),
{
    lemma_key_names();
    let bl = block("loop.output"@, items);
    assert forall|i: int| 0 <= i < bl.len() implies line_ok(#[trigger] bl[i]) by {
        if items.len() == 0 {
            lemma_empty_clean();
            lemma_kv_line("loop.output"@, Seq::<char>::empty());
        } else {
            let it = items[i];
            assert(req_ok(it));
            
            lemma_kv_line("loop.output"@, it);
        }
    }
    if items.len() == 0 {
        lemma_empty_loop_outputs(m1, s1, home, cpus);
        assert(items =~= Seq::<Seq<char>>::empty());
        assert(list_base(false, m1.loop_player.outputs) =~= Seq::<Seq<char>>::empty());
    } else {
        lemma_prefix_loop_outputs(m1, s1, items, items.len() as int, home, cpus);
        assert(items.take(items.len() as int) =~= items);
    }
}

proof fn lemma_step_internal_outputs(m2: ConfigModel, s2: ListsSeen, it: StereoModel, home: Option<Seq<char>>, cpus: nat)
    requires
        route_ok(it),
    ensures
        run_lines(m2, s2, seq![kv_line("audio.internal_output"@, route_text(it))], home, cpus)
            == Some((ConfigModel { audio_internal_outputs: list_base(s2.internal_outputs, m2.audio_internal_outputs).push(it), ..m2 }, ListsSeen { internal_outputs: true, ..s2 })),
{
    lemma_key_names();
    lemma_route_clean(it);
    lemma_stereo_back("audio.internal_output"@, it);
    lemma_run_kv(m2, s2, "audio.internal_output"@, route_text(it), home, cpus);
    lemma_dispatch_fallbacks(m2, s2, "audio.internal_output"@, route_text(it), home, cpus, Seq::empty(), 0);
    reveal(settings_fallbacks);
}

proof fn lemma_empty_internal_outputs(m2: ConfigModel, s2: ListsSeen, home: Option<Seq<char>>, cpus: nat)
    ensures
        run_lines(m2, s2, seq![kv_line("audio.internal_output"@, Seq::<char>::empty())], home, cpus)
            == Some((ConfigModel { audio_internal_outputs: list_base(s2.internal_outputs, m2.audio_internal_outputs), ..m2 }, ListsSeen { internal_outputs: true, ..s2 })),
{
    lemma_key_names();
    lemma_empty_clean();
    reveal(spec_stereo_item);
    lemma_run_kv(m2, s2, "audio.internal_output"@, Seq::<char>::empty(), home, cpus);
    lemma_dispatch_fallbacks(m2, s2, "audio.internal_output"@, Seq::<char>::empty(), home, cpus, Seq::empty(), 0);
    reveal(settings_fallbacks);
}

proof fn lemma_prefix_internal_outputs(m1: ConfigModel, s1: ListsSeen, items: Seq<StereoModel>, j: int, home: Option<Seq<char>>, cpus: nat)
    requires
        !s1.internal_outputs,
        1 <= j <= items.len(),
        forall|i: int| 0 <= i < items.len() ==> #[trigger] route_ok(items[i]),
    ensures
        run_lines(m1, s1, Seq::new(j as nat, |i: int| kv_line("audio.internal_output"@, route_texts(items)[i])), home, cpus)
            == Some((ConfigModel { audio_internal_outputs: items.take(j), ..m1 }, ListsSeen { internal_outputs: true, ..s1 })),
    decreases j,
{
    let ts = route_texts(items);
    if j == 1 {
        assert(Seq::new(1, |i: int| kv_line("audio.internal_output"@, ts[i])) =~= seq![kv_line("audio.internal_output"@, route_text(items[0]))]);
        lemma_step_internal_outputs(m1, s1, items[0], home, cpus);
        assert(list_base(false, m1.audio_internal_outputs).push(items[0]) =~= items.take(1));
    } else {
        lemma_prefix_internal_outputs(m1, s1, items, j - 1, home, cpus);
        let before = Seq::new((j - 1) as nat, |i: int| kv_line("audio.internal_output"@, ts[i]));
        assert(Seq::new(j as nat, |i: int| kv_line("audio.internal_output"@, ts[i])) =~= before + seq![kv_line("audio.internal_output"@, route_text(items[j - 1]))]);
        lemma_run_concat(m1, s1, before, seq![kv_line("audio.internal_output"@, route_text(items[j - 1]))], home, cpus);
        let m2 = ConfigModel { audio_internal_outputs: items.take(j - 1), ..m1 };
        let s2 = ListsSeen { internal_outputs: true, ..s1 };
        lemma_step_internal_outputs(m2, s2, items[j - 1], home, cpus);
        assert(items.take(j - 1).push(items[j - 1]) =~= items.take(j));
    }
}

proof fn lemma_block_internal_outputs(m1: ConfigModel, s1: ListsSeen, items: Seq<StereoModel>, home: Option<Seq<char>>, cpus: nat)
    requires
        !s1.internal_outputs,
        forall|i: int| 0 <= i < items.len() ==> #[trigger] route_ok(items[i]),
    ensures
        run_lines(m1, s1, block("audio.internal_output"@, route_texts(items)), home, cpus)
            == Some((ConfigModel { audio_internal_outputs: items, ..m1 }, ListsSeen { internal_outputs: true, ..s1 })),
        all_ok(block("audio.internal_output"@, route_texts(items))),
{
    lemma_key_names();
    let bl = block("audio.internal_output"@, route_texts(items));
    assert forall|i: int| 0 <= i < bl.len() implies line_ok(#[trigger] bl[i]) by {
        if items.len() == 0 {
            lemma_empty_clean();
            lemma_kv_line("audio.internal_output"@, Seq::<char>::empty());
        } else {
            let it = items[i];
            assert(route_ok(it));
            lemma_route_clean(it);
            lemma_kv_line("audio.internal_output"@, route_text(it));
        }
    }
    if items.len() == 0 {
        lemma_empty_internal_outputs(m1, s1, home, cpus);
        assert(items =~= Seq::<StereoModel>::empty());
        assert(list_base(false, m1.audio_internal_outputs) =~= Seq::<StereoModel>::empty());
    } else {
        lemma_prefix_internal_outputs(m1, s1, items, items.len() as int, home, cpus);
        assert(items.take(items.len() as int) =~= items);
    }
}

proof fn lemma_step_capture_inputs(m2: ConfigModel, s2: ListsSeen, it: StereoModel, home: Option<Seq<char>>, cpus: nat)
    requires
        route_ok(it),
    ensures
        run_lines(m2, s2, seq![kv_line("capture.input"@, route_text(it))], home, cpus)
            == Some((ConfigModel { capture: CaptureModel { inputs: list_base(s2.capture_inputs, m2.capture.inputs).push(it), ..m2.capture }, ..m2 }, ListsSeen { capture_inputs: true, ..s2 })),
{
    lemma_key_names();
    lemma_route_clean(it);
    lemma_stereo_back("capture.input"@, it);
    lemma_run_kv(m2, s2, "capture.input"@, route_text(it), home, cpus);
    lemma_dispatch_capture(m2, s2, "capture.input"@, route_text(it), home, cpus, Seq::empty(), 0);
    reveal(settings_capture);
}

proof fn lemma_empty_capture_inputs(m2: ConfigModel, s2: ListsSeen, home: Option<Seq<char>>, cpus: nat)
    ensures
        run_lines(m2, s2, seq![kv_line("capture.input"@, Seq::<char>::empty())], home, cpus)
            == Some((ConfigModel { capture: CaptureModel { inputs: list_base(s2.capture_inputs, m2.capture.inputs), ..m2.capture }, ..m2 }, ListsSeen { capture_inputs: true, ..s2 })),
{
    lemma_key_names();
    lemma_empty_clean();
    reveal(spec_stereo_item);
    lemma_run_kv(m2, s2, "capture.input"@, Seq::<char>::empty(), home, cpus);
    lemma_dispatch_capture(m2, s2, "capture.input"@, Seq::<char>::empty(), home, cpus, Seq::empty(), 0);
    reveal(settings_capture);
}

proof fn lemma_prefix_capture_inputs(m1: ConfigModel, s1: ListsSeen, items: Seq<StereoModel>, j: int, home: Option<Seq<char>>, cpus: nat)
    requires
        !s1.capture_inputs,
        1 <= j <= items.len(),
        forall|i: int| 0 <= i < items.len() ==> #[trigger] route_ok(items[i]),
    ensures
        run_lines(m1, s1, Seq::new(j as nat, |i: int| kv_line("capture.input"@, route_texts(items)[i])), home, cpus)
            == Some((ConfigModel { capture: CaptureModel { inputs: items.take(j), ..m1.capture }, ..m1 }, ListsSeen { capture_inputs: true, ..s1 })),
    decreases j,
{
    let ts = route_texts(items);
    if j == 1 {
        assert(Seq::new(1, |i: int| kv_line("capture.input"@, ts[i])) =~= seq![kv_line("capture.input"@, route_text(items[0]))]);
        lemma_step_capture_inputs(m1, s1, items[0], home, cpus);
        assert(list_base(false, m1.capture.inputs).push(items[0]) =~= items.take(1));
    } else {
        lemma_prefix_capture_inputs(m1, s1, items, j - 1, home, cpus);
        let before = Seq::new((j - 1) as nat, |i: int| kv_line("capture.input"@, ts[i]));
        assert(Seq::new(j as nat, |i: int| kv_line("capture.input"@, ts[i])) =~= before + seq![kv_line("capture.input"@, route_text(items[j - 1]))]);
        lemma_run_concat(m1, s1, before, seq![kv_line("capture.input"@, route_text(items[j - 1]))], home, cpus);
        let m2 = ConfigModel { capture: CaptureModel { inputs: items.take(j - 1), ..m1.capture }, ..m1 };
        let s2 = ListsSeen { capture_inputs: true, ..s1 };
        lemma_step_capture_inputs(m2, s2, items[j - 1], home, cpus);
        assert(items.take(j - 1).push(items[j - 1]) =~= items.take(j));
    }
}

proof fn lemma_block_capture_inputs(m1: ConfigModel, s1: ListsSeen, items: Seq<StereoModel>, home: Option<Seq<char>>, cpus: nat)
    requires
        !s1.capture_inputs,
        forall|i: int| 0 <= i < items.len() ==> #[trigger] route_ok(items[i]),
    ensures
        run_lines(m1, s1, block("capture.input"@, route_texts(items)), home, cpus)
            == Some((ConfigModel { capture: CaptureModel { inputs: items, ..m1.capture }, ..m1 }, ListsSeen { capture_inputs: true, ..s1 })),
        all_ok(block("capture.input"@, route_texts(items))),
{
    lemma_key_names();
    let bl = block("capture.input"@, route_texts(items));
    assert forall|i: int| 0 <= i < bl.len() implies line_ok(#[trigger] bl[i]) by {
        if items.len() == 0 {
            lemma_empty_clean();
            lemma_kv_line("capture.input"@, Seq::<char>::empty());
        } else {
            let it = items[i];
            assert(route_ok(it));
            lemma_route_clean(it);
            lemma_kv_line("capture.input"@, route_text(it));
        }
    }
    if items.len() == 0 {
        lemma_empty_capture_inputs(m1, s1, home, cpus);
        assert(items =~= Seq::<StereoModel>::empty());
        assert(list_base(false, m1.capture.inputs) =~= Seq::<StereoModel>::empty());
    } else {
        lemma_prefix_capture_inputs(m1, s1, items, items.len() as int, home, cpus);
        assert(items.take(items.len() as int) =~= items);
    }
}

proof fn lemma_step_channels(m2: ConfigModel, s2: ListsSeen, it: u8, home: Option<Seq<char>>, cpus: nat)
    requires
        it <= 15,
    ensures
        run_lines(m2, s2, seq![kv_line("external_midi.channel"@, decimal((it + 1) as nat))], home, cpus)
            == Some((ConfigModel { external_midi: ExternalMidiModel { channels: list_base(s2.channels, m2.external_midi.channels).push(it), ..m2.external_midi }, ..m2 }, ListsSeen { channels: true, ..s2 })),
{
    lemma_key_names();
    lemma_decimal_clean((it + 1) as nat);
    lemma_byte_item_back("external_midi.channel"@, it, 1, 16, 1);
    lemma_run_kv(m2, s2, "external_midi.channel"@, decimal((it + 1) as nat), home, cpus);
    lemma_dispatch_external_lists(m2, s2, "external_midi.channel"@, decimal((it + 1) as nat), home, cpus, Seq::empty(), 0);
    reveal(settings_external_lists);
}

proof fn lemma_empty_channels(m2: ConfigModel, s2: ListsSeen, home: Option<Seq<char>>, cpus: nat)
    ensures
        run_lines(m2, s2, seq![kv_line("external_midi.channel"@, Seq::<char>::empty())], home, cpus)
            == Some((ConfigModel { external_midi: ExternalMidiModel { channels: list_base(s2.channels, m2.external_midi.channels), ..m2.external_midi }, ..m2 }, ListsSeen { channels: true, ..s2 })),
{
    lemma_key_names();
    lemma_empty_clean();
    reveal(spec_byte_item);
    lemma_run_kv(m2, s2, "external_midi.channel"@, Seq::<char>::empty(), home, cpus);
    lemma_dispatch_external_lists(m2, s2, "external_midi.channel"@, Seq::<char>::empty(), home, cpus, Seq::empty(), 0);
    reveal(settings_external_lists);
}

proof fn lemma_prefix_channels(m1: ConfigModel, s1: ListsSeen, items: Seq<u8>, j: int, home: Option<Seq<char>>, cpus: nat)
    requires
        !s1.channels,
        1 <= j <= items.len(),
        forall|i: int| 0 <= i < items.len() ==> #[trigger] items[i] <= 15,
    ensures
        run_lines(m1, s1, Seq::new(j as nat, |i: int| kv_line("external_midi.channel"@, byte_texts(items, 1)[i])), home, cpus)
            == Some((ConfigModel { external_midi: ExternalMidiModel { channels: items.take(j), ..m1.external_midi }, ..m1 }, ListsSeen { channels: true, ..s1 })),
    decreases j,
{
    let ts = byte_texts(items, 1);
    if j == 1 {
        assert(Seq::new(1, |i: int| kv_line("external_midi.channel"@, ts[i])) =~= seq![kv_line("external_midi.channel"@, decimal((items[0] + 1) as nat))]);
        lemma_step_channels(m1, s1, items[0], home, cpus);
        assert(list_base(false, m1.external_midi.channels).push(items[0]) =~= items.take(1));
    } else {
        lemma_prefix_channels(m1, s1, items, j - 1, home, cpus);
        let before = Seq::new((j - 1) as nat, |i: int| kv_line("external_midi.channel"@, ts[i]));
        assert(Seq::new(j as nat, |i: int| kv_line("external_midi.channel"@, ts[i])) =~= before + seq![kv_line("external_midi.channel"@, decimal((items[j - 1] + 1) as nat))]);
        lemma_run_concat(m1, s1, before, seq![kv_line("external_midi.channel"@, decimal((items[j - 1] + 1) as nat))], home, cpus);
        let m2 = ConfigModel { external_midi: ExternalMidiModel { channels: items.take(j - 1), ..m1.external_midi }, ..m1 };
        let s2 = ListsSeen { channels: true, ..s1 };
        lemma_step_channels(m2, s2, items[j - 1], home, cpus);
        assert(items.take(j - 1).push(items[j - 1]) =~= items.take(j));
    }
}

proof fn lemma_block_channels(m1: ConfigModel, s1: ListsSeen, items: Seq<u8>, home: Option<Seq<char>>, cpus: nat)
    requires
        !s1.channels,
        forall|i: int| 0 <= i < items.len() ==> #[trigger] items[i] <= 15,
    ensures
        run_lines(m1, s1, block("external_midi.channel"@, byte_texts(items, 1)), home, cpus)
            == Some((ConfigModel { external_midi: ExternalMidiModel { channels: items, ..m1.external_midi }, ..m1 }, ListsSeen { channels: true, ..s1 })),
        all_ok(block("external_midi.channel"@, byte_texts(items, 1))),
{
    lemma_key_names();
    let bl = block("external_midi.channel"@, byte_texts(items, 1));
    assert forall|i: int| 0 <= i < bl.len() implies line_ok(#[trigger] bl[i]) by {
        if items.len() == 0 {
            lemma_empty_clean();
            lemma_kv_line("external_midi.channel"@, Seq::<char>::empty());
        } else {
            let it = items[i];
            assert(it <= 15);
            lemma_decimal_clean((it + 1) as nat);
            lemma_kv_line("external_midi.channel"@, decimal((it + 1) as nat));
        }
    }
    if items.len() == 0 {
        lemma_empty_channels(m1, s1, home, cpus);
        assert(items =~= Seq::<u8>::empty());
        assert(list_base(false, m1.external_midi.channels) =~= Seq::<u8>::empty());
    } else {
        lemma_prefix_channels(m1, s1, items, items.len() as int, home, cpus);
        assert(items.take(items.len() as int) =~= items);
    }
}

proof fn lemma_step_percussion_notes(m2: ConfigModel, s2: ListsSeen, it: u8, home: Option<Seq<char>>, cpus: nat)
    requires
        it <= 127,
    ensures
        run_lines(m2, s2, seq![kv_line("external_midi.percussion_note"@, decimal((it + 0) as nat))], home, cpus)
            == Some((ConfigModel { external_midi: ExternalMidiModel { percussion_notes: list_base(s2.percussion_notes, m2.external_midi.percussion_notes).push(it), ..m2.external_midi }, ..m2 }, ListsSeen { percussion_notes: true, ..s2 })),
{
    lemma_key_names();
    lemma_decimal_clean((it + 0) as nat);
    lemma_byte_item_back("external_midi.percussion_note"@, it, 0, 127, 0);
    lemma_run_kv(m2, s2, "external_midi.percussion_note"@, decimal((it + 0) as nat), home, cpus);
    lemma_dispatch_external_lists(m2, s2, "external_midi.percussion_note"@, decimal((it + 0) as nat), home, cpus, Seq::empty(), 0);
    reveal(settings_external_lists);
}

proof fn lemma_empty_percussion_notes(m2: ConfigModel, s2: ListsSeen, home: Option<Seq<char>>, cpus: nat)
    ensures
        run_lines(m2, s2, seq![kv_line("external_midi.percussion_note"@, Seq::<char>::empty())], home, cpus)
            == Some((ConfigModel { external_midi: ExternalMidiModel { percussion_notes: list_base(s2.percussion_notes, m2.external_midi.percussion_notes), ..m2.external_midi }, ..m2 }, ListsSeen { percussion_notes: true, ..s2 })),
{
    lemma_key_names();
    lemma_empty_clean();
    reveal(spec_byte_item);
    lemma_run_kv(m2, s2, "external_midi.percussion_note"@, Seq::<char>::empty(), home, cpus);
    lemma_dispatch_external_lists(m2, s2, "external_midi.percussion_note"@, Seq::<char>::empty(), home, cpus, Seq::empty(), 0);
    reveal(settings_external_lists);
}

proof fn lemma_prefix_percussion_notes(m1: ConfigModel, s1: ListsSeen, items: Seq<u8>, j: int, home: Option<Seq<char>>, cpus: nat)
    requires
        !s1.percussion_notes,
        1 <= j <= items.len(),
        forall|i: int| 0 <= i < items.len() ==> #[trigger] items[i] <= 127,
    ensures
        run_lines(m1, s1, Seq::new(j as nat, |i: int| kv_line("external_midi.percussion_note"@, byte_texts(items, 0)[i])), home, cpus)
            == Some((ConfigModel { external_midi: ExternalMidiModel { percussion_notes: items.take(j), ..m1.external_midi }, ..m1 }, ListsSeen { percussion_notes: true, ..s1 })),
    decreases j,
{
    let ts = byte_texts(items, 0);
    if j == 1 {
        assert(Seq::new(1, |i: int| kv_line("external_midi.percussion_note"@, ts[i])) =~= seq![kv_line("external_midi.percussion_note"@, decimal((items[0] + 0) as nat))]);
        lemma_step_percussion_notes(m1, s1, items[0], home, cpus);
        assert(list_base(false, m1.external_midi.percussion_notes).push(items[0]) =~= items.take(1));
    } else {
        lemma_prefix_percussion_notes(m1, s1, items, j - 1, home, cpus);
        let before = Seq::new((j - 1) as nat, |i: int| kv_line("external_midi.percussion_note"@, ts[i]));
        assert(Seq::new(j as nat, |i: int| kv_line("external_midi.percussion_note"@, ts[i])) =~= before + seq![kv_line("external_midi.percussion_note"@, decimal((items[j - 1] + 0) as nat))]);
        lemma_run_concat(m1, s1, before, seq![kv_line("external_midi.percussion_note"@, decimal((items[j - 1] + 0) as nat))], home, cpus);
        let m2 = ConfigModel { external_midi: ExternalMidiModel { percussion_notes: items.take(j - 1), ..m1.external_midi }, ..m1 };
        let s2 = ListsSeen { percussion_notes: true, ..s1 };
        lemma_step_percussion_notes(m2, s2, items[j - 1], home, cpus);
        assert(items.take(j - 1).push(items[j - 1]) =~= items.take(j));
    }
}

proof fn lemma_block_percussion_notes(m1: ConfigModel, s1: ListsSeen, items: Seq<u8>, home: Option<Seq<char>>, cpus: nat)
    requires
        !s1.percussion_notes,
        forall|i: int| 0 <= i < items.len() ==> #[trigger] items[i] <= 127,
    ensures
        run_lines(m1, s1, block("external_midi.percussion_note"@, byte_texts(items, 0)), home, cpus)
            == Some((ConfigModel { external_midi: ExternalMidiModel { percussion_notes: items, ..m1.external_midi }, ..m1 }, ListsSeen { percussion_notes: true, ..s1 })),
        all_ok(block("external_midi.percussion_note"@, byte_texts(items, 0))),
{
    lemma_key_names();
    let bl = block("external_midi.percussion_note"@, byte_texts(items, 0));
    assert forall|i: int| 0 <= i < bl.len() implies line_ok(#[trigger] bl[i]) by {
        if items.len() == 0 {
            lemma_empty_clean();
            lemma_kv_line("external_midi.percussion_note"@, Seq::<char>::empty());
        } else {
            let it = items[i];
            assert(it <= 127);
            lemma_decimal_clean((it + 0) as nat);
            lemma_kv_line("external_midi.percussion_note"@, decimal((it + 0) as nat));
        }
    }
    if items.len() == 0 {
        lemma_empty_percussion_notes(m1, s1, home, cpus);
        assert(items =~= Seq::<u8>::empty());
        assert(list_base(false, m1.external_midi.percussion_notes) =~= Seq::<u8>::empty());
    } else {
        lemma_prefix_percussion_notes(m1, s1, items, items.len() as int, home, cpus);
        assert(items.take(items.len() as int) =~= items);
    }
}

// ---------------------------------------------------------------------------
// Each part of the saved text reads back
// ---------------------------------------------------------------------------

/// The settings after the synth lines of the saved text of `m`, read over `m1`.
pub open spec fn after_synth(m1: ConfigModel, m: ConfigModel) -> ConfigModel {
    let a1 = ConfigModel { synth_command: m.synth_command, ..m1 };
    let a2 = ConfigModel { client_name: m.client_name, ..a1 };
    let a3 = ConfigModel { startup_timeout_ms: m.startup_timeout_ms, ..a2 };
    let a4 = ConfigModel { note_naming: m.note_naming, ..a3 };
    let a5 = ConfigModel { preset_dir: m.preset_dir, ..a4 };
    let a6 = ConfigModel { midi_output_match: m.midi_output_match, ..a5 };
    let a7 = ConfigModel { yoshimi: YoshimiModel { backend: BackendModel { command: m.yoshimi.backend.command, ..a6.yoshimi.backend }, ..a6.yoshimi }, ..a6 };
    let a8 = ConfigModel { yoshimi: YoshimiModel { backend: BackendModel { client_name: m.yoshimi.backend.client_name, ..a7.yoshimi.backend }, ..a7.yoshimi }, ..a7 };
    let a9 = ConfigModel { yoshimi: YoshimiModel { backend: BackendModel { midi_output_match: m.yoshimi.backend.midi_output_match, ..a8.yoshimi.backend }, ..a8.yoshimi }, ..a8 };
    let a10 = ConfigModel { yoshimi: YoshimiModel { backend: BackendModel { preset_roots: m.yoshimi.backend.preset_roots, ..a9.yoshimi.backend }, ..a9.yoshimi }, ..a9 };
    let a11 = ConfigModel { yoshimi: YoshimiModel { categories: m.yoshimi.categories, ..a10.yoshimi }, ..a10 };
    a11
}

#[verifier::spinoff_prover]
#[verifier::rlimit(40)]
proof fn lemma_section_synth(m1: ConfigModel, s1: ListsSeen, m: ConfigModel, home: Option<Seq<char>>, cpus: nat)
    requires
        !s1.preset_roots,
        !s1.categories,
        req_ok(m.synth_command),
        req_ok(m.client_name),
        m.startup_timeout_ms > 0,
        m.preset_dir is Some ==> plain_path(m.preset_dir->0),
        req_ok(m.midi_output_match),
        req_ok(m.yoshimi.backend.command),
        req_ok(m.yoshimi.backend.client_name),
        req_ok(m.yoshimi.backend.midi_output_match),
        forall|i: int| 0 <= i < m.yoshimi.backend.preset_roots.len() ==> #[trigger] plain_path(m.yoshimi.backend.preset_roots[i]),
        forall|i: int| 0 <= i < m.yoshimi.categories.len() ==> #[trigger] category_ok(m.yoshimi.categories[i]),
    ensures
        run_lines(m1, s1, lines_synth(m), home, cpus) == Some((after_synth(m1, m), ListsSeen { preset_roots: true, categories: true, ..s1 })),
        all_ok(lines_synth(m)),
{
    lemma_run_header(m1, s1, home, cpus);
    let p0 = seq![header_line()];
    let a1 = ConfigModel { synth_command: m.synth_command, ..m1 };
    lemma_run_synth_command(m1, s1, m, home, cpus);
    lemma_run_concat(m1, s1, p0, seq![kv_line("synthv1.command"@, m.synth_command)], home, cpus);
    lemma_ok_concat(p0, seq![kv_line("synthv1.command"@, m.synth_command)]);
    let p1 = p0 + seq![kv_line("synthv1.command"@, m.synth_command)];
    let a2 = ConfigModel { client_name: m.client_name, ..a1 };
    lemma_run_synth_client(a1, s1, m, home, cpus);
    lemma_run_concat(m1, s1, p1, seq![kv_line("synthv1.client"@, m.client_name)], home, cpus);
    lemma_ok_concat(p1, seq![kv_line("synthv1.client"@, m.client_name)]);
    let p2 = p1 + seq![kv_line("synthv1.client"@, m.client_name)];
    let a3 = ConfigModel { startup_timeout_ms: m.startup_timeout_ms, ..a2 };
    lemma_run_startup_timeout(a2, s1, m, home, cpus);
    lemma_run_concat(m1, s1, p2, seq![kv_line("synth.startup_timeout_ms"@, decimal(m.startup_timeout_ms as nat))], home, cpus);
    lemma_ok_concat(p2, seq![kv_line("synth.startup_timeout_ms"@, decimal(m.startup_timeout_ms as nat))]);
    let p3 = p2 + seq![kv_line("synth.startup_timeout_ms"@, decimal(m.startup_timeout_ms as nat))];
    let a4 = ConfigModel { note_naming: m.note_naming, ..a3 };
    lemma_run_note_names(a3, s1, m, home, cpus);
    lemma_run_concat(m1, s1, p3, seq![kv_line("display.note_names"@, m.note_naming.spec_config_value())], home, cpus);
    lemma_ok_concat(p3, seq![kv_line("display.note_names"@, m.note_naming.spec_config_value())]);
    let p4 = p3 + seq![kv_line("display.note_names"@, m.note_naming.spec_config_value())];
    let a5 = ConfigModel { preset_dir: m.preset_dir, ..a4 };
    lemma_run_presets(a4, s1, m, home, cpus);
    lemma_run_concat(m1, s1, p4, seq![kv_line("synthv1.presets"@, opt_text(m.preset_dir))], home, cpus);
    lemma_ok_concat(p4, seq![kv_line("synthv1.presets"@, opt_text(m.preset_dir))]);
    let p5 = p4 + seq![kv_line("synthv1.presets"@, opt_text(m.preset_dir))];
    let a6 = ConfigModel { midi_output_match: m.midi_output_match, ..a5 };
    lemma_run_synth_output(a5, s1, m, home, cpus);
    lemma_run_concat(m1, s1, p5, seq![kv_line("synthv1.midi_output"@, m.midi_output_match)], home, cpus);
    lemma_ok_concat(p5, seq![kv_line("synthv1.midi_output"@, m.midi_output_match)]);
    let p6 = p5 + seq![kv_line("synthv1.midi_output"@, m.midi_output_match)];
    let a7 = ConfigModel { yoshimi: YoshimiModel { backend: BackendModel { command: m.yoshimi.backend.command, ..a6.yoshimi.backend }, ..a6.yoshimi }, ..a6 };
    lemma_run_yoshimi_command(a6, s1, m, home, cpus);
    lemma_run_concat(m1, s1, p6, seq![kv_line("yoshimi.command"@, m.yoshimi.backend.command)], home, cpus);
    lemma_ok_concat(p6, seq![kv_line("yoshimi.command"@, m.yoshimi.backend.command)]);
    let p7 = p6 + seq![kv_line("yoshimi.command"@, m.yoshimi.backend.command)];
    let a8 = ConfigModel { yoshimi: YoshimiModel { backend: BackendModel { client_name: m.yoshimi.backend.client_name, ..a7.yoshimi.backend }, ..a7.yoshimi }, ..a7 };
    lemma_run_yoshimi_client(a7, s1, m, home, cpus);
    lemma_run_concat(m1, s1, p7, seq![kv_line("yoshimi.client"@, m.yoshimi.backend.client_name)], home, cpus);
    lemma_ok_concat(p7, seq![kv_line("yoshimi.client"@, m.yoshimi.backend.client_name)]);
    let p8 = p7 + seq![kv_line("yoshimi.client"@, m.yoshimi.backend.client_name)];
    let a9 = ConfigModel { yoshimi: YoshimiModel { backend: BackendModel { midi_output_match: m.yoshimi.backend.midi_output_match, ..a8.yoshimi.backend }, ..a8.yoshimi }, ..a8 };
    lemma_run_yoshimi_output(a8, s1, m, home, cpus);
    lemma_run_concat(m1, s1, p8, seq![kv_line("yoshimi.midi_output"@, m.yoshimi.backend.midi_output_match)], home, cpus);
    lemma_ok_concat(p8, seq![kv_line("yoshimi.midi_output"@, m.yoshimi.backend.midi_output_match)]);
    let p9 = p8 + seq![kv_line("yoshimi.midi_output"@, m.yoshimi.backend.midi_output_match)];
    let a10 = ConfigModel { yoshimi: YoshimiModel { backend: BackendModel { preset_roots: m.yoshimi.backend.preset_roots, ..a9.yoshimi.backend }, ..a9.yoshimi }, ..a9 };
    lemma_block_preset_roots(a9, s1, m.yoshimi.backend.preset_roots, home, cpus);
    let t10 = ListsSeen { preset_roots: true, ..s1 };
    lemma_run_concat(m1, s1, p9, block("yoshimi.preset_root"@, m.yoshimi.backend.preset_roots), home, cpus);
    lemma_ok_concat(p9, block("yoshimi.preset_root"@, m.yoshimi.backend.preset_roots));
    let p10 = p9 + block("yoshimi.preset_root"@, m.yoshimi.backend.preset_roots);
    let a11 = ConfigModel { yoshimi: YoshimiModel { categories: m.yoshimi.categories, ..a10.yoshimi }, ..a10 };
    lemma_block_categories(a10, t10, m.yoshimi.categories, home, cpus);
    let t11 = ListsSeen { categories: true, ..t10 };
    lemma_run_concat(m1, s1, p10, block("yoshimi.category"@, m.yoshimi.categories), home, cpus);
    lemma_ok_concat(p10, block("yoshimi.category"@, m.yoshimi.categories));
    let p11 = p10 + block("yoshimi.category"@, m.yoshimi.categories);
}

/// The settings after the fluid lines of the saved text of `m`, read over `m1`.
pub open spec fn after_fluid(m1: ConfigModel, m: ConfigModel) -> ConfigModel {
    let a1 = ConfigModel { yoshimi: YoshimiModel { presets_per_category: m.yoshimi.presets_per_category, ..m1.yoshimi }, ..m1 };
    let a2 = ConfigModel { fluidsynth: FluidModel { backend: BackendModel { command: m.fluidsynth.backend.command, ..a1.fluidsynth.backend }, ..a1.fluidsynth }, ..a1 };
    let a3 = ConfigModel { fluidsynth: FluidModel { backend: BackendModel { client_name: m.fluidsynth.backend.client_name, ..a2.fluidsynth.backend }, ..a2.fluidsynth }, ..a2 };
    let a4 = ConfigModel { fluidsynth: FluidModel { backend: BackendModel { midi_output_match: m.fluidsynth.backend.midi_output_match, ..a3.fluidsynth.backend }, ..a3.fluidsynth }, ..a3 };
    let a5 = ConfigModel { fluidsynth: FluidModel { gain: m.fluidsynth.gain, ..a4.fluidsynth }, ..a4 };
    let a6 = ConfigModel { fluidsynth: FluidModel { soundfonts: m.fluidsynth.soundfonts, ..a5.fluidsynth }, ..a5 };
    a6
}

#[verifier::spinoff_prover]
#[verifier::rlimit(40)]
proof fn lemma_section_fluid(m1: ConfigModel, s1: ListsSeen, m: ConfigModel, home: Option<Seq<char>>, cpus: nat)
    requires
        !s1.soundfonts,
        m.yoshimi.presets_per_category > 0,
        req_ok(m.fluidsynth.backend.command),
        req_ok(m.fluidsynth.backend.client_name),
        req_ok(m.fluidsynth.backend.midi_output_match),
        clean(m.fluidsynth.gain),
        forall|i: int| 0 <= i < m.fluidsynth.soundfonts.len() ==> #[trigger] plain_path(m.fluidsynth.soundfonts[i]),
    ensures
        run_lines(m1, s1, lines_fluid(m), home, cpus) == Some((after_fluid(m1, m), ListsSeen { soundfonts: true, ..s1 })),
        all_ok(lines_fluid(m)),
{
    let a1 = ConfigModel { yoshimi: YoshimiModel { presets_per_category: m.yoshimi.presets_per_category, ..m1.yoshimi }, ..m1 };
    lemma_run_presets_per_category(m1, s1, m, home, cpus);
    let p1 = seq![kv_line("yoshimi.presets_per_category"@, decimal(m.yoshimi.presets_per_category as nat))];
    let a2 = ConfigModel { fluidsynth: FluidModel { backend: BackendModel { command: m.fluidsynth.backend.command, ..a1.fluidsynth.backend }, ..a1.fluidsynth }, ..a1 };
    lemma_run_fluid_command(a1, s1, m, home, cpus);
    lemma_run_concat(m1, s1, p1, seq![kv_line("fluidsynth.command"@, m.fluidsynth.backend.command)], home, cpus);
    lemma_ok_concat(p1, seq![kv_line("fluidsynth.command"@, m.fluidsynth.backend.command)]);
    let p2 = p1 + seq![kv_line("fluidsynth.command"@, m.fluidsynth.backend.command)];
    let a3 = ConfigModel { fluidsynth: FluidModel { backend: BackendModel { client_name: m.fluidsynth.backend.client_name, ..a2.fluidsynth.backend }, ..a2.fluidsynth }, ..a2 };
    lemma_run_fluid_client(a2, s1, m, home, cpus);
    lemma_run_concat(m1, s1, p2, seq![kv_line("fluidsynth.client"@, m.fluidsynth.backend.client_name)], home, cpus);
    lemma_ok_concat(p2, seq![kv_line("fluidsynth.client"@, m.fluidsynth.backend.client_name)]);
    let p3 = p2 + seq![kv_line("fluidsynth.client"@, m.fluidsynth.backend.client_name)];
    let a4 = ConfigModel { fluidsynth: FluidModel { backend: BackendModel { midi_output_match: m.fluidsynth.backend.midi_output_match, ..a3.fluidsynth.backend }, ..a3.fluidsynth }, ..a3 };
    lemma_run_fluid_output(a3, s1, m, home, cpus);
    lemma_run_concat(m1, s1, p3, seq![kv_line("fluidsynth.midi_output"@, m.fluidsynth.backend.midi_output_match)], home, cpus);
    lemma_ok_concat(p3, seq![kv_line("fluidsynth.midi_output"@, m.fluidsynth.backend.midi_output_match)]);
    let p4 = p3 + seq![kv_line("fluidsynth.midi_output"@, m.fluidsynth.backend.midi_output_match)];
    let a5 = ConfigModel { fluidsynth: FluidModel { gain: m.fluidsynth.gain, ..a4.fluidsynth }, ..a4 };
    lemma_run_fluid_gain(a4, s1, m, home, cpus);
    lemma_run_concat(m1, s1, p4, seq![kv_line("fluidsynth.gain"@, m.fluidsynth.gain)], home, cpus);
    lemma_ok_concat(p4, seq![kv_line("fluidsynth.gain"@, m.fluidsynth.gain)]);
    let p5 = p4 + seq![kv_line("fluidsynth.gain"@, m.fluidsynth.gain)];
    let a6 = ConfigModel { fluidsynth: FluidModel { soundfonts: m.fluidsynth.soundfonts, ..a5.fluidsynth }, ..a5 };
    lemma_block_soundfonts(a5, s1, m.fluidsynth.soundfonts, home, cpus);
    let t6 = ListsSeen { soundfonts: true, ..s1 };
    lemma_run_concat(m1, s1, p5, block("fluidsynth.soundfont"@, m.fluidsynth.soundfonts), home, cpus);
    lemma_ok_concat(p5, block("fluidsynth.soundfont"@, m.fluidsynth.soundfonts));
    let p6 = p5 + block("fluidsynth.soundfont"@, m.fluidsynth.soundfonts);
}

/// The settings after the routes lines of the saved text of `m`, read over `m1`.
pub open spec fn after_routes(m1: ConfigModel, m: ConfigModel) -> ConfigModel {
    let a1 = ConfigModel { midi_autoconnect: m.midi_autoconnect, ..m1 };
    let a2 = ConfigModel { midi_input_matches: m.midi_input_matches, ..a1 };
    let a3 = ConfigModel { audio_autoconnect: m.audio_autoconnect, ..a2 };
    let a4 = ConfigModel { audio_outputs: m.audio_outputs, ..a3 };
    let a5 = ConfigModel { audio_internal_outputs: m.audio_internal_outputs, ..a4 };
    let a6 = ConfigModel { audio_headphone_output: m.audio_headphone_output, ..a5 };
    a6
}

#[verifier::spinoff_prover]
#[verifier::rlimit(40)]
proof fn lemma_section_routes(m1: ConfigModel, s1: ListsSeen, m: ConfigModel, home: Option<Seq<char>>, cpus: nat)
    requires
        !s1.midi_inputs,
        !s1.audio_outputs,
        !s1.internal_outputs,
        forall|i: int| 0 <= i < m.midi_input_matches.len() ==> #[trigger] req_ok(m.midi_input_matches[i]),
        forall|i: int| 0 <= i < m.audio_outputs.len() ==> #[trigger] req_ok(m.audio_outputs[i]),
        forall|i: int| 0 <= i < m.audio_internal_outputs.len() ==> #[trigger] route_ok(m.audio_internal_outputs[i]),
        m.audio_headphone_output is Some ==> route_ok(m.audio_headphone_output->0),
    ensures
        run_lines(m1, s1, lines_routes(m), home, cpus) == Some((after_routes(m1, m), ListsSeen { midi_inputs: true, audio_outputs: true, internal_outputs: true, ..s1 })),
        all_ok(lines_routes(m)),
{
    let a1 = ConfigModel { midi_autoconnect: m.midi_autoconnect, ..m1 };
    lemma_run_midi_autoconnect(m1, s1, m, home, cpus);
    let p1 = seq![kv_line("midi.autoconnect"@, bool_text(m.midi_autoconnect))];
    let a2 = ConfigModel { midi_input_matches: m.midi_input_matches, ..a1 };
    lemma_block_midi_inputs(a1, s1, m.midi_input_matches, home, cpus);
    let t2 = ListsSeen { midi_inputs: true, ..s1 };
    lemma_run_concat(m1, s1, p1, block("midi.input"@, m.midi_input_matches), home, cpus);
    lemma_ok_concat(p1, block("midi.input"@, m.midi_input_matches));
    let p2 = p1 + block("midi.input"@, m.midi_input_matches);
    let a3 = ConfigModel { audio_autoconnect: m.audio_autoconnect, ..a2 };
    lemma_run_audio_autoconnect(a2, t2, m, home, cpus);
    lemma_run_concat(m1, s1, p2, seq![kv_line("audio.autoconnect"@, bool_text(m.audio_autoconnect))], home, cpus);
    lemma_ok_concat(p2, seq![kv_line("audio.autoconnect"@, bool_text(m.audio_autoconnect))]);
    let p3 = p2 + seq![kv_line("audio.autoconnect"@, bool_text(m.audio_autoconnect))];
    let a4 = ConfigModel { audio_outputs: m.audio_outputs, ..a3 };
    lemma_block_audio_outputs(a3, t2, m.audio_outputs, home, cpus);
    let t4 = ListsSeen { audio_outputs: true, ..t2 };
    lemma_run_concat(m1, s1, p3, block("audio.output"@, m.audio_outputs), home, cpus);
    lemma_ok_concat(p3, block("audio.output"@, m.audio_outputs));
    let p4 = p3 + block("audio.output"@, m.audio_outputs);
    let a5 = ConfigModel { audio_internal_outputs: m.audio_internal_outputs, ..a4 };
    lemma_block_internal_outputs(a4, t4, m.audio_internal_outputs, home, cpus);
    let t5 = ListsSeen { internal_outputs: true, ..t4 };
    lemma_run_concat(m1, s1, p4, block("audio.internal_output"@, route_texts(m.audio_internal_outputs)), home, cpus);
    lemma_ok_concat(p4, block("audio.internal_output"@, route_texts(m.audio_internal_outputs)));
    let p5 = p4 + block("audio.internal_output"@, route_texts(m.audio_internal_outputs));
    let a6 = ConfigModel { audio_headphone_output: m.audio_headphone_output, ..a5 };
    lemma_run_headphones(a5, t5, m, home, cpus);
    lemma_run_concat(m1, s1, p5, seq![kv_line("audio.headphone_output"@, match m.audio_headphone_output { Some(r) => route_text(r), None => Seq::<char>::empty() })], home, cpus);
    lemma_ok_concat(p5, seq![kv_line("audio.headphone_output"@, match m.audio_headphone_output { Some(r) => route_text(r), None => Seq::<char>::empty() })]);
    let p6 = p5 + seq![kv_line("audio.headphone_output"@, match m.audio_headphone_output { Some(r) => route_text(r), None => Seq::<char>::empty() })];
}

/// The settings after the graph lines of the saved text of `m`, read over `m1`.
pub open spec fn after_graph(m1: ConfigModel, m: ConfigModel) -> ConfigModel {
    let a1 = ConfigModel { audio_graph: GraphModel { enabled: m.audio_graph.enabled, ..m1.audio_graph }, ..m1 };
    let a2 = ConfigModel { audio_graph: GraphModel { client_name: m.audio_graph.client_name, ..a1.audio_graph }, ..a1 };
    let a3 = ConfigModel { audio_graph: GraphModel { maximum_callback_frames: m.audio_graph.maximum_callback_frames, ..a2.audio_graph }, ..a2 };
    let a4 = ConfigModel { audio_engine_cpu: m.audio_engine_cpu, ..a3 };
    a4
}

#[verifier::spinoff_prover]
#[verifier::rlimit(40)]
proof fn lemma_section_graph(m1: ConfigModel, s1: ListsSeen, m: ConfigModel, home: Option<Seq<char>>, cpus: nat)
    requires
        req_ok(m.audio_graph.client_name),
        1 <= m.audio_graph.maximum_callback_frames <= 4096,
        cpus >= 1,
        m.audio_engine_cpu is Some ==> m.audio_engine_cpu->0 < cpus,
    ensures
        run_lines(m1, s1, lines_graph(m), home, cpus) == Some((after_graph(m1, m), s1)),
        all_ok(lines_graph(m)),
{
    let a1 = ConfigModel { audio_graph: GraphModel { enabled: m.audio_graph.enabled, ..m1.audio_graph }, ..m1 };
    lemma_run_graph_enabled(m1, s1, m, home, cpus);
    let p1 = seq![kv_line("audio.graph.enabled"@, bool_text(m.audio_graph.enabled))];
    let a2 = ConfigModel { audio_graph: GraphModel { client_name: m.audio_graph.client_name, ..a1.audio_graph }, ..a1 };
    lemma_run_graph_client(a1, s1, m, home, cpus);
    lemma_run_concat(m1, s1, p1, seq![kv_line("audio.graph.client"@, m.audio_graph.client_name)], home, cpus);
    lemma_ok_concat(p1, seq![kv_line("audio.graph.client"@, m.audio_graph.client_name)]);
    let p2 = p1 + seq![kv_line("audio.graph.client"@, m.audio_graph.client_name)];
    let a3 = ConfigModel { audio_graph: GraphModel { maximum_callback_frames: m.audio_graph.maximum_callback_frames, ..a2.audio_graph }, ..a2 };
    lemma_run_graph_frames(a2, s1, m, home, cpus);
    lemma_run_concat(m1, s1, p2, seq![kv_line("audio.graph.maximum_callback_frames"@, decimal(m.audio_graph.maximum_callback_frames as nat))], home, cpus);
    lemma_ok_concat(p2, seq![kv_line("audio.graph.maximum_callback_frames"@, decimal(m.audio_graph.maximum_callback_frames as nat))]);
    let p3 = p2 + seq![kv_line("audio.graph.maximum_callback_frames"@, decimal(m.audio_graph.maximum_callback_frames as nat))];
    let a4 = ConfigModel { audio_engine_cpu: m.audio_engine_cpu, ..a3 };
    lemma_run_engine_cpu(a3, s1, m, home, cpus);
    lemma_run_concat(m1, s1, p3, seq![kv_line("audio.engine_cpu"@, opt_number(match m.audio_engine_cpu { Some(c) => Some(c as nat), None => None }))], home, cpus);
    lemma_ok_concat(p3, seq![kv_line("audio.engine_cpu"@, opt_number(match m.audio_engine_cpu { Some(c) => Some(c as nat), None => None }))]);
    let p4 = p3 + seq![kv_line("audio.engine_cpu"@, opt_number(match m.audio_engine_cpu { Some(c) => Some(c as nat), None => None }))];
}

/// The settings after the external lines of the saved text of `m`, read over `m1`.
pub open spec fn after_external(m1: ConfigModel, m: ConfigModel) -> ConfigModel {
    let a1 = ConfigModel { external_midi: ExternalMidiModel { enabled: m.external_midi.enabled, ..m1.external_midi }, ..m1 };
    let a2 = ConfigModel { external_midi: ExternalMidiModel { client_name: m.external_midi.client_name, ..a1.external_midi }, ..a1 };
    let a3 = ConfigModel { external_midi: ExternalMidiModel { output_match: m.external_midi.output_match, ..a2.external_midi }, ..a2 };
    let a4 = ConfigModel { external_midi: ExternalMidiModel { max_tracks: m.external_midi.max_tracks, ..a3.external_midi }, ..a3 };
    let a5 = ConfigModel { external_midi: ExternalMidiModel { channels: m.external_midi.channels, ..a4.external_midi }, ..a4 };
    a5
}

#[verifier::spinoff_prover]
#[verifier::rlimit(40)]
proof fn lemma_section_external(m1: ConfigModel, s1: ListsSeen, m: ConfigModel, home: Option<Seq<char>>, cpus: nat)
    requires
        !s1.channels,
        req_ok(m.external_midi.client_name),
        clean(m.external_midi.output_match),
        1 <= m.external_midi.max_tracks <= 16,
        forall|i: int| 0 <= i < m.external_midi.channels.len() ==> #[trigger] m.external_midi.channels[i] <= 15,
    ensures
        run_lines(m1, s1, lines_external(m), home, cpus) == Some((after_external(m1, m), ListsSeen { channels: true, ..s1 })),
        all_ok(lines_external(m)),
{
    let a1 = ConfigModel { external_midi: ExternalMidiModel { enabled: m.external_midi.enabled, ..m1.external_midi }, ..m1 };
    lemma_run_ext_enabled(m1, s1, m, home, cpus);
    let p1 = seq![kv_line("external_midi.enabled"@, bool_text(m.external_midi.enabled))];
    let a2 = ConfigModel { external_midi: ExternalMidiModel { client_name: m.external_midi.client_name, ..a1.external_midi }, ..a1 };
    lemma_run_ext_client(a1, s1, m, home, cpus);
    lemma_run_concat(m1, s1, p1, seq![kv_line("external_midi.client"@, m.external_midi.client_name)], home, cpus);
    lemma_ok_concat(p1, seq![kv_line("external_midi.client"@, m.external_midi.client_name)]);
    let p2 = p1 + seq![kv_line("external_midi.client"@, m.external_midi.client_name)];
    let a3 = ConfigModel { external_midi: ExternalMidiModel { output_match: m.external_midi.output_match, ..a2.external_midi }, ..a2 };
    lemma_run_ext_output(a2, s1, m, home, cpus);
    lemma_run_concat(m1, s1, p2, seq![kv_line("external_midi.output"@, m.external_midi.output_match)], home, cpus);
    lemma_ok_concat(p2, seq![kv_line("external_midi.output"@, m.external_midi.output_match)]);
    let p3 = p2 + seq![kv_line("external_midi.output"@, m.external_midi.output_match)];
    let a4 = ConfigModel { external_midi: ExternalMidiModel { max_tracks: m.external_midi.max_tracks, ..a3.external_midi }, ..a3 };
    lemma_run_ext_tracks(a3, s1, m, home, cpus);
    lemma_run_concat(m1, s1, p3, seq![kv_line("external_midi.max_tracks"@, decimal(m.external_midi.max_tracks as nat))], home, cpus);
    lemma_ok_concat(p3, seq![kv_line("external_midi.max_tracks"@, decimal(m.external_midi.max_tracks as nat))]);
    let p4 = p3 + seq![kv_line("external_midi.max_tracks"@, decimal(m.external_midi.max_tracks as nat))];
    let a5 = ConfigModel { external_midi: ExternalMidiModel { channels: m.external_midi.channels, ..a4.external_midi }, ..a4 };
    lemma_block_channels(a4, s1, m.external_midi.channels, home, cpus);
    let t5 = ListsSeen { channels: true, ..s1 };
    lemma_run_concat(m1, s1, p4, block("external_midi.channel"@, byte_texts(m.external_midi.channels, 1)), home, cpus);
    lemma_ok_concat(p4, block("external_midi.channel"@, byte_texts(m.external_midi.channels, 1)));
    let p5 = p4 + block("external_midi.channel"@, byte_texts(m.external_midi.channels, 1));
}

/// The settings after the percussion lines of the saved text of `m`, read over `m1`.
pub open spec fn after_percussion(m1: ConfigModel, m: ConfigModel) -> ConfigModel {
    let a1 = ConfigModel { external_midi: ExternalMidiModel { melody_channel: m.external_midi.melody_channel, ..m1.external_midi }, ..m1 };
    let a2 = ConfigModel { external_midi: ExternalMidiModel { percussion_channel: m.external_midi.percussion_channel, ..a1.external_midi }, ..a1 };
    let a3 = ConfigModel { external_midi: ExternalMidiModel { percussion_program: m.external_midi.percussion_program, ..a2.external_midi }, ..a2 };
    let a4 = ConfigModel { external_midi: ExternalMidiModel { percussion_input_base: m.external_midi.percussion_input_base, ..a3.external_midi }, ..a3 };
    let a5 = ConfigModel { external_midi: ExternalMidiModel { percussion_notes: m.external_midi.percussion_notes, ..a4.external_midi }, ..a4 };
    a5
}

#[verifier::spinoff_prover]
#[verifier::rlimit(40)]
proof fn lemma_section_percussion(m1: ConfigModel, s1: ListsSeen, m: ConfigModel, home: Option<Seq<char>>, cpus: nat)
    requires
        !s1.percussion_notes,
        m.external_midi.melody_channel <= 15,
        m.external_midi.percussion_channel is Some ==> m.external_midi.percussion_channel->0 <= 15,
        m.external_midi.percussion_program is Some ==> m.external_midi.percussion_program->0 <= 127,
        0 <= m.external_midi.percussion_input_base <= 127,
        forall|i: int| 0 <= i < m.external_midi.percussion_notes.len() ==> #[trigger] m.external_midi.percussion_notes[i] <= 127,
    ensures
        run_lines(m1, s1, lines_percussion(m), home, cpus) == Some((after_percussion(m1, m), ListsSeen { percussion_notes: true, ..s1 })),
        all_ok(lines_percussion(m)),
{
    let a1 = ConfigModel { external_midi: ExternalMidiModel { melody_channel: m.external_midi.melody_channel, ..m1.external_midi }, ..m1 };
    lemma_run_ext_melody(m1, s1, m, home, cpus);
    let p1 = seq![kv_line("external_midi.melody_channel"@, decimal((m.external_midi.melody_channel + 1) as nat))];
    let a2 = ConfigModel { external_midi: ExternalMidiModel { percussion_channel: m.external_midi.percussion_channel, ..a1.external_midi }, ..a1 };
    lemma_run_ext_percussion_channel(a1, s1, m, home, cpus);
    lemma_run_concat(m1, s1, p1, seq![kv_line("external_midi.percussion_channel"@, opt_number(match m.external_midi.percussion_channel { Some(c) => Some((c + 1) as nat), None => None }))], home, cpus);
    lemma_ok_concat(p1, seq![kv_line("external_midi.percussion_channel"@, opt_number(match m.external_midi.percussion_channel { Some(c) => Some((c + 1) as nat), None => None }))]);
    let p2 = p1 + seq![kv_line("external_midi.percussion_channel"@, opt_number(match m.external_midi.percussion_channel { Some(c) => Some((c + 1) as nat), None => None }))];
    let a3 = ConfigModel { external_midi: ExternalMidiModel { percussion_program: m.external_midi.percussion_program, ..a2.external_midi }, ..a2 };
    lemma_run_ext_percussion_program(a2, s1, m, home, cpus);
    lemma_run_concat(m1, s1, p2, seq![kv_line("external_midi.percussion_program"@, opt_number(match m.external_midi.percussion_program { Some(p) => Some(p as nat), None => None }))], home, cpus);
    lemma_ok_concat(p2, seq![kv_line("external_midi.percussion_program"@, opt_number(match m.external_midi.percussion_program { Some(p) => Some(p as nat), None => None }))]);
    let p3 = p2 + seq![kv_line("external_midi.percussion_program"@, opt_number(match m.external_midi.percussion_program { Some(p) => Some(p as nat), None => None }))];
    let a4 = ConfigModel { external_midi: ExternalMidiModel { percussion_input_base: m.external_midi.percussion_input_base, ..a3.external_midi }, ..a3 };
    lemma_run_ext_input_base(a3, s1, m, home, cpus);
    lemma_run_concat(m1, s1, p3, seq![kv_line("external_midi.percussion_input_base"@, decimal(m.external_midi.percussion_input_base as nat))], home, cpus);
    lemma_ok_concat(p3, seq![kv_line("external_midi.percussion_input_base"@, decimal(m.external_midi.percussion_input_base as nat))]);
    let p4 = p3 + seq![kv_line("external_midi.percussion_input_base"@, decimal(m.external_midi.percussion_input_base as nat))];
    let a5 = ConfigModel { external_midi: ExternalMidiModel { percussion_notes: m.external_midi.percussion_notes, ..a4.external_midi }, ..a4 };
    lemma_block_percussion_notes(a4, s1, m.external_midi.percussion_notes, home, cpus);
    let t5 = ListsSeen { percussion_notes: true, ..s1 };
    lemma_run_concat(m1, s1, p4, block("external_midi.percussion_note"@, byte_texts(m.external_midi.percussion_notes, 0)), home, cpus);
    lemma_ok_concat(p4, block("external_midi.percussion_note"@, byte_texts(m.external_midi.percussion_notes, 0)));
    let p5 = p4 + block("external_midi.percussion_note"@, byte_texts(m.external_midi.percussion_notes, 0));
}

/// The settings after the external rest lines of the saved text of `m`, read over `m1`.
pub open spec fn after_external_rest(m1: ConfigModel, m: ConfigModel) -> ConfigModel {
    let a1 = ConfigModel { external_midi: ExternalMidiModel { bank_select: m.external_midi.bank_select, ..m1.external_midi }, ..m1 };
    let a2 = ConfigModel { external_midi: ExternalMidiModel { program_changes: m.external_midi.program_changes, ..a1.external_midi }, ..a1 };
    let a3 = ConfigModel { external_midi: ExternalMidiModel { send_transport: m.external_midi.send_transport, ..a2.external_midi }, ..a2 };
    let a4 = ConfigModel { external_midi: ExternalMidiModel { default_tempo: m.external_midi.default_tempo, ..a3.external_midi }, ..a3 };
    let a5 = ConfigModel { external_midi: ExternalMidiModel { default_pattern_rows: m.external_midi.default_pattern_rows, ..a4.external_midi }, ..a4 };
    let a6 = ConfigModel { external_midi: ExternalMidiModel { steps_per_beat: m.external_midi.steps_per_beat, ..a5.external_midi }, ..a5 };
    let a7 = ConfigModel { external_midi: ExternalMidiModel { live_thru: m.external_midi.live_thru, ..a6.external_midi }, ..a6 };
    let a8 = ConfigModel { external_midi: ExternalMidiModel { profile: m.external_midi.profile, ..a7.external_midi }, ..a7 };
    let a9 = ConfigModel { external_midi: ExternalMidiModel { gate_percent: m.external_midi.gate_percent, ..a8.external_midi }, ..a8 };
    let a10 = ConfigModel { external_midi: ExternalMidiModel { gesture_settle_ms: m.external_midi.gesture_settle_ms, ..a9.external_midi }, ..a9 };
    a10
}

#[verifier::spinoff_prover]
#[verifier::rlimit(40)]
proof fn lemma_section_external_rest(m1: ConfigModel, s1: ListsSeen, m: ConfigModel, home: Option<Seq<char>>, cpus: nat)
    requires
        20 <= m.external_midi.default_tempo <= 300,
        1 <= m.external_midi.default_pattern_rows <= 256,
        1 <= m.external_midi.steps_per_beat <= 16,
        req_ok(m.external_midi.profile),
        1 <= m.external_midi.gate_percent <= 100,
        10 <= m.external_midi.gesture_settle_ms <= 250,
    ensures
        run_lines(m1, s1, lines_external_rest(m), home, cpus) == Some((after_external_rest(m1, m), s1)),
        all_ok(lines_external_rest(m)),
{
    let a1 = ConfigModel { external_midi: ExternalMidiModel { bank_select: m.external_midi.bank_select, ..m1.external_midi }, ..m1 };
    lemma_run_ext_bank(m1, s1, m, home, cpus);
    let p1 = seq![kv_line("external_midi.bank_select"@, bank_text(m.external_midi.bank_select))];
    let a2 = ConfigModel { external_midi: ExternalMidiModel { program_changes: m.external_midi.program_changes, ..a1.external_midi }, ..a1 };
    lemma_run_ext_program_changes(a1, s1, m, home, cpus);
    lemma_run_concat(m1, s1, p1, seq![kv_line("external_midi.program_changes"@, bool_text(m.external_midi.program_changes))], home, cpus);
    lemma_ok_concat(p1, seq![kv_line("external_midi.program_changes"@, bool_text(m.external_midi.program_changes))]);
    let p2 = p1 + seq![kv_line("external_midi.program_changes"@, bool_text(m.external_midi.program_changes))];
    let a3 = ConfigModel { external_midi: ExternalMidiModel { send_transport: m.external_midi.send_transport, ..a2.external_midi }, ..a2 };
    lemma_run_ext_transport(a2, s1, m, home, cpus);
    lemma_run_concat(m1, s1, p2, seq![kv_line("external_midi.send_transport"@, bool_text(m.external_midi.send_transport))], home, cpus);
    lemma_ok_concat(p2, seq![kv_line("external_midi.send_transport"@, bool_text(m.external_midi.send_transport))]);
    let p3 = p2 + seq![kv_line("external_midi.send_transport"@, bool_text(m.external_midi.send_transport))];
    let a4 = ConfigModel { external_midi: ExternalMidiModel { default_tempo: m.external_midi.default_tempo, ..a3.external_midi }, ..a3 };
    lemma_run_ext_tempo(a3, s1, m, home, cpus);
    lemma_run_concat(m1, s1, p3, seq![kv_line("external_midi.default_tempo"@, decimal(m.external_midi.default_tempo as nat))], home, cpus);
    lemma_ok_concat(p3, seq![kv_line("external_midi.default_tempo"@, decimal(m.external_midi.default_tempo as nat))]);
    let p4 = p3 + seq![kv_line("external_midi.default_tempo"@, decimal(m.external_midi.default_tempo as nat))];
    let a5 = ConfigModel { external_midi: ExternalMidiModel { default_pattern_rows: m.external_midi.default_pattern_rows, ..a4.external_midi }, ..a4 };
    lemma_run_ext_rows(a4, s1, m, home, cpus);
    lemma_run_concat(m1, s1, p4, seq![kv_line("external_midi.pattern_rows"@, decimal(m.external_midi.default_pattern_rows as nat))], home, cpus);
    lemma_ok_concat(p4, seq![kv_line("external_midi.pattern_rows"@, decimal(m.external_midi.default_pattern_rows as nat))]);
    let p5 = p4 + seq![kv_line("external_midi.pattern_rows"@, decimal(m.external_midi.default_pattern_rows as nat))];
    let a6 = ConfigModel { external_midi: ExternalMidiModel { steps_per_beat: m.external_midi.steps_per_beat, ..a5.external_midi }, ..a5 };
    lemma_run_ext_steps(a5, s1, m, home, cpus);
    lemma_run_concat(m1, s1, p5, seq![kv_line("external_midi.steps_per_beat"@, decimal(m.external_midi.steps_per_beat as nat))], home, cpus);
    lemma_ok_concat(p5, seq![kv_line("external_midi.steps_per_beat"@, decimal(m.external_midi.steps_per_beat as nat))]);
    let p6 = p5 + seq![kv_line("external_midi.steps_per_beat"@, decimal(m.external_midi.steps_per_beat as nat))];
    let a7 = ConfigModel { external_midi: ExternalMidiModel { live_thru: m.external_midi.live_thru, ..a6.external_midi }, ..a6 };
    lemma_run_ext_thru(a6, s1, m, home, cpus);
    lemma_run_concat(m1, s1, p6, seq![kv_line("external_midi.live_thru"@, bool_text(m.external_midi.live_thru))], home, cpus);
    lemma_ok_concat(p6, seq![kv_line("external_midi.live_thru"@, bool_text(m.external_midi.live_thru))]);
    let p7 = p6 + seq![kv_line("external_midi.live_thru"@, bool_text(m.external_midi.live_thru))];
    let a8 = ConfigModel { external_midi: ExternalMidiModel { profile: m.external_midi.profile, ..a7.external_midi }, ..a7 };
    lemma_run_ext_profile(a7, s1, m, home, cpus);
    lemma_run_concat(m1, s1, p7, seq![kv_line("external_midi.profile"@, m.external_midi.profile)], home, cpus);
    lemma_ok_concat(p7, seq![kv_line("external_midi.profile"@, m.external_midi.profile)]);
    let p8 = p7 + seq![kv_line("external_midi.profile"@, m.external_midi.profile)];
    let a9 = ConfigModel { external_midi: ExternalMidiModel { gate_percent: m.external_midi.gate_percent, ..a8.external_midi }, ..a8 };
    lemma_run_ext_gate(a8, s1, m, home, cpus);
    lemma_run_concat(m1, s1, p8, seq![kv_line("external_midi.gate_percent"@, decimal(m.external_midi.gate_percent as nat))], home, cpus);
    lemma_ok_concat(p8, seq![kv_line("external_midi.gate_percent"@, decimal(m.external_midi.gate_percent as nat))]);
    let p9 = p8 + seq![kv_line("external_midi.gate_percent"@, decimal(m.external_midi.gate_percent as nat))];
    let a10 = ConfigModel { external_midi: ExternalMidiModel { gesture_settle_ms: m.external_midi.gesture_settle_ms, ..a9.external_midi }, ..a9 };
    lemma_run_ext_settle(a9, s1, m, home, cpus);
    lemma_run_concat(m1, s1, p9, seq![kv_line("external_midi.gesture_settle_ms"@, decimal(m.external_midi.gesture_settle_ms as nat))], home, cpus);
    lemma_ok_concat(p9, seq![kv_line("external_midi.gesture_settle_ms"@, decimal(m.external_midi.gesture_settle_ms as nat))]);
    let p10 = p9 + seq![kv_line("external_midi.gesture_settle_ms"@, decimal(m.external_midi.gesture_settle_ms as nat))];
}

/// The settings after the capture lines of the saved text of `m`, read over `m1`.
pub open spec fn after_capture(m1: ConfigModel, m: ConfigModel) -> ConfigModel {
    let a1 = ConfigModel { capture: CaptureModel { client_name: m.capture.client_name, ..m1.capture }, ..m1 };
    let a2 = ConfigModel { capture: CaptureModel { directory: m.capture.directory, ..a1.capture }, ..a1 };
    let a3 = ConfigModel { capture: CaptureModel { ring_frames: m.capture.ring_frames, ..a2.capture }, ..a2 };
    let a4 = ConfigModel { capture: CaptureModel { inputs: m.capture.inputs, ..a3.capture }, ..a3 };
    let a5 = ConfigModel { loop_player: LoopModel { client_name: m.loop_player.client_name, ..a4.loop_player }, ..a4 };
    let a6 = ConfigModel { loop_player: LoopModel { import_directory: m.loop_player.import_directory, ..a5.loop_player }, ..a5 };
    let a7 = ConfigModel { loop_player: LoopModel { outputs: m.loop_player.outputs, ..a6.loop_player }, ..a6 };
    let a8 = ConfigModel { cpu_temperature_path: m.cpu_temperature_path, ..a7 };
    a8
}

#[verifier::spinoff_prover]
#[verifier::rlimit(40)]
proof fn lemma_section_capture(m1: ConfigModel, s1: ListsSeen, m: ConfigModel, home: Option<Seq<char>>, cpus: nat)
    requires
        !s1.capture_inputs,
        !s1.loop_outputs,
        req_ok(m.capture.client_name),
        plain_path(m.capture.directory),
        1024 <= m.capture.ring_frames <= 4194304,
        forall|i: int| 0 <= i < m.capture.inputs.len() ==> #[trigger] route_ok(m.capture.inputs[i]),
        req_ok(m.loop_player.client_name),
        plain_path(m.loop_player.import_directory),
        forall|i: int| 0 <= i < m.loop_player.outputs.len() ==> #[trigger] req_ok(m.loop_player.outputs[i]),
        m.cpu_temperature_path is Some ==> plain_path(m.cpu_temperature_path->0),
    ensures
        run_lines(m1, s1, lines_capture(m), home, cpus) == Some((after_capture(m1, m), ListsSeen { capture_inputs: true, loop_outputs: true, ..s1 })),
        all_ok(lines_capture(m)),
{
    let a1 = ConfigModel { capture: CaptureModel { client_name: m.capture.client_name, ..m1.capture }, ..m1 };
    lemma_run_capture_client(m1, s1, m, home, cpus);
    let p1 = seq![kv_line("capture.client"@, m.capture.client_name)];
    let a2 = ConfigModel { capture: CaptureModel { directory: m.capture.directory, ..a1.capture }, ..a1 };
    lemma_run_capture_directory(a1, s1, m, home, cpus);
    lemma_run_concat(m1, s1, p1, seq![kv_line("capture.directory"@, m.capture.directory)], home, cpus);
    lemma_ok_concat(p1, seq![kv_line("capture.directory"@, m.capture.directory)]);
    let p2 = p1 + seq![kv_line("capture.directory"@, m.capture.directory)];
    let a3 = ConfigModel { capture: CaptureModel { ring_frames: m.capture.ring_frames, ..a2.capture }, ..a2 };
    lemma_run_capture_ring(a2, s1, m, home, cpus);
    lemma_run_concat(m1, s1, p2, seq![kv_line("capture.ring_frames"@, decimal(m.capture.ring_frames as nat))], home, cpus);
    lemma_ok_concat(p2, seq![kv_line("capture.ring_frames"@, decimal(m.capture.ring_frames as nat))]);
    let p3 = p2 + seq![kv_line("capture.ring_frames"@, decimal(m.capture.ring_frames as nat))];
    let a4 = ConfigModel { capture: CaptureModel { inputs: m.capture.inputs, ..a3.capture }, ..a3 };
    lemma_block_capture_inputs(a3, s1, m.capture.inputs, home, cpus);
    let t4 = ListsSeen { capture_inputs: true, ..s1 };
    lemma_run_concat(m1, s1, p3, block("capture.input"@, route_texts(m.capture.inputs)), home, cpus);
    lemma_ok_concat(p3, block("capture.input"@, route_texts(m.capture.inputs)));
    let p4 = p3 + block("capture.input"@, route_texts(m.capture.inputs));
    let a5 = ConfigModel { loop_player: LoopModel { client_name: m.loop_player.client_name, ..a4.loop_player }, ..a4 };
    lemma_run_loop_client(a4, t4, m, home, cpus);
    lemma_run_concat(m1, s1, p4, seq![kv_line("loop.client"@, m.loop_player.client_name)], home, cpus);
    lemma_ok_concat(p4, seq![kv_line("loop.client"@, m.loop_player.client_name)]);
    let p5 = p4 + seq![kv_line("loop.client"@, m.loop_player.client_name)];
    let a6 = ConfigModel { loop_player: LoopModel { import_directory: m.loop_player.import_directory, ..a5.loop_player }, ..a5 };
    lemma_run_loop_directory(a5, t4, m, home, cpus);
    lemma_run_concat(m1, s1, p5, seq![kv_line("loop.import_directory"@, m.loop_player.import_directory)], home, cpus);
    lemma_ok_concat(p5, seq![kv_line("loop.import_directory"@, m.loop_player.import_directory)]);
    let p6 = p5 + seq![kv_line("loop.import_directory"@, m.loop_player.import_directory)];
    let a7 = ConfigModel { loop_player: LoopModel { outputs: m.loop_player.outputs, ..a6.loop_player }, ..a6 };
    lemma_block_loop_outputs(a6, t4, m.loop_player.outputs, home, cpus);
    let t7 = ListsSeen { loop_outputs: true, ..t4 };
    lemma_run_concat(m1, s1, p6, block("loop.output"@, m.loop_player.outputs), home, cpus);
    lemma_ok_concat(p6, block("loop.output"@, m.loop_player.outputs));
    let p7 = p6 + block("loop.output"@, m.loop_player.outputs);
    let a8 = ConfigModel { cpu_temperature_path: m.cpu_temperature_path, ..a7 };
    lemma_run_temperature(a7, t7, m, home, cpus);
    lemma_run_concat(m1, s1, p7, seq![kv_line("status.cpu_temperature_path"@, opt_text(m.cpu_temperature_path))], home, cpus);
    lemma_ok_concat(p7, seq![kv_line("status.cpu_temperature_path"@, opt_text(m.cpu_temperature_path))]);
    let p8 = p7 + seq![kv_line("status.cpu_temperature_path"@, opt_text(m.cpu_temperature_path))];
}

// ---------------------------------------------------------------------------
// The saved text reads back
// ---------------------------------------------------------------------------

/// Settings whose saved text reads back as themselves where `cpus` CPUs
/// can be reserved: each value non-empty where one is required, free of
/// surrounding whitespace and newlines, in its range, paths not starting
/// with `~/`, categories lowercase, route names and ports free of `|`, and
/// the settings consistent as a whole.
pub open spec fn saveable(m: ConfigModel, cpus: nat) -> bool {
    &&& cpus >= 1
    &&& req_ok(m.synth_command)
    &&& req_ok(m.client_name)
    &&& m.startup_timeout_ms > 0
    &&& m.preset_dir is Some ==> plain_path(m.preset_dir->0)
    &&& req_ok(m.midi_output_match)
    &&& req_ok(m.yoshimi.backend.command)
    &&& req_ok(m.yoshimi.backend.client_name)
    &&& req_ok(m.yoshimi.backend.midi_output_match)
    &&& forall|i: int| 0 <= i < m.yoshimi.backend.preset_roots.len() ==> #[trigger] plain_path(m.yoshimi.backend.preset_roots[i])
    &&& forall|i: int| 0 <= i < m.yoshimi.categories.len() ==> #[trigger] category_ok(m.yoshimi.categories[i])
    &&& m.yoshimi.presets_per_category > 0
    &&& req_ok(m.fluidsynth.backend.command)
    &&& req_ok(m.fluidsynth.backend.client_name)
    &&& req_ok(m.fluidsynth.backend.midi_output_match)
    &&& clean(m.fluidsynth.gain)
    &&& forall|i: int| 0 <= i < m.fluidsynth.soundfonts.len() ==> #[trigger] plain_path(m.fluidsynth.soundfonts[i])
    &&& forall|i: int| 0 <= i < m.midi_input_matches.len() ==> #[trigger] req_ok(m.midi_input_matches[i])
    &&& forall|i: int| 0 <= i < m.audio_outputs.len() ==> #[trigger] req_ok(m.audio_outputs[i])
    &&& forall|i: int| 0 <= i < m.audio_internal_outputs.len() ==> #[trigger] route_ok(m.audio_internal_outputs[i])
    &&& m.audio_headphone_output is Some ==> route_ok(m.audio_headphone_output->0)
    &&& req_ok(m.audio_graph.client_name)
    &&& 1 <= m.audio_graph.maximum_callback_frames <= 4096
    &&& m.audio_engine_cpu is Some ==> m.audio_engine_cpu->0 < cpus
    &&& req_ok(m.external_midi.client_name)
    &&& clean(m.external_midi.output_match)
    &&& 1 <= m.external_midi.max_tracks <= 16
    &&& forall|i: int| 0 <= i < m.external_midi.channels.len() ==> #[trigger] m.external_midi.channels[i] <= 15
    &&& m.external_midi.melody_channel <= 15
    &&& m.external_midi.percussion_channel is Some ==> m.external_midi.percussion_channel->0 <= 15
    &&& m.external_midi.percussion_program is Some ==> m.external_midi.percussion_program->0 <= 127
    &&& 0 <= m.external_midi.percussion_input_base <= 127
    &&& forall|i: int| 0 <= i < m.external_midi.percussion_notes.len() ==> #[trigger] m.external_midi.percussion_notes[i] <= 127
    &&& 20 <= m.external_midi.default_tempo <= 300
    &&& 1 <= m.external_midi.default_pattern_rows <= 256
    &&& 1 <= m.external_midi.steps_per_beat <= 16
    &&& req_ok(m.external_midi.profile)
    &&& 1 <= m.external_midi.gate_percent <= 100
    &&& 10 <= m.external_midi.gesture_settle_ms <= 250
    &&& req_ok(m.capture.client_name)
    &&& plain_path(m.capture.directory)
    &&& 1024 <= m.capture.ring_frames <= 4194304
    &&& forall|i: int| 0 <= i < m.capture.inputs.len() ==> #[trigger] route_ok(m.capture.inputs[i])
    &&& req_ok(m.loop_player.client_name)
    &&& plain_path(m.loop_player.import_directory)
    &&& forall|i: int| 0 <= i < m.loop_player.outputs.len() ==> #[trigger] req_ok(m.loop_player.outputs[i])
    &&& m.cpu_temperature_path is Some ==> plain_path(m.cpu_temperature_path->0)
    &&& settings_error(m) is None
}

/// `m` with the FluidSynth preset roots of `start`: the saved text does not
/// hold them.
pub open spec fn read_back(start: ConfigModel, m: ConfigModel) -> ConfigModel {
    ConfigModel {
        fluidsynth: FluidModel {
            backend: BackendModel { preset_roots: start.fluidsynth.backend.preset_roots, ..m.fluidsynth.backend },
            ..m.fluidsynth
        },
        ..m
    }
}

/// The lines of the saved text are its lines as read.
proof fn lemma_config_lines_read(m: ConfigModel, cpus: nat)
    requires
        saveable(m, cpus),
    ensures
        spec_lines(config_text(m)) == config_lines(m),
{
    let s0 = ListsSeen::none();
    lemma_section_synth(m, s0, m, None, cpus);
    lemma_section_fluid(m, s0, m, None, cpus);
    lemma_section_routes(m, s0, m, None, cpus);
    lemma_section_graph(m, s0, m, None, cpus);
    lemma_section_external(m, s0, m, None, cpus);
    lemma_section_percussion(m, s0, m, None, cpus);
    lemma_section_external_rest(m, s0, m, None, cpus);
    lemma_section_capture(m, s0, m, None, cpus);
    let a1 = lines_synth(m);
    let a2 = a1 + lines_fluid(m);
    let a3 = a2 + lines_routes(m);
    let a4 = a3 + lines_graph(m);
    let a5 = a4 + lines_external(m);
    let a6 = a5 + lines_percussion(m);
    let a7 = a6 + lines_external_rest(m);
    lemma_ok_concat(a1, lines_fluid(m));
    lemma_ok_concat(a2, lines_routes(m));
    lemma_ok_concat(a3, lines_graph(m));
    lemma_ok_concat(a4, lines_external(m));
    lemma_ok_concat(a5, lines_percussion(m));
    lemma_ok_concat(a6, lines_external_rest(m));
    lemma_ok_concat(a7, lines_capture(m));
    lemma_config_text_lines(m);
    lemma_lines_of_terminated(config_lines(m));
}

/// The saved text's lines, run over `start`, give `m` but for the
/// FluidSynth preset roots, which the text does not hold.
proof fn lemma_config_lines_run(start: ConfigModel, m: ConfigModel, home: Option<Seq<char>>, cpus: nat)
    requires
        saveable(m, cpus),
    ensures
        (run_lines(start, ListsSeen::none(), config_lines(m), home, cpus) matches Some((c, _)) && c == read_back(start, m)),
{
    let s0 = ListsSeen::none();
    let b1 = after_synth(start, m);
    let s1 = ListsSeen { preset_roots: true, categories: true, ..s0 };
    lemma_section_synth(start, s0, m, home, cpus);
    let b2 = after_fluid(b1, m);
    let s2 = ListsSeen { soundfonts: true, ..s1 };
    lemma_section_fluid(b1, s1, m, home, cpus);
    let b3 = after_routes(b2, m);
    let s3 = ListsSeen { midi_inputs: true, audio_outputs: true, internal_outputs: true, ..s2 };
    lemma_section_routes(b2, s2, m, home, cpus);
    let b4 = after_graph(b3, m);
    lemma_section_graph(b3, s3, m, home, cpus);
    let b5 = after_external(b4, m);
    let s5 = ListsSeen { channels: true, ..s3 };
    lemma_section_external(b4, s3, m, home, cpus);
    let b6 = after_percussion(b5, m);
    let s6 = ListsSeen { percussion_notes: true, ..s5 };
    lemma_section_percussion(b5, s5, m, home, cpus);
    let b7 = after_external_rest(b6, m);
    lemma_section_external_rest(b6, s6, m, home, cpus);
    let b8 = after_capture(b7, m);
    lemma_section_capture(b7, s6, m, home, cpus);
    let a1 = lines_synth(m);
    let a2 = a1 + lines_fluid(m);
    let a3 = a2 + lines_routes(m);
    let a4 = a3 + lines_graph(m);
    let a5 = a4 + lines_external(m);
    let a6 = a5 + lines_percussion(m);
    let a7 = a6 + lines_external_rest(m);
    lemma_run_concat(start, s0, a1, lines_fluid(m), home, cpus);
    lemma_run_concat(start, s0, a2, lines_routes(m), home, cpus);
    lemma_run_concat(start, s0, a3, lines_graph(m), home, cpus);
    lemma_run_concat(start, s0, a4, lines_external(m), home, cpus);
    lemma_run_concat(start, s0, a5, lines_percussion(m), home, cpus);
    lemma_run_concat(start, s0, a6, lines_external_rest(m), home, cpus);
    lemma_run_concat(start, s0, a7, lines_capture(m), home, cpus);
}

/// Saved settings read back as themselves: the saved text of settings that
/// can be saved, read over any settings, gives the saved settings; only the
/// FluidSynth preset roots, which the text does not hold, stay as they were.
pub proof fn lemma_saved_text_reads_back(start: ConfigModel, m: ConfigModel, path: Seq<char>, home: Option<Seq<char>>,
    cpus: nat)
    requires
        saveable(m, cpus),
    ensures
        spec_merge(start, config_text(m), path, home, cpus) == Ok::<ConfigModel, Seq<char>>(read_back(start, m)),
{
    lemma_config_lines_read(m, cpus);
    lemma_config_lines_run(start, m, home, cpus);
    let ls = config_lines(m);
    assert(ls.subrange(0, ls.len() as int) =~= ls);
    lemma_run_merge(start, ListsSeen::none(), ls, 0, home, cpus, path);
}

/// Settings that can be saved are saved: the check before saving reads the
/// text back over the built-in settings, and it reads back.
pub proof fn lemma_saveable_saves(m: ConfigModel, path: Seq<char>, home: Option<Seq<char>>, cpus: nat)
    requires
        saveable(m, cpus),
    ensures
        spec_merge(base_model(home), config_text(m), path, home, cpus) is Ok,
{
    lemma_saved_text_reads_back(base_model(home), m, path, home, cpus);
}

} // verus!
