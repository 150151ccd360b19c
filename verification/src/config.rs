//! The runtime configuration: a `KEY=VALUE` text format, the settings it
//! holds, the text it is saved as, and the choice of the stereo pair audio is
//! routed to.
//!
//! Paths are held as their text. The FluidSynth gain is a floating-point
//! setting: it is kept here as the text the file gives, and the application
//! reads and range-checks it.
use vstd::prelude::*;
use crate::chord::NoteNaming;
use crate::text::{
    chars_eq, chars_of, chars_views, debug_quoted, debug_text, decimal, join_with, lower_seq, lower_vec, opt_view, owned,
    parse_unsigned, parse_unsigned_chars, push_decimal, push_str, split_all, split_all_chars,
    split_once, split_once_chars, string_from_chars, trim, trim_chars, views,
};

verus! {

// ---------------------------------------------------------------------------
// Settings
// ---------------------------------------------------------------------------

/// How a synthesizer backend is started and found.
#[derive(Clone, Debug, Default)]
pub struct BackendConfig {
    pub command: String,
    pub client_name: String,
    pub midi_output_match: String,
    pub preset_roots: Vec<String>,
}

#[derive(Clone, Debug)]
pub struct YoshimiConfig {
    pub backend: BackendConfig,
    pub categories: Vec<String>,
    pub presets_per_category: usize,
}

/// The FluidSynth backend; `gain` is the decimal text of the gain setting.
#[derive(Clone, Debug)]
pub struct FluidSynthConfig {
    pub backend: BackendConfig,
    pub soundfonts: Vec<String>,
    pub gain: String,
}

/// Which bank-select controllers precede a program change.
#[derive(Clone, Copy, Debug, PartialEq, Eq, Structural)]
pub enum BankSelectMode {
    Off,
    Cc0,
    Cc0Cc32,
}

/// The external MIDI instrument the tracker drives.
#[derive(Clone, Debug)]
pub struct ExternalMidiConfig {
    pub enabled: bool,
    pub client_name: String,
    pub output_match: String,
    pub max_tracks: usize,
    /// Zero-based MIDI channels.
    pub channels: Vec<u8>,
    pub melody_channel: u8,
    pub percussion_channel: Option<u8>,
    pub percussion_program: Option<u8>,
    /// Controller notes beginning here are translated through
    /// `percussion_notes` while tracker editing.
    pub percussion_input_base: u8,
    pub percussion_notes: Vec<u8>,
    pub bank_select: BankSelectMode,
    pub program_changes: bool,
    pub send_transport: bool,
    pub default_tempo: u16,
    pub default_pattern_rows: usize,
    pub steps_per_beat: u8,
    pub live_thru: bool,
    pub profile: String,
    pub gate_percent: u8,
    pub gesture_settle_ms: u64,
}

#[derive(Clone, Debug)]
pub struct StereoInputConfig {
    pub name: String,
    pub left_port: String,
    pub right_port: String,
}

/// A machine-owned stereo playback route.
#[derive(Clone, Debug, PartialEq, Eq)]
pub struct StereoOutputConfig {
    pub name: String,
    pub left_port: String,
    pub right_port: String,
}

#[derive(Clone, Debug)]
pub struct AudioCaptureConfig {
    pub client_name: String,
    pub directory: String,
    pub inputs: Vec<StereoInputConfig>,
    pub ring_frames: usize,
}

#[derive(Clone, Debug)]
pub struct LoopPlayerConfig {
    pub client_name: String,
    pub outputs: Vec<String>,
    pub import_directory: String,
}

#[derive(Clone, Debug)]
pub struct AudioGraphConfig {
    pub enabled: bool,
    pub client_name: String,
    pub maximum_callback_frames: u32,
}

/// Every runtime setting.
#[derive(Clone, Debug)]
pub struct RuntimeConfig {
    pub synth_command: String,
    pub client_name: String,
    pub preset_dir: Option<String>,
    pub midi_output_match: String,
    pub yoshimi: YoshimiConfig,
    pub fluidsynth: FluidSynthConfig,
    pub startup_timeout_ms: u64,
    pub note_naming: NoteNaming,
    pub midi_autoconnect: bool,
    pub midi_input_matches: Vec<String>,
    pub audio_autoconnect: bool,
    pub audio_outputs: Vec<String>,
    /// Ordered internal-device fallbacks used only when `audio_outputs` is
    /// not visible.
    pub audio_internal_outputs: Vec<StereoOutputConfig>,
    pub audio_headphone_output: Option<StereoOutputConfig>,
    pub audio_graph: AudioGraphConfig,
    /// Optional zero-based CPU reserved for the managed engine.
    pub audio_engine_cpu: Option<usize>,
    pub cpu_temperature_path: Option<String>,
    pub external_midi: ExternalMidiConfig,
    pub capture: AudioCaptureConfig,
    pub loop_player: LoopPlayerConfig,
}

// ---------------------------------------------------------------------------
// The settings as mathematical values
// ---------------------------------------------------------------------------

pub struct BackendModel {
    pub command: Seq<char>,
    pub client_name: Seq<char>,
    pub midi_output_match: Seq<char>,
    pub preset_roots: Seq<Seq<char>>,
}

pub struct YoshimiModel {
    pub backend: BackendModel,
    pub categories: Seq<Seq<char>>,
    pub presets_per_category: usize,
}

pub struct FluidModel {
    pub backend: BackendModel,
    pub soundfonts: Seq<Seq<char>>,
    pub gain: Seq<char>,
}

pub struct ExternalMidiModel {
    pub enabled: bool,
    pub client_name: Seq<char>,
    pub output_match: Seq<char>,
    pub max_tracks: usize,
    pub channels: Seq<u8>,
    pub melody_channel: u8,
    pub percussion_channel: Option<u8>,
    pub percussion_program: Option<u8>,
    pub percussion_input_base: u8,
    pub percussion_notes: Seq<u8>,
    pub bank_select: BankSelectMode,
    pub program_changes: bool,
    pub send_transport: bool,
    pub default_tempo: u16,
    pub default_pattern_rows: usize,
    pub steps_per_beat: u8,
    pub live_thru: bool,
    pub profile: Seq<char>,
    pub gate_percent: u8,
    pub gesture_settle_ms: u64,
}

pub struct StereoModel {
    pub name: Seq<char>,
    pub left_port: Seq<char>,
    pub right_port: Seq<char>,
}

pub struct CaptureModel {
    pub client_name: Seq<char>,
    pub directory: Seq<char>,
    pub inputs: Seq<StereoModel>,
    pub ring_frames: usize,
}

pub struct LoopModel {
    pub client_name: Seq<char>,
    pub outputs: Seq<Seq<char>>,
    pub import_directory: Seq<char>,
}

pub struct GraphModel {
    pub enabled: bool,
    pub client_name: Seq<char>,
    pub maximum_callback_frames: u32,
}

pub struct ConfigModel {
    pub synth_command: Seq<char>,
    pub client_name: Seq<char>,
    pub preset_dir: Option<Seq<char>>,
    pub midi_output_match: Seq<char>,
    pub yoshimi: YoshimiModel,
    pub fluidsynth: FluidModel,
    pub startup_timeout_ms: u64,
    pub note_naming: NoteNaming,
    pub midi_autoconnect: bool,
    pub midi_input_matches: Seq<Seq<char>>,
    pub audio_autoconnect: bool,
    pub audio_outputs: Seq<Seq<char>>,
    pub audio_internal_outputs: Seq<StereoModel>,
    pub audio_headphone_output: Option<StereoModel>,
    pub audio_graph: GraphModel,
    pub audio_engine_cpu: Option<usize>,
    pub cpu_temperature_path: Option<Seq<char>>,
    pub external_midi: ExternalMidiModel,
    pub capture: CaptureModel,
    pub loop_player: LoopModel,
}

impl View for BackendConfig {
    type V = BackendModel;

    open spec fn view(&self) -> BackendModel {
        BackendModel {
            command: self.command@,
            client_name: self.client_name@,
            midi_output_match: self.midi_output_match@,
            preset_roots: views(self.preset_roots@),
        }
    }
}

impl View for YoshimiConfig {
    type V = YoshimiModel;

    open spec fn view(&self) -> YoshimiModel {
        YoshimiModel {
            backend: self.backend@,
            categories: views(self.categories@),
            presets_per_category: self.presets_per_category,
        }
    }
}

impl View for FluidSynthConfig {
    type V = FluidModel;

    open spec fn view(&self) -> FluidModel {
        FluidModel { backend: self.backend@, soundfonts: views(self.soundfonts@), gain: self.gain@ }
    }
}

impl View for ExternalMidiConfig {
    type V = ExternalMidiModel;

    open spec fn view(&self) -> ExternalMidiModel {
        ExternalMidiModel {
            enabled: self.enabled,
            client_name: self.client_name@,
            output_match: self.output_match@,
            max_tracks: self.max_tracks,
            channels: self.channels@,
            melody_channel: self.melody_channel,
            percussion_channel: self.percussion_channel,
            percussion_program: self.percussion_program,
            percussion_input_base: self.percussion_input_base,
            percussion_notes: self.percussion_notes@,
            bank_select: self.bank_select,
            program_changes: self.program_changes,
            send_transport: self.send_transport,
            default_tempo: self.default_tempo,
            default_pattern_rows: self.default_pattern_rows,
            steps_per_beat: self.steps_per_beat,
            live_thru: self.live_thru,
            profile: self.profile@,
            gate_percent: self.gate_percent,
            gesture_settle_ms: self.gesture_settle_ms,
        }
    }
}

impl View for StereoInputConfig {
    type V = StereoModel;

    open spec fn view(&self) -> StereoModel {
        StereoModel { name: self.name@, left_port: self.left_port@, right_port: self.right_port@ }
    }
}

impl View for StereoOutputConfig {
    type V = StereoModel;

    open spec fn view(&self) -> StereoModel {
        StereoModel { name: self.name@, left_port: self.left_port@, right_port: self.right_port@ }
    }
}

pub open spec fn input_views(v: Seq<StereoInputConfig>) -> Seq<StereoModel> {
    Seq::new(v.len(), |i: int| v[i]@)
}

pub open spec fn output_views(v: Seq<StereoOutputConfig>) -> Seq<StereoModel> {
    Seq::new(v.len(), |i: int| v[i]@)
}

pub open spec fn opt_output_view(o: Option<StereoOutputConfig>) -> Option<StereoModel> {
    match o {
        Some(s) => Some(s@),
        None => None,
    }
}

impl View for AudioCaptureConfig {
    type V = CaptureModel;

    open spec fn view(&self) -> CaptureModel {
        CaptureModel {
            client_name: self.client_name@,
            directory: self.directory@,
            inputs: input_views(self.inputs@),
            ring_frames: self.ring_frames,
        }
    }
}

impl View for LoopPlayerConfig {
    type V = LoopModel;

    open spec fn view(&self) -> LoopModel {
        LoopModel {
            client_name: self.client_name@,
            outputs: views(self.outputs@),
            import_directory: self.import_directory@,
        }
    }
}

impl View for AudioGraphConfig {
    type V = GraphModel;

    open spec fn view(&self) -> GraphModel {
        GraphModel {
            enabled: self.enabled,
            client_name: self.client_name@,
            maximum_callback_frames: self.maximum_callback_frames,
        }
    }
}

impl View for RuntimeConfig {
    type V = ConfigModel;

    open spec fn view(&self) -> ConfigModel {
        ConfigModel {
            synth_command: self.synth_command@,
            client_name: self.client_name@,
            preset_dir: opt_view(self.preset_dir),
            midi_output_match: self.midi_output_match@,
            yoshimi: self.yoshimi@,
            fluidsynth: self.fluidsynth@,
            startup_timeout_ms: self.startup_timeout_ms,
            note_naming: self.note_naming,
            midi_autoconnect: self.midi_autoconnect,
            midi_input_matches: views(self.midi_input_matches@),
            audio_autoconnect: self.audio_autoconnect,
            audio_outputs: views(self.audio_outputs@),
            audio_internal_outputs: output_views(self.audio_internal_outputs@),
            audio_headphone_output: opt_output_view(self.audio_headphone_output),
            audio_graph: self.audio_graph@,
            audio_engine_cpu: self.audio_engine_cpu,
            cpu_temperature_path: opt_view(self.cpu_temperature_path),
            external_midi: self.external_midi@,
            capture: self.capture@,
            loop_player: self.loop_player@,
        }
    }
}

// ---------------------------------------------------------------------------
// Values
// ---------------------------------------------------------------------------

/// `value`, or an error when it is empty.
#[verifier::opaque]
pub open spec fn spec_required(key: Seq<char>, value: Seq<char>) -> Result<Seq<char>, Seq<char>> {
    if value.len() == 0 {
        Err(key + " may not be empty"@)
    } else {
        Ok(value)
    }
}

/// The switch `value` names, in any letter case.
#[verifier::opaque]
pub open spec fn spec_boolean(key: Seq<char>, value: Seq<char>) -> Result<bool, Seq<char>> {
    let v = lower_seq(value);
    if v == "true"@ || v == "yes"@ || v == "1"@ || v == "on"@ {
        Ok(true)
    } else if v == "false"@ || v == "no"@ || v == "0"@ || v == "off"@ {
        Ok(false)
    } else {
        Err(key + " must be true or false"@)
    }
}

/// The number `value` gives, when it lies in `min..=max`.
#[verifier::opaque]
pub open spec fn spec_bounded(key: Seq<char>, value: Seq<char>, min: nat, max: nat) -> Result<nat, Seq<char>> {
    match parse_unsigned(value, usize::MAX as int) {
        None => Err(key + " must be a number"@),
        Some(n) => if min <= n <= max {
            Ok(n)
        } else {
            Err(key + " must be "@ + decimal(min) + "..="@ + decimal(max))
        },
    }
}

/// The trimmed `|`-separated field `i` of a stereo route, empty when absent.
pub open spec fn route_field(pieces: Seq<Seq<char>>, i: int) -> Seq<char> {
    if i < pieces.len() { trim(pieces[i]) } else { Seq::empty() }
}

/// A stereo route written `NAME|LEFT|RIGHT`.
#[verifier::opaque]
pub open spec fn spec_stereo(key: Seq<char>, value: Seq<char>) -> Result<StereoModel, Seq<char>> {
    let pieces = split_all(value, '|');
    match spec_required(key, route_field(pieces, 0)) {
        Err(e) => Err(e),
        Ok(name) => match spec_required(key, route_field(pieces, 1)) {
            Err(e) => Err(e),
            Ok(left) => match spec_required(key, route_field(pieces, 2)) {
                Err(e) => Err(e),
                Ok(right) => if pieces.len() > 3 {
                    Err(key + " must be NAME|LEFT_JACK_PORT|RIGHT_JACK_PORT"@)
                } else {
                    Ok(StereoModel { name, left_port: left, right_port: right })
                },
            },
        },
    }
}

pub open spec fn home_view(home: Option<&str>) -> Option<Seq<char>> {
    match home {
        Some(h) => Some(h@),
        None => None,
    }
}

/// `rest` appended to the directory `base`: an absolute `rest` replaces it,
/// a separator is added when `base` does not end in one.
pub open spec fn path_join(base: Seq<char>, rest: Seq<char>) -> Seq<char> {
    if rest.len() > 0 && rest[0] == '/' {
        rest
    } else if base.len() == 0 || base.last() == '/' {
        base + rest
    } else {
        base + "/"@ + rest
    }
}

/// A path with a leading `~/` resolved against the home directory.
#[verifier::opaque]
pub open spec fn expand_home(value: Seq<char>, home: Option<Seq<char>>) -> Seq<char> {
    if value.len() >= 2 && value[0] == '~' && value[1] == '/' && home is Some {
        path_join(home->0, value.subrange(2, value.len() as int))
    } else {
        value
    }
}

/// `libc::CPU_SETSIZE`, the number of CPUs a `cpu_set_t` can name; its
/// value depends on the target (1024 on Linux with glibc).
#[verifier::external_body]
fn cpu_set_size() -> (r: usize)
    ensures
        r >= 1,
{
    libc::CPU_SETSIZE as usize
}

fn is_key(key: &Vec<char>, name: &str) -> (r: bool)
    ensures
        r == (key@ == name@),
{
    let n = chars_of(name);
    chars_eq(key, &n)
}

fn concat_err(key: &Vec<char>, tail: &str) -> (r: String)
    ensures
        r@ == key@ + tail@,
{
    let mut out = string_from_chars(key);
    push_str(&mut out, tail);
    out
}

fn required(key: &Vec<char>, value: &Vec<char>) -> (r: Result<String, String>)
    ensures
        match r {
            Ok(v) => spec_required(key@, value@) == Ok::<Seq<char>, Seq<char>>(v@),
            Err(e) => spec_required(key@, value@) == Err::<Seq<char>, Seq<char>>(e@),
        },
{
    proof {
        reveal(spec_required);
    }
    if value.len() == 0 {
        Err(concat_err(key, " may not be empty"))
    } else {
        Ok(string_from_chars(value))
    }
}

fn boolean(key: &Vec<char>, value: &Vec<char>) -> (r: Result<bool, String>)
    ensures
        match r {
            Ok(b) => spec_boolean(key@, value@) == Ok::<bool, Seq<char>>(b),
            Err(e) => spec_boolean(key@, value@) == Err::<bool, Seq<char>>(e@),
        },
{
    proof {
        reveal(spec_boolean);
    }
    let v = lower_vec(value);
    if is_key(&v, "true") || is_key(&v, "yes") || is_key(&v, "1") || is_key(&v, "on") {
        Ok(true)
    } else if is_key(&v, "false") || is_key(&v, "no") || is_key(&v, "0") || is_key(&v, "off") {
        Ok(false)
    } else {
        Err(concat_err(key, " must be true or false"))
    }
}

fn bounded_usize(key: &Vec<char>, value: &Vec<char>, min: usize, max: usize) -> (r: Result<usize, String>)
    ensures
        match r {
            Ok(n) => spec_bounded(key@, value@, min as nat, max as nat) == Ok::<nat, Seq<char>>(n as nat),
            Err(e) => spec_bounded(key@, value@, min as nat, max as nat) == Err::<nat, Seq<char>>(e@),
        },
        r is Ok ==> min <= r->Ok_0 <= max,
{
    proof {
        reveal(spec_bounded);
    }
    match parse_unsigned_chars(value, usize::MAX as u64) {
        None => Err(concat_err(key, " must be a number")),
        Some(n) => {
            if min as u64 <= n && n <= max as u64 {
                Ok(n as usize)
            } else {
                let mut out = concat_err(key, " must be ");
                push_decimal(&mut out, min as u64);
                push_str(&mut out, "..=");
                push_decimal(&mut out, max as u64);
                Err(out)
            }
        },
    }
}

fn route_field_exec(pieces: &Vec<Vec<char>>, i: usize) -> (r: Vec<char>)
    ensures
        r@ == route_field(chars_views(pieces@), i as int),
{
    if i < pieces.len() {
        trim_chars(&pieces[i])
    } else {
        Vec::new()
    }
}

fn stereo_fields(key: &Vec<char>, value: &Vec<char>) -> (r: Result<(String, String, String), String>)
    ensures
        match r {
            Ok((n, l, rt)) => spec_stereo(key@, value@) == Ok::<StereoModel, Seq<char>>(
                StereoModel { name: n@, left_port: l@, right_port: rt@ }),
            Err(e) => spec_stereo(key@, value@) == Err::<StereoModel, Seq<char>>(e@),
        },
{
    proof {
        reveal(spec_stereo);
    }
    let pieces = split_all_chars(value, '|');
    let name = match required(key, &route_field_exec(&pieces, 0)) {
        Ok(v) => v,
        Err(e) => return Err(e),
    };
    let left = match required(key, &route_field_exec(&pieces, 1)) {
        Ok(v) => v,
        Err(e) => return Err(e),
    };
    let right = match required(key, &route_field_exec(&pieces, 2)) {
        Ok(v) => v,
        Err(e) => return Err(e),
    };
    if pieces.len() > 3 {
        return Err(concat_err(key, " must be NAME|LEFT_JACK_PORT|RIGHT_JACK_PORT"));
    }
    Ok((name, left, right))
}

fn expand_home_exec(value: &Vec<char>, home: Option<&str>) -> (r: String)
    ensures
        r@ == expand_home(value@, home_view(home)),
{
    proof {
        reveal(expand_home);
    }
    if value.len() >= 2 && value[0] == '~' && value[1] == '/' {
        if let Some(h) = home {
            let base = chars_of(h);
            let mut out = String::new();
            if value.len() > 2 && value[2] == '/' {
                let mut i: usize = 2;
                while i < value.len()
                    invariant
                        2 <= i <= value.len(),
                        out@ == value@.subrange(2, i as int),
                    decreases value.len() - i,
                {
                    crate::text::push_char(&mut out, value[i]);
                    assert(value@.subrange(2, i + 1) =~= value@.subrange(2, i as int).push(value@[i as int]));
                    i += 1;
                }
                return out;
            }
            push_str(&mut out, h);
            assert(out@ =~= h@);
            let sep = base.len() > 0 && base[base.len() - 1] != '/';
            if sep {
                crate::text::push_char(&mut out, '/');
            }
            proof {
                reveal_strlit("/");
            }
            let ghost prefix = out@;
            assert(prefix =~= if sep { h@ + "/"@ } else { h@ });
            let mut i: usize = 2;
            while i < value.len()
                invariant
                    2 <= i <= value.len(),
                    out@ == prefix + value@.subrange(2, i as int),
                decreases value.len() - i,
            {
                crate::text::push_char(&mut out, value[i]);
                assert(value@.subrange(2, i + 1) =~= value@.subrange(2, i as int).push(value@[i as int]));
                i += 1;
            }
            proof {
                let rest = value@.subrange(2, value@.len() as int);
                if sep {
                    assert(out@ =~= h@ + "/"@ + rest);
                } else {
                    assert(out@ =~= h@ + rest);
                }
            }
            return out;
        }
    }
    string_from_chars(value)
}


// ---------------------------------------------------------------------------
// One setting
// ---------------------------------------------------------------------------

/// Which list settings a text has already named: the first mention of a
/// list replaces the earlier value, later mentions add to it.
#[derive(Clone, Copy, Debug, PartialEq, Eq, Structural)]
pub struct ListsSeen {
    pub midi_inputs: bool,
    pub audio_outputs: bool,
    pub internal_outputs: bool,
    pub preset_roots: bool,
    pub categories: bool,
    pub soundfonts: bool,
    pub channels: bool,
    pub percussion_notes: bool,
    pub capture_inputs: bool,
    pub loop_outputs: bool,
}

impl ListsSeen {
    pub open spec fn none() -> ListsSeen {
        ListsSeen {
            midi_inputs: false,
            audio_outputs: false,
            internal_outputs: false,
            preset_roots: false,
            categories: false,
            soundfonts: false,
            channels: false,
            percussion_notes: false,
            capture_inputs: false,
            loop_outputs: false,
        }
    }

    fn new() -> (r: ListsSeen)
        ensures
            r == ListsSeen::none(),
    {
        ListsSeen {
            midi_inputs: false,
            audio_outputs: false,
            internal_outputs: false,
            preset_roots: false,
            categories: false,
            soundfonts: false,
            channels: false,
            percussion_notes: false,
            capture_inputs: false,
            loop_outputs: false,
        }
    }
}

/// A list before the item a setting adds: emptied on its first mention.
pub open spec fn list_base<T>(seen: bool, list: Seq<T>) -> Seq<T> {
    if seen { list } else { Seq::empty() }
}

/// A list setting: the (first-mention-emptied) list with `item` added,
/// unless the value is empty.
pub open spec fn list_with<T>(seen: bool, list: Seq<T>, empty: bool, item: T) -> Seq<T> {
    if empty { list_base(seen, list) } else { list_base(seen, list).push(item) }
}

pub type Applied = Option<Result<(ConfigModel, ListsSeen), Seq<char>>>;

/// The settings of the synthesizer, the note names and the preset directory;
/// `None` for other keys.
#[verifier::opaque]
pub open spec fn settings_synth(m: ConfigModel, s: ListsSeen, key: Seq<char>, value: Seq<char>, home: Option<Seq<char>>) -> Applied {
    if key == "synth.command"@ || key == "synthv1.command"@ {
        Some(match spec_required(key, value) {
            Err(e) => Err(e),
            Ok(v) => Ok((ConfigModel { synth_command: v, ..m }, s)),
        })
    } else if key == "synth.client"@ || key == "synthv1.client"@ {
        Some(match spec_required(key, value) {
            Err(e) => Err(e),
            Ok(v) => Ok((ConfigModel { client_name: v, ..m }, s)),
        })
    } else if key == "synth.startup_timeout_ms"@ {
        Some(match parse_unsigned(value, u64::MAX as int) {
            None => Err("startup timeout must be milliseconds"@),
            Some(n) => if n == 0 {
                Err("startup timeout must be greater than zero"@)
            } else {
                Ok((ConfigModel { startup_timeout_ms: n as u64, ..m }, s))
            },
        })
    } else if key == "display.note_names"@ {
        let v = lower_seq(value);
        Some(if v == "german"@ {
            Ok((ConfigModel { note_naming: NoteNaming::German, ..m }, s))
        } else if v == "english"@ {
            Ok((ConfigModel { note_naming: NoteNaming::English, ..m }, s))
        } else {
            Err(key + " must be german or english"@)
        })
    } else if key == "presets.directory"@ || key == "synthv1.presets"@ {
        Some(Ok((ConfigModel {
            preset_dir: if value.len() == 0 { None } else { Some(expand_home(value, home)) },
            ..m
        }, s)))
    } else if key == "synthv1.midi_output"@ || key == "midi.synth_output"@ {
        Some(match spec_required(key, value) {
            Err(e) => Err(e),
            Ok(v) => Ok((ConfigModel { midi_output_match: v, ..m }, s)),
        })
    } else {
        None
    }
}

/// The Yoshimi settings; `None` for other keys.
#[verifier::opaque]
pub open spec fn settings_yoshimi(m: ConfigModel, s: ListsSeen, key: Seq<char>, value: Seq<char>, home: Option<Seq<char>>) -> Applied {
    if key == "yoshimi.command"@ {
        Some(match spec_required(key, value) {
            Err(e) => Err(e),
            Ok(v) => Ok((ConfigModel { yoshimi: YoshimiModel {
                backend: BackendModel { command: v, ..m.yoshimi.backend }, ..m.yoshimi }, ..m }, s)),
        })
    } else if key == "yoshimi.client"@ {
        Some(match spec_required(key, value) {
            Err(e) => Err(e),
            Ok(v) => Ok((ConfigModel { yoshimi: YoshimiModel {
                backend: BackendModel { client_name: v, ..m.yoshimi.backend }, ..m.yoshimi }, ..m }, s)),
        })
    } else if key == "yoshimi.midi_output"@ {
        Some(match spec_required(key, value) {
            Err(e) => Err(e),
            Ok(v) => Ok((ConfigModel { yoshimi: YoshimiModel {
                backend: BackendModel { midi_output_match: v, ..m.yoshimi.backend }, ..m.yoshimi }, ..m }, s)),
        })
    } else {
        None
    }
}

/// The Yoshimi list and count settings; `None` for other keys.
#[verifier::opaque]
pub open spec fn settings_yoshimi_lists(m: ConfigModel, s: ListsSeen, key: Seq<char>, value: Seq<char>, home: Option<Seq<char>>) -> Applied {
    if key == "yoshimi.preset_root"@ {
        let roots = list_with(s.preset_roots, m.yoshimi.backend.preset_roots, value.len() == 0, expand_home(value, home));
        Some(Ok((ConfigModel { yoshimi: YoshimiModel {
            backend: BackendModel { preset_roots: roots, ..m.yoshimi.backend }, ..m.yoshimi }, ..m },
            ListsSeen { preset_roots: true, ..s })))
    } else if key == "yoshimi.category"@ {
        let categories = list_with(s.categories, m.yoshimi.categories, value.len() == 0, lower_seq(value));
        Some(Ok((ConfigModel { yoshimi: YoshimiModel { categories, ..m.yoshimi }, ..m },
            ListsSeen { categories: true, ..s })))
    } else if key == "yoshimi.presets_per_category"@ {
        Some(match parse_unsigned(value, usize::MAX as int) {
            None => Err("Yoshimi presets per category must be a number"@),
            Some(n) => if n == 0 {
                Err("Yoshimi presets per category must be greater than zero"@)
            } else {
                Ok((ConfigModel { yoshimi: YoshimiModel { presets_per_category: n as usize, ..m.yoshimi }, ..m }, s))
            },
        })
    } else {
        None
    }
}

/// What applying a group of settings did: nothing for a key of another
/// group, else the new settings or the error.
pub open spec fn applied_as(r: Option<Result<(), String>>, spec: Applied, before: ConfigModel, after: ConfigModel,
    seen_before: ListsSeen, seen_after: ListsSeen) -> bool {
    match spec {
        None => r is None && after == before && seen_after == seen_before,
        Some(Ok((m, s))) => r == Some(Ok::<(), String>(())) && after == m && seen_after == s,
        Some(Err(e)) => r matches Some(Err(x)) && x@ == e,
    }
}

/// A list setting: `list` emptied unless `seen`, then `item` added.
fn list_setting(list: &Vec<String>, seen: bool, item: Option<String>) -> (r: Vec<String>)
    ensures
        views(r@) == match item {
            None => list_base(seen, views(list@)),
            Some(s) => list_base(seen, views(list@)).push(s@),
        },
{
    let mut out: Vec<String> = Vec::new();
    if seen {
        let mut i: usize = 0;
        while i < list.len()
            invariant
                i <= list.len(),
                views(out@) == views(list@).take(i as int),
            decreases list.len() - i,
        {
            let c = list[i].clone();
            let ghost before = out@;
            out.push(c);
            assert(out@ == before.push(list@[i as int]));
            assert(views(out@) =~= views(before).push(list@[i as int]@));
            assert(views(list@).take(i + 1) =~= views(list@).take(i as int).push(list@[i as int]@));
            i += 1;
        }
        assert(views(list@).take(list.len() as int) =~= views(list@));
    } else {
        assert(views(out@) =~= Seq::<Seq<char>>::empty());
    }
    let ghost base = views(out@);
    if let Some(s) = item {
        out.push(s);
        assert(views(out@) =~= base.push(s@));
    }
    out
}

fn apply_synth(cfg: &mut RuntimeConfig, seen: &mut ListsSeen, key: &Vec<char>, value: &Vec<char>, home: Option<&str>)
    -> (r: Option<Result<(), String>>)
    ensures
        applied_as(r, settings_synth(old(cfg)@, *old(seen), key@, value@, home_view(home)),
            old(cfg)@, final(cfg)@, *old(seen), *final(seen)),
{
    proof {
        reveal(settings_synth);
    }
    if is_key(key, "synth.command") || is_key(key, "synthv1.command") {
        match required(key, value) {
            Err(e) => Some(Err(e)),
            Ok(v) => { cfg.synth_command = v; Some(Ok(())) },
        }
    } else if is_key(key, "synth.client") || is_key(key, "synthv1.client") {
        match required(key, value) {
            Err(e) => Some(Err(e)),
            Ok(v) => { cfg.client_name = v; Some(Ok(())) },
        }
    } else if is_key(key, "synth.startup_timeout_ms") {
        match parse_unsigned_chars(value, u64::MAX) {
            None => Some(Err(owned("startup timeout must be milliseconds"))),
            Some(n) => if n == 0 {
                Some(Err(owned("startup timeout must be greater than zero")))
            } else {
                cfg.startup_timeout_ms = n;
                Some(Ok(()))
            },
        }
    } else if is_key(key, "display.note_names") {
        let v = lower_vec(value);
        if is_key(&v, "german") {
            cfg.note_naming = NoteNaming::German;
            Some(Ok(()))
        } else if is_key(&v, "english") {
            cfg.note_naming = NoteNaming::English;
            Some(Ok(()))
        } else {
            Some(Err(concat_err(key, " must be german or english")))
        }
    } else if is_key(key, "presets.directory") || is_key(key, "synthv1.presets") {
        cfg.preset_dir = if value.len() == 0 { None } else { Some(expand_home_exec(value, home)) };
        Some(Ok(()))
    } else if is_key(key, "synthv1.midi_output") || is_key(key, "midi.synth_output") {
        match required(key, value) {
            Err(e) => Some(Err(e)),
            Ok(v) => { cfg.midi_output_match = v; Some(Ok(())) },
        }
    } else {
        None
    }
}

fn apply_yoshimi(cfg: &mut RuntimeConfig, seen: &mut ListsSeen, key: &Vec<char>, value: &Vec<char>, home: Option<&str>)
    -> (r: Option<Result<(), String>>)
    ensures
        applied_as(r, settings_yoshimi(old(cfg)@, *old(seen), key@, value@, home_view(home)),
            old(cfg)@, final(cfg)@, *old(seen), *final(seen)),
{
    proof {
        reveal(settings_yoshimi);
    }
    if is_key(key, "yoshimi.command") {
        match required(key, value) {
            Err(e) => Some(Err(e)),
            Ok(v) => { cfg.yoshimi.backend.command = v; Some(Ok(())) },
        }
    } else if is_key(key, "yoshimi.client") {
        match required(key, value) {
            Err(e) => Some(Err(e)),
            Ok(v) => { cfg.yoshimi.backend.client_name = v; Some(Ok(())) },
        }
    } else if is_key(key, "yoshimi.midi_output") {
        match required(key, value) {
            Err(e) => Some(Err(e)),
            Ok(v) => { cfg.yoshimi.backend.midi_output_match = v; Some(Ok(())) },
        }
    } else {
        None
    }
}

fn apply_yoshimi_lists(cfg: &mut RuntimeConfig, seen: &mut ListsSeen, key: &Vec<char>, value: &Vec<char>, home: Option<&str>)
    -> (r: Option<Result<(), String>>)
    ensures
        applied_as(r, settings_yoshimi_lists(old(cfg)@, *old(seen), key@, value@, home_view(home)),
            old(cfg)@, final(cfg)@, *old(seen), *final(seen)),
{
    proof {
        reveal(settings_yoshimi_lists);
    }
    if is_key(key, "yoshimi.preset_root") {
        let item = if value.len() > 0 { Some(expand_home_exec(value, home)) } else { None };
        cfg.yoshimi.backend.preset_roots = list_setting(&cfg.yoshimi.backend.preset_roots, seen.preset_roots, item);
        seen.preset_roots = true;
        Some(Ok(()))
    } else if is_key(key, "yoshimi.category") {
        let item = if value.len() > 0 { Some(string_from_chars(&lower_vec(value))) } else { None };
        cfg.yoshimi.categories = list_setting(&cfg.yoshimi.categories, seen.categories, item);
        seen.categories = true;
        Some(Ok(()))
    } else if is_key(key, "yoshimi.presets_per_category") {
        match parse_unsigned_chars(value, usize::MAX as u64) {
            None => Some(Err(owned("Yoshimi presets per category must be a number"))),
            Some(n) => if n == 0 {
                Some(Err(owned("Yoshimi presets per category must be greater than zero")))
            } else {
                cfg.yoshimi.presets_per_category = n as usize;
                Some(Ok(()))
            },
        }
    } else {
        None
    }
}


/// A list setting of bytes.
fn byte_list_setting(list: &Vec<u8>, seen: bool, item: Option<u8>) -> (r: Vec<u8>)
    ensures
        r@ == match item {
            None => list_base(seen, list@),
            Some(b) => list_base(seen, list@).push(b),
        },
{
    let mut out: Vec<u8> = Vec::new();
    if seen {
        let mut i: usize = 0;
        while i < list.len()
            invariant
                i <= list.len(),
                out@ == list@.take(i as int),
            decreases list.len() - i,
        {
            out.push(list[i]);
            assert(out@ =~= list@.take(i + 1));
            i += 1;
        }
        assert(list@.take(list.len() as int) =~= list@);
    } else {
        assert(out@ =~= Seq::<u8>::empty());
    }
    if let Some(b) = item {
        out.push(b);
    }
    out
}

/// The route a stereo list setting adds: none for an empty value.
#[verifier::opaque]
pub open spec fn spec_stereo_item(key: Seq<char>, value: Seq<char>) -> Result<Option<StereoModel>, Seq<char>> {
    if value.len() == 0 {
        Ok(None)
    } else {
        match spec_stereo(key, value) {
            Err(e) => Err(e),
            Ok(route) => Ok(Some(route)),
        }
    }
}

fn stereo_item(key: &Vec<char>, value: &Vec<char>) -> (r: Result<Option<(String, String, String)>, String>)
    ensures
        match r {
            Ok(None) => spec_stereo_item(key@, value@) == Ok::<Option<StereoModel>, Seq<char>>(None),
            Ok(Some((n, l, rt))) => spec_stereo_item(key@, value@) == Ok::<Option<StereoModel>, Seq<char>>(
                Some(StereoModel { name: n@, left_port: l@, right_port: rt@ })),
            Err(e) => spec_stereo_item(key@, value@) == Err::<Option<StereoModel>, Seq<char>>(e@),
        },
{
    proof {
        reveal(spec_stereo_item);
    }
    if value.len() == 0 {
        Ok(None)
    } else {
        match stereo_fields(key, value) {
            Err(e) => Err(e),
            Ok(fields) => Ok(Some(fields)),
        }
    }
}

fn copy_string(s: &String) -> (r: String)
    ensures
        r@ == s@,
{
    s.clone()
}

/// A list setting of stereo outputs.
fn output_list_setting(list: &Vec<StereoOutputConfig>, seen: bool, item: Option<(String, String, String)>)
    -> (r: Vec<StereoOutputConfig>)
    ensures
        output_views(r@) == match item {
            None => list_base(seen, output_views(list@)),
            Some((n, l, rt)) => list_base(seen, output_views(list@)).push(
                StereoModel { name: n@, left_port: l@, right_port: rt@ }),
        },
{
    let mut out: Vec<StereoOutputConfig> = Vec::new();
    if seen {
        let mut i: usize = 0;
        while i < list.len()
            invariant
                i <= list.len(),
                output_views(out@) == output_views(list@).take(i as int),
            decreases list.len() - i,
        {
            let o = StereoOutputConfig {
                name: copy_string(&list[i].name),
                left_port: copy_string(&list[i].left_port),
                right_port: copy_string(&list[i].right_port),
            };
            let ghost before = out@;
            out.push(o);
            assert(output_views(out@) =~= output_views(before).push(list@[i as int]@));
            assert(output_views(list@).take(i + 1) =~= output_views(list@).take(i as int).push(list@[i as int]@));
            i += 1;
        }
        assert(output_views(list@).take(list.len() as int) =~= output_views(list@));
    } else {
        assert(output_views(out@) =~= Seq::<StereoModel>::empty());
    }
    let ghost base = output_views(out@);
    if let Some((name, left_port, right_port)) = item {
        out.push(StereoOutputConfig { name, left_port, right_port });
        assert(output_views(out@) =~= base.push(out@.last()@));
    }
    out
}

/// A list setting of stereo inputs.
fn input_list_setting(list: &Vec<StereoInputConfig>, seen: bool, item: Option<(String, String, String)>)
    -> (r: Vec<StereoInputConfig>)
    ensures
        input_views(r@) == match item {
            None => list_base(seen, input_views(list@)),
            Some((n, l, rt)) => list_base(seen, input_views(list@)).push(
                StereoModel { name: n@, left_port: l@, right_port: rt@ }),
        },
{
    let mut out: Vec<StereoInputConfig> = Vec::new();
    if seen {
        let mut i: usize = 0;
        while i < list.len()
            invariant
                i <= list.len(),
                input_views(out@) == input_views(list@).take(i as int),
            decreases list.len() - i,
        {
            let o = StereoInputConfig {
                name: copy_string(&list[i].name),
                left_port: copy_string(&list[i].left_port),
                right_port: copy_string(&list[i].right_port),
            };
            let ghost before = out@;
            out.push(o);
            assert(input_views(out@) =~= input_views(before).push(list@[i as int]@));
            assert(input_views(list@).take(i + 1) =~= input_views(list@).take(i as int).push(list@[i as int]@));
            i += 1;
        }
        assert(input_views(list@).take(list.len() as int) =~= input_views(list@));
    } else {
        assert(input_views(out@) =~= Seq::<StereoModel>::empty());
    }
    let ghost base = input_views(out@);
    if let Some((name, left_port, right_port)) = item {
        out.push(StereoInputConfig { name, left_port, right_port });
        assert(input_views(out@) =~= base.push(out@.last()@));
    }
    out
}

/// The FluidSynth settings; `None` for other keys. The gain is kept as
/// written.
#[verifier::opaque]
pub open spec fn settings_fluid(m: ConfigModel, s: ListsSeen, key: Seq<char>, value: Seq<char>, home: Option<Seq<char>>) -> Applied {
    if key == "fluidsynth.command"@ {
        Some(match spec_required(key, value) {
            Err(e) => Err(e),
            Ok(v) => Ok((ConfigModel { fluidsynth: FluidModel {
                backend: BackendModel { command: v, ..m.fluidsynth.backend }, ..m.fluidsynth }, ..m }, s)),
        })
    } else if key == "fluidsynth.client"@ {
        Some(match spec_required(key, value) {
            Err(e) => Err(e),
            Ok(v) => Ok((ConfigModel { fluidsynth: FluidModel {
                backend: BackendModel { client_name: v, ..m.fluidsynth.backend }, ..m.fluidsynth }, ..m }, s)),
        })
    } else if key == "fluidsynth.midi_output"@ {
        Some(match spec_required(key, value) {
            Err(e) => Err(e),
            Ok(v) => Ok((ConfigModel { fluidsynth: FluidModel {
                backend: BackendModel { midi_output_match: v, ..m.fluidsynth.backend }, ..m.fluidsynth }, ..m }, s)),
        })
    } else if key == "fluidsynth.gain"@ {
        Some(Ok((ConfigModel { fluidsynth: FluidModel { gain: value, ..m.fluidsynth }, ..m }, s)))
    } else if key == "fluidsynth.soundfont"@ {
        let fonts = list_with(s.soundfonts, m.fluidsynth.soundfonts, value.len() == 0, expand_home(value, home));
        Some(Ok((ConfigModel { fluidsynth: FluidModel { soundfonts: fonts, ..m.fluidsynth }, ..m },
            ListsSeen { soundfonts: true, ..s })))
    } else {
        None
    }
}

fn apply_fluid(cfg: &mut RuntimeConfig, seen: &mut ListsSeen, key: &Vec<char>, value: &Vec<char>, home: Option<&str>)
    -> (r: Option<Result<(), String>>)
    ensures
        applied_as(r, settings_fluid(old(cfg)@, *old(seen), key@, value@, home_view(home)),
            old(cfg)@, final(cfg)@, *old(seen), *final(seen)),
{
    proof {
        reveal(settings_fluid);
    }
    if is_key(key, "fluidsynth.command") {
        match required(key, value) {
            Err(e) => Some(Err(e)),
            Ok(v) => { cfg.fluidsynth.backend.command = v; Some(Ok(())) },
        }
    } else if is_key(key, "fluidsynth.client") {
        match required(key, value) {
            Err(e) => Some(Err(e)),
            Ok(v) => { cfg.fluidsynth.backend.client_name = v; Some(Ok(())) },
        }
    } else if is_key(key, "fluidsynth.midi_output") {
        match required(key, value) {
            Err(e) => Some(Err(e)),
            Ok(v) => { cfg.fluidsynth.backend.midi_output_match = v; Some(Ok(())) },
        }
    } else if is_key(key, "fluidsynth.gain") {
        cfg.fluidsynth.gain = string_from_chars(value);
        Some(Ok(()))
    } else if is_key(key, "fluidsynth.soundfont") {
        let item = if value.len() > 0 { Some(expand_home_exec(value, home)) } else { None };
        cfg.fluidsynth.soundfonts = list_setting(&cfg.fluidsynth.soundfonts, seen.soundfonts, item);
        seen.soundfonts = true;
        Some(Ok(()))
    } else {
        None
    }
}

/// The MIDI input settings; `None` for other keys.
#[verifier::opaque]
pub open spec fn settings_routes(m: ConfigModel, s: ListsSeen, key: Seq<char>, value: Seq<char>) -> Applied {
    if key == "midi.autoconnect"@ {
        Some(match spec_boolean(key, value) {
            Err(e) => Err(e),
            Ok(b) => Ok((ConfigModel { midi_autoconnect: b, ..m }, s)),
        })
    } else if key == "midi.input"@ {
        Some(Ok((ConfigModel { midi_input_matches: list_with(s.midi_inputs, m.midi_input_matches, value.len() == 0, value), ..m },
            ListsSeen { midi_inputs: true, ..s })))
    } else {
        None
    }
}

/// The audio output settings; `None` for other keys.
#[verifier::opaque]
pub open spec fn settings_outputs(m: ConfigModel, s: ListsSeen, key: Seq<char>, value: Seq<char>) -> Applied {
    if key == "audio.autoconnect"@ {
        Some(match spec_boolean(key, value) {
            Err(e) => Err(e),
            Ok(b) => Ok((ConfigModel { audio_autoconnect: b, ..m }, s)),
        })
    } else if key == "audio.output"@ {
        Some(Ok((ConfigModel { audio_outputs: list_with(s.audio_outputs, m.audio_outputs, value.len() == 0, value), ..m },
            ListsSeen { audio_outputs: true, ..s })))
    } else {
        None
    }
}

/// The internal stereo output setting; `None` for other keys.
#[verifier::opaque]
pub open spec fn settings_fallbacks(m: ConfigModel, s: ListsSeen, key: Seq<char>, value: Seq<char>) -> Applied {
    if key == "audio.internal_output"@ {
        Some(match spec_stereo_item(key, value) {
            Err(e) => Err(e),
            Ok(item) => Ok((ConfigModel {
                audio_internal_outputs: list_with(s.internal_outputs, m.audio_internal_outputs, item is None, item->0),
                ..m }, ListsSeen { internal_outputs: true, ..s })),
        })
    } else {
        None
    }
}

/// The headphone output setting; `None` for other keys.
#[verifier::opaque]
pub open spec fn settings_headphones(m: ConfigModel, s: ListsSeen, key: Seq<char>, value: Seq<char>) -> Applied {
    if key == "audio.headphone_output"@ {
        Some(if value.len() == 0 {
            Ok((ConfigModel { audio_headphone_output: None, ..m }, s))
        } else {
            match spec_stereo(key, value) {
                Err(e) => Err(e),
                Ok(route) => Ok((ConfigModel { audio_headphone_output: Some(route), ..m }, s)),
            }
        })
    } else {
        None
    }
}

fn apply_routes(cfg: &mut RuntimeConfig, seen: &mut ListsSeen, key: &Vec<char>, value: &Vec<char>)
    -> (r: Option<Result<(), String>>)
    ensures
        applied_as(r, settings_routes(old(cfg)@, *old(seen), key@, value@),
            old(cfg)@, final(cfg)@, *old(seen), *final(seen)),
{
    proof {
        reveal(settings_routes);
    }
    if is_key(key, "midi.autoconnect") {
        match boolean(key, value) {
            Err(e) => Some(Err(e)),
            Ok(b) => { cfg.midi_autoconnect = b; Some(Ok(())) },
        }
    } else if is_key(key, "midi.input") {
        let item = if value.len() > 0 { Some(string_from_chars(value)) } else { None };
        cfg.midi_input_matches = list_setting(&cfg.midi_input_matches, seen.midi_inputs, item);
        seen.midi_inputs = true;
        Some(Ok(()))
    } else {
        None
    }
}

fn apply_outputs(cfg: &mut RuntimeConfig, seen: &mut ListsSeen, key: &Vec<char>, value: &Vec<char>)
    -> (r: Option<Result<(), String>>)
    ensures
        applied_as(r, settings_outputs(old(cfg)@, *old(seen), key@, value@),
            old(cfg)@, final(cfg)@, *old(seen), *final(seen)),
{
    proof {
        reveal(settings_outputs);
    }
    if is_key(key, "audio.autoconnect") {
        match boolean(key, value) {
            Err(e) => Some(Err(e)),
            Ok(b) => { cfg.audio_autoconnect = b; Some(Ok(())) },
        }
    } else if is_key(key, "audio.output") {
        let item = if value.len() > 0 { Some(string_from_chars(value)) } else { None };
        cfg.audio_outputs = list_setting(&cfg.audio_outputs, seen.audio_outputs, item);
        seen.audio_outputs = true;
        Some(Ok(()))
    } else {
        None
    }
}

fn apply_fallbacks(cfg: &mut RuntimeConfig, seen: &mut ListsSeen, key: &Vec<char>, value: &Vec<char>)
    -> (r: Option<Result<(), String>>)
    ensures
        applied_as(r, settings_fallbacks(old(cfg)@, *old(seen), key@, value@),
            old(cfg)@, final(cfg)@, *old(seen), *final(seen)),
{
    proof {
        reveal(settings_fallbacks);
    }
    if is_key(key, "audio.internal_output") {
        match stereo_item(key, value) {
            Err(e) => Some(Err(e)),
            Ok(item) => {
                cfg.audio_internal_outputs = output_list_setting(&cfg.audio_internal_outputs, seen.internal_outputs, item);
                seen.internal_outputs = true;
                Some(Ok(()))
            },
        }
    } else {
        None
    }
}

fn apply_headphones(cfg: &mut RuntimeConfig, seen: &mut ListsSeen, key: &Vec<char>, value: &Vec<char>)
    -> (r: Option<Result<(), String>>)
    ensures
        applied_as(r, settings_headphones(old(cfg)@, *old(seen), key@, value@),
            old(cfg)@, final(cfg)@, *old(seen), *final(seen)),
{
    proof {
        reveal(settings_headphones);
    }
    if is_key(key, "audio.headphone_output") {
        if value.len() == 0 {
            cfg.audio_headphone_output = None;
            Some(Ok(()))
        } else {
            match stereo_fields(key, value) {
                Err(e) => Some(Err(e)),
                Ok((name, left_port, right_port)) => {
                    cfg.audio_headphone_output = Some(StereoOutputConfig { name, left_port, right_port });
                    Some(Ok(()))
                },
            }
        }
    } else {
        None
    }
}

/// The audio graph, engine CPU and temperature-path settings; `None` for
/// other keys. `cpus` is the number of CPUs a CPU set can name.
#[verifier::opaque]
pub open spec fn settings_engine(m: ConfigModel, s: ListsSeen, key: Seq<char>, value: Seq<char>, home: Option<Seq<char>>, cpus: nat) -> Applied {
    if key == "audio.graph.enabled"@ {
        Some(match spec_boolean(key, value) {
            Err(e) => Err(e),
            Ok(b) => Ok((ConfigModel { audio_graph: GraphModel { enabled: b, ..m.audio_graph }, ..m }, s)),
        })
    } else if key == "audio.graph.client"@ {
        Some(match spec_required(key, value) {
            Err(e) => Err(e),
            Ok(v) => Ok((ConfigModel { audio_graph: GraphModel { client_name: v, ..m.audio_graph }, ..m }, s)),
        })
    } else if key == "audio.graph.maximum_callback_frames"@ {
        Some(match spec_bounded(key, value, 1, 4096) {
            Err(e) => Err(e),
            Ok(n) => Ok((ConfigModel { audio_graph: GraphModel { maximum_callback_frames: n as u32, ..m.audio_graph }, ..m }, s)),
        })
    } else if key == "audio.engine_cpu"@ {
        Some(if value.len() == 0 {
            Ok((ConfigModel { audio_engine_cpu: None, ..m }, s))
        } else {
            match spec_bounded(key, value, 0, (cpus - 1) as nat) {
                Err(e) => Err(e),
                Ok(n) => Ok((ConfigModel { audio_engine_cpu: Some(n as usize), ..m }, s)),
            }
        })
    } else if key == "status.cpu_temperature_path"@ {
        Some(Ok((ConfigModel {
            cpu_temperature_path: if value.len() == 0 { None } else { Some(expand_home(value, home)) },
            ..m
        }, s)))
    } else {
        None
    }
}

fn apply_engine(cfg: &mut RuntimeConfig, seen: &mut ListsSeen, key: &Vec<char>, value: &Vec<char>, home: Option<&str>, cpus: usize)
    -> (r: Option<Result<(), String>>)
    requires
        cpus >= 1,
    ensures
        applied_as(r, settings_engine(old(cfg)@, *old(seen), key@, value@, home_view(home), cpus as nat),
            old(cfg)@, final(cfg)@, *old(seen), *final(seen)),
{
    proof {
        reveal(settings_engine);
    }
    if is_key(key, "audio.graph.enabled") {
        match boolean(key, value) {
            Err(e) => Some(Err(e)),
            Ok(b) => { cfg.audio_graph.enabled = b; Some(Ok(())) },
        }
    } else if is_key(key, "audio.graph.client") {
        match required(key, value) {
            Err(e) => Some(Err(e)),
            Ok(v) => { cfg.audio_graph.client_name = v; Some(Ok(())) },
        }
    } else if is_key(key, "audio.graph.maximum_callback_frames") {
        match bounded_usize(key, value, 1, 4096) {
            Err(e) => Some(Err(e)),
            Ok(n) => { cfg.audio_graph.maximum_callback_frames = n as u32; Some(Ok(())) },
        }
    } else if is_key(key, "audio.engine_cpu") {
        if value.len() == 0 {
            cfg.audio_engine_cpu = None;
            Some(Ok(()))
        } else {
            match bounded_usize(key, value, 0, cpus - 1) {
                Err(e) => Some(Err(e)),
                Ok(n) => { cfg.audio_engine_cpu = Some(n); Some(Ok(())) },
            }
        }
    } else if is_key(key, "status.cpu_temperature_path") {
        cfg.cpu_temperature_path = if value.len() == 0 { None } else { Some(expand_home_exec(value, home)) };
        Some(Ok(()))
    } else {
        None
    }
}

/// The external instrument's switch, client, output and track count; `None` for other keys.
#[verifier::opaque]
pub open spec fn settings_external_1(m: ConfigModel, s: ListsSeen, key: Seq<char>, value: Seq<char>) -> Applied {
    if key == "external_midi.enabled"@ {
        Some(match spec_boolean(key, value) {
            Err(e) => Err(e),
            Ok(b) => Ok((ConfigModel { external_midi: ExternalMidiModel { enabled: b, ..m.external_midi }, ..m }, s)),
        })
    } else if key == "external_midi.client"@ {
        Some(match spec_required(key, value) {
            Err(e) => Err(e),
            Ok(v) => Ok((ConfigModel { external_midi: ExternalMidiModel { client_name: v, ..m.external_midi }, ..m }, s)),
        })
    } else if key == "external_midi.output"@ {
        Some(Ok((ConfigModel { external_midi: ExternalMidiModel { output_match: value, ..m.external_midi }, ..m }, s)))
    } else if key == "external_midi.max_tracks"@ {
        Some(match spec_bounded(key, value, 1, 16) {
            Err(e) => Err(e),
            Ok(n) => Ok((ConfigModel { external_midi: ExternalMidiModel { max_tracks: n as usize, ..m.external_midi }, ..m }, s)),
        })
    } else {
        None
    }
}

fn apply_external_1(cfg: &mut RuntimeConfig, seen: &mut ListsSeen, key: &Vec<char>, value: &Vec<char>)
    -> (r: Option<Result<(), String>>)
    ensures
        applied_as(r, settings_external_1(old(cfg)@, *old(seen), key@, value@),
            old(cfg)@, final(cfg)@, *old(seen), *final(seen)),
{
    proof {
        reveal(settings_external_1);
    }
    if is_key(key, "external_midi.enabled") {
        match boolean(key, value) {
            Err(e) => Some(Err(e)),
            Ok(b) => { cfg.external_midi.enabled = b; Some(Ok(())) },
        }
    } else if is_key(key, "external_midi.client") {
        match required(key, value) {
            Err(e) => Some(Err(e)),
            Ok(v) => { cfg.external_midi.client_name = v; Some(Ok(())) },
        }
    } else if is_key(key, "external_midi.output") {
        cfg.external_midi.output_match = string_from_chars(value);
        Some(Ok(()))
    } else if is_key(key, "external_midi.max_tracks") {
        match bounded_usize(key, value, 1, 16) {
            Err(e) => Some(Err(e)),
            Ok(n) => { cfg.external_midi.max_tracks = n; Some(Ok(())) },
        }
    } else {
        None
    }
}

/// The external instrument's melody channel and percussion channel, program and input base; `None` for other keys.
#[verifier::opaque]
pub open spec fn settings_external_2(m: ConfigModel, s: ListsSeen, key: Seq<char>, value: Seq<char>) -> Applied {
    if key == "external_midi.melody_channel"@ {
        Some(match spec_bounded(key, value, 1, 16) {
            Err(e) => Err(e),
            Ok(n) => Ok((ConfigModel { external_midi: ExternalMidiModel { melody_channel: (n - 1) as u8, ..m.external_midi }, ..m }, s)),
        })
    } else if key == "external_midi.percussion_channel"@ {
        Some(if value.len() == 0 {
            Ok((ConfigModel { external_midi: ExternalMidiModel { percussion_channel: None, ..m.external_midi }, ..m }, s))
        } else {
            match spec_bounded(key, value, 1, 16) {
                Err(e) => Err(e),
                Ok(n) => Ok((ConfigModel { external_midi: ExternalMidiModel { percussion_channel: Some((n - 1) as u8), ..m.external_midi }, ..m }, s)),
            }
        })
    } else if key == "external_midi.percussion_program"@ {
        Some(if value.len() == 0 {
            Ok((ConfigModel { external_midi: ExternalMidiModel { percussion_program: None, ..m.external_midi }, ..m }, s))
        } else {
            match spec_bounded(key, value, 0, 127) {
                Err(e) => Err(e),
                Ok(n) => Ok((ConfigModel { external_midi: ExternalMidiModel { percussion_program: Some(n as u8), ..m.external_midi }, ..m }, s)),
            }
        })
    } else if key == "external_midi.percussion_input_base"@ {
        Some(match spec_bounded(key, value, 0, 127) {
            Err(e) => Err(e),
            Ok(n) => Ok((ConfigModel { external_midi: ExternalMidiModel { percussion_input_base: n as u8, ..m.external_midi }, ..m }, s)),
        })
    } else {
        None
    }
}

fn apply_external_2(cfg: &mut RuntimeConfig, seen: &mut ListsSeen, key: &Vec<char>, value: &Vec<char>)
    -> (r: Option<Result<(), String>>)
    ensures
        applied_as(r, settings_external_2(old(cfg)@, *old(seen), key@, value@),
            old(cfg)@, final(cfg)@, *old(seen), *final(seen)),
{
    proof {
        reveal(settings_external_2);
    }
    if is_key(key, "external_midi.melody_channel") {
        match bounded_usize(key, value, 1, 16) {
            Err(e) => Some(Err(e)),
            Ok(n) => { cfg.external_midi.melody_channel = (n - 1) as u8; Some(Ok(())) },
        }
    } else if is_key(key, "external_midi.percussion_channel") {
        if value.len() == 0 {
            cfg.external_midi.percussion_channel = None;
            Some(Ok(()))
        } else {
            match bounded_usize(key, value, 1, 16) {
                Err(e) => Some(Err(e)),
                Ok(n) => { cfg.external_midi.percussion_channel = Some((n - 1) as u8); Some(Ok(())) },
            }
        }
    } else if is_key(key, "external_midi.percussion_program") {
        if value.len() == 0 {
            cfg.external_midi.percussion_program = None;
            Some(Ok(()))
        } else {
            match bounded_usize(key, value, 0, 127) {
                Err(e) => Some(Err(e)),
                Ok(n) => { cfg.external_midi.percussion_program = Some(n as u8); Some(Ok(())) },
            }
        }
    } else if is_key(key, "external_midi.percussion_input_base") {
        match bounded_usize(key, value, 0, 127) {
            Err(e) => Some(Err(e)),
            Ok(n) => { cfg.external_midi.percussion_input_base = n as u8; Some(Ok(())) },
        }
    } else {
        None
    }
}

/// The external instrument's bank select, program changes, transport, tempo and rows; `None` for other keys.
#[verifier::opaque]
pub open spec fn settings_external_3(m: ConfigModel, s: ListsSeen, key: Seq<char>, value: Seq<char>) -> Applied {
    if key == "external_midi.bank_select"@ {
        let v = lower_seq(value);
        Some(if v == "off"@ {
            Ok((ConfigModel { external_midi: ExternalMidiModel { bank_select: BankSelectMode::Off, ..m.external_midi }, ..m }, s))
        } else if v == "cc0"@ {
            Ok((ConfigModel { external_midi: ExternalMidiModel { bank_select: BankSelectMode::Cc0, ..m.external_midi }, ..m }, s))
        } else if v == "cc0+cc32"@ || v == "cc0_cc32"@ {
            Ok((ConfigModel { external_midi: ExternalMidiModel { bank_select: BankSelectMode::Cc0Cc32, ..m.external_midi }, ..m }, s))
        } else {
            Err(key + " must be off, cc0, or cc0+cc32"@)
        })
    } else if key == "external_midi.program_changes"@ {
        Some(match spec_boolean(key, value) {
            Err(e) => Err(e),
            Ok(b) => Ok((ConfigModel { external_midi: ExternalMidiModel { program_changes: b, ..m.external_midi }, ..m }, s)),
        })
    } else if key == "external_midi.send_transport"@ {
        Some(match spec_boolean(key, value) {
            Err(e) => Err(e),
            Ok(b) => Ok((ConfigModel { external_midi: ExternalMidiModel { send_transport: b, ..m.external_midi }, ..m }, s)),
        })
    } else if key == "external_midi.default_tempo"@ {
        Some(match spec_bounded(key, value, 20, 300) {
            Err(e) => Err(e),
            Ok(n) => Ok((ConfigModel { external_midi: ExternalMidiModel { default_tempo: n as u16, ..m.external_midi }, ..m }, s)),
        })
    } else if key == "external_midi.pattern_rows"@ {
        Some(match spec_bounded(key, value, 1, 256) {
            Err(e) => Err(e),
            Ok(n) => Ok((ConfigModel { external_midi: ExternalMidiModel { default_pattern_rows: n as usize, ..m.external_midi }, ..m }, s)),
        })
    } else {
        None
    }
}

fn apply_external_3(cfg: &mut RuntimeConfig, seen: &mut ListsSeen, key: &Vec<char>, value: &Vec<char>)
    -> (r: Option<Result<(), String>>)
    ensures
        applied_as(r, settings_external_3(old(cfg)@, *old(seen), key@, value@),
            old(cfg)@, final(cfg)@, *old(seen), *final(seen)),
{
    proof {
        reveal(settings_external_3);
    }
    if is_key(key, "external_midi.bank_select") {
        let v = lower_vec(value);
        if is_key(&v, "off") {
            cfg.external_midi.bank_select = BankSelectMode::Off;
            Some(Ok(()))
        } else if is_key(&v, "cc0") {
            cfg.external_midi.bank_select = BankSelectMode::Cc0;
            Some(Ok(()))
        } else if is_key(&v, "cc0+cc32") || is_key(&v, "cc0_cc32") {
            cfg.external_midi.bank_select = BankSelectMode::Cc0Cc32;
            Some(Ok(()))
        } else {
            Some(Err(concat_err(key, " must be off, cc0, or cc0+cc32")))
        }
    } else if is_key(key, "external_midi.program_changes") {
        match boolean(key, value) {
            Err(e) => Some(Err(e)),
            Ok(b) => { cfg.external_midi.program_changes = b; Some(Ok(())) },
        }
    } else if is_key(key, "external_midi.send_transport") {
        match boolean(key, value) {
            Err(e) => Some(Err(e)),
            Ok(b) => { cfg.external_midi.send_transport = b; Some(Ok(())) },
        }
    } else if is_key(key, "external_midi.default_tempo") {
        match bounded_usize(key, value, 20, 300) {
            Err(e) => Some(Err(e)),
            Ok(n) => { cfg.external_midi.default_tempo = n as u16; Some(Ok(())) },
        }
    } else if is_key(key, "external_midi.pattern_rows") {
        match bounded_usize(key, value, 1, 256) {
            Err(e) => Some(Err(e)),
            Ok(n) => { cfg.external_midi.default_pattern_rows = n; Some(Ok(())) },
        }
    } else {
        None
    }
}

/// The external instrument's steps, thru, profile, gate and settle time; `None` for other keys.
#[verifier::opaque]
pub open spec fn settings_external_4(m: ConfigModel, s: ListsSeen, key: Seq<char>, value: Seq<char>) -> Applied {
    if key == "external_midi.steps_per_beat"@ {
        Some(match spec_bounded(key, value, 1, 16) {
            Err(e) => Err(e),
            Ok(n) => Ok((ConfigModel { external_midi: ExternalMidiModel { steps_per_beat: n as u8, ..m.external_midi }, ..m }, s)),
        })
    } else if key == "external_midi.live_thru"@ {
        Some(match spec_boolean(key, value) {
            Err(e) => Err(e),
            Ok(b) => Ok((ConfigModel { external_midi: ExternalMidiModel { live_thru: b, ..m.external_midi }, ..m }, s)),
        })
    } else if key == "external_midi.profile"@ {
        Some(match spec_required(key, value) {
            Err(e) => Err(e),
            Ok(v) => Ok((ConfigModel { external_midi: ExternalMidiModel { profile: v, ..m.external_midi }, ..m }, s)),
        })
    } else if key == "external_midi.gate_percent"@ {
        Some(match spec_bounded(key, value, 1, 100) {
            Err(e) => Err(e),
            Ok(n) => Ok((ConfigModel { external_midi: ExternalMidiModel { gate_percent: n as u8, ..m.external_midi }, ..m }, s)),
        })
    } else if key == "external_midi.gesture_settle_ms"@ {
        Some(match spec_bounded(key, value, 10, 250) {
            Err(e) => Err(e),
            Ok(n) => Ok((ConfigModel { external_midi: ExternalMidiModel { gesture_settle_ms: n as u64, ..m.external_midi }, ..m }, s)),
        })
    } else {
        None
    }
}

fn apply_external_4(cfg: &mut RuntimeConfig, seen: &mut ListsSeen, key: &Vec<char>, value: &Vec<char>)
    -> (r: Option<Result<(), String>>)
    ensures
        applied_as(r, settings_external_4(old(cfg)@, *old(seen), key@, value@),
            old(cfg)@, final(cfg)@, *old(seen), *final(seen)),
{
    proof {
        reveal(settings_external_4);
    }
    if is_key(key, "external_midi.steps_per_beat") {
        match bounded_usize(key, value, 1, 16) {
            Err(e) => Some(Err(e)),
            Ok(n) => { cfg.external_midi.steps_per_beat = n as u8; Some(Ok(())) },
        }
    } else if is_key(key, "external_midi.live_thru") {
        match boolean(key, value) {
            Err(e) => Some(Err(e)),
            Ok(b) => { cfg.external_midi.live_thru = b; Some(Ok(())) },
        }
    } else if is_key(key, "external_midi.profile") {
        match required(key, value) {
            Err(e) => Some(Err(e)),
            Ok(v) => { cfg.external_midi.profile = v; Some(Ok(())) },
        }
    } else if is_key(key, "external_midi.gate_percent") {
        match bounded_usize(key, value, 1, 100) {
            Err(e) => Some(Err(e)),
            Ok(n) => { cfg.external_midi.gate_percent = n as u8; Some(Ok(())) },
        }
    } else if is_key(key, "external_midi.gesture_settle_ms") {
        match bounded_usize(key, value, 10, 250) {
            Err(e) => Some(Err(e)),
            Ok(n) => { cfg.external_midi.gesture_settle_ms = n as u64; Some(Ok(())) },
        }
    } else {
        None
    }
}

/// The byte a list setting adds: none for an empty value, else the number
/// in `min..=max` less `offset`.
#[verifier::opaque]
pub open spec fn spec_byte_item(key: Seq<char>, value: Seq<char>, min: nat, max: nat, offset: nat) -> Result<Option<u8>, Seq<char>> {
    if value.len() == 0 {
        Ok(None)
    } else {
        match spec_bounded(key, value, min, max) {
            Err(e) => Err(e),
            Ok(n) => Ok(Some((n - offset) as u8)),
        }
    }
}

fn byte_item(key: &Vec<char>, value: &Vec<char>, min: usize, max: usize, offset: usize) -> (r: Result<Option<u8>, String>)
    requires
        offset <= min,
        max - offset <= 255,
    ensures
        match r {
            Ok(item) => spec_byte_item(key@, value@, min as nat, max as nat, offset as nat) == Ok::<Option<u8>, Seq<char>>(item),
            Err(e) => spec_byte_item(key@, value@, min as nat, max as nat, offset as nat) == Err::<Option<u8>, Seq<char>>(e@),
        },
{
    proof {
        reveal(spec_byte_item);
    }
    if value.len() == 0 {
        Ok(None)
    } else {
        match bounded_usize(key, value, min, max) {
            Err(e) => Err(e),
            Ok(n) => Ok(Some((n - offset) as u8)),
        }
    }
}

/// The external instrument's channel list and percussion note map; `None`
/// for other keys.
#[verifier::opaque]
pub open spec fn settings_external_lists(m: ConfigModel, s: ListsSeen, key: Seq<char>, value: Seq<char>) -> Applied {
    if key == "external_midi.channel"@ {
        Some(match spec_byte_item(key, value, 1, 16, 1) {
            Err(e) => Err(e),
            Ok(item) => Ok((ConfigModel { external_midi: ExternalMidiModel {
                channels: list_with(s.channels, m.external_midi.channels, item is None, item->0),
                ..m.external_midi }, ..m }, ListsSeen { channels: true, ..s })),
        })
    } else if key == "external_midi.percussion_note"@ {
        Some(match spec_byte_item(key, value, 0, 127, 0) {
            Err(e) => Err(e),
            Ok(item) => Ok((ConfigModel { external_midi: ExternalMidiModel {
                percussion_notes: list_with(s.percussion_notes, m.external_midi.percussion_notes, item is None, item->0),
                ..m.external_midi }, ..m }, ListsSeen { percussion_notes: true, ..s })),
        })
    } else {
        None
    }
}

fn apply_external_lists(cfg: &mut RuntimeConfig, seen: &mut ListsSeen, key: &Vec<char>, value: &Vec<char>)
    -> (r: Option<Result<(), String>>)
    ensures
        applied_as(r, settings_external_lists(old(cfg)@, *old(seen), key@, value@),
            old(cfg)@, final(cfg)@, *old(seen), *final(seen)),
{
    proof {
        reveal(settings_external_lists);
    }
    if is_key(key, "external_midi.channel") {
        match byte_item(key, value, 1, 16, 1) {
            Err(e) => Some(Err(e)),
            Ok(item) => {
                cfg.external_midi.channels = byte_list_setting(&cfg.external_midi.channels, seen.channels, item);
                seen.channels = true;
                Some(Ok(()))
            },
        }
    } else if is_key(key, "external_midi.percussion_note") {
        match byte_item(key, value, 0, 127, 0) {
            Err(e) => Some(Err(e)),
            Ok(item) => {
                cfg.external_midi.percussion_notes = byte_list_setting(&cfg.external_midi.percussion_notes, seen.percussion_notes, item);
                seen.percussion_notes = true;
                Some(Ok(()))
            },
        }
    } else {
        None
    }
}

/// The capture settings; `None` for other keys.
#[verifier::opaque]
pub open spec fn settings_capture(m: ConfigModel, s: ListsSeen, key: Seq<char>, value: Seq<char>, home: Option<Seq<char>>) -> Applied {
    if key == "capture.client"@ {
        Some(match spec_required(key, value) {
            Err(e) => Err(e),
            Ok(v) => Ok((ConfigModel { capture: CaptureModel { client_name: v, ..m.capture }, ..m }, s)),
        })
    } else if key == "capture.directory"@ {
        Some(match spec_required(key, value) {
            Err(e) => Err(e),
            Ok(v) => Ok((ConfigModel { capture: CaptureModel { directory: expand_home(v, home), ..m.capture }, ..m }, s)),
        })
    } else if key == "capture.input"@ {
        Some(match spec_stereo_item(key, value) {
            Err(e) => Err(e),
            Ok(item) => Ok((ConfigModel { capture: CaptureModel {
                inputs: list_with(s.capture_inputs, m.capture.inputs, item is None, item->0), ..m.capture }, ..m },
                ListsSeen { capture_inputs: true, ..s })),
        })
    } else if key == "capture.ring_frames"@ {
        Some(match spec_bounded(key, value, 1024, 4194304) {
            Err(e) => Err(e),
            Ok(n) => Ok((ConfigModel { capture: CaptureModel { ring_frames: n as usize, ..m.capture }, ..m }, s)),
        })
    } else {
        None
    }
}

fn apply_capture(cfg: &mut RuntimeConfig, seen: &mut ListsSeen, key: &Vec<char>, value: &Vec<char>, home: Option<&str>)
    -> (r: Option<Result<(), String>>)
    ensures
        applied_as(r, settings_capture(old(cfg)@, *old(seen), key@, value@, home_view(home)),
            old(cfg)@, final(cfg)@, *old(seen), *final(seen)),
{
    proof {
        reveal(settings_capture);
    }
    if is_key(key, "capture.client") {
        match required(key, value) {
            Err(e) => Some(Err(e)),
            Ok(v) => { cfg.capture.client_name = v; Some(Ok(())) },
        }
    } else if is_key(key, "capture.directory") {
        match required(key, value) {
            Err(e) => Some(Err(e)),
            Ok(v) => {
                let chars = chars_of(v.as_str());
                cfg.capture.directory = expand_home_exec(&chars, home);
                Some(Ok(()))
            },
        }
    } else if is_key(key, "capture.input") {
        match stereo_item(key, value) {
            Err(e) => Some(Err(e)),
            Ok(item) => {
                cfg.capture.inputs = input_list_setting(&cfg.capture.inputs, seen.capture_inputs, item);
                seen.capture_inputs = true;
                Some(Ok(()))
            },
        }
    } else if is_key(key, "capture.ring_frames") {
        match bounded_usize(key, value, 1024, 4194304) {
            Err(e) => Some(Err(e)),
            Ok(n) => { cfg.capture.ring_frames = n; Some(Ok(())) },
        }
    } else {
        None
    }
}

/// The loop player settings; `None` for other keys.
#[verifier::opaque]
pub open spec fn settings_loop(m: ConfigModel, s: ListsSeen, key: Seq<char>, value: Seq<char>, home: Option<Seq<char>>) -> Applied {
    if key == "loop.client"@ {
        Some(match spec_required(key, value) {
            Err(e) => Err(e),
            Ok(v) => Ok((ConfigModel { loop_player: LoopModel { client_name: v, ..m.loop_player }, ..m }, s)),
        })
    } else if key == "loop.output"@ {
        Some(Ok((ConfigModel { loop_player: LoopModel {
            outputs: list_with(s.loop_outputs, m.loop_player.outputs, value.len() == 0, value), ..m.loop_player }, ..m },
            ListsSeen { loop_outputs: true, ..s })))
    } else if key == "loop.import_directory"@ {
        Some(match spec_required(key, value) {
            Err(e) => Err(e),
            Ok(v) => Ok((ConfigModel { loop_player: LoopModel { import_directory: expand_home(v, home), ..m.loop_player }, ..m }, s)),
        })
    } else {
        None
    }
}

fn apply_loop(cfg: &mut RuntimeConfig, seen: &mut ListsSeen, key: &Vec<char>, value: &Vec<char>, home: Option<&str>)
    -> (r: Option<Result<(), String>>)
    ensures
        applied_as(r, settings_loop(old(cfg)@, *old(seen), key@, value@, home_view(home)),
            old(cfg)@, final(cfg)@, *old(seen), *final(seen)),
{
    proof {
        reveal(settings_loop);
    }
    if is_key(key, "loop.client") {
        match required(key, value) {
            Err(e) => Some(Err(e)),
            Ok(v) => { cfg.loop_player.client_name = v; Some(Ok(())) },
        }
    } else if is_key(key, "loop.output") {
        let item = if value.len() > 0 { Some(string_from_chars(value)) } else { None };
        cfg.loop_player.outputs = list_setting(&cfg.loop_player.outputs, seen.loop_outputs, item);
        seen.loop_outputs = true;
        Some(Ok(()))
    } else if is_key(key, "loop.import_directory") {
        match required(key, value) {
            Err(e) => Some(Err(e)),
            Ok(v) => {
                let chars = chars_of(v.as_str());
                cfg.loop_player.import_directory = expand_home_exec(&chars, home);
                Some(Ok(()))
            },
        }
    } else {
        None
    }
}

// ---------------------------------------------------------------------------
// A whole text
// ---------------------------------------------------------------------------

pub open spec fn either(a: Applied, b: Applied) -> Applied {
    if a is Some { a } else { b }
}

/// The settings of the synthesizers and the MIDI and audio routes.
pub open spec fn settings_first(m: ConfigModel, s: ListsSeen, key: Seq<char>, value: Seq<char>, home: Option<Seq<char>>) -> Applied {
    either(settings_synth(m, s, key, value, home),
    either(settings_yoshimi(m, s, key, value, home),
    either(settings_yoshimi_lists(m, s, key, value, home),
    either(settings_fluid(m, s, key, value, home),
    either(settings_routes(m, s, key, value),
    either(settings_outputs(m, s, key, value),
        settings_fallbacks(m, s, key, value)))))))
}

/// The remaining settings: headphones, engine, external instrument, capture
/// and loop player.
pub open spec fn settings_second(m: ConfigModel, s: ListsSeen, key: Seq<char>, value: Seq<char>, home: Option<Seq<char>>, cpus: nat) -> Applied {
    either(settings_headphones(m, s, key, value),
    either(settings_engine(m, s, key, value, home, cpus),
    either(settings_external_1(m, s, key, value),
    either(settings_external_2(m, s, key, value),
    either(settings_external_3(m, s, key, value),
    either(settings_external_4(m, s, key, value),
    either(settings_external_lists(m, s, key, value),
    either(settings_capture(m, s, key, value, home),
        settings_loop(m, s, key, value, home)))))))))
}

/// `path:line: message`, the location prefix of a line error.
pub open spec fn at_line(path: Seq<char>, line: nat, message: Seq<char>) -> Seq<char> {
    path + ":"@ + decimal(line) + ": "@ + message
}

/// One `key=value` setting on line `line` of the text.
pub open spec fn spec_setting(m: ConfigModel, s: ListsSeen, key: Seq<char>, value: Seq<char>, home: Option<Seq<char>>,
    cpus: nat, path: Seq<char>, line: nat) -> Result<(ConfigModel, ListsSeen), Seq<char>> {
    match either(settings_first(m, s, key, value, home), settings_second(m, s, key, value, home, cpus)) {
        Some(r) => r,
        None => Err(at_line(path, line, "unknown setting "@ + key)),
    }
}

fn apply_first(cfg: &mut RuntimeConfig, seen: &mut ListsSeen, key: &Vec<char>, value: &Vec<char>, home: Option<&str>)
    -> (r: Option<Result<(), String>>)
    ensures
        applied_as(r, settings_first(old(cfg)@, *old(seen), key@, value@, home_view(home)),
            old(cfg)@, final(cfg)@, *old(seen), *final(seen)),
{
    let r = apply_synth(cfg, seen, key, value, home);
    if r.is_some() {
        return r;
    }
    let r = apply_yoshimi(cfg, seen, key, value, home);
    if r.is_some() {
        return r;
    }
    let r = apply_yoshimi_lists(cfg, seen, key, value, home);
    if r.is_some() {
        return r;
    }
    let r = apply_fluid(cfg, seen, key, value, home);
    if r.is_some() {
        return r;
    }
    let r = apply_routes(cfg, seen, key, value);
    if r.is_some() {
        return r;
    }
    let r = apply_outputs(cfg, seen, key, value);
    if r.is_some() {
        return r;
    }
    apply_fallbacks(cfg, seen, key, value)
}

fn apply_second(cfg: &mut RuntimeConfig, seen: &mut ListsSeen, key: &Vec<char>, value: &Vec<char>, home: Option<&str>, cpus: usize)
    -> (r: Option<Result<(), String>>)
    requires
        cpus >= 1,
    ensures
        applied_as(r, settings_second(old(cfg)@, *old(seen), key@, value@, home_view(home), cpus as nat),
            old(cfg)@, final(cfg)@, *old(seen), *final(seen)),
{
    let r = apply_headphones(cfg, seen, key, value);
    if r.is_some() {
        return r;
    }
    let r = apply_engine(cfg, seen, key, value, home, cpus);
    if r.is_some() {
        return r;
    }
    let r = apply_external_1(cfg, seen, key, value);
    if r.is_some() {
        return r;
    }
    let r = apply_external_2(cfg, seen, key, value);
    if r.is_some() {
        return r;
    }
    let r = apply_external_3(cfg, seen, key, value);
    if r.is_some() {
        return r;
    }
    let r = apply_external_4(cfg, seen, key, value);
    if r.is_some() {
        return r;
    }
    let r = apply_external_lists(cfg, seen, key, value);
    if r.is_some() {
        return r;
    }
    let r = apply_capture(cfg, seen, key, value, home);
    if r.is_some() {
        return r;
    }
    apply_loop(cfg, seen, key, value, home)
}

fn line_error(path: &str, line: usize, message: &str) -> (r: String)
    ensures
        r@ == at_line(path@, line as nat, message@),
{
    let mut out = owned(path);
    push_str(&mut out, ":");
    push_decimal(&mut out, line as u64);
    push_str(&mut out, ": ");
    push_str(&mut out, message);
    out
}

fn apply_setting(cfg: &mut RuntimeConfig, seen: &mut ListsSeen, key: &Vec<char>, value: &Vec<char>, home: Option<&str>,
    cpus: usize, path: &str, line: usize) -> (r: Result<(), String>)
    requires
        cpus >= 1,
    ensures
        match spec_setting(old(cfg)@, *old(seen), key@, value@, home_view(home), cpus as nat, path@, line as nat) {
            Ok((m, s)) => r is Ok && final(cfg)@ == m && *final(seen) == s,
            Err(e) => r matches Err(x) && x@ == e,
        },
{
    let r = apply_first(cfg, seen, key, value, home);
    if let Some(r) = r {
        return r;
    }
    let r = apply_second(cfg, seen, key, value, home, cpus);
    if let Some(r) = r {
        return r;
    }
    let mut message = owned("unknown setting ");
    let k = string_from_chars(key);
    push_str(&mut message, k.as_str());
    Err(line_error(path, line, message.as_str()))
}

/// The fallback routes in the order they are tried: the internal outputs,
/// then the headphones.
pub open spec fn fallback_routes(m: ConfigModel) -> Seq<StereoModel> {
    match m.audio_headphone_output {
        Some(h) => m.audio_internal_outputs.push(h),
        None => m.audio_internal_outputs,
    }
}

/// The name of the first route whose two ports are the same, looking at
/// `routes[i..]`.
pub open spec fn first_shared_port(routes: Seq<StereoModel>, i: int) -> Option<Seq<char>>
    decreases routes.len() - i,
{
    if i < 0 || i >= routes.len() {
        None
    } else if routes[i].left_port == routes[i].right_port {
        Some(routes[i].name)
    } else {
        first_shared_port(routes, i + 1)
    }
}

/// What is wrong with a complete set of settings, checked in this order.
pub open spec fn settings_error(m: ConfigModel) -> Option<Seq<char>> {
    let x = m.external_midi;
    if m.midi_autoconnect && m.midi_input_matches.len() == 0 {
        Some("midi.autoconnect requires at least one midi.input"@)
    } else if m.audio_autoconnect && m.audio_outputs.len() == 0 {
        Some("audio.autoconnect requires at least one audio.output"@)
    } else if m.audio_graph.enabled && (!m.audio_autoconnect || m.audio_outputs.len() != 2) {
        Some("audio.graph.enabled requires audio.autoconnect and two audio.output entries"@)
    } else if first_shared_port(fallback_routes(m), 0) is Some {
        Some("stereo audio route "@ + debug_text(first_shared_port(fallback_routes(m), 0)->0) + " must use distinct ports"@)
    } else if x.enabled && x.output_match.len() == 0 {
        Some("external_midi.enabled requires external_midi.output"@)
    } else if x.channels.len() == 0 {
        Some("external_midi requires at least one channel"@)
    } else if x.max_tracks > x.channels.len() {
        Some("external_midi.max_tracks exceeds configured channel count"@)
    } else if !x.channels.contains(x.melody_channel) {
        Some("external_midi.melody_channel must also be an available channel"@)
    } else if x.percussion_channel is Some && !x.channels.contains(x.percussion_channel->0) {
        Some("external_midi.percussion_channel must also be an available channel"@)
    } else if x.percussion_input_base + x.percussion_notes.len() > 128 {
        Some("external_midi percussion input map exceeds MIDI note 127"@)
    } else {
        None
    }
}

fn routes_shared_port(routes: &Vec<StereoOutputConfig>, start: usize) -> (r: Option<String>)
    requires
        start <= routes.len(),
    ensures
        opt_view(r) == first_shared_port(output_views(routes@), start as int),
    decreases routes.len() - start,
{
    if start >= routes.len() {
        return None;
    }
    let route = &routes[start];
    let l = chars_of(route.left_port.as_str());
    let rt = chars_of(route.right_port.as_str());
    if chars_eq(&l, &rt) {
        Some(copy_string(&route.name))
    } else {
        routes_shared_port(routes, start + 1)
    }
}

fn contains_byte(v: &Vec<u8>, b: u8) -> (r: bool)
    ensures
        r == v@.contains(b),
{
    let mut i: usize = 0;
    while i < v.len()
        invariant
            i <= v.len(),
            forall|k: int| 0 <= k < i ==> v@[k] != b,
        decreases v.len() - i,
    {
        if v[i] == b {
            assert(v@[i as int] == b);
            return true;
        }
        i += 1;
    }
    false
}

fn shared_port_name(cfg: &RuntimeConfig) -> (r: Option<String>)
    ensures
        opt_view(r) == first_shared_port(fallback_routes(cfg@), 0),
{
    let ghost routes = fallback_routes(cfg@);
    let first = routes_shared_port(&cfg.audio_internal_outputs, 0);
    proof {
        lemma_first_shared_prefix(output_views(cfg.audio_internal_outputs@), opt_output_view(cfg.audio_headphone_output), 0);
    }
    if first.is_some() {
        return first;
    }
    match &cfg.audio_headphone_output {
        Some(h) => {
            let l = chars_of(h.left_port.as_str());
            let rt = chars_of(h.right_port.as_str());
            if chars_eq(&l, &rt) {
                Some(copy_string(&h.name))
            } else {
                None
            }
        },
        None => None,
    }
}

proof fn lemma_first_shared_prefix(routes: Seq<StereoModel>, last: Option<StereoModel>, i: int)
    requires
        0 <= i <= routes.len(),
    ensures
        ({
            let all = match last { Some(h) => routes.push(h), None => routes };
            first_shared_port(all, i) == match first_shared_port(routes, i) {
                Some(n) => Some(n),
                None => match last {
                    Some(h) => if h.left_port == h.right_port { Some(h.name) } else { None },
                    None => None,
                },
            }
        }),
    decreases routes.len() - i,
{
    let all = match last { Some(h) => routes.push(h), None => routes };
    if i < routes.len() {
        assert(all[i] == routes[i]);
        lemma_first_shared_prefix(routes, last, i + 1);
    } else {
        if last is Some {
            assert(all[i] == last->0);
            assert(first_shared_port(all, i + 1) is None);
        }
    }
}

fn settings_problem(cfg: &RuntimeConfig) -> (r: Option<String>)
    ensures
        opt_view(r) == settings_error(cfg@),
{
    let x = &cfg.external_midi;
    if cfg.midi_autoconnect && cfg.midi_input_matches.len() == 0 {
        return Some(owned("midi.autoconnect requires at least one midi.input"));
    }
    if cfg.audio_autoconnect && cfg.audio_outputs.len() == 0 {
        return Some(owned("audio.autoconnect requires at least one audio.output"));
    }
    if cfg.audio_graph.enabled && (!cfg.audio_autoconnect || cfg.audio_outputs.len() != 2) {
        return Some(owned("audio.graph.enabled requires audio.autoconnect and two audio.output entries"));
    }
    if let Some(name) = shared_port_name(cfg) {
        let mut out = owned("stereo audio route ");
        let quoted = debug_quoted(name.as_str());
        push_str(&mut out, quoted.as_str());
        push_str(&mut out, " must use distinct ports");
        return Some(out);
    }
    if x.enabled && chars_of(x.output_match.as_str()).len() == 0 {
        return Some(owned("external_midi.enabled requires external_midi.output"));
    }
    if x.channels.len() == 0 {
        return Some(owned("external_midi requires at least one channel"));
    }
    if x.max_tracks > x.channels.len() {
        return Some(owned("external_midi.max_tracks exceeds configured channel count"));
    }
    if !contains_byte(&x.channels, x.melody_channel) {
        return Some(owned("external_midi.melody_channel must also be an available channel"));
    }
    if let Some(channel) = x.percussion_channel {
        if !contains_byte(&x.channels, channel) {
            return Some(owned("external_midi.percussion_channel must also be an available channel"));
        }
    }
    if x.percussion_input_base as usize > 128 || x.percussion_notes.len() > 128 - x.percussion_input_base as usize {
        return Some(owned("external_midi percussion input map exceeds MIDI note 127"));
    }
    None
}

/// The settings `m` becomes after the lines `lines[i..]`, each trimmed;
/// blank lines and lines starting with `#` are skipped.
pub open spec fn merge_from(m: ConfigModel, s: ListsSeen, lines: Seq<Seq<char>>, i: int, home: Option<Seq<char>>,
    cpus: nat, path: Seq<char>) -> Result<ConfigModel, Seq<char>>
    decreases lines.len() - i,
{
    if i < 0 || i >= lines.len() {
        match settings_error(m) {
            Some(e) => Err(e),
            None => Ok(m),
        }
    } else {
        let line = trim(lines[i]);
        if line.len() == 0 || line[0] == '#' {
            merge_from(m, s, lines, i + 1, home, cpus, path)
        } else {
            match split_once(line, '=') {
                None => Err(at_line(path, (i + 1) as nat, "expected KEY=VALUE"@)),
                Some((k, v)) => match spec_setting(m, s, trim(k), trim(v), home, cpus, path, (i + 1) as nat) {
                    Err(e) => Err(e),
                    Ok((m2, s2)) => merge_from(m2, s2, lines, i + 1, home, cpus, path),
                },
            }
        }
    }
}

/// A merge's result as the settings model says it.
pub open spec fn merge_outcome(r: Result<RuntimeConfig, String>, spec: Result<ConfigModel, Seq<char>>) -> bool {
    match r {
        Ok(c) => spec == Ok::<ConfigModel, Seq<char>>(c@),
        Err(e) => spec == Err::<ConfigModel, Seq<char>>(e@),
    }
}

/// The settings `m` becomes after the configuration text `text` read from
/// `path`; `cpus` is the number of CPUs a CPU set can name.
pub open spec fn spec_merge(m: ConfigModel, text: Seq<char>, path: Seq<char>, home: Option<Seq<char>>, cpus: nat)
    -> Result<ConfigModel, Seq<char>> {
    merge_from(m, ListsSeen::none(), crate::text::spec_lines(text), 0, home, cpus, path)
}

impl RuntimeConfig {
    /// These settings updated by a configuration text, where `cpus` CPUs can
    /// be reserved; `path` names the text in error messages and `home` is
    /// the directory a leading `~/` stands for.
    pub fn merged_with(self, text: &str, path: &str, home: Option<&str>, cpus: usize) -> (r: Result<RuntimeConfig, String>)
        requires
            cpus >= 1,
        ensures
            merge_outcome(r, spec_merge(self@, text@, path@, home_view(home), cpus as nat)),
    {
        let ghost start = self@;
        let mut cfg = self;
        let mut seen = ListsSeen::new();
        let chars = chars_of(text);
        let lines = crate::text::lines_of(&chars);
        let ghost all = chars_views(lines@);
        let mut i: usize = 0;
        while i < lines.len()
            invariant
                i <= lines.len(),
                cpus >= 1,
                all == chars_views(lines@),
                all == crate::text::spec_lines(text@),
                start == self@,
                spec_merge(start, text@, path@, home_view(home), cpus as nat)
                    == merge_from(cfg@, seen, all, i as int, home_view(home), cpus as nat, path@),
            decreases lines.len() - i,
        {
            let line = trim_chars(&lines[i]);
            assert(all[i as int] == lines@[i as int]@);
            if line.len() == 0 || line[0] == '#' {
                i += 1;
                continue;
            }
            match split_once_chars(&line, '=') {
                None => {
                    return Err(line_error(path, i + 1, "expected KEY=VALUE"));
                },
                Some((k, v)) => {
                    let key = trim_chars(&k);
                    let value = trim_chars(&v);
                    match apply_setting(&mut cfg, &mut seen, &key, &value, home, cpus, path, i + 1) {
                        Err(e) => {
                            return Err(e);
                        },
                        Ok(()) => {},
                    }
                },
            }
            i += 1;
        }
        match settings_problem(&cfg) {
            Some(e) => Err(e),
            None => Ok(cfg),
        }
    }

    /// These settings updated by a configuration text, with the CPU limit of
    /// this target.
    pub fn merged(self, text: &str, path: &str, home: Option<&str>) -> (r: Result<RuntimeConfig, String>)
        ensures
            exists|cpus: nat| #![trigger spec_merge(self@, text@, path@, home_view(home), cpus)]
                cpus >= 1 && merge_outcome(r, spec_merge(self@, text@, path@, home_view(home), cpus)),
    {
        let cpus = cpu_set_size();
        let r = self.merged_with(text, path, home, cpus);
        proof {
            let n = cpus as nat;
            assert(n >= 1 && merge_outcome(r, spec_merge(self@, text@, path@, home_view(home), n)));
        }
        r
    }
}

/// The values that the setting lines of `key` give from line `i` on, each
/// with its line number counted from 1, in the order of the lines.
pub open spec fn setting_values_from(lines: Seq<Seq<char>>, key: Seq<char>, i: int) -> Seq<(nat, Seq<char>)>
    decreases lines.len() - i,
{
    if i < 0 || i >= lines.len() {
        Seq::empty()
    } else {
        let line = trim(lines[i]);
        let rest = setting_values_from(lines, key, i + 1);
        if line.len() == 0 || line[0] == '#' {
            rest
        } else {
            match split_once(line, '=') {
                Some((k, v)) => if trim(k) == key { seq![((i + 1) as nat, trim(v))] + rest } else { rest },
                None => rest,
            }
        }
    }
}

/// The values that the lines of a configuration text set `key` to, with
/// their line numbers, in order.
pub fn setting_values(text: &str, key: &str) -> (r: Vec<(usize, String)>)
    ensures
        r@.map_values(|p: (usize, String)| (p.0 as nat, p.1@)) == setting_values_from(crate::text::spec_lines(text@), key@, 0),
{
    let chars = chars_of(text);
    let lines = crate::text::lines_of(&chars);
    let ghost all = chars_views(lines@);
    let mut out: Vec<(usize, String)> = Vec::new();
    let mut i: usize = lines.len();
    while i > 0
        invariant
            i <= lines.len(),
            all == chars_views(lines@),
            all == crate::text::spec_lines(text@),
            out@.map_values(|p: (usize, String)| (p.0 as nat, p.1@)) == setting_values_from(all, key@, i as int),
        decreases i,
    {
        i -= 1;
        assert(all[i as int] == lines@[i as int]@);
        let line = trim_chars(&lines[i]);
        if line.len() > 0 && line[0] != '#' {
            match split_once_chars(&line, '=') {
                Some((k, v)) => {
                    let name = trim_chars(&k);
                    if is_key(&name, key) {
                        let value = string_from_chars(&trim_chars(&v));
                        let ghost before = out@;
                        out.insert(0, (i + 1, value));
                        proof {
                            assert(out@.map_values(|p: (usize, String)| (p.0 as nat, p.1@))
                                =~= seq![((i + 1) as nat, value@)] + before.map_values(|p: (usize, String)| (p.0 as nat, p.1@)));
                        }
                    }
                },
                None => {},
            }
        }
    }
    out
}

/// The first error that the lines before line `upto` (counted from 1) of a
/// configuration text give, line by line, before the settings are checked
/// as a whole.
pub open spec fn merge_error_from(m: ConfigModel, s: ListsSeen, lines: Seq<Seq<char>>, i: int, upto: int, home: Option<Seq<char>>,
    cpus: nat, path: Seq<char>) -> Option<Seq<char>>
    decreases lines.len() - i,
{
    if i < 0 || i >= lines.len() || i + 1 >= upto {
        None
    } else {
        let line = trim(lines[i]);
        if line.len() == 0 || line[0] == '#' {
            merge_error_from(m, s, lines, i + 1, upto, home, cpus, path)
        } else {
            match split_once(line, '=') {
                None => Some(at_line(path, (i + 1) as nat, "expected KEY=VALUE"@)),
                Some((k, v)) => match spec_setting(m, s, trim(k), trim(v), home, cpus, path, (i + 1) as nat) {
                    Err(e) => Some(e),
                    Ok((m2, s2)) => merge_error_from(m2, s2, lines, i + 1, upto, home, cpus, path),
                },
            }
        }
    }
}

/// Whether a switch value means on: `true`, `yes`, `1` or `on`, in any
/// letter case.
pub open spec fn switch_on(value: Seq<char>) -> bool {
    let v = lower_seq(value);
    v == "true"@ || v == "yes"@ || v == "1"@ || v == "on"@
}

/// Whether a switch value means off: `false`, `no`, `0` or `off`, in any
/// letter case.
pub open spec fn switch_off(value: Seq<char>) -> bool {
    let v = lower_seq(value);
    v == "false"@ || v == "no"@ || v == "0"@ || v == "off"@
}

/// Switch values read the same way for every key: an on word gives `true`,
/// an off word `false`, and any other text is refused.
#[verifier::rlimit(60)]
#[verifier::spinoff_prover]
pub proof fn lemma_switch_words(key: Seq<char>, value: Seq<char>)
    ensures
        switch_on(value) ==> spec_boolean(key, value) == Ok::<bool, Seq<char>>(true),
        switch_off(value) ==> spec_boolean(key, value) == Ok::<bool, Seq<char>>(false),
        !switch_on(value) && !switch_off(value) ==> spec_boolean(key, value) is Err,
        !(switch_on(value) && switch_off(value)),
{
    reveal(spec_boolean);
    reveal_strlit("true");
    reveal_strlit("yes");
    reveal_strlit("1");
    reveal_strlit("on");
    reveal_strlit("false");
    reveal_strlit("no");
    reveal_strlit("0");
    reveal_strlit("off");
    let v = lower_seq(value);
    if v == "off"@ || v == "no"@ {
        assert(v.len() != "true"@.len() || v[0] != "true"@[0]);
        assert(v.len() != "yes"@.len() || v[0] != "yes"@[0]);
        assert(v.len() != "1"@.len());
        assert(v.len() != "on"@.len() || v[1] != "on"@[1]);
    }
    if v == "false"@ {
        assert(v.len() != "true"@.len());
        assert(v.len() != "yes"@.len());
        assert(v.len() != "1"@.len());
        assert(v.len() != "on"@.len());
    }
    if v == "0"@ {
        assert(v[0] != "1"@[0]);
        assert(v.len() != "true"@.len());
        assert(v.len() != "yes"@.len());
        assert(v.len() != "on"@.len());
    }
}

/// Each switch setting takes its value from the switch words: an on word
/// sets its field to `true` and an off word to `false`, leaving everything
/// else as it was.
#[verifier::rlimit(60)]
#[verifier::spinoff_prover]
pub proof fn lemma_switch_settings(m: ConfigModel, s: ListsSeen, value: Seq<char>, b: bool)
    requires
        if b { switch_on(value) } else { switch_off(value) },
    ensures
        settings_routes(m, s, "midi.autoconnect"@, value) == Some(Ok::<(ConfigModel, ListsSeen), Seq<char>>(
            (ConfigModel { midi_autoconnect: b, ..m }, s))),
        settings_outputs(m, s, "audio.autoconnect"@, value) == Some(Ok::<(ConfigModel, ListsSeen), Seq<char>>(
            (ConfigModel { audio_autoconnect: b, ..m }, s))),
        forall|home: Option<Seq<char>>, cpus: nat| #[trigger] settings_engine(m, s, "audio.graph.enabled"@, value, home, cpus)
            == Some(Ok::<(ConfigModel, ListsSeen), Seq<char>>(
            (ConfigModel { audio_graph: GraphModel { enabled: b, ..m.audio_graph }, ..m }, s))),
        settings_external_1(m, s, "external_midi.enabled"@, value) == Some(Ok::<(ConfigModel, ListsSeen), Seq<char>>(
            (ConfigModel { external_midi: ExternalMidiModel { enabled: b, ..m.external_midi }, ..m }, s))),
        settings_external_3(m, s, "external_midi.program_changes"@, value) == Some(Ok::<(ConfigModel, ListsSeen), Seq<char>>(
            (ConfigModel { external_midi: ExternalMidiModel { program_changes: b, ..m.external_midi }, ..m }, s))),
        settings_external_3(m, s, "external_midi.send_transport"@, value) == Some(Ok::<(ConfigModel, ListsSeen), Seq<char>>(
            (ConfigModel { external_midi: ExternalMidiModel { send_transport: b, ..m.external_midi }, ..m }, s))),
        settings_external_4(m, s, "external_midi.live_thru"@, value) == Some(Ok::<(ConfigModel, ListsSeen), Seq<char>>(
            (ConfigModel { external_midi: ExternalMidiModel { live_thru: b, ..m.external_midi }, ..m }, s))),
{
    lemma_switch_words("midi.autoconnect"@, value);
    lemma_switch_words("audio.autoconnect"@, value);
    lemma_switch_words("audio.graph.enabled"@, value);
    lemma_switch_words("external_midi.enabled"@, value);
    lemma_switch_words("external_midi.program_changes"@, value);
    lemma_switch_words("external_midi.send_transport"@, value);
    lemma_switch_words("external_midi.live_thru"@, value);
    reveal(settings_routes);
    reveal(settings_outputs);
    reveal(settings_engine);
    reveal(settings_external_1);
    reveal(settings_external_3);
    reveal(settings_external_4);
    reveal_strlit("external_midi.bank_select");
    reveal_strlit("external_midi.program_changes");
    reveal_strlit("external_midi.send_transport");
    reveal_strlit("external_midi.steps_per_beat");
    reveal_strlit("external_midi.live_thru");
    assert("external_midi.program_changes"@.len() != "external_midi.bank_select"@.len());
    assert("external_midi.send_transport"@.len() != "external_midi.bank_select"@.len());
    assert("external_midi.send_transport"@[14] != "external_midi.program_changes"@[14]);
    assert("external_midi.live_thru"@.len() != "external_midi.steps_per_beat"@.len());
}

/// An error that the lines before `upto` give is the error that the whole
/// text gives: the lines are read in order and the first error stops them.
pub proof fn lemma_line_error_is_merge_error(m: ConfigModel, s: ListsSeen, lines: Seq<Seq<char>>, i: int, upto: int,
    home: Option<Seq<char>>, cpus: nat, path: Seq<char>)
    requires
        0 <= i,
        merge_error_from(m, s, lines, i, upto, home, cpus, path) is Some,
    ensures
        merge_from(m, s, lines, i, home, cpus, path) == Err::<ConfigModel, Seq<char>>(
            merge_error_from(m, s, lines, i, upto, home, cpus, path)->0),
    decreases lines.len() - i,
{
    let line = trim(lines[i]);
    if line.len() == 0 || line[0] == '#' {
        lemma_line_error_is_merge_error(m, s, lines, i + 1, upto, home, cpus, path);
    } else {
        match split_once(line, '=') {
            None => {},
            Some((k, v)) => match spec_setting(m, s, trim(k), trim(v), home, cpus, path, (i + 1) as nat) {
                Err(e) => {},
                Ok((m2, s2)) => {
                    lemma_line_error_is_merge_error(m2, s2, lines, i + 1, upto, home, cpus, path);
                },
            },
        }
    }
}

impl RuntimeConfig {
    /// The first error that the lines of `text` before line `upto` give
    /// over these settings, where `cpus` CPUs can be reserved.
    pub fn line_error_before_with(self, text: &str, path: &str, home: Option<&str>, cpus: usize, upto: usize) -> (r: Option<String>)
        requires
            cpus >= 1,
        ensures
            opt_view(r) == merge_error_from(self@, ListsSeen::none(), crate::text::spec_lines(text@), 0, upto as int,
                home_view(home), cpus as nat, path@),
    {
        let ghost start = self@;
        let mut cfg = self;
        let mut seen = ListsSeen::new();
        let chars = chars_of(text);
        let lines = crate::text::lines_of(&chars);
        let ghost all = chars_views(lines@);
        let mut i: usize = 0;
        while i < lines.len() && i + 1 < upto
            invariant
                i <= lines.len(),
                cpus >= 1,
                all == chars_views(lines@),
                all == crate::text::spec_lines(text@),
                start == self@,
                merge_error_from(start, ListsSeen::none(), all, 0, upto as int, home_view(home), cpus as nat, path@)
                    == merge_error_from(cfg@, seen, all, i as int, upto as int, home_view(home), cpus as nat, path@),
            decreases lines.len() - i,
        {
            let line = trim_chars(&lines[i]);
            assert(all[i as int] == lines@[i as int]@);
            if line.len() == 0 || line[0] == '#' {
                i += 1;
                continue;
            }
            match split_once_chars(&line, '=') {
                None => {
                    return Some(line_error(path, i + 1, "expected KEY=VALUE"));
                },
                Some((k, v)) => {
                    let key = trim_chars(&k);
                    let value = trim_chars(&v);
                    match apply_setting(&mut cfg, &mut seen, &key, &value, home, cpus, path, i + 1) {
                        Err(e) => {
                            return Some(e);
                        },
                        Ok(()) => {},
                    }
                },
            }
            i += 1;
        }
        None
    }

    /// The first error that the lines of `text` before line `upto` give
    /// over these settings, with the CPU limit of this target.
    pub fn line_error_before(self, text: &str, path: &str, home: Option<&str>, upto: usize) -> (r: Option<String>)
        ensures
            exists|cpus: nat| #![trigger merge_error_from(self@, ListsSeen::none(), crate::text::spec_lines(text@), 0, upto as int, home_view(home), cpus, path@)]
                cpus >= 1 && opt_view(r) == merge_error_from(self@, ListsSeen::none(), crate::text::spec_lines(text@), 0,
                    upto as int, home_view(home), cpus, path@),
    {
        let cpus = cpu_set_size();
        let r = self.line_error_before_with(text, path, home, cpus, upto);
        proof {
            let n = cpus as nat;
            assert(n >= 1 && opt_view(r) == merge_error_from(self@, ListsSeen::none(), crate::text::spec_lines(text@), 0,
                upto as int, home_view(home), n, path@));
        }
        r
    }
}

// ---------------------------------------------------------------------------
// Built-in values
// ---------------------------------------------------------------------------

/// The settings before any configuration text: empty commands and lists,
/// the built-in client names, and the external instrument's safe profile.
pub open spec fn base_model(home: Option<Seq<char>>) -> ConfigModel {
    let empty_backend = BackendModel {
        command: Seq::empty(),
        client_name: Seq::empty(),
        midi_output_match: Seq::empty(),
        preset_roots: Seq::empty(),
    };
    ConfigModel {
        synth_command: Seq::empty(),
        client_name: Seq::empty(),
        preset_dir: None,
        midi_output_match: Seq::empty(),
        yoshimi: YoshimiModel { backend: empty_backend, categories: Seq::empty(), presets_per_category: 0 },
        fluidsynth: FluidModel { backend: empty_backend, soundfonts: Seq::empty(), gain: "0.4"@ },
        startup_timeout_ms: 0,
        note_naming: NoteNaming::German,
        midi_autoconnect: false,
        midi_input_matches: Seq::empty(),
        audio_autoconnect: false,
        audio_outputs: Seq::empty(),
        audio_internal_outputs: Seq::empty(),
        audio_headphone_output: None,
        audio_graph: GraphModel { enabled: false, client_name: "shr-graph"@, maximum_callback_frames: 4096 },
        audio_engine_cpu: None,
        cpu_temperature_path: None,
        external_midi: ExternalMidiModel {
            enabled: false,
            client_name: "shs-tracker"@,
            output_match: Seq::empty(),
            max_tracks: 4,
            channels: seq![0u8, 1u8, 2u8, 9u8],
            melody_channel: 0,
            percussion_channel: Some(9u8),
            percussion_program: None,
            percussion_input_base: 60,
            percussion_notes: Seq::empty(),
            bank_select: BankSelectMode::Off,
            program_changes: false,
            send_transport: false,
            default_tempo: 120,
            default_pattern_rows: 64,
            steps_per_beat: 4,
            live_thru: false,
            profile: "unknown-monophonic-safe"@,
            gate_percent: 80,
            gesture_settle_ms: 45,
        },
        capture: CaptureModel {
            client_name: "shs-recorder"@,
            directory: expand_home("~/.local/share/shsynth/recordings"@, home),
            inputs: Seq::empty(),
            ring_frames: 262144,
        },
        loop_player: LoopModel {
            client_name: "shs-loop"@,
            outputs: Seq::empty(),
            import_directory: expand_home("~/Music"@, home),
        },
    }
}

fn empty_backend() -> (r: BackendConfig)
    ensures
        r@ == (BackendModel {
            command: Seq::empty(),
            client_name: Seq::empty(),
            midi_output_match: Seq::empty(),
            preset_roots: Seq::empty(),
        }),
{
    let r = BackendConfig {
        command: String::new(),
        client_name: String::new(),
        midi_output_match: String::new(),
        preset_roots: Vec::new(),
    };
    assert(views(r.preset_roots@) =~= Seq::<Seq<char>>::empty());
    r
}

impl RuntimeConfig {
    /// The built-in settings, with `home` the directory `~/` stands for.
    pub fn base(home: Option<&str>) -> (r: RuntimeConfig)
        ensures
            r@ == base_model(home_view(home)),
    {
        let recordings = chars_of("~/.local/share/shsynth/recordings");
        let music = chars_of("~/Music");
        let mut channels: Vec<u8> = Vec::new();
        channels.push(0);
        channels.push(1);
        channels.push(2);
        channels.push(9);
        let r = RuntimeConfig {
            synth_command: String::new(),
            client_name: String::new(),
            preset_dir: None,
            midi_output_match: String::new(),
            yoshimi: YoshimiConfig { backend: empty_backend(), categories: Vec::new(), presets_per_category: 0 },
            fluidsynth: FluidSynthConfig { backend: empty_backend(), soundfonts: Vec::new(), gain: owned("0.4") },
            startup_timeout_ms: 0,
            note_naming: NoteNaming::German,
            midi_autoconnect: false,
            midi_input_matches: Vec::new(),
            audio_autoconnect: false,
            audio_outputs: Vec::new(),
            audio_internal_outputs: Vec::new(),
            audio_headphone_output: None,
            audio_graph: AudioGraphConfig { enabled: false, client_name: owned("shr-graph"), maximum_callback_frames: 4096 },
            audio_engine_cpu: None,
            cpu_temperature_path: None,
            external_midi: ExternalMidiConfig {
                enabled: false,
                client_name: owned("shs-tracker"),
                output_match: String::new(),
                max_tracks: 4,
                channels,
                melody_channel: 0,
                percussion_channel: Some(9),
                percussion_program: None,
                percussion_input_base: 60,
                percussion_notes: Vec::new(),
                bank_select: BankSelectMode::Off,
                program_changes: false,
                send_transport: false,
                default_tempo: 120,
                default_pattern_rows: 64,
                steps_per_beat: 4,
                live_thru: false,
                profile: owned("unknown-monophonic-safe"),
                gate_percent: 80,
                gesture_settle_ms: 45,
            },
            capture: AudioCaptureConfig {
                client_name: owned("shs-recorder"),
                directory: expand_home_exec(&recordings, home),
                inputs: Vec::new(),
                ring_frames: 262144,
            },
            loop_player: LoopPlayerConfig {
                client_name: owned("shs-loop"),
                outputs: Vec::new(),
                import_directory: expand_home_exec(&music, home),
            },
        };
        assert(r.external_midi.channels@ =~= seq![0u8, 1u8, 2u8, 9u8]);
        assert(views(r.yoshimi.categories@) =~= Seq::<Seq<char>>::empty());
        assert(views(r.fluidsynth.soundfonts@) =~= Seq::<Seq<char>>::empty());
        assert(views(r.midi_input_matches@) =~= Seq::<Seq<char>>::empty());
        assert(views(r.audio_outputs@) =~= Seq::<Seq<char>>::empty());
        assert(output_views(r.audio_internal_outputs@) =~= Seq::<StereoModel>::empty());
        assert(input_views(r.capture.inputs@) =~= Seq::<StereoModel>::empty());
        assert(views(r.loop_player.outputs@) =~= Seq::<Seq<char>>::empty());
        r
    }
}

// ---------------------------------------------------------------------------
// Choosing the audio route
// ---------------------------------------------------------------------------

/// How the audio route was chosen.
#[derive(Clone, Debug, PartialEq, Eq)]
pub enum AudioRouteState {
    Preferred,
    InternalFallback { name: String },
    HeadphoneFallback { name: String },
    Unavailable,
    Disabled,
}

/// The stereo pair to connect, how it was chosen, and the notice shown when
/// the preferred pair is missing.
#[derive(Clone, Debug, PartialEq, Eq)]
pub struct ResolvedAudioRoute {
    pub outputs: Vec<String>,
    pub state: AudioRouteState,
    /// Present only when the preferred route is unavailable.
    pub notice: Option<String>,
}

pub enum RouteStateModel {
    Preferred,
    InternalFallback(Seq<char>),
    HeadphoneFallback(Seq<char>),
    Unavailable,
    Disabled,
}

pub struct RouteModel {
    pub outputs: Seq<Seq<char>>,
    pub state: RouteStateModel,
    pub notice: Option<Seq<char>>,
}

impl View for ResolvedAudioRoute {
    type V = RouteModel;

    open spec fn view(&self) -> RouteModel {
        RouteModel {
            outputs: views(self.outputs@),
            state: match self.state {
                AudioRouteState::Preferred => RouteStateModel::Preferred,
                AudioRouteState::InternalFallback { name } => RouteStateModel::InternalFallback(name@),
                AudioRouteState::HeadphoneFallback { name } => RouteStateModel::HeadphoneFallback(name@),
                AudioRouteState::Unavailable => RouteStateModel::Unavailable,
                AudioRouteState::Disabled => RouteStateModel::Disabled,
            },
            notice: opt_view(self.notice),
        }
    }
}

/// Whether two distinct ports are both visible.
pub open spec fn pair_visible(ports: Seq<Seq<char>>, left: Seq<char>, right: Seq<char>) -> bool {
    left != right && ports.contains(left) && ports.contains(right)
}

/// The first of `routes[i..]` whose ports are both visible.
pub open spec fn first_visible(routes: Seq<StereoModel>, ports: Seq<Seq<char>>, i: int) -> Option<StereoModel>
    decreases routes.len() - i,
{
    if i < 0 || i >= routes.len() {
        None
    } else if pair_visible(ports, routes[i].left_port, routes[i].right_port) {
        Some(routes[i])
    } else {
        first_visible(routes, ports, i + 1)
    }
}

/// Whether both ports of a stereo output are visible and distinct.
pub open spec fn output_shown(ports: Seq<Seq<char>>, route: StereoModel) -> bool {
    route.left_port != route.right_port && ports.contains(route.left_port) && ports.contains(route.right_port)
}

proof fn lemma_first_visible_least(routes: Seq<StereoModel>, ports: Seq<Seq<char>>, i: int, k: int)
    requires
        0 <= i <= k < routes.len(),
        output_shown(ports, routes[k]),
        forall|j: int| i <= j < k ==> !output_shown(ports, #[trigger] routes[j]),
    ensures
        first_visible(routes, ports, i) == Some(routes[k]),
    decreases k - i,
{
    if i < k {
        assert(!output_shown(ports, routes[i]));
        lemma_first_visible_least(routes, ports, i + 1, k);
    }
}

proof fn lemma_first_visible_none(routes: Seq<StereoModel>, ports: Seq<Seq<char>>, i: int)
    requires
        0 <= i,
        forall|j: int| i <= j < routes.len() ==> !output_shown(ports, #[trigger] routes[j]),
    ensures
        first_visible(routes, ports, i) is None,
    decreases routes.len() - i,
{
    if i < routes.len() {
        assert(!output_shown(ports, routes[i]));
        lemma_first_visible_none(routes, ports, i + 1);
    }
}

/// The internal fallback is the first internal output, in configured
/// order, whose two distinct ports are both visible: when automatic
/// connection is on, the preferred pair is not visible and output `k` is
/// the first shown, audio goes to output `k` under its name; and when no
/// internal output is shown, no internal fallback is chosen.
pub proof fn lemma_internal_fallback_is_first_shown(m: ConfigModel, ports: Seq<Seq<char>>, k: int)
    requires
        m.audio_autoconnect,
        !(m.audio_outputs.len() == 2 && m.audio_outputs[0] != m.audio_outputs[1]
            && ports.contains(m.audio_outputs[0]) && ports.contains(m.audio_outputs[1])),
    ensures
        0 <= k < m.audio_internal_outputs.len() && output_shown(ports, m.audio_internal_outputs[k])
            && (forall|j: int| 0 <= j < k ==> !output_shown(ports, #[trigger] m.audio_internal_outputs[j]))
            ==> spec_route(m, ports).outputs == seq![m.audio_internal_outputs[k].left_port, m.audio_internal_outputs[k].right_port]
            && spec_route(m, ports).state == RouteStateModel::InternalFallback(m.audio_internal_outputs[k].name),
        (forall|j: int| 0 <= j < m.audio_internal_outputs.len() ==> !output_shown(ports, #[trigger] m.audio_internal_outputs[j]))
            ==> !(spec_route(m, ports).state is InternalFallback),
{
    let routes = m.audio_internal_outputs;
    if 0 <= k < routes.len() && output_shown(ports, routes[k]) && (forall|j: int| 0 <= j < k ==> !output_shown(ports, #[trigger] routes[j])) {
        lemma_first_visible_least(routes, ports, 0, k);
    }
    if forall|j: int| 0 <= j < routes.len() ==> !output_shown(ports, #[trigger] routes[j]) {
        lemma_first_visible_none(routes, ports, 0);
    }
}

/// The order routes are tried in: with automatic connection off nothing is
/// connected; a visible preferred pair always wins; the headphones are used
/// only when the preferred pair and every internal output are hidden; and
/// with nothing visible the preferred pair is kept, marked unavailable.
#[verifier::rlimit(60)]
#[verifier::spinoff_prover]
pub proof fn lemma_route_priority(m: ConfigModel, ports: Seq<Seq<char>>)
    ensures
        !m.audio_autoconnect ==> spec_route(m, ports).outputs.len() == 0
            && spec_route(m, ports).state == RouteStateModel::Disabled,
        m.audio_autoconnect && m.audio_outputs.len() == 2 && m.audio_outputs[0] != m.audio_outputs[1]
            && ports.contains(m.audio_outputs[0]) && ports.contains(m.audio_outputs[1])
            ==> spec_route(m, ports).outputs == m.audio_outputs && spec_route(m, ports).state == RouteStateModel::Preferred,
        spec_route(m, ports).state is HeadphoneFallback ==> m.audio_headphone_output is Some
            && output_shown(ports, m.audio_headphone_output->0)
            && spec_route(m, ports).outputs == seq![m.audio_headphone_output->0.left_port, m.audio_headphone_output->0.right_port]
            && forall|j: int| 0 <= j < m.audio_internal_outputs.len() ==> !output_shown(ports, #[trigger] m.audio_internal_outputs[j]),
        spec_route(m, ports).state is Unavailable ==> spec_route(m, ports).outputs == m.audio_outputs,
{
    let routes = m.audio_internal_outputs;
    if spec_route(m, ports).state is HeadphoneFallback {
        assert forall|j: int| 0 <= j < routes.len() implies !output_shown(ports, #[trigger] routes[j]) by {
            if output_shown(ports, routes[j]) {
                let k = choose|k: int| 0 <= k <= j && output_shown(ports, #[trigger] routes[k])
                    && forall|i: int| 0 <= i < k ==> !output_shown(ports, #[trigger] routes[i]);
                lemma_first_shown_exists(routes, ports, j);
                lemma_internal_fallback_is_first_shown(m, ports, k);
            }
        }
    }
}

proof fn lemma_first_shown_exists(routes: Seq<StereoModel>, ports: Seq<Seq<char>>, j: int)
    requires
        0 <= j < routes.len(),
        output_shown(ports, routes[j]),
    ensures
        exists|k: int| 0 <= k <= j && output_shown(ports, #[trigger] routes[k])
            && forall|i: int| 0 <= i < k ==> !output_shown(ports, #[trigger] routes[i]),
    decreases j,
{
    if exists|i: int| 0 <= i < j && output_shown(ports, #[trigger] routes[i]) {
        let i = choose|i: int| 0 <= i < j && output_shown(ports, #[trigger] routes[i]);
        lemma_first_shown_exists(routes, ports, i);
    } else {
        assert(0 <= j <= j && output_shown(ports, routes[j]));
    }
}

/// The preferred pair as the notices name it.
pub open spec fn preferred_text(outputs: Seq<Seq<char>>) -> Seq<char> {
    if outputs.len() == 0 {
        "unconfigured preferred audio route"@
    } else {
        join_with(outputs, " + "@)
    }
}

/// The stereo pair audio goes to when `ports` are visible: none when
/// automatic connection is off; the preferred pair when it is visible; else
/// the first visible internal output, then the headphones; else the
/// preferred pair is kept, marked unavailable.
pub open spec fn spec_route(m: ConfigModel, ports: Seq<Seq<char>>) -> RouteModel {
    let missing = preferred_text(m.audio_outputs);
    if !m.audio_autoconnect {
        RouteModel { outputs: Seq::empty(), state: RouteStateModel::Disabled, notice: None }
    } else if m.audio_outputs.len() == 2 && pair_visible(ports, m.audio_outputs[0], m.audio_outputs[1]) {
        RouteModel { outputs: m.audio_outputs, state: RouteStateModel::Preferred, notice: None }
    } else if first_visible(m.audio_internal_outputs, ports, 0) is Some {
        let route = first_visible(m.audio_internal_outputs, ports, 0)->0;
        RouteModel {
            outputs: seq![route.left_port, route.right_port],
            state: RouteStateModel::InternalFallback(route.name),
            notice: Some("audio fallback: "@ + route.name + " · missing "@ + missing),
        }
    } else if m.audio_headphone_output is Some && pair_visible(ports,
        m.audio_headphone_output->0.left_port, m.audio_headphone_output->0.right_port) {
        let route = m.audio_headphone_output->0;
        RouteModel {
            outputs: seq![route.left_port, route.right_port],
            state: RouteStateModel::HeadphoneFallback(route.name),
            notice: Some("headphone fallback: "@ + route.name + " · missing "@ + missing),
        }
    } else {
        RouteModel {
            outputs: m.audio_outputs,
            state: RouteStateModel::Unavailable,
            notice: Some("audio unavailable · missing "@ + missing),
        }
    }
}

fn port_listed(ports: &[String], port: &String) -> (r: bool)
    ensures
        r == views(ports@).contains(port@),
{
    let p = chars_of(port.as_str());
    let mut i: usize = 0;
    while i < ports.len()
        invariant
            i <= ports.len(),
            p@ == port@,
            forall|k: int| 0 <= k < i ==> views(ports@)[k] != port@,
        decreases ports.len() - i,
    {
        let q = chars_of(ports[i].as_str());
        if chars_eq(&q, &p) {
            assert(views(ports@)[i as int] == port@);
            return true;
        }
        i += 1;
    }
    proof {
        if views(ports@).contains(port@) {
            let k = choose|k: int| 0 <= k < views(ports@).len() && views(ports@)[k] == port@;
            assert(views(ports@)[k] != port@);
        }
    }
    false
}

fn pair_visible_exec(ports: &[String], left: &String, right: &String) -> (r: bool)
    ensures
        r == pair_visible(views(ports@), left@, right@),
{
    let l = chars_of(left.as_str());
    let rt = chars_of(right.as_str());
    !chars_eq(&l, &rt) && port_listed(ports, left) && port_listed(ports, right)
}

fn first_visible_exec(routes: &Vec<StereoOutputConfig>, ports: &[String], start: usize) -> (r: Option<usize>)
    requires
        start <= routes.len(),
    ensures
        match r {
            Some(k) => start <= k < routes.len() && first_visible(output_views(routes@), views(ports@), start as int)
                == Some(routes@[k as int]@),
            None => first_visible(output_views(routes@), views(ports@), start as int) is None,
        },
    decreases routes.len() - start,
{
    if start >= routes.len() {
        return None;
    }
    if pair_visible_exec(ports, &routes[start].left_port, &routes[start].right_port) {
        Some(start)
    } else {
        first_visible_exec(routes, ports, start + 1)
    }
}

fn joined(words: &Vec<String>, sep: &str) -> (r: String)
    ensures
        r@ == join_with(views(words@), sep@),
{
    let mut out = String::new();
    let mut i: usize = 0;
    while i < words.len()
        invariant
            i <= words.len(),
            out@ == join_with(views(words@).take(i as int), sep@),
        decreases words.len() - i,
    {
        let ghost before = views(words@).take(i as int);
        assert(views(words@).take(i + 1).drop_last() =~= before);
        if i > 0 {
            push_str(&mut out, sep);
        } else {
            assert(before =~= Seq::<Seq<char>>::empty());
        }
        push_str(&mut out, words[i].as_str());
        i += 1;
    }
    assert(views(words@).take(words.len() as int) =~= views(words@));
    out
}

fn copy_strings(v: &Vec<String>) -> (r: Vec<String>)
    ensures
        views(r@) == views(v@),
{
    list_setting(v, true, None)
}

fn pair_of(left: &String, right: &String) -> (r: Vec<String>)
    ensures
        views(r@) == seq![left@, right@],
{
    let mut r: Vec<String> = Vec::new();
    r.push(copy_string(left));
    r.push(copy_string(right));
    assert(views(r@) =~= seq![left@, right@]);
    r
}

impl RuntimeConfig {
    /// The stereo pair to connect among the visible `available_ports`,
    /// without changing the remembered settings: the preferred pair, then
    /// the internal outputs in order, the headphones last.
    pub fn resolve_audio_route(&self, available_ports: &[String]) -> (r: ResolvedAudioRoute)
        ensures
            r@ == spec_route(self@, views(available_ports@)),
    {
        if !self.audio_autoconnect {
            let r = ResolvedAudioRoute { outputs: Vec::new(), state: AudioRouteState::Disabled, notice: None };
            assert(views(r.outputs@) =~= Seq::<Seq<char>>::empty());
            return r;
        }
        if self.audio_outputs.len() == 2
            && pair_visible_exec(available_ports, &self.audio_outputs[0], &self.audio_outputs[1]) {
            return ResolvedAudioRoute {
                outputs: copy_strings(&self.audio_outputs),
                state: AudioRouteState::Preferred,
                notice: None,
            };
        }
        let preferred = if self.audio_outputs.len() == 0 {
            owned("unconfigured preferred audio route")
        } else {
            joined(&self.audio_outputs, " + ")
        };
        if let Some(k) = first_visible_exec(&self.audio_internal_outputs, available_ports, 0) {
            let route = &self.audio_internal_outputs[k];
            let mut notice = owned("audio fallback: ");
            push_str(&mut notice, route.name.as_str());
            push_str(&mut notice, " · missing ");
            push_str(&mut notice, preferred.as_str());
            return ResolvedAudioRoute {
                outputs: pair_of(&route.left_port, &route.right_port),
                state: AudioRouteState::InternalFallback { name: copy_string(&route.name) },
                notice: Some(notice),
            };
        }
        if let Some(route) = &self.audio_headphone_output {
            if pair_visible_exec(available_ports, &route.left_port, &route.right_port) {
                let mut notice = owned("headphone fallback: ");
                push_str(&mut notice, route.name.as_str());
                push_str(&mut notice, " · missing ");
                push_str(&mut notice, preferred.as_str());
                return ResolvedAudioRoute {
                    outputs: pair_of(&route.left_port, &route.right_port),
                    state: AudioRouteState::HeadphoneFallback { name: copy_string(&route.name) },
                    notice: Some(notice),
                };
            }
        }
        let mut notice = owned("audio unavailable · missing ");
        push_str(&mut notice, preferred.as_str());
        ResolvedAudioRoute {
            outputs: copy_strings(&self.audio_outputs),
            state: AudioRouteState::Unavailable,
            notice: Some(notice),
        }
    }
}

// ---------------------------------------------------------------------------
// The saved text
// ---------------------------------------------------------------------------

/// `key=value` and a newline.
pub open spec fn setting_line(key: Seq<char>, value: Seq<char>) -> Seq<char> {
    key + "="@ + value + "\n"@
}

/// One `key=item` line per item.
pub open spec fn list_lines(key: Seq<char>, items: Seq<Seq<char>>) -> Seq<char>
    decreases items.len(),
{
    if items.len() == 0 {
        Seq::empty()
    } else {
        list_lines(key, items.drop_last()) + setting_line(key, items.last())
    }
}

/// A list setting as saved: a line per item, or one empty `key=` line that
/// keeps an empty list empty.
pub open spec fn list_block(key: Seq<char>, items: Seq<Seq<char>>) -> Seq<char> {
    if items.len() == 0 { setting_line(key, Seq::empty()) } else { list_lines(key, items) }
}

pub open spec fn bool_text(b: bool) -> Seq<char> {
    if b { "true"@ } else { "false"@ }
}

pub open spec fn opt_text(o: Option<Seq<char>>) -> Seq<char> {
    match o {
        Some(s) => s,
        None => Seq::empty(),
    }
}

pub open spec fn opt_number(o: Option<nat>) -> Seq<char> {
    match o {
        Some(n) => decimal(n),
        None => Seq::empty(),
    }
}

/// A stereo route as saved: `NAME|LEFT|RIGHT`.
pub open spec fn route_text(r: StereoModel) -> Seq<char> {
    r.name + "|"@ + r.left_port + "|"@ + r.right_port
}

pub open spec fn route_texts(rs: Seq<StereoModel>) -> Seq<Seq<char>> {
    Seq::new(rs.len(), |i: int| route_text(rs[i]))
}

/// Bytes as saved, each raised by `offset`.
pub open spec fn byte_texts(bs: Seq<u8>, offset: nat) -> Seq<Seq<char>> {
    Seq::new(bs.len(), |i: int| decimal((bs[i] + offset) as nat))
}

pub open spec fn bank_text(b: BankSelectMode) -> Seq<char> {
    match b {
        BankSelectMode::Off => "off"@,
        BankSelectMode::Cc0 => "cc0"@,
        BankSelectMode::Cc0Cc32 => "cc0+cc32"@,
    }
}

pub open spec fn text_synth(m: ConfigModel) -> Seq<char> {
    "# SHR-DAW runtime and routing configuration v4\n"@
        + setting_line("synthv1.command"@, m.synth_command)
        + setting_line("synthv1.client"@, m.client_name)
        + setting_line("synth.startup_timeout_ms"@, decimal(m.startup_timeout_ms as nat))
        + setting_line("display.note_names"@, m.note_naming.spec_config_value())
        + setting_line("synthv1.presets"@, opt_text(m.preset_dir))
        + setting_line("synthv1.midi_output"@, m.midi_output_match)
        + setting_line("yoshimi.command"@, m.yoshimi.backend.command)
        + setting_line("yoshimi.client"@, m.yoshimi.backend.client_name)
        + setting_line("yoshimi.midi_output"@, m.yoshimi.backend.midi_output_match)
        + list_block("yoshimi.preset_root"@, m.yoshimi.backend.preset_roots)
        + list_block("yoshimi.category"@, m.yoshimi.categories)
}

pub open spec fn text_fluid(m: ConfigModel) -> Seq<char> {
    setting_line("yoshimi.presets_per_category"@, decimal(m.yoshimi.presets_per_category as nat))
        + setting_line("fluidsynth.command"@, m.fluidsynth.backend.command)
        + setting_line("fluidsynth.client"@, m.fluidsynth.backend.client_name)
        + setting_line("fluidsynth.midi_output"@, m.fluidsynth.backend.midi_output_match)
        + setting_line("fluidsynth.gain"@, m.fluidsynth.gain)
        + list_block("fluidsynth.soundfont"@, m.fluidsynth.soundfonts)
}

pub open spec fn text_routes(m: ConfigModel) -> Seq<char> {
    setting_line("midi.autoconnect"@, bool_text(m.midi_autoconnect))
        + list_block("midi.input"@, m.midi_input_matches)
        + setting_line("audio.autoconnect"@, bool_text(m.audio_autoconnect))
        + list_block("audio.output"@, m.audio_outputs)
        + list_block("audio.internal_output"@, route_texts(m.audio_internal_outputs))
        + setting_line("audio.headphone_output"@, match m.audio_headphone_output {
            Some(r) => route_text(r),
            None => Seq::empty(),
        })
}

pub open spec fn text_graph(m: ConfigModel) -> Seq<char> {
    setting_line("audio.graph.enabled"@, bool_text(m.audio_graph.enabled))
        + setting_line("audio.graph.client"@, m.audio_graph.client_name)
        + setting_line("audio.graph.maximum_callback_frames"@, decimal(m.audio_graph.maximum_callback_frames as nat))
        + setting_line("audio.engine_cpu"@, opt_number(match m.audio_engine_cpu {
            Some(c) => Some(c as nat),
            None => None,
        }))
}

pub open spec fn text_external(m: ConfigModel) -> Seq<char> {
    let x = m.external_midi;
    setting_line("external_midi.enabled"@, bool_text(x.enabled))
        + setting_line("external_midi.client"@, x.client_name)
        + setting_line("external_midi.output"@, x.output_match)
        + setting_line("external_midi.max_tracks"@, decimal(x.max_tracks as nat))
        + list_block("external_midi.channel"@, byte_texts(x.channels, 1))
}

pub open spec fn text_percussion(m: ConfigModel) -> Seq<char> {
    let x = m.external_midi;
    setting_line("external_midi.melody_channel"@, decimal((x.melody_channel + 1) as nat))
        + setting_line("external_midi.percussion_channel"@, opt_number(match x.percussion_channel {
            Some(c) => Some((c + 1) as nat),
            None => None,
        }))
        + setting_line("external_midi.percussion_program"@, opt_number(match x.percussion_program {
            Some(p) => Some(p as nat),
            None => None,
        }))
        + setting_line("external_midi.percussion_input_base"@, decimal(x.percussion_input_base as nat))
        + list_block("external_midi.percussion_note"@, byte_texts(x.percussion_notes, 0))
}

pub open spec fn text_external_rest(m: ConfigModel) -> Seq<char> {
    let x = m.external_midi;
    setting_line("external_midi.bank_select"@, bank_text(x.bank_select))
        + setting_line("external_midi.program_changes"@, bool_text(x.program_changes))
        + setting_line("external_midi.send_transport"@, bool_text(x.send_transport))
        + setting_line("external_midi.default_tempo"@, decimal(x.default_tempo as nat))
        + setting_line("external_midi.pattern_rows"@, decimal(x.default_pattern_rows as nat))
        + setting_line("external_midi.steps_per_beat"@, decimal(x.steps_per_beat as nat))
        + setting_line("external_midi.live_thru"@, bool_text(x.live_thru))
        + setting_line("external_midi.profile"@, x.profile)
        + setting_line("external_midi.gate_percent"@, decimal(x.gate_percent as nat))
        + setting_line("external_midi.gesture_settle_ms"@, decimal(x.gesture_settle_ms as nat))
}

pub open spec fn text_capture(m: ConfigModel) -> Seq<char> {
    setting_line("capture.client"@, m.capture.client_name)
        + setting_line("capture.directory"@, m.capture.directory)
        + setting_line("capture.ring_frames"@, decimal(m.capture.ring_frames as nat))
        + list_block("capture.input"@, route_texts(m.capture.inputs))
        + setting_line("loop.client"@, m.loop_player.client_name)
        + setting_line("loop.import_directory"@, m.loop_player.import_directory)
        + list_block("loop.output"@, m.loop_player.outputs)
        + setting_line("status.cpu_temperature_path"@, opt_text(m.cpu_temperature_path))
}

/// The configuration text the settings are saved as.
pub open spec fn config_text(m: ConfigModel) -> Seq<char> {
    text_synth(m) + text_fluid(m) + text_routes(m) + text_graph(m) + text_external(m) + text_percussion(m) + text_external_rest(m) + text_capture(m)
}

fn push_setting(out: &mut String, key: &str, value: &str)
    ensures
        final(out)@ == old(out)@ + setting_line(key@, value@),
{
    push_str(out, key);
    push_str(out, "=");
    push_str(out, value);
    push_str(out, "\n");
    proof {
        assert(final(out)@ =~= old(out)@ + setting_line(key@, value@));
    }
}

fn push_number_setting(out: &mut String, key: &str, n: u64)
    ensures
        final(out)@ == old(out)@ + setting_line(key@, decimal(n as nat)),
{
    push_str(out, key);
    push_str(out, "=");
    push_decimal(out, n);
    push_str(out, "\n");
    proof {
        assert(final(out)@ =~= old(out)@ + setting_line(key@, decimal(n as nat)));
    }
}

fn bool_str(b: bool) -> (r: &'static str)
    ensures
        r@ == bool_text(b),
{
    if b { "true" } else { "false" }
}

fn push_list(out: &mut String, key: &str, items: &Vec<String>)
    ensures
        final(out)@ == old(out)@ + list_block(key@, views(items@)),
{
    if items.len() == 0 {
        push_setting(out, key, "");
        proof {
            reveal_strlit("");
        }
        return;
    }
    let ghost start = out@;
    let mut i: usize = 0;
    while i < items.len()
        invariant
            i <= items.len(),
            out@ == start + list_lines(key@, views(items@).take(i as int)),
        decreases items.len() - i,
    {
        assert(views(items@).take(i + 1).drop_last() =~= views(items@).take(i as int));
        push_setting(out, key, items[i].as_str());
        i += 1;
    }
    assert(views(items@).take(items.len() as int) =~= views(items@));
}

fn push_decimal_value(out: &mut String, key: &str, n: Option<u64>)
    ensures
        final(out)@ == old(out)@ + setting_line(key@, opt_number(match n { Some(v) => Some(v as nat), None => None })),
{
    match n {
        Some(v) => push_number_setting(out, key, v),
        None => {
            push_setting(out, key, "");
            proof {
                reveal_strlit("");
            }
        },
    }
}

fn push_byte_list(out: &mut String, key: &str, items: &Vec<u8>, offset: u8)
    requires
        offset <= 1,
    ensures
        final(out)@ == old(out)@ + list_block(key@, byte_texts(items@, offset as nat)),
{
    if items.len() == 0 {
        push_setting(out, key, "");
        proof {
            reveal_strlit("");
        }
        return;
    }
    let ghost start = out@;
    let mut i: usize = 0;
    while i < items.len()
        invariant
            i <= items.len(),
            offset <= 1,
            out@ == start + list_lines(key@, byte_texts(items@, offset as nat).take(i as int)),
        decreases items.len() - i,
    {
        assert(byte_texts(items@, offset as nat).take(i + 1).drop_last() =~= byte_texts(items@, offset as nat).take(i as int));
        push_number_setting(out, key, items[i] as u64 + offset as u64);
        i += 1;
    }
    assert(byte_texts(items@, offset as nat).take(items.len() as int) =~= byte_texts(items@, offset as nat));
}

fn route_string(name: &String, left: &String, right: &String) -> (r: String)
    ensures
        r@ == route_text(StereoModel { name: name@, left_port: left@, right_port: right@ }),
{
    let mut out = copy_string(name);
    push_str(&mut out, "|");
    push_str(&mut out, left.as_str());
    push_str(&mut out, "|");
    push_str(&mut out, right.as_str());
    out
}

fn output_texts(v: &Vec<StereoOutputConfig>) -> (r: Vec<String>)
    ensures
        views(r@) == route_texts(output_views(v@)),
{
    let mut out: Vec<String> = Vec::new();
    let mut i: usize = 0;
    while i < v.len()
        invariant
            i <= v.len(),
            views(out@) == route_texts(output_views(v@)).take(i as int),
        decreases v.len() - i,
    {
        let s = route_string(&v[i].name, &v[i].left_port, &v[i].right_port);
        let ghost before = out@;
        out.push(s);
        assert(views(out@) =~= views(before).push(s@));
        assert(route_texts(output_views(v@)).take(i + 1) =~= route_texts(output_views(v@)).take(i as int).push(s@));
        i += 1;
    }
    assert(route_texts(output_views(v@)).take(v.len() as int) =~= route_texts(output_views(v@)));
    out
}

fn input_texts(v: &Vec<StereoInputConfig>) -> (r: Vec<String>)
    ensures
        views(r@) == route_texts(input_views(v@)),
{
    let mut out: Vec<String> = Vec::new();
    let mut i: usize = 0;
    while i < v.len()
        invariant
            i <= v.len(),
            views(out@) == route_texts(input_views(v@)).take(i as int),
        decreases v.len() - i,
    {
        let s = route_string(&v[i].name, &v[i].left_port, &v[i].right_port);
        let ghost before = out@;
        out.push(s);
        assert(views(out@) =~= views(before).push(s@));
        assert(route_texts(input_views(v@)).take(i + 1) =~= route_texts(input_views(v@)).take(i as int).push(s@));
        i += 1;
    }
    assert(route_texts(input_views(v@)).take(v.len() as int) =~= route_texts(input_views(v@)));
    out
}

fn opt_str(o: &Option<String>) -> (r: &str)
    ensures
        r@ == opt_text(opt_view(*o)),
{
    match o {
        Some(s) => s.as_str(),
        None => {
            proof {
                reveal_strlit("");
            }
            ""
        },
    }
}

impl RuntimeConfig {
    #[verifier::spinoff_prover]
    #[verifier::rlimit(40)]
    fn push_text_synth(&self, out: &mut String)
        ensures
            final(out)@ == old(out)@ + text_synth(self@),
    {
        push_str(out, "# SHR-DAW runtime and routing configuration v4\n");
        push_setting(out, "synthv1.command", self.synth_command.as_str());
        push_setting(out, "synthv1.client", self.client_name.as_str());
        push_number_setting(out, "synth.startup_timeout_ms", self.startup_timeout_ms);
        push_setting(out, "display.note_names", self.note_naming.config_value());
        push_setting(out, "synthv1.presets", opt_str(&self.preset_dir));
        push_setting(out, "synthv1.midi_output", self.midi_output_match.as_str());
        push_setting(out, "yoshimi.command", self.yoshimi.backend.command.as_str());
        push_setting(out, "yoshimi.client", self.yoshimi.backend.client_name.as_str());
        push_setting(out, "yoshimi.midi_output", self.yoshimi.backend.midi_output_match.as_str());
        push_list(out, "yoshimi.preset_root", &self.yoshimi.backend.preset_roots);
        push_list(out, "yoshimi.category", &self.yoshimi.categories);
        proof {
            assert(final(out)@ =~= old(out)@ + text_synth(self@));
        }
    }

    #[verifier::spinoff_prover]
    #[verifier::rlimit(40)]
    fn push_text_fluid(&self, out: &mut String)
        ensures
            final(out)@ == old(out)@ + text_fluid(self@),
    {
        push_number_setting(out, "yoshimi.presets_per_category", self.yoshimi.presets_per_category as u64);
        push_setting(out, "fluidsynth.command", self.fluidsynth.backend.command.as_str());
        push_setting(out, "fluidsynth.client", self.fluidsynth.backend.client_name.as_str());
        push_setting(out, "fluidsynth.midi_output", self.fluidsynth.backend.midi_output_match.as_str());
        push_setting(out, "fluidsynth.gain", self.fluidsynth.gain.as_str());
        push_list(out, "fluidsynth.soundfont", &self.fluidsynth.soundfonts);
        proof {
            assert(final(out)@ =~= old(out)@ + text_fluid(self@));
        }
    }

    #[verifier::spinoff_prover]
    #[verifier::rlimit(40)]
    fn push_text_routes(&self, out: &mut String)
        ensures
            final(out)@ == old(out)@ + text_routes(self@),
    {
        push_setting(out, "midi.autoconnect", bool_str(self.midi_autoconnect));
        push_list(out, "midi.input", &self.midi_input_matches);
        push_setting(out, "audio.autoconnect", bool_str(self.audio_autoconnect));
        push_list(out, "audio.output", &self.audio_outputs);
        let internal = output_texts(&self.audio_internal_outputs);
        push_list(out, "audio.internal_output", &internal);
        match &self.audio_headphone_output {
            Some(h) => {
                let s = route_string(&h.name, &h.left_port, &h.right_port);
                push_setting(out, "audio.headphone_output", s.as_str());
            },
            None => {
                push_setting(out, "audio.headphone_output", "");
                proof {
                    reveal_strlit("");
                }
            },
        }
        proof {
            assert(final(out)@ =~= old(out)@ + text_routes(self@));
        }
    }

    #[verifier::spinoff_prover]
    #[verifier::rlimit(40)]
    fn push_text_graph(&self, out: &mut String)
        ensures
            final(out)@ == old(out)@ + text_graph(self@),
    {
        push_setting(out, "audio.graph.enabled", bool_str(self.audio_graph.enabled));
        push_setting(out, "audio.graph.client", self.audio_graph.client_name.as_str());
        push_number_setting(out, "audio.graph.maximum_callback_frames", self.audio_graph.maximum_callback_frames as u64);
        let cpu = match self.audio_engine_cpu {
            Some(c) => Some(c as u64),
            None => None,
        };
        push_decimal_value(out, "audio.engine_cpu", cpu);
        proof {
            assert(final(out)@ =~= old(out)@ + text_graph(self@));
        }
    }

    #[verifier::spinoff_prover]
    #[verifier::rlimit(40)]
    fn push_text_external(&self, out: &mut String)
        ensures
            final(out)@ == old(out)@ + text_external(self@),
    {
        let x = &self.external_midi;
        push_setting(out, "external_midi.enabled", bool_str(x.enabled));
        push_setting(out, "external_midi.client", x.client_name.as_str());
        push_setting(out, "external_midi.output", x.output_match.as_str());
        push_number_setting(out, "external_midi.max_tracks", x.max_tracks as u64);
        push_byte_list(out, "external_midi.channel", &x.channels, 1);
        proof {
            assert(final(out)@ =~= old(out)@ + text_external(self@));
        }
    }

    #[verifier::spinoff_prover]
    #[verifier::rlimit(40)]
    fn push_text_percussion(&self, out: &mut String)
        ensures
            final(out)@ == old(out)@ + text_percussion(self@),
    {
        let x = &self.external_midi;
        push_number_setting(out, "external_midi.melody_channel", x.melody_channel as u64 + 1);
        let percussion = match x.percussion_channel {
            Some(c) => Some(c as u64 + 1),
            None => None,
        };
        push_decimal_value(out, "external_midi.percussion_channel", percussion);
        let program = match x.percussion_program {
            Some(p) => Some(p as u64),
            None => None,
        };
        push_decimal_value(out, "external_midi.percussion_program", program);
        push_number_setting(out, "external_midi.percussion_input_base", x.percussion_input_base as u64);
        push_byte_list(out, "external_midi.percussion_note", &x.percussion_notes, 0);
        proof {
            assert(final(out)@ =~= old(out)@ + text_percussion(self@));
        }
    }

    #[verifier::spinoff_prover]
    #[verifier::rlimit(40)]
    fn push_text_external_rest(&self, out: &mut String)
        ensures
            final(out)@ == old(out)@ + text_external_rest(self@),
    {
        let x = &self.external_midi;
        let bank = match x.bank_select {
            BankSelectMode::Off => "off",
            BankSelectMode::Cc0 => "cc0",
            BankSelectMode::Cc0Cc32 => "cc0+cc32",
        };
        push_setting(out, "external_midi.bank_select", bank);
        push_setting(out, "external_midi.program_changes", bool_str(x.program_changes));
        push_setting(out, "external_midi.send_transport", bool_str(x.send_transport));
        push_number_setting(out, "external_midi.default_tempo", x.default_tempo as u64);
        push_number_setting(out, "external_midi.pattern_rows", x.default_pattern_rows as u64);
        push_number_setting(out, "external_midi.steps_per_beat", x.steps_per_beat as u64);
        push_setting(out, "external_midi.live_thru", bool_str(x.live_thru));
        push_setting(out, "external_midi.profile", x.profile.as_str());
        push_number_setting(out, "external_midi.gate_percent", x.gate_percent as u64);
        push_number_setting(out, "external_midi.gesture_settle_ms", x.gesture_settle_ms);
        proof {
            assert(final(out)@ =~= old(out)@ + text_external_rest(self@));
        }
    }

    #[verifier::spinoff_prover]
    #[verifier::rlimit(40)]
    fn push_text_capture(&self, out: &mut String)
        ensures
            final(out)@ == old(out)@ + text_capture(self@),
    {
        push_setting(out, "capture.client", self.capture.client_name.as_str());
        push_setting(out, "capture.directory", self.capture.directory.as_str());
        push_number_setting(out, "capture.ring_frames", self.capture.ring_frames as u64);
        let inputs = input_texts(&self.capture.inputs);
        push_list(out, "capture.input", &inputs);
        push_setting(out, "loop.client", self.loop_player.client_name.as_str());
        push_setting(out, "loop.import_directory", self.loop_player.import_directory.as_str());
        push_list(out, "loop.output", &self.loop_player.outputs);
        push_setting(out, "status.cpu_temperature_path", opt_str(&self.cpu_temperature_path));
        proof {
            assert(final(out)@ =~= old(out)@ + text_capture(self@));
        }
    }

    /// The configuration text these settings are saved as: every setting,
    /// lists one line per item, an empty list as one empty line.
    pub fn to_text(&self) -> (r: String)
        ensures
            r@ == config_text(self@),
    {
        let mut out = String::new();
        self.push_text_synth(&mut out);
        self.push_text_fluid(&mut out);
        self.push_text_routes(&mut out);
        self.push_text_graph(&mut out);
        self.push_text_external(&mut out);
        self.push_text_percussion(&mut out);
        self.push_text_external_rest(&mut out);
        self.push_text_capture(&mut out);
        assert(out@ =~= config_text(self@));
        out
    }
}

impl RuntimeConfig {
    /// The text to save these settings as, where `cpus` CPUs can be
    /// reserved: refused, with the reason, when it would not load back over
    /// the built-in settings.
    pub fn save_text_with(&self, path: &str, home: Option<&str>, cpus: usize) -> (r: Result<String, String>)
        requires
            cpus >= 1,
        ensures
            match spec_merge(base_model(home_view(home)), config_text(self@), path@, home_view(home), cpus as nat) {
                Ok(_) => r matches Ok(t) && t@ == config_text(self@),
                Err(e) => r matches Err(x) && x@ == "refusing to save invalid runtime configuration: "@ + e,
            },
    {
        let text = self.to_text();
        let check = RuntimeConfig::base(home).merged_with(text.as_str(), path, home, cpus);
        match check {
            Ok(_) => Ok(text),
            Err(e) => {
                let mut out = owned("refusing to save invalid runtime configuration: ");
                push_str(&mut out, e.as_str());
                Err(out)
            },
        }
    }

    /// The text to save these settings as, with the CPU limit of this target.
    pub fn save_text(&self, path: &str, home: Option<&str>) -> (r: Result<String, String>)
        ensures
            exists|cpus: nat| #![trigger spec_merge(base_model(home_view(home)), config_text(self@), path@, home_view(home), cpus)]
                cpus >= 1 && match spec_merge(base_model(home_view(home)), config_text(self@), path@, home_view(home), cpus) {
                    Ok(_) => r matches Ok(t) && t@ == config_text(self@),
                    Err(e) => r matches Err(x) && x@ == "refusing to save invalid runtime configuration: "@ + e,
                },
    {
        let cpus = cpu_set_size();
        let r = self.save_text_with(path, home, cpus);
        proof {
            let n = cpus as nat;
            assert(spec_merge(base_model(home_view(home)), config_text(self@), path@, home_view(home), n)
                == spec_merge(base_model(home_view(home)), config_text(self@), path@, home_view(home), cpus as nat));
        }
        r
    }
}

} // verus!

