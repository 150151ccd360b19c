//! Controller discovery and the MIDI-learn session that builds a controller
//! mapping one role at a time.
use vstd::prelude::*;
use std::collections::HashSet;
use std::time::Instant;
use crate::pads::{ControllerLayout, PadAction};
use crate::text::{
    words_from, words_of,
    chars_of, contains_chars, contains_seq, decimal, join_with,
    lower_chars, lower_seq, owned, push_decimal, push_str, split_once,
    split_once_chars, string_from_chars, sub_chars, all_digits, is_digit,
};

verus! {

broadcast use vstd::std_specs::hash::group_hash_axioms;

// ---------------------------------------------------------------------------
// Stable input names
// ---------------------------------------------------------------------------

pub open spec fn is_ascii_alnum(c: char) -> bool {
    ('0' <= c <= '9') || ('a' <= c <= 'z') || ('A' <= c <= 'Z')
}

/// Characters a port word keeps at its ends: ASCII letters, digits, `:`.
pub open spec fn is_kept(c: char) -> bool {
    is_ascii_alnum(c) || c == ':'
}

pub open spec fn first_kept(s: Seq<char>, i: int) -> int
    decreases s.len() - i,
{
    if i < 0 || i >= s.len() {
        s.len() as int
    } else if is_kept(s[i]) {
        i
    } else {
        first_kept(s, i + 1)
    }
}

pub open spec fn last_kept_end(s: Seq<char>, to: int) -> int
    decreases to,
{
    if to <= 0 || to > s.len() {
        0
    } else if is_kept(s[to - 1]) {
        to
    } else {
        last_kept_end(s, to - 1)
    }
}

/// `word` without leading and trailing characters other than ASCII letters,
/// digits and `:`.
pub open spec fn trim_unkept(word: Seq<char>) -> Seq<char> {
    let a = first_kept(word, 0);
    let b = last_kept_end(word, word.len() as int);
    if a < b {
        word.subrange(a, b)
    } else {
        Seq::empty()
    }
}

/// Whether a word of a port name is stable: not an ALSA `client:port`
/// address such as `24:0`.
pub open spec fn is_stable_word(word: Seq<char>) -> bool {
    match split_once(trim_unkept(word), ':') {
        Some((left, right)) => !(all_digits(left) && all_digits(right)),
        None => true,
    }
}

pub open spec fn stable_words(words: Seq<Seq<char>>) -> Seq<Seq<char>>
    decreases words.len(),
{
    if words.len() == 0 {
        Seq::empty()
    } else if is_stable_word(words.last()) {
        stable_words(words.drop_last()).push(words.last())
    } else {
        stable_words(words.drop_last())
    }
}

/// A port name without its unstable ALSA address words, words joined by
/// single spaces.
pub open spec fn spec_stable_input_match(name: Seq<char>) -> Seq<char> {
    join_with(stable_words(words_from(name, 0)), " "@)
}

fn is_kept_exec(c: char) -> (r: bool)
    ensures
        r == is_kept(c),
{
    ('0' <= c && c <= '9') || ('a' <= c && c <= 'z') || ('A' <= c && c <= 'Z') || c == ':'
}

fn trim_unkept_chars(word: &Vec<char>) -> (r: Vec<char>)
    ensures
        r@ == trim_unkept(word@),
{
    let mut a: usize = 0;
    while a < word.len() && !is_kept_exec(word[a])
        invariant
            a <= word.len(),
            first_kept(word@, 0) == first_kept(word@, a as int),
        decreases word.len() - a,
    {
        a += 1;
    }
    let mut b: usize = word.len();
    while b > 0 && !is_kept_exec(word[b - 1])
        invariant
            b <= word.len(),
            last_kept_end(word@, word@.len() as int) == last_kept_end(word@, b as int),
        decreases b,
    {
        b -= 1;
    }
    if a < b {
        sub_chars(word, a, b)
    } else {
        Vec::new()
    }
}

fn all_digits_chars(v: &Vec<char>) -> (r: bool)
    ensures
        r == all_digits(v@),
{
    let mut i: usize = 0;
    while i < v.len()
        invariant
            i <= v.len(),
            forall|t: int| 0 <= t < i ==> is_digit(#[trigger] v@[t]),
        decreases v.len() - i,
    {
        if !('0' <= v[i] && v[i] <= '9') {
            assert(!is_digit(v@[i as int]));
            return false;
        }
        i += 1;
    }
    true
}

fn is_stable_word_exec(word: &Vec<char>) -> (r: bool)
    ensures
        r == is_stable_word(word@),
{
    let token = trim_unkept_chars(word);
    match split_once_chars(&token, ':') {
        Some((left, right)) => !(all_digits_chars(&left) && all_digits_chars(&right)),
        None => true,
    }
}

/// Joins words with single spaces.
fn join_words(words: &Vec<Vec<char>>) -> (r: String)
    ensures
        r@ == join_with(crate::text::chars_views(words@), " "@),
{
    let ghost all = crate::text::chars_views(words@);
    let mut out = String::new();
    let mut k: usize = 0;
    while k < words.len()
        invariant
            k <= words.len(),
            all == crate::text::chars_views(words@),
            out@ == join_with(all.take(k as int), " "@),
        decreases words.len() - k,
    {
        assert(all.take(k + 1).drop_last() =~= all.take(k as int));
        if k > 0 {
            push_str(&mut out, " ");
        }
        let piece = string_from_chars(&words[k]);
        push_str(&mut out, piece.as_str());
        k += 1;
    }
    assert(all.take(words.len() as int) =~= all);
    out
}

/// The port name without volatile ALSA `client:port` address words, so a
/// saved match survives re-enumeration.
pub fn stable_input_match(name: &str) -> (r: String)
    ensures
        r@ == spec_stable_input_match(name@),
{
    let v = chars_of(name);
    let words = words_of(&v);
    let ghost all = crate::text::chars_views(words@);
    let mut kept: Vec<Vec<char>> = Vec::new();
    let mut k: usize = 0;
    while k < words.len()
        invariant
            k <= words.len(),
            all == crate::text::chars_views(words@),
            crate::text::chars_views(kept@) == stable_words(all.take(k as int)),
        decreases words.len() - k,
    {
        assert(all.take(k + 1).drop_last() =~= all.take(k as int));
        if is_stable_word_exec(&words[k]) {
            let ghost before = crate::text::chars_views(kept@);
            let copy = sub_chars(&words[k], 0, words[k].len());
            assert(copy@ =~= words@[k as int]@);
            kept.push(copy);
            assert(crate::text::chars_views(kept@) =~= before.push(words@[k as int]@));
        }
        k += 1;
    }
    assert(all.take(words.len() as int) =~= all);
    join_words(&kept)
}

} // verus!

verus! {

// ---------------------------------------------------------------------------
// Choosing the controller input
// ---------------------------------------------------------------------------

/// Whether input `name` is offered for selector `wanted`: with a selector,
/// its lowercase name contains the lowercase selector; without one, it is
/// neither the MIDI Through port nor one of SHR-DAW's own ports.
pub open spec fn input_offered(name: Seq<char>, wanted: Option<Seq<char>>) -> bool {
    match wanted {
        Some(w) => contains_seq(lower_seq(name), lower_seq(w)),
        None => !contains_seq(lower_seq(name), "midi through"@) && !contains_seq(
            lower_seq(name),
            "shr-daw"@,
        ),
    }
}

/// Indices (below `k`) of the inputs offered for `wanted`.
pub open spec fn offered_inputs(names: Seq<Seq<char>>, wanted: Option<Seq<char>>, k: int) -> Seq<int>
    decreases k,
{
    if k <= 0 {
        Seq::empty()
    } else if input_offered(names[k - 1], wanted) {
        offered_inputs(names, wanted, k - 1).push(k - 1)
    } else {
        offered_inputs(names, wanted, k - 1)
    }
}

/// The listing of several candidate inputs, one indented name per line.
pub open spec fn candidate_listing(names: Seq<Seq<char>>, idx: Seq<int>) -> Seq<char> {
    join_with(Seq::new(idx.len(), |j: int| "  "@ + names[idx[j]]), "\n"@)
}

/// The message for a selector that matches no input or several.
pub open spec fn resolve_input_error(names: Seq<Seq<char>>, wanted: Option<Seq<char>>) -> Seq<char> {
    let idx = offered_inputs(names, wanted, names.len() as int);
    match wanted {
        Some(w) => if idx.len() == 0 {
            "MIDI input not found: "@ + w
        } else {
            "MIDI input match is ambiguous: "@ + w
        },
        None => if idx.len() == 0 {
            "no external MIDI input detected"@
        } else {
            "more than one MIDI input detected; pass part of the port name:\n"@ + candidate_listing(
                names,
                idx,
            )
        },
    }
}

pub open spec fn opt_str(o: Option<&str>) -> Option<Seq<char>> {
    match o {
        Some(s) => Some(s@),
        None => None,
    }
}

proof fn lemma_offered_bounds(names: Seq<Seq<char>>, wanted: Option<Seq<char>>, k: int)
    requires
        0 <= k <= names.len(),
    ensures
        forall|j: int| 0 <= j < offered_inputs(names, wanted, k).len() ==> 0 <= #[trigger] offered_inputs(names, wanted, k)[j] < k,
    decreases k,
{
    if k > 0 {
        lemma_offered_bounds(names, wanted, k - 1);
        let before = offered_inputs(names, wanted, k - 1);
        let now = offered_inputs(names, wanted, k);
        assert forall|j: int| 0 <= j < now.len() implies 0 <= #[trigger] now[j] < k by {
            if j < before.len() {
                assert(now[j] == before[j]);
            }
        }
    }
}

/// Picks the controller input: the one input whose name contains the
/// selector (ignoring ASCII case), or, without a selector, the one external
/// input; none or several is an error naming the problem.
pub fn resolve_input_name(names: &[String], wanted: Option<&str>) -> (r: Result<String, String>)
    ensures
        ({
            let all = crate::text::views(names@);
            let idx = offered_inputs(all, opt_str(wanted), names@.len() as int);
            match r {
                Ok(name) => idx.len() == 1 && name@ == all[idx[0]],
                Err(message) => idx.len() != 1 && message@ == resolve_input_error(all, opt_str(wanted)),
            }
        }),
{
    let ghost all = crate::text::views(names@);
    let ghost w = opt_str(wanted);
    let wanted_lower: Option<Vec<char>> = match wanted {
        Some(s) => Some(lower_chars(s)),
        None => None,
    };
    let through = chars_of("midi through");
    let own = chars_of("shr-daw");
    let mut idx: Vec<usize> = Vec::new();
    let mut i: usize = 0;
    while i < names.len()
        invariant
            i <= names.len(),
            all == crate::text::views(names@),
            w == opt_str(wanted),
            through@ == "midi through"@,
            own@ == "shr-daw"@,
            match wanted_lower {
                Some(l) => w matches Some(ws) && l@ == lower_seq(ws),
                None => w is None,
            },
            idx@.len() == offered_inputs(all, w, i as int).len(),
            forall|j: int| 0 <= j < idx@.len() ==> idx@[j] as int == #[trigger] offered_inputs(all, w, i as int)[j],
        decreases names.len() - i,
    {
        let lower = lower_chars(names[i].as_str());
        let offered = match &wanted_lower {
            Some(l) => contains_chars(&lower, l),
            None => !contains_chars(&lower, &through) && !contains_chars(&lower, &own),
        };
        if offered {
            idx.push(i);
        }
        i += 1;
    }
    proof {
        lemma_offered_bounds(all, w, names@.len() as int);
    }
    if idx.len() == 1 {
        assert(idx@[0] as int == offered_inputs(all, w, names@.len() as int)[0]);
        return Ok(owned(names[idx[0]].as_str()));
    }
    let mut message = String::new();
    match wanted {
        Some(s) => {
            if idx.len() == 0 {
                push_str(&mut message, "MIDI input not found: ");
            } else {
                push_str(&mut message, "MIDI input match is ambiguous: ");
            }
            push_str(&mut message, s);
        },
        None => {
            if idx.len() == 0 {
                push_str(&mut message, "no external MIDI input detected");
            } else {
                push_str(&mut message, "more than one MIDI input detected; pass part of the port name:\n");
                let ghost prefix = message@;
                let ghost full = offered_inputs(all, w, names@.len() as int);
                let ghost lines = Seq::new(full.len(), |j: int| "  "@ + all[full[j]]);
                let mut k: usize = 0;
                while k < idx.len()
                    invariant
                        k <= idx.len(),
                        all == crate::text::views(names@),
                        idx@.len() == full.len(),
                        forall|j: int| 0 <= j < idx@.len() ==> idx@[j] as int == #[trigger] full[j],
                        forall|j: int| 0 <= j < full.len() ==> 0 <= #[trigger] full[j] < names@.len(),
                        lines == Seq::new(full.len(), |j: int| "  "@ + all[full[j]]),
                        message@ == prefix + join_with(lines.take(k as int), "\n"@),
                    decreases idx.len() - k,
                {
                    assert(lines.take(k + 1).drop_last() =~= lines.take(k as int));
                    if k > 0 {
                        push_str(&mut message, "\n");
                    }
                    let ghost before = message@;
                    assert(idx@[k as int] as int == full[k as int]);
                    push_str(&mut message, "  ");
                    push_str(&mut message, names[idx[k]].as_str());
                    assert(message@ =~= before + lines[k as int]);
                    k += 1;
                }
                assert(lines.take(idx.len() as int) =~= lines);
            }
        },
    }
    Err(message)
}

} // verus!

verus! {

// ---------------------------------------------------------------------------
// Learn roles
// ---------------------------------------------------------------------------

/// The first optional step: after the master encoder's left, right, click.
pub const FIRST_OPTIONAL_STEP: usize = 3;
/// Where the absolute controls start.
pub const CONTROL_STEP_START: usize = 3;
/// Where the command buttons start.
pub const BUTTON_STEP_START: usize = 11;
/// The final review step.
pub const CONFIRM_STEP: usize = 20;
/// Number of steps shown in the progress count.
pub const TOTAL_STEPS: usize = 21;
/// Number of command-button roles.
pub const COMMAND_COUNT: usize = 9;
/// Milliseconds of quiet required before the first role arms, and of
/// settling after a captured gesture.
pub const ENTRY_QUIET_MILLIS: u64 = 120;
pub const GESTURE_SETTLE_MILLIS: u64 = 120;

/// What one learn step asks the user to operate.
#[derive(Clone, Copy, Debug, PartialEq, Eq, Structural)]
pub enum LearnRole {
    AbsoluteControl(usize),
    EncoderClockwise,
    EncoderCounterClockwise,
    EncoderClick,
    Pad(usize),
    Confirm,
}

/// The command the `i`-th command-button role assigns.
pub open spec fn spec_command_action(i: int) -> crate::pads::PadAction {
    if i == 0 { crate::pads::PadAction::Page1 }
    else if i == 1 { crate::pads::PadAction::Page2 }
    else if i == 2 { crate::pads::PadAction::Page3 }
    else if i == 3 { crate::pads::PadAction::Page4 }
    else if i == 4 { crate::pads::PadAction::CyclePage }
    else if i == 5 { crate::pads::PadAction::Item1 }
    else if i == 6 { crate::pads::PadAction::Item2 }
    else if i == 7 { crate::pads::PadAction::Item3 }
    else { crate::pads::PadAction::Item4 }
}

pub fn command_action(i: usize) -> (r: crate::pads::PadAction)
    requires
        i < COMMAND_COUNT,
    ensures
        r == spec_command_action(i as int),
{
    match i {
        0 => crate::pads::PadAction::Page1,
        1 => crate::pads::PadAction::Page2,
        2 => crate::pads::PadAction::Page3,
        3 => crate::pads::PadAction::Page4,
        4 => crate::pads::PadAction::CyclePage,
        5 => crate::pads::PadAction::Item1,
        6 => crate::pads::PadAction::Item2,
        7 => crate::pads::PadAction::Item3,
        _ => crate::pads::PadAction::Item4,
    }
}

/// The role asked for at a step.
pub open spec fn spec_role(step: int) -> LearnRole {
    if step == 0 {
        LearnRole::EncoderCounterClockwise
    } else if step == 1 {
        LearnRole::EncoderClockwise
    } else if step == 2 {
        LearnRole::EncoderClick
    } else if CONTROL_STEP_START <= step < BUTTON_STEP_START {
        LearnRole::AbsoluteControl((step - CONTROL_STEP_START) as usize)
    } else if BUTTON_STEP_START <= step < CONFIRM_STEP {
        LearnRole::Pad((step - BUTTON_STEP_START) as usize)
    } else {
        LearnRole::Confirm
    }
}

impl LearnRole {
    /// Whether a role refers to a control or command that exists.
    pub open spec fn in_range(self) -> bool {
        match self {
            LearnRole::AbsoluteControl(i) => i < crate::control::CONTROL_COUNT,
            LearnRole::Pad(i) => i < COMMAND_COUNT,
            _ => true,
        }
    }

    /// The on-screen name of a role.
    pub open spec fn spec_label(self) -> Seq<char> {
        match self {
            LearnRole::AbsoluteControl(i) => "CONTROL "@ + decimal((i + 1) as nat) + " · "@
                + crate::control::spec_control_name(i as int),
            LearnRole::EncoderClockwise => "MASTER ENCODER · TURN RIGHT"@,
            LearnRole::EncoderCounterClockwise => "MASTER ENCODER · TURN LEFT"@,
            LearnRole::EncoderClick => "MASTER ENCODER · CLICK"@,
            LearnRole::Pad(i) => if i == 4 {
                "PAGE SWITCH · BUTTON OR MODIFIER + CONTROL"@
            } else {
                "COMMAND BUTTON · "@ + spec_command_action(i as int).spec_name()
            },
            LearnRole::Confirm => "REVIEW AND SAVE"@,
        }
    }

    /// The on-screen name of a role.
    pub fn label(self) -> (r: String)
        requires
            self.in_range(),
        ensures
            r@ == self.spec_label(),
    {
        let mut out = String::new();
        match self {
            LearnRole::AbsoluteControl(index) => {
                push_str(&mut out, "CONTROL ");
                push_decimal(&mut out, (index + 1) as u64);
                push_str(&mut out, " · ");
                push_str(&mut out, crate::control::control_name(index));
            },
            LearnRole::EncoderClockwise => push_str(&mut out, "MASTER ENCODER · TURN RIGHT"),
            LearnRole::EncoderCounterClockwise => push_str(&mut out, "MASTER ENCODER · TURN LEFT"),
            LearnRole::EncoderClick => push_str(&mut out, "MASTER ENCODER · CLICK"),
            LearnRole::Pad(index) => {
                if index == 4 {
                    push_str(&mut out, "PAGE SWITCH · BUTTON OR MODIFIER + CONTROL");
                } else {
                    push_str(&mut out, "COMMAND BUTTON · ");
                    push_str(&mut out, command_action(index).name());
                }
            },
            LearnRole::Confirm => push_str(&mut out, "REVIEW AND SAVE"),
        }
        out
    }

    /// Whether the user may skip this role: absolute controls and command
    /// buttons are optional.
    pub fn skippable(self) -> (r: bool)
        ensures
            r == (self is AbsoluteControl || self is Pad),
    {
        match self {
            LearnRole::AbsoluteControl(_) | LearnRole::Pad(_) => true,
            _ => false,
        }
    }
}

pub proof fn lemma_role_in_range(step: int)
    ensures
        spec_role(step).in_range(),
{
}

// ---------------------------------------------------------------------------
// Learnable inputs
// ---------------------------------------------------------------------------

/// A control a learned role is bound to: a CC or a note on a channel.
#[derive(Clone, Copy, Debug, PartialEq, Eq, Structural)]
pub enum LearnInput {
    Cc { channel: u8, cc: u8 },
    Note { channel: u8, note: u8 },
}

/// The control a press message comes from: any CC, or a note-on with a
/// non-zero velocity.
pub open spec fn spec_input_from_message(m: Seq<u8>) -> Option<LearnInput> {
    if m.len() < 3 {
        None
    } else if m[0] & 0xf0 == 0xb0 {
        Some(LearnInput::Cc { channel: m[0] & 0x0f, cc: m[1] })
    } else if m[0] & 0xf0 == 0x90 && m[2] > 0 {
        Some(LearnInput::Note { channel: m[0] & 0x0f, note: m[1] })
    } else {
        None
    }
}

/// Whether a message comes from the same control (for a note: note-off,
/// note-on or aftertouch of that note on that channel).
pub open spec fn spec_matches_message(input: LearnInput, m: Seq<u8>) -> bool {
    m.len() >= 3 && match input {
        LearnInput::Cc { channel, cc } => m[0] & 0xf0 == 0xb0 && m[0] & 0x0f == channel && m[1]
            == cc,
        LearnInput::Note { channel, note } => (m[0] & 0xf0 == 0x80 || m[0] & 0xf0 == 0x90 || m[0]
            & 0xf0 == 0xa0) && m[0] & 0x0f == channel && m[1] == note,
    }
}

/// Whether a message releases the control: CC value zero, note-off, or a
/// zero-velocity note-on.
pub open spec fn spec_is_release(input: LearnInput, m: Seq<u8>) -> bool {
    spec_matches_message(input, m) && match input {
        LearnInput::Cc { .. } => m[2] == 0,
        LearnInput::Note { .. } => m[0] & 0xf0 == 0x80 || (m[0] & 0xf0 == 0x90 && m[2] == 0),
    }
}

pub open spec fn spec_controller_button(input: LearnInput) -> crate::pads::ControllerButton {
    match input {
        LearnInput::Cc { channel, cc } => crate::pads::ControllerButton::Cc { channel, cc },
        LearnInput::Note { channel, note } => crate::pads::ControllerButton::Note { channel, note },
    }
}

/// How an input is described in feedback, channels counted from one.
pub open spec fn spec_input_description(input: LearnInput) -> Seq<char> {
    match input {
        LearnInput::Cc { channel, cc } => "CC "@ + decimal(cc as nat) + " ch "@ + decimal(
            (channel + 1) as nat,
        ),
        LearnInput::Note { channel, note } => "note "@ + decimal(note as nat) + " ch "@ + decimal(
            (channel + 1) as nat,
        ),
    }
}

impl LearnInput {
    pub fn from_message(message: &[u8]) -> (r: Option<LearnInput>)
        ensures
            r == spec_input_from_message(message@),
    {
        if message.len() < 3 {
            return None;
        }
        let status = message[0] & 0xf0;
        if status == 0xb0 {
            Some(LearnInput::Cc { channel: message[0] & 0x0f, cc: message[1] })
        } else if status == 0x90 && message[2] > 0 {
            Some(LearnInput::Note { channel: message[0] & 0x0f, note: message[1] })
        } else {
            None
        }
    }

    pub fn matches_message(self, message: &[u8]) -> (r: bool)
        ensures
            r == spec_matches_message(self, message@),
    {
        if message.len() < 3 {
            return false;
        }
        let status = message[0] & 0xf0;
        match self {
            LearnInput::Cc { channel, cc } => status == 0xb0 && message[0] & 0x0f == channel
                && message[1] == cc,
            LearnInput::Note { channel, note } => (status == 0x80 || status == 0x90 || status
                == 0xa0) && message[0] & 0x0f == channel && message[1] == note,
        }
    }

    pub fn is_release(self, message: &[u8]) -> (r: bool)
        ensures
            r == spec_is_release(self, message@),
    {
        if !self.matches_message(message) {
            return false;
        }
        match self {
            LearnInput::Cc { .. } => message[2] == 0,
            LearnInput::Note { .. } => message[0] & 0xf0 == 0x80 || (message[0] & 0xf0 == 0x90
                && message[2] == 0),
        }
    }

    pub fn controller_button(self) -> (r: crate::pads::ControllerButton)
        ensures
            r == spec_controller_button(self),
    {
        match self {
            LearnInput::Cc { channel, cc } => crate::pads::ControllerButton::Cc { channel, cc },
            LearnInput::Note { channel, note } => crate::pads::ControllerButton::Note {
                channel,
                note,
            },
        }
    }

    /// The feedback description of this input.
    pub fn description(self) -> (r: String)
        ensures
            r@ == spec_input_description(self),
    {
        let mut out = String::new();
        match self {
            LearnInput::Cc { channel, cc } => {
                push_str(&mut out, "CC ");
                push_decimal(&mut out, cc as u64);
                push_str(&mut out, " ch ");
                push_decimal(&mut out, (channel as u64) + 1);
            },
            LearnInput::Note { channel, note } => {
                push_str(&mut out, "note ");
                push_decimal(&mut out, note as u64);
                push_str(&mut out, " ch ");
                push_decimal(&mut out, (channel as u64) + 1);
            },
        }
        out
    }
}

/// A button the interactive learner captured, with its channel.
#[derive(Clone, Copy, Debug, PartialEq, Eq, Structural)]
pub enum Button {
    Cc { cc: u8, channel: u8 },
    Note { note: u8, channel: u8 },
}

/// The unused button a press message comes from: a CC with a non-zero value
/// not in `used_ccs`, or a note-on with a non-zero velocity not in
/// `used_notes`, with its zero-based channel.
pub fn button_from_message(message: &[u8], used_ccs: &HashSet<u8>, used_notes: &HashSet<u8>) -> (r: Option<Button>)
    ensures
        r == (if message@.len() < 3 || message@[2] == 0 {
            None
        } else if message@[0] & 0xf0 == 0xb0 && !used_ccs@.contains(message@[1]) {
            Some(Button::Cc { cc: message@[1], channel: message@[0] & 0x0f })
        } else if message@[0] & 0xf0 == 0x90 && !used_notes@.contains(message@[1]) {
            Some(Button::Note { note: message@[1], channel: message@[0] & 0x0f })
        } else {
            None
        }),
{
    if message.len() < 3 || message[2] == 0 {
        return None;
    }
    let status = message[0] & 0xf0;
    if status == 0xb0 && !used_ccs.contains(&message[1]) {
        Some(Button::Cc { cc: message[1], channel: message[0] & 0x0f })
    } else if status == 0x90 && !used_notes.contains(&message[1]) {
        Some(Button::Note { note: message[1], channel: message[0] & 0x0f })
    } else {
        None
    }
}

/// The CC numbers a mapping uses.
pub fn used_ccs(config: &crate::pads::PadConfig) -> (r: HashSet<u8>)
    ensures
        r@ == crate::pads::spec_used_ccs(config@),
{
    let mut out: HashSet<u8> = HashSet::new();
    let mut k: u16 = 0;
    while k < 256
        invariant
            k <= 256,
            forall|x: u8| out@.contains(x) <==> (x < k && crate::pads::spec_used_ccs(config@).contains(x)),
        decreases 256 - k,
    {
        if config.uses_cc(k as u8) {
            out.insert(k as u8);
        }
        k += 1;
    }
    assert(out@ =~= crate::pads::spec_used_ccs(config@));
    out
}

/// The note numbers a mapping uses.
pub fn used_notes(config: &crate::pads::PadConfig) -> (r: HashSet<u8>)
    ensures
        r@ == crate::pads::spec_used_notes(config@),
{
    let mut out: HashSet<u8> = HashSet::new();
    let mut k: u16 = 0;
    while k < 256
        invariant
            k <= 256,
            forall|x: u8| out@.contains(x) <==> (x < k && crate::pads::spec_used_notes(config@).contains(x)),
        decreases 256 - k,
    {
        if config.uses_note(k as u8) {
            out.insert(k as u8);
        }
        k += 1;
    }
    assert(out@ =~= crate::pads::spec_used_notes(config@));
    out
}

/// The CC number of a control-change message.
pub open spec fn spec_cc_number(m: Seq<u8>) -> Option<u8> {
    if m.len() >= 3 && m[0] & 0xf0 == 0xb0 {
        Some(m[1])
    } else {
        None
    }
}

pub fn cc_number(message: &[u8]) -> (r: Option<u8>)
    ensures
        r == spec_cc_number(message@),
{
    if message.len() >= 3 && message[0] & 0xf0 == 0xb0 {
        Some(message[1])
    } else {
        None
    }
}

/// Whether a message is a control change of CC `cc`.
pub fn cc_message(message: &[u8], cc: u8) -> (r: bool)
    ensures
        r == (spec_cc_number(message@) == Some(cc)),
{
    match cc_number(message) {
        Some(n) => n == cc,
        None => false,
    }
}

/// Whether a message shows the user is still touching the controller:
/// any note-on, note-off, or control change.
pub open spec fn spec_marks_activity(m: Seq<u8>) -> bool {
    m.len() >= 3 && (m[0] & 0xf0 == 0x80 || m[0] & 0xf0 == 0x90 || m[0] & 0xf0 == 0xb0)
}

pub fn message_marks_activity(message: &[u8]) -> (r: bool)
    ensures
        r == spec_marks_activity(message@),
{
    message.len() >= 3 && (message[0] & 0xf0 == 0x80 || message[0] & 0xf0 == 0x90 || message[0]
        & 0xf0 == 0xb0)
}

/// Whether a message can teach the role: CCs for controls and encoder
/// directions (a moving value for the first direction), presses for the
/// click and command buttons, nothing at the review step.
pub open spec fn spec_message_is_relevant(role: LearnRole, m: Seq<u8>) -> bool {
    m.len() >= 3 && match role {
        LearnRole::AbsoluteControl(_) => m[0] & 0xf0 == 0xb0,
        LearnRole::EncoderClockwise => m[0] & 0xf0 == 0xb0,
        LearnRole::EncoderCounterClockwise => m[0] & 0xf0 == 0xb0 && m[2] != 64,
        LearnRole::EncoderClick | LearnRole::Pad(_) => m[2] > 0 && (m[0] & 0xf0 == 0x90 || m[0]
            & 0xf0 == 0xb0),
        LearnRole::Confirm => false,
    }
}

pub fn message_is_relevant(role: LearnRole, message: &[u8]) -> (r: bool)
    ensures
        r == spec_message_is_relevant(role, message@),
{
    if message.len() < 3 {
        return false;
    }
    let status = message[0] & 0xf0;
    match role {
        LearnRole::AbsoluteControl(_) => status == 0xb0,
        LearnRole::EncoderClockwise => status == 0xb0,
        LearnRole::EncoderCounterClockwise => status == 0xb0 && message[2] != 64,
        LearnRole::EncoderClick | LearnRole::Pad(_) => message[2] > 0 && (status == 0x90 || status
            == 0xb0),
        LearnRole::Confirm => false,
    }
}

/// What the session asks its owner to do after a message.
#[derive(Clone, Copy, Debug, PartialEq, Eq, Structural)]
pub enum LearnAction {
    Idle,
    Save,
    FinishSaved,
}

} // verus!

verus! {

// ---------------------------------------------------------------------------
// The learn session
// ---------------------------------------------------------------------------

/// Where a session is within the current role's gesture.
#[derive(Clone, Copy, Debug)]
pub enum LearnState {
    /// Waiting for the controller to be quiet until `deadline`.
    EntryQuiet { deadline: Instant },
    /// Ready to learn the current role.
    Armed,
    /// A CC was captured; its trailing movement is absorbed until `deadline`.
    Settling { cc: u8, deadline: Instant },
    /// A button was captured; waiting for its release.
    ButtonHeld { input: LearnInput },
    /// A page-switch candidate is held; a second control makes a chord.
    CycleCandidate { modifier: LearnInput },
    /// The candidate was released alone; pressing it again confirms it.
    CycleConfirm { candidate: LearnInput },
    /// The candidate is held again; releasing it confirms it.
    CycleConfirmHeld { candidate: LearnInput },
    /// A page-switch chord was learned; waiting for the modifier's release.
    CycleChordHeld { modifier: LearnInput },
    /// A confirmed button was learned; the role advances at `deadline`.
    PostRelease { deadline: Instant },
    /// The encoder browsed; its trailing movement is absorbed until `deadline`.
    NavigationSettling { cc: u8, deadline: Instant },
    /// Save was requested with the encoder held; `saved` once it succeeded.
    SaveButtonHeld { input: LearnInput, saved: bool },
    /// Saved and released; the session is over.
    Saved,
}

/// A session as mathematical values.
pub struct LearnModel {
    pub draft: crate::pads::PadModel,
    pub step: int,
    pub feedback: Seq<char>,
    pub state: LearnState,
}

/// A MIDI-learn session: the mapping learned so far, the current step, the
/// feedback shown, and the gesture state.
#[derive(Clone, Debug)]
pub struct LearnSession {
    draft: crate::pads::PadConfig,
    step: usize,
    feedback: String,
    state: LearnState,
}

impl View for LearnSession {
    type V = LearnModel;

    closed spec fn view(&self) -> LearnModel {
        LearnModel {
            draft: self.draft@,
            step: self.step as int,
            feedback: self.feedback@,
            state: self.state,
        }
    }
}

/// Whether the master encoder's three roles are learned.
pub open spec fn spec_can_finish(d: crate::pads::PadModel) -> bool {
    d.encoder_relative_cc is Some && (d.encoder_press_cc is Some || d.encoder_press_note is Some)
}

/// The step after `step`, skipping the page-cycle role when dedicated page
/// buttons exist.
pub open spec fn spec_step_forward(step: int, d: crate::pads::PadModel) -> int {
    let s1 = if step + 1 < CONFIRM_STEP { step + 1 } else { CONFIRM_STEP as int };
    if spec_role(s1) == LearnRole::Pad(4) && crate::pads::has_page_button(d) {
        if s1 + 1 < CONFIRM_STEP { s1 + 1 } else { CONFIRM_STEP as int }
    } else {
        s1
    }
}

/// The step before `step`, skipping the page-cycle role when dedicated page
/// buttons exist.
pub open spec fn spec_step_backward(step: int, d: crate::pads::PadModel) -> int {
    let s1 = if step > 0 { step - 1 } else { 0 };
    if spec_role(s1) == LearnRole::Pad(4) && crate::pads::has_page_button(d) {
        if s1 > 0 { s1 - 1 } else { 0 }
    } else {
        s1
    }
}

/// The prompt shown when a step becomes current.
pub open spec fn spec_ready_feedback(step: int) -> Seq<char> {
    if spec_role(step) == LearnRole::Confirm {
        "Learning complete · click the encoder or press Enter to save"@
    } else {
        "Ready · "@ + spec_role(step).spec_label()
    }
}

/// Moves on after a captured gesture.
pub open spec fn spec_advance(m: LearnModel) -> LearnModel {
    let next = spec_step_forward(m.step, m.draft);
    LearnModel { step: next, state: LearnState::Armed, feedback: spec_ready_feedback(next), ..m }
}

/// The state after time passes to `now`.
pub open spec fn spec_tick(m: LearnModel, now: Instant) -> LearnModel {
    match m.state {
        LearnState::EntryQuiet { deadline } => if crate::clock::instant_reached(now, deadline) {
            LearnModel {
                state: LearnState::Armed,
                feedback: "Ready · "@ + spec_role(m.step).spec_label(),
                ..m
            }
        } else {
            m
        },
        LearnState::Settling { deadline, .. } => if crate::clock::instant_reached(now, deadline) {
            spec_advance(m)
        } else {
            m
        },
        LearnState::NavigationSettling { deadline, .. } => if crate::clock::instant_reached(
            now,
            deadline,
        ) {
            LearnModel { state: LearnState::Armed, ..m }
        } else {
            m
        },
        LearnState::PostRelease { deadline } => if crate::clock::instant_reached(now, deadline) {
            spec_advance(m)
        } else {
            m
        },
        _ => m,
    }
}

/// `m` without the entries whose value is `v`.
pub open spec fn without_value<V>(m: Map<u8, V>, v: V) -> Map<u8, V> {
    Map::new(|k: u8| m.contains_key(k) && m[k] != v, |k: u8| m[k])
}

/// `channels` without the keys `owner` maps to `action`.
pub open spec fn without_keys_of(
    channels: Map<u8, u8>,
    owner: Map<u8, crate::pads::PadAction>,
    action: crate::pads::PadAction,
) -> Map<u8, u8> {
    Map::new(|k: u8| channels.contains_key(k) && !(owner.contains_key(k) && owner[k] == action), |k: u8| channels[k])
}

/// The mapping with the current role's binding removed.
pub open spec fn spec_clear_role(d: crate::pads::PadModel, role: LearnRole) -> crate::pads::PadModel {
    match role {
        LearnRole::EncoderCounterClockwise => crate::pads::PadModel {
            encoder_relative_cc: None,
            encoder_relative_reverse: false,
            ..d
        },
        LearnRole::EncoderClick => crate::pads::PadModel {
            encoder_press_cc: None,
            encoder_press_note: None,
            encoder_press_channel: None,
            ..d
        },
        LearnRole::AbsoluteControl(i) => crate::pads::PadModel {
            controls: without_value(d.controls, crate::control::spec_control_cc(i as int)),
            ..d
        },
        LearnRole::Pad(i) => {
            let action = spec_command_action(i as int);
            let cleared = crate::pads::PadModel {
                page_cycle_modifier: if i == 4 { None } else { d.page_cycle_modifier },
                page_cycle_trigger: if i == 4 { None } else { d.page_cycle_trigger },
                pads: without_value(d.pads, action),
                pad_channels: without_keys_of(d.pad_channels, d.pads, action),
                cc_buttons: without_value(d.cc_buttons, action),
                cc_button_channels: without_keys_of(d.cc_button_channels, d.cc_buttons, action),
                ..d
            };
            crate::pads::PadModel { layout: crate::pads::spec_inferred_layout(cleared), ..cleared }
        },
        _ => d,
    }
}

/// Whether the current role already has a binding.
pub open spec fn spec_role_is_mapped(d: crate::pads::PadModel, role: LearnRole) -> bool {
    match role {
        LearnRole::AbsoluteControl(i) => exists|k: u8| d.controls.contains_key(k) && #[trigger] d.controls[k] == crate::control::spec_control_cc(i as int),
        LearnRole::Pad(i) => crate::pads::has_action(d, spec_command_action(i as int)) || (i == 4
            && d.page_cycle_modifier is Some && d.page_cycle_trigger is Some),
        _ => false,
    }
}

pub open spec fn spec_retry(m: LearnModel, now: Instant) -> LearnModel {
    if m.state is Saved || (m.state matches LearnState::SaveButtonHeld { saved, .. } && saved) {
        LearnModel { feedback: "Profile saved · release the encoder to exit"@, ..m }
    } else {
        LearnModel {
            draft: spec_clear_role(m.draft, spec_role(m.step)),
            state: LearnState::EntryQuiet {
                deadline: crate::clock::deadline_after(now, ENTRY_QUIET_MILLIS),
            },
            feedback: "Retry · release control, then wait for "@ + spec_role(m.step).spec_label(),
            ..m
        }
    }
}

pub open spec fn spec_previous(m: LearnModel) -> (LearnModel, bool) {
    if !(m.state is Armed) {
        (m, false)
    } else if m.step <= FIRST_OPTIONAL_STEP {
        (LearnModel { feedback: "Master encoder setup is complete · browse optional mappings"@, ..m }, false)
    } else {
        let back = spec_step_backward(m.step, m.draft);
        (LearnModel { step: back, feedback: "Selected "@ + spec_role(back).spec_label(), ..m }, true)
    }
}

pub open spec fn spec_skip(m: LearnModel) -> (LearnModel, bool) {
    let role = spec_role(m.step);
    if !(m.state is Armed) {
        (m, false)
    } else if !(role is AbsoluteControl || role is Pad) {
        (
            LearnModel {
                feedback: if spec_can_finish(m.draft) {
                    "Click the encoder or press Enter to save and exit"@
                } else {
                    "Learn the master encoder first · Esc cancels"@
                },
                ..m
            },
            false,
        )
    } else {
        let next = spec_step_forward(m.step, m.draft);
        (LearnModel { step: next, feedback: "Skipped "@ + role.spec_label(), ..m }, true)
    }
}

pub open spec fn conflict_cc(cc: u8) -> Seq<char> {
    "Conflict · CC "@ + decimal(cc as nat) + " is already assigned · retry"@
}

/// Learning absolute control `i` from a message: the mapping after and the
/// feedback, `Err` when refused.
pub open spec fn spec_learn_absolute(d: crate::pads::PadModel, i: int, m: Seq<u8>) -> (crate::pads::PadModel, Result<Seq<char>, Seq<char>>) {
    if m.len() < 3 || m[0] & 0xf0 != 0xb0 {
        (d, Err("Expected an absolute knob/fader CC"@))
    } else if crate::pads::spec_used_ccs(d).contains(m[1]) {
        (d, Err(conflict_cc(m[1])))
    } else {
        (
            crate::pads::PadModel { controls: d.controls.insert(m[1], crate::control::spec_control_cc(i)), ..d },
            Ok("CC "@ + decimal(m[1] as nat) + " = "@ + crate::control::spec_control_name(i)),
        )
    }
}

pub open spec fn spec_learn_clockwise(d: crate::pads::PadModel, m: Seq<u8>) -> Result<Seq<char>, Seq<char>> {
    match d.encoder_relative_cc {
        None => Err("Learn the counterclockwise direction first"@),
        Some(cc) => if m.len() < 3 || m[0] & 0xf0 != 0xb0 || m[1] != cc {
            Err("Expected the same encoder CC "@ + decimal(cc as nat))
        } else if m[2] == 0 || m[2] == 64 || (m[2] < 64) != d.encoder_relative_reverse {
            Err("Direction conflict · turn the encoder right and retry"@)
        } else {
            Ok("CC "@ + decimal(cc as nat) + " value "@ + decimal(m[2] as nat) + " = right"@)
        },
    }
}

pub open spec fn spec_learn_counterclockwise(d: crate::pads::PadModel, m: Seq<u8>) -> (crate::pads::PadModel, Result<Seq<char>, Seq<char>>) {
    if m.len() < 3 || m[0] & 0xf0 != 0xb0 || m[2] == 0 || m[2] == 64 {
        (d, Err("Expected a moving relative CC (not neutral 0 or 64)"@))
    } else if crate::pads::spec_used_ccs(d).contains(m[1]) {
        (d, Err(conflict_cc(m[1])))
    } else {
        (
            crate::pads::PadModel { encoder_relative_cc: Some(m[1]), encoder_relative_reverse: m[2] > 64, ..d },
            Ok("CC "@ + decimal(m[1] as nat) + " value "@ + decimal(m[2] as nat) + " = left"@),
        )
    }
}

pub open spec fn spec_learn_click(d: crate::pads::PadModel, m: Seq<u8>) -> (crate::pads::PadModel, Result<Seq<char>, Seq<char>>) {
    if m.len() < 3 || m[2] == 0 {
        (d, Err("Expected an unused CC or note press"@))
    } else if m[0] & 0xf0 == 0xb0 && !crate::pads::spec_used_ccs(d).contains(m[1]) {
        (
            crate::pads::PadModel { encoder_press_cc: Some(m[1]), encoder_press_channel: Some(m[0] & 0x0f), ..d },
            Ok("CC "@ + decimal(m[1] as nat) + " ch "@ + decimal(((m[0] & 0x0f) + 1) as nat) + " = encoder click"@),
        )
    } else if m[0] & 0xf0 == 0x90 && !crate::pads::spec_used_notes(d).contains(m[1]) {
        (
            crate::pads::PadModel { encoder_press_note: Some(m[1]), encoder_press_channel: Some(m[0] & 0x0f), ..d },
            Ok("note "@ + decimal(m[1] as nat) + " ch "@ + decimal(((m[0] & 0x0f) + 1) as nat) + " = encoder click"@),
        )
    } else {
        (d, Err("Expected an unused CC or note press"@))
    }
}

/// Binding command-button role `i` to an input.
pub open spec fn spec_learn_pad_input(d: crate::pads::PadModel, i: int, input: LearnInput) -> (crate::pads::PadModel, Result<Seq<char>, Seq<char>>) {
    let action = spec_command_action(i);
    match input {
        LearnInput::Cc { channel, cc } => if crate::pads::spec_used_ccs(d).contains(cc) {
            (d, Err(conflict_cc(cc)))
        } else {
            let bound = crate::pads::PadModel {
                cc_buttons: d.cc_buttons.insert(cc, action),
                cc_button_channels: d.cc_button_channels.insert(cc, channel),
                ..d
            };
            (
                crate::pads::PadModel { layout: crate::pads::spec_inferred_layout(bound), ..bound },
                Ok(spec_input_description(input) + " = "@ + action.spec_name()),
            )
        },
        LearnInput::Note { channel, note } => if crate::pads::spec_used_notes(d).contains(note) {
            (d, Err("Conflict · note "@ + decimal(note as nat) + " is already assigned · retry"@))
        } else {
            let bound = crate::pads::PadModel {
                pads: d.pads.insert(note, action),
                pad_channels: d.pad_channels.insert(note, channel),
                ..d
            };
            (
                crate::pads::PadModel { layout: crate::pads::spec_inferred_layout(bound), ..bound },
                Ok(spec_input_description(input) + " = "@ + action.spec_name()),
            )
        },
    }
}

pub open spec fn spec_learn_pad(d: crate::pads::PadModel, i: int, m: Seq<u8>) -> (crate::pads::PadModel, Result<Seq<char>, Seq<char>>) {
    match spec_input_from_message(m) {
        None => (d, Err("Conflict or release · press an unused pad/button"@)),
        Some(input) => spec_learn_pad_input(d, i, input),
    }
}

/// The page-cycle chord of `modifier` and `trigger`, learned.
pub open spec fn spec_learn_chord(m: LearnModel, modifier: LearnInput, trigger: LearnInput) -> LearnModel {
    LearnModel {
        draft: crate::pads::PadModel {
            page_cycle_modifier: Some(spec_controller_button(modifier)),
            page_cycle_trigger: Some(spec_controller_button(trigger)),
            layout: crate::pads::ControllerLayout::Five,
            ..m.draft
        },
        state: LearnState::CycleChordHeld { modifier },
        feedback: "Learned "@ + spec_input_description(modifier) + " + "@ + spec_input_description(trigger)
            + " = page-cycle · OK · release modifier"@,
        ..m
    }
}

/// The result of learning the current role from a message while armed.
pub open spec fn spec_learn_role(d: crate::pads::PadModel, role: LearnRole, msg: Seq<u8>) -> (crate::pads::PadModel, Result<Seq<char>, Seq<char>>) {
    match role {
        LearnRole::AbsoluteControl(i) => spec_learn_absolute(d, i as int, msg),
        LearnRole::EncoderCounterClockwise => spec_learn_counterclockwise(d, msg),
        LearnRole::EncoderClockwise => (d, spec_learn_clockwise(d, msg)),
        LearnRole::EncoderClick => spec_learn_click(d, msg),
        LearnRole::Pad(i) => spec_learn_pad(d, i as int, msg),
        LearnRole::Confirm => (d, Err(Seq::empty())),
    }
}

/// An armed session's response to a message: master-encoder browsing and
/// saving once the encoder is learned, otherwise learning the current role.
pub open spec fn spec_receive_armed(m: LearnModel, msg: Seq<u8>, now: Instant) -> (LearnModel, LearnAction) {
    let cc_nav = crate::pads::spec_encoder_action(m.draft, msg);
    let nav = if cc_nav.0 { cc_nav } else { crate::pads::spec_encoder_note_action(m.draft, msg) };
    let role = spec_role(m.step);
    if spec_can_finish(m.draft) && nav.0 {
        match nav.1 {
            Some(crate::pads::EncoderAction::Up) => {
                let moved = spec_previous(m).0;
                match spec_cc_number(msg) {
                    Some(cc) => (LearnModel { state: LearnState::NavigationSettling { cc, deadline: crate::clock::deadline_after(now, GESTURE_SETTLE_MILLIS) }, ..moved }, LearnAction::Idle),
                    None => (moved, LearnAction::Idle),
                }
            },
            Some(crate::pads::EncoderAction::Down) => {
                let moved = spec_skip(m).0;
                match spec_cc_number(msg) {
                    Some(cc) => (LearnModel { state: LearnState::NavigationSettling { cc, deadline: crate::clock::deadline_after(now, GESTURE_SETTLE_MILLIS) }, ..moved }, LearnAction::Idle),
                    None => (moved, LearnAction::Idle),
                }
            },
            Some(crate::pads::EncoderAction::Select) => match spec_input_from_message(msg) {
                Some(input) => (
                    LearnModel {
                        state: LearnState::SaveButtonHeld { input, saved: false },
                        feedback: "Save requested · keep the encoder held"@,
                        ..m
                    },
                    LearnAction::Save,
                ),
                None => (m, LearnAction::Idle),
            },
            None => (m, LearnAction::Idle),
        }
    } else if spec_role_is_mapped(m.draft, role) || !spec_message_is_relevant(role, msg) {
        (m, LearnAction::Idle)
    } else if role == LearnRole::Pad(4) {
        match spec_input_from_message(msg) {
            Some(modifier) => (
                LearnModel {
                    state: LearnState::CycleCandidate { modifier },
                    feedback: "Modifier held · now move or press the page-switch control"@,
                    ..m
                },
                LearnAction::Idle,
            ),
            None => (m, LearnAction::Idle),
        }
    } else {
        let (d, accepted) = spec_learn_role(m.draft, role, msg);
        match accepted {
            Ok(description) => if role is EncoderClick || role is Pad {
                match spec_input_from_message(msg) {
                    Some(input) => (
                        LearnModel {
                            draft: d,
                            state: LearnState::ButtonHeld { input },
                            feedback: "Learned "@ + description + " · OK · release to continue"@,
                            ..m
                        },
                        LearnAction::Idle,
                    ),
                    None => (LearnModel { draft: d, ..m }, LearnAction::Idle),
                }
            } else {
                match spec_cc_number(msg) {
                    Some(cc) => (
                        LearnModel {
                            draft: d,
                            state: LearnState::Settling { cc, deadline: crate::clock::deadline_after(now, GESTURE_SETTLE_MILLIS) },
                            feedback: "Learned "@ + description + " · OK · finish movement"@,
                            ..m
                        },
                        LearnAction::Idle,
                    ),
                    None => (LearnModel { draft: d, ..m }, LearnAction::Idle),
                }
            },
            Err(message) => (LearnModel { draft: d, feedback: message, ..m }, LearnAction::Idle),
        }
    }
}

/// A session's response to one MIDI message received at `now`.
pub open spec fn spec_receive(m: LearnModel, msg: Seq<u8>, now: Instant) -> (LearnModel, LearnAction) {
    match m.state {
        LearnState::EntryQuiet { .. } => if spec_marks_activity(msg) {
            (LearnModel { state: LearnState::EntryQuiet { deadline: crate::clock::deadline_after(now, ENTRY_QUIET_MILLIS) }, ..m }, LearnAction::Idle)
        } else {
            (m, LearnAction::Idle)
        },
        LearnState::Settling { cc, .. } => if spec_cc_number(msg) == Some(cc) {
            (LearnModel { state: LearnState::Settling { cc, deadline: crate::clock::deadline_after(now, GESTURE_SETTLE_MILLIS) }, ..m }, LearnAction::Idle)
        } else {
            (m, LearnAction::Idle)
        },
        LearnState::NavigationSettling { cc, .. } => if spec_cc_number(msg) == Some(cc) {
            (LearnModel { state: LearnState::NavigationSettling { cc, deadline: crate::clock::deadline_after(now, GESTURE_SETTLE_MILLIS) }, ..m }, LearnAction::Idle)
        } else {
            (m, LearnAction::Idle)
        },
        LearnState::ButtonHeld { input } => if spec_is_release(input, msg) {
            (spec_advance(m), LearnAction::Idle)
        } else {
            (m, LearnAction::Idle)
        },
        LearnState::CycleCandidate { modifier } => if spec_is_release(modifier, msg) {
            (
                LearnModel {
                    state: LearnState::CycleConfirm { candidate: modifier },
                    feedback: "No chord seen · press the same page-switch button again to confirm"@,
                    ..m
                },
                LearnAction::Idle,
            )
        } else {
            match spec_input_from_message(msg) {
                Some(trigger) => if trigger != modifier {
                    (spec_learn_chord(m, modifier, trigger), LearnAction::Idle)
                } else {
                    (m, LearnAction::Idle)
                },
                None => (m, LearnAction::Idle),
            }
        },
        LearnState::CycleConfirm { candidate } => match spec_input_from_message(msg) {
            Some(input) => if input == candidate {
                (
                    LearnModel {
                        state: LearnState::CycleConfirmHeld { candidate },
                        feedback: "Release to confirm this button, or keep holding and use a trigger"@,
                        ..m
                    },
                    LearnAction::Idle,
                )
            } else {
                (
                    LearnModel {
                        state: LearnState::CycleCandidate { modifier: input },
                        feedback: "Modifier held · now move or press the page-switch control"@,
                        ..m
                    },
                    LearnAction::Idle,
                )
            },
            None => (m, LearnAction::Idle),
        },
        LearnState::CycleConfirmHeld { candidate } => if spec_is_release(candidate, msg) {
            let (d, learned) = spec_learn_pad_input(m.draft, 4, candidate);
            match learned {
                Ok(description) => (
                    LearnModel {
                        draft: d,
                        feedback: "Learned "@ + description + " · OK"@,
                        state: LearnState::PostRelease { deadline: crate::clock::deadline_after(now, GESTURE_SETTLE_MILLIS) },
                        ..m
                    },
                    LearnAction::Idle,
                ),
                Err(error) => (LearnModel { draft: d, state: LearnState::Armed, feedback: error, ..m }, LearnAction::Idle),
            }
        } else {
            match spec_input_from_message(msg) {
                Some(trigger) => if trigger != candidate {
                    (spec_learn_chord(m, candidate, trigger), LearnAction::Idle)
                } else {
                    (m, LearnAction::Idle)
                },
                None => (m, LearnAction::Idle),
            }
        },
        LearnState::CycleChordHeld { modifier } => if spec_is_release(modifier, msg) {
            (spec_advance(m), LearnAction::Idle)
        } else {
            (m, LearnAction::Idle)
        },
        LearnState::PostRelease { .. } => (m, LearnAction::Idle),
        LearnState::SaveButtonHeld { input, saved } => if spec_is_release(input, msg) {
            if saved {
                (LearnModel { state: LearnState::Saved, ..m }, LearnAction::FinishSaved)
            } else {
                (
                    LearnModel {
                        state: LearnState::Armed,
                        feedback: "Save failed · release received · ready to retry"@,
                        ..m
                    },
                    LearnAction::Idle,
                )
            }
        } else {
            (m, LearnAction::Idle)
        },
        LearnState::Saved => (m, LearnAction::Idle),
        LearnState::Armed => spec_receive_armed(m, msg, now),
    }
}

pub open spec fn spec_mark_save_result(m: LearnModel, saved: bool) -> LearnModel {
    match m.state {
        LearnState::SaveButtonHeld { input, .. } => LearnModel {
            state: LearnState::SaveButtonHeld { input, saved },
            feedback: if saved {
                "Profile saved and activated · release encoder to exit"@
            } else {
                "Save failed · release encoder before retrying"@
            },
            ..m
        },
        _ => m,
    }
}

/// A fresh session for an input at `now`.
pub open spec fn spec_new_session(input_name: Seq<char>, now: Instant) -> LearnModel {
    LearnModel {
        draft: crate::pads::PadModel {
            input_match: Some(spec_stable_input_match(input_name)),
            profile: Some("learned"@),
            layout: crate::pads::ControllerLayout::Four,
            controls: Map::empty(),
            encoder_relative_cc: None,
            encoder_relative_reverse: false,
            encoder_press_cc: None,
            encoder_press_note: None,
            encoder_press_channel: None,
            lock_cc: None,
            pads: Map::empty(),
            pad_channels: Map::empty(),
            cc_buttons: Map::empty(),
            cc_button_channels: Map::empty(),
            page_cycle_modifier: None,
            page_cycle_trigger: None,
        },
        step: 0,
        feedback: "Release the opening control · waiting for quiet"@,
        state: LearnState::EntryQuiet { deadline: crate::clock::deadline_after(now, ENTRY_QUIET_MILLIS) },
    }
}

/// The role asked for at a step.
pub fn role_at(step: usize) -> (r: LearnRole)
    ensures
        r == spec_role(step as int),
        r.in_range(),
{
    if step == 0 {
        LearnRole::EncoderCounterClockwise
    } else if step == 1 {
        LearnRole::EncoderClockwise
    } else if step == 2 {
        LearnRole::EncoderClick
    } else if CONTROL_STEP_START <= step && step < BUTTON_STEP_START {
        LearnRole::AbsoluteControl(step - CONTROL_STEP_START)
    } else if BUTTON_STEP_START <= step && step < CONFIRM_STEP {
        LearnRole::Pad(step - BUTTON_STEP_START)
    } else {
        LearnRole::Confirm
    }
}

/// The prompt shown when a step becomes current.
fn ready_feedback(step: usize) -> (r: String)
    ensures
        r@ == spec_ready_feedback(step as int),
{
    let role = role_at(step);
    if role == LearnRole::Confirm {
        owned("Learning complete · click the encoder or press Enter to save")
    } else {
        let mut out = owned("Ready · ");
        let label = role.label();
        push_str(&mut out, label.as_str());
        out
    }
}

/// Whether one of the four dedicated page buttons is mapped.
fn has_page_button_exec(d: &crate::pads::PadConfig) -> (r: bool)
    ensures
        r == crate::pads::has_page_button(d@),
{
    d.has_action(crate::pads::PadAction::Page1) || d.has_action(crate::pads::PadAction::Page2)
        || d.has_action(crate::pads::PadAction::Page3) || d.has_action(crate::pads::PadAction::Page4)
}

impl LearnSession {
    /// A fresh session for `input_name` at `now`: an empty four-button
    /// mapping matched by the input's stable name, waiting for quiet.
    pub fn new_at(input_name: &str, now: Instant) -> (r: Self)
        ensures
            r@ == spec_new_session(input_name@, now),
    {
        let mut draft = crate::pads::PadConfig::unmapped(stable_input_match(input_name));
        draft.profile = Some(owned("learned"));
        draft.layout = crate::pads::ControllerLayout::Four;
        LearnSession {
            draft,
            step: 0,
            feedback: owned("Release the opening control · waiting for quiet"),
            state: LearnState::EntryQuiet { deadline: crate::clock::deadline(now, ENTRY_QUIET_MILLIS) },
        }
    }

    /// A fresh session started now.
    pub fn new(input_name: &str) -> (r: Self)
        ensures
            exists|now: Instant| r@ == spec_new_session(input_name@, now),
    {
        Self::new_at(input_name, crate::clock::current_instant())
    }

    /// The role the current step asks for.
    pub fn role(&self) -> (r: LearnRole)
        ensures
            r == spec_role(self@.step),
            r.in_range(),
    {
        role_at(self.step)
    }

    /// `(current step counted from one, total steps)`.
    pub fn progress(&self) -> (r: (usize, usize))
        ensures
            r.0 == (if self@.step < CONFIRM_STEP { self@.step } else { CONFIRM_STEP as int }) + 1,
            r.1 == TOTAL_STEPS,
    {
        let shown = if self.step < CONFIRM_STEP { self.step } else { CONFIRM_STEP };
        (shown + 1, TOTAL_STEPS)
    }

    /// The feedback line shown to the user.
    pub fn feedback(&self) -> (r: &str)
        ensures
            r@ == self@.feedback,
    {
        self.feedback.as_str()
    }

    /// The mapping learned so far.
    pub fn draft(&self) -> (r: &crate::pads::PadConfig)
        ensures
            r@ == self@.draft,
    {
        &self.draft
    }

    /// Whether the master encoder's three roles are learned.
    pub fn can_finish(&self) -> (r: bool)
        ensures
            r == spec_can_finish(self@.draft),
    {
        self.draft.encoder_relative_cc.is_some() && (self.draft.encoder_press_cc.is_some()
            || self.draft.encoder_press_note.is_some())
    }

    fn step_forward(&mut self)
        ensures
            final(self)@ == (LearnModel { step: spec_step_forward(old(self)@.step, old(self)@.draft), ..old(self)@ }),
    {
        self.step = if self.step < CONFIRM_STEP - 1 { self.step + 1 } else { CONFIRM_STEP };
        if role_at(self.step) == LearnRole::Pad(4) && has_page_button_exec(&self.draft) {
            self.step = if self.step < CONFIRM_STEP - 1 { self.step + 1 } else { CONFIRM_STEP };
        }
    }

    fn step_backward(&mut self)
        ensures
            final(self)@ == (LearnModel { step: spec_step_backward(old(self)@.step, old(self)@.draft), ..old(self)@ }),
    {
        self.step = if self.step > 0 { self.step - 1 } else { 0 };
        if role_at(self.step) == LearnRole::Pad(4) && has_page_button_exec(&self.draft) {
            self.step = if self.step > 0 { self.step - 1 } else { 0 };
        }
    }

    fn advance_after_capture(&mut self)
        ensures
            final(self)@ == spec_advance(old(self)@),
    {
        self.step_forward();
        self.state = LearnState::Armed;
        self.feedback = ready_feedback(self.step);
    }

    /// Lets time pass to `now`: quiet, settling and post-release deadlines
    /// that `now` has reached take effect.
    pub fn tick(&mut self, now: Instant)
        ensures
            final(self)@ == spec_tick(old(self)@, now),
    {
        match self.state {
            LearnState::EntryQuiet { deadline } => {
                if crate::clock::reached(now, deadline) {
                    self.state = LearnState::Armed;
                    let mut out = owned("Ready · ");
                    let label = role_at(self.step).label();
                    push_str(&mut out, label.as_str());
                    self.feedback = out;
                }
            },
            LearnState::Settling { deadline, .. } => {
                if crate::clock::reached(now, deadline) {
                    self.advance_after_capture();
                }
            },
            LearnState::NavigationSettling { deadline, .. } => {
                if crate::clock::reached(now, deadline) {
                    self.state = LearnState::Armed;
                }
            },
            LearnState::PostRelease { deadline } => {
                if crate::clock::reached(now, deadline) {
                    self.advance_after_capture();
                }
            },
            _ => {},
        }
    }
}

} // verus!

verus! {

/// A string result as mathematical values.
pub open spec fn result_view(r: Result<String, String>) -> Result<Seq<char>, Seq<char>> {
    match r {
        Ok(s) => Ok(s@),
        Err(e) => Err(e@),
    }
}

/// Whether some key of `m` maps to `v`.
fn map_has_u8_value(m: &std::collections::HashMap<u8, u8>, v: u8) -> (r: bool)
    ensures
        r == exists|k: u8| m@.contains_key(k) && #[trigger] m@[k] == v,
{
    let mut k: u16 = 0;
    while k < 256
        invariant
            k <= 256,
            forall|j: u8| j < k && #[trigger] m@.contains_key(j) ==> m@[j] != v,
        decreases 256 - k,
    {
        match m.get(&(k as u8)) {
            Some(x) => {
                if *x == v {
                    return true;
                }
            },
            None => {},
        }
        k += 1;
    }
    false
}

/// Removes the entries whose value is `v`.
fn remove_value(m: &mut std::collections::HashMap<u8, u8>, v: u8)
    ensures
        final(m)@ == without_value(old(m)@, v),
{
    let ghost start = m@;
    let mut k: u16 = 0;
    while k < 256
        invariant
            k <= 256,
            m@ == Map::new(|j: u8| start.contains_key(j) && !(j < k && start[j] == v), |j: u8| start[j]),
        decreases 256 - k,
    {
        let hit = match m.get(&(k as u8)) {
            Some(x) => *x == v,
            None => false,
        };
        if hit {
            m.remove(&(k as u8));
        }
        let ghost kk = k;
        assert(m@ =~= Map::new(|j: u8| start.contains_key(j) && !(j < kk + 1 && start[j] == v), |j: u8| start[j]));
        k += 1;
    }
    assert(m@ =~= without_value(start, v));
}

/// Removes the buttons bound to `action` together with their channels.
fn remove_action(
    buttons: &mut std::collections::HashMap<u8, crate::pads::PadAction>,
    channels: &mut std::collections::HashMap<u8, u8>,
    action: crate::pads::PadAction,
)
    ensures
        final(buttons)@ == without_value(old(buttons)@, action),
        final(channels)@ == without_keys_of(old(channels)@, old(buttons)@, action),
{
    let ghost start = buttons@;
    let ghost start_channels = channels@;
    let mut k: u16 = 0;
    while k < 256
        invariant
            k <= 256,
            buttons@ == Map::new(|j: u8| start.contains_key(j) && !(j < k && start[j] == action), |j: u8| start[j]),
            channels@ == Map::new(
                |j: u8| start_channels.contains_key(j) && !(j < k && start.contains_key(j) && start[j] == action),
                |j: u8| start_channels[j],
            ),
        decreases 256 - k,
    {
        let hit = match buttons.get(&(k as u8)) {
            Some(x) => *x == action,
            None => false,
        };
        if hit {
            buttons.remove(&(k as u8));
            channels.remove(&(k as u8));
        }
        let ghost kk = k;
        assert(buttons@ =~= Map::new(|j: u8| start.contains_key(j) && !(j < kk + 1 && start[j] == action), |j: u8| start[j]));
        assert(channels@ =~= Map::new(
            |j: u8| start_channels.contains_key(j) && !(j < kk + 1 && start.contains_key(j) && start[j] == action),
            |j: u8| start_channels[j],
        ));
        k += 1;
    }
    assert(buttons@ =~= without_value(start, action));
    assert(channels@ =~= without_keys_of(start_channels, start, action));
}

impl LearnSession {
    /// Whether the current role already has a binding.
    fn role_is_mapped(&self) -> (r: bool)
        ensures
            r == spec_role_is_mapped(self@.draft, spec_role(self@.step)),
    {
        match role_at(self.step) {
            LearnRole::AbsoluteControl(index) => {
                let target = crate::control::control_cc(index);
                let found = map_has_u8_value(&self.draft.controls, target);
                assert(self@.draft.controls == self.draft.controls@);
                assert(target == crate::control::spec_control_cc(index as int));
                if found {
                    let ghost k = choose|k: u8| self.draft.controls@.contains_key(k) && #[trigger] self.draft.controls@[k] == target;
                    assert(self@.draft.controls.contains_key(k) && self@.draft.controls[k] == target);
                    assert(spec_role_is_mapped(self@.draft, LearnRole::AbsoluteControl(index)));
                } else {
                    assert(!spec_role_is_mapped(self@.draft, LearnRole::AbsoluteControl(index)));
                }
                found
            },
            LearnRole::Pad(index) => self.draft.has_action(command_action(index)) || (index == 4
                && self.draft.page_cycle_modifier.is_some() && self.draft.page_cycle_trigger.is_some()),
            _ => false,
        }
    }

    /// Removes the current role's binding.
    fn clear_current_mapping(&mut self)
        ensures
            final(self)@ == (LearnModel { draft: spec_clear_role(old(self)@.draft, spec_role(old(self)@.step)), ..old(self)@ }),
    {
        match role_at(self.step) {
            LearnRole::EncoderCounterClockwise => {
                self.draft.encoder_relative_cc = None;
                self.draft.encoder_relative_reverse = false;
            },
            LearnRole::EncoderClick => {
                self.draft.encoder_press_cc = None;
                self.draft.encoder_press_note = None;
                self.draft.encoder_press_channel = None;
            },
            LearnRole::AbsoluteControl(index) => {
                remove_value(&mut self.draft.controls, crate::control::control_cc(index));
            },
            LearnRole::Pad(index) => {
                let action = command_action(index);
                if index == 4 {
                    self.draft.page_cycle_modifier = None;
                    self.draft.page_cycle_trigger = None;
                }
                remove_action(&mut self.draft.pads, &mut self.draft.pad_channels, action);
                remove_action(&mut self.draft.cc_buttons, &mut self.draft.cc_button_channels, action);
                self.draft.layout = self.draft.inferred_layout();
            },
            LearnRole::EncoderClockwise | LearnRole::Confirm => {},
        }
    }

    /// Starts the current role over at `now`: its binding is removed and the
    /// session waits for quiet again. Once saved, only the feedback changes.
    pub fn retry_at(&mut self, now: Instant)
        ensures
            final(self)@ == spec_retry(old(self)@, now),
    {
        let saved = match self.state {
            LearnState::Saved => true,
            LearnState::SaveButtonHeld { saved, .. } => saved,
            _ => false,
        };
        if saved {
            self.feedback = owned("Profile saved · release the encoder to exit");
            return;
        }
        self.clear_current_mapping();
        self.state = LearnState::EntryQuiet { deadline: crate::clock::deadline(now, ENTRY_QUIET_MILLIS) };
        let mut out = owned("Retry · release control, then wait for ");
        let label = role_at(self.step).label();
        push_str(&mut out, label.as_str());
        self.feedback = out;
    }

    /// Starts the current role over now.
    pub fn retry(&mut self)
        ensures
            exists|now: Instant| final(self)@ == spec_retry(old(self)@, now),
    {
        self.retry_at(crate::clock::current_instant());
    }

    /// Browses back to the previous optional role; `false` while a gesture
    /// is in progress or within the master encoder's roles.
    pub fn previous(&mut self) -> (r: bool)
        ensures
            (final(self)@, r) == spec_previous(old(self)@),
    {
        if !matches!(self.state, LearnState::Armed) {
            return false;
        }
        if self.step <= FIRST_OPTIONAL_STEP {
            self.feedback = owned("Master encoder setup is complete · browse optional mappings");
            return false;
        }
        self.step_backward();
        let mut out = owned("Selected ");
        let label = role_at(self.step).label();
        push_str(&mut out, label.as_str());
        self.feedback = out;
        true
    }

    /// Skips an optional role; `false` while a gesture is in progress or
    /// when the role cannot be skipped.
    pub fn skip(&mut self) -> (r: bool)
        ensures
            (final(self)@, r) == spec_skip(old(self)@),
    {
        if !matches!(self.state, LearnState::Armed) {
            return false;
        }
        let role = role_at(self.step);
        if !role.skippable() {
            self.feedback = if self.can_finish() {
                owned("Click the encoder or press Enter to save and exit")
            } else {
                owned("Learn the master encoder first · Esc cancels")
            };
            return false;
        }
        let skipped = role.label();
        self.step_forward();
        let mut out = owned("Skipped ");
        push_str(&mut out, skipped.as_str());
        self.feedback = out;
        true
    }

    /// Records whether the requested save succeeded.
    pub fn mark_save_result(&mut self, saved: bool)
        ensures
            final(self)@ == spec_mark_save_result(old(self)@, saved),
    {
        match self.state {
            LearnState::SaveButtonHeld { input, .. } => {
                self.state = LearnState::SaveButtonHeld { input, saved };
                self.feedback = if saved {
                    owned("Profile saved and activated · release encoder to exit")
                } else {
                    owned("Save failed · release encoder before retrying")
                };
            },
            _ => {},
        }
    }

    /// Whether the profile was saved.
    pub fn save_committed(&self) -> (r: bool)
        ensures
            r == (self@.state is Saved || self@.state matches LearnState::SaveButtonHeld { saved: true, .. }),
    {
        match self.state {
            LearnState::SaveButtonHeld { saved, .. } => saved,
            LearnState::Saved => true,
            _ => false,
        }
    }

    /// The learned mapping, once the master encoder is learned and every
    /// number is in MIDI range.
    pub fn validated_config(&self) -> (r: Result<crate::pads::PadConfig, String>)
        ensures
            match r {
                Ok(config) => spec_can_finish(self@.draft) && crate::pads::spec_mapping_valid(self@.draft)
                    && config@ == self@.draft,
                Err(message) => !spec_can_finish(self@.draft) && message@
                    == "learn the master encoder left, right, and click before saving"@ || spec_can_finish(
                    self@.draft,
                ) && !crate::pads::spec_mapping_valid(self@.draft),
            },
    {
        if !self.can_finish() {
            return Err(owned("learn the master encoder left, right, and click before saving"));
        }
        match self.draft.validate() {
            Ok(()) => Ok(self.draft.copied()),
            Err(e) => Err(e),
        }
    }
}

} // verus!

verus! {

/// "Conflict · CC {cc} is already assigned · retry".
fn conflict_cc_message(cc: u8) -> (r: String)
    ensures
        r@ == conflict_cc(cc),
{
    let mut out = owned("Conflict · CC ");
    push_decimal(&mut out, cc as u64);
    push_str(&mut out, " is already assigned · retry");
    out
}

impl LearnSession {
    fn learn_absolute(&mut self, index: usize, message: &[u8]) -> (r: Result<String, String>)
        requires
            index < crate::control::CONTROL_COUNT,
        ensures
            final(self)@ == (LearnModel { draft: spec_learn_absolute(old(self)@.draft, index as int, message@).0, ..old(self)@ }),
            result_view(r) == spec_learn_absolute(old(self)@.draft, index as int, message@).1,
    {
        if message.len() < 3 || message[0] & 0xf0 != 0xb0 {
            return Err(owned("Expected an absolute knob/fader CC"));
        }
        let cc = message[1];
        if used_ccs(&self.draft).contains(&cc) {
            return Err(conflict_cc_message(cc));
        }
        self.draft.controls.insert(cc, crate::control::control_cc(index));
        let mut out = owned("CC ");
        push_decimal(&mut out, cc as u64);
        push_str(&mut out, " = ");
        push_str(&mut out, crate::control::control_name(index));
        Ok(out)
    }

    fn learn_encoder_clockwise(&self, message: &[u8]) -> (r: Result<String, String>)
        ensures
            result_view(r) == spec_learn_clockwise(self@.draft, message@),
    {
        let cc = match self.draft.encoder_relative_cc {
            Some(cc) => cc,
            None => {
                return Err(owned("Learn the counterclockwise direction first"));
            },
        };
        if message.len() < 3 || message[0] & 0xf0 != 0xb0 || message[1] != cc {
            let mut out = owned("Expected the same encoder CC ");
            push_decimal(&mut out, cc as u64);
            return Err(out);
        }
        let expected_less = self.draft.encoder_relative_reverse;
        if message[2] == 0 || message[2] == 64 || (message[2] < 64) != expected_less {
            return Err(owned("Direction conflict · turn the encoder right and retry"));
        }
        let mut out = owned("CC ");
        push_decimal(&mut out, cc as u64);
        push_str(&mut out, " value ");
        push_decimal(&mut out, message[2] as u64);
        push_str(&mut out, " = right");
        Ok(out)
    }

    fn learn_encoder_counterclockwise(&mut self, message: &[u8]) -> (r: Result<String, String>)
        ensures
            final(self)@ == (LearnModel { draft: spec_learn_counterclockwise(old(self)@.draft, message@).0, ..old(self)@ }),
            result_view(r) == spec_learn_counterclockwise(old(self)@.draft, message@).1,
    {
        if message.len() < 3 || message[0] & 0xf0 != 0xb0 || message[2] == 0 || message[2] == 64 {
            return Err(owned("Expected a moving relative CC (not neutral 0 or 64)"));
        }
        let cc = message[1];
        if used_ccs(&self.draft).contains(&cc) {
            return Err(conflict_cc_message(cc));
        }
        self.draft.encoder_relative_cc = Some(cc);
        self.draft.encoder_relative_reverse = message[2] > 64;
        let mut out = owned("CC ");
        push_decimal(&mut out, cc as u64);
        push_str(&mut out, " value ");
        push_decimal(&mut out, message[2] as u64);
        push_str(&mut out, " = left");
        Ok(out)
    }

    fn learn_click(&mut self, message: &[u8]) -> (r: Result<String, String>)
        ensures
            final(self)@ == (LearnModel { draft: spec_learn_click(old(self)@.draft, message@).0, ..old(self)@ }),
            result_view(r) == spec_learn_click(old(self)@.draft, message@).1,
    {
        let ccs = used_ccs(&self.draft);
        let notes = used_notes(&self.draft);
        match button_from_message(message, &ccs, &notes) {
            None => Err(owned("Expected an unused CC or note press")),
            Some(Button::Cc { cc, channel }) => {
                self.draft.encoder_press_cc = Some(cc);
                self.draft.encoder_press_channel = Some(channel);
                let mut out = owned("CC ");
                push_decimal(&mut out, cc as u64);
                push_str(&mut out, " ch ");
                push_decimal(&mut out, channel as u64 + 1);
                push_str(&mut out, " = encoder click");
                Ok(out)
            },
            Some(Button::Note { note, channel }) => {
                self.draft.encoder_press_note = Some(note);
                self.draft.encoder_press_channel = Some(channel);
                let mut out = owned("note ");
                push_decimal(&mut out, note as u64);
                push_str(&mut out, " ch ");
                push_decimal(&mut out, channel as u64 + 1);
                push_str(&mut out, " = encoder click");
                Ok(out)
            },
        }
    }

    fn learn_pad_input(&mut self, index: usize, input: LearnInput) -> (r: Result<String, String>)
        requires
            index < COMMAND_COUNT,
        ensures
            final(self)@ == (LearnModel { draft: spec_learn_pad_input(old(self)@.draft, index as int, input).0, ..old(self)@ }),
            result_view(r) == spec_learn_pad_input(old(self)@.draft, index as int, input).1,
    {
        let action = command_action(index);
        match input {
            LearnInput::Cc { channel, cc } => {
                if used_ccs(&self.draft).contains(&cc) {
                    return Err(conflict_cc_message(cc));
                }
                self.draft.cc_buttons.insert(cc, action);
                self.draft.cc_button_channels.insert(cc, channel);
            },
            LearnInput::Note { channel, note } => {
                if used_notes(&self.draft).contains(&note) {
                    let mut out = owned("Conflict · note ");
                    push_decimal(&mut out, note as u64);
                    push_str(&mut out, " is already assigned · retry");
                    return Err(out);
                }
                self.draft.pads.insert(note, action);
                self.draft.pad_channels.insert(note, channel);
            },
        }
        self.draft.layout = self.draft.inferred_layout();
        let mut out = input.description();
        push_str(&mut out, " = ");
        push_str(&mut out, action.name());
        Ok(out)
    }

    fn learn_pad(&mut self, index: usize, message: &[u8]) -> (r: Result<String, String>)
        requires
            index < COMMAND_COUNT,
        ensures
            final(self)@ == (LearnModel { draft: spec_learn_pad(old(self)@.draft, index as int, message@).0, ..old(self)@ }),
            result_view(r) == spec_learn_pad(old(self)@.draft, index as int, message@).1,
    {
        match LearnInput::from_message(message) {
            None => Err(owned("Conflict or release · press an unused pad/button")),
            Some(input) => self.learn_pad_input(index, input),
        }
    }

    /// Learns the page-cycle chord of `modifier` and `trigger`.
    fn learn_chord(&mut self, modifier: LearnInput, trigger: LearnInput)
        ensures
            final(self)@ == spec_learn_chord(old(self)@, modifier, trigger),
    {
        self.draft.page_cycle_modifier = Some(modifier.controller_button());
        self.draft.page_cycle_trigger = Some(trigger.controller_button());
        self.draft.layout = crate::pads::ControllerLayout::Five;
        self.state = LearnState::CycleChordHeld { modifier };
        let mut out = owned("Learned ");
        let first = modifier.description();
        push_str(&mut out, first.as_str());
        push_str(&mut out, " + ");
        let second = trigger.description();
        push_str(&mut out, second.as_str());
        push_str(&mut out, " = page-cycle · OK · release modifier");
        self.feedback = out;
    }
}

} // verus!

verus! {

impl LearnSession {
    /// An armed session's response to a message.
    fn receive_armed(&mut self, message: &[u8], now: Instant) -> (r: LearnAction)
        ensures
            (final(self)@, r) == spec_receive_armed(old(self)@, message@, now),
    {
        if self.can_finish() {
            let cc_action = self.draft.encoder_action(message);
            let navigation = if cc_action.0 {
                cc_action
            } else {
                self.draft.encoder_note_action(message)
            };
            if navigation.0 {
                match navigation.1 {
                    Some(crate::pads::EncoderAction::Up) => {
                        self.previous();
                        match cc_number(message) {
                            Some(cc) => {
                                self.state = LearnState::NavigationSettling {
                                    cc,
                                    deadline: crate::clock::deadline(now, GESTURE_SETTLE_MILLIS),
                                };
                            },
                            None => {},
                        }
                    },
                    Some(crate::pads::EncoderAction::Down) => {
                        self.skip();
                        match cc_number(message) {
                            Some(cc) => {
                                self.state = LearnState::NavigationSettling {
                                    cc,
                                    deadline: crate::clock::deadline(now, GESTURE_SETTLE_MILLIS),
                                };
                            },
                            None => {},
                        }
                    },
                    Some(crate::pads::EncoderAction::Select) => {
                        match LearnInput::from_message(message) {
                            Some(input) => {
                                self.state = LearnState::SaveButtonHeld { input, saved: false };
                                self.feedback = owned("Save requested · keep the encoder held");
                                return LearnAction::Save;
                            },
                            None => {},
                        }
                    },
                    None => {},
                }
                return LearnAction::Idle;
            }
        }
        let role = role_at(self.step);
        if self.role_is_mapped() || !message_is_relevant(role, message) {
            return LearnAction::Idle;
        }
        if role == LearnRole::Pad(4) {
            match LearnInput::from_message(message) {
                Some(modifier) => {
                    self.state = LearnState::CycleCandidate { modifier };
                    self.feedback = owned("Modifier held · now move or press the page-switch control");
                },
                None => {},
            }
            return LearnAction::Idle;
        }
        let accepted = match role {
            LearnRole::AbsoluteControl(index) => self.learn_absolute(index, message),
            LearnRole::EncoderCounterClockwise => self.learn_encoder_counterclockwise(message),
            LearnRole::EncoderClockwise => self.learn_encoder_clockwise(message),
            LearnRole::EncoderClick => self.learn_click(message),
            LearnRole::Pad(index) => self.learn_pad(index, message),
            LearnRole::Confirm => {
                return LearnAction::Idle;
            },
        };
        match accepted {
            Ok(description) => {
                if matches!(role, LearnRole::EncoderClick | LearnRole::Pad(_)) {
                    let input = match LearnInput::from_message(message) {
                        Some(input) => input,
                        None => {
                            return LearnAction::Idle;
                        },
                    };
                    self.state = LearnState::ButtonHeld { input };
                    let mut out = owned("Learned ");
                    push_str(&mut out, description.as_str());
                    push_str(&mut out, " · OK · release to continue");
                    self.feedback = out;
                } else {
                    let cc = match cc_number(message) {
                        Some(cc) => cc,
                        None => {
                            return LearnAction::Idle;
                        },
                    };
                    self.state = LearnState::Settling {
                        cc,
                        deadline: crate::clock::deadline(now, GESTURE_SETTLE_MILLIS),
                    };
                    let mut out = owned("Learned ");
                    push_str(&mut out, description.as_str());
                    push_str(&mut out, " · OK · finish movement");
                    self.feedback = out;
                }
                LearnAction::Idle
            },
            Err(error) => {
                self.feedback = error;
                LearnAction::Idle
            },
        }
    }

    /// The session's response to one MIDI message received at `now`: the
    /// gesture state advances, and the owner is asked to save or to finish.
    pub fn receive(&mut self, message: &[u8], now: Instant) -> (r: LearnAction)
        ensures
            (final(self)@, r) == spec_receive(old(self)@, message@, now),
    {
        match self.state {
            LearnState::EntryQuiet { .. } => {
                if message_marks_activity(message) {
                    self.state = LearnState::EntryQuiet {
                        deadline: crate::clock::deadline(now, ENTRY_QUIET_MILLIS),
                    };
                }
                LearnAction::Idle
            },
            LearnState::Settling { cc, .. } => {
                if cc_message(message, cc) {
                    self.state = LearnState::Settling {
                        cc,
                        deadline: crate::clock::deadline(now, GESTURE_SETTLE_MILLIS),
                    };
                }
                LearnAction::Idle
            },
            LearnState::NavigationSettling { cc, .. } => {
                if cc_message(message, cc) {
                    self.state = LearnState::NavigationSettling {
                        cc,
                        deadline: crate::clock::deadline(now, GESTURE_SETTLE_MILLIS),
                    };
                }
                LearnAction::Idle
            },
            LearnState::ButtonHeld { input } => {
                if input.is_release(message) {
                    self.advance_after_capture();
                }
                LearnAction::Idle
            },
            LearnState::CycleCandidate { modifier } => {
                if modifier.is_release(message) {
                    self.state = LearnState::CycleConfirm { candidate: modifier };
                    self.feedback = owned(
                        "No chord seen · press the same page-switch button again to confirm",
                    );
                } else {
                    match LearnInput::from_message(message) {
                        Some(trigger) => {
                            if trigger != modifier {
                                self.learn_chord(modifier, trigger);
                            }
                        },
                        None => {},
                    }
                }
                LearnAction::Idle
            },
            LearnState::CycleConfirm { candidate } => {
                match LearnInput::from_message(message) {
                    Some(input) => {
                        if input == candidate {
                            self.state = LearnState::CycleConfirmHeld { candidate };
                            self.feedback = owned(
                                "Release to confirm this button, or keep holding and use a trigger",
                            );
                        } else {
                            self.state = LearnState::CycleCandidate { modifier: input };
                            self.feedback = owned(
                                "Modifier held · now move or press the page-switch control",
                            );
                        }
                    },
                    None => {},
                }
                LearnAction::Idle
            },
            LearnState::CycleConfirmHeld { candidate } => {
                if candidate.is_release(message) {
                    match self.learn_pad_input(4, candidate) {
                        Ok(description) => {
                            let mut out = owned("Learned ");
                            push_str(&mut out, description.as_str());
                            push_str(&mut out, " · OK");
                            self.feedback = out;
                            self.state = LearnState::PostRelease {
                                deadline: crate::clock::deadline(now, GESTURE_SETTLE_MILLIS),
                            };
                        },
                        Err(error) => {
                            self.state = LearnState::Armed;
                            self.feedback = error;
                        },
                    }
                } else {
                    match LearnInput::from_message(message) {
                        Some(trigger) => {
                            if trigger != candidate {
                                self.learn_chord(candidate, trigger);
                            }
                        },
                        None => {},
                    }
                }
                LearnAction::Idle
            },
            LearnState::CycleChordHeld { modifier } => {
                if modifier.is_release(message) {
                    self.advance_after_capture();
                }
                LearnAction::Idle
            },
            LearnState::PostRelease { .. } => LearnAction::Idle,
            LearnState::SaveButtonHeld { input, saved } => {
                if input.is_release(message) {
                    if saved {
                        self.state = LearnState::Saved;
                        return LearnAction::FinishSaved;
                    }
                    self.state = LearnState::Armed;
                    self.feedback = owned("Save failed · release received · ready to retry");
                }
                LearnAction::Idle
            },
            LearnState::Saved => LearnAction::Idle,
            LearnState::Armed => self.receive_armed(message, now),
        }
    }
}

} // verus!

verus! {

/// Every operation keeps the session's step within the learn steps, up to
/// and including the review step.
pub proof fn lemma_step_stays_in_range(m: LearnModel, msg: Seq<u8>, now: Instant)
    requires
        0 <= m.step <= CONFIRM_STEP,
    ensures
        0 <= spec_receive(m, msg, now).0.step <= CONFIRM_STEP,
        0 <= spec_tick(m, now).step <= CONFIRM_STEP,
        0 <= spec_skip(m).0.step <= CONFIRM_STEP,
        0 <= spec_previous(m).0.step <= CONFIRM_STEP,
        0 <= spec_retry(m, now).step <= CONFIRM_STEP,
{
}

/// A save is requested only once the master encoder is learned, and the
/// session then waits for the encoder's release.
pub proof fn lemma_save_needs_master_encoder(m: LearnModel, msg: Seq<u8>, now: Instant)
    ensures
        spec_receive(m, msg, now).1 == LearnAction::Save ==> spec_can_finish(m.draft)
            && spec_receive(m, msg, now).0.state is SaveButtonHeld,
{
}

/// The session finishes only when the encoder that requested a successful
/// save is released.
pub proof fn lemma_finish_only_after_saved(m: LearnModel, msg: Seq<u8>, now: Instant)
    ensures
        spec_receive(m, msg, now).1 == LearnAction::FinishSaved ==> (m.state matches LearnState::SaveButtonHeld { input, saved } && saved
            && spec_is_release(input, msg) && spec_receive(m, msg, now).0.state is Saved),
{
}

/// A finished session ignores further messages and time, and a retry keeps
/// its mapping.
pub proof fn lemma_saved_session_is_final(m: LearnModel, msg: Seq<u8>, now: Instant)
    requires
        m.state is Saved,
    ensures
        spec_receive(m, msg, now) == (m, LearnAction::Idle),
        spec_tick(m, now) == m,
        spec_retry(m, now).draft == m.draft,
        spec_retry(m, now).state == m.state,
{
}

/// The step a session shows, counted from one: its step, the review step
/// at most.
pub open spec fn shown_step(m: LearnModel) -> int {
    (if m.step < CONFIRM_STEP { m.step } else { CONFIRM_STEP as int }) + 1
}

/// The progress shown follows the role: it runs from 1, at the first
/// encoder direction, to the total, at the review step, and the role is
/// the one of the step shown.
pub proof fn lemma_progress_tracks_role(m: LearnModel)
    requires
        0 <= m.step <= CONFIRM_STEP,
    ensures
        1 <= shown_step(m) <= TOTAL_STEPS,
        TOTAL_STEPS == crate::control::CONTROL_COUNT + 13,
        (shown_step(m) == 1) == (spec_role(m.step) == LearnRole::EncoderCounterClockwise),
        (shown_step(m) == TOTAL_STEPS) == (spec_role(m.step) == LearnRole::Confirm),
        spec_role(shown_step(m) - 1) == spec_role(m.step),
{
}

/// The master encoder's roles cannot be skipped.
pub proof fn lemma_master_roles_not_skippable(m: LearnModel)
    requires
        0 <= m.step < FIRST_OPTIONAL_STEP,
    ensures
        !spec_skip(m).1,
        spec_skip(m).0.step == m.step,
        spec_skip(m).0.draft == m.draft,
{
}


// ---------------------------------------------------------------------------
// The command-line learner's decisions
// ---------------------------------------------------------------------------

/// Whether some control of `controls` drives the target CC `target`.
pub open spec fn target_mapped(controls: Map<u8, u8>, target: u8) -> bool {
    exists|k: u8| controls.contains_key(k) && #[trigger] controls[k] == target
}

/// The parameters among the first `k` that no control drives yet, in order.
pub open spec fn unmapped_upto(controls: Map<u8, u8>, k: int) -> Seq<usize>
    decreases k,
{
    if k <= 0 {
        Seq::empty()
    } else if target_mapped(controls, crate::control::spec_control_cc(k - 1)) {
        unmapped_upto(controls, k - 1)
    } else {
        unmapped_upto(controls, k - 1).push((k - 1) as usize)
    }
}

/// The parameters no control drives yet, in parameter order: those the
/// learner offers to map.
pub fn unmapped_controls(config: &crate::pads::PadConfig) -> (r: Vec<usize>)
    ensures
        r@ == unmapped_upto(config@.controls, crate::control::CONTROL_COUNT as int),
{
    let mut out: Vec<usize> = Vec::new();
    let mut i: usize = 0;
    while i < crate::control::CONTROL_COUNT
        invariant
            i <= crate::control::CONTROL_COUNT,
            out@ == unmapped_upto(config@.controls, i as int),
        decreases crate::control::CONTROL_COUNT - i,
    {
        if !map_has_u8_value(&config.controls, crate::control::control_cc(i)) {
            out.push(i);
        }
        i += 1;
    }
    out
}

/// Maps the control sending `cc` to parameter `index`.
pub fn map_control(config: &mut crate::pads::PadConfig, cc: u8, index: usize)
    requires
        index < crate::control::CONTROL_COUNT,
    ensures
        final(config)@ == (crate::pads::PadModel {
            controls: old(config)@.controls.insert(cc, crate::control::spec_control_cc(index as int)),
            ..old(config)@
        }),
{
    config.controls.insert(cc, crate::control::control_cc(index));
}

/// Takes the encoder's clockwise turn, CC `cc` with `value`: a value of 64
/// says nothing of the direction and is refused; below 64 the encoder
/// counts the other way round.
pub fn map_encoder(config: &mut crate::pads::PadConfig, cc: u8, value: u8) -> (r: Result<(), String>)
    ensures
        value == 64 ==> (r matches Err(e) && e@ == "encoder sent only its stationary value; turn it farther and retry"@
            && final(config)@ == old(config)@),
        value != 64 ==> r is Ok && final(config)@ == (crate::pads::PadModel {
            encoder_relative_cc: Some(cc),
            encoder_relative_reverse: value < 64,
            ..old(config)@
        }),
{
    if value == 64 {
        return Err(owned("encoder sent only its stationary value; turn it farther and retry"));
    }
    config.encoder_relative_cc = Some(cc);
    config.encoder_relative_reverse = value < 64;
    Ok(())
}

/// Takes the button pressed as the encoder's select.
pub fn map_encoder_press(config: &mut crate::pads::PadConfig, button: Button)
    ensures
        final(config)@ == match button {
            Button::Cc { cc, .. } => crate::pads::PadModel { encoder_press_cc: Some(cc), ..old(config)@ },
            Button::Note { note, .. } => crate::pads::PadModel { encoder_press_note: Some(note), ..old(config)@ },
        },
{
    match button {
        Button::Cc { cc, .. } => config.encoder_press_cc = Some(cc),
        Button::Note { note, .. } => config.encoder_press_note = Some(note),
    }
}

/// The commands a controller with `count` command buttons gets, in the
/// order they are learned.
pub open spec fn spec_layout_actions(count: nat) -> Option<Seq<crate::pads::PadAction>> {
    if count == 0 {
        Some(Seq::empty())
    } else if count == 4 {
        Some(seq![PadAction::Item1, PadAction::Item2, PadAction::Item3, PadAction::Item4])
    } else if count == 5 {
        Some(seq![PadAction::CyclePage, PadAction::Item1, PadAction::Item2, PadAction::Item3, PadAction::Item4])
    } else if count == 8 {
        Some(seq![PadAction::Page1, PadAction::Page2, PadAction::Page3, PadAction::Page4,
            PadAction::Item1, PadAction::Item2, PadAction::Item3, PadAction::Item4])
    } else {
        None
    }
}

/// The layout a number of command buttons stands for.
pub open spec fn spec_layout_of(count: nat) -> crate::pads::ControllerLayout {
    if count == 5 {
        crate::pads::ControllerLayout::Five
    } else if count == 8 {
        crate::pads::ControllerLayout::Eight
    } else {
        crate::pads::ControllerLayout::Four
    }
}

/// Clears the command buttons for a controller with `count` of them (0, 4,
/// 5 or 8) and gives the commands to learn in order; without buttons the
/// lock CC goes too. Any other count is refused and nothing changes.
pub fn reset_buttons(config: &mut crate::pads::PadConfig, count: usize) -> (r: Result<Vec<crate::pads::PadAction>, String>)
    ensures
        match spec_layout_actions(count as nat) {
            None => r matches Err(e) && e@ == "command-button count must be 0, 4, 5, or 8"@
                && final(config)@ == old(config)@,
            Some(actions) => r matches Ok(v) && v@ == actions && final(config)@ == (crate::pads::PadModel {
                layout: spec_layout_of(count as nat),
                pads: Map::empty(),
                pad_channels: Map::empty(),
                cc_buttons: Map::empty(),
                cc_button_channels: Map::empty(),
                page_cycle_modifier: None,
                page_cycle_trigger: None,
                lock_cc: if count == 0 { None } else { old(config)@.lock_cc },
                ..old(config)@
            }),
        },
{
    let mut actions: Vec<PadAction> = Vec::new();
    let layout = if count == 0 || count == 4 {
        if count == 4 {
            actions.push(PadAction::Item1);
            actions.push(PadAction::Item2);
            actions.push(PadAction::Item3);
            actions.push(PadAction::Item4);
        }
        ControllerLayout::Four
    } else if count == 5 {
        actions.push(PadAction::CyclePage);
        actions.push(PadAction::Item1);
        actions.push(PadAction::Item2);
        actions.push(PadAction::Item3);
        actions.push(PadAction::Item4);
        ControllerLayout::Five
    } else if count == 8 {
        actions.push(PadAction::Page1);
        actions.push(PadAction::Page2);
        actions.push(PadAction::Page3);
        actions.push(PadAction::Page4);
        actions.push(PadAction::Item1);
        actions.push(PadAction::Item2);
        actions.push(PadAction::Item3);
        actions.push(PadAction::Item4);
        ControllerLayout::Eight
    } else {
        return Err(owned("command-button count must be 0, 4, 5, or 8"));
    };
    config.layout = layout;
    config.pads.clear();
    config.pad_channels.clear();
    config.cc_buttons.clear();
    config.cc_button_channels.clear();
    config.page_cycle_modifier = None;
    config.page_cycle_trigger = None;
    if count == 0 {
        config.lock_cc = None;
    }
    proof {
        let expected = spec_layout_actions(count as nat)->0;
        assert(actions@ =~= expected);
    }
    Ok(actions)
}

/// Binds the button pressed to `action`, with its channel.
pub fn map_button(config: &mut crate::pads::PadConfig, action: crate::pads::PadAction, button: Button)
    ensures
        final(config)@ == match button {
            Button::Cc { cc, channel } => crate::pads::PadModel {
                cc_buttons: old(config)@.cc_buttons.insert(cc, action),
                cc_button_channels: old(config)@.cc_button_channels.insert(cc, channel),
                ..old(config)@
            },
            Button::Note { note, channel } => crate::pads::PadModel {
                pads: old(config)@.pads.insert(note, action),
                pad_channels: old(config)@.pad_channels.insert(note, channel),
                ..old(config)@
            },
        },
{
    match button {
        Button::Cc { cc, channel } => {
            config.cc_buttons.insert(cc, action);
            config.cc_button_channels.insert(cc, channel);
        },
        Button::Note { note, channel } => {
            config.pads.insert(note, action);
            config.pad_channels.insert(note, channel);
        },
    }
}


/// Whether the learned inputs of a mapping are pairwise distinct: no CC
/// serves both an absolute control, a command button and the master
/// encoder's turn or click, and the encoder's click note is no pad's.
pub open spec fn learned_distinct(d: crate::pads::PadModel) -> bool {
    &&& forall|cc: u8| #[trigger] d.controls.contains_key(cc) ==> !d.cc_buttons.contains_key(cc)
    &&& (d.encoder_relative_cc matches Some(cc) ==> !d.controls.contains_key(cc) && !d.cc_buttons.contains_key(cc))
    &&& (d.encoder_press_cc matches Some(cc) ==> !d.controls.contains_key(cc) && !d.cc_buttons.contains_key(cc)
        && d.encoder_relative_cc != Some(cc))
    &&& (d.encoder_press_note matches Some(n) ==> !d.pads.contains_key(n))
}

proof fn lemma_clear_role_keeps_distinct(d: crate::pads::PadModel, role: LearnRole)
    requires
        learned_distinct(d),
    ensures
        learned_distinct(spec_clear_role(d, role)),
{
}

proof fn lemma_learn_role_keeps_distinct(d: crate::pads::PadModel, role: LearnRole, msg: Seq<u8>)
    requires
        learned_distinct(d),
    ensures
        learned_distinct(spec_learn_role(d, role, msg).0),
        spec_learn_role(d, role, msg).1 is Err ==> spec_learn_role(d, role, msg).0 == d,
{
    match role {
        LearnRole::Pad(i) => {
            match spec_input_from_message(msg) {
                Some(input) => lemma_learn_pad_keeps_distinct(d, i as int, input),
                None => {},
            }
        },
        _ => {},
    }
}

proof fn lemma_learn_pad_keeps_distinct(d: crate::pads::PadModel, i: int, input: LearnInput)
    requires
        learned_distinct(d),
    ensures
        learned_distinct(spec_learn_pad_input(d, i, input).0),
        spec_learn_pad_input(d, i, input).1 is Err ==> spec_learn_pad_input(d, i, input).0 == d,
{
}

/// A new session's mapping has distinct learned inputs.
pub proof fn lemma_new_session_distinct(input_name: Seq<char>, now: Instant)
    ensures
        learned_distinct(spec_new_session(input_name, now).draft),
{
}

/// Every step of a session keeps its learned inputs pairwise distinct:
/// receiving a message, time passing, skipping, going back, retrying and
/// recording a save; so every session reached from a new one has them
/// distinct. A role's learning that is refused changes no mapping.
pub proof fn lemma_learning_keeps_inputs_distinct(m: LearnModel, msg: Seq<u8>, now: Instant, saved: bool)
    requires
        learned_distinct(m.draft),
    ensures
        learned_distinct(spec_receive(m, msg, now).0.draft),
        learned_distinct(spec_tick(m, now).draft),
        learned_distinct(spec_skip(m).0.draft),
        learned_distinct(spec_previous(m).0.draft),
        learned_distinct(spec_retry(m, now).draft),
        learned_distinct(spec_mark_save_result(m, saved).draft),
        spec_learn_role(m.draft, spec_role(m.step), msg).1 is Err
            ==> spec_learn_role(m.draft, spec_role(m.step), msg).0 == m.draft,
{
    lemma_learn_role_keeps_distinct(m.draft, spec_role(m.step), msg);
    lemma_clear_role_keeps_distinct(m.draft, spec_role(m.step));
    match m.state {
        LearnState::CycleConfirmHeld { candidate } => {
            lemma_learn_pad_keeps_distinct(m.draft, 4, candidate);
        },
        _ => {},
    }
}

} // verus!

