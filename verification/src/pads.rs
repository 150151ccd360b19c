//! The controller mapping a session learns or a profile applies: which
//! physical controls drive the absolute parameters, the master encoder, and
//! the command buttons.
use vstd::prelude::*;
use std::collections::HashMap;
use crate::text::opt_view;

verus! {

broadcast use vstd::std_specs::hash::group_hash_axioms;

/// What a command button does.
#[derive(Clone, Copy, Debug, PartialEq, Eq, Structural)]
pub enum PadAction {
    Page1,
    Page2,
    Page3,
    Page4,
    CyclePage,
    Item1,
    Item2,
    Item3,
    Item4,
}

/// How many command buttons the controller offers.
#[derive(Clone, Copy, Debug, PartialEq, Eq, Structural)]
pub enum ControllerLayout {
    Four,
    Five,
    Eight,
}

/// One physical button: a CC or a note on a channel (zero-based).
#[derive(Clone, Copy, Debug, PartialEq, Eq, Structural)]
pub enum ControllerButton {
    Cc { channel: u8, cc: u8 },
    Note { channel: u8, note: u8 },
}

/// What the master encoder asks for.
#[derive(Clone, Copy, Debug, PartialEq, Eq, Structural)]
pub enum EncoderAction {
    Up,
    Down,
    Select,
}

impl PadAction {
    pub open spec fn spec_name(self) -> Seq<char> {
        match self {
            PadAction::Page1 => "page-1"@,
            PadAction::Page2 => "page-2"@,
            PadAction::Page3 => "page-3"@,
            PadAction::Page4 => "page-4"@,
            PadAction::CyclePage => "cycle-page"@,
            PadAction::Item1 => "item-1"@,
            PadAction::Item2 => "item-2"@,
            PadAction::Item3 => "item-3"@,
            PadAction::Item4 => "item-4"@,
        }
    }

    /// The action's name as written in configuration and profiles.
    pub fn name(self) -> (r: &'static str)
        ensures
            r@ == self.spec_name(),
    {
        match self {
            PadAction::Page1 => "page-1",
            PadAction::Page2 => "page-2",
            PadAction::Page3 => "page-3",
            PadAction::Page4 => "page-4",
            PadAction::CyclePage => "cycle-page",
            PadAction::Item1 => "item-1",
            PadAction::Item2 => "item-2",
            PadAction::Item3 => "item-3",
            PadAction::Item4 => "item-4",
        }
    }

    /// The action a configuration name stands for.
    pub fn from_name(name: &str) -> (r: Option<PadAction>)
        ensures
            r == spec_action_named(name@),
    {
        let v = crate::text::chars_of(name);
        let all = [
            PadAction::Page1,
            PadAction::Page2,
            PadAction::Page3,
            PadAction::Page4,
            PadAction::CyclePage,
            PadAction::Item1,
            PadAction::Item2,
            PadAction::Item3,
            PadAction::Item4,
        ];
        let mut i: usize = 0;
        while i < 9
            invariant
                i <= 9,
                v@ == name@,
                all@ == action_list(),
                spec_action_named(name@) == named_from(name@, i as int),
            decreases 9 - i,
        {
            let candidate = crate::text::chars_of(all[i].name());
            if crate::text::chars_eq(&v, &candidate) {
                return Some(all[i]);
            }
            i += 1;
        }
        None
    }
}

/// The mapping as mathematical values.
pub struct PadModel {
    pub input_match: Option<Seq<char>>,
    pub profile: Option<Seq<char>>,
    pub layout: ControllerLayout,
    pub controls: Map<u8, u8>,
    pub encoder_relative_cc: Option<u8>,
    pub encoder_relative_reverse: bool,
    pub encoder_press_cc: Option<u8>,
    pub encoder_press_note: Option<u8>,
    pub encoder_press_channel: Option<u8>,
    pub lock_cc: Option<u8>,
    pub pads: Map<u8, PadAction>,
    pub pad_channels: Map<u8, u8>,
    pub cc_buttons: Map<u8, PadAction>,
    pub cc_button_channels: Map<u8, u8>,
    pub page_cycle_modifier: Option<ControllerButton>,
    pub page_cycle_trigger: Option<ControllerButton>,
}

/// A controller mapping: incoming CC to target CC for absolute controls, the
/// master encoder, the optional lock CC, and command buttons by note or CC
/// with their optional channel qualifiers.
#[derive(Clone, Debug)]
pub struct PadConfig {
    pub input_match: Option<String>,
    pub profile: Option<String>,
    pub layout: ControllerLayout,
    pub controls: HashMap<u8, u8>,
    pub encoder_relative_cc: Option<u8>,
    pub encoder_relative_reverse: bool,
    pub encoder_press_cc: Option<u8>,
    pub encoder_press_note: Option<u8>,
    pub encoder_press_channel: Option<u8>,
    pub lock_cc: Option<u8>,
    pub pads: HashMap<u8, PadAction>,
    pub pad_channels: HashMap<u8, u8>,
    pub cc_buttons: HashMap<u8, PadAction>,
    pub cc_button_channels: HashMap<u8, u8>,
    pub page_cycle_modifier: Option<ControllerButton>,
    pub page_cycle_trigger: Option<ControllerButton>,
}

impl View for PadConfig {
    type V = PadModel;

    open spec fn view(&self) -> PadModel {
        PadModel {
            input_match: opt_view(self.input_match),
            profile: opt_view(self.profile),
            layout: self.layout,
            controls: self.controls@,
            encoder_relative_cc: self.encoder_relative_cc,
            encoder_relative_reverse: self.encoder_relative_reverse,
            encoder_press_cc: self.encoder_press_cc,
            encoder_press_note: self.encoder_press_note,
            encoder_press_channel: self.encoder_press_channel,
            lock_cc: self.lock_cc,
            pads: self.pads@,
            pad_channels: self.pad_channels@,
            cc_buttons: self.cc_buttons@,
            cc_button_channels: self.cc_button_channels@,
            page_cycle_modifier: self.page_cycle_modifier,
            page_cycle_trigger: self.page_cycle_trigger,
        }
    }
}

/// Whether a command button (by note or CC) is mapped to `action`.
pub open spec fn has_action(m: PadModel, action: PadAction) -> bool {
    map_has(m.pads, action) || map_has(m.cc_buttons, action)
}

/// Whether some key of `m` maps to `action`.
pub open spec fn map_has(m: Map<u8, PadAction>, action: PadAction) -> bool {
    exists|k: u8| m.contains_key(k) && #[trigger] m[k] == action
}

pub open spec fn keys_at_most<V>(m: Map<u8, V>, max: u8) -> bool {
    forall|k: u8| #[trigger] m.contains_key(k) ==> k <= max
}

pub open spec fn values_at_most(m: Map<u8, u8>, max: u8) -> bool {
    forall|k: u8| #[trigger] m.contains_key(k) ==> m[k] <= max
}

/// Whether one of the four dedicated page buttons is mapped.
pub open spec fn has_page_button(m: PadModel) -> bool {
    has_action(m, PadAction::Page1) || has_action(m, PadAction::Page2) || has_action(
        m,
        PadAction::Page3,
    ) || has_action(m, PadAction::Page4)
}

/// The layout a mapping implies: eight buttons with dedicated pages, five
/// with a page-cycle button or chord, four otherwise.
pub open spec fn spec_inferred_layout(m: PadModel) -> ControllerLayout {
    if has_page_button(m) {
        ControllerLayout::Eight
    } else if has_action(m, PadAction::CyclePage) || (m.page_cycle_modifier is Some
        && m.page_cycle_trigger is Some) {
        ControllerLayout::Five
    } else {
        ControllerLayout::Four
    }
}

pub open spec fn button_is_cc(b: Option<ControllerButton>, cc: u8) -> bool {
    b matches Some(ControllerButton::Cc { cc: c, .. }) && c == cc
}

pub open spec fn button_is_note(b: Option<ControllerButton>, note: u8) -> bool {
    b matches Some(ControllerButton::Note { note: n, .. }) && n == note
}

/// CC numbers a mapping already uses.
pub open spec fn spec_used_ccs(m: PadModel) -> Set<u8> {
    Set::new(
        |cc: u8|
            m.controls.contains_key(cc) || m.cc_buttons.contains_key(cc) || m.encoder_relative_cc
                == Some(cc) || m.encoder_press_cc == Some(cc) || m.lock_cc == Some(cc)
                || button_is_cc(m.page_cycle_modifier, cc) || button_is_cc(m.page_cycle_trigger, cc),
    )
}

/// Note numbers a mapping already uses.
pub open spec fn spec_used_notes(m: PadModel) -> Set<u8> {
    Set::new(
        |note: u8|
            m.pads.contains_key(note) || m.encoder_press_note == Some(note)
                || button_is_note(m.page_cycle_modifier, note) || button_is_note(m.page_cycle_trigger, note),
    )
}

/// How the master encoder reads a CC message: `(consumed, action)`.
pub open spec fn spec_encoder_action(m: PadModel, message: Seq<u8>) -> (bool, Option<EncoderAction>) {
    if message.len() < 3 || message[0] & 0xf0 != 0xb0 {
        (false, None)
    } else if m.encoder_press_cc == Some(message[1]) && (m.encoder_press_channel is None
        || m.encoder_press_channel == Some(message[0] & 0x0f)) {
        (true, if message[2] > 0 { Some(EncoderAction::Select) } else { None })
    } else if m.encoder_relative_cc == Some(message[1]) {
        if message[2] == 0 || message[2] == 64 {
            (true, None)
        } else if (message[2] > 64) == m.encoder_relative_reverse {
            (true, Some(EncoderAction::Up))
        } else {
            (true, Some(EncoderAction::Down))
        }
    } else {
        (false, None)
    }
}

/// How the master encoder reads a note message: `(consumed, action)`.
pub open spec fn spec_encoder_note_action(m: PadModel, message: Seq<u8>) -> (bool, Option<EncoderAction>) {
    if message.len() < 3 || m.encoder_press_note != Some(message[1]) || !(m.encoder_press_channel
        is None || m.encoder_press_channel == Some(message[0] & 0x0f)) {
        (false, None)
    } else if message[0] & 0xf0 == 0x90 && message[2] > 0 {
        (true, Some(EncoderAction::Select))
    } else if message[0] & 0xf0 == 0x80 || message[0] & 0xf0 == 0x90 {
        (true, None)
    } else {
        (false, None)
    }
}

/// Whether every number in a mapping is a 7-bit MIDI value and every channel
/// one of the sixteen.
pub open spec fn spec_mapping_valid(m: PadModel) -> bool {
    &&& keys_at_most(m.controls, 127)
    &&& values_at_most(m.controls, 127)
    &&& keys_at_most(m.pads, 127)
    &&& keys_at_most(m.cc_buttons, 127)
    &&& values_at_most(m.pad_channels, 15)
    &&& values_at_most(m.cc_button_channels, 15)
    &&& (m.encoder_relative_cc matches Some(n) ==> n <= 127)
    &&& (m.encoder_press_cc matches Some(n) ==> n <= 127)
    &&& (m.encoder_press_note matches Some(n) ==> n <= 127)
    &&& (m.encoder_press_channel matches Some(n) ==> n <= 15)
    &&& (m.lock_cc matches Some(n) ==> n <= 127)
}

fn map_keys_at_most<V>(m: &HashMap<u8, V>, max: u8) -> (r: bool)
    ensures
        r == keys_at_most(m@, max),
{
    let mut k: u16 = 255;
    while k > max as u16
        invariant
            max as u16 <= k <= 255,
            forall|j: u8| j > k ==> !m@.contains_key(j),
        decreases k,
    {
        if m.contains_key(&(k as u8)) {
            return false;
        }
        k -= 1;
    }
    true
}

fn map_values_at_most(m: &HashMap<u8, u8>, max: u8) -> (r: bool)
    ensures
        r == values_at_most(m@, max),
{
    let mut k: u16 = 0;
    while k < 256
        invariant
            k <= 256,
            forall|j: u8| j < k && #[trigger] m@.contains_key(j) ==> m@[j] <= max,
        decreases 256 - k,
    {
        match m.get(&(k as u8)) {
            Some(v) => {
                if *v > max {
                    return false;
                }
            },
            None => {},
        }
        k += 1;
    }
    true
}

fn at_most(o: Option<u8>, max: u8) -> (r: bool)
    ensures
        r == (o matches Some(n) ==> n <= max),
{
    match o {
        Some(n) => n <= max,
        None => true,
    }
}

/// Whether `action` is mapped to a note button among the keys of `m`.
fn map_has_value(m: &HashMap<u8, PadAction>, action: PadAction) -> (r: bool)
    ensures
        r == map_has(m@, action),
{
    let mut k: u16 = 0;
    while k < 256
        invariant
            k <= 256,
            forall|j: u8| j < k && #[trigger] m@.contains_key(j) ==> m@[j] != action,
        decreases 256 - k,
    {
        match m.get(&(k as u8)) {
            Some(v) => {
                if *v == action {
                    return true;
                }
            },
            None => {},
        }
        k += 1;
    }
    false
}

impl PadConfig {
    /// An empty mapping for an input: no controls, encoder, or buttons, four
    /// command buttons.
    pub fn unmapped(input_match: String) -> (r: Self)
        ensures
            r@.input_match == Some(input_match@),
            r@.profile is None,
            r@.layout == ControllerLayout::Four,
            r@.controls == Map::<u8, u8>::empty(),
            r@.encoder_relative_cc is None,
            !r@.encoder_relative_reverse,
            r@.encoder_press_cc is None,
            r@.encoder_press_note is None,
            r@.encoder_press_channel is None,
            r@.lock_cc is None,
            r@.pads == Map::<u8, PadAction>::empty(),
            r@.pad_channels == Map::<u8, u8>::empty(),
            r@.cc_buttons == Map::<u8, PadAction>::empty(),
            r@.cc_button_channels == Map::<u8, u8>::empty(),
            r@.page_cycle_modifier is None,
            r@.page_cycle_trigger is None,
    {
        PadConfig {
            input_match: Some(input_match),
            profile: None,
            layout: ControllerLayout::Four,
            controls: HashMap::new(),
            encoder_relative_cc: None,
            encoder_relative_reverse: false,
            encoder_press_cc: None,
            encoder_press_note: None,
            encoder_press_channel: None,
            lock_cc: None,
            pads: HashMap::new(),
            pad_channels: HashMap::new(),
            cc_buttons: HashMap::new(),
            cc_button_channels: HashMap::new(),
            page_cycle_modifier: None,
            page_cycle_trigger: None,
        }
    }

    /// Whether a command button is mapped to `action`.
    pub fn has_action(&self, action: PadAction) -> (r: bool)
        ensures
            r == has_action(self@, action),
    {
        map_has_value(&self.pads, action) || map_has_value(&self.cc_buttons, action)
    }

    /// The layout the mapped buttons imply.
    pub fn inferred_layout(&self) -> (r: ControllerLayout)
        ensures
            r == spec_inferred_layout(self@),
    {
        if self.has_action(PadAction::Page1) || self.has_action(PadAction::Page2)
            || self.has_action(PadAction::Page3) || self.has_action(PadAction::Page4) {
            ControllerLayout::Eight
        } else if self.has_action(PadAction::CyclePage) || (self.page_cycle_modifier.is_some()
            && self.page_cycle_trigger.is_some()) {
            ControllerLayout::Five
        } else {
            ControllerLayout::Four
        }
    }

    /// Whether CC `cc` is already taken by this mapping.
    pub fn uses_cc(&self, cc: u8) -> (r: bool)
        ensures
            r == spec_used_ccs(self@).contains(cc),
    {
        let button_cc = |b: Option<ControllerButton>| -> (x: bool)
            ensures
                x == (b matches Some(ControllerButton::Cc { cc: c, .. }) && c == cc),
        {
            match b {
                Some(ControllerButton::Cc { cc: c, .. }) => c == cc,
                _ => false,
            }
        };
        self.controls.contains_key(&cc) || self.cc_buttons.contains_key(&cc)
            || self.encoder_relative_cc == Some(cc) || self.encoder_press_cc == Some(cc)
            || self.lock_cc == Some(cc) || button_cc(self.page_cycle_modifier) || button_cc(
            self.page_cycle_trigger,
        )
    }

    /// Whether note `note` is already taken by this mapping.
    pub fn uses_note(&self, note: u8) -> (r: bool)
        ensures
            r == spec_used_notes(self@).contains(note),
    {
        let button_note = |b: Option<ControllerButton>| -> (x: bool)
            ensures
                x == (b matches Some(ControllerButton::Note { note: n, .. }) && n == note),
        {
            match b {
                Some(ControllerButton::Note { note: n, .. }) => n == note,
                _ => false,
            }
        };
        self.pads.contains_key(&note) || self.encoder_press_note == Some(note) || button_note(
            self.page_cycle_modifier,
        ) || button_note(self.page_cycle_trigger)
    }

    /// How the master encoder reads a CC message.
    pub fn encoder_action(&self, message: &[u8]) -> (r: (bool, Option<EncoderAction>))
        ensures
            r == spec_encoder_action(self@, message@),
    {
        if message.len() < 3 || message[0] & 0xf0 != 0xb0 {
            return (false, None);
        }
        let channel_ok = match self.encoder_press_channel {
            None => true,
            Some(ch) => ch == message[0] & 0x0f,
        };
        if self.encoder_press_cc == Some(message[1]) && channel_ok {
            return (true, if message[2] > 0 { Some(EncoderAction::Select) } else { None });
        }
        if self.encoder_relative_cc == Some(message[1]) {
            if message[2] == 0 || message[2] == 64 {
                return (true, None);
            }
            if (message[2] > 64) == self.encoder_relative_reverse {
                return (true, Some(EncoderAction::Up));
            }
            return (true, Some(EncoderAction::Down));
        }
        (false, None)
    }

    /// How the master encoder reads a note message.
    pub fn encoder_note_action(&self, message: &[u8]) -> (r: (bool, Option<EncoderAction>))
        ensures
            r == spec_encoder_note_action(self@, message@),
    {
        if message.len() < 3 || self.encoder_press_note != Some(message[1]) {
            return (false, None);
        }
        let channel_ok = match self.encoder_press_channel {
            None => true,
            Some(ch) => ch == message[0] & 0x0f,
        };
        if !channel_ok {
            return (false, None);
        }
        let status = message[0] & 0xf0;
        if status == 0x90 && message[2] > 0 {
            (true, Some(EncoderAction::Select))
        } else if status == 0x80 || status == 0x90 {
            (true, None)
        } else {
            (false, None)
        }
    }

    /// A copy of this mapping, field by field.
    pub fn copied(&self) -> (r: Self)
        ensures
            r@ == self@,
    {
        let input_match = match &self.input_match {
            Some(s) => Some(s.clone()),
            None => None,
        };
        let profile = match &self.profile {
            Some(s) => Some(s.clone()),
            None => None,
        };
        PadConfig {
            input_match,
            profile,
            layout: self.layout,
            controls: self.controls.clone(),
            encoder_relative_cc: self.encoder_relative_cc,
            encoder_relative_reverse: self.encoder_relative_reverse,
            encoder_press_cc: self.encoder_press_cc,
            encoder_press_note: self.encoder_press_note,
            encoder_press_channel: self.encoder_press_channel,
            lock_cc: self.lock_cc,
            pads: self.pads.clone(),
            pad_channels: self.pad_channels.clone(),
            cc_buttons: self.cc_buttons.clone(),
            cc_button_channels: self.cc_button_channels.clone(),
            page_cycle_modifier: self.page_cycle_modifier,
            page_cycle_trigger: self.page_cycle_trigger,
        }
    }

    /// Checks that every number is a 7-bit MIDI value and every channel one
    /// of the sixteen.
    pub fn validate(&self) -> (r: Result<(), String>)
        ensures
            r is Ok <==> spec_mapping_valid(self@),
            r matches Err(e) ==> e@ == "controller mapping holds a number outside the MIDI range"@,
    {
        if !map_keys_at_most(&self.controls, 127) || !map_values_at_most(&self.controls, 127)
            || !map_keys_at_most(&self.pads, 127) || !map_keys_at_most(&self.cc_buttons, 127)
            || !map_values_at_most(&self.pad_channels, 15) || !map_values_at_most(
            &self.cc_button_channels,
            15,
        ) || !at_most(self.encoder_relative_cc, 127) || !at_most(self.encoder_press_cc, 127)
            || !at_most(self.encoder_press_note, 127) || !at_most(self.encoder_press_channel, 15)
            || !at_most(self.lock_cc, 127) {
            return Err(crate::text::owned("controller mapping holds a number outside the MIDI range"));
        }
        Ok(())
    }
}

/// "{what} {value} is outside the MIDI range 0..=127".
pub open spec fn midi_number_error(what: Seq<char>, value: u8) -> Seq<char> {
    what + " "@ + crate::text::decimal(value as nat) + " is outside the MIDI range 0..=127"@
}

/// Checks that `value` is a 7-bit MIDI number.
pub fn ensure_midi_number(value: u8, what: &str) -> (r: Result<(), String>)
    ensures
        r is Ok <==> value <= 127,
        r matches Err(e) ==> e@ == midi_number_error(what@, value),
{
    if value <= 127 {
        return Ok(());
    }
    let mut out = crate::text::owned(what);
    crate::text::push_str(&mut out, " ");
    crate::text::push_decimal(&mut out, value as u64);
    crate::text::push_str(&mut out, " is outside the MIDI range 0..=127");
    Err(out)
}

/// The actions in configuration order.
pub open spec fn action_list() -> Seq<PadAction> {
    seq![
        PadAction::Page1,
        PadAction::Page2,
        PadAction::Page3,
        PadAction::Page4,
        PadAction::CyclePage,
        PadAction::Item1,
        PadAction::Item2,
        PadAction::Item3,
        PadAction::Item4,
    ]
}

/// The first action from position `i` of `action_list` named `s`.
pub open spec fn named_from(s: Seq<char>, i: int) -> Option<PadAction>
    decreases 9 - i,
{
    if i < 0 || i >= 9 {
        None
    } else if action_list()[i].spec_name() == s {
        Some(action_list()[i])
    } else {
        named_from(s, i + 1)
    }
}

/// The action named `s` in configuration files (`page-1` … `item-4`).
pub open spec fn spec_action_named(s: Seq<char>) -> Option<PadAction> {
    named_from(s, 0)
}

/// An action is found by its own name.
pub proof fn lemma_action_named_inverse(a: PadAction)
    ensures
        spec_action_named(a.spec_name()) == Some(a),
{
    reveal_strlit("page-1");
    reveal_strlit("page-2");
    reveal_strlit("page-3");
    reveal_strlit("page-4");
    reveal_strlit("cycle-page");
    reveal_strlit("item-1");
    reveal_strlit("item-2");
    reveal_strlit("item-3");
    reveal_strlit("item-4");
    reveal_with_fuel(named_from, 10);
    let names = seq!["page-1"@, "page-2"@, "page-3"@, "page-4"@, "cycle-page"@, "item-1"@, "item-2"@, "item-3"@, "item-4"@];
    assert forall|x: int, y: int| 0 <= x < y < 9 implies names[x] != names[y] by {
        if names[x].len() == names[y].len() {
            if x < 4 && y < 4 {
                assert(names[x][5] != names[y][5]);
            } else if x < 4 && y >= 5 {
                assert(names[x][0] != names[y][0]);
            } else {
                assert(names[x][5] != names[y][5]);
            }
        }
    }
    assert(names[0] != names[1] && names[0] != names[2] && names[0] != names[3] && names[0] != names[4]);
    assert(names[0] != names[5] && names[0] != names[6] && names[0] != names[7] && names[0] != names[8]);
    assert(names[1] != names[2] && names[1] != names[3] && names[1] != names[4] && names[1] != names[5]);
    assert(names[1] != names[6] && names[1] != names[7] && names[1] != names[8]);
    assert(names[2] != names[3] && names[2] != names[4] && names[2] != names[5] && names[2] != names[6]);
    assert(names[2] != names[7] && names[2] != names[8]);
    assert(names[3] != names[4] && names[3] != names[5] && names[3] != names[6] && names[3] != names[7]);
    assert(names[3] != names[8]);
    assert(names[4] != names[5] && names[4] != names[6] && names[4] != names[7] && names[4] != names[8]);
    assert(names[5] != names[6] && names[5] != names[7] && names[5] != names[8]);
    assert(names[6] != names[7] && names[6] != names[8] && names[7] != names[8]);
}

} // verus!
