//! Data-driven input-controller profiles: validation, matching a port name,
//! and applying a profile to a controller mapping.
use vstd::prelude::*;
use std::collections::HashMap;
use crate::pads::{ControllerLayout, PadAction, PadConfig};
use crate::text::{opt_view, ascii_lower, chars_of, contains_chars, contains_seq, decimal, lower_char, owned, push_decimal, push_str};

verus! {

broadcast use vstd::std_specs::hash::group_hash_axioms;

/// A controller profile: the port names it matches and the mapping it
/// installs. Channel qualifiers are one-based.
#[derive(Clone, Debug)]
pub struct ControllerProfile {
    pub id: String,
    pub name: String,
    pub match_names: Vec<String>,
    pub layout: u8,
    pub controls: HashMap<u8, u8>,
    pub encoder_relative_cc: Option<u8>,
    pub encoder_relative_reverse: bool,
    pub encoder_press_cc: Option<u8>,
    pub encoder_press_note: Option<u8>,
    pub lock_cc: Option<u8>,
    pub note_buttons: HashMap<u8, String>,
    pub note_button_channels: HashMap<u8, u8>,
    pub cc_buttons: HashMap<u8, String>,
    pub cc_button_channels: HashMap<u8, u8>,
    pub source: String,
}

// ---------------------------------------------------------------------------
// Names
// ---------------------------------------------------------------------------

pub open spec fn is_ascii_alnum(c: char) -> bool {
    ('0' <= c <= '9') || ('a' <= c <= 'z') || ('A' <= c <= 'Z')
}

/// The ASCII letters and digits of `s`, lowercased: how port and profile
/// names are compared.
pub open spec fn normalize(s: Seq<char>) -> Seq<char>
    decreases s.len(),
{
    if s.len() == 0 {
        Seq::empty()
    } else if is_ascii_alnum(s.last()) {
        normalize(s.drop_last()).push(ascii_lower(s.last()))
    } else {
        normalize(s.drop_last())
    }
}

pub fn normalize_chars(s: &str) -> (r: Vec<char>)
    ensures
        r@ == normalize(s@),
{
    let v = chars_of(s);
    let mut out: Vec<char> = Vec::new();
    let mut i: usize = 0;
    while i < v.len()
        invariant
            i <= v.len(),
            v@ == s@,
            out@ == normalize(v@.take(i as int)),
        decreases v.len() - i,
    {
        assert(v@.take(i + 1).drop_last() =~= v@.take(i as int));
        let c = v[i];
        if ('0' <= c && c <= '9') || ('a' <= c && c <= 'z') || ('A' <= c && c <= 'Z') {
            out.push(lower_char(c));
        }
        i += 1;
    }
    assert(v@.take(v.len() as int) =~= v@);
    out
}

pub open spec fn names_of(v: Seq<String>) -> Seq<Seq<char>> {
    Seq::new(v.len(), |i: int| v[i]@)
}

/// Whether some match name, normalized, is non-empty and occurs in the
/// normalized port name.
pub open spec fn spec_matches(names: Seq<Seq<char>>, port: Seq<char>) -> bool {
    exists|i: int| 0 <= i < names.len() && normalize(#[trigger] names[i]).len() > 0 && contains_seq(normalize(port), normalize(names[i]))
}

/// The longest normalized match name (among the first `k`) that occurs in
/// the normalized port name, 0 when none does.
pub open spec fn specificity(names: Seq<Seq<char>>, port: Seq<char>, k: int) -> nat
    decreases k,
{
    if k <= 0 {
        0
    } else {
        let rest = specificity(names, port, k - 1);
        let n = normalize(names[k - 1]);
        if contains_seq(normalize(port), n) && n.len() > rest {
            n.len()
        } else {
            rest
        }
    }
}

impl ControllerProfile {
    /// Whether this profile's names match a port name.
    pub fn matches(&self, port_name: &str) -> (r: bool)
        ensures
            r == spec_matches(names_of(self.match_names@), port_name@),
    {
        let port = normalize_chars(port_name);
        let ghost names = names_of(self.match_names@);
        let mut i: usize = 0;
        while i < self.match_names.len()
            invariant
                i <= self.match_names.len(),
                port@ == normalize(port_name@),
                names == names_of(self.match_names@),
                forall|j: int| 0 <= j < i ==> !(normalize(#[trigger] names[j]).len() > 0 && contains_seq(normalize(port_name@), normalize(names[j]))),
            decreases self.match_names.len() - i,
        {
            let name = normalize_chars(self.match_names[i].as_str());
            assert(names[i as int] == self.match_names@[i as int]@);
            if name.len() > 0 && contains_chars(&port, &name) {
                return true;
            }
            i += 1;
        }
        false
    }

    /// How specifically this profile matches a port name.
    fn specificity_for(&self, port: &Vec<char>, port_name: &str) -> (r: usize)
        requires
            port@ == normalize(port_name@),
        ensures
            r == specificity(names_of(self.match_names@), port_name@, self.match_names@.len() as int),
    {
        let ghost names = names_of(self.match_names@);
        let mut best: usize = 0;
        let mut i: usize = 0;
        while i < self.match_names.len()
            invariant
                i <= self.match_names.len(),
                port@ == normalize(port_name@),
                names == names_of(self.match_names@),
                best == specificity(names, port_name@, i as int),
            decreases self.match_names.len() - i,
        {
            let name = normalize_chars(self.match_names[i].as_str());
            assert(names[i as int] == self.match_names@[i as int]@);
            if contains_chars(port, &name) && name.len() > best {
                best = name.len();
            }
            i += 1;
        }
        best
    }
}

/// The profiles offered for matching.
#[derive(Default)]
pub struct Catalog {
    profiles: Vec<ControllerProfile>,
}

pub open spec fn profile_matches(p: ControllerProfile, port: Seq<char>) -> bool {
    spec_matches(names_of(p.match_names@), port)
}

pub open spec fn profile_specificity(p: ControllerProfile, port: Seq<char>) -> nat {
    specificity(names_of(p.match_names@), port, p.match_names@.len() as int)
}

impl Catalog {
    pub closed spec fn entries(self) -> Seq<ControllerProfile> {
        self.profiles@
    }

    /// The profiles, in catalog order.
    pub fn profiles(&self) -> (r: &[ControllerProfile])
        ensures
            r@ == self.entries(),
    {
        self.profiles.as_slice()
    }

    /// The one matching profile that matches most specifically (by the
    /// longest contained match name); `None` when no profile matches or
    /// several tie for the most specific match.
    pub fn matching(&self, port_name: &str) -> (r: Option<&ControllerProfile>)
        ensures
            r matches Some(q) ==> exists|i: int|
                0 <= i < self.entries().len() && *q == #[trigger] self.entries()[i] && profile_matches(
                    self.entries()[i],
                    port_name@,
                ) && forall|j: int|
                    0 <= j < self.entries().len() && j != i && profile_matches(#[trigger] self.entries()[j], port_name@)
                        ==> profile_specificity(self.entries()[j], port_name@) < profile_specificity(
                        self.entries()[i],
                        port_name@,
                    ),
            r is None ==> forall|i: int|
                0 <= i < self.entries().len() && profile_matches(#[trigger] self.entries()[i], port_name@) ==> exists|j: int|
                    0 <= j < self.entries().len() && j != i && profile_matches(#[trigger] self.entries()[j], port_name@)
                        && profile_specificity(self.entries()[j], port_name@) >= profile_specificity(
                        self.entries()[i],
                        port_name@,
                    ),
    {
        let port = normalize_chars(port_name);
        let ghost ps = self.profiles@;
        // the best specificity and the first and second profile reaching it
        let mut best: usize = 0;
        let mut first: Option<usize> = None;
        let mut tied = false;
        let mut i: usize = 0;
        while i < self.profiles.len()
            invariant
                i <= self.profiles.len(),
                ps == self.profiles@,
                port@ == normalize(port_name@),
                match first {
                    None => !tied && forall|j: int| 0 <= j < i ==> !profile_matches(#[trigger] ps[j], port_name@),
                    Some(f) => {
                        &&& f < i
                        &&& profile_matches(ps[f as int], port_name@)
                        &&& best == profile_specificity(ps[f as int], port_name@)
                        &&& forall|j: int| 0 <= j < i && profile_matches(#[trigger] ps[j], port_name@) ==> profile_specificity(ps[j], port_name@) <= best
                        &&& forall|j: int| 0 <= j < f && profile_matches(#[trigger] ps[j], port_name@) ==> profile_specificity(ps[j], port_name@) < best
                        &&& tied <==> exists|j: int| f < j < i && profile_matches(#[trigger] ps[j], port_name@) && profile_specificity(ps[j], port_name@) == best
                    },
                },
            decreases self.profiles.len() - i,
        {
            let profile = &self.profiles[i];
            if profile.matches(port_name) {
                let s = profile.specificity_for(&port, port_name);
                match first {
                    None => {
                        first = Some(i);
                        best = s;
                        tied = false;
                    },
                    Some(f) => {
                        if s > best {
                            first = Some(i);
                            best = s;
                            tied = false;
                        } else if s == best {
                            tied = true;
                        }
                    },
                }
            }
            i += 1;
        }
        match first {
            None => None,
            Some(f) => {
                if tied {
                    proof {
                        let w = choose|j: int| f < j < ps.len() && profile_matches(#[trigger] ps[j], port_name@) && profile_specificity(ps[j], port_name@) == best;
                        assert forall|a: int| 0 <= a < ps.len() && profile_matches(#[trigger] ps[a], port_name@) implies exists|j: int|
                            0 <= j < ps.len() && j != a && profile_matches(#[trigger] ps[j], port_name@)
                                && profile_specificity(ps[j], port_name@) >= profile_specificity(ps[a], port_name@) by {
                            if a == w {
                                assert(profile_matches(ps[f as int], port_name@));
                            } else {
                                assert(profile_matches(ps[w], port_name@));
                            }
                        }
                    }
                    None
                } else {
                    proof {
                        assert(self.entries() == ps);
                        assert forall|j: int|
                            0 <= j < ps.len() && j != f && profile_matches(#[trigger] ps[j], port_name@) implies profile_specificity(ps[j], port_name@)
                                < profile_specificity(ps[f as int], port_name@) by {
                            if j > f {
                                assert(!(profile_matches(ps[j], port_name@) && profile_specificity(ps[j], port_name@) == best));
                            }
                        }
                    }
                    Some(&self.profiles[f])
                }
            },
        }
    }
}

} // verus!

verus! {

// ---------------------------------------------------------------------------
// Validation
// ---------------------------------------------------------------------------

pub open spec fn id_message(p: ControllerProfile, tail: Seq<char>) -> Seq<char> {
    "controller profile "@ + p.id@ + tail
}

/// Whether `t` is the CC of one of the absolute parameters.
pub open spec fn known_target(t: u8) -> bool {
    exists|i: int| 0 <= i < crate::control::CONTROL_COUNT && crate::control::spec_control_cc(i) == t
}

pub open spec fn valid_action_name(s: Seq<char>) -> bool {
    crate::pads::spec_action_named(s) is Some
}

/// The first control entry, from key `k` on, with an out-of-range
/// incoming CC or an unknown target.
pub open spec fn control_error_from(p: ControllerProfile, k: int) -> Option<Seq<char>>
    decreases 256 - k,
{
    if k < 0 || k >= 256 {
        None
    } else if p.controls@.contains_key(k as u8) && k > 127 {
        Some(crate::pads::midi_number_error("controller profile CC"@, k as u8))
    } else if p.controls@.contains_key(k as u8) && !known_target(p.controls@[k as u8]) {
        Some(id_message(p, " has unknown target CC "@ + decimal(p.controls@[k as u8] as nat)))
    } else {
        control_error_from(p, k + 1)
    }
}

/// The first button, from key `k` on, whose action name is not an action.
pub open spec fn action_error_from(p: ControllerProfile, m: Map<u8, String>, k: int) -> Option<Seq<char>>
    decreases 256 - k,
{
    if k < 0 || k >= 256 {
        None
    } else if m.contains_key(k as u8) && !valid_action_name(m[k as u8]@) {
        Some(id_message(p, " has invalid action "@ + m[k as u8]@))
    } else {
        action_error_from(p, m, k + 1)
    }
}

/// The first key, from `k` on, that is not a 7-bit MIDI number.
pub open spec fn key_error_from(m: Map<u8, String>, what: Seq<char>, k: int) -> Option<Seq<char>>
    decreases 256 - k,
{
    if k < 0 || k >= 256 {
        None
    } else if m.contains_key(k as u8) && k > 127 {
        Some(crate::pads::midi_number_error(what, k as u8))
    } else {
        key_error_from(m, what, k + 1)
    }
}

/// Whether a channel qualifier names no button or a channel outside 1..=16.
pub open spec fn channels_bad(channels: Map<u8, u8>, buttons: Map<u8, String>) -> bool {
    exists|k: u8| #[trigger] channels.contains_key(k) && (!buttons.contains_key(k) || channels[k] < 1 || channels[k] > 16)
}

pub open spec fn number_error(o: Option<u8>, what: Seq<char>) -> Option<Seq<char>> {
    match o {
        Some(n) => if n > 127 {
            Some(crate::pads::midi_number_error(what, n))
        } else {
            None
        },
        None => None,
    }
}

pub open spec fn reuses(p: ControllerProfile, cc: u8) -> Seq<char> {
    id_message(p, " reuses CC "@ + decimal(cc as nat))
}

/// The first CC button, from key `k` on, that is also an absolute control.
pub open spec fn button_reuse_from(p: ControllerProfile, k: int) -> Option<Seq<char>>
    decreases 256 - k,
{
    if k < 0 || k >= 256 {
        None
    } else if p.cc_buttons@.contains_key(k as u8) && p.controls@.contains_key(k as u8) {
        Some(reuses(p, k as u8))
    } else {
        button_reuse_from(p, k + 1)
    }
}

pub open spec fn in_opt(o: Option<u8>, cc: u8) -> bool {
    o == Some(cc)
}

/// A CC used twice among controls, CC buttons, the encoder, its press and
/// the lock, in that order.
pub open spec fn reuse_error(p: ControllerProfile) -> Option<Seq<char>> {
    let taken = |cc: u8| p.controls@.contains_key(cc) || p.cc_buttons@.contains_key(cc);
    match button_reuse_from(p, 0) {
        Some(e) => Some(e),
        None => match p.encoder_relative_cc {
            Some(c) if taken(c) => Some(reuses(p, c)),
            _ => match p.encoder_press_cc {
                Some(c) if taken(c) || in_opt(p.encoder_relative_cc, c) => Some(reuses(p, c)),
                _ => match p.lock_cc {
                    Some(c) if taken(c) || in_opt(p.encoder_relative_cc, c) || in_opt(p.encoder_press_cc, c) => Some(
                        reuses(p, c),
                    ),
                    _ => None,
                },
            },
        },
    }
}

/// Why a profile is invalid, `None` when it is valid.
pub open spec fn spec_profile_error(p: ControllerProfile) -> Option<Seq<char>> {
    if crate::text::trim(p.id@).len() == 0 || crate::text::trim(p.name@).len() == 0 {
        Some("controller profile needs a non-empty id and name"@)
    } else if forall|i: int| 0 <= i < p.match_names@.len() ==> normalize(#[trigger] p.match_names@[i]@).len() == 0 {
        Some(id_message(p, " needs a match name"@))
    } else if p.layout != 4 && p.layout != 5 && p.layout != 8 {
        Some(id_message(p, " layout must be 4, 5, or 8"@))
    } else if control_error_from(p, 0) is Some {
        control_error_from(p, 0)
    } else if action_error_from(p, p.note_buttons@, 0) is Some {
        action_error_from(p, p.note_buttons@, 0)
    } else if action_error_from(p, p.cc_buttons@, 0) is Some {
        action_error_from(p, p.cc_buttons@, 0)
    } else if key_error_from(p.note_buttons@, "controller profile button note"@, 0) is Some {
        key_error_from(p.note_buttons@, "controller profile button note"@, 0)
    } else if key_error_from(p.cc_buttons@, "controller profile button CC"@, 0) is Some {
        key_error_from(p.cc_buttons@, "controller profile button CC"@, 0)
    } else if channels_bad(p.note_button_channels@, p.note_buttons@) {
        Some(id_message(p, " has an invalid note-button channel qualifier"@))
    } else if channels_bad(p.cc_button_channels@, p.cc_buttons@) {
        Some(id_message(p, " has an invalid CC-button channel qualifier"@))
    } else if number_error(p.encoder_relative_cc, "controller profile encoder CC"@) is Some {
        number_error(p.encoder_relative_cc, "controller profile encoder CC"@)
    } else if number_error(p.encoder_press_cc, "controller profile encoder press CC"@) is Some {
        number_error(p.encoder_press_cc, "controller profile encoder press CC"@)
    } else if number_error(p.encoder_press_note, "controller profile encoder press note"@) is Some {
        number_error(p.encoder_press_note, "controller profile encoder press note"@)
    } else if number_error(p.lock_cc, "controller profile lock CC"@) is Some {
        number_error(p.lock_cc, "controller profile lock CC"@)
    } else if reuse_error(p) is Some {
        reuse_error(p)
    } else if p.encoder_press_cc is Some && p.encoder_press_note is Some {
        Some(id_message(p, " encoder press must use either a CC or a note"@))
    } else if p.encoder_press_note matches Some(n) && p.note_buttons@.contains_key(n) {
        Some(id_message(p, " reuses encoder press note as a button"@))
    } else {
        None
    }
}

fn id_message_exec(p: &ControllerProfile, tail: &str) -> (r: String)
    ensures
        r@ == id_message(*p, tail@),
{
    let mut out = owned("controller profile ");
    push_str(&mut out, p.id.as_str());
    push_str(&mut out, tail);
    out
}

} // verus!

verus! {

fn known_target_exec(t: u8) -> (r: bool)
    ensures
        r == known_target(t),
{
    crate::control::by_cc(t).is_some()
}

fn valid_action_exec(s: &str) -> (r: bool)
    ensures
        r == valid_action_name(s@),
{
    match PadAction::from_name(s) {
        Some(a) => true,
        None => false,
    }
}

impl ControllerProfile {
    fn control_error(&self) -> (r: Option<String>)
        ensures
            opt_view(r) == control_error_from(*self, 0),
    {
        let mut k: u16 = 0;
        while k < 256
            invariant
                k <= 256,
                control_error_from(*self, 0) == control_error_from(*self, k as int),
            decreases 256 - k,
        {
            match self.controls.get(&(k as u8)) {
                Some(target) => {
                    if k > 127 {
                        match crate::pads::ensure_midi_number(k as u8, "controller profile CC") {
                            Err(e) => {
                                return Some(e);
                            },
                            Ok(()) => {},
                        }
                    }
                    if !known_target_exec(*target) {
                        let mut tail = owned(" has unknown target CC ");
                        push_decimal(&mut tail, *target as u64);
                        return Some(id_message_exec(self, tail.as_str()));
                    }
                },
                None => {},
            }
            k += 1;
        }
        None
    }

    fn action_error(&self, m: &HashMap<u8, String>) -> (r: Option<String>)
        ensures
            opt_view(r) == action_error_from(*self, m@, 0),
    {
        let mut k: u16 = 0;
        while k < 256
            invariant
                k <= 256,
                action_error_from(*self, m@, 0) == action_error_from(*self, m@, k as int),
            decreases 256 - k,
        {
            match m.get(&(k as u8)) {
                Some(action) => {
                    if !valid_action_exec(action.as_str()) {
                        let mut tail = owned(" has invalid action ");
                        push_str(&mut tail, action.as_str());
                        return Some(id_message_exec(self, tail.as_str()));
                    }
                },
                None => {},
            }
            k += 1;
        }
        None
    }

    fn button_reuse(&self) -> (r: Option<String>)
        ensures
            opt_view(r) == button_reuse_from(*self, 0),
    {
        let mut k: u16 = 0;
        while k < 256
            invariant
                k <= 256,
                button_reuse_from(*self, 0) == button_reuse_from(*self, k as int),
            decreases 256 - k,
        {
            if self.cc_buttons.contains_key(&(k as u8)) && self.controls.contains_key(&(k as u8)) {
                return Some(reuses_exec(self, k as u8));
            }
            k += 1;
        }
        None
    }
}

fn key_error(m: &HashMap<u8, String>, what: &str) -> (r: Option<String>)
    ensures
        opt_view(r) == key_error_from(m@, what@, 0),
{
    let mut k: u16 = 0;
    while k < 256
        invariant
            k <= 256,
            key_error_from(m@, what@, 0) == key_error_from(m@, what@, k as int),
        decreases 256 - k,
    {
        if k > 127 && m.contains_key(&(k as u8)) {
            match crate::pads::ensure_midi_number(k as u8, what) {
                Err(e) => {
                    return Some(e);
                },
                Ok(()) => {},
            }
        }
        k += 1;
    }
    None
}

fn channels_bad_exec(channels: &HashMap<u8, u8>, buttons: &HashMap<u8, String>) -> (r: bool)
    ensures
        r == channels_bad(channels@, buttons@),
{
    let mut k: u16 = 0;
    while k < 256
        invariant
            k <= 256,
            forall|j: u8| j < k ==> !(#[trigger] channels@.contains_key(j) && (!buttons@.contains_key(j) || channels@[j] < 1 || channels@[j] > 16)),
        decreases 256 - k,
    {
        match channels.get(&(k as u8)) {
            Some(channel) => {
                if !buttons.contains_key(&(k as u8)) || *channel < 1 || *channel > 16 {
                    return true;
                }
            },
            None => {},
        }
        k += 1;
    }
    false
}

fn number_error_exec(o: Option<u8>, what: &str) -> (r: Option<String>)
    ensures
        opt_view(r) == number_error(o, what@),
{
    match o {
        Some(n) => match crate::pads::ensure_midi_number(n, what) {
            Err(e) => Some(e),
            Ok(()) => None,
        },
        None => None,
    }
}

fn reuses_exec(p: &ControllerProfile, cc: u8) -> (r: String)
    ensures
        r@ == reuses(*p, cc),
{
    let mut tail = owned(" reuses CC ");
    push_decimal(&mut tail, cc as u64);
    id_message_exec(p, tail.as_str())
}

fn is_some_value(o: Option<u8>, cc: u8) -> (r: bool)
    ensures
        r == in_opt(o, cc),
{
    match o {
        Some(c) => c == cc,
        None => false,
    }
}

impl ControllerProfile {
    fn reuse_error_exec(&self) -> (r: Option<String>)
        ensures
            opt_view(r) == reuse_error(*self),
    {
        match self.button_reuse() {
            Some(e) => {
                return Some(e);
            },
            None => {},
        }
        if let Some(c) = self.encoder_relative_cc {
            if self.controls.contains_key(&c) || self.cc_buttons.contains_key(&c) {
                return Some(reuses_exec(self, c));
            }
        }
        if let Some(c) = self.encoder_press_cc {
            if self.controls.contains_key(&c) || self.cc_buttons.contains_key(&c) || is_some_value(self.encoder_relative_cc, c) {
                return Some(reuses_exec(self, c));
            }
        }
        if let Some(c) = self.lock_cc {
            if self.controls.contains_key(&c) || self.cc_buttons.contains_key(&c) || is_some_value(self.encoder_relative_cc, c)
                || is_some_value(self.encoder_press_cc, c) {
                return Some(reuses_exec(self, c));
            }
        }
        None
    }

    /// Checks a profile (see `spec_profile_error`).
    pub fn validate(&self) -> (r: Result<(), String>)
        ensures
            match r {
                Ok(()) => spec_profile_error(*self) is None,
                Err(e) => spec_profile_error(*self) == Some(e@),
            },
    {
        let id = crate::text::trim_chars(&chars_of(self.id.as_str()));
        let name = crate::text::trim_chars(&chars_of(self.name.as_str()));
        if id.len() == 0 || name.len() == 0 {
            return Err(owned("controller profile needs a non-empty id and name"));
        }
        let mut any_name = false;
        let mut i: usize = 0;
        while i < self.match_names.len()
            invariant
                i <= self.match_names.len(),
                !any_name ==> forall|j: int| 0 <= j < i ==> normalize(#[trigger] self.match_names@[j]@).len() == 0,
                any_name ==> exists|j: int| 0 <= j < i && normalize(#[trigger] self.match_names@[j]@).len() != 0,
            decreases self.match_names.len() - i,
        {
            let n = normalize_chars(self.match_names[i].as_str());
            if n.len() != 0 {
                any_name = true;
            }
            i += 1;
        }
        if !any_name {
            return Err(id_message_exec(self, " needs a match name"));
        }
        if self.layout != 4 && self.layout != 5 && self.layout != 8 {
            return Err(id_message_exec(self, " layout must be 4, 5, or 8"));
        }
        if let Some(e) = self.control_error() {
            return Err(e);
        }
        if let Some(e) = self.action_error(&self.note_buttons) {
            return Err(e);
        }
        if let Some(e) = self.action_error(&self.cc_buttons) {
            return Err(e);
        }
        if let Some(e) = key_error(&self.note_buttons, "controller profile button note") {
            return Err(e);
        }
        if let Some(e) = key_error(&self.cc_buttons, "controller profile button CC") {
            return Err(e);
        }
        if channels_bad_exec(&self.note_button_channels, &self.note_buttons) {
            return Err(id_message_exec(self, " has an invalid note-button channel qualifier"));
        }
        if channels_bad_exec(&self.cc_button_channels, &self.cc_buttons) {
            return Err(id_message_exec(self, " has an invalid CC-button channel qualifier"));
        }
        if let Some(e) = number_error_exec(self.encoder_relative_cc, "controller profile encoder CC") {
            return Err(e);
        }
        if let Some(e) = number_error_exec(self.encoder_press_cc, "controller profile encoder press CC") {
            return Err(e);
        }
        if let Some(e) = number_error_exec(self.encoder_press_note, "controller profile encoder press note") {
            return Err(e);
        }
        if let Some(e) = number_error_exec(self.lock_cc, "controller profile lock CC") {
            return Err(e);
        }
        if let Some(e) = self.reuse_error_exec() {
            return Err(e);
        }
        if self.encoder_press_cc.is_some() && self.encoder_press_note.is_some() {
            return Err(id_message_exec(self, " encoder press must use either a CC or a note"));
        }
        if let Some(n) = self.encoder_press_note {
            if self.note_buttons.contains_key(&n) {
                return Err(id_message_exec(self, " reuses encoder press note as a button"));
            }
        }
        Ok(())
    }
}

} // verus!

verus! {

// ---------------------------------------------------------------------------
// Applying
// ---------------------------------------------------------------------------

pub open spec fn layout_of(layout: u8) -> ControllerLayout {
    if layout == 8 {
        ControllerLayout::Eight
    } else if layout == 5 {
        ControllerLayout::Five
    } else {
        ControllerLayout::Four
    }
}

/// Button actions by key, as the actions their names stand for.
pub open spec fn actions_of(m: Map<u8, String>) -> Map<u8, PadAction> {
    Map::new(|k: u8| m.contains_key(k), |k: u8| crate::pads::spec_action_named(m[k]@).unwrap())
}

/// One-based channel qualifiers as zero-based channels.
pub open spec fn zero_based(m: Map<u8, u8>) -> Map<u8, u8> {
    Map::new(|k: u8| m.contains_key(k), |k: u8| (m[k] - 1) as u8)
}

/// The mapping after applying a valid profile for `input`.
pub open spec fn applied(c: crate::pads::PadModel, p: ControllerProfile, input: Seq<char>) -> crate::pads::PadModel {
    crate::pads::PadModel {
        input_match: Some(input),
        layout: layout_of(p.layout),
        controls: p.controls@,
        encoder_relative_cc: p.encoder_relative_cc,
        encoder_relative_reverse: p.encoder_relative_reverse,
        encoder_press_cc: p.encoder_press_cc,
        encoder_press_note: p.encoder_press_note,
        lock_cc: p.lock_cc,
        pads: actions_of(p.note_buttons@),
        pad_channels: zero_based(p.note_button_channels@),
        cc_buttons: actions_of(p.cc_buttons@),
        cc_button_channels: zero_based(p.cc_button_channels@),
        ..c
    }
}

proof fn lemma_action_error_none(p: ControllerProfile, m: Map<u8, String>, j: int)
    requires
        0 <= j <= 256,
        action_error_from(p, m, j) is None,
    ensures
        forall|k: u8| j <= k && #[trigger] m.contains_key(k) ==> valid_action_name(m[k]@),
    decreases 256 - j,
{
    if j < 256 {
        lemma_action_error_none(p, m, j + 1);
        assert forall|k: u8| j <= k && #[trigger] m.contains_key(k) implies valid_action_name(m[k]@) by {
            if k as int == j {
                assert(m.contains_key(j as u8));
            }
        }
    }
}

/// The actions of a map of valid action names.
fn actions_exec(m: &HashMap<u8, String>) -> (r: HashMap<u8, PadAction>)
    requires
        forall|k: u8| #[trigger] m@.contains_key(k) ==> valid_action_name(m@[k]@),
    ensures
        r@ == actions_of(m@),
{
    let mut out: HashMap<u8, PadAction> = HashMap::new();
    let mut k: u16 = 0;
    while k < 256
        invariant
            k <= 256,
            forall|j: u8| #[trigger] m@.contains_key(j) ==> valid_action_name(m@[j]@),
            out@ == Map::new(|j: u8| j < k && m@.contains_key(j), |j: u8| crate::pads::spec_action_named(m@[j]@).unwrap()),
        decreases 256 - k,
    {
        match m.get(&(k as u8)) {
            Some(name) => {
                match PadAction::from_name(name.as_str()) {
                    Some(a) => {
                        out.insert(k as u8, a);
                    },
                    None => {},
                }
            },
            None => {},
        }
        let ghost kk = k;
        assert(out@ =~= Map::new(|j: u8| j < kk + 1 && m@.contains_key(j), |j: u8| crate::pads::spec_action_named(m@[j]@).unwrap()));
        k += 1;
    }
    assert(out@ =~= actions_of(m@));
    out
}

/// Channel qualifiers made zero-based.
fn zero_based_exec(m: &HashMap<u8, u8>) -> (r: HashMap<u8, u8>)
    requires
        forall|k: u8| #[trigger] m@.contains_key(k) ==> m@[k] >= 1,
    ensures
        r@ == zero_based(m@),
{
    let mut out: HashMap<u8, u8> = HashMap::new();
    let mut k: u16 = 0;
    while k < 256
        invariant
            k <= 256,
            forall|j: u8| #[trigger] m@.contains_key(j) ==> m@[j] >= 1,
            out@ == Map::new(|j: u8| j < k && m@.contains_key(j), |j: u8| (m@[j] - 1) as u8),
        decreases 256 - k,
    {
        match m.get(&(k as u8)) {
            Some(channel) => {
                out.insert(k as u8, *channel - 1);
            },
            None => {},
        }
        let ghost kk = k;
        assert(out@ =~= Map::new(|j: u8| j < kk + 1 && m@.contains_key(j), |j: u8| (m@[j] - 1) as u8));
        k += 1;
    }
    assert(out@ =~= zero_based(m@));
    out
}

impl ControllerProfile {
    /// Installs this profile's mapping into `config` for `input_name`, after
    /// validating the profile; then checks the resulting mapping.
    pub fn apply(&self, config: &mut PadConfig, input_name: &str) -> (r: Result<(), String>)
        ensures
            match spec_profile_error(*self) {
                Some(e) => r matches Err(x) && x@ == e && final(config)@ == old(config)@,
                None => {
                    &&& final(config)@ == applied(old(config)@, *self, input_name@)
                    &&& (r is Ok <==> crate::pads::spec_mapping_valid(final(config)@))
                    &&& (r matches Err(e) ==> e@ == "controller mapping holds a number outside the MIDI range"@)
                },
            },
    {
        match self.validate() {
            Err(e) => {
                return Err(e);
            },
            Ok(()) => {},
        }
        proof {
            lemma_action_error_none(*self, self.note_buttons@, 0);
            lemma_action_error_none(*self, self.cc_buttons@, 0);
        }
        config.input_match = Some(owned(input_name));
        config.layout = if self.layout == 8 {
            ControllerLayout::Eight
        } else if self.layout == 5 {
            ControllerLayout::Five
        } else {
            ControllerLayout::Four
        };
        config.controls = self.controls.clone();
        config.encoder_relative_cc = self.encoder_relative_cc;
        config.encoder_relative_reverse = self.encoder_relative_reverse;
        config.encoder_press_cc = self.encoder_press_cc;
        config.encoder_press_note = self.encoder_press_note;
        config.lock_cc = self.lock_cc;
        config.pads = actions_exec(&self.note_buttons);
        config.pad_channels = zero_based_exec(&self.note_button_channels);
        config.cc_buttons = actions_exec(&self.cc_buttons);
        config.cc_button_channels = zero_based_exec(&self.cc_button_channels);
        config.validate()
    }
}

} // verus!

verus! {

// ---------------------------------------------------------------------------
// Catalogs
// ---------------------------------------------------------------------------

pub open spec fn ids_of(ps: Seq<ControllerProfile>) -> Seq<Seq<char>> {
    Seq::new(ps.len(), |i: int| ps[i].id@)
}

/// The profiles kept from the first `k` found: valid ones whose id was not
/// kept before, in order.
pub open spec fn kept_profiles(found: Seq<ControllerProfile>, k: int) -> Seq<ControllerProfile>
    decreases k,
{
    if k <= 0 {
        Seq::empty()
    } else {
        let before = kept_profiles(found, k - 1);
        let p = found[k - 1];
        if spec_profile_error(p) is None && !ids_of(before).contains(p.id@) {
            before.push(p)
        } else {
            before
        }
    }
}

/// Whether some profile in `ps` has id `id`.
fn has_id(ps: &Vec<ControllerProfile>, id: &str) -> (r: bool)
    ensures
        r == ids_of(ps@).contains(id@),
{
    let wanted = chars_of(id);
    let mut i: usize = 0;
    while i < ps.len()
        invariant
            i <= ps.len(),
            wanted@ == id@,
            forall|j: int| 0 <= j < i ==> ps@[j].id@ != id@,
        decreases ps.len() - i,
    {
        let candidate = chars_of(ps[i].id.as_str());
        if crate::text::chars_eq(&candidate, &wanted) {
            assert(ids_of(ps@)[i as int] == id@);
            return true;
        }
        i += 1;
    }
    assert forall|j: int| 0 <= j < ids_of(ps@).len() implies ids_of(ps@)[j] != id@ by {}
    false
}

impl Catalog {
    /// A catalog of the valid profiles found, each id kept once (the first
    /// profile with it), in the order found.
    pub fn from_found(found: Vec<ControllerProfile>) -> (r: Catalog)
        ensures
            r.entries() == kept_profiles(found@, found@.len() as int),
    {
        let ghost all = found@;
        let count = found.len();
        let mut rest = found;
        let mut profiles: Vec<ControllerProfile> = Vec::new();
        let mut taken: usize = 0;
        assert(all.len() == count);
        while rest.len() > 0
            invariant
                all.len() <= usize::MAX,
                taken + rest@.len() == all.len(),
                rest@ == all.subrange(taken as int, all.len() as int),
                profiles@ == kept_profiles(all, taken as int),
            decreases rest@.len(),
        {
            let p = rest.remove(0);
            assert(p == all[taken as int]);
            let keep = match p.validate() {
                Ok(()) => !has_id(&profiles, p.id.as_str()),
                Err(_) => false,
            };
            if keep {
                profiles.push(p);
            }
            taken += 1;
            assert(rest@ =~= all.subrange(taken as int, all.len() as int));
        }
        Catalog { profiles }
    }
}

/// Whether a profile before position `i` has the id of the one at `i`.
fn id_seen_before(profiles: &[ControllerProfile], i: usize) -> (r: bool)
    requires
        i < profiles@.len(),
    ensures
        r == exists|a: int| 0 <= a < i && #[trigger] profiles@[a].id@ == profiles@[i as int].id@,
{
    let wanted = chars_of(profiles[i].id.as_str());
    let mut j: usize = 0;
    while j < i
        invariant
            j <= i < profiles@.len(),
            wanted@ == profiles@[i as int].id@,
            forall|a: int| 0 <= a < j ==> #[trigger] profiles@[a].id@ != profiles@[i as int].id@,
        decreases i - j,
    {
        let candidate = chars_of(profiles[j].id.as_str());
        if crate::text::chars_eq(&candidate, &wanted) {
            return true;
        }
        j += 1;
    }
    false
}

/// Checks every profile of a downloaded catalog in order and that no id
/// repeats; the number of profiles when all pass.
pub fn validate_catalog(profiles: &[ControllerProfile]) -> (r: Result<usize, String>)
    ensures
        match r {
            Ok(n) => n == profiles@.len() && (forall|i: int| 0 <= i < profiles@.len() ==> spec_profile_error(#[trigger] profiles@[i]) is None)
                && (forall|i: int, j: int| 0 <= i < j < profiles@.len() ==> #[trigger] profiles@[i].id@ != #[trigger] profiles@[j].id@),
            Err(e) => exists|k: int|
                #![trigger profiles@[k]]
                0 <= k < profiles@.len() && (forall|i: int| 0 <= i < k ==> spec_profile_error(#[trigger] profiles@[i]) is None)
                    && (forall|i: int, j: int| 0 <= i < j < k ==> #[trigger] profiles@[i].id@ != #[trigger] profiles@[j].id@)
                    && match spec_profile_error(profiles@[k]) {
                    Some(m) => e@ == m,
                    None => (exists|i: int| 0 <= i < k && #[trigger] profiles@[i].id@ == profiles@[k].id@) && e@
                        == "duplicate controller profile id "@ + profiles@[k].id@,
                },
        },
{
    let mut i: usize = 0;
    while i < profiles.len()
        invariant
            i <= profiles.len(),
            forall|a: int| 0 <= a < i ==> spec_profile_error(#[trigger] profiles@[a]) is None,
            forall|a: int, b: int| 0 <= a < b < i ==> #[trigger] profiles@[a].id@ != #[trigger] profiles@[b].id@,
        decreases profiles.len() - i,
    {
        match profiles[i].validate() {
            Err(e) => {
                return Err(e);
            },
            Ok(()) => {},
        }
        if id_seen_before(profiles, i) {
            let mut message = owned("duplicate controller profile id ");
            push_str(&mut message, profiles[i].id.as_str());
            proof {
                assert(spec_profile_error(profiles@[i as int]) is None);
            }
            return Err(message);
        }
        i += 1;
    }
    Ok(profiles.len())
}

} // verus!

