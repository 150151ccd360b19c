//! The synthesizer parameters that absolute knobs and faders can drive.
use vstd::prelude::*;

verus! {

/// Number of absolute parameters a controller can map.
pub const CONTROL_COUNT: usize = 8;

pub open spec fn spec_control_name(i: int) -> Seq<char> {
    if i == 0 { "Filter cutoff"@ }
    else if i == 1 { "Resonance"@ }
    else if i == 2 { "Attack"@ }
    else if i == 3 { "Decay"@ }
    else if i == 4 { "Release"@ }
    else if i == 5 { "Vibrato rate"@ }
    else if i == 6 { "Vibrato depth"@ }
    else { "Vibrato delay"@ }
}

/// The MIDI CC each parameter listens on (General MIDI sound controllers).
pub open spec fn spec_control_cc(i: int) -> u8 {
    if i == 0 { 74 }
    else if i == 1 { 71 }
    else if i == 2 { 73 }
    else if i == 3 { 75 }
    else if i == 4 { 72 }
    else if i == 5 { 76 }
    else if i == 6 { 77 }
    else { 78 }
}

/// The display name of parameter `i`.
pub fn control_name(i: usize) -> (r: &'static str)
    requires
        i < CONTROL_COUNT,
    ensures
        r@ == spec_control_name(i as int),
{
    match i {
        0 => "Filter cutoff",
        1 => "Resonance",
        2 => "Attack",
        3 => "Decay",
        4 => "Release",
        5 => "Vibrato rate",
        6 => "Vibrato depth",
        _ => "Vibrato delay",
    }
}

/// The target CC of parameter `i`.
pub fn control_cc(i: usize) -> (r: u8)
    requires
        i < CONTROL_COUNT,
    ensures
        r == spec_control_cc(i as int),
{
    match i {
        0 => 74,
        1 => 71,
        2 => 73,
        3 => 75,
        4 => 72,
        5 => 76,
        6 => 77,
        _ => 78,
    }
}

/// The parameter a target CC belongs to.
pub fn by_cc(cc: u8) -> (r: Option<usize>)
    ensures
        match r {
            Some(i) => i < CONTROL_COUNT && spec_control_cc(i as int) == cc,
            None => forall|i: int| 0 <= i < CONTROL_COUNT ==> spec_control_cc(i) != cc,
        },
{
    let mut i: usize = 0;
    while i < CONTROL_COUNT
        invariant
            i <= CONTROL_COUNT,
            forall|j: int| 0 <= j < i ==> spec_control_cc(j) != cc,
        decreases CONTROL_COUNT - i,
    {
        if control_cc(i) == cc {
            return Some(i);
        }
        i += 1;
    }
    None
}

} // verus!
