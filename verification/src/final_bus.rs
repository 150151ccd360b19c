//! The fixed three-source final performance bus: which sources feed it.
use vstd::prelude::*;

verus! {

/// Number of sources the final bus mixes.
pub const SOURCE_COUNT: usize = 3;

/// A source of the final bus.
#[derive(Clone, Copy, Debug, PartialEq, Eq, Structural)]
pub enum BusSource {
    Synth,
    Loop,
    Input,
}

impl BusSource {
    pub open spec fn spec_label(self) -> Seq<char> {
        match self {
            BusSource::Synth => "SYNTH"@,
            BusSource::Loop => "LOOP"@,
            BusSource::Input => "INPUT"@,
        }
    }

    pub open spec fn spec_index(self) -> int {
        match self {
            BusSource::Synth => 0,
            BusSource::Loop => 1,
            BusSource::Input => 2,
        }
    }

    /// The name the bus strip shows.
    pub fn label(self) -> (r: &'static str)
        ensures
            r@ == self.spec_label(),
    {
        match self {
            BusSource::Synth => "SYNTH",
            BusSource::Loop => "LOOP",
            BusSource::Input => "INPUT",
        }
    }

    /// The source's slot on the bus.
    pub fn index(self) -> (r: usize)
        ensures
            r == self.spec_index(),
            r < SOURCE_COUNT,
    {
        match self {
            BusSource::Synth => 0,
            BusSource::Loop => 1,
            BusSource::Input => 2,
        }
    }

    /// Every source, in slot order.
    pub fn all() -> (r: [BusSource; SOURCE_COUNT])
        ensures
            forall|i: int| 0 <= i < SOURCE_COUNT ==> (#[trigger] r@[i]).spec_index() == i,
    {
        [BusSource::Synth, BusSource::Loop, BusSource::Input]
    }
}

} // verus!
