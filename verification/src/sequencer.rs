//! Tracker cells: what one lane of one row plays.
use vstd::prelude::*;

verus! {

/// Lanes on one tracker page.
pub const LANES_PER_PAGE: usize = 4;

/// The note column of a cell.
#[derive(Clone, Copy, Debug, PartialEq, Eq, Structural)]
pub enum Note {
    Empty,
    On(u8),
    Off,
}

/// The effect column of a cell.
#[derive(Clone, Copy, Debug, PartialEq, Eq, Structural)]
pub enum Command {
    Blank,
    Cut(u8),
    Delay(u8),
    Retrigger(u8),
    Tempo(u8),
}

/// One tracker cell: note, optional velocity, program and gate, and a
/// command.
#[derive(Clone, Copy, Debug, PartialEq, Eq, Structural)]
pub struct Cell {
    pub note: Note,
    pub velocity: Option<u8>,
    pub program: Option<u8>,
    pub gate: Option<u8>,
    pub command: Command,
}

/// The cell that plays nothing.
pub open spec fn empty_cell() -> Cell {
    Cell { note: Note::Empty, velocity: None, program: None, gate: None, command: Command::Blank }
}

pub open spec fn seven_bit(v: Option<u8>) -> bool {
    v matches Some(n) ==> n <= 127
}

impl Cell {
    /// Whether every number in the cell is a 7-bit MIDI value.
    pub open spec fn spec_valid(self) -> bool {
        &&& (self.note matches Note::On(n) ==> n <= 127)
        &&& seven_bit(self.velocity)
        &&& seven_bit(self.program)
        &&& seven_bit(self.gate)
    }

    /// The cell that plays nothing.
    pub fn empty() -> (r: Cell)
        ensures
            r == empty_cell(),
    {
        Cell { note: Note::Empty, velocity: None, program: None, gate: None, command: Command::Blank }
    }

    /// Checks that every number in the cell is a 7-bit MIDI value.
    pub fn validate(&self) -> (r: Result<(), String>)
        ensures
            r is Ok <==> self.spec_valid(),
            r matches Err(e) ==> e@ == "tracker cell value outside MIDI range"@,
    {
        let note_ok = match self.note {
            Note::On(n) => n <= 127,
            _ => true,
        };
        let in_range = |v: Option<u8>| -> (b: bool)
            ensures
                b == seven_bit(v),
        {
            match v {
                Some(n) => n <= 127,
                None => true,
            }
        };
        if note_ok && in_range(self.velocity) && in_range(self.program) && in_range(self.gate) {
            Ok(())
        } else {
            Err("tracker cell value outside MIDI range".to_owned())
        }
    }
}

impl Default for Cell {
    fn default() -> (r: Self)
        ensures
            r == empty_cell(),
    {
        Cell::empty()
    }
}

} // verus!
