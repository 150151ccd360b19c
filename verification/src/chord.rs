//! Held-note tracking from live MIDI and chord naming for the note display.
use vstd::prelude::*;
use crate::text::{join_with, push_str};

verus! {

/// The two pitch-naming conventions the note display supports.
#[derive(Clone, Copy, Debug, PartialEq, Eq, Structural)]
pub enum NoteNaming {
    German,
    English,
}

/// Name of pitch class `pc` (0 = C) under a naming convention.
pub open spec fn spec_pitch_name(naming: NoteNaming, pc: int) -> Seq<char> {
    if pc == 0 {
        "C"@
    } else if pc == 1 {
        "C#"@
    } else if pc == 2 {
        "D"@
    } else if pc == 3 {
        "D#"@
    } else if pc == 4 {
        "E"@
    } else if pc == 5 {
        "F"@
    } else if pc == 6 {
        "F#"@
    } else if pc == 7 {
        "G"@
    } else if pc == 8 {
        "G#"@
    } else if pc == 9 {
        "A"@
    } else if pc == 10 {
        match naming {
            NoteNaming::German => "B"@,
            NoteNaming::English => "A#"@,
        }
    } else {
        match naming {
            NoteNaming::German => "H"@,
            NoteNaming::English => "B"@,
        }
    }
}

impl NoteNaming {
    pub open spec fn spec_config_value(self) -> Seq<char> {
        match self {
            NoteNaming::German => "german"@,
            NoteNaming::English => "english"@,
        }
    }

    /// The value written to the configuration file for this naming.
    pub fn config_value(self) -> (r: &'static str)
        ensures
            r@ == self.spec_config_value(),
    {
        match self {
            NoteNaming::German => "german",
            NoteNaming::English => "english",
        }
    }

    /// Name of a pitch class (0 = C, 11 = H or B).
    pub fn pitch_name(self, pc: u8) -> (r: &'static str)
        requires
            pc < 12,
        ensures
            r@ == spec_pitch_name(self, pc as int),
    {
        match pc {
            0 => "C",
            1 => "C#",
            2 => "D",
            3 => "D#",
            4 => "E",
            5 => "F",
            6 => "F#",
            7 => "G",
            8 => "G#",
            9 => "A",
            10 => match self {
                NoteNaming::German => "B",
                NoteNaming::English => "A#",
            },
            _ => match self {
                NoteNaming::German => "H",
                NoteNaming::English => "B",
            },
        }
    }
}

/// One held note as shown on screen.
#[derive(Clone, Debug, PartialEq, Eq)]
pub struct HeldNoteDisplay {
    pub midi_note: u8,
    pub name: &'static str,
    pub velocity: u8,
}

/// The held notes, lowest first, and the name of the chord they form.
#[derive(Clone, Debug, PartialEq, Eq)]
pub struct HeldNoteDisplayData {
    pub chord: String,
    pub notes: Vec<HeldNoteDisplay>,
}

/// The velocity of every held (note, channel) pair; zero means released.
#[derive(Debug)]
pub struct HeldNotes {
    velocities: [u8; 2048],
}

/// Number of chord formulas the recogniser knows.
pub const CHORD_COUNT: usize = 27;

/// Intervals above the root, ascending, of chord formula `k`.
pub open spec fn spec_chord_formula(k: int) -> Seq<u8> {
    if k == 0 { seq![0u8, 4, 7] }
    else if k == 1 { seq![0u8, 3, 7] }
    else if k == 2 { seq![0u8, 3, 6] }
    else if k == 3 { seq![0u8, 4, 8] }
    else if k == 4 { seq![0u8, 2, 7] }
    else if k == 5 { seq![0u8, 5, 7] }
    else if k == 6 { seq![0u8, 4, 7, 10] }
    else if k == 7 { seq![0u8, 4, 7, 11] }
    else if k == 8 { seq![0u8, 3, 7, 10] }
    else if k == 9 { seq![0u8, 3, 7, 11] }
    else if k == 10 { seq![0u8, 3, 6, 9] }
    else if k == 11 { seq![0u8, 3, 6, 10] }
    else if k == 12 { seq![0u8, 4, 7, 9] }
    else if k == 13 { seq![0u8, 3, 7, 9] }
    else if k == 14 { seq![0u8, 2, 7, 10] }
    else if k == 15 { seq![0u8, 2, 7, 11] }
    else if k == 16 { seq![0u8, 5, 7, 10] }
    else if k == 17 { seq![0u8, 5, 7, 11] }
    else if k == 18 { seq![0u8, 2, 4, 7] }
    else if k == 19 { seq![0u8, 2, 3, 7] }
    else if k == 20 { seq![0u8, 2, 4, 7, 10] }
    else if k == 21 { seq![0u8, 2, 4, 7, 11] }
    else if k == 22 { seq![0u8, 2, 3, 7, 10] }
    else if k == 23 { seq![0u8, 2, 4, 5, 7, 10] }
    else if k == 24 { seq![0u8, 2, 3, 5, 7, 10] }
    else if k == 25 { seq![0u8, 2, 4, 7, 9, 10] }
    else { seq![0u8, 2, 3, 7, 9, 10] }
}

/// Name suffix of chord formula `k`.
pub open spec fn spec_chord_suffix(k: int) -> Seq<char> {
    if k == 0 { " maj"@ }
    else if k == 1 { "m"@ }
    else if k == 2 { "dim"@ }
    else if k == 3 { "aug"@ }
    else if k == 4 { "sus2"@ }
    else if k == 5 { "sus4"@ }
    else if k == 6 { "7"@ }
    else if k == 7 { "maj7"@ }
    else if k == 8 { "m7"@ }
    else if k == 9 { "mMaj7"@ }
    else if k == 10 { "dim7"@ }
    else if k == 11 { "m7b5"@ }
    else if k == 12 { "6"@ }
    else if k == 13 { "m6"@ }
    else if k == 14 { "7sus2"@ }
    else if k == 15 { "maj7sus2"@ }
    else if k == 16 { "7sus4"@ }
    else if k == 17 { "maj7sus4"@ }
    else if k == 18 { "add9"@ }
    else if k == 19 { "madd9"@ }
    else if k == 20 { "9"@ }
    else if k == 21 { "maj9"@ }
    else if k == 22 { "m9"@ }
    else if k == 23 { "11"@ }
    else if k == 24 { "m11"@ }
    else if k == 25 { "13"@ }
    else { "m13"@ }
}

/// Name of an interval of `i` semitones above the bass (0..12).
pub open spec fn spec_interval_name(i: int) -> Seq<char> {
    if i == 0 { "1"@ }
    else if i == 1 { "b2"@ }
    else if i == 2 { "2"@ }
    else if i == 3 { "m3"@ }
    else if i == 4 { "3"@ }
    else if i == 5 { "4"@ }
    else if i == 6 { "b5"@ }
    else if i == 7 { "5"@ }
    else if i == 8 { "#5"@ }
    else if i == 9 { "6"@ }
    else if i == 10 { "b7"@ }
    else { "7"@ }
}

/// The first chord formula at index `k` or later that equals `ints`.
pub open spec fn formula_index_from(ints: Seq<u8>, k: int) -> Option<int>
    decreases CHORD_COUNT - k,
{
    if k < 0 || k >= CHORD_COUNT {
        None
    } else if spec_chord_formula(k) == ints {
        Some(k)
    } else {
        formula_index_from(ints, k + 1)
    }
}

pub open spec fn formula_index(ints: Seq<u8>) -> Option<int> {
    formula_index_from(ints, 0)
}

fn chord_formula(k: usize) -> (r: Vec<u8>)
    requires
        k < CHORD_COUNT,
    ensures
        r@ == spec_chord_formula(k as int),
{
    let v: Vec<u8> = match k {
        0 => vec![0, 4, 7],
        1 => vec![0, 3, 7],
        2 => vec![0, 3, 6],
        3 => vec![0, 4, 8],
        4 => vec![0, 2, 7],
        5 => vec![0, 5, 7],
        6 => vec![0, 4, 7, 10],
        7 => vec![0, 4, 7, 11],
        8 => vec![0, 3, 7, 10],
        9 => vec![0, 3, 7, 11],
        10 => vec![0, 3, 6, 9],
        11 => vec![0, 3, 6, 10],
        12 => vec![0, 4, 7, 9],
        13 => vec![0, 3, 7, 9],
        14 => vec![0, 2, 7, 10],
        15 => vec![0, 2, 7, 11],
        16 => vec![0, 5, 7, 10],
        17 => vec![0, 5, 7, 11],
        18 => vec![0, 2, 4, 7],
        19 => vec![0, 2, 3, 7],
        20 => vec![0, 2, 4, 7, 10],
        21 => vec![0, 2, 4, 7, 11],
        22 => vec![0, 2, 3, 7, 10],
        23 => vec![0, 2, 4, 5, 7, 10],
        24 => vec![0, 2, 3, 5, 7, 10],
        25 => vec![0, 2, 4, 7, 9, 10],
        _ => vec![0, 2, 3, 7, 9, 10],
    };
    assert(v@ =~= spec_chord_formula(k as int));
    v
}

fn chord_suffix(k: usize) -> (r: &'static str)
    requires
        k < CHORD_COUNT,
    ensures
        r@ == spec_chord_suffix(k as int),
{
    match k {
        0 => " maj",
        1 => "m",
        2 => "dim",
        3 => "aug",
        4 => "sus2",
        5 => "sus4",
        6 => "7",
        7 => "maj7",
        8 => "m7",
        9 => "mMaj7",
        10 => "dim7",
        11 => "m7b5",
        12 => "6",
        13 => "m6",
        14 => "7sus2",
        15 => "maj7sus2",
        16 => "7sus4",
        17 => "maj7sus4",
        18 => "add9",
        19 => "madd9",
        20 => "9",
        21 => "maj9",
        22 => "m9",
        23 => "11",
        24 => "m11",
        25 => "13",
        _ => "m13",
    }
}

fn interval_name(interval: u8) -> (r: &'static str)
    requires
        interval < 12,
    ensures
        r@ == spec_interval_name(interval as int),
{
    match interval {
        0 => "1",
        1 => "b2",
        2 => "2",
        3 => "m3",
        4 => "3",
        5 => "4",
        6 => "b5",
        7 => "5",
        8 => "#5",
        9 => "6",
        10 => "b7",
        _ => "7",
    }
}

fn u8_seq_eq(a: &Vec<u8>, b: &Vec<u8>) -> (r: bool)
    ensures
        r == (a@ == b@),
{
    if a.len() != b.len() {
        return false;
    }
    let mut i: usize = 0;
    while i < a.len()
        invariant
            a.len() == b.len(),
            i <= a.len(),
            forall|t: int| 0 <= t < i ==> a@[t] == b@[t],
        decreases a.len() - i,
    {
        if a[i] != b[i] {
            return false;
        }
        i += 1;
    }
    assert(a@ =~= b@);
    true
}

fn find_formula(ints: &Vec<u8>) -> (r: Option<usize>)
    ensures
        match r {
            Some(k) => k < CHORD_COUNT && formula_index(ints@) == Some(k as int),
            None => formula_index(ints@) is None,
        },
{
    let mut k: usize = 0;
    while k < CHORD_COUNT
        invariant
            k <= CHORD_COUNT,
            formula_index(ints@) == formula_index_from(ints@, k as int),
        decreases CHORD_COUNT - k,
    {
        let formula = chord_formula(k);
        if u8_seq_eq(&formula, ints) {
            return Some(k);
        }
        k += 1;
    }
    None
}

impl HeldNotes {
    /// Velocity held for `note` on `channel` (0 when released).
    pub closed spec fn velocity(self, note: int, channel: int) -> u8 {
        self.velocities@[note * 16 + channel]
    }

    /// Highest velocity held for `note` over the first `k` channels.
    pub open spec fn max_velocity_upto(self, note: int, k: int) -> u8
        decreases k,
    {
        if k <= 0 {
            0
        } else {
            let m = self.max_velocity_upto(note, k - 1);
            let v = self.velocity(note, k - 1);
            if v > m {
                v
            } else {
                m
            }
        }
    }

    /// Highest velocity held for `note` over all sixteen channels.
    pub open spec fn max_velocity(self, note: int) -> u8 {
        self.max_velocity_upto(note, 16)
    }

    /// Held notes below `n`, ascending, each with its highest velocity.
    pub open spec fn held_upto(self, n: int) -> Seq<(u8, u8)>
        decreases n,
    {
        if n <= 0 {
            Seq::empty()
        } else if self.max_velocity(n - 1) != 0 {
            self.held_upto(n - 1).push(((n - 1) as u8, self.max_velocity(n - 1)))
        } else {
            self.held_upto(n - 1)
        }
    }

    /// All held notes, ascending, each with its highest velocity.
    pub open spec fn held(self) -> Seq<(u8, u8)> {
        self.held_upto(128)
    }

    /// Whether some note below `n` with pitch class `pc` is held.
    pub open spec fn pc_present_upto(self, pc: int, n: int) -> bool {
        exists|m: int| 0 <= m < n && m % 12 == pc && #[trigger] self.max_velocity(m) != 0
    }

    pub open spec fn pc_present(self, pc: int) -> bool {
        self.pc_present_upto(pc, 128)
    }

    /// Number of pitch classes below `k` that are held.
    pub open spec fn pc_count_upto(self, k: int) -> nat
        decreases k,
    {
        if k <= 0 {
            0
        } else {
            self.pc_count_upto(k - 1) + if self.pc_present(k - 1) { 1nat } else { 0nat }
        }
    }

    /// Intervals (0..12, ascending) above `root` that are held, among the first `k`.
    pub open spec fn intervals_upto(self, root: int, k: int) -> Seq<u8>
        decreases k,
    {
        if k <= 0 {
            Seq::empty()
        } else if self.pc_present((root + k - 1) % 12) {
            self.intervals_upto(root, k - 1).push((k - 1) as u8)
        } else {
            self.intervals_upto(root, k - 1)
        }
    }

    pub open spec fn intervals(self, root: int) -> Seq<u8> {
        self.intervals_upto(root, 12)
    }

    /// First root, trying pitch classes from `pc` upwards other than the bass,
    /// whose held intervals form a known chord.
    pub open spec fn root_match_from(self, bass: int, pc: int) -> Option<(int, int)>
        decreases 12 - pc,
    {
        if pc < 0 || pc >= 12 {
            None
        } else if pc != bass && self.pc_present(pc) && formula_index(self.intervals(pc)) is Some {
            Some((pc, formula_index(self.intervals(pc))->0))
        } else {
            self.root_match_from(bass, pc + 1)
        }
    }

    /// The chord root and formula: the bass is tried first, then the other
    /// held pitch classes in ascending order.
    pub open spec fn root_match(self, bass: int) -> Option<(int, int)> {
        if formula_index(self.intervals(bass)) is Some {
            Some((bass, formula_index(self.intervals(bass))->0))
        } else {
            self.root_match_from(bass, 0)
        }
    }

    /// Interval names above the bass of the held pitch classes below `k`,
    /// in pitch-class order, leaving out the bass itself.
    pub open spec fn interval_words_upto(self, bass: int, k: int) -> Seq<Seq<char>>
        decreases k,
    {
        if k <= 0 {
            Seq::empty()
        } else if k - 1 != bass && self.pc_present(k - 1) {
            self.interval_words_upto(bass, k - 1).push(
                spec_interval_name((k - 1 + 12 - bass) % 12),
            )
        } else {
            self.interval_words_upto(bass, k - 1)
        }
    }

    /// The chord name shown for the held notes, the bass being `bass`.
    pub open spec fn chord_text(self, naming: NoteNaming, bass: int) -> Seq<char> {
        if self.pc_count_upto(12) == 1 {
            spec_pitch_name(naming, bass)
        } else {
            match self.root_match(bass) {
                Some((root, k)) => spec_pitch_name(naming, root) + spec_chord_suffix(k) + if root
                    != bass {
                    "/"@ + spec_pitch_name(naming, bass)
                } else {
                    Seq::empty()
                },
                None => spec_pitch_name(naming, bass) + " ["@ + join_with(
                    self.interval_words_upto(bass, 12),
                    " "@,
                ) + "]"@,
            }
        }
    }

    /// A fresh tracker with nothing held.
    pub fn new() -> (r: Self)
        ensures
            forall|n: int, c: int| 0 <= n < 128 && 0 <= c < 16 ==> r.velocity(n, c) == 0,
    {
        HeldNotes { velocities: [0u8; 2048] }
    }

    fn get(&self, note: usize, channel: usize) -> (r: u8)
        requires
            note < 128,
            channel < 16,
        ensures
            r == self.velocity(note as int, channel as int),
    {
        self.velocities[note * 16 + channel]
    }

    fn set(&mut self, note: usize, channel: usize, value: u8)
        requires
            note < 128,
            channel < 16,
        ensures
            forall|n: int, c: int|
                0 <= n < 128 && 0 <= c < 16 ==> #[trigger] final(self).velocity(n, c) == if n
                    == note && c == channel {
                    value
                } else {
                    old(self).velocity(n, c)
                },
    {
        self.velocities[note * 16 + channel] = value;
        assert forall|n: int, c: int| 0 <= n < 128 && 0 <= c < 16 implies #[trigger] self.velocity(
            n,
            c,
        ) == if n == note && c == channel {
            value
        } else {
            old(self).velocity(n, c)
        } by {
            if n != note || c != channel {
                assert(n * 16 + c != note * 16 + channel);
            }
        }
    }

    fn max_velocity_exec(&self, note: usize) -> (r: u8)
        requires
            note < 128,
        ensures
            r == self.max_velocity(note as int),
    {
        let mut m: u8 = 0;
        let mut c: usize = 0;
        while c < 16
            invariant
                c <= 16,
                note < 128,
                m == self.max_velocity_upto(note as int, c as int),
            decreases 16 - c,
        {
            let v = self.get(note, c);
            if v > m {
                m = v;
            }
            c += 1;
        }
        m
    }

    /// Whether `note` is held on any channel.
    pub fn is_held(&self, note: u8) -> (r: bool)
        ensures
            r == (note < 128 && self.max_velocity(note as int) != 0),
    {
        if note >= 128 {
            return false;
        }
        self.max_velocity_exec(note as usize) != 0
    }

    /// Updates the held notes from one live MIDI message. Note-on with a
    /// non-zero velocity holds the note on its channel, note-off or a zero
    /// velocity releases it, All Sound Off (120) and All Notes Off (123)
    /// release every note of the channel, and anything else, including a
    /// message that is not exactly three bytes with 7-bit data, is ignored.
    pub fn observe(&mut self, message: &[u8])
        ensures
            forall|n: int, c: int|
                0 <= n < 128 && 0 <= c < 16 ==> #[trigger] final(self).velocity(n, c)
                    == observed_velocity(old(self).velocity(n, c), message@, n, c),
    {
        if message.len() != 3 || message[1] > 127 || message[2] > 127 {
            return;
        }
        let status = message[0] & 0xf0;
        let channel = (message[0] & 0x0f) as usize;
        proof {
            let b = message@[0];
            assert(b & 0x0f < 16) by (bit_vector);
        }
        if status == 0x90 && message[2] != 0 {
            self.set(message[1] as usize, channel, message[2]);
        } else if status == 0x80 || status == 0x90 {
            self.set(message[1] as usize, channel, 0);
        } else if status == 0xb0 && (message[1] == 120 || message[1] == 123) {
            let ghost start = *self;
            let mut n: usize = 0;
            while n < 128
                invariant
                    n <= 128,
                    channel < 16,
                    forall|m: int, c: int|
                        0 <= m < 128 && 0 <= c < 16 ==> #[trigger] self.velocity(m, c) == if m < n
                            && c == channel {
                            0
                        } else {
                            start.velocity(m, c)
                        },
                decreases 128 - n,
            {
                self.set(n, channel, 0);
                n += 1;
            }
        }
    }

    /// The held notes, lowest first with the highest velocity held on any
    /// channel, and the chord name; `None` when nothing is held.
    pub fn display(&self, naming: NoteNaming) -> (r: Option<HeldNoteDisplayData>)
        ensures
            self.held().len() == 0 ==> r is None,
            self.held().len() > 0 ==> (r matches Some(d) && d.notes@.len() == self.held().len()
                && (forall|i: int|
                0 <= i < self.held().len() ==> {
                    &&& (#[trigger] d.notes@[i]).midi_note == self.held()[i].0
                    &&& d.notes@[i].velocity == self.held()[i].1
                    &&& d.notes@[i].name@ == spec_pitch_name(naming, (self.held()[i].0 % 12) as int)
                }) && d.chord@ == self.chord_text(naming, (self.held()[0].0 % 12) as int)),
    {
        let mut notes: Vec<HeldNoteDisplay> = Vec::new();
        let mut present: Vec<bool> = vec![false; 12];
        let mut note: usize = 0;
        while note < 128
            invariant
                note <= 128,
                present@.len() == 12,
                notes@.len() == self.held_upto(note as int).len(),
                forall|i: int|
                    0 <= i < notes@.len() ==> {
                        &&& (#[trigger] notes@[i]).midi_note == self.held_upto(note as int)[i].0
                        &&& notes@[i].velocity == self.held_upto(note as int)[i].1
                        &&& notes@[i].name@ == spec_pitch_name(
                            naming,
                            (self.held_upto(note as int)[i].0 % 12) as int,
                        )
                    },
                forall|pc: int|
                    0 <= pc < 12 ==> #[trigger] present@[pc] == self.pc_present_upto(
                        pc,
                        note as int,
                    ),
            decreases 128 - note,
        {
            let v = self.max_velocity_exec(note);
            let pc = (note % 12) as u8;
            if v != 0 {
                notes.push(HeldNoteDisplay { midi_note: note as u8, name: naming.pitch_name(pc), velocity: v });
                present.set(pc as usize, true);
            }
            proof {
                assert forall|q: int| 0 <= q < 12 implies #[trigger] present@[q]
                    == self.pc_present_upto(q, note + 1) by {
                    if self.pc_present_upto(q, note as int) {
                        let m = choose|m: int|
                            0 <= m < note && m % 12 == q && #[trigger] self.max_velocity(m) != 0;
                        assert(0 <= m < note + 1 && m % 12 == q && self.max_velocity(m) != 0);
                    }
                    if self.pc_present_upto(q, note + 1) && !self.pc_present_upto(q, note as int) {
                        let m = choose|m: int|
                            0 <= m < note + 1 && m % 12 == q && #[trigger] self.max_velocity(m)
                                != 0;
                        assert(m == note);
                    }
                }
            }
            note += 1;
        }
        if notes.len() == 0 {
            return None;
        }
        let bass = notes[0].midi_note % 12;
        let mut count: usize = 0;
        let mut k: usize = 0;
        while k < 12
            invariant
                k <= 12,
                present@.len() == 12,
                count == self.pc_count_upto(k as int),
                count <= k,
                forall|pc: int| 0 <= pc < 12 ==> #[trigger] present@[pc] == self.pc_present(pc),
            decreases 12 - k,
        {
            if present[k] {
                count += 1;
            }
            k += 1;
        }
        let mut chord = String::new();
        if count == 1 {
            push_str(&mut chord, naming.pitch_name(bass));
            return Some(HeldNoteDisplayData { chord, notes });
        }
        let root_k = find_root(self, &present, bass);
        match root_k {
            Some((root, f)) => {
                push_str(&mut chord, naming.pitch_name(root));
                push_str(&mut chord, chord_suffix(f));
                if root != bass {
                    push_str(&mut chord, "/");
                    push_str(&mut chord, naming.pitch_name(bass));
                }
            },
            None => {
                push_str(&mut chord, naming.pitch_name(bass));
                push_str(&mut chord, " [");
                let mut first = true;
                let mut pc: u8 = 0;
                let ghost prefix = chord@;
                while pc < 12
                    invariant
                        pc <= 12,
                        bass < 12,
                        present@.len() == 12,
                        forall|q: int| 0 <= q < 12 ==> #[trigger] present@[q] == self.pc_present(q),
                        chord@ == prefix + join_with(
                            self.interval_words_upto(bass as int, pc as int),
                            " "@,
                        ),
                        first == (self.interval_words_upto(bass as int, pc as int).len() == 0),
                    decreases 12 - pc,
                {
                    if pc != bass && present[pc as usize] {
                        if !first {
                            push_str(&mut chord, " ");
                        }
                        push_str(&mut chord, interval_name((pc + 12 - bass) % 12));
                        first = false;
                        proof {
                            let w = self.interval_words_upto(bass as int, pc + 1);
                            assert(w.drop_last() == self.interval_words_upto(bass as int, pc as int));
                        }
                    }
                    pc += 1;
                }
                push_str(&mut chord, "]");
            },
        }
        Some(HeldNoteDisplayData { chord, notes })
    }
}

fn find_root(held: &HeldNotes, present: &Vec<bool>, bass: u8) -> (r: Option<(u8, usize)>)
    requires
        bass < 12,
        present@.len() == 12,
        forall|q: int| 0 <= q < 12 ==> #[trigger] present@[q] == held.pc_present(q),
    ensures
        match r {
            Some((root, f)) => root < 12 && f < CHORD_COUNT && held.root_match(bass as int) == Some(
                (root as int, f as int),
            ),
            None => held.root_match(bass as int) is None,
        },
{
    let bass_ints = intervals_of(held, present, bass);
    if let Some(f) = find_formula(&bass_ints) {
        return Some((bass, f));
    }
    let mut pc: u8 = 0;
    while pc < 12
        invariant
            pc <= 12,
            bass < 12,
            present@.len() == 12,
            forall|q: int| 0 <= q < 12 ==> #[trigger] present@[q] == held.pc_present(q),
            formula_index(held.intervals(bass as int)) is None,
            held.root_match(bass as int) == held.root_match_from(bass as int, pc as int),
        decreases 12 - pc,
    {
        if pc != bass && present[pc as usize] {
            let ints = intervals_of(held, present, pc);
            if let Some(f) = find_formula(&ints) {
                return Some((pc, f));
            }
        }
        pc += 1;
    }
    None
}

fn intervals_of(held: &HeldNotes, present: &Vec<bool>, root: u8) -> (r: Vec<u8>)
    requires
        root < 12,
        present@.len() == 12,
        forall|q: int| 0 <= q < 12 ==> #[trigger] present@[q] == held.pc_present(q),
    ensures
        r@ == held.intervals(root as int),
{
    let mut out: Vec<u8> = Vec::new();
    let mut i: u8 = 0;
    while i < 12
        invariant
            i <= 12,
            root < 12,
            present@.len() == 12,
            forall|q: int| 0 <= q < 12 ==> #[trigger] present@[q] == held.pc_present(q),
            out@ == held.intervals_upto(root as int, i as int),
        decreases 12 - i,
    {
        if present[((root + i) % 12) as usize] {
            out.push(i);
        }
        i += 1;
    }
    out
}

/// The velocity a (note, channel) pair holds after `message`, given `before`.
pub open spec fn observed_velocity(before: u8, message: Seq<u8>, n: int, c: int) -> u8 {
    if message.len() != 3 || message[1] > 127 || message[2] > 127 {
        before
    } else {
        let status = message[0] & 0xf0;
        let channel = message[0] & 0x0f;
        if c != channel {
            before
        } else if status == 0x90 && message[2] != 0 {
            if n == message[1] { message[2] } else { before }
        } else if status == 0x80 || status == 0x90 {
            if n == message[1] { 0 } else { before }
        } else if status == 0xb0 && (message[1] == 120 || message[1] == 123) {
            0
        } else {
            before
        }
    }
}

impl Default for HeldNotes {
    fn default() -> (r: Self)
        ensures
            forall|n: int, c: int| 0 <= n < 128 && 0 <= c < 16 ==> r.velocity(n, c) == 0,
    {
        HeldNotes::new()
    }
}

proof fn lemma_seq_ne_at(a: Seq<u8>, b: Seq<u8>, i: int)
    requires
        a.len() != b.len() || (0 <= i < a.len() && i < b.len() && a[i] != b[i]),
    ensures
        a != b,
{
}

/// Each chord formula is found at its own index: no earlier formula has
/// the same intervals.
#[verifier::rlimit(60)]
#[verifier::spinoff_prover]
proof fn lemma_formula_found(k: int)
    requires
        0 <= k < CHORD_COUNT,
    ensures
        formula_index(spec_chord_formula(k)) == Some(k),
{
    if k == 0 {
        let s = spec_chord_formula(0);
        assert(formula_index_from(s, 0) == Some(0int));
    }
    if k == 1 {
        let s = spec_chord_formula(1);
        assert(formula_index_from(s, 1) == Some(1int));
        lemma_seq_ne_at(spec_chord_formula(0), s, 1);
        assert(formula_index_from(s, 0) == Some(1int));
    }
    if k == 2 {
        let s = spec_chord_formula(2);
        assert(formula_index_from(s, 2) == Some(2int));
        lemma_seq_ne_at(spec_chord_formula(1), s, 2);
        assert(formula_index_from(s, 1) == Some(2int));
        lemma_seq_ne_at(spec_chord_formula(0), s, 1);
        assert(formula_index_from(s, 0) == Some(2int));
    }
    if k == 3 {
        let s = spec_chord_formula(3);
        assert(formula_index_from(s, 3) == Some(3int));
        lemma_seq_ne_at(spec_chord_formula(2), s, 1);
        assert(formula_index_from(s, 2) == Some(3int));
        lemma_seq_ne_at(spec_chord_formula(1), s, 1);
        assert(formula_index_from(s, 1) == Some(3int));
        lemma_seq_ne_at(spec_chord_formula(0), s, 2);
        assert(formula_index_from(s, 0) == Some(3int));
    }
    if k == 4 {
        let s = spec_chord_formula(4);
        assert(formula_index_from(s, 4) == Some(4int));
        lemma_seq_ne_at(spec_chord_formula(3), s, 1);
        assert(formula_index_from(s, 3) == Some(4int));
        lemma_seq_ne_at(spec_chord_formula(2), s, 1);
        assert(formula_index_from(s, 2) == Some(4int));
        lemma_seq_ne_at(spec_chord_formula(1), s, 1);
        assert(formula_index_from(s, 1) == Some(4int));
        lemma_seq_ne_at(spec_chord_formula(0), s, 1);
        assert(formula_index_from(s, 0) == Some(4int));
    }
    if k == 5 {
        let s = spec_chord_formula(5);
        assert(formula_index_from(s, 5) == Some(5int));
        lemma_seq_ne_at(spec_chord_formula(4), s, 1);
        assert(formula_index_from(s, 4) == Some(5int));
        lemma_seq_ne_at(spec_chord_formula(3), s, 1);
        assert(formula_index_from(s, 3) == Some(5int));
        lemma_seq_ne_at(spec_chord_formula(2), s, 1);
        assert(formula_index_from(s, 2) == Some(5int));
        lemma_seq_ne_at(spec_chord_formula(1), s, 1);
        assert(formula_index_from(s, 1) == Some(5int));
        lemma_seq_ne_at(spec_chord_formula(0), s, 1);
        assert(formula_index_from(s, 0) == Some(5int));
    }
    if k == 6 {
        let s = spec_chord_formula(6);
        assert(formula_index_from(s, 6) == Some(6int));
        lemma_seq_ne_at(spec_chord_formula(5), s, 0);
        assert(formula_index_from(s, 5) == Some(6int));
        lemma_seq_ne_at(spec_chord_formula(4), s, 0);
        assert(formula_index_from(s, 4) == Some(6int));
        lemma_seq_ne_at(spec_chord_formula(3), s, 0);
        assert(formula_index_from(s, 3) == Some(6int));
        lemma_seq_ne_at(spec_chord_formula(2), s, 0);
        assert(formula_index_from(s, 2) == Some(6int));
        lemma_seq_ne_at(spec_chord_formula(1), s, 0);
        assert(formula_index_from(s, 1) == Some(6int));
        lemma_seq_ne_at(spec_chord_formula(0), s, 0);
        assert(formula_index_from(s, 0) == Some(6int));
    }
    if k == 7 {
        let s = spec_chord_formula(7);
        assert(formula_index_from(s, 7) == Some(7int));
        lemma_seq_ne_at(spec_chord_formula(6), s, 3);
        assert(formula_index_from(s, 6) == Some(7int));
        lemma_seq_ne_at(spec_chord_formula(5), s, 0);
        assert(formula_index_from(s, 5) == Some(7int));
        lemma_seq_ne_at(spec_chord_formula(4), s, 0);
        assert(formula_index_from(s, 4) == Some(7int));
        lemma_seq_ne_at(spec_chord_formula(3), s, 0);
        assert(formula_index_from(s, 3) == Some(7int));
        lemma_seq_ne_at(spec_chord_formula(2), s, 0);
        assert(formula_index_from(s, 2) == Some(7int));
        lemma_seq_ne_at(spec_chord_formula(1), s, 0);
        assert(formula_index_from(s, 1) == Some(7int));
        lemma_seq_ne_at(spec_chord_formula(0), s, 0);
        assert(formula_index_from(s, 0) == Some(7int));
    }
    if k == 8 {
        let s = spec_chord_formula(8);
        assert(formula_index_from(s, 8) == Some(8int));
        lemma_seq_ne_at(spec_chord_formula(7), s, 1);
        assert(formula_index_from(s, 7) == Some(8int));
        lemma_seq_ne_at(spec_chord_formula(6), s, 1);
        assert(formula_index_from(s, 6) == Some(8int));
        lemma_seq_ne_at(spec_chord_formula(5), s, 0);
        assert(formula_index_from(s, 5) == Some(8int));
        lemma_seq_ne_at(spec_chord_formula(4), s, 0);
        assert(formula_index_from(s, 4) == Some(8int));
        lemma_seq_ne_at(spec_chord_formula(3), s, 0);
        assert(formula_index_from(s, 3) == Some(8int));
        lemma_seq_ne_at(spec_chord_formula(2), s, 0);
        assert(formula_index_from(s, 2) == Some(8int));
        lemma_seq_ne_at(spec_chord_formula(1), s, 0);
        assert(formula_index_from(s, 1) == Some(8int));
        lemma_seq_ne_at(spec_chord_formula(0), s, 0);
        assert(formula_index_from(s, 0) == Some(8int));
    }
    if k == 9 {
        let s = spec_chord_formula(9);
        assert(formula_index_from(s, 9) == Some(9int));
        lemma_seq_ne_at(spec_chord_formula(8), s, 3);
        assert(formula_index_from(s, 8) == Some(9int));
        lemma_seq_ne_at(spec_chord_formula(7), s, 1);
        assert(formula_index_from(s, 7) == Some(9int));
        lemma_seq_ne_at(spec_chord_formula(6), s, 1);
        assert(formula_index_from(s, 6) == Some(9int));
        lemma_seq_ne_at(spec_chord_formula(5), s, 0);
        assert(formula_index_from(s, 5) == Some(9int));
        lemma_seq_ne_at(spec_chord_formula(4), s, 0);
        assert(formula_index_from(s, 4) == Some(9int));
        lemma_seq_ne_at(spec_chord_formula(3), s, 0);
        assert(formula_index_from(s, 3) == Some(9int));
        lemma_seq_ne_at(spec_chord_formula(2), s, 0);
        assert(formula_index_from(s, 2) == Some(9int));
        lemma_seq_ne_at(spec_chord_formula(1), s, 0);
        assert(formula_index_from(s, 1) == Some(9int));
        lemma_seq_ne_at(spec_chord_formula(0), s, 0);
        assert(formula_index_from(s, 0) == Some(9int));
    }
    if k == 10 {
        let s = spec_chord_formula(10);
        assert(formula_index_from(s, 10) == Some(10int));
        lemma_seq_ne_at(spec_chord_formula(9), s, 2);
        assert(formula_index_from(s, 9) == Some(10int));
        lemma_seq_ne_at(spec_chord_formula(8), s, 2);
        assert(formula_index_from(s, 8) == Some(10int));
        lemma_seq_ne_at(spec_chord_formula(7), s, 1);
        assert(formula_index_from(s, 7) == Some(10int));
        lemma_seq_ne_at(spec_chord_formula(6), s, 1);
        assert(formula_index_from(s, 6) == Some(10int));
        lemma_seq_ne_at(spec_chord_formula(5), s, 0);
        assert(formula_index_from(s, 5) == Some(10int));
        lemma_seq_ne_at(spec_chord_formula(4), s, 0);
        assert(formula_index_from(s, 4) == Some(10int));
        lemma_seq_ne_at(spec_chord_formula(3), s, 0);
        assert(formula_index_from(s, 3) == Some(10int));
        lemma_seq_ne_at(spec_chord_formula(2), s, 0);
        assert(formula_index_from(s, 2) == Some(10int));
        lemma_seq_ne_at(spec_chord_formula(1), s, 0);
        assert(formula_index_from(s, 1) == Some(10int));
        lemma_seq_ne_at(spec_chord_formula(0), s, 0);
        assert(formula_index_from(s, 0) == Some(10int));
    }
    if k == 11 {
        let s = spec_chord_formula(11);
        assert(formula_index_from(s, 11) == Some(11int));
        lemma_seq_ne_at(spec_chord_formula(10), s, 3);
        assert(formula_index_from(s, 10) == Some(11int));
        lemma_seq_ne_at(spec_chord_formula(9), s, 2);
        assert(formula_index_from(s, 9) == Some(11int));
        lemma_seq_ne_at(spec_chord_formula(8), s, 2);
        assert(formula_index_from(s, 8) == Some(11int));
        lemma_seq_ne_at(spec_chord_formula(7), s, 1);
        assert(formula_index_from(s, 7) == Some(11int));
        lemma_seq_ne_at(spec_chord_formula(6), s, 1);
        assert(formula_index_from(s, 6) == Some(11int));
        lemma_seq_ne_at(spec_chord_formula(5), s, 0);
        assert(formula_index_from(s, 5) == Some(11int));
        lemma_seq_ne_at(spec_chord_formula(4), s, 0);
        assert(formula_index_from(s, 4) == Some(11int));
        lemma_seq_ne_at(spec_chord_formula(3), s, 0);
        assert(formula_index_from(s, 3) == Some(11int));
        lemma_seq_ne_at(spec_chord_formula(2), s, 0);
        assert(formula_index_from(s, 2) == Some(11int));
        lemma_seq_ne_at(spec_chord_formula(1), s, 0);
        assert(formula_index_from(s, 1) == Some(11int));
        lemma_seq_ne_at(spec_chord_formula(0), s, 0);
        assert(formula_index_from(s, 0) == Some(11int));
    }
    if k == 12 {
        let s = spec_chord_formula(12);
        assert(formula_index_from(s, 12) == Some(12int));
        lemma_seq_ne_at(spec_chord_formula(11), s, 1);
        assert(formula_index_from(s, 11) == Some(12int));
        lemma_seq_ne_at(spec_chord_formula(10), s, 1);
        assert(formula_index_from(s, 10) == Some(12int));
        lemma_seq_ne_at(spec_chord_formula(9), s, 1);
        assert(formula_index_from(s, 9) == Some(12int));
        lemma_seq_ne_at(spec_chord_formula(8), s, 1);
        assert(formula_index_from(s, 8) == Some(12int));
        lemma_seq_ne_at(spec_chord_formula(7), s, 3);
        assert(formula_index_from(s, 7) == Some(12int));
        lemma_seq_ne_at(spec_chord_formula(6), s, 3);
        assert(formula_index_from(s, 6) == Some(12int));
        lemma_seq_ne_at(spec_chord_formula(5), s, 0);
        assert(formula_index_from(s, 5) == Some(12int));
        lemma_seq_ne_at(spec_chord_formula(4), s, 0);
        assert(formula_index_from(s, 4) == Some(12int));
        lemma_seq_ne_at(spec_chord_formula(3), s, 0);
        assert(formula_index_from(s, 3) == Some(12int));
        lemma_seq_ne_at(spec_chord_formula(2), s, 0);
        assert(formula_index_from(s, 2) == Some(12int));
        lemma_seq_ne_at(spec_chord_formula(1), s, 0);
        assert(formula_index_from(s, 1) == Some(12int));
        lemma_seq_ne_at(spec_chord_formula(0), s, 0);
        assert(formula_index_from(s, 0) == Some(12int));
    }
    if k == 13 {
        let s = spec_chord_formula(13);
        assert(formula_index_from(s, 13) == Some(13int));
        lemma_seq_ne_at(spec_chord_formula(12), s, 1);
        assert(formula_index_from(s, 12) == Some(13int));
        lemma_seq_ne_at(spec_chord_formula(11), s, 2);
        assert(formula_index_from(s, 11) == Some(13int));
        lemma_seq_ne_at(spec_chord_formula(10), s, 2);
        assert(formula_index_from(s, 10) == Some(13int));
        lemma_seq_ne_at(spec_chord_formula(9), s, 3);
        assert(formula_index_from(s, 9) == Some(13int));
        lemma_seq_ne_at(spec_chord_formula(8), s, 3);
        assert(formula_index_from(s, 8) == Some(13int));
        lemma_seq_ne_at(spec_chord_formula(7), s, 1);
        assert(formula_index_from(s, 7) == Some(13int));
        lemma_seq_ne_at(spec_chord_formula(6), s, 1);
        assert(formula_index_from(s, 6) == Some(13int));
        lemma_seq_ne_at(spec_chord_formula(5), s, 0);
        assert(formula_index_from(s, 5) == Some(13int));
        lemma_seq_ne_at(spec_chord_formula(4), s, 0);
        assert(formula_index_from(s, 4) == Some(13int));
        lemma_seq_ne_at(spec_chord_formula(3), s, 0);
        assert(formula_index_from(s, 3) == Some(13int));
        lemma_seq_ne_at(spec_chord_formula(2), s, 0);
        assert(formula_index_from(s, 2) == Some(13int));
        lemma_seq_ne_at(spec_chord_formula(1), s, 0);
        assert(formula_index_from(s, 1) == Some(13int));
        lemma_seq_ne_at(spec_chord_formula(0), s, 0);
        assert(formula_index_from(s, 0) == Some(13int));
    }
    if k == 14 {
        let s = spec_chord_formula(14);
        assert(formula_index_from(s, 14) == Some(14int));
        lemma_seq_ne_at(spec_chord_formula(13), s, 1);
        assert(formula_index_from(s, 13) == Some(14int));
        lemma_seq_ne_at(spec_chord_formula(12), s, 1);
        assert(formula_index_from(s, 12) == Some(14int));
        lemma_seq_ne_at(spec_chord_formula(11), s, 1);
        assert(formula_index_from(s, 11) == Some(14int));
        lemma_seq_ne_at(spec_chord_formula(10), s, 1);
        assert(formula_index_from(s, 10) == Some(14int));
        lemma_seq_ne_at(spec_chord_formula(9), s, 1);
        assert(formula_index_from(s, 9) == Some(14int));
        lemma_seq_ne_at(spec_chord_formula(8), s, 1);
        assert(formula_index_from(s, 8) == Some(14int));
        lemma_seq_ne_at(spec_chord_formula(7), s, 1);
        assert(formula_index_from(s, 7) == Some(14int));
        lemma_seq_ne_at(spec_chord_formula(6), s, 1);
        assert(formula_index_from(s, 6) == Some(14int));
        lemma_seq_ne_at(spec_chord_formula(5), s, 0);
        assert(formula_index_from(s, 5) == Some(14int));
        lemma_seq_ne_at(spec_chord_formula(4), s, 0);
        assert(formula_index_from(s, 4) == Some(14int));
        lemma_seq_ne_at(spec_chord_formula(3), s, 0);
        assert(formula_index_from(s, 3) == Some(14int));
        lemma_seq_ne_at(spec_chord_formula(2), s, 0);
        assert(formula_index_from(s, 2) == Some(14int));
        lemma_seq_ne_at(spec_chord_formula(1), s, 0);
        assert(formula_index_from(s, 1) == Some(14int));
        lemma_seq_ne_at(spec_chord_formula(0), s, 0);
        assert(formula_index_from(s, 0) == Some(14int));
    }
    if k == 15 {
        let s = spec_chord_formula(15);
        assert(formula_index_from(s, 15) == Some(15int));
        lemma_seq_ne_at(spec_chord_formula(14), s, 3);
        assert(formula_index_from(s, 14) == Some(15int));
        lemma_seq_ne_at(spec_chord_formula(13), s, 1);
        assert(formula_index_from(s, 13) == Some(15int));
        lemma_seq_ne_at(spec_chord_formula(12), s, 1);
        assert(formula_index_from(s, 12) == Some(15int));
        lemma_seq_ne_at(spec_chord_formula(11), s, 1);
        assert(formula_index_from(s, 11) == Some(15int));
        lemma_seq_ne_at(spec_chord_formula(10), s, 1);
        assert(formula_index_from(s, 10) == Some(15int));
        lemma_seq_ne_at(spec_chord_formula(9), s, 1);
        assert(formula_index_from(s, 9) == Some(15int));
        lemma_seq_ne_at(spec_chord_formula(8), s, 1);
        assert(formula_index_from(s, 8) == Some(15int));
        lemma_seq_ne_at(spec_chord_formula(7), s, 1);
        assert(formula_index_from(s, 7) == Some(15int));
        lemma_seq_ne_at(spec_chord_formula(6), s, 1);
        assert(formula_index_from(s, 6) == Some(15int));
        lemma_seq_ne_at(spec_chord_formula(5), s, 0);
        assert(formula_index_from(s, 5) == Some(15int));
        lemma_seq_ne_at(spec_chord_formula(4), s, 0);
        assert(formula_index_from(s, 4) == Some(15int));
        lemma_seq_ne_at(spec_chord_formula(3), s, 0);
        assert(formula_index_from(s, 3) == Some(15int));
        lemma_seq_ne_at(spec_chord_formula(2), s, 0);
        assert(formula_index_from(s, 2) == Some(15int));
        lemma_seq_ne_at(spec_chord_formula(1), s, 0);
        assert(formula_index_from(s, 1) == Some(15int));
        lemma_seq_ne_at(spec_chord_formula(0), s, 0);
        assert(formula_index_from(s, 0) == Some(15int));
    }
    if k == 16 {
        let s = spec_chord_formula(16);
        assert(formula_index_from(s, 16) == Some(16int));
        lemma_seq_ne_at(spec_chord_formula(15), s, 1);
        assert(formula_index_from(s, 15) == Some(16int));
        lemma_seq_ne_at(spec_chord_formula(14), s, 1);
        assert(formula_index_from(s, 14) == Some(16int));
        lemma_seq_ne_at(spec_chord_formula(13), s, 1);
        assert(formula_index_from(s, 13) == Some(16int));
        lemma_seq_ne_at(spec_chord_formula(12), s, 1);
        assert(formula_index_from(s, 12) == Some(16int));
        lemma_seq_ne_at(spec_chord_formula(11), s, 1);
        assert(formula_index_from(s, 11) == Some(16int));
        lemma_seq_ne_at(spec_chord_formula(10), s, 1);
        assert(formula_index_from(s, 10) == Some(16int));
        lemma_seq_ne_at(spec_chord_formula(9), s, 1);
        assert(formula_index_from(s, 9) == Some(16int));
        lemma_seq_ne_at(spec_chord_formula(8), s, 1);
        assert(formula_index_from(s, 8) == Some(16int));
        lemma_seq_ne_at(spec_chord_formula(7), s, 1);
        assert(formula_index_from(s, 7) == Some(16int));
        lemma_seq_ne_at(spec_chord_formula(6), s, 1);
        assert(formula_index_from(s, 6) == Some(16int));
        lemma_seq_ne_at(spec_chord_formula(5), s, 0);
        assert(formula_index_from(s, 5) == Some(16int));
        lemma_seq_ne_at(spec_chord_formula(4), s, 0);
        assert(formula_index_from(s, 4) == Some(16int));
        lemma_seq_ne_at(spec_chord_formula(3), s, 0);
        assert(formula_index_from(s, 3) == Some(16int));
        lemma_seq_ne_at(spec_chord_formula(2), s, 0);
        assert(formula_index_from(s, 2) == Some(16int));
        lemma_seq_ne_at(spec_chord_formula(1), s, 0);
        assert(formula_index_from(s, 1) == Some(16int));
        lemma_seq_ne_at(spec_chord_formula(0), s, 0);
        assert(formula_index_from(s, 0) == Some(16int));
    }
    if k == 17 {
        let s = spec_chord_formula(17);
        assert(formula_index_from(s, 17) == Some(17int));
        lemma_seq_ne_at(spec_chord_formula(16), s, 3);
        assert(formula_index_from(s, 16) == Some(17int));
        lemma_seq_ne_at(spec_chord_formula(15), s, 1);
        assert(formula_index_from(s, 15) == Some(17int));
        lemma_seq_ne_at(spec_chord_formula(14), s, 1);
        assert(formula_index_from(s, 14) == Some(17int));
        lemma_seq_ne_at(spec_chord_formula(13), s, 1);
        assert(formula_index_from(s, 13) == Some(17int));
        lemma_seq_ne_at(spec_chord_formula(12), s, 1);
        assert(formula_index_from(s, 12) == Some(17int));
        lemma_seq_ne_at(spec_chord_formula(11), s, 1);
        assert(formula_index_from(s, 11) == Some(17int));
        lemma_seq_ne_at(spec_chord_formula(10), s, 1);
        assert(formula_index_from(s, 10) == Some(17int));
        lemma_seq_ne_at(spec_chord_formula(9), s, 1);
        assert(formula_index_from(s, 9) == Some(17int));
        lemma_seq_ne_at(spec_chord_formula(8), s, 1);
        assert(formula_index_from(s, 8) == Some(17int));
        lemma_seq_ne_at(spec_chord_formula(7), s, 1);
        assert(formula_index_from(s, 7) == Some(17int));
        lemma_seq_ne_at(spec_chord_formula(6), s, 1);
        assert(formula_index_from(s, 6) == Some(17int));
        lemma_seq_ne_at(spec_chord_formula(5), s, 0);
        assert(formula_index_from(s, 5) == Some(17int));
        lemma_seq_ne_at(spec_chord_formula(4), s, 0);
        assert(formula_index_from(s, 4) == Some(17int));
        lemma_seq_ne_at(spec_chord_formula(3), s, 0);
        assert(formula_index_from(s, 3) == Some(17int));
        lemma_seq_ne_at(spec_chord_formula(2), s, 0);
        assert(formula_index_from(s, 2) == Some(17int));
        lemma_seq_ne_at(spec_chord_formula(1), s, 0);
        assert(formula_index_from(s, 1) == Some(17int));
        lemma_seq_ne_at(spec_chord_formula(0), s, 0);
        assert(formula_index_from(s, 0) == Some(17int));
    }
    if k == 18 {
        let s = spec_chord_formula(18);
        assert(formula_index_from(s, 18) == Some(18int));
        lemma_seq_ne_at(spec_chord_formula(17), s, 1);
        assert(formula_index_from(s, 17) == Some(18int));
        lemma_seq_ne_at(spec_chord_formula(16), s, 1);
        assert(formula_index_from(s, 16) == Some(18int));
        lemma_seq_ne_at(spec_chord_formula(15), s, 2);
        assert(formula_index_from(s, 15) == Some(18int));
        lemma_seq_ne_at(spec_chord_formula(14), s, 2);
        assert(formula_index_from(s, 14) == Some(18int));
        lemma_seq_ne_at(spec_chord_formula(13), s, 1);
        assert(formula_index_from(s, 13) == Some(18int));
        lemma_seq_ne_at(spec_chord_formula(12), s, 1);
        assert(formula_index_from(s, 12) == Some(18int));
        lemma_seq_ne_at(spec_chord_formula(11), s, 1);
        assert(formula_index_from(s, 11) == Some(18int));
        lemma_seq_ne_at(spec_chord_formula(10), s, 1);
        assert(formula_index_from(s, 10) == Some(18int));
        lemma_seq_ne_at(spec_chord_formula(9), s, 1);
        assert(formula_index_from(s, 9) == Some(18int));
        lemma_seq_ne_at(spec_chord_formula(8), s, 1);
        assert(formula_index_from(s, 8) == Some(18int));
        lemma_seq_ne_at(spec_chord_formula(7), s, 1);
        assert(formula_index_from(s, 7) == Some(18int));
        lemma_seq_ne_at(spec_chord_formula(6), s, 1);
        assert(formula_index_from(s, 6) == Some(18int));
        lemma_seq_ne_at(spec_chord_formula(5), s, 0);
        assert(formula_index_from(s, 5) == Some(18int));
        lemma_seq_ne_at(spec_chord_formula(4), s, 0);
        assert(formula_index_from(s, 4) == Some(18int));
        lemma_seq_ne_at(spec_chord_formula(3), s, 0);
        assert(formula_index_from(s, 3) == Some(18int));
        lemma_seq_ne_at(spec_chord_formula(2), s, 0);
        assert(formula_index_from(s, 2) == Some(18int));
        lemma_seq_ne_at(spec_chord_formula(1), s, 0);
        assert(formula_index_from(s, 1) == Some(18int));
        lemma_seq_ne_at(spec_chord_formula(0), s, 0);
        assert(formula_index_from(s, 0) == Some(18int));
    }
    if k == 19 {
        let s = spec_chord_formula(19);
        assert(formula_index_from(s, 19) == Some(19int));
        lemma_seq_ne_at(spec_chord_formula(18), s, 2);
        assert(formula_index_from(s, 18) == Some(19int));
        lemma_seq_ne_at(spec_chord_formula(17), s, 1);
        assert(formula_index_from(s, 17) == Some(19int));
        lemma_seq_ne_at(spec_chord_formula(16), s, 1);
        assert(formula_index_from(s, 16) == Some(19int));
        lemma_seq_ne_at(spec_chord_formula(15), s, 2);
        assert(formula_index_from(s, 15) == Some(19int));
        lemma_seq_ne_at(spec_chord_formula(14), s, 2);
        assert(formula_index_from(s, 14) == Some(19int));
        lemma_seq_ne_at(spec_chord_formula(13), s, 1);
        assert(formula_index_from(s, 13) == Some(19int));
        lemma_seq_ne_at(spec_chord_formula(12), s, 1);
        assert(formula_index_from(s, 12) == Some(19int));
        lemma_seq_ne_at(spec_chord_formula(11), s, 1);
        assert(formula_index_from(s, 11) == Some(19int));
        lemma_seq_ne_at(spec_chord_formula(10), s, 1);
        assert(formula_index_from(s, 10) == Some(19int));
        lemma_seq_ne_at(spec_chord_formula(9), s, 1);
        assert(formula_index_from(s, 9) == Some(19int));
        lemma_seq_ne_at(spec_chord_formula(8), s, 1);
        assert(formula_index_from(s, 8) == Some(19int));
        lemma_seq_ne_at(spec_chord_formula(7), s, 1);
        assert(formula_index_from(s, 7) == Some(19int));
        lemma_seq_ne_at(spec_chord_formula(6), s, 1);
        assert(formula_index_from(s, 6) == Some(19int));
        lemma_seq_ne_at(spec_chord_formula(5), s, 0);
        assert(formula_index_from(s, 5) == Some(19int));
        lemma_seq_ne_at(spec_chord_formula(4), s, 0);
        assert(formula_index_from(s, 4) == Some(19int));
        lemma_seq_ne_at(spec_chord_formula(3), s, 0);
        assert(formula_index_from(s, 3) == Some(19int));
        lemma_seq_ne_at(spec_chord_formula(2), s, 0);
        assert(formula_index_from(s, 2) == Some(19int));
        lemma_seq_ne_at(spec_chord_formula(1), s, 0);
        assert(formula_index_from(s, 1) == Some(19int));
        lemma_seq_ne_at(spec_chord_formula(0), s, 0);
        assert(formula_index_from(s, 0) == Some(19int));
    }
    if k == 20 {
        let s = spec_chord_formula(20);
        assert(formula_index_from(s, 20) == Some(20int));
        lemma_seq_ne_at(spec_chord_formula(19), s, 0);
        assert(formula_index_from(s, 19) == Some(20int));
        lemma_seq_ne_at(spec_chord_formula(18), s, 0);
        assert(formula_index_from(s, 18) == Some(20int));
        lemma_seq_ne_at(spec_chord_formula(17), s, 0);
        assert(formula_index_from(s, 17) == Some(20int));
        lemma_seq_ne_at(spec_chord_formula(16), s, 0);
        assert(formula_index_from(s, 16) == Some(20int));
        lemma_seq_ne_at(spec_chord_formula(15), s, 0);
        assert(formula_index_from(s, 15) == Some(20int));
        lemma_seq_ne_at(spec_chord_formula(14), s, 0);
        assert(formula_index_from(s, 14) == Some(20int));
        lemma_seq_ne_at(spec_chord_formula(13), s, 0);
        assert(formula_index_from(s, 13) == Some(20int));
        lemma_seq_ne_at(spec_chord_formula(12), s, 0);
        assert(formula_index_from(s, 12) == Some(20int));
        lemma_seq_ne_at(spec_chord_formula(11), s, 0);
        assert(formula_index_from(s, 11) == Some(20int));
        lemma_seq_ne_at(spec_chord_formula(10), s, 0);
        assert(formula_index_from(s, 10) == Some(20int));
        lemma_seq_ne_at(spec_chord_formula(9), s, 0);
        assert(formula_index_from(s, 9) == Some(20int));
        lemma_seq_ne_at(spec_chord_formula(8), s, 0);
        assert(formula_index_from(s, 8) == Some(20int));
        lemma_seq_ne_at(spec_chord_formula(7), s, 0);
        assert(formula_index_from(s, 7) == Some(20int));
        lemma_seq_ne_at(spec_chord_formula(6), s, 0);
        assert(formula_index_from(s, 6) == Some(20int));
        lemma_seq_ne_at(spec_chord_formula(5), s, 0);
        assert(formula_index_from(s, 5) == Some(20int));
        lemma_seq_ne_at(spec_chord_formula(4), s, 0);
        assert(formula_index_from(s, 4) == Some(20int));
        lemma_seq_ne_at(spec_chord_formula(3), s, 0);
        assert(formula_index_from(s, 3) == Some(20int));
        lemma_seq_ne_at(spec_chord_formula(2), s, 0);
        assert(formula_index_from(s, 2) == Some(20int));
        lemma_seq_ne_at(spec_chord_formula(1), s, 0);
        assert(formula_index_from(s, 1) == Some(20int));
        lemma_seq_ne_at(spec_chord_formula(0), s, 0);
        assert(formula_index_from(s, 0) == Some(20int));
    }
    if k == 21 {
        let s = spec_chord_formula(21);
        assert(formula_index_from(s, 21) == Some(21int));
        lemma_seq_ne_at(spec_chord_formula(20), s, 4);
        assert(formula_index_from(s, 20) == Some(21int));
        lemma_seq_ne_at(spec_chord_formula(19), s, 0);
        assert(formula_index_from(s, 19) == Some(21int));
        lemma_seq_ne_at(spec_chord_formula(18), s, 0);
        assert(formula_index_from(s, 18) == Some(21int));
        lemma_seq_ne_at(spec_chord_formula(17), s, 0);
        assert(formula_index_from(s, 17) == Some(21int));
        lemma_seq_ne_at(spec_chord_formula(16), s, 0);
        assert(formula_index_from(s, 16) == Some(21int));
        lemma_seq_ne_at(spec_chord_formula(15), s, 0);
        assert(formula_index_from(s, 15) == Some(21int));
        lemma_seq_ne_at(spec_chord_formula(14), s, 0);
        assert(formula_index_from(s, 14) == Some(21int));
        lemma_seq_ne_at(spec_chord_formula(13), s, 0);
        assert(formula_index_from(s, 13) == Some(21int));
        lemma_seq_ne_at(spec_chord_formula(12), s, 0);
        assert(formula_index_from(s, 12) == Some(21int));
        lemma_seq_ne_at(spec_chord_formula(11), s, 0);
        assert(formula_index_from(s, 11) == Some(21int));
        lemma_seq_ne_at(spec_chord_formula(10), s, 0);
        assert(formula_index_from(s, 10) == Some(21int));
        lemma_seq_ne_at(spec_chord_formula(9), s, 0);
        assert(formula_index_from(s, 9) == Some(21int));
        lemma_seq_ne_at(spec_chord_formula(8), s, 0);
        assert(formula_index_from(s, 8) == Some(21int));
        lemma_seq_ne_at(spec_chord_formula(7), s, 0);
        assert(formula_index_from(s, 7) == Some(21int));
        lemma_seq_ne_at(spec_chord_formula(6), s, 0);
        assert(formula_index_from(s, 6) == Some(21int));
        lemma_seq_ne_at(spec_chord_formula(5), s, 0);
        assert(formula_index_from(s, 5) == Some(21int));
        lemma_seq_ne_at(spec_chord_formula(4), s, 0);
        assert(formula_index_from(s, 4) == Some(21int));
        lemma_seq_ne_at(spec_chord_formula(3), s, 0);
        assert(formula_index_from(s, 3) == Some(21int));
        lemma_seq_ne_at(spec_chord_formula(2), s, 0);
        assert(formula_index_from(s, 2) == Some(21int));
        lemma_seq_ne_at(spec_chord_formula(1), s, 0);
        assert(formula_index_from(s, 1) == Some(21int));
        lemma_seq_ne_at(spec_chord_formula(0), s, 0);
        assert(formula_index_from(s, 0) == Some(21int));
    }
    if k == 22 {
        let s = spec_chord_formula(22);
        assert(formula_index_from(s, 22) == Some(22int));
        lemma_seq_ne_at(spec_chord_formula(21), s, 2);
        assert(formula_index_from(s, 21) == Some(22int));
        lemma_seq_ne_at(spec_chord_formula(20), s, 2);
        assert(formula_index_from(s, 20) == Some(22int));
        lemma_seq_ne_at(spec_chord_formula(19), s, 0);
        assert(formula_index_from(s, 19) == Some(22int));
        lemma_seq_ne_at(spec_chord_formula(18), s, 0);
        assert(formula_index_from(s, 18) == Some(22int));
        lemma_seq_ne_at(spec_chord_formula(17), s, 0);
        assert(formula_index_from(s, 17) == Some(22int));
        lemma_seq_ne_at(spec_chord_formula(16), s, 0);
        assert(formula_index_from(s, 16) == Some(22int));
        lemma_seq_ne_at(spec_chord_formula(15), s, 0);
        assert(formula_index_from(s, 15) == Some(22int));
        lemma_seq_ne_at(spec_chord_formula(14), s, 0);
        assert(formula_index_from(s, 14) == Some(22int));
        lemma_seq_ne_at(spec_chord_formula(13), s, 0);
        assert(formula_index_from(s, 13) == Some(22int));
        lemma_seq_ne_at(spec_chord_formula(12), s, 0);
        assert(formula_index_from(s, 12) == Some(22int));
        lemma_seq_ne_at(spec_chord_formula(11), s, 0);
        assert(formula_index_from(s, 11) == Some(22int));
        lemma_seq_ne_at(spec_chord_formula(10), s, 0);
        assert(formula_index_from(s, 10) == Some(22int));
        lemma_seq_ne_at(spec_chord_formula(9), s, 0);
        assert(formula_index_from(s, 9) == Some(22int));
        lemma_seq_ne_at(spec_chord_formula(8), s, 0);
        assert(formula_index_from(s, 8) == Some(22int));
        lemma_seq_ne_at(spec_chord_formula(7), s, 0);
        assert(formula_index_from(s, 7) == Some(22int));
        lemma_seq_ne_at(spec_chord_formula(6), s, 0);
        assert(formula_index_from(s, 6) == Some(22int));
        lemma_seq_ne_at(spec_chord_formula(5), s, 0);
        assert(formula_index_from(s, 5) == Some(22int));
        lemma_seq_ne_at(spec_chord_formula(4), s, 0);
        assert(formula_index_from(s, 4) == Some(22int));
        lemma_seq_ne_at(spec_chord_formula(3), s, 0);
        assert(formula_index_from(s, 3) == Some(22int));
        lemma_seq_ne_at(spec_chord_formula(2), s, 0);
        assert(formula_index_from(s, 2) == Some(22int));
        lemma_seq_ne_at(spec_chord_formula(1), s, 0);
        assert(formula_index_from(s, 1) == Some(22int));
        lemma_seq_ne_at(spec_chord_formula(0), s, 0);
        assert(formula_index_from(s, 0) == Some(22int));
    }
    if k == 23 {
        let s = spec_chord_formula(23);
        assert(formula_index_from(s, 23) == Some(23int));
        lemma_seq_ne_at(spec_chord_formula(22), s, 0);
        assert(formula_index_from(s, 22) == Some(23int));
        lemma_seq_ne_at(spec_chord_formula(21), s, 0);
        assert(formula_index_from(s, 21) == Some(23int));
        lemma_seq_ne_at(spec_chord_formula(20), s, 0);
        assert(formula_index_from(s, 20) == Some(23int));
        lemma_seq_ne_at(spec_chord_formula(19), s, 0);
        assert(formula_index_from(s, 19) == Some(23int));
        lemma_seq_ne_at(spec_chord_formula(18), s, 0);
        assert(formula_index_from(s, 18) == Some(23int));
        lemma_seq_ne_at(spec_chord_formula(17), s, 0);
        assert(formula_index_from(s, 17) == Some(23int));
        lemma_seq_ne_at(spec_chord_formula(16), s, 0);
        assert(formula_index_from(s, 16) == Some(23int));
        lemma_seq_ne_at(spec_chord_formula(15), s, 0);
        assert(formula_index_from(s, 15) == Some(23int));
        lemma_seq_ne_at(spec_chord_formula(14), s, 0);
        assert(formula_index_from(s, 14) == Some(23int));
        lemma_seq_ne_at(spec_chord_formula(13), s, 0);
        assert(formula_index_from(s, 13) == Some(23int));
        lemma_seq_ne_at(spec_chord_formula(12), s, 0);
        assert(formula_index_from(s, 12) == Some(23int));
        lemma_seq_ne_at(spec_chord_formula(11), s, 0);
        assert(formula_index_from(s, 11) == Some(23int));
        lemma_seq_ne_at(spec_chord_formula(10), s, 0);
        assert(formula_index_from(s, 10) == Some(23int));
        lemma_seq_ne_at(spec_chord_formula(9), s, 0);
        assert(formula_index_from(s, 9) == Some(23int));
        lemma_seq_ne_at(spec_chord_formula(8), s, 0);
        assert(formula_index_from(s, 8) == Some(23int));
        lemma_seq_ne_at(spec_chord_formula(7), s, 0);
        assert(formula_index_from(s, 7) == Some(23int));
        lemma_seq_ne_at(spec_chord_formula(6), s, 0);
        assert(formula_index_from(s, 6) == Some(23int));
        lemma_seq_ne_at(spec_chord_formula(5), s, 0);
        assert(formula_index_from(s, 5) == Some(23int));
        lemma_seq_ne_at(spec_chord_formula(4), s, 0);
        assert(formula_index_from(s, 4) == Some(23int));
        lemma_seq_ne_at(spec_chord_formula(3), s, 0);
        assert(formula_index_from(s, 3) == Some(23int));
        lemma_seq_ne_at(spec_chord_formula(2), s, 0);
        assert(formula_index_from(s, 2) == Some(23int));
        lemma_seq_ne_at(spec_chord_formula(1), s, 0);
        assert(formula_index_from(s, 1) == Some(23int));
        lemma_seq_ne_at(spec_chord_formula(0), s, 0);
        assert(formula_index_from(s, 0) == Some(23int));
    }
    if k == 24 {
        let s = spec_chord_formula(24);
        assert(formula_index_from(s, 24) == Some(24int));
        lemma_seq_ne_at(spec_chord_formula(23), s, 2);
        assert(formula_index_from(s, 23) == Some(24int));
        lemma_seq_ne_at(spec_chord_formula(22), s, 0);
        assert(formula_index_from(s, 22) == Some(24int));
        lemma_seq_ne_at(spec_chord_formula(21), s, 0);
        assert(formula_index_from(s, 21) == Some(24int));
        lemma_seq_ne_at(spec_chord_formula(20), s, 0);
        assert(formula_index_from(s, 20) == Some(24int));
        lemma_seq_ne_at(spec_chord_formula(19), s, 0);
        assert(formula_index_from(s, 19) == Some(24int));
        lemma_seq_ne_at(spec_chord_formula(18), s, 0);
        assert(formula_index_from(s, 18) == Some(24int));
        lemma_seq_ne_at(spec_chord_formula(17), s, 0);
        assert(formula_index_from(s, 17) == Some(24int));
        lemma_seq_ne_at(spec_chord_formula(16), s, 0);
        assert(formula_index_from(s, 16) == Some(24int));
        lemma_seq_ne_at(spec_chord_formula(15), s, 0);
        assert(formula_index_from(s, 15) == Some(24int));
        lemma_seq_ne_at(spec_chord_formula(14), s, 0);
        assert(formula_index_from(s, 14) == Some(24int));
        lemma_seq_ne_at(spec_chord_formula(13), s, 0);
        assert(formula_index_from(s, 13) == Some(24int));
        lemma_seq_ne_at(spec_chord_formula(12), s, 0);
        assert(formula_index_from(s, 12) == Some(24int));
        lemma_seq_ne_at(spec_chord_formula(11), s, 0);
        assert(formula_index_from(s, 11) == Some(24int));
        lemma_seq_ne_at(spec_chord_formula(10), s, 0);
        assert(formula_index_from(s, 10) == Some(24int));
        lemma_seq_ne_at(spec_chord_formula(9), s, 0);
        assert(formula_index_from(s, 9) == Some(24int));
        lemma_seq_ne_at(spec_chord_formula(8), s, 0);
        assert(formula_index_from(s, 8) == Some(24int));
        lemma_seq_ne_at(spec_chord_formula(7), s, 0);
        assert(formula_index_from(s, 7) == Some(24int));
        lemma_seq_ne_at(spec_chord_formula(6), s, 0);
        assert(formula_index_from(s, 6) == Some(24int));
        lemma_seq_ne_at(spec_chord_formula(5), s, 0);
        assert(formula_index_from(s, 5) == Some(24int));
        lemma_seq_ne_at(spec_chord_formula(4), s, 0);
        assert(formula_index_from(s, 4) == Some(24int));
        lemma_seq_ne_at(spec_chord_formula(3), s, 0);
        assert(formula_index_from(s, 3) == Some(24int));
        lemma_seq_ne_at(spec_chord_formula(2), s, 0);
        assert(formula_index_from(s, 2) == Some(24int));
        lemma_seq_ne_at(spec_chord_formula(1), s, 0);
        assert(formula_index_from(s, 1) == Some(24int));
        lemma_seq_ne_at(spec_chord_formula(0), s, 0);
        assert(formula_index_from(s, 0) == Some(24int));
    }
    if k == 25 {
        let s = spec_chord_formula(25);
        assert(formula_index_from(s, 25) == Some(25int));
        lemma_seq_ne_at(spec_chord_formula(24), s, 2);
        assert(formula_index_from(s, 24) == Some(25int));
        lemma_seq_ne_at(spec_chord_formula(23), s, 3);
        assert(formula_index_from(s, 23) == Some(25int));
        lemma_seq_ne_at(spec_chord_formula(22), s, 0);
        assert(formula_index_from(s, 22) == Some(25int));
        lemma_seq_ne_at(spec_chord_formula(21), s, 0);
        assert(formula_index_from(s, 21) == Some(25int));
        lemma_seq_ne_at(spec_chord_formula(20), s, 0);
        assert(formula_index_from(s, 20) == Some(25int));
        lemma_seq_ne_at(spec_chord_formula(19), s, 0);
        assert(formula_index_from(s, 19) == Some(25int));
        lemma_seq_ne_at(spec_chord_formula(18), s, 0);
        assert(formula_index_from(s, 18) == Some(25int));
        lemma_seq_ne_at(spec_chord_formula(17), s, 0);
        assert(formula_index_from(s, 17) == Some(25int));
        lemma_seq_ne_at(spec_chord_formula(16), s, 0);
        assert(formula_index_from(s, 16) == Some(25int));
        lemma_seq_ne_at(spec_chord_formula(15), s, 0);
        assert(formula_index_from(s, 15) == Some(25int));
        lemma_seq_ne_at(spec_chord_formula(14), s, 0);
        assert(formula_index_from(s, 14) == Some(25int));
        lemma_seq_ne_at(spec_chord_formula(13), s, 0);
        assert(formula_index_from(s, 13) == Some(25int));
        lemma_seq_ne_at(spec_chord_formula(12), s, 0);
        assert(formula_index_from(s, 12) == Some(25int));
        lemma_seq_ne_at(spec_chord_formula(11), s, 0);
        assert(formula_index_from(s, 11) == Some(25int));
        lemma_seq_ne_at(spec_chord_formula(10), s, 0);
        assert(formula_index_from(s, 10) == Some(25int));
        lemma_seq_ne_at(spec_chord_formula(9), s, 0);
        assert(formula_index_from(s, 9) == Some(25int));
        lemma_seq_ne_at(spec_chord_formula(8), s, 0);
        assert(formula_index_from(s, 8) == Some(25int));
        lemma_seq_ne_at(spec_chord_formula(7), s, 0);
        assert(formula_index_from(s, 7) == Some(25int));
        lemma_seq_ne_at(spec_chord_formula(6), s, 0);
        assert(formula_index_from(s, 6) == Some(25int));
        lemma_seq_ne_at(spec_chord_formula(5), s, 0);
        assert(formula_index_from(s, 5) == Some(25int));
        lemma_seq_ne_at(spec_chord_formula(4), s, 0);
        assert(formula_index_from(s, 4) == Some(25int));
        lemma_seq_ne_at(spec_chord_formula(3), s, 0);
        assert(formula_index_from(s, 3) == Some(25int));
        lemma_seq_ne_at(spec_chord_formula(2), s, 0);
        assert(formula_index_from(s, 2) == Some(25int));
        lemma_seq_ne_at(spec_chord_formula(1), s, 0);
        assert(formula_index_from(s, 1) == Some(25int));
        lemma_seq_ne_at(spec_chord_formula(0), s, 0);
        assert(formula_index_from(s, 0) == Some(25int));
    }
    if k == 26 {
        let s = spec_chord_formula(26);
        assert(formula_index_from(s, 26) == Some(26int));
        lemma_seq_ne_at(spec_chord_formula(25), s, 2);
        assert(formula_index_from(s, 25) == Some(26int));
        lemma_seq_ne_at(spec_chord_formula(24), s, 3);
        assert(formula_index_from(s, 24) == Some(26int));
        lemma_seq_ne_at(spec_chord_formula(23), s, 2);
        assert(formula_index_from(s, 23) == Some(26int));
        lemma_seq_ne_at(spec_chord_formula(22), s, 0);
        assert(formula_index_from(s, 22) == Some(26int));
        lemma_seq_ne_at(spec_chord_formula(21), s, 0);
        assert(formula_index_from(s, 21) == Some(26int));
        lemma_seq_ne_at(spec_chord_formula(20), s, 0);
        assert(formula_index_from(s, 20) == Some(26int));
        lemma_seq_ne_at(spec_chord_formula(19), s, 0);
        assert(formula_index_from(s, 19) == Some(26int));
        lemma_seq_ne_at(spec_chord_formula(18), s, 0);
        assert(formula_index_from(s, 18) == Some(26int));
        lemma_seq_ne_at(spec_chord_formula(17), s, 0);
        assert(formula_index_from(s, 17) == Some(26int));
        lemma_seq_ne_at(spec_chord_formula(16), s, 0);
        assert(formula_index_from(s, 16) == Some(26int));
        lemma_seq_ne_at(spec_chord_formula(15), s, 0);
        assert(formula_index_from(s, 15) == Some(26int));
        lemma_seq_ne_at(spec_chord_formula(14), s, 0);
        assert(formula_index_from(s, 14) == Some(26int));
        lemma_seq_ne_at(spec_chord_formula(13), s, 0);
        assert(formula_index_from(s, 13) == Some(26int));
        lemma_seq_ne_at(spec_chord_formula(12), s, 0);
        assert(formula_index_from(s, 12) == Some(26int));
        lemma_seq_ne_at(spec_chord_formula(11), s, 0);
        assert(formula_index_from(s, 11) == Some(26int));
        lemma_seq_ne_at(spec_chord_formula(10), s, 0);
        assert(formula_index_from(s, 10) == Some(26int));
        lemma_seq_ne_at(spec_chord_formula(9), s, 0);
        assert(formula_index_from(s, 9) == Some(26int));
        lemma_seq_ne_at(spec_chord_formula(8), s, 0);
        assert(formula_index_from(s, 8) == Some(26int));
        lemma_seq_ne_at(spec_chord_formula(7), s, 0);
        assert(formula_index_from(s, 7) == Some(26int));
        lemma_seq_ne_at(spec_chord_formula(6), s, 0);
        assert(formula_index_from(s, 6) == Some(26int));
        lemma_seq_ne_at(spec_chord_formula(5), s, 0);
        assert(formula_index_from(s, 5) == Some(26int));
        lemma_seq_ne_at(spec_chord_formula(4), s, 0);
        assert(formula_index_from(s, 4) == Some(26int));
        lemma_seq_ne_at(spec_chord_formula(3), s, 0);
        assert(formula_index_from(s, 3) == Some(26int));
        lemma_seq_ne_at(spec_chord_formula(2), s, 0);
        assert(formula_index_from(s, 2) == Some(26int));
        lemma_seq_ne_at(spec_chord_formula(1), s, 0);
        assert(formula_index_from(s, 1) == Some(26int));
        lemma_seq_ne_at(spec_chord_formula(0), s, 0);
        assert(formula_index_from(s, 0) == Some(26int));
    }
}

proof fn lemma_pc_count_grows(h: HeldNotes, j: int, k: int)
    requires
        0 <= j <= k,
    ensures
        h.pc_count_upto(j) <= h.pc_count_upto(k),
    decreases k - j,
{
    if j < k {
        lemma_pc_count_grows(h, j, k - 1);
    }
}

/// Two distinct held pitch classes make more than one.
proof fn lemma_two_pitch_classes(h: HeldNotes, a: int, c: int)
    requires
        0 <= a < c < 12,
        h.pc_present(a),
        h.pc_present(c),
    ensures
        h.pc_count_upto(12) >= 2,
{
    lemma_pc_count_grows(h, 0, a);
    lemma_pc_count_grows(h, a + 1, c);
    lemma_pc_count_grows(h, c + 1, 12);
}

/// The intervals above `root` are ascending, below `k`, and held.
proof fn lemma_intervals_held(h: HeldNotes, root: int, k: int)
    requires
        0 <= k <= 12,
    ensures
        forall|i: int| 0 <= i < h.intervals_upto(root, k).len() ==> #[trigger] h.intervals_upto(root, k)[i] < k
            && h.pc_present((root + h.intervals_upto(root, k)[i]) % 12),
        forall|i: int, j: int| 0 <= i < j < h.intervals_upto(root, k).len()
            ==> #[trigger] h.intervals_upto(root, k)[i] < #[trigger] h.intervals_upto(root, k)[j],
    decreases k,
{
    if k > 0 {
        lemma_intervals_held(h, root, k - 1);
        let prev = h.intervals_upto(root, k - 1);
        let cur = h.intervals_upto(root, k);
        if h.pc_present((root + k - 1) % 12) {
            assert(cur == prev.push((k - 1) as u8));
            assert(((k - 1) as u8) as int == k - 1);
            assert forall|i: int| 0 <= i < cur.len() implies #[trigger] cur[i] < k && h.pc_present((root + cur[i]) % 12) by {
                if i < prev.len() {
                    assert(cur[i] == prev[i]);
                }
            }
            assert forall|i: int, j: int| 0 <= i < j < cur.len() implies #[trigger] cur[i] < #[trigger] cur[j] by {
                assert(cur[i] == prev[i]);
                if j < prev.len() {
                    assert(cur[j] == prev[j]);
                }
            }
        }
    }
}

/// A held set whose intervals above the bass form chord formula `k` is
/// named by the bass and the formula's suffix, with no slash.
#[verifier::rlimit(60)]
#[verifier::spinoff_prover]
proof fn lemma_root_position_name(h: HeldNotes, naming: NoteNaming, b: int, k: int)
    requires
        0 <= b < 12,
        0 <= k < CHORD_COUNT,
        h.intervals(b) == spec_chord_formula(k),
    ensures
        h.chord_text(naming, b) == spec_pitch_name(naming, b) + spec_chord_suffix(k),
{
    lemma_formula_found(k);
    lemma_intervals_held(h, b, 12);
    let ints = h.intervals(b);
    assert(ints.len() >= 3);
    assert(ints[0] < ints[1]);
    let p0 = (b + ints[0]) % 12;
    let p1 = (b + ints[1]) % 12;
    assert(p0 != p1);
    if p0 < p1 {
        lemma_two_pitch_classes(h, p0, p1);
    } else {
        lemma_two_pitch_classes(h, p1, p0);
    }
    assert(h.root_match(b) == Some((b, k)));
    assert(spec_pitch_name(naming, b) + spec_chord_suffix(k) + Seq::<char>::empty()
        =~= spec_pitch_name(naming, b) + spec_chord_suffix(k));
}

/// How a held chord in root position is named: whenever the held pitch
/// classes, measured in semitones above the bass, form one of the known
/// chords, the name is the bass's pitch name followed by that chord's
/// suffix; a minor triad (0, 3, 7) is `<root>m`, a major triad (0, 4, 7)
/// `<root> maj`, a dominant seventh (0, 4, 7, 10) `<root>7`.
#[verifier::rlimit(60)]
#[verifier::spinoff_prover]
pub proof fn lemma_root_position_chord_names(h: HeldNotes, naming: NoteNaming, b: int)
    requires
        0 <= b < 12,
    ensures
        h.intervals(b) == seq![0u8, 4, 7] ==> h.chord_text(naming, b) == spec_pitch_name(naming, b) + " maj"@,
        h.intervals(b) == seq![0u8, 3, 7] ==> h.chord_text(naming, b) == spec_pitch_name(naming, b) + "m"@,
        h.intervals(b) == seq![0u8, 3, 6] ==> h.chord_text(naming, b) == spec_pitch_name(naming, b) + "dim"@,
        h.intervals(b) == seq![0u8, 4, 8] ==> h.chord_text(naming, b) == spec_pitch_name(naming, b) + "aug"@,
        h.intervals(b) == seq![0u8, 2, 7] ==> h.chord_text(naming, b) == spec_pitch_name(naming, b) + "sus2"@,
        h.intervals(b) == seq![0u8, 5, 7] ==> h.chord_text(naming, b) == spec_pitch_name(naming, b) + "sus4"@,
        h.intervals(b) == seq![0u8, 4, 7, 10] ==> h.chord_text(naming, b) == spec_pitch_name(naming, b) + "7"@,
        h.intervals(b) == seq![0u8, 4, 7, 11] ==> h.chord_text(naming, b) == spec_pitch_name(naming, b) + "maj7"@,
        h.intervals(b) == seq![0u8, 3, 7, 10] ==> h.chord_text(naming, b) == spec_pitch_name(naming, b) + "m7"@,
        h.intervals(b) == seq![0u8, 3, 7, 11] ==> h.chord_text(naming, b) == spec_pitch_name(naming, b) + "mMaj7"@,
        h.intervals(b) == seq![0u8, 3, 6, 9] ==> h.chord_text(naming, b) == spec_pitch_name(naming, b) + "dim7"@,
        h.intervals(b) == seq![0u8, 3, 6, 10] ==> h.chord_text(naming, b) == spec_pitch_name(naming, b) + "m7b5"@,
        h.intervals(b) == seq![0u8, 4, 7, 9] ==> h.chord_text(naming, b) == spec_pitch_name(naming, b) + "6"@,
        h.intervals(b) == seq![0u8, 3, 7, 9] ==> h.chord_text(naming, b) == spec_pitch_name(naming, b) + "m6"@,
        h.intervals(b) == seq![0u8, 2, 7, 10] ==> h.chord_text(naming, b) == spec_pitch_name(naming, b) + "7sus2"@,
        h.intervals(b) == seq![0u8, 2, 7, 11] ==> h.chord_text(naming, b) == spec_pitch_name(naming, b) + "maj7sus2"@,
        h.intervals(b) == seq![0u8, 5, 7, 10] ==> h.chord_text(naming, b) == spec_pitch_name(naming, b) + "7sus4"@,
        h.intervals(b) == seq![0u8, 5, 7, 11] ==> h.chord_text(naming, b) == spec_pitch_name(naming, b) + "maj7sus4"@,
        h.intervals(b) == seq![0u8, 2, 4, 7] ==> h.chord_text(naming, b) == spec_pitch_name(naming, b) + "add9"@,
        h.intervals(b) == seq![0u8, 2, 3, 7] ==> h.chord_text(naming, b) == spec_pitch_name(naming, b) + "madd9"@,
        h.intervals(b) == seq![0u8, 2, 4, 7, 10] ==> h.chord_text(naming, b) == spec_pitch_name(naming, b) + "9"@,
        h.intervals(b) == seq![0u8, 2, 4, 7, 11] ==> h.chord_text(naming, b) == spec_pitch_name(naming, b) + "maj9"@,
        h.intervals(b) == seq![0u8, 2, 3, 7, 10] ==> h.chord_text(naming, b) == spec_pitch_name(naming, b) + "m9"@,
        h.intervals(b) == seq![0u8, 2, 4, 5, 7, 10] ==> h.chord_text(naming, b) == spec_pitch_name(naming, b) + "11"@,
        h.intervals(b) == seq![0u8, 2, 3, 5, 7, 10] ==> h.chord_text(naming, b) == spec_pitch_name(naming, b) + "m11"@,
        h.intervals(b) == seq![0u8, 2, 4, 7, 9, 10] ==> h.chord_text(naming, b) == spec_pitch_name(naming, b) + "13"@,
        h.intervals(b) == seq![0u8, 2, 3, 7, 9, 10] ==> h.chord_text(naming, b) == spec_pitch_name(naming, b) + "m13"@,
{
    if h.intervals(b) == seq![0u8, 4, 7] {
        assert(spec_chord_formula(0) =~= seq![0u8, 4, 7]);
        lemma_root_position_name(h, naming, b, 0);
    }
    if h.intervals(b) == seq![0u8, 3, 7] {
        assert(spec_chord_formula(1) =~= seq![0u8, 3, 7]);
        lemma_root_position_name(h, naming, b, 1);
    }
    if h.intervals(b) == seq![0u8, 3, 6] {
        assert(spec_chord_formula(2) =~= seq![0u8, 3, 6]);
        lemma_root_position_name(h, naming, b, 2);
    }
    if h.intervals(b) == seq![0u8, 4, 8] {
        assert(spec_chord_formula(3) =~= seq![0u8, 4, 8]);
        lemma_root_position_name(h, naming, b, 3);
    }
    if h.intervals(b) == seq![0u8, 2, 7] {
        assert(spec_chord_formula(4) =~= seq![0u8, 2, 7]);
        lemma_root_position_name(h, naming, b, 4);
    }
    if h.intervals(b) == seq![0u8, 5, 7] {
        assert(spec_chord_formula(5) =~= seq![0u8, 5, 7]);
        lemma_root_position_name(h, naming, b, 5);
    }
    if h.intervals(b) == seq![0u8, 4, 7, 10] {
        assert(spec_chord_formula(6) =~= seq![0u8, 4, 7, 10]);
        lemma_root_position_name(h, naming, b, 6);
    }
    if h.intervals(b) == seq![0u8, 4, 7, 11] {
        assert(spec_chord_formula(7) =~= seq![0u8, 4, 7, 11]);
        lemma_root_position_name(h, naming, b, 7);
    }
    if h.intervals(b) == seq![0u8, 3, 7, 10] {
        assert(spec_chord_formula(8) =~= seq![0u8, 3, 7, 10]);
        lemma_root_position_name(h, naming, b, 8);
    }
    if h.intervals(b) == seq![0u8, 3, 7, 11] {
        assert(spec_chord_formula(9) =~= seq![0u8, 3, 7, 11]);
        lemma_root_position_name(h, naming, b, 9);
    }
    if h.intervals(b) == seq![0u8, 3, 6, 9] {
        assert(spec_chord_formula(10) =~= seq![0u8, 3, 6, 9]);
        lemma_root_position_name(h, naming, b, 10);
    }
    if h.intervals(b) == seq![0u8, 3, 6, 10] {
        assert(spec_chord_formula(11) =~= seq![0u8, 3, 6, 10]);
        lemma_root_position_name(h, naming, b, 11);
    }
    if h.intervals(b) == seq![0u8, 4, 7, 9] {
        assert(spec_chord_formula(12) =~= seq![0u8, 4, 7, 9]);
        lemma_root_position_name(h, naming, b, 12);
    }
    if h.intervals(b) == seq![0u8, 3, 7, 9] {
        assert(spec_chord_formula(13) =~= seq![0u8, 3, 7, 9]);
        lemma_root_position_name(h, naming, b, 13);
    }
    if h.intervals(b) == seq![0u8, 2, 7, 10] {
        assert(spec_chord_formula(14) =~= seq![0u8, 2, 7, 10]);
        lemma_root_position_name(h, naming, b, 14);
    }
    if h.intervals(b) == seq![0u8, 2, 7, 11] {
        assert(spec_chord_formula(15) =~= seq![0u8, 2, 7, 11]);
        lemma_root_position_name(h, naming, b, 15);
    }
    if h.intervals(b) == seq![0u8, 5, 7, 10] {
        assert(spec_chord_formula(16) =~= seq![0u8, 5, 7, 10]);
        lemma_root_position_name(h, naming, b, 16);
    }
    if h.intervals(b) == seq![0u8, 5, 7, 11] {
        assert(spec_chord_formula(17) =~= seq![0u8, 5, 7, 11]);
        lemma_root_position_name(h, naming, b, 17);
    }
    if h.intervals(b) == seq![0u8, 2, 4, 7] {
        assert(spec_chord_formula(18) =~= seq![0u8, 2, 4, 7]);
        lemma_root_position_name(h, naming, b, 18);
    }
    if h.intervals(b) == seq![0u8, 2, 3, 7] {
        assert(spec_chord_formula(19) =~= seq![0u8, 2, 3, 7]);
        lemma_root_position_name(h, naming, b, 19);
    }
    if h.intervals(b) == seq![0u8, 2, 4, 7, 10] {
        assert(spec_chord_formula(20) =~= seq![0u8, 2, 4, 7, 10]);
        lemma_root_position_name(h, naming, b, 20);
    }
    if h.intervals(b) == seq![0u8, 2, 4, 7, 11] {
        assert(spec_chord_formula(21) =~= seq![0u8, 2, 4, 7, 11]);
        lemma_root_position_name(h, naming, b, 21);
    }
    if h.intervals(b) == seq![0u8, 2, 3, 7, 10] {
        assert(spec_chord_formula(22) =~= seq![0u8, 2, 3, 7, 10]);
        lemma_root_position_name(h, naming, b, 22);
    }
    if h.intervals(b) == seq![0u8, 2, 4, 5, 7, 10] {
        assert(spec_chord_formula(23) =~= seq![0u8, 2, 4, 5, 7, 10]);
        lemma_root_position_name(h, naming, b, 23);
    }
    if h.intervals(b) == seq![0u8, 2, 3, 5, 7, 10] {
        assert(spec_chord_formula(24) =~= seq![0u8, 2, 3, 5, 7, 10]);
        lemma_root_position_name(h, naming, b, 24);
    }
    if h.intervals(b) == seq![0u8, 2, 4, 7, 9, 10] {
        assert(spec_chord_formula(25) =~= seq![0u8, 2, 4, 7, 9, 10]);
        lemma_root_position_name(h, naming, b, 25);
    }
    if h.intervals(b) == seq![0u8, 2, 3, 7, 9, 10] {
        assert(spec_chord_formula(26) =~= seq![0u8, 2, 3, 7, 9, 10]);
        lemma_root_position_name(h, naming, b, 26);
    }
}

/// A major and a minor triad over the same bass are never given the same
/// name.
pub proof fn lemma_major_and_minor_named_apart(major: HeldNotes, minor: HeldNotes, naming: NoteNaming, b: int)
    requires
        0 <= b < 12,
        major.intervals(b) == seq![0u8, 4, 7],
        minor.intervals(b) == seq![0u8, 3, 7],
    ensures
        major.chord_text(naming, b) != minor.chord_text(naming, b),
        minor.chord_text(naming, b) == spec_pitch_name(naming, b) + "m"@,
{
    lemma_root_position_chord_names(major, naming, b);
    lemma_root_position_chord_names(minor, naming, b);
    reveal_strlit(" maj");
    reveal_strlit("m");
    let n = spec_pitch_name(naming, b);
    let x = n + " maj"@;
    let y = n + "m"@;
    assert(x.len() != y.len());
}



/// Pitch names: C, C#, D, D#, E, F, F#, G, G#, A for pitch classes 0 to 9;
/// 10 and 11 are B and H in German naming, A# and B in English.
pub proof fn lemma_pitch_names(naming: NoteNaming)
    ensures
        spec_pitch_name(naming, 0) == "C"@,
        spec_pitch_name(naming, 1) == "C#"@,
        spec_pitch_name(naming, 2) == "D"@,
        spec_pitch_name(naming, 3) == "D#"@,
        spec_pitch_name(naming, 4) == "E"@,
        spec_pitch_name(naming, 5) == "F"@,
        spec_pitch_name(naming, 6) == "F#"@,
        spec_pitch_name(naming, 7) == "G"@,
        spec_pitch_name(naming, 8) == "G#"@,
        spec_pitch_name(naming, 9) == "A"@,
        spec_pitch_name(NoteNaming::German, 10) == "B"@ && spec_pitch_name(NoteNaming::German, 11) == "H"@,
        spec_pitch_name(NoteNaming::English, 10) == "A#"@ && spec_pitch_name(NoteNaming::English, 11) == "B"@,
{
}

/// Interval names above the bass, by semitones: 1, b2, 2, m3, 3, 4, b5,
/// 5, #5, 6, b7, 7.
pub proof fn lemma_interval_names()
    ensures
        spec_interval_name(0) == "1"@,
        spec_interval_name(1) == "b2"@,
        spec_interval_name(2) == "2"@,
        spec_interval_name(3) == "m3"@,
        spec_interval_name(4) == "3"@,
        spec_interval_name(5) == "4"@,
        spec_interval_name(6) == "b5"@,
        spec_interval_name(7) == "5"@,
        spec_interval_name(8) == "#5"@,
        spec_interval_name(9) == "6"@,
        spec_interval_name(10) == "b7"@,
        spec_interval_name(11) == "7"@,
{
}

} // verus!
