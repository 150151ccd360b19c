//! Reusable four-lane drum patterns, stored independently from projects, in
//! a line-based text format.
use vstd::prelude::*;
use std::path::PathBuf;
use crate::sequencer::{empty_cell, Cell, Command, Note, LANES_PER_PAGE};
use crate::text::{
    lines_of, spec_lines, int_error, int_error_text, chars_eq, chars_of, chars_views, decimal, owned, parse_unsigned_chars, push_decimal,
    push_str, split_all_chars, split_once_chars, string_from_chars, strip_prefix_chars, sub_chars,
    trim_chars,
};

verus! {

/// The newest file format version this library reads and writes.
pub const VERSION: u8 = 1;
/// The largest pattern file accepted, in bytes.
pub const MAX_BYTES: usize = 262144;

#[verifier::external_type_specification]
#[verifier::external_body]
pub struct ExPathBuf(PathBuf);

/// A named drum groove of up to 256 rows of four lanes.
#[derive(Clone, Debug, PartialEq, Eq)]
pub struct DrumPattern {
    pub name: String,
    pub genre: String,
    pub meter: u8,
    pub rows: Vec<[Cell; LANES_PER_PAGE]>,
}

/// A pattern as mathematical values.
pub struct PatternModel {
    pub name: Seq<char>,
    pub genre: Seq<char>,
    pub meter: u8,
    pub rows: Seq<Seq<Cell>>,
}

impl View for DrumPattern {
    type V = PatternModel;

    open spec fn view(&self) -> PatternModel {
        PatternModel {
            name: self.name@,
            genre: self.genre@,
            meter: self.meter,
            rows: self.rows@.map_values(|r: [Cell; LANES_PER_PAGE]| r@),
        }
    }
}

/// A pattern offered for loading: its summary, where it lives, and the
/// pattern itself when it came from a bundled catalog.
#[derive(Debug)]
pub struct Entry {
    pub name: String,
    pub genre: String,
    pub meter: u8,
    pub rows: usize,
    pub path: PathBuf,
    pub user: bool,
    pub bundled: Option<DrumPattern>,
}

// ---------------------------------------------------------------------------
// Validation
// ---------------------------------------------------------------------------

/// A control character (Unicode general category Cc), as `char::is_control`.
pub open spec fn is_control(c: char) -> bool {
    (c as u32) < 0x20 || (0x7f <= (c as u32) && (c as u32) <= 0x9f)
}

pub open spec fn has_control(s: Seq<char>) -> bool {
    exists|i: int| 0 <= i < s.len() && is_control(#[trigger] s[i])
}

pub open spec fn all_cells_valid(rows: Seq<Seq<Cell>>) -> bool {
    forall|r: int, l: int| 0 <= r < rows.len() && 0 <= l < rows[r].len() ==> (#[trigger] rows[r][l]).spec_valid()
}

pub open spec fn name_error() -> Seq<char> {
    "drum pattern name must contain 1..=64 printable characters"@
}

pub open spec fn genre_error() -> Seq<char> {
    "drum pattern genre must contain 1..=24 printable characters"@
}

pub open spec fn meter_error() -> Seq<char> {
    "drum pattern meter must be 3/4 or 4/4"@
}

pub open spec fn rows_error() -> Seq<char> {
    "drum pattern needs 1..=256 rows"@
}

/// Why a pattern is invalid, `None` when it is valid: a name of 1 to 64
/// and a genre of 1 to 24 characters without control characters, meter 3
/// or 4, 1 to 256 rows, and cells in MIDI range.
pub open spec fn spec_pattern_error(p: PatternModel) -> Option<Seq<char>> {
    match spec_summary_error(p) {
        Some(e) => Some(e),
        None => if !all_cells_valid(p.rows) {
            Some("tracker cell value outside MIDI range"@)
        } else {
            None
        },
    }
}

/// The checks of `spec_pattern_error` before the cells.
pub open spec fn spec_summary_error(p: PatternModel) -> Option<Seq<char>> {
    if p.name.len() == 0 || p.name.len() > 64 || has_control(p.name) {
        Some(name_error())
    } else if p.genre.len() == 0 || p.genre.len() > 24 || has_control(p.genre) {
        Some(genre_error())
    } else if p.meter != 3 && p.meter != 4 {
        Some(meter_error())
    } else if p.rows.len() == 0 || p.rows.len() > 256 {
        Some(rows_error())
    } else {
        None
    }
}

fn is_control_exec(c: char) -> (r: bool)
    ensures
        r == is_control(c),
{
    let code = c as u32;
    code < 0x20 || (0x7f <= code && code <= 0x9f)
}

/// Whether `s` has between 1 and `max` characters, none of them a control
/// character.
fn printable_within(s: &str, max: usize) -> (r: bool)
    ensures
        r == (s@.len() > 0 && s@.len() <= max && !has_control(s@)),
{
    let v = chars_of(s);
    if v.len() == 0 || v.len() > max {
        return false;
    }
    let mut i: usize = 0;
    while i < v.len()
        invariant
            i <= v.len(),
            v@ == s@,
            forall|t: int| 0 <= t < i ==> !is_control(#[trigger] v@[t]),
        decreases v.len() - i,
    {
        if is_control_exec(v[i]) {
            assert(is_control(s@[i as int]));
            return false;
        }
        i += 1;
    }
    true
}

/// Checks a pattern (see `spec_pattern_error`).
pub fn validate(pattern: &DrumPattern) -> (r: Result<(), String>)
    ensures
        match r {
            Ok(()) => spec_pattern_error(pattern@) is None,
            Err(e) => spec_pattern_error(pattern@) == Some(e@),
        },
{
    if !printable_within(pattern.name.as_str(), 64) {
        return Err(owned("drum pattern name must contain 1..=64 printable characters"));
    }
    if !printable_within(pattern.genre.as_str(), 24) {
        return Err(owned("drum pattern genre must contain 1..=24 printable characters"));
    }
    if pattern.meter != 3 && pattern.meter != 4 {
        return Err(owned("drum pattern meter must be 3/4 or 4/4"));
    }
    if pattern.rows.len() == 0 || pattern.rows.len() > 256 {
        return Err(owned("drum pattern needs 1..=256 rows"));
    }
    let ghost rows = pattern@.rows;
    let mut r: usize = 0;
    while r < pattern.rows.len()
        invariant
            r <= pattern.rows.len(),
            rows == pattern@.rows,
            rows.len() == pattern.rows.len(),
            spec_summary_error(pattern@) is None,
            forall|a: int, l: int| 0 <= a < r && 0 <= l < rows[a].len() ==> (#[trigger] rows[a][l]).spec_valid(),
        decreases pattern.rows.len() - r,
    {
        let cells = pattern.rows[r];
        assert(rows[r as int] == cells@);
        let mut l: usize = 0;
        while l < LANES_PER_PAGE
            invariant
                r < pattern.rows.len(),
                l <= LANES_PER_PAGE,
                rows == pattern@.rows,
                rows.len() == pattern.rows.len(),
                spec_summary_error(pattern@) is None,
                rows[r as int] == cells@,
                cells@.len() == LANES_PER_PAGE,
                forall|a: int, j: int| 0 <= a < r && 0 <= j < rows[a].len() ==> (#[trigger] rows[a][j]).spec_valid(),
                forall|j: int| 0 <= j < l ==> (#[trigger] rows[r as int][j]).spec_valid(),
            decreases LANES_PER_PAGE - l,
        {
            match cells[l].validate() {
                Ok(()) => {},
                Err(e) => {
                    assert(!rows[r as int][l as int].spec_valid());
                    assert(!all_cells_valid(rows));
                    assert(e@ == "tracker cell value outside MIDI range"@);
                    return Err(e);
                },
            }
            l += 1;
        }
        r += 1;
    }
    Ok(())
}

} // verus!

verus! {

// ---------------------------------------------------------------------------
// Encoding
// ---------------------------------------------------------------------------

pub open spec fn note_text(n: Note) -> Seq<char> {
    match n {
        Note::Empty => "-"@,
        Note::On(v) => decimal(v as nat),
        Note::Off => "off"@,
    }
}

pub open spec fn optional_text(v: Option<u8>) -> Seq<char> {
    match v {
        None => "-"@,
        Some(x) => decimal(x as nat),
    }
}

pub open spec fn command_text(c: Command) -> Seq<char> {
    match c {
        Command::Blank => "-"@,
        Command::Cut(v) => "C"@ + decimal(v as nat),
        Command::Delay(v) => "D"@ + decimal(v as nat),
        Command::Retrigger(v) => "R"@ + decimal(v as nat),
        Command::Tempo(v) => "T"@ + decimal(v as nat),
    }
}

/// The fields of a cell line: row, lane, note, velocity, program, gate and
/// command.
pub open spec fn cell_fields(row: nat, lane: nat, c: Cell) -> Seq<Seq<char>> {
    seq![
        decimal(row),
        decimal(lane),
        note_text(c.note),
        optional_text(c.velocity),
        optional_text(c.program),
        optional_text(c.gate),
        command_text(c.command),
    ]
}

/// The value of a cell line: its fields separated by `|`.
pub open spec fn cell_value(row: nat, lane: nat, c: Cell) -> Seq<char> {
    crate::text::join_with(cell_fields(row, lane, c), "|"@)
}

/// A `cell=` line.
pub open spec fn cell_line(row: nat, lane: nat, c: Cell) -> Seq<char> {
    "cell="@ + cell_value(row, lane, c)
}

/// The `cell=` lines of the non-empty cells among the first `j` lanes of a row.
pub open spec fn row_cell_lines(row: nat, cells: Seq<Cell>, j: int) -> Seq<Seq<char>>
    decreases j,
{
    if j <= 0 {
        Seq::empty()
    } else if cells[j - 1] == empty_cell() {
        row_cell_lines(row, cells, j - 1)
    } else {
        row_cell_lines(row, cells, j - 1).push(cell_line(row, (j - 1) as nat, cells[j - 1]))
    }
}

/// The `cell=` lines of the first `k` rows, row by row, lane by lane.
pub open spec fn cell_lines(rows: Seq<Seq<Cell>>, k: int) -> Seq<Seq<char>>
    decreases k,
{
    if k <= 0 {
        Seq::empty()
    } else {
        cell_lines(rows, k - 1) + row_cell_lines((k - 1) as nat, rows[k - 1], rows[k - 1].len() as int)
    }
}

/// The header lines: format and version, name, genre, meter, row count.
pub open spec fn header_lines(p: PatternModel) -> Seq<Seq<char>> {
    seq![
        "SHR-DRUM-PATTERN 1"@,
        "name="@ + p.name,
        "genre="@ + p.genre,
        "meter="@ + decimal(p.meter as nat),
        "rows="@ + decimal(p.rows.len()),
    ]
}

/// All lines of a pattern file.
pub open spec fn encode_lines(p: PatternModel) -> Seq<Seq<char>> {
    header_lines(p) + cell_lines(p.rows, p.rows.len() as int)
}

/// Lines each followed by a newline.
pub open spec fn terminated(ls: Seq<Seq<char>>) -> Seq<char>
    decreases ls.len(),
{
    if ls.len() == 0 {
        Seq::empty()
    } else {
        terminated(ls.drop_last()) + ls.last() + "\n"@
    }
}

/// The file text of a pattern, or why the pattern is invalid.
pub open spec fn spec_encode(p: PatternModel) -> Result<Seq<char>, Seq<char>> {
    match spec_pattern_error(p) {
        Some(e) => Err(e),
        None => Ok(terminated(encode_lines(p))),
    }
}

pub proof fn lemma_terminated_concat(a: Seq<Seq<char>>, b: Seq<Seq<char>>)
    ensures
        terminated(a + b) == terminated(a) + terminated(b),
    decreases b.len(),
{
    if b.len() == 0 {
        assert(a + b =~= a);
        assert(terminated(b) =~= Seq::<char>::empty());
        assert(terminated(a) + terminated(b) =~= terminated(a));
    } else {
        lemma_terminated_concat(a, b.drop_last());
        assert((a + b).drop_last() =~= a + b.drop_last());
        assert(terminated(a) + (terminated(b.drop_last()) + b.last() + "\n"@) =~= terminated(a) + terminated(b.drop_last()) + b.last() + "\n"@);
    }
}

fn push_optional(out: &mut String, v: Option<u8>)
    ensures
        final(out)@ == old(out)@ + optional_text(v),
{
    match v {
        None => push_str(out, "-"),
        Some(x) => push_decimal(out, x as u64),
    }
}

fn push_note(out: &mut String, n: Note)
    ensures
        final(out)@ == old(out)@ + note_text(n),
{
    match n {
        Note::Empty => push_str(out, "-"),
        Note::On(v) => push_decimal(out, v as u64),
        Note::Off => push_str(out, "off"),
    }
}

fn push_command(out: &mut String, c: Command)
    ensures
        final(out)@ == old(out)@ + command_text(c),
{
    match c {
        Command::Blank => push_str(out, "-"),
        Command::Cut(v) => {
            push_str(out, "C");
            push_decimal(out, v as u64);
        },
        Command::Delay(v) => {
            push_str(out, "D");
            push_decimal(out, v as u64);
        },
        Command::Retrigger(v) => {
            push_str(out, "R");
            push_decimal(out, v as u64);
        },
        Command::Tempo(v) => {
            push_str(out, "T");
            push_decimal(out, v as u64);
        },
    }
}

/// Appends a line and its newline.
fn push_line(text: &mut String, line: &str)
    ensures
        final(text)@ == old(text)@ + line@ + "\n"@,
{
    push_str(text, line);
    push_str(text, "\n");
}

proof fn lemma_join_push(ws: Seq<Seq<char>>, w: Seq<char>, sep: Seq<char>)
    requires
        ws.len() >= 1,
    ensures
        crate::text::join_with(ws.push(w), sep) == crate::text::join_with(ws, sep) + sep + w,
{
    assert(ws.push(w).drop_last() =~= ws);
}

/// One `cell=` line.
fn cell_line_text(row: usize, lane: usize, c: Cell) -> (r: String)
    ensures
        r@ == cell_line(row as nat, lane as nat, c),
{
    let ghost fs = cell_fields(row as nat, lane as nat, c);
    let mut value = String::new();
    push_decimal(&mut value, row as u64);
    proof {
        assert(value@ =~= fs[0]);
        assert(crate::text::join_with(fs.take(1), "|"@) == fs[0]);
    }
    push_str(&mut value, "|");
    push_decimal(&mut value, lane as u64);
    proof {
        lemma_join_push(fs.take(1), fs[1], "|"@);
        assert(fs.take(2) =~= fs.take(1).push(fs[1]));
    }
    push_str(&mut value, "|");
    push_note(&mut value, c.note);
    proof {
        lemma_join_push(fs.take(2), fs[2], "|"@);
        assert(fs.take(3) =~= fs.take(2).push(fs[2]));
    }
    push_str(&mut value, "|");
    push_optional(&mut value, c.velocity);
    proof {
        lemma_join_push(fs.take(3), fs[3], "|"@);
        assert(fs.take(4) =~= fs.take(3).push(fs[3]));
    }
    push_str(&mut value, "|");
    push_optional(&mut value, c.program);
    proof {
        lemma_join_push(fs.take(4), fs[4], "|"@);
        assert(fs.take(5) =~= fs.take(4).push(fs[4]));
    }
    push_str(&mut value, "|");
    push_optional(&mut value, c.gate);
    proof {
        lemma_join_push(fs.take(5), fs[5], "|"@);
        assert(fs.take(6) =~= fs.take(5).push(fs[5]));
    }
    push_str(&mut value, "|");
    push_command(&mut value, c.command);
    proof {
        lemma_join_push(fs.take(6), fs[6], "|"@);
        assert(fs.take(7) =~= fs.take(6).push(fs[6]));
        assert(fs.take(7) =~= fs);
    }
    let mut out = owned("cell=");
    push_str(&mut out, value.as_str());
    out
}

pub proof fn lemma_terminated_push(ls: Seq<Seq<char>>, l: Seq<char>)
    ensures
        terminated(ls.push(l)) == terminated(ls) + l + "\n"@,
{
    assert(ls.push(l).drop_last() =~= ls);
}

/// The file text of a valid pattern; the validation error otherwise.
pub fn encode(pattern: &DrumPattern) -> (r: Result<String, String>)
    ensures
        match r {
            Ok(text) => spec_encode(pattern@) == Ok::<Seq<char>, Seq<char>>(text@),
            Err(e) => spec_encode(pattern@) == Err::<Seq<char>, Seq<char>>(e@),
        },
{
    match validate(pattern) {
        Ok(()) => {},
        Err(e) => {
            return Err(e);
        },
    }
    let ghost p = pattern@;
    let ghost h = header_lines(p);
    let mut text = String::new();
    push_line(&mut text, "SHR-DRUM-PATTERN 1");
    proof {
        lemma_terminated_push(Seq::empty(), h[0]);
        assert(h.take(1) =~= Seq::<Seq<char>>::empty().push(h[0]));
    }
    let mut line = owned("name=");
    push_str(&mut line, pattern.name.as_str());
    push_line(&mut text, line.as_str());
    proof {
        lemma_terminated_push(h.take(1), h[1]);
        assert(h.take(2) =~= h.take(1).push(h[1]));
    }
    let mut line = owned("genre=");
    push_str(&mut line, pattern.genre.as_str());
    push_line(&mut text, line.as_str());
    proof {
        lemma_terminated_push(h.take(2), h[2]);
        assert(h.take(3) =~= h.take(2).push(h[2]));
    }
    let mut line = owned("meter=");
    push_decimal(&mut line, pattern.meter as u64);
    push_line(&mut text, line.as_str());
    proof {
        lemma_terminated_push(h.take(3), h[3]);
        assert(h.take(4) =~= h.take(3).push(h[3]));
    }
    let mut line = owned("rows=");
    push_decimal(&mut line, pattern.rows.len() as u64);
    push_line(&mut text, line.as_str());
    proof {
        lemma_terminated_push(h.take(4), h[4]);
        assert(h.take(5) =~= h.take(4).push(h[4]));
        assert(h.take(5) =~= h);
        assert(cell_lines(p.rows, 0) =~= Seq::<Seq<char>>::empty());
        assert(terminated(cell_lines(p.rows, 0)) =~= Seq::<char>::empty());
        assert(text@ =~= terminated(header_lines(p)) + terminated(cell_lines(p.rows, 0)));
    }
    let mut r: usize = 0;
    while r < pattern.rows.len()
        invariant
            r <= pattern.rows.len(),
            p == pattern@,
            p.rows.len() == pattern.rows.len(),
            text@ == terminated(header_lines(p)) + terminated(cell_lines(p.rows, r as int)),
        decreases pattern.rows.len() - r,
    {
        let cells = pattern.rows[r];
        assert(p.rows[r as int] == cells@);
        let ghost before = text@;
        let mut l: usize = 0;
        while l < LANES_PER_PAGE
            invariant
                r < pattern.rows.len(),
                l <= LANES_PER_PAGE,
                p == pattern@,
                p.rows[r as int] == cells@,
                cells@.len() == LANES_PER_PAGE,
                text@ == before + terminated(row_cell_lines(r as nat, cells@, l as int)),
            decreases LANES_PER_PAGE - l,
        {
            let cell = cells[l];
            if !(cell == Cell::empty()) {
                let line = cell_line_text(r, l, cell);
                push_line(&mut text, line.as_str());
                proof {
                    lemma_terminated_push(row_cell_lines(r as nat, cells@, l as int), line@);
                }
            }
            l += 1;
        }
        proof {
            lemma_terminated_concat(cell_lines(p.rows, r as int), row_cell_lines(r as nat, cells@, LANES_PER_PAGE as int));
        }
        r += 1;
    }
    proof {
        lemma_terminated_concat(header_lines(p), cell_lines(p.rows, p.rows.len() as int));
    }
    Ok(text)
}

} // verus!

verus! {

// ---------------------------------------------------------------------------
// Decoding
// ---------------------------------------------------------------------------

/// Whether a line carries content: not blank and not a `#` comment.
pub open spec fn is_content(l: Seq<char>) -> bool {
    crate::text::trim(l).len() != 0 && !(l.len() > 0 && l[0] == '#')
}

pub open spec fn content_lines(ls: Seq<Seq<char>>) -> Seq<Seq<char>>
    decreases ls.len(),
{
    if ls.len() == 0 {
        Seq::empty()
    } else if is_content(ls.last()) {
        content_lines(ls.drop_last()).push(ls.last())
    } else {
        content_lines(ls.drop_last())
    }
}

/// The fields read so far.
pub struct FieldsModel {
    pub name: Option<Seq<char>>,
    pub genre: Option<Seq<char>>,
    pub meter: Option<u8>,
    pub rows: Option<nat>,
    pub cells: Seq<Seq<char>>,
}

pub open spec fn no_fields() -> FieldsModel {
    FieldsModel { name: None, genre: None, meter: None, rows: None, cells: Seq::empty() }
}

/// Reading one `key=value` line.
pub open spec fn field_step(f: FieldsModel, line: Seq<char>) -> Result<FieldsModel, Seq<char>> {
    match crate::text::split_once(line, '=') {
        None => Err("invalid drum pattern line"@),
        Some((key, value)) => if key == "name"@ && f.name is None {
            Ok(FieldsModel { name: Some(value), ..f })
        } else if key == "genre"@ && f.genre is None {
            Ok(FieldsModel { genre: Some(value), ..f })
        } else if key == "meter"@ && f.meter is None {
            match crate::text::parse_unsigned(value, 255) {
                Some(n) => Ok(FieldsModel { meter: Some(n as u8), ..f }),
                None => Err(int_error_text(value, 255)),
            }
        } else if key == "rows"@ && f.rows is None {
            match crate::text::parse_unsigned(value, usize::MAX as int) {
                Some(n) => Ok(FieldsModel { rows: Some(n), ..f }),
                None => Err(int_error_text(value, usize::MAX as int)),
            }
        } else if key == "cell"@ {
            Ok(FieldsModel { cells: f.cells.push(value), ..f })
        } else if key == "name"@ || key == "genre"@ || key == "meter"@ || key == "rows"@ {
            Err("duplicate drum pattern field "@ + key)
        } else {
            Err("unknown drum pattern field "@ + key)
        },
    }
}

/// Reading the first `k` content lines, stopping at the first error.
pub open spec fn fold_fields(ls: Seq<Seq<char>>, k: int) -> Result<FieldsModel, Seq<char>>
    decreases k,
{
    if k <= 0 {
        Ok(no_fields())
    } else {
        match fold_fields(ls, k - 1) {
            Err(e) => Err(e),
            Ok(f) => field_step(f, ls[k - 1]),
        }
    }
}

pub open spec fn parse_note_spec(v: Seq<char>) -> Result<Note, Seq<char>> {
    if v == "-"@ {
        Ok(Note::Empty)
    } else if v == "off"@ {
        Ok(Note::Off)
    } else {
        match crate::text::parse_unsigned(v, 255) {
            None => Err(int_error_text(v, 255)),
            Some(n) => if n > 127 {
                Err("drum note outside MIDI range"@)
            } else {
                Ok(Note::On(n as u8))
            },
        }
    }
}

pub open spec fn parse_optional_spec(v: Seq<char>) -> Result<Option<u8>, Seq<char>> {
    if v == "-"@ {
        Ok(None)
    } else {
        match crate::text::parse_unsigned(v, 255) {
            None => Err(int_error_text(v, 255)),
            Some(n) => if n > 127 {
                Err("drum cell value outside MIDI range"@)
            } else {
                Ok(Some(n as u8))
            },
        }
    }
}

/// Reading a command field; `None` where its first byte is not a whole
/// character (an empty field, or one starting with a non-ASCII character),
/// which the format cannot split.
pub open spec fn parse_command_spec(v: Seq<char>) -> Option<Result<Command, Seq<char>>> {
    if v == "-"@ {
        Some(Ok(Command::Blank))
    } else if v.len() == 0 || (v[0] as u32) >= 0x80 {
        None
    } else {
        let number = crate::text::parse_unsigned(v.subrange(1, v.len() as int), 255);
        if v[0] == 'C' || v[0] == 'D' || v[0] == 'R' || v[0] == 'T' {
            match number {
                None => Some(Err(int_error_text(v.subrange(1, v.len() as int), 255))),
                Some(n) => Some(Ok(
                    if v[0] == 'C' {
                        Command::Cut(n as u8)
                    } else if v[0] == 'D' {
                        Command::Delay(n as u8)
                    } else if v[0] == 'R' {
                        Command::Retrigger(n as u8)
                    } else {
                        Command::Tempo(n as u8)
                    },
                )),
            }
        } else {
            Some(Err("invalid drum command"@))
        }
    }
}

/// The cell a cell line's fields after row and lane describe.
pub open spec fn parse_cell_spec(fields: Seq<Seq<char>>) -> Option<Result<Cell, Seq<char>>> {
    match parse_note_spec(fields[2]) {
        Err(e) => Some(Err(e)),
        Ok(note) => match parse_optional_spec(fields[3]) {
            Err(e) => Some(Err(e)),
            Ok(velocity) => match parse_optional_spec(fields[4]) {
                Err(e) => Some(Err(e)),
                Ok(program) => match parse_optional_spec(fields[5]) {
                    Err(e) => Some(Err(e)),
                    Ok(gate) => match parse_command_spec(fields[6]) {
                        None => None,
                        Some(Err(e)) => Some(Err(e)),
                        Some(Ok(command)) => Some(Ok(Cell { note, velocity, program, gate, command })),
                    },
                },
            },
        },
    }
}

/// The grid and the occupied positions being filled by cell lines.
pub struct GridModel {
    pub rows: Seq<Seq<Cell>>,
    pub occupied: Set<(int, int)>,
}

/// Applying one cell value; `None` where the command field cannot be split.
#[verifier::opaque]
pub open spec fn cell_step(g: GridModel, value: Seq<char>) -> Option<Result<GridModel, Seq<char>>> {
    let fields = crate::text::split_all(value, '|');
    if fields.len() != 7 {
        Some(Err("invalid drum cell"@))
    } else {
        match crate::text::parse_unsigned(fields[0], usize::MAX as int) {
            None => Some(Err(int_error_text(fields[0], usize::MAX as int))),
            Some(row) => match crate::text::parse_unsigned(fields[1], usize::MAX as int) {
                None => Some(Err(int_error_text(fields[1], usize::MAX as int))),
                Some(lane) => if g.occupied.contains((row as int, lane as int)) {
                    Some(Err("duplicate drum cell"@))
                } else if row >= g.rows.len() || lane >= LANES_PER_PAGE {
                    Some(Err("drum cell outside pattern"@))
                } else {
                    match parse_cell_spec(fields) {
                        None => None,
                        Some(Err(e)) => Some(Err(e)),
                        Some(Ok(cell)) => Some(Ok(GridModel {
                            rows: g.rows.update(row as int, g.rows[row as int].update(lane as int, cell)),
                            occupied: g.occupied.insert((row as int, lane as int)),
                        })),
                    }
                },
            },
        }
    }
}

/// Applying the first `k` cell values in order.
pub open spec fn fold_cells(g: GridModel, cells: Seq<Seq<char>>, k: int) -> Option<Result<GridModel, Seq<char>>>
    decreases k,
{
    if k <= 0 {
        Some(Ok(g))
    } else {
        match fold_cells(g, cells, k - 1) {
            None => None,
            Some(Err(e)) => Some(Err(e)),
            Some(Ok(g1)) => cell_step(g1, cells[k - 1]),
        }
    }
}

pub open spec fn empty_row() -> Seq<Cell> {
    Seq::new(LANES_PER_PAGE as nat, |j: int| empty_cell())
}

pub open spec fn empty_grid(n: nat) -> GridModel {
    GridModel { rows: Seq::new(n, |i: int| empty_row()), occupied: Set::empty() }
}

/// Building the pattern from its fields.
pub open spec fn decode_fields(f: FieldsModel) -> Option<Result<PatternModel, Seq<char>>> {
    match f.rows {
        None => Some(Err("missing rows"@)),
        Some(n) => if n == 0 || n > 256 {
            Some(Err(rows_error()))
        } else {
            match f.name {
                None => Some(Err("missing name"@)),
                Some(name) => match f.meter {
                    None => Some(Err("missing meter"@)),
                    Some(meter) => match fold_cells(empty_grid(n), f.cells, f.cells.len() as int) {
                        None => None,
                        Some(Err(e)) => Some(Err(e)),
                        Some(Ok(g)) => {
                            let p = PatternModel {
                                name,
                                genre: match f.genre {
                                    Some(genre) => genre,
                                    None => "Other"@,
                                },
                                meter,
                                rows: g.rows,
                            };
                            match spec_pattern_error(p) {
                                Some(e) => Some(Err(e)),
                                None => Some(Ok(p)),
                            }
                        },
                    },
                },
            }
        },
    }
}

/// What reading a pattern file gives: the pattern or why it is refused;
/// `None` where a command field cannot be split (see `parse_command_spec`).
pub open spec fn spec_decode(text: Seq<char>) -> Option<Result<PatternModel, Seq<char>>> {
    if (vstd::utf8::encode_utf8(text).len() as usize) > MAX_BYTES {
        Some(Err("drum pattern exceeds 262144 bytes"@))
    } else {
        let ls = spec_lines(text);
        if ls.len() == 0 {
            Some(Err("empty drum pattern"@))
        } else {
            match crate::text::strip_prefix(ls[0], "SHR-DRUM-PATTERN "@) {
                None => Some(Err("not an SHR-DAW drum pattern"@)),
                Some(v) => match crate::text::parse_unsigned(v, 255) {
                    None => Some(Err(int_error_text(v, 255))),
                    Some(version) => if version > VERSION {
                        Some(Err("unsupported drum pattern version "@ + decimal(version)))
                    } else {
                        let body = content_lines(ls.drop_first());
                        match fold_fields(body, body.len() as int) {
                            Err(e) => Some(Err(e)),
                            Ok(f) => decode_fields(f),
                        }
                    },
                },
            }
        }
    }
}

} // verus!

verus! {

// ---------------------------------------------------------------------------
// Decoding, executable
// ---------------------------------------------------------------------------

fn is_content_chars(l: &Vec<char>) -> (r: bool)
    ensures
        r == is_content(l@),
{
    let trimmed = trim_chars(l);
    trimmed.len() != 0 && !(l.len() > 0 && l[0] == '#')
}

/// Whether `v` holds exactly the characters of `s`.
fn is_text(v: &Vec<char>, s: &str) -> (r: bool)
    ensures
        r == (v@ == s@),
{
    let w = chars_of(s);
    chars_eq(v, &w)
}

/// The fields read so far.
struct Fields {
    name: Option<Vec<char>>,
    genre: Option<Vec<char>>,
    meter: Option<u8>,
    rows: Option<usize>,
    cells: Vec<Vec<char>>,
}

spec fn opt_chars(o: Option<Vec<char>>) -> Option<Seq<char>> {
    match o {
        Some(v) => Some(v@),
        None => None,
    }
}

impl View for Fields {
    type V = FieldsModel;

    closed spec fn view(&self) -> FieldsModel {
        FieldsModel {
            name: opt_chars(self.name),
            genre: opt_chars(self.genre),
            meter: self.meter,
            rows: match self.rows {
                Some(n) => Some(n as nat),
                None => None,
            },
            cells: chars_views(self.cells@),
        }
    }
}

fn field_message(prefix: &str, key: &Vec<char>) -> (r: String)
    ensures
        r@ == prefix@ + key@,
{
    let mut out = owned(prefix);
    let k = string_from_chars(key);
    push_str(&mut out, k.as_str());
    out
}

fn field_step_exec(f: Fields, line: &Vec<char>) -> (r: Result<Fields, String>)
    ensures
        match r {
            Ok(g) => field_step(f@, line@) == Ok::<FieldsModel, Seq<char>>(g@),
            Err(e) => field_step(f@, line@) == Err::<FieldsModel, Seq<char>>(e@),
        },
{
    let (key, value) = match split_once_chars(line, '=') {
        None => {
            return Err(owned("invalid drum pattern line"));
        },
        Some(pair) => pair,
    };
    let mut f = f;
    if is_text(&key, "name") && f.name.is_none() {
        f.name = Some(value);
        Ok(f)
    } else if is_text(&key, "genre") && f.genre.is_none() {
        f.genre = Some(value);
        Ok(f)
    } else if is_text(&key, "meter") && f.meter.is_none() {
        match parse_unsigned_chars(&value, 255) {
            Some(n) => {
                f.meter = Some(n as u8);
                Ok(f)
            },
            None => Err(int_error(&value, 255)),
        }
    } else if is_text(&key, "rows") && f.rows.is_none() {
        match parse_unsigned_chars(&value, usize::MAX as u64) {
            Some(n) => {
                f.rows = Some(n as usize);
                Ok(f)
            },
            None => Err(int_error(&value, usize::MAX as u64)),
        }
    } else if is_text(&key, "cell") {
        let ghost before = chars_views(f.cells@);
        f.cells.push(value);
        assert(chars_views(f.cells@) =~= before.push(value@));
        Ok(f)
    } else if is_text(&key, "name") || is_text(&key, "genre") || is_text(&key, "meter") || is_text(&key, "rows") {
        Err(field_message("duplicate drum pattern field ", &key))
    } else {
        Err(field_message("unknown drum pattern field ", &key))
    }
}

proof fn lemma_fold_fields_prefix(a: Seq<Seq<char>>, x: Seq<char>, k: int)
    requires
        0 <= k <= a.len(),
    ensures
        fold_fields(a.push(x), k) == fold_fields(a, k),
    decreases k,
{
    if k > 0 {
        lemma_fold_fields_prefix(a, x, k - 1);
    }
}

proof fn lemma_fold_fields_err(ls: Seq<Seq<char>>, k: int, n: int)
    requires
        0 <= k <= n,
        fold_fields(ls, k) is Err,
    ensures
        fold_fields(ls, n) == fold_fields(ls, k),
    decreases n - k,
{
    if k < n {
        lemma_fold_fields_err(ls, k, n - 1);
    }
}

proof fn lemma_content_push(ls: Seq<Seq<char>>, x: Seq<char>)
    ensures
        content_lines(ls.push(x)) == if is_content(x) {
            content_lines(ls).push(x)
        } else {
            content_lines(ls)
        },
{
    assert(ls.push(x).drop_last() =~= ls);
}

proof fn lemma_content_concat(x: Seq<Seq<char>>, y: Seq<Seq<char>>)
    ensures
        content_lines(x + y) == content_lines(x) + content_lines(y),
    decreases y.len(),
{
    if y.len() == 0 {
        assert(x + y =~= x);
        assert(content_lines(x) + content_lines(y) =~= content_lines(x));
    } else {
        lemma_content_concat(x, y.drop_last());
        assert((x + y).drop_last() =~= x + y.drop_last());
        assert((x + y).last() == y.last());
        if is_content(y.last()) {
            assert(content_lines(x) + content_lines(y.drop_last()).push(y.last()) =~= (content_lines(x)
                + content_lines(y.drop_last())).push(y.last()));
        }
    }
}

proof fn lemma_fold_fields_prefix_concat(a: Seq<Seq<char>>, b: Seq<Seq<char>>, k: int)
    requires
        0 <= k <= a.len(),
    ensures
        fold_fields(a + b, k) == fold_fields(a, k),
    decreases k,
{
    if k > 0 {
        lemma_fold_fields_prefix_concat(a, b, k - 1);
        assert((a + b)[k - 1] == a[k - 1]);
    }
}

fn parse_note_exec(v: &Vec<char>) -> (r: Result<Note, String>)
    ensures
        match r {
            Ok(n) => parse_note_spec(v@) == Ok::<Note, Seq<char>>(n),
            Err(e) => parse_note_spec(v@) == Err::<Note, Seq<char>>(e@),
        },
{
    if is_text(v, "-") {
        Ok(Note::Empty)
    } else if is_text(v, "off") {
        Ok(Note::Off)
    } else {
        match parse_unsigned_chars(v, 255) {
            None => Err(int_error(v, 255)),
            Some(n) => if n > 127 {
                Err(owned("drum note outside MIDI range"))
            } else {
                Ok(Note::On(n as u8))
            },
        }
    }
}

fn parse_optional_exec(v: &Vec<char>) -> (r: Result<Option<u8>, String>)
    ensures
        match r {
            Ok(n) => parse_optional_spec(v@) == Ok::<Option<u8>, Seq<char>>(n),
            Err(e) => parse_optional_spec(v@) == Err::<Option<u8>, Seq<char>>(e@),
        },
{
    if is_text(v, "-") {
        Ok(None)
    } else {
        match parse_unsigned_chars(v, 255) {
            None => Err(int_error(v, 255)),
            Some(n) => if n > 127 {
                Err(owned("drum cell value outside MIDI range"))
            } else {
                Ok(Some(n as u8))
            },
        }
    }
}

fn parse_command_exec(v: &Vec<char>) -> (r: Option<Result<Command, String>>)
    ensures
        match r {
            None => parse_command_spec(v@) is None,
            Some(Ok(c)) => parse_command_spec(v@) == Some(Ok::<Command, Seq<char>>(c)),
            Some(Err(e)) => parse_command_spec(v@) == Some(Err::<Command, Seq<char>>(e@)),
        },
{
    if is_text(v, "-") {
        return Some(Ok(Command::Blank));
    }
    if v.len() == 0 || (v[0] as u32) >= 0x80 {
        return None;
    }
    let kind = v[0];
    let rest = sub_chars(v, 1, v.len());
    if kind == 'C' || kind == 'D' || kind == 'R' || kind == 'T' {
        match parse_unsigned_chars(&rest, 255) {
            None => Some(Err(int_error(&rest, 255))),
            Some(n) => {
                let value = n as u8;
                Some(Ok(
                    if kind == 'C' {
                        Command::Cut(value)
                    } else if kind == 'D' {
                        Command::Delay(value)
                    } else if kind == 'R' {
                        Command::Retrigger(value)
                    } else {
                        Command::Tempo(value)
                    },
                ))
            },
        }
    } else {
        Some(Err(owned("invalid drum command")))
    }
}

fn parse_cell_exec(fields: &Vec<Vec<char>>) -> (r: Option<Result<Cell, String>>)
    requires
        fields.len() == 7,
    ensures
        match r {
            None => parse_cell_spec(chars_views(fields@)) is None,
            Some(Ok(c)) => parse_cell_spec(chars_views(fields@)) == Some(Ok::<Cell, Seq<char>>(c)),
            Some(Err(e)) => parse_cell_spec(chars_views(fields@)) == Some(Err::<Cell, Seq<char>>(e@)),
        },
{
    let ghost f = chars_views(fields@);
    assert(f[2] == fields@[2]@ && f[3] == fields@[3]@ && f[4] == fields@[4]@ && f[5] == fields@[5]@ && f[6] == fields@[6]@);
    let note = match parse_note_exec(&fields[2]) {
        Err(e) => {
            return Some(Err(e));
        },
        Ok(n) => n,
    };
    let velocity = match parse_optional_exec(&fields[3]) {
        Err(e) => {
            return Some(Err(e));
        },
        Ok(n) => n,
    };
    let program = match parse_optional_exec(&fields[4]) {
        Err(e) => {
            return Some(Err(e));
        },
        Ok(n) => n,
    };
    let gate = match parse_optional_exec(&fields[5]) {
        Err(e) => {
            return Some(Err(e));
        },
        Ok(n) => n,
    };
    match parse_command_exec(&fields[6]) {
        None => None,
        Some(Err(e)) => Some(Err(e)),
        Some(Ok(command)) => Some(Ok(Cell { note, velocity, program, gate, command })),
    }
}

} // verus!

verus! {

/// The grid model of executable rows and occupied flags.
pub open spec fn grid_of(rows: Seq<[Cell; LANES_PER_PAGE]>, occ: Seq<[bool; LANES_PER_PAGE]>) -> GridModel {
    GridModel {
        rows: rows.map_values(|r: [Cell; LANES_PER_PAGE]| r@),
        occupied: Set::new(|p: (int, int)| 0 <= p.0 < occ.len() && 0 <= p.1 < LANES_PER_PAGE && occ[p.0][p.1]),
    }
}

fn cell_step_exec(
    rows: &mut Vec<[Cell; LANES_PER_PAGE]>,
    occ: &mut Vec<[bool; LANES_PER_PAGE]>,
    value: &Vec<char>,
) -> (r: Option<Result<(), String>>)
    requires
        old(rows).len() == old(occ).len(),
    ensures
        final(rows).len() == final(occ).len(),
        match r {
            None => cell_step(grid_of(old(rows)@, old(occ)@), value@) is None,
            Some(Err(e)) => cell_step(grid_of(old(rows)@, old(occ)@), value@) == Some(
                Err::<GridModel, Seq<char>>(e@),
            ),
            Some(Ok(())) => cell_step(grid_of(old(rows)@, old(occ)@), value@) == Some(
                Ok::<GridModel, Seq<char>>(grid_of(final(rows)@, final(occ)@)),
            ),
        },
{
    let ghost g = grid_of(rows@, occ@);
    proof {
        reveal(cell_step);
    }
    let fields = split_all_chars(value, '|');
    let ghost f = chars_views(fields@);
    if fields.len() != 7 {
        return Some(Err(owned("invalid drum cell")));
    }
    assert(f[0] == fields@[0]@ && f[1] == fields@[1]@);
    let row = match parse_unsigned_chars(&fields[0], usize::MAX as u64) {
        None => {
            return Some(Err(int_error(&fields[0], usize::MAX as u64)));
        },
        Some(n) => n,
    };
    let lane = match parse_unsigned_chars(&fields[1], usize::MAX as u64) {
        None => {
            return Some(Err(int_error(&fields[1], usize::MAX as u64)));
        },
        Some(n) => n,
    };
    let taken = row < rows.len() as u64 && lane < LANES_PER_PAGE as u64 && occ[row as usize][lane as usize];
    assert(taken == g.occupied.contains((row as int, lane as int)));
    if taken {
        return Some(Err(owned("duplicate drum cell")));
    }
    if row >= rows.len() as u64 || lane >= LANES_PER_PAGE as u64 {
        return Some(Err(owned("drum cell outside pattern")));
    }
    let row = row as usize;
    let lane = lane as usize;
    let cell = match parse_cell_exec(&fields) {
        None => {
            return None;
        },
        Some(Err(e)) => {
            return Some(Err(e));
        },
        Some(Ok(c)) => c,
    };
    let mut cells = rows[row];
    cells[lane] = cell;
    rows.set(row, cells);
    let mut flags = occ[row];
    flags[lane] = true;
    occ.set(row, flags);
    proof {
        let after = grid_of(rows@, occ@);
        let expected = GridModel {
            rows: g.rows.update(row as int, g.rows[row as int].update(lane as int, cell)),
            occupied: g.occupied.insert((row as int, lane as int)),
        };
        assert(after.rows =~= expected.rows);
        assert(after.occupied =~= expected.occupied);
    }
    Some(Ok(()))
}

proof fn lemma_fold_cells_stop(g: GridModel, cells: Seq<Seq<char>>, k: int, n: int)
    requires
        0 <= k <= n,
        !(fold_cells(g, cells, k) matches Some(Ok(_))),
    ensures
        fold_cells(g, cells, n) == fold_cells(g, cells, k),
    decreases n - k,
{
    if k < n {
        lemma_fold_cells_stop(g, cells, k, n - 1);
    }
}

/// The rows that the cell values describe, applied in order to an empty
/// grid of `n` rows.
fn fill_grid(n: usize, cells: &Vec<Vec<char>>) -> (r: Option<Result<Vec<[Cell; LANES_PER_PAGE]>, String>>)
    ensures
        match r {
            None => fold_cells(empty_grid(n as nat), chars_views(cells@), cells@.len() as int) is None,
            Some(Err(e)) => fold_cells(empty_grid(n as nat), chars_views(cells@), cells@.len() as int) == Some(
                Err::<GridModel, Seq<char>>(e@),
            ),
            Some(Ok(rows)) => fold_cells(empty_grid(n as nat), chars_views(cells@), cells@.len() as int) matches Some(Ok(g))
                && g.rows == rows@.map_values(|r: [Cell; LANES_PER_PAGE]| r@),
        },
{
    let blank = Cell::empty();
    let mut rows: Vec<[Cell; LANES_PER_PAGE]> = Vec::new();
    let mut occ: Vec<[bool; LANES_PER_PAGE]> = Vec::new();
    let mut i: usize = 0;
    while i < n
        invariant
            i <= n,
            rows.len() == i,
            occ.len() == i,
            blank == empty_cell(),
            forall|t: int| 0 <= t < i ==> (#[trigger] rows@[t])@ == empty_row(),
            forall|t: int, l: int| 0 <= t < i && 0 <= l < LANES_PER_PAGE ==> !(#[trigger] occ@[t][l]),
        decreases n - i,
    {
        let blank_row: [Cell; LANES_PER_PAGE] = [blank, blank, blank, blank];
        assert(blank_row@ =~= empty_row());
        rows.push(blank_row);
        occ.push([false, false, false, false]);
        i += 1;
    }
    proof {
        let g0 = grid_of(rows@, occ@);
        assert(g0.rows =~= empty_grid(n as nat).rows);
        assert(g0.occupied =~= empty_grid(n as nat).occupied);
    }
    let ghost cs = chars_views(cells@);
    let mut k: usize = 0;
    while k < cells.len()
        invariant
            k <= cells.len(),
            cs == chars_views(cells@),
            rows.len() == occ.len(),
            fold_cells(empty_grid(n as nat), cs, k as int) == Some(Ok::<GridModel, Seq<char>>(grid_of(rows@, occ@))),
        decreases cells.len() - k,
    {
        assert(cs[k as int] == cells@[k as int]@);
        let ghost g1 = grid_of(rows@, occ@);
        match cell_step_exec(&mut rows, &mut occ, &cells[k]) {
            None => {
                proof {
                    assert(cell_step(g1, cs[k as int]) is None);
                    assert(fold_cells(empty_grid(n as nat), cs, k + 1) is None);
                    lemma_fold_cells_stop(empty_grid(n as nat), cs, k + 1, cs.len() as int);
                }
                return None;
            },
            Some(Err(e)) => {
                proof {
                    lemma_fold_cells_stop(empty_grid(n as nat), cs, k + 1, cs.len() as int);
                }
                return Some(Err(e));
            },
            Some(Ok(())) => {},
        }
        k += 1;
    }
    Some(Ok(rows))
}

fn decode_fields_exec(f: Fields) -> (r: Option<Result<DrumPattern, String>>)
    ensures
        match r {
            None => decode_fields(f@) is None,
            Some(Ok(p)) => decode_fields(f@) == Some(Ok::<PatternModel, Seq<char>>(p@)),
            Some(Err(e)) => decode_fields(f@) == Some(Err::<PatternModel, Seq<char>>(e@)),
        },
{
    let ghost fm = f@;
    let n = match f.rows {
        None => {
            return Some(Err(owned("missing rows")));
        },
        Some(n) => n,
    };
    if n == 0 || n > 256 {
        return Some(Err(owned("drum pattern needs 1..=256 rows")));
    }
    let name = match f.name {
        None => {
            return Some(Err(owned("missing name")));
        },
        Some(name) => name,
    };
    let meter = match f.meter {
        None => {
            return Some(Err(owned("missing meter")));
        },
        Some(m) => m,
    };
    let rows = match fill_grid(n, &f.cells) {
        None => {
            return None;
        },
        Some(Err(e)) => {
            return Some(Err(e));
        },
        Some(Ok(rows)) => rows,
    };
    let genre = match f.genre {
        Some(g) => string_from_chars(&g),
        None => owned("Other"),
    };
    let pattern = DrumPattern { name: string_from_chars(&name), genre, meter, rows };
    match validate(&pattern) {
        Err(e) => Some(Err(e)),
        Ok(()) => Some(Ok(pattern)),
    }
}

/// Reads a pattern file: the pattern, or why the text is refused; `None`
/// where a command field cannot be split (see `spec_decode`).
pub fn decode_outcome(text: &str) -> (r: Option<Result<DrumPattern, String>>)
    ensures
        match r {
            None => spec_decode(text@) is None,
            Some(Ok(p)) => spec_decode(text@) == Some(Ok::<PatternModel, Seq<char>>(p@)),
            Some(Err(e)) => spec_decode(text@) == Some(Err::<PatternModel, Seq<char>>(e@)),
        },
{
    if text.len() > MAX_BYTES {
        return Some(Err(owned("drum pattern exceeds 262144 bytes")));
    }
    let v = chars_of(text);
    let ls = lines_of(&v);
    let ghost lv = chars_views(ls@);
    if ls.len() == 0 {
        return Some(Err(owned("empty drum pattern")));
    }
    assert(lv[0] == ls@[0]@);
    let rest = match strip_prefix_chars(&ls[0], "SHR-DRUM-PATTERN ") {
        None => {
            return Some(Err(owned("not an SHR-DAW drum pattern")));
        },
        Some(rest) => rest,
    };
    let version = match parse_unsigned_chars(&rest, 255) {
        None => {
            return Some(Err(int_error(&rest, 255)));
        },
        Some(n) => n,
    };
    if version > VERSION as u64 {
        let mut message = owned("unsupported drum pattern version ");
        push_decimal(&mut message, version);
        return Some(Err(message));
    }
    let ghost all_body = content_lines(lv.drop_first());
    let mut fields = Fields { name: None, genre: None, meter: None, rows: None, cells: Vec::new() };
    assert(fields@.cells =~= Seq::<Seq<char>>::empty());
    let mut i: usize = 1;
    while i < ls.len()
        invariant
            1 <= i <= ls.len(),
            lv == chars_views(ls@),
            lv == spec_lines(text@),
            (vstd::utf8::encode_utf8(text@).len() as usize) <= MAX_BYTES,
            crate::text::strip_prefix(lv[0], "SHR-DRUM-PATTERN "@) == Some(rest@),
            crate::text::parse_unsigned(rest@, 255) == Some(version as nat),
            version <= VERSION,
            all_body == content_lines(lv.drop_first()),
            fold_fields(content_lines(lv.subrange(1, i as int)), content_lines(lv.subrange(1, i as int)).len() as int)
                == Ok::<FieldsModel, Seq<char>>(fields@),
        decreases ls.len() - i,
    {
        let ghost before = content_lines(lv.subrange(1, i as int));
        proof {
            assert(lv.subrange(1, i + 1) =~= lv.subrange(1, i as int).push(lv[i as int]));
            lemma_content_push(lv.subrange(1, i as int), lv[i as int]);
        }
        assert(lv[i as int] == ls@[i as int]@);
        if is_content_chars(&ls[i]) {
            proof {
                lemma_fold_fields_prefix(before, lv[i as int], before.len() as int);
            }
            match field_step_exec(fields, &ls[i]) {
                Ok(next) => {
                    fields = next;
                },
                Err(e) => {
                    proof {
                        let a = lv.subrange(1, i + 1);
                        let b = lv.subrange(i + 1, lv.len() as int);
                        assert(lv.drop_first() =~= a + b);
                        lemma_content_concat(a, b);
                        let ca = content_lines(a);
                        let cb = content_lines(b);
                        lemma_fold_fields_prefix_concat(ca, cb, ca.len() as int);
                        lemma_fold_fields_err(ca + cb, ca.len() as int, (ca + cb).len() as int);
                    }
                    return Some(Err(e));
                },
            }
        }
        i += 1;
    }
    assert(lv.subrange(1, ls.len() as int) =~= lv.drop_first());
    decode_fields_exec(fields)
}

/// Reads a pattern file whose command fields can all be split.
pub fn decode(text: &str) -> (r: Result<DrumPattern, String>)
    requires
        spec_decode(text@) is Some,
    ensures
        match r {
            Ok(p) => spec_decode(text@) == Some(Ok::<PatternModel, Seq<char>>(p@)),
            Err(e) => spec_decode(text@) == Some(Err::<PatternModel, Seq<char>>(e@)),
        },
{
    match decode_outcome(text) {
        Some(r) => r,
        None => Err(owned("drum command cannot be split")),
    }
}

} // verus!

verus! {

// ---------------------------------------------------------------------------
// Reading back what was written
// ---------------------------------------------------------------------------

/// A line that `str::lines` gives back unchanged: no newline, no final `\r`.
pub open spec fn line_ok(l: Seq<char>) -> bool {
    (forall|i: int| 0 <= i < l.len() ==> #[trigger] l[i] != '\n') && !(l.len() > 0 && l.last() == '\r')
}

/// `find_from` stops at the first `c` from `i` on.
pub proof fn lemma_find_at(s: Seq<char>, c: char, i: int, j: int)
    requires
        0 <= i <= j < s.len(),
        s[j] == c,
        forall|k: int| i <= k < j ==> #[trigger] s[k] != c,
    ensures
        crate::text::find_from(s, c, i) == Some(j),
    decreases j - i,
{
    if i < j {
        lemma_find_at(s, c, i + 1, j);
    }
}

proof fn lemma_find_none(s: Seq<char>, c: char, i: int)
    requires
        0 <= i <= s.len(),
        forall|k: int| i <= k < s.len() ==> #[trigger] s[k] != c,
    ensures
        crate::text::find_from(s, c, i) is None,
    decreases s.len() - i,
{
    if i < s.len() {
        lemma_find_none(s, c, i + 1);
    }
}

proof fn lemma_terminated_front(ls: Seq<Seq<char>>)
    requires
        ls.len() > 0,
    ensures
        terminated(ls) == ls[0] + "\n"@ + terminated(ls.drop_first()),
{
    lemma_terminated_concat(seq![ls[0]], ls.drop_first());
    assert(seq![ls[0]] + ls.drop_first() =~= ls);
    assert(seq![ls[0]].drop_last() =~= Seq::<Seq<char>>::empty());
    assert(terminated(Seq::<Seq<char>>::empty()) =~= Seq::<char>::empty());
    assert(terminated(seq![ls[0]]) =~= ls[0] + "\n"@);
}

/// Lines written one after another, each with its newline, read back as
/// the same lines.
pub proof fn lemma_lines_of_terminated(ls: Seq<Seq<char>>)
    requires
        forall|i: int| 0 <= i < ls.len() ==> line_ok(#[trigger] ls[i]),
    ensures
        spec_lines(terminated(ls)) == ls,
    decreases ls.len(),
{
    if ls.len() == 0 {
        assert(terminated(ls) =~= Seq::<char>::empty());
        assert(spec_lines(Seq::<char>::empty()) =~= ls);
    } else {
        let x = ls[0];
        let rest = terminated(ls.drop_first());
        lemma_terminated_front(ls);
        let s = x + "\n"@ + rest;
        reveal_strlit("\n");
        assert(line_ok(x));
        assert(s[x.len() as int] == '\n');
        assert forall|k: int| 0 <= k < x.len() implies #[trigger] s[k] != '\n' by {
            assert(s[k] == x[k]);
        }
        lemma_find_at(s, '\n', 0, x.len() as int);
        assert(s.subrange(0, x.len() as int) =~= x);
        assert(s.subrange(x.len() as int + 1, s.len() as int) =~= rest);
        assert forall|i: int| 0 <= i < ls.drop_first().len() implies line_ok(#[trigger] ls.drop_first()[i]) by {
            assert(ls.drop_first()[i] == ls[i + 1]);
        }
        lemma_lines_of_terminated(ls.drop_first());
        assert(seq![x] + ls.drop_first() =~= ls);
    }
}

/// Lines that all carry content pass the content filter unchanged.
pub proof fn lemma_all_content(ls: Seq<Seq<char>>)
    requires
        forall|i: int| 0 <= i < ls.len() ==> is_content(#[trigger] ls[i]),
    ensures
        content_lines(ls) == ls,
    decreases ls.len(),
{
    if ls.len() > 0 {
        assert(is_content(ls[ls.len() - 1]));
        lemma_all_content(ls.drop_last());
        assert(ls.drop_last().push(ls.last()) =~= ls);
    }
}

/// `key=value` splits at the `=` after a key without one.
pub proof fn lemma_split_key(key: Seq<char>, value: Seq<char>)
    requires
        forall|i: int| 0 <= i < key.len() ==> #[trigger] key[i] != '=',
    ensures
        crate::text::split_once(key + "="@ + value, '=') == Some((key, value)),
{
    reveal_strlit("=");
    let s = key + "="@ + value;
    assert(s[key.len() as int] == '=');
    assert forall|k: int| 0 <= k < key.len() implies #[trigger] s[k] != '=' by {
        assert(s[k] == key[k]);
    }
    lemma_find_at(s, '=', 0, key.len() as int);
    assert(s.subrange(0, key.len() as int) =~= key);
    assert(s.subrange(key.len() as int + 1, s.len() as int) =~= value);
}

} // verus!

verus! {

pub open spec fn no_char(s: Seq<char>, c: char) -> bool {
    forall|i: int| 0 <= i < s.len() ==> #[trigger] s[i] != c
}

proof fn lemma_join_front(ws: Seq<Seq<char>>, sep: Seq<char>)
    requires
        ws.len() >= 2,
    ensures
        crate::text::join_with(ws, sep) == ws[0] + sep + crate::text::join_with(ws.drop_first(), sep),
    decreases ws.len(),
{
    if ws.len() == 2 {
        assert(ws.drop_last().len() == 1);
        assert(ws.drop_first().len() == 1);
        assert(crate::text::join_with(ws.drop_last(), sep) == ws.drop_last()[0]);
        assert(ws.drop_last()[0] == ws[0]);
        assert(crate::text::join_with(ws.drop_first(), sep) == ws.drop_first()[0]);
        assert(ws.drop_first()[0] == ws.last());
        assert(crate::text::join_with(ws, sep) == crate::text::join_with(ws.drop_last(), sep) + sep + ws.last());
    } else {
        lemma_join_front(ws.drop_last(), sep);
        assert(ws.drop_last()[0] == ws[0]);
        assert(ws.drop_last().drop_first() =~= ws.drop_first().drop_last());
        assert(ws.drop_first().last() == ws.last());
        let j = crate::text::join_with(ws.drop_first().drop_last(), sep);
        assert(crate::text::join_with(ws, sep) == crate::text::join_with(ws.drop_last(), sep) + sep + ws.last());
        assert(crate::text::join_with(ws.drop_first(), sep) == j + sep + ws.last());
        assert(ws[0] + sep + j + sep + ws.last() =~= ws[0] + sep + (j + sep + ws.last()));
    }
}

/// Fields joined by `|`, none holding a `|`, split back into the fields.
pub proof fn lemma_split_join(ws: Seq<Seq<char>>)
    requires
        ws.len() >= 1,
        forall|i: int| 0 <= i < ws.len() ==> no_char(#[trigger] ws[i], '|'),
    ensures
        crate::text::split_all(crate::text::join_with(ws, "|"@), '|') == ws,
    decreases ws.len(),
{
    reveal_strlit("|");
    if ws.len() == 1 {
        assert(no_char(ws[0], '|'));
        lemma_find_none(ws[0], '|', 0);
        assert(seq![ws[0]] =~= ws);
    } else {
        lemma_join_front(ws, "|"@);
        let x = ws[0];
        let rest = crate::text::join_with(ws.drop_first(), "|"@);
        let s = x + "|"@ + rest;
        assert(no_char(x, '|'));
        assert(s[x.len() as int] == '|');
        assert forall|k: int| 0 <= k < x.len() implies #[trigger] s[k] != '|' by {
            assert(s[k] == x[k]);
        }
        lemma_find_at(s, '|', 0, x.len() as int);
        assert(s.subrange(0, x.len() as int) =~= x);
        assert(s.subrange(x.len() as int + 1, s.len() as int) =~= rest);
        assert forall|i: int| 0 <= i < ws.drop_first().len() implies no_char(#[trigger] ws.drop_first()[i], '|') by {
            assert(ws.drop_first()[i] == ws[i + 1]);
        }
        lemma_split_join(ws.drop_first());
        assert(seq![x] + ws.drop_first() =~= ws);
    }
}

proof fn lemma_decimal_plain(n: nat)
    ensures
        no_char(decimal(n), '|'),
        no_char(decimal(n), '\n'),
        no_char(decimal(n), '\r'),
        no_char(decimal(n), '='),
        decimal(n).len() >= 1,
        crate::text::is_digit(decimal(n)[0]),
        decimal(n) != "-"@,
        decimal(n) != "off"@,
{
    crate::text::lemma_decimal_digits(n);
    reveal_strlit("-");
    reveal_strlit("off");
    assert(crate::text::is_digit(decimal(n)[0]));
    assert forall|i: int| 0 <= i < decimal(n).len() implies #[trigger] decimal(n)[i] != '|' by {
        assert(crate::text::is_digit(decimal(n)[i]));
    }
    assert forall|i: int| 0 <= i < decimal(n).len() implies #[trigger] decimal(n)[i] != '\n' by {
        assert(crate::text::is_digit(decimal(n)[i]));
    }
    assert forall|i: int| 0 <= i < decimal(n).len() implies #[trigger] decimal(n)[i] != '\r' by {
        assert(crate::text::is_digit(decimal(n)[i]));
    }
    assert forall|i: int| 0 <= i < decimal(n).len() implies #[trigger] decimal(n)[i] != '=' by {
        assert(crate::text::is_digit(decimal(n)[i]));
    }
    if decimal(n) == "-"@ {
        assert(decimal(n)[0] == '-');
    }
    if decimal(n) == "off"@ {
        assert(decimal(n)[0] == 'o');
    }
}

proof fn lemma_parse_note_back(n: Note)
    requires
        n matches Note::On(v) ==> v <= 127,
    ensures
        parse_note_spec(note_text(n)) == Ok::<Note, Seq<char>>(n),
        no_char(note_text(n), '|'),
{
    reveal_strlit("-");
    reveal_strlit("off");
    match n {
        Note::On(v) => {
            lemma_decimal_plain(v as nat);
            crate::text::lemma_parse_decimal(v as nat, 255);
        },
        Note::Empty => {},
        Note::Off => {
            assert("off"@ != "-"@);
        },
    }
}

proof fn lemma_parse_optional_back(o: Option<u8>)
    requires
        crate::sequencer::seven_bit(o),
    ensures
        parse_optional_spec(optional_text(o)) == Ok::<Option<u8>, Seq<char>>(o),
        no_char(optional_text(o), '|'),
{
    reveal_strlit("-");
    match o {
        Some(v) => {
            lemma_decimal_plain(v as nat);
            crate::text::lemma_parse_decimal(v as nat, 255);
        },
        None => {},
    }
}

proof fn lemma_command_letter(letter: Seq<char>, v: u8, c: char)
    requires
        letter.len() == 1,
        letter[0] == c,
    ensures
        (letter + decimal(v as nat)).len() > 1,
        (letter + decimal(v as nat))[0] == c,
        (letter + decimal(v as nat)).subrange(1, (letter + decimal(v as nat)).len() as int) == decimal(v as nat),
        no_char(letter + decimal(v as nat), '|') <== c != '|',
{
    lemma_decimal_plain(v as nat);
    let t = letter + decimal(v as nat);
    assert(t.subrange(1, t.len() as int) =~= decimal(v as nat));
    if c != '|' {
        assert forall|i: int| 0 <= i < t.len() implies #[trigger] t[i] != '|' by {
            if i > 0 {
                assert(t[i] == decimal(v as nat)[i - 1]);
            }
        }
    }
}

proof fn lemma_parse_command_back(c: Command)
    ensures
        parse_command_spec(command_text(c)) == Some(Ok::<Command, Seq<char>>(c)),
        no_char(command_text(c), '|'),
{
    reveal_strlit("-");
    reveal_strlit("C");
    reveal_strlit("D");
    reveal_strlit("R");
    reveal_strlit("T");
    match c {
        Command::Blank => {},
        Command::Cut(v) => {
            lemma_command_letter("C"@, v, 'C');
            crate::text::lemma_parse_decimal(v as nat, 255);
            assert(command_text(c) != "-"@);
        },
        Command::Delay(v) => {
            lemma_command_letter("D"@, v, 'D');
            crate::text::lemma_parse_decimal(v as nat, 255);
            assert(command_text(c) != "-"@);
        },
        Command::Retrigger(v) => {
            lemma_command_letter("R"@, v, 'R');
            crate::text::lemma_parse_decimal(v as nat, 255);
            assert(command_text(c) != "-"@);
        },
        Command::Tempo(v) => {
            lemma_command_letter("T"@, v, 'T');
            crate::text::lemma_parse_decimal(v as nat, 255);
            assert(command_text(c) != "-"@);
        },
    }
}

/// A valid cell's fields read back as the cell.
pub proof fn lemma_parse_cell_back(row: nat, lane: nat, c: Cell)
    requires
        c.spec_valid(),
    ensures
        parse_cell_spec(cell_fields(row, lane, c)) == Some(Ok::<Cell, Seq<char>>(c)),
        forall|i: int| 0 <= i < 7 ==> no_char(#[trigger] cell_fields(row, lane, c)[i], '|'),
        crate::text::split_all(cell_value(row, lane, c), '|') == cell_fields(row, lane, c),
{
    lemma_parse_note_back(c.note);
    lemma_parse_optional_back(c.velocity);
    lemma_parse_optional_back(c.program);
    lemma_parse_optional_back(c.gate);
    lemma_parse_command_back(c.command);
    lemma_decimal_plain(row);
    lemma_decimal_plain(lane);
    let fs = cell_fields(row, lane, c);
    assert forall|i: int| 0 <= i < 7 implies no_char(#[trigger] fs[i], '|') by {
        if i == 0 {} else if i == 1 {} else if i == 2 {} else if i == 3 {} else if i == 4 {} else if i == 5 {} else {}
    }
    lemma_split_join(fs);
}

} // verus!

verus! {

/// The cell values of the non-empty cells among the first `j` lanes of a row.
pub open spec fn row_cell_values(row: nat, cells: Seq<Cell>, j: int) -> Seq<Seq<char>>
    decreases j,
{
    if j <= 0 {
        Seq::empty()
    } else if cells[j - 1] == empty_cell() {
        row_cell_values(row, cells, j - 1)
    } else {
        row_cell_values(row, cells, j - 1).push(cell_value(row, (j - 1) as nat, cells[j - 1]))
    }
}

/// The cell values of the first `k` rows.
pub open spec fn cell_values(rows: Seq<Seq<Cell>>, k: int) -> Seq<Seq<char>>
    decreases k,
{
    if k <= 0 {
        Seq::empty()
    } else {
        cell_values(rows, k - 1) + row_cell_values((k - 1) as nat, rows[k - 1], rows[k - 1].len() as int)
    }
}

pub open spec fn with_cell_prefix(vs: Seq<Seq<char>>) -> Seq<Seq<char>> {
    vs.map_values(|v: Seq<char>| "cell="@ + v)
}

proof fn lemma_row_lines_values(row: nat, cells: Seq<Cell>, j: int)
    ensures
        row_cell_lines(row, cells, j) == with_cell_prefix(row_cell_values(row, cells, j)),
    decreases j,
{
    if j <= 0 {
        assert(with_cell_prefix(Seq::<Seq<char>>::empty()) =~= Seq::<Seq<char>>::empty());
    } else {
        lemma_row_lines_values(row, cells, j - 1);
        if cells[j - 1] != empty_cell() {
            let vs = row_cell_values(row, cells, j - 1);
            assert(with_cell_prefix(vs.push(cell_value(row, (j - 1) as nat, cells[j - 1])))
                =~= with_cell_prefix(vs).push(cell_line(row, (j - 1) as nat, cells[j - 1])));
        }
    }
}

proof fn lemma_lines_values(rows: Seq<Seq<Cell>>, k: int)
    ensures
        cell_lines(rows, k) == with_cell_prefix(cell_values(rows, k)),
    decreases k,
{
    if k <= 0 {
        assert(with_cell_prefix(Seq::<Seq<char>>::empty()) =~= Seq::<Seq<char>>::empty());
    } else {
        lemma_lines_values(rows, k - 1);
        let r = rows[k - 1];
        lemma_row_lines_values((k - 1) as nat, r, r.len() as int);
        assert(with_cell_prefix(cell_values(rows, k - 1) + row_cell_values((k - 1) as nat, r, r.len() as int))
            =~= with_cell_prefix(cell_values(rows, k - 1)) + with_cell_prefix(row_cell_values((k - 1) as nat, r, r.len() as int)));
    }
}

/// The grid after the cells of rows before `r` and of lanes before `l` in
/// row `r` were applied.
pub open spec fn partial_grid(rows: Seq<Seq<Cell>>, r: int, l: int) -> GridModel {
    GridModel {
        rows: Seq::new(
            rows.len(),
            |a: int|
                if a < r {
                    rows[a]
                } else if a == r {
                    Seq::new(LANES_PER_PAGE as nat, |j: int| if j < l { rows[a][j] } else { empty_cell() })
                } else {
                    empty_row()
                },
        ),
        occupied: Set::new(
            |q: (int, int)|
                0 <= q.0 < rows.len() && 0 <= q.1 < LANES_PER_PAGE && (q.0 < r || (q.0 == r && q.1 < l))
                    && rows[q.0][q.1] != empty_cell(),
        ),
    }
}

pub open spec fn rows_shaped(rows: Seq<Seq<Cell>>) -> bool {
    forall|a: int| 0 <= a < rows.len() ==> (#[trigger] rows[a]).len() == LANES_PER_PAGE
}

proof fn lemma_fold_cells_push_prefix(g: GridModel, s: Seq<Seq<char>>, x: Seq<char>, k: int)
    requires
        0 <= k <= s.len(),
    ensures
        fold_cells(g, s.push(x), k) == fold_cells(g, s, k),
    decreases k,
{
    if k > 0 {
        lemma_fold_cells_push_prefix(g, s, x, k - 1);
    }
}

proof fn lemma_fold_cells_concat(g: GridModel, a: Seq<Seq<char>>, b: Seq<Seq<char>>, g1: GridModel)
    requires
        fold_cells(g, a, a.len() as int) == Some(Ok::<GridModel, Seq<char>>(g1)),
    ensures
        fold_cells(g, a + b, (a + b).len() as int) == fold_cells(g1, b, b.len() as int),
    decreases b.len(),
{
    if b.len() == 0 {
        assert(a + b =~= a);
    } else {
        let b0 = b.drop_last();
        lemma_fold_cells_concat(g, a, b0, g1);
        assert(a + b =~= (a + b0).push(b.last()));
        lemma_fold_cells_push_prefix(g, a + b0, b.last(), (a + b0).len() as int);
        lemma_fold_cells_push_prefix(g1, b0, b.last(), b0.len() as int);
        assert(b0.push(b.last()) =~= b);
    }
}

proof fn lemma_cell_step_fills(rows: Seq<Seq<Cell>>, r: int, l: int)
    requires
        0 <= r < rows.len() <= 256,
        0 <= l < LANES_PER_PAGE,
        rows_shaped(rows),
        all_cells_valid(rows),
        rows[r][l] != empty_cell(),
    ensures
        cell_step(partial_grid(rows, r, l), cell_value(r as nat, l as nat, rows[r][l])) == Some(
            Ok::<GridModel, Seq<char>>(partial_grid(rows, r, l + 1)),
        ),
{
    reveal(cell_step);
    let c = rows[r][l];
    assert(c.spec_valid());
    lemma_parse_cell_back(r as nat, l as nat, c);
    crate::text::lemma_parse_decimal(r as nat, usize::MAX as int);
    crate::text::lemma_parse_decimal(l as nat, usize::MAX as int);
    let g = partial_grid(rows, r, l);
    assert(!g.occupied.contains((r, l)));
    let next = GridModel {
        rows: g.rows.update(r, g.rows[r].update(l, c)),
        occupied: g.occupied.insert((r, l)),
    };
    let want = partial_grid(rows, r, l + 1);
    assert(next.rows =~~= want.rows);
    assert(next.occupied =~= want.occupied);
}

proof fn lemma_row_fold(rows: Seq<Seq<Cell>>, r: int, j: int)
    requires
        0 <= r < rows.len() <= 256,
        0 <= j <= LANES_PER_PAGE,
        rows_shaped(rows),
        all_cells_valid(rows),
    ensures
        fold_cells(partial_grid(rows, r, 0), row_cell_values(r as nat, rows[r], j), row_cell_values(r as nat, rows[r], j).len() as int)
            == Some(Ok::<GridModel, Seq<char>>(partial_grid(rows, r, j))),
    decreases j,
{
    if j == 0 {
    } else {
        lemma_row_fold(rows, r, j - 1);
        let prev = row_cell_values(r as nat, rows[r], j - 1);
        if rows[r][j - 1] == empty_cell() {
            let a = partial_grid(rows, r, j - 1);
            let b = partial_grid(rows, r, j);
            assert(a.rows =~~= b.rows);
            assert(a.occupied =~= b.occupied);
        } else {
            let v = cell_value(r as nat, (j - 1) as nat, rows[r][j - 1]);
            lemma_fold_cells_push_prefix(partial_grid(rows, r, 0), prev, v, prev.len() as int);
            lemma_cell_step_fills(rows, r, j - 1);
        }
    }
}

proof fn lemma_rows_fold(rows: Seq<Seq<Cell>>, k: int)
    requires
        0 <= k <= rows.len() <= 256,
        rows_shaped(rows),
        all_cells_valid(rows),
    ensures
        fold_cells(partial_grid(rows, 0, 0), cell_values(rows, k), cell_values(rows, k).len() as int)
            == Some(Ok::<GridModel, Seq<char>>(partial_grid(rows, k, 0))),
    decreases k,
{
    if k > 0 {
        lemma_rows_fold(rows, k - 1);
        let a = cell_values(rows, k - 1);
        let b = row_cell_values((k - 1) as nat, rows[k - 1], rows[k - 1].len() as int);
        lemma_fold_cells_concat(partial_grid(rows, 0, 0), a, b, partial_grid(rows, k - 1, 0));
        lemma_row_fold(rows, k - 1, LANES_PER_PAGE as int);
        let x = partial_grid(rows, k - 1, LANES_PER_PAGE as int);
        let y = partial_grid(rows, k, 0);
        assert(x.rows =~= y.rows) by {
            assert forall|a: int| 0 <= a < rows.len() implies #[trigger] x.rows[a] =~= y.rows[a] by {
                if a == k - 1 {
                    assert(rows[a].len() == LANES_PER_PAGE);
                }
            }
        }
        assert(x.occupied =~= y.occupied);
    }
}

/// Applying a valid pattern's cell values to an empty grid rebuilds its rows.
pub proof fn lemma_cells_rebuild_rows(rows: Seq<Seq<Cell>>)
    requires
        0 < rows.len() <= 256,
        rows_shaped(rows),
        all_cells_valid(rows),
    ensures
        fold_cells(empty_grid(rows.len()), cell_values(rows, rows.len() as int), cell_values(rows, rows.len() as int).len() as int)
            matches Some(Ok(g)) && g.rows == rows,
{
    lemma_rows_fold(rows, rows.len() as int);
    let z = partial_grid(rows, 0, 0);
    assert(z.rows =~~= empty_grid(rows.len()).rows);
    assert(z.occupied =~= empty_grid(rows.len()).occupied);
    let f = partial_grid(rows, rows.len() as int, 0);
    assert(f.rows =~= rows);
}

} // verus!

verus! {

proof fn lemma_key_literals()
    ensures
        "name="@ == "name"@ + "="@,
        "genre="@ == "genre"@ + "="@,
        "meter="@ == "meter"@ + "="@,
        "rows="@ == "rows"@ + "="@,
        "cell="@ == "cell"@ + "="@,
        no_char("name"@, '='),
        no_char("genre"@, '='),
        no_char("meter"@, '='),
        no_char("rows"@, '='),
        no_char("cell"@, '='),
        "genre"@ != "name"@,
        "meter"@ != "name"@,
        "meter"@ != "genre"@,
        "rows"@ != "name"@,
        "rows"@ != "genre"@,
        "rows"@ != "meter"@,
        "cell"@ != "name"@,
        "cell"@ != "genre"@,
        "cell"@ != "meter"@,
        "cell"@ != "rows"@,
{
    reveal_strlit("name=");
    reveal_strlit("genre=");
    reveal_strlit("meter=");
    reveal_strlit("rows=");
    reveal_strlit("cell=");
    reveal_strlit("name");
    reveal_strlit("genre");
    reveal_strlit("meter");
    reveal_strlit("rows");
    reveal_strlit("cell");
    reveal_strlit("=");
    assert("name="@ =~= "name"@ + "="@);
    assert("genre="@ =~= "genre"@ + "="@);
    assert("meter="@ =~= "meter"@ + "="@);
    assert("rows="@ =~= "rows"@ + "="@);
    assert("cell="@ =~= "cell"@ + "="@);
    assert("genre"@[0] != "name"@[0]);
    assert("meter"@[0] != "genre"@[0]);
    assert("rows"@[0] != "name"@[0]);
    assert("cell"@[0] != "name"@[0]);
    assert("cell"@[0] != "rows"@[0]);
}

proof fn lemma_field_line(key: Seq<char>, keyed: Seq<char>, value: Seq<char>)
    requires
        keyed == key + "="@,
        no_char(key, '='),
    ensures
        crate::text::split_once(keyed + value, '=') == Some((key, value)),
{
    lemma_split_key(key, value);
    assert(keyed + value =~= key + "="@ + value);
}

/// The header lines after the version read as name, genre, meter and rows.
proof fn lemma_fold_header(name: Seq<char>, genre: Seq<char>, meter: u8, n: nat)
    requires
        n <= 256,
    ensures
        fold_fields(
            seq!["name="@ + name, "genre="@ + genre, "meter="@ + decimal(meter as nat), "rows="@ + decimal(n)],
            4,
        ) == Ok::<FieldsModel, Seq<char>>(
            FieldsModel { name: Some(name), genre: Some(genre), meter: Some(meter), rows: Some(n), cells: Seq::empty() },
        ),
{
    lemma_key_literals();
    let h = seq!["name="@ + name, "genre="@ + genre, "meter="@ + decimal(meter as nat), "rows="@ + decimal(n)];
    lemma_field_line("name"@, "name="@, name);
    lemma_field_line("genre"@, "genre="@, genre);
    lemma_field_line("meter"@, "meter="@, decimal(meter as nat));
    lemma_field_line("rows"@, "rows="@, decimal(n));
    crate::text::lemma_parse_decimal(meter as nat, 255);
    crate::text::lemma_parse_decimal(n, usize::MAX as int);
    reveal_with_fuel(fold_fields, 5);
}

/// Cell lines after the header add their values to the cells read.
proof fn lemma_fold_cell_lines(a: Seq<Seq<char>>, vs: Seq<Seq<char>>, f: FieldsModel)
    requires
        fold_fields(a, a.len() as int) == Ok::<FieldsModel, Seq<char>>(f),
    ensures
        fold_fields(a + with_cell_prefix(vs), (a + with_cell_prefix(vs)).len() as int) == Ok::<FieldsModel, Seq<char>>(
            FieldsModel { cells: f.cells + vs, ..f },
        ),
    decreases vs.len(),
{
    if vs.len() == 0 {
        assert(a + with_cell_prefix(vs) =~= a);
        assert(f.cells + vs =~= f.cells);
    } else {
        let v0 = vs.drop_last();
        lemma_fold_cell_lines(a, v0, f);
        let prefix = a + with_cell_prefix(v0);
        let line = "cell="@ + vs.last();
        assert(a + with_cell_prefix(vs) =~= prefix.push(line));
        lemma_fold_fields_prefix(prefix, line, prefix.len() as int);
        lemma_key_literals();
        lemma_field_line("cell"@, "cell="@, vs.last());
        assert((f.cells + v0).push(vs.last()) =~= f.cells + vs);
    }
}

} // verus!

verus! {

// Sizes

proof fn lemma_utf8_len(s: Seq<char>)
    ensures
        vstd::utf8::encode_utf8(s).len() <= 4 * s.len(),
    decreases s.len(),
{
    if s.len() > 0 {
        lemma_utf8_len(s.drop_first());
        let c = s[0] as u32;
        assert(vstd::utf8::encode_scalar(c).len() <= 4);
    }
}

proof fn lemma_terminated_len(ls: Seq<Seq<char>>, bound: nat)
    requires
        bound == 40,
        forall|i: int| 0 <= i < ls.len() ==> (#[trigger] ls[i]).len() <= bound,
    ensures
        terminated(ls).len() <= 41 * ls.len(),
    decreases ls.len(),
{
    reveal_strlit("\n");
    if ls.len() > 0 {
        assert forall|i: int| 0 <= i < ls.drop_last().len() implies (#[trigger] ls.drop_last()[i]).len() <= bound by {
            assert(ls.drop_last()[i] == ls[i]);
        }
        lemma_terminated_len(ls.drop_last(), bound);
        assert(ls.last().len() <= bound);
    }
}

proof fn lemma_cell_value_len(row: nat, lane: nat, c: Cell)
    requires
        row < 256,
        lane < 4,
        c.spec_valid(),
    ensures
        cell_line(row, lane, c).len() <= 40,
{
    reveal_strlit("-");
    reveal_strlit("off");
    reveal_strlit("C");
    reveal_strlit("D");
    reveal_strlit("R");
    reveal_strlit("T");
    reveal_strlit("|");
    reveal_strlit("cell=");
    let fs = cell_fields(row, lane, c);
    crate::text::lemma_decimal_digits(row);
    crate::text::lemma_decimal_digits(lane);
    match c.note {
        Note::On(v) => crate::text::lemma_decimal_digits(v as nat),
        _ => {},
    }
    match c.velocity {
        Some(v) => crate::text::lemma_decimal_digits(v as nat),
        None => {},
    }
    match c.program {
        Some(v) => crate::text::lemma_decimal_digits(v as nat),
        None => {},
    }
    match c.gate {
        Some(v) => crate::text::lemma_decimal_digits(v as nat),
        None => {},
    }
    match c.command {
        Command::Cut(v) => crate::text::lemma_decimal_digits(v as nat),
        Command::Delay(v) => crate::text::lemma_decimal_digits(v as nat),
        Command::Retrigger(v) => crate::text::lemma_decimal_digits(v as nat),
        Command::Tempo(v) => crate::text::lemma_decimal_digits(v as nat),
        Command::Blank => {},
    }
    assert(forall|i: int| 0 <= i < 7 ==> (#[trigger] fs[i]).len() <= 4);
    assert(crate::text::join_with(fs.take(1), "|"@) == fs[0]);
    lemma_join_push(fs.take(1), fs[1], "|"@);
    assert(fs.take(2) =~= fs.take(1).push(fs[1]));
    lemma_join_push(fs.take(2), fs[2], "|"@);
    assert(fs.take(3) =~= fs.take(2).push(fs[2]));
    lemma_join_push(fs.take(3), fs[3], "|"@);
    assert(fs.take(4) =~= fs.take(3).push(fs[3]));
    lemma_join_push(fs.take(4), fs[4], "|"@);
    assert(fs.take(5) =~= fs.take(4).push(fs[4]));
    lemma_join_push(fs.take(5), fs[5], "|"@);
    assert(fs.take(6) =~= fs.take(5).push(fs[5]));
    lemma_join_push(fs.take(6), fs[6], "|"@);
    assert(fs.take(7) =~= fs.take(6).push(fs[6]));
    assert(fs.take(7) =~= fs);
}

proof fn lemma_row_lines_bounded(row: nat, cells: Seq<Cell>, j: int)
    requires
        row < 256,
        0 <= j <= cells.len() <= 4,
        forall|l: int| 0 <= l < cells.len() ==> (#[trigger] cells[l]).spec_valid(),
    ensures
        row_cell_lines(row, cells, j).len() <= j,
        forall|i: int| 0 <= i < row_cell_lines(row, cells, j).len() ==> (#[trigger] row_cell_lines(row, cells, j)[i]).len() <= 40,
    decreases j,
{
    if j > 0 {
        lemma_row_lines_bounded(row, cells, j - 1);
        if cells[j - 1] != empty_cell() {
            lemma_cell_value_len(row, (j - 1) as nat, cells[j - 1]);
        }
    }
}

proof fn lemma_cell_lines_bounded(rows: Seq<Seq<Cell>>, k: int)
    requires
        0 <= k <= rows.len() <= 256,
        rows_shaped(rows),
        all_cells_valid(rows),
    ensures
        cell_lines(rows, k).len() <= 4 * k,
        forall|i: int| 0 <= i < cell_lines(rows, k).len() ==> (#[trigger] cell_lines(rows, k)[i]).len() <= 40,
    decreases k,
{
    if k > 0 {
        lemma_cell_lines_bounded(rows, k - 1);
        let r = rows[k - 1];
        assert(r.len() == LANES_PER_PAGE);
        assert forall|l: int| 0 <= l < r.len() implies (#[trigger] r[l]).spec_valid() by {
            assert(rows[k - 1][l] == r[l]);
        }
        lemma_row_lines_bounded((k - 1) as nat, r, r.len() as int);
        let a = cell_lines(rows, k - 1);
        let b = row_cell_lines((k - 1) as nat, r, r.len() as int);
        assert forall|i: int| 0 <= i < (a + b).len() implies (#[trigger] (a + b)[i]).len() <= 40 by {
            if i < a.len() {
                assert((a + b)[i] == a[i]);
            } else {
                assert((a + b)[i] == b[i - a.len()]);
            }
        }
    }
}

/// A valid pattern's file fits the size limit.
proof fn lemma_encoded_size(p: PatternModel)
    requires
        spec_pattern_error(p) is None,
        rows_shaped(p.rows),
    ensures
        (vstd::utf8::encode_utf8(terminated(encode_lines(p))).len() as usize) <= MAX_BYTES,
{
    reveal_strlit("\n");
    reveal_strlit("SHR-DRUM-PATTERN 1");
    reveal_strlit("name=");
    reveal_strlit("genre=");
    reveal_strlit("meter=");
    reveal_strlit("rows=");
    let h = header_lines(p);
    let n = p.rows.len();
    crate::text::lemma_decimal_digits(p.meter as nat);
    crate::text::lemma_decimal_digits(n);
    reveal_with_fuel(terminated, 6);
    assert(h.drop_last() =~= seq![h[0], h[1], h[2], h[3]]);
    assert(seq![h[0], h[1], h[2], h[3]].drop_last() =~= seq![h[0], h[1], h[2]]);
    assert(seq![h[0], h[1], h[2]].drop_last() =~= seq![h[0], h[1]]);
    assert(seq![h[0], h[1]].drop_last() =~= seq![h[0]]);
    assert(seq![h[0]].drop_last() =~= Seq::<Seq<char>>::empty());
    assert(terminated(h).len() <= 200);
    lemma_cell_lines_bounded(p.rows, n as int);
    let c = cell_lines(p.rows, n as int);
    lemma_terminated_len(c, 40);
    lemma_terminated_concat(h, c);
    let t = terminated(encode_lines(p));
    assert(t.len() <= 200 + 41 * 1024);
    lemma_utf8_len(t);
}

} // verus!

verus! {

/// Free of line breaks: no `\n` and no `\r`.
pub open spec fn plain(s: Seq<char>) -> bool {
    no_char(s, '\n') && no_char(s, '\r')
}

proof fn lemma_plain_concat(a: Seq<char>, b: Seq<char>)
    requires
        plain(a),
        plain(b),
    ensures
        plain(a + b),
{
    assert forall|i: int| 0 <= i < (a + b).len() implies #[trigger] (a + b)[i] != '\n' && (a + b)[i] != '\r' by {
        if i < a.len() {
            assert((a + b)[i] == a[i]);
        } else {
            assert((a + b)[i] == b[i - a.len()]);
        }
    }
}

proof fn lemma_join_plain(ws: Seq<Seq<char>>, sep: Seq<char>)
    requires
        plain(sep),
        forall|i: int| 0 <= i < ws.len() ==> plain(#[trigger] ws[i]),
    ensures
        plain(crate::text::join_with(ws, sep)),
    decreases ws.len(),
{
    if ws.len() == 0 {
    } else if ws.len() == 1 {
        assert(plain(ws[0]));
    } else {
        assert forall|i: int| 0 <= i < ws.drop_last().len() implies plain(#[trigger] ws.drop_last()[i]) by {
            assert(ws.drop_last()[i] == ws[i]);
        }
        lemma_join_plain(ws.drop_last(), sep);
        assert(plain(ws.last()));
        lemma_plain_concat(crate::text::join_with(ws.drop_last(), sep), sep);
        lemma_plain_concat(crate::text::join_with(ws.drop_last(), sep) + sep, ws.last());
    }
}

proof fn lemma_literals_plain()
    ensures
        plain("-"@),
        plain("off"@),
        plain("C"@),
        plain("D"@),
        plain("R"@),
        plain("T"@),
        plain("|"@),
        plain("cell="@),
        plain("name="@),
        plain("genre="@),
        plain("meter="@),
        plain("rows="@),
        plain("SHR-DRUM-PATTERN 1"@),
{
    reveal_strlit("-");
    reveal_strlit("off");
    reveal_strlit("C");
    reveal_strlit("D");
    reveal_strlit("R");
    reveal_strlit("T");
    reveal_strlit("|");
    reveal_strlit("cell=");
    reveal_strlit("name=");
    reveal_strlit("genre=");
    reveal_strlit("meter=");
    reveal_strlit("rows=");
    reveal_strlit("SHR-DRUM-PATTERN 1");
}

proof fn lemma_decimal_is_plain(n: nat)
    ensures
        plain(decimal(n)),
{
    lemma_decimal_plain(n);
}

proof fn lemma_cell_line_plain(row: nat, lane: nat, c: Cell)
    ensures
        plain(cell_line(row, lane, c)),
{
    lemma_literals_plain();
    lemma_decimal_is_plain(row);
    lemma_decimal_is_plain(lane);
    let fs = cell_fields(row, lane, c);
    match c.note {
        Note::On(v) => lemma_decimal_is_plain(v as nat),
        _ => {},
    }
    match c.velocity {
        Some(v) => lemma_decimal_is_plain(v as nat),
        None => {},
    }
    match c.program {
        Some(v) => lemma_decimal_is_plain(v as nat),
        None => {},
    }
    match c.gate {
        Some(v) => lemma_decimal_is_plain(v as nat),
        None => {},
    }
    match c.command {
        Command::Cut(v) => {
            lemma_decimal_is_plain(v as nat);
            lemma_plain_concat("C"@, decimal(v as nat));
        },
        Command::Delay(v) => {
            lemma_decimal_is_plain(v as nat);
            lemma_plain_concat("D"@, decimal(v as nat));
        },
        Command::Retrigger(v) => {
            lemma_decimal_is_plain(v as nat);
            lemma_plain_concat("R"@, decimal(v as nat));
        },
        Command::Tempo(v) => {
            lemma_decimal_is_plain(v as nat);
            lemma_plain_concat("T"@, decimal(v as nat));
        },
        Command::Blank => {},
    }
    assert forall|i: int| 0 <= i < fs.len() implies plain(#[trigger] fs[i]) by {
        if i == 0 {} else if i == 1 {} else if i == 2 {} else if i == 3 {} else if i == 4 {} else if i == 5 {} else {}
    }
    lemma_join_plain(fs, "|"@);
    lemma_plain_concat("cell="@, cell_value(row, lane, c));
}

proof fn lemma_control_free_plain(s: Seq<char>)
    requires
        !has_control(s),
    ensures
        plain(s),
{
    assert forall|i: int| 0 <= i < s.len() implies #[trigger] s[i] != '\n' && s[i] != '\r' by {
        if s[i] == '\n' || s[i] == '\r' {
            assert(is_control(s[i]));
        }
    }
}

proof fn lemma_row_lines_plain(row: nat, cells: Seq<Cell>, j: int)
    ensures
        forall|i: int| 0 <= i < row_cell_lines(row, cells, j).len() ==> plain(#[trigger] row_cell_lines(row, cells, j)[i]),
    decreases j,
{
    if j > 0 {
        lemma_row_lines_plain(row, cells, j - 1);
        if cells[j - 1] != empty_cell() {
            lemma_cell_line_plain(row, (j - 1) as nat, cells[j - 1]);
            let prev = row_cell_lines(row, cells, j - 1);
            let cur = row_cell_lines(row, cells, j);
            assert forall|i: int| 0 <= i < cur.len() implies plain(#[trigger] cur[i]) by {
                if i < prev.len() {
                    assert(cur[i] == prev[i]);
                }
            }
        }
    }
}

proof fn lemma_cell_lines_plain(rows: Seq<Seq<Cell>>, k: int)
    ensures
        forall|i: int| 0 <= i < cell_lines(rows, k).len() ==> plain(#[trigger] cell_lines(rows, k)[i]),
    decreases k,
{
    if k > 0 {
        lemma_cell_lines_plain(rows, k - 1);
        let r = rows[k - 1];
        lemma_row_lines_plain((k - 1) as nat, r, r.len() as int);
        let a = cell_lines(rows, k - 1);
        let b = row_cell_lines((k - 1) as nat, r, r.len() as int);
        assert forall|i: int| 0 <= i < (a + b).len() implies plain(#[trigger] (a + b)[i]) by {
            if i < a.len() {
                assert((a + b)[i] == a[i]);
            } else {
                assert((a + b)[i] == b[i - a.len()]);
            }
        }
    }
}

proof fn lemma_starts_with(prefix: Seq<char>, rest: Seq<char>, c: char)
    requires
        prefix.len() > 0,
        prefix[0] == c,
        !crate::text::is_ws(c),
        c != '#',
    ensures
        is_content(prefix + rest),
{
    let l = prefix + rest;
    assert(l[0] == c);
    crate::text::lemma_trim_nonempty(l);
}

} // verus!

verus! {

/// Reading back what `encode` writes gives the same pattern: for every
/// valid pattern, the encoded text decodes to it.
pub proof fn lemma_decode_encode(p: PatternModel)
    requires
        spec_pattern_error(p) is None,
        rows_shaped(p.rows),
    ensures
        spec_encode(p) matches Ok(text) && spec_decode(text) == Some(Ok::<PatternModel, Seq<char>>(p)),
{
    let n = p.rows.len();
    let h = header_lines(p);
    let c = cell_lines(p.rows, n as int);
    let ls = encode_lines(p);
    let text = terminated(ls);
    lemma_encoded_size(p);

    // the lines read back
    lemma_literals_plain();
    lemma_control_free_plain(p.name);
    lemma_control_free_plain(p.genre);
    lemma_decimal_is_plain(p.meter as nat);
    lemma_decimal_is_plain(n);
    lemma_plain_concat("name="@, p.name);
    lemma_plain_concat("genre="@, p.genre);
    lemma_plain_concat("meter="@, decimal(p.meter as nat));
    lemma_plain_concat("rows="@, decimal(n));
    lemma_cell_lines_plain(p.rows, n as int);
    assert forall|i: int| 0 <= i < ls.len() implies line_ok(#[trigger] ls[i]) by {
        if i < 5 {
            assert(ls[i] == h[i]);
            assert(plain(h[i]));
        } else {
            assert(ls[i] == c[i - 5]);
            assert(plain(c[i - 5]));
        }
    }
    lemma_lines_of_terminated(ls);
    assert(spec_lines(text) == ls);

    // the version line
    reveal_strlit("SHR-DRUM-PATTERN 1");
    reveal_strlit("SHR-DRUM-PATTERN ");
    reveal_strlit("1");
    assert(ls[0] == h[0]);
    assert(h[0].subrange(0, "SHR-DRUM-PATTERN "@.len() as int) =~= "SHR-DRUM-PATTERN "@);
    assert(h[0].subrange("SHR-DRUM-PATTERN "@.len() as int, h[0].len() as int) =~= "1"@);
    assert(decimal(1) =~= "1"@);
    crate::text::lemma_parse_decimal(1, 255);

    // the content lines and their fields
    lemma_lines_values(p.rows, n as int);
    let vals = cell_values(p.rows, n as int);
    let head = seq![h[1], h[2], h[3], h[4]];
    assert(ls.drop_first() =~= head + with_cell_prefix(vals));
    reveal_strlit("name=");
    reveal_strlit("genre=");
    reveal_strlit("meter=");
    reveal_strlit("rows=");
    reveal_strlit("cell=");
    assert forall|i: int| 0 <= i < ls.drop_first().len() implies is_content(#[trigger] ls.drop_first()[i]) by {
        let l = ls.drop_first()[i];
        if i == 0 {
            lemma_starts_with("name="@, p.name, 'n');
        } else if i == 1 {
            lemma_starts_with("genre="@, p.genre, 'g');
        } else if i == 2 {
            lemma_starts_with("meter="@, decimal(p.meter as nat), 'm');
        } else if i == 3 {
            lemma_starts_with("rows="@, decimal(n), 'r');
        } else {
            assert(l == "cell="@ + vals[i - 4]);
            lemma_starts_with("cell="@, vals[i - 4], 'c');
        }
    }
    lemma_all_content(ls.drop_first());
    lemma_fold_header(p.name, p.genre, p.meter, n);
    let f4 = FieldsModel { name: Some(p.name), genre: Some(p.genre), meter: Some(p.meter), rows: Some(n), cells: Seq::empty() };
    lemma_fold_cell_lines(head, vals, f4);
    assert(Seq::<Seq<char>>::empty() + vals =~= vals);

    // the cells
    lemma_cells_rebuild_rows(p.rows);
}

} // verus!

verus! {

// ---------------------------------------------------------------------------
// Phrases
// ---------------------------------------------------------------------------

/// A cell that plays `note` at `velocity`.
pub open spec fn note_cell(note: u8, velocity: u8) -> Cell {
    Cell { note: Note::On(note), ..empty_cell() }.with_velocity(velocity)
}

impl Cell {
    pub open spec fn with_velocity(self, velocity: u8) -> Cell {
        Cell { velocity: Some(velocity), ..self }
    }
}

pub(crate) fn note_cell_exec(note: u8, velocity: u8) -> (r: Cell)
    ensures
        r == note_cell(note, velocity),
{
    Cell { note: Note::On(note), velocity: Some(velocity), program: None, gate: None, command: Command::Blank }
}

/// Whether row `r` of a phrase of `bars` bars of `len` rows is the pickup
/// row of an odd bar: two rows before the end of bar `b`, for odd `b`
/// below `bars`.
pub open spec fn is_pickup_row(r: int, len: int, bars: int) -> bool {
    (r + 2) % len == 0 && ((r + 2) / len) % 2 == 0 && 2 <= (r + 2) / len <= bars
}

/// Whether row `r` is the last row of an odd bar.
pub open spec fn is_open_hat_row(r: int, len: int, bars: int) -> bool {
    (r + 1) % len == 0 && ((r + 1) / len) % 2 == 0 && 2 <= (r + 1) / len <= bars
}

/// Row `r` of the one-bar groove repeated `bars` times, with odd bars
/// varied: a soft kick at the pickup and an open hat at the bar's end,
/// where those lanes are empty.
pub open spec fn varied_row(rows: Seq<Seq<Cell>>, bars: int, r: int) -> Seq<Cell> {
    let len = rows.len() as int;
    let base = rows[r % len];
    let with_kick = if is_pickup_row(r, len, bars) && base[0] == empty_cell() {
        base.update(0, note_cell(36, 76))
    } else {
        base
    };
    if is_open_hat_row(r, len, bars) && with_kick[2] == empty_cell() {
        with_kick.update(2, note_cell(46, 72))
    } else {
        with_kick
    }
}

pub open spec fn named_genre(genre: Seq<char>) -> bool {
    genre == "House"@ || genre == "Techno"@ || genre == "Hip-Hop"@ || genre == "Funk"@ || genre == "Latin"@
        || genre == "Jazz"@
}

/// The fill toms of the default phrase ending.
pub open spec fn fill_tom(offset: int) -> u8 {
    if offset == 0 { 45 } else if offset == 1 { 47 } else if offset == 2 { 50 } else { 47 }
}

/// Cell `l` of row `r` after the genre's fill over the last four rows.
pub open spec fn filled_cell(rows: Seq<Seq<Cell>>, genre: Seq<char>, r: int, l: int) -> Cell {
    let end = rows.len() as int;
    let start = if end >= 4 { end - 4 } else { 0 };
    let cur = rows[r][l];
    let in_fill = start <= r < end;
    if genre == "House"@ || genre == "Techno"@ {
        if in_fill && l == 1 { note_cell(38, (58 + (r - start) * 12) as u8) } else { cur }
    } else if genre == "Hip-Hop"@ || genre == "Funk"@ {
        if in_fill && (r - start) % 2 == 0 && l == 1 && cur == empty_cell() { note_cell(38, 52) } else { cur }
    } else if genre == "Latin"@ {
        if in_fill && l == 3 && cur == empty_cell() { note_cell(37, (64 + (r - start) * 8) as u8) } else { cur }
    } else if genre == "Jazz"@ {
        if l == 1 && r == end - 2 {
            note_cell(38, 62)
        } else if l == 1 && r == start {
            note_cell(38, 48)
        } else if l == 2 && r == end - 1 {
            note_cell(51, 88)
        } else {
            cur
        }
    } else {
        if start <= r < start + 4 && l == 3 {
            note_cell(fill_tom(r - start), (72 + (r - start) * 10) as u8)
        } else if start <= r < start + 4 && l == 2 {
            empty_cell()
        } else {
            cur
        }
    }
}

/// The rows after the phrase-ending fill.
pub open spec fn phrase_filled(rows: Seq<Seq<Cell>>, genre: Seq<char>) -> Seq<Seq<Cell>> {
    Seq::new(rows.len(), |r: int| Seq::new(LANES_PER_PAGE as nat, |l: int| filled_cell(rows, genre, r, l)))
}

/// Whether the default fill would reach past a phrase shorter than four rows.
pub open spec fn fill_overruns(rows: Seq<Seq<Cell>>, genre: Seq<char>) -> bool {
    rows.len() < 4 && !named_genre(genre)
}

/// A one-bar groove expanded into a phrase of `target` rows, or why not.
pub open spec fn spec_arrange(p: PatternModel, target: nat) -> Result<PatternModel, Seq<char>> {
    match spec_pattern_error(p) {
        Some(e) => Err(e),
        None => {
            let len = p.rows.len();
            if target < len || target % len != 0 {
                Err(decimal(len) + " rows do not expand evenly into "@ + decimal(target))
            } else {
                let bars = (target / len) as int;
                let tiled = Seq::new(target, |r: int| varied_row(p.rows, bars, r));
                let rows = if bars > 1 { phrase_filled(tiled, p.genre) } else { tiled };
                let arranged = PatternModel { name: p.name + " · "@ + decimal(target), rows, ..p };
                match spec_pattern_error(arranged) {
                    Some(e) => Err(e),
                    None => Ok(arranged),
                }
            }
        }
    }
}

/// Whether expanding would run the default fill past a phrase shorter than
/// four rows (a valid groove expanded evenly into two or three rows).
pub open spec fn arrange_overruns(p: PatternModel, target: nat) -> bool {
    &&& spec_pattern_error(p) is None
    &&& target >= p.rows.len()
    &&& target % p.rows.len() == 0
    &&& target / p.rows.len() > 1
    &&& target < 4
    &&& !named_genre(p.genre)
}

impl DrumPattern {
    /// A copy of this pattern, field by field.
    pub fn copied(&self) -> (r: Self)
        ensures
            r@ == self@,
    {
        let mut rows: Vec<[Cell; LANES_PER_PAGE]> = Vec::new();
        let mut i: usize = 0;
        while i < self.rows.len()
            invariant
                i <= self.rows.len(),
                rows@ == self.rows@.take(i as int),
            decreases self.rows.len() - i,
        {
            rows.push(self.rows[i]);
            assert(self.rows@.take(i + 1) =~= self.rows@.take(i as int).push(self.rows@[i as int]));
            i += 1;
        }
        assert(self.rows@.take(self.rows.len() as int) =~= self.rows@);
        DrumPattern { name: self.name.clone(), genre: self.genre.clone(), meter: self.meter, rows }
    }
}

fn genre_is(genre: &Vec<char>, name: &str) -> (r: bool)
    ensures
        r == (genre@ == name@),
{
    let n = chars_of(name);
    chars_eq(genre, &n)
}

/// The genre's fill over the last four rows of a phrase.
fn add_phrase_fill(pattern: &mut DrumPattern)
    requires
        !fill_overruns(old(pattern)@.rows, old(pattern)@.genre),
        forall|r: int| 0 <= r < old(pattern)@.rows.len() ==> (#[trigger] old(pattern)@.rows[r]).len() == LANES_PER_PAGE,
    ensures
        final(pattern)@ == (PatternModel { rows: phrase_filled(old(pattern)@.rows, old(pattern)@.genre), ..old(pattern)@ }),
{
    let ghost before = pattern@.rows;
    let genre = chars_of(pattern.genre.as_str());
    let house = genre_is(&genre, "House") || genre_is(&genre, "Techno");
    let hip_hop = genre_is(&genre, "Hip-Hop") || genre_is(&genre, "Funk");
    let latin = genre_is(&genre, "Latin");
    let jazz = genre_is(&genre, "Jazz");
    let end = pattern.rows.len();
    let start = if end >= 4 { end - 4 } else { 0 };
    let mut r: usize = 0;
    while r < end
        invariant
            end == pattern.rows.len(),
            start == (if end >= 4 { end - 4 } else { 0 }),
            r <= end,
            before.len() == end,
            genre@ == old(pattern)@.genre,
            pattern@.genre == old(pattern)@.genre,
            pattern@.name == old(pattern)@.name,
            pattern@.meter == old(pattern)@.meter,
            house == (genre@ == "House"@ || genre@ == "Techno"@),
            hip_hop == (genre@ == "Hip-Hop"@ || genre@ == "Funk"@),
            latin == (genre@ == "Latin"@),
            jazz == (genre@ == "Jazz"@),
            !fill_overruns(before, genre@),
            forall|a: int| 0 <= a < end ==> (#[trigger] before[a]).len() == LANES_PER_PAGE,
            forall|a: int| 0 <= a < r ==> #[trigger] pattern@.rows[a] == phrase_filled(before, genre@)[a],
            forall|a: int| r <= a < end ==> #[trigger] pattern@.rows[a] == before[a],
        decreases end - r,
    {
        let old_row = pattern.rows[r];
        let mut row = old_row;
        assert(pattern@.rows[r as int] == pattern.rows@[r as int]@);
        assert(old_row@ == before[r as int]);
        let mut l: usize = 0;
        while l < LANES_PER_PAGE
            invariant
                r < end,
                end == pattern.rows.len(),
                start == (if end >= 4 { end - 4 } else { 0 }),
                l <= LANES_PER_PAGE,
                before.len() == end,
                old_row@ == before[r as int],
                house == (genre@ == "House"@ || genre@ == "Techno"@),
                hip_hop == (genre@ == "Hip-Hop"@ || genre@ == "Funk"@),
                latin == (genre@ == "Latin"@),
                jazz == (genre@ == "Jazz"@),
                !fill_overruns(before, genre@),
                forall|j: int| 0 <= j < l ==> #[trigger] row@[j] == filled_cell(before, genre@, r as int, j),
                forall|j: int| l <= j < LANES_PER_PAGE ==> #[trigger] row@[j] == old_row@[j],
            decreases LANES_PER_PAGE - l,
        {
            let cur = old_row[l];
            let in_fill = start <= r && r < end;
            let next = if house {
                if in_fill && l == 1 {
                    note_cell_exec(38, 58 + ((r - start) as u8) * 12)
                } else {
                    cur
                }
            } else if hip_hop {
                if in_fill && (r - start) % 2 == 0 && l == 1 && cur == Cell::empty() {
                    note_cell_exec(38, 52)
                } else {
                    cur
                }
            } else if latin {
                if in_fill && l == 3 && cur == Cell::empty() {
                    note_cell_exec(37, 64 + ((r - start) as u8) * 8)
                } else {
                    cur
                }
            } else if jazz {
                if l == 1 && end >= 2 && r == end - 2 {
                    note_cell_exec(38, 62)
                } else if l == 1 && r == start {
                    note_cell_exec(38, 48)
                } else if l == 2 && r == end - 1 {
                    note_cell_exec(51, 88)
                } else {
                    cur
                }
            } else {
                if start <= r && r < start + 4 && l == 3 {
                    let offset = r - start;
                    let tom: u8 = if offset == 0 { 45 } else if offset == 1 { 47 } else if offset == 2 { 50 } else { 47 };
                    note_cell_exec(tom, 72 + (offset as u8) * 10)
                } else if start <= r && r < start + 4 && l == 2 {
                    Cell::empty()
                } else {
                    cur
                }
            };
            assert(next == filled_cell(before, genre@, r as int, l as int));
            row[l] = next;
            l += 1;
        }
        assert(row@ =~= phrase_filled(before, genre@)[r as int]);
        let ghost prev_rows = pattern@.rows;
        pattern.rows.set(r, row);
        assert(pattern@.rows =~= prev_rows.update(r as int, row@));
        r += 1;
    }
    assert(pattern@.rows =~= phrase_filled(before, genre@));
}

} // verus!

verus! {

/// Row `r` of the tiled, varied phrase.
fn varied_row_exec(pattern: &DrumPattern, bars: usize, r: usize) -> (row: [Cell; LANES_PER_PAGE])
    requires
        pattern.rows.len() > 0,
        r <= 256,
    ensures
        row@ == varied_row(pattern@.rows, bars as int, r as int),
{
    let len = pattern.rows.len();
    let base = pattern.rows[r % len];
    assert(pattern@.rows[(r % len) as int] == pattern.rows@[(r % len) as int]@);
    let mut row = base;
    let k2 = r + 2;
    let pickup = k2 % len == 0 && (k2 / len) % 2 == 0 && 2 <= k2 / len && k2 / len <= bars;
    if pickup && row[0] == Cell::empty() {
        row[0] = note_cell_exec(36, 76);
    }
    let ghost with_kick = row@;
    let k1 = r + 1;
    let open_hat = k1 % len == 0 && (k1 / len) % 2 == 0 && 2 <= k1 / len && k1 / len <= bars;
    if open_hat && row[2] == Cell::empty() {
        row[2] = note_cell_exec(46, 72);
    }
    row
}

/// Expands a one-bar groove into a phrase of `target_rows` rows: the bar
/// repeated, odd bars varied, and a genre fill at the end of a phrase of
/// several bars; the named result is validated.
pub fn arrange(pattern: &DrumPattern, target_rows: usize) -> (r: Result<DrumPattern, String>)
    requires
        !arrange_overruns(pattern@, target_rows as nat),
    ensures
        match r {
            Ok(a) => spec_arrange(pattern@, target_rows as nat) == Ok::<PatternModel, Seq<char>>(a@),
            Err(e) => spec_arrange(pattern@, target_rows as nat) == Err::<PatternModel, Seq<char>>(e@),
        },
{
    match validate(pattern) {
        Err(e) => {
            return Err(e);
        },
        Ok(()) => {},
    }
    let len = pattern.rows.len();
    if target_rows < len || target_rows % len != 0 {
        let mut message = String::new();
        push_decimal(&mut message, len as u64);
        push_str(&mut message, " rows do not expand evenly into ");
        push_decimal(&mut message, target_rows as u64);
        return Err(message);
    }
    let bars = target_rows / len;
    let mut name = pattern.name.clone();
    push_str(&mut name, " · ");
    push_decimal(&mut name, target_rows as u64);
    let ghost p = pattern@;
    if target_rows > 256 {
        proof {
            reveal_strlit(" · ");
            crate::text::lemma_decimal_digits(target_rows as nat);
            assert(!has_control(name@)) by {
                assert forall|i: int| 0 <= i < name@.len() implies !is_control(#[trigger] name@[i]) by {
                    if i < p.name.len() {
                        assert(name@[i] == p.name[i]);
                    } else if i < p.name.len() + 3 {
                        assert(name@[i] == " · "@[i - p.name.len()]);
                    } else {
                        assert(name@[i] == decimal(target_rows as nat)[i - p.name.len() - 3]);
                        assert(crate::text::is_digit(decimal(target_rows as nat)[i - p.name.len() - 3]));
                    }
                }
            }
        }
        let chars = chars_of(name.as_str());
        if chars.len() > 64 {
            return Err(owned("drum pattern name must contain 1..=64 printable characters"));
        }
        return Err(owned("drum pattern needs 1..=256 rows"));
    }
    let mut rows: Vec<[Cell; LANES_PER_PAGE]> = Vec::new();
    let mut r: usize = 0;
    while r < target_rows
        invariant
            r <= target_rows <= 256,
            len == pattern.rows.len() > 0,
            bars == target_rows / len,
            rows@.len() == r,
            forall|a: int| 0 <= a < r ==> (#[trigger] rows@[a])@ == varied_row(pattern@.rows, bars as int, a),
        decreases target_rows - r,
    {
        let row = varied_row_exec(pattern, bars, r);
        rows.push(row);
        r += 1;
    }
    let mut arranged = DrumPattern { name, genre: pattern.genre.clone(), meter: pattern.meter, rows };
    proof {
        let tiled = Seq::new(target_rows as nat, |a: int| varied_row(p.rows, bars as int, a));
        assert(arranged@.rows =~= tiled);
    }
    if bars > 1 {
        add_phrase_fill(&mut arranged);
    }
    match validate(&arranged) {
        Err(e) => Err(e),
        Ok(()) => Ok(arranged),
    }
}

/// The pattern an entry offers: the bundled pattern itself, or what its
/// file's text decodes to; `None` where that text cannot be split (see
/// `spec_decode`).
pub fn load(entry: &Entry, file_text: &str) -> (r: Option<Result<DrumPattern, String>>)
    ensures
        match entry.bundled {
            Some(p) => r matches Some(Ok(q)) && q@ == p@,
            None => match r {
                None => spec_decode(file_text@) is None,
                Some(Ok(q)) => spec_decode(file_text@) == Some(Ok::<PatternModel, Seq<char>>(q@)),
                Some(Err(e)) => spec_decode(file_text@) == Some(Err::<PatternModel, Seq<char>>(e@)),
            },
        },
{
    match &entry.bundled {
        Some(p) => Some(Ok(p.copied())),
        None => decode_outcome(file_text),
    }
}


/// The rows of a phrase of `target` rows before its fill: the groove tiled
/// and varied.
pub open spec fn tiled_phrase(p: PatternModel, target: nat) -> Seq<Seq<Cell>> {
    Seq::new(target, |r: int| varied_row(p.rows, (target / p.rows.len()) as int, r))
}

proof fn lemma_arranged_rows(p: PatternModel, target: nat, a: PatternModel)
    requires
        spec_arrange(p, target) == Ok::<PatternModel, Seq<char>>(a),
        target > p.rows.len(),
    ensures
        p.rows.len() > 0,
        target / p.rows.len() > 1,
        a.rows == phrase_filled(tiled_phrase(p, target), p.genre),
        a.genre == p.genre,
{
    let len = p.rows.len();
    assert(target % len == 0);
    assert(target / len > 1) by (nonlinear_arith)
        requires target > len, target % len == 0, len > 0;
    let bars = (target / len) as int;
    assert(Seq::new(target, |r: int| varied_row(p.rows, bars, r)) =~= tiled_phrase(p, target));
}

/// A Hip-Hop or Funk phrase of more than one bar ends with a light snare
/// fill on every other row of its last four: rows end-4 and end-2 get snare
/// 38 at velocity 52 in lane 1 where that cell is empty; every other cell
/// of the phrase is the tiled, varied groove's.
#[verifier::rlimit(60)]
#[verifier::spinoff_prover]
pub proof fn lemma_backbeat_fill(p: PatternModel, target: nat, a: PatternModel, r: int, l: int)
    requires
        spec_arrange(p, target) == Ok::<PatternModel, Seq<char>>(a),
        p.genre == "Hip-Hop"@ || p.genre == "Funk"@,
        target > p.rows.len(),
        target >= 4,
        0 <= r < target,
        0 <= l < LANES_PER_PAGE,
    ensures
        ({
            let t = tiled_phrase(p, target)[r][l];
            a.rows[r][l] == if l == 1 && (r == target - 4 || r == target - 2) && t == empty_cell() {
                note_cell(38, 52)
            } else {
                t
            }
        }),
{
    lemma_arranged_rows(p, target, a);
    reveal_strlit("House");
    reveal_strlit("Techno");
    reveal_strlit("Hip-Hop");
    reveal_strlit("Funk");
    assert("Hip-Hop"@.len() != "House"@.len() && "Hip-Hop"@.len() != "Techno"@.len());
    assert("Funk"@.len() != "House"@.len() && "Funk"@.len() != "Techno"@.len());
    let tiled = tiled_phrase(p, target);
    assert(a.rows[r][l] == filled_cell(tiled, p.genre, r, l));
}

/// A House or Techno phrase of more than one bar ends with a snare roll:
/// lane 1 of each of its last four rows is snare 38, rising in velocity
/// by 12 from 58; every other cell is the tiled, varied groove's.
pub proof fn lemma_snare_roll_fill(p: PatternModel, target: nat, a: PatternModel, r: int, l: int)
    requires
        spec_arrange(p, target) == Ok::<PatternModel, Seq<char>>(a),
        p.genre == "House"@ || p.genre == "Techno"@,
        target > p.rows.len(),
        target >= 4,
        0 <= r < target,
        0 <= l < LANES_PER_PAGE,
    ensures
        a.rows[r][l] == if l == 1 && r >= target - 4 {
            note_cell(38, (58 + 12 * (r - (target - 4))) as u8)
        } else {
            tiled_phrase(p, target)[r][l]
        },
{
    lemma_arranged_rows(p, target, a);
    let tiled = tiled_phrase(p, target);
    assert(a.rows[r][l] == filled_cell(tiled, p.genre, r, l));
}


/// A Latin phrase of more than one bar ends with a rising rim-click fill:
/// each empty lane-3 cell of the last four rows gets note 37, at velocity
/// 64 rising by 8 a row; every other cell is the tiled groove's.
#[verifier::rlimit(60)]
#[verifier::spinoff_prover]
pub proof fn lemma_rim_fill(p: PatternModel, target: nat, a: PatternModel, r: int, l: int)
    requires
        spec_arrange(p, target) == Ok::<PatternModel, Seq<char>>(a),
        p.genre == "Latin"@,
        target > p.rows.len(),
        target >= 4,
        0 <= r < target,
        0 <= l < LANES_PER_PAGE,
    ensures
        ({
            let t = tiled_phrase(p, target)[r][l];
            a.rows[r][l] == if l == 3 && r >= target - 4 && t == empty_cell() {
                note_cell(37, (64 + 8 * (r - (target - 4))) as u8)
            } else {
                t
            }
        }),
{
    lemma_arranged_rows(p, target, a);
    reveal_strlit("House");
    reveal_strlit("Techno");
    reveal_strlit("Hip-Hop");
    reveal_strlit("Funk");
    reveal_strlit("Latin");
    assert("Latin"@[0] != "House"@[0] && "Latin"@.len() != "Techno"@.len());
    assert("Latin"@.len() != "Hip-Hop"@.len() && "Latin"@.len() != "Funk"@.len());
    let tiled = tiled_phrase(p, target);
    assert(a.rows[r][l] == filled_cell(tiled, p.genre, r, l));
}

/// A Jazz phrase of more than one bar ends with a snare at velocity 48 on
/// the fourth-last row, a snare at 62 on the second-last and a ride (51,
/// velocity 88) on the last; every other cell is the tiled groove's.
#[verifier::rlimit(60)]
#[verifier::spinoff_prover]
pub proof fn lemma_jazz_fill(p: PatternModel, target: nat, a: PatternModel, r: int, l: int)
    requires
        spec_arrange(p, target) == Ok::<PatternModel, Seq<char>>(a),
        p.genre == "Jazz"@,
        target > p.rows.len(),
        target >= 4,
        0 <= r < target,
        0 <= l < LANES_PER_PAGE,
    ensures
        a.rows[r][l] == if l == 1 && r == target - 4 {
            note_cell(38, 48)
        } else if l == 1 && r == target - 2 {
            note_cell(38, 62)
        } else if l == 2 && r == target - 1 {
            note_cell(51, 88)
        } else {
            tiled_phrase(p, target)[r][l]
        },
{
    lemma_arranged_rows(p, target, a);
    reveal_strlit("House");
    reveal_strlit("Techno");
    reveal_strlit("Hip-Hop");
    reveal_strlit("Funk");
    reveal_strlit("Latin");
    reveal_strlit("Jazz");
    assert("Jazz"@.len() != "House"@.len() && "Jazz"@.len() != "Techno"@.len());
    assert("Jazz"@.len() != "Hip-Hop"@.len() && "Jazz"@.len() != "Latin"@.len());
    assert("Jazz"@[0] != "Funk"@[0]);
    let tiled = tiled_phrase(p, target);
    assert(a.rows[r][l] == filled_cell(tiled, p.genre, r, l));
}

/// A phrase of more than one bar in any other genre ends with a tom run
/// over its last four rows: lane 3 gets toms 45, 47, 50, 47 at velocity 72
/// rising by 10 a row, and lane 2 is cleared there; every other cell is the
/// tiled groove's.
pub proof fn lemma_tom_fill(p: PatternModel, target: nat, a: PatternModel, r: int, l: int)
    requires
        spec_arrange(p, target) == Ok::<PatternModel, Seq<char>>(a),
        !named_genre(p.genre),
        target > p.rows.len(),
        target >= 4,
        0 <= r < target,
        0 <= l < LANES_PER_PAGE,
    ensures
        a.rows[r][l] == if r >= target - 4 && l == 3 {
            note_cell(
                if r == target - 4 { 45u8 } else if r == target - 3 { 47u8 } else if r == target - 2 { 50u8 } else { 47u8 },
                (72 + 10 * (r - (target - 4))) as u8,
            )
        } else if r >= target - 4 && l == 2 {
            empty_cell()
        } else {
            tiled_phrase(p, target)[r][l]
        },
{
    lemma_arranged_rows(p, target, a);
    let tiled = tiled_phrase(p, target);
    assert(a.rows[r][l] == filled_cell(tiled, p.genre, r, l));
}

/// The groove tiled over the phrase: every bar repeats the one-bar groove,
/// except that in odd bars (counting from 0) an empty kick cell two rows
/// before the bar's end gets a soft kick (36, velocity 76) and an empty
/// hat cell on the bar's last row gets an open hat (46, velocity 72).
#[verifier::rlimit(60)]
#[verifier::spinoff_prover]
pub proof fn lemma_tiled_groove(p: PatternModel, target: nat, bar: int, i: int, l: int)
    requires
        p.rows.len() >= 2,
        target % p.rows.len() == 0,
        0 <= bar < target / p.rows.len(),
        0 <= i < p.rows.len(),
        p.rows[i].len() == LANES_PER_PAGE,
        0 <= l < LANES_PER_PAGE,
    ensures
        ({
            let len = p.rows.len() as int;
            let g = p.rows[i][l];
            tiled_phrase(p, target)[bar * len + i][l] == if bar % 2 == 1 && i == len - 2 && l == 0 && g == empty_cell() {
                note_cell(36, 76)
            } else if bar % 2 == 1 && i == len - 1 && l == 2 && g == empty_cell() {
                note_cell(46, 72)
            } else {
                g
            }
        }),
{
    let len = p.rows.len() as int;
    let bars = (target / p.rows.len()) as int;
    let r = bar * len + i;
    vstd::arithmetic::div_mod::lemma_fundamental_div_mod(target as int, len);
    assert(target as int == len * bars);
    assert(bar * len + len <= bars * len) by (nonlinear_arith)
        requires 0 <= bar < bars, len >= 2;
    assert(0 <= bar * len) by (nonlinear_arith)
        requires 0 <= bar, len >= 2;
    assert(len * bars == bars * len) by (nonlinear_arith);
    assert(0 <= r < target);
    assert(r % len == i) by (nonlinear_arith)
        requires r == bar * len + i, 0 <= i < len, len >= 2;
    assert((r + 2) % len == (i + 2) % len && (r + 2) / len == bar + (i + 2) / len) by (nonlinear_arith)
        requires r == bar * len + i, 0 <= i < len, len >= 2;
    assert((r + 1) % len == (i + 1) % len && (r + 1) / len == bar + (i + 1) / len) by (nonlinear_arith)
        requires r == bar * len + i, 0 <= i < len, len >= 2;
    if i == len - 2 {
        assert((i + 2) % len == 0 && (i + 2) / len == 1) by (nonlinear_arith) requires i == len - 2, len >= 2;
        assert((i + 1) % len != 0) by (nonlinear_arith) requires i == len - 2, len >= 2;
    } else if i == len - 1 {
        assert((i + 1) % len == 0 && (i + 1) / len == 1) by (nonlinear_arith) requires i == len - 1, len >= 2;
        assert((i + 2) % len != 0) by (nonlinear_arith) requires i == len - 1, len >= 2;
    } else {
        assert((i + 2) % len != 0) by (nonlinear_arith) requires 0 <= i < len - 2, len >= 2;
        assert((i + 1) % len != 0) by (nonlinear_arith) requires 0 <= i < len - 2, len >= 2;
    }
    assert(tiled_phrase(p, target)[r] == varied_row(p.rows, bars, r));
    let base = p.rows[i];
    assert(p.rows[r % len] == base);
    let v = varied_row(p.rows, bars, r);
    let g = base[l];
    if i == len - 2 {
        assert(is_pickup_row(r, len, bars) == (bar % 2 == 1));
        assert(!is_open_hat_row(r, len, bars));
        if bar % 2 == 1 && base[0] == empty_cell() {
            assert(v == base.update(0, note_cell(36, 76)));
        } else {
            assert(v == base);
        }
    } else if i == len - 1 {
        assert(!is_pickup_row(r, len, bars));
        assert(is_open_hat_row(r, len, bars) == (bar % 2 == 1));
        if bar % 2 == 1 && base[2] == empty_cell() {
            assert(v == base.update(2, note_cell(46, 72)));
        } else {
            assert(v == base);
        }
    } else {
        assert(!is_pickup_row(r, len, bars));
        assert(!is_open_hat_row(r, len, bars));
        assert(v == base);
    }
}

} // verus!

