//! The bundled drum catalog: one `pattern=GENRE|METER|NAME|KICK|SNARE|HAT|PERC`
//! line per groove, each lane a `-` or a comma-separated list of hits
//! `ROW[KIND]`.
use vstd::prelude::*;
use crate::drum_pattern::{
    empty_row, note_cell, note_cell_exec, spec_pattern_error, validate, DrumPattern,
    PatternModel,
};
use crate::sequencer::{Cell, Command, Note, LANES_PER_PAGE};
use crate::text::{
    chars_eq, chars_of, chars_views, debug_quoted, debug_text, decimal, is_digit, lines_of, owned,
    int_error, int_error_text, parse_unsigned, parse_unsigned_chars, push_decimal, push_str, spec_lines, split_all,
    split_all_chars, string_from_chars, strip_prefix, strip_prefix_chars, sub_chars, trim,
    trim_chars,
};

verus! {

/// The note a lane plays by default: kick, snare, closed hat, rim.
pub open spec fn lane_base(lane: nat) -> u8 {
    if lane == 0 { 36 } else if lane == 1 { 38 } else if lane == 2 { 42 } else { 37 }
}

/// The note and velocity of a hit of `kind` in `lane`: plain, accented
/// (`X`), ghosted (`g`), an open hat (`o`, hat lane), a clap (`c`, snare
/// lane) or a rim shot (`r`, snare or percussion lane).
pub open spec fn spec_catalog_hit(lane: nat, kind: Seq<char>) -> Result<(u8, u8), Seq<char>> {
    if kind.len() == 0 {
        Ok((lane_base(lane), 92))
    } else if kind == "X"@ {
        Ok((lane_base(lane), 118))
    } else if kind == "g"@ {
        Ok((lane_base(lane), 54))
    } else if kind == "o"@ && lane == 2 {
        Ok((46, 98))
    } else if kind == "c"@ && lane == 1 {
        Ok((39, 108))
    } else if kind == "r"@ && (lane == 1 || lane == 3) {
        Ok((37, 82))
    } else {
        Err("invalid catalog drum hit kind "@ + debug_text(kind) + " for lane "@ + decimal(lane))
    }
}

fn is_text(v: &Vec<char>, s: &str) -> (r: bool)
    ensures
        r == (v@ == s@),
{
    let t = chars_of(s);
    chars_eq(v, &t)
}

fn catalog_hit(lane: usize, kind: &Vec<char>) -> (r: Result<(u8, u8), String>)
    requires
        lane < LANES_PER_PAGE,
    ensures
        match r {
            Ok(hit) => spec_catalog_hit(lane as nat, kind@) == Ok::<(u8, u8), Seq<char>>(hit),
            Err(e) => spec_catalog_hit(lane as nat, kind@) == Err::<(u8, u8), Seq<char>>(e@),
        },
{
    let base: u8 = if lane == 0 { 36 } else if lane == 1 { 38 } else if lane == 2 { 42 } else { 37 };
    if kind.len() == 0 {
        Ok((base, 92))
    } else if is_text(kind, "X") {
        Ok((base, 118))
    } else if is_text(kind, "g") {
        Ok((base, 54))
    } else if is_text(kind, "o") && lane == 2 {
        Ok((46, 98))
    } else if is_text(kind, "c") && lane == 1 {
        Ok((39, 108))
    } else if is_text(kind, "r") && (lane == 1 || lane == 3) {
        Ok((37, 82))
    } else {
        let mut out = owned("invalid catalog drum hit kind ");
        let k = string_from_chars(kind);
        let quoted = debug_quoted(k.as_str());
        push_str(&mut out, quoted.as_str());
        push_str(&mut out, " for lane ");
        push_decimal(&mut out, lane as u64);
        Err(out)
    }
}

/// Where the leading decimal digits of `s` (from `i`) end.
pub open spec fn digit_run(s: Seq<char>, i: int) -> int
    decreases s.len() - i,
{
    if i < 0 || i >= s.len() {
        s.len() as int
    } else if is_digit(s[i]) {
        digit_run(s, i + 1)
    } else {
        i
    }
}

proof fn lemma_digit_run_bounds(s: Seq<char>, i: int)
    requires
        0 <= i <= s.len(),
    ensures
        i <= digit_run(s, i) <= s.len(),
    decreases s.len() - i,
{
    if i < s.len() && is_digit(s[i]) {
        lemma_digit_run_bounds(s, i + 1);
    }
}

pub open spec fn duplicate_step() -> Seq<char> {
    "duplicate or out-of-range catalog drum step"@
}

/// Placing the hits `hits[i..]` in `lane` of `rows`, where the rows in
/// `taken` already have a hit in this lane.
pub open spec fn place_hits(rows: Seq<Seq<Cell>>, taken: Set<int>, lane: nat, hits: Seq<Seq<char>>, i: int)
    -> Result<Seq<Seq<Cell>>, Seq<char>>
    decreases hits.len() - i,
{
    if i < 0 || i >= hits.len() {
        Ok(rows)
    } else {
        let hit = hits[i];
        let split = digit_run(hit, 0);
        match parse_unsigned(hit.subrange(0, split), usize::MAX as int) {
            None => Err(int_error_text(hit.subrange(0, split), usize::MAX as int)),
            Some(row) => if row >= rows.len() || taken.contains(row as int) {
                Err(duplicate_step())
            } else {
                match spec_catalog_hit(lane, hit.subrange(split, hit.len() as int)) {
                    Err(e) => Err(e),
                    Ok((note, velocity)) => place_hits(
                        rows.update(row as int, rows[row as int].update(lane as int, note_cell(note, velocity))),
                        taken.insert(row as int), lane, hits, i + 1),
                }
            },
        }
    }
}

/// A lane specification applied to `rows`: `-` leaves the lane empty.
pub open spec fn place_lane(rows: Seq<Seq<Cell>>, lane: nat, spec: Seq<char>) -> Result<Seq<Seq<Cell>>, Seq<char>> {
    if spec == "-"@ {
        Ok(rows)
    } else {
        place_hits(rows, Set::empty(), lane, split_all(spec, ','), 0)
    }
}

pub open spec fn rows_view(rows: Seq<[Cell; LANES_PER_PAGE]>) -> Seq<Seq<Cell>> {
    rows.map_values(|r: [Cell; LANES_PER_PAGE]| r@)
}

pub open spec fn taken_set(v: Seq<bool>) -> Set<int> {
    Set::new(|k: int| 0 <= k < v.len() && v[k])
}

fn lane_hits(rows: &mut Vec<[Cell; LANES_PER_PAGE]>, lane: usize, spec: &Vec<char>) -> (r: Result<(), String>)
    requires
        lane < LANES_PER_PAGE,
        forall|k: int| 0 <= k < old(rows)@.len() ==> (#[trigger] old(rows)@[k])@.len() == LANES_PER_PAGE,
    ensures
        final(rows)@.len() == old(rows)@.len(),
        match place_lane(rows_view(old(rows)@), lane as nat, spec@) {
            Ok(after) => r is Ok && rows_view(final(rows)@) == after,
            Err(e) => r matches Err(x) && x@ == e,
        },
{
    if is_text(spec, "-") {
        return Ok(());
    }
    let hits = split_all_chars(spec, ',');
    let ghost hs = chars_views(hits@);
    let ghost whole = place_lane(rows_view(rows@), lane as nat, spec@);
    let mut taken: Vec<bool> = Vec::new();
    let mut k: usize = 0;
    while k < rows.len()
        invariant
            k <= rows.len(),
            taken@.len() == k,
            forall|j: int| 0 <= j < k ==> !(#[trigger] taken@[j]),
        decreases rows.len() - k,
    {
        taken.push(false);
        k += 1;
    }
    assert(taken_set(taken@) =~= Set::<int>::empty());
    let mut i: usize = 0;
    while i < hits.len()
        invariant
            i <= hits.len(),
            lane < LANES_PER_PAGE,
            hs == chars_views(hits@),
            hs == split_all(spec@, ','),
            spec@ != "-"@,
            whole == place_lane(rows_view(old(rows)@), lane as nat, spec@),
            taken@.len() == rows@.len(),
            rows@.len() == old(rows)@.len(),
            forall|k: int| 0 <= k < rows@.len() ==> (#[trigger] rows@[k])@.len() == LANES_PER_PAGE,
            whole == place_hits(rows_view(rows@), taken_set(taken@), lane as nat, hs, i as int),
        decreases hits.len() - i,
    {
        let hit = &hits[i];
        assert(hs[i as int] == hit@);
        let mut split: usize = 0;
        while split < hit.len() && '0' <= hit[split] && hit[split] <= '9'
            invariant
                split <= hit.len(),
                digit_run(hit@, 0) == digit_run(hit@, split as int),
            decreases hit.len() - split,
        {
            split += 1;
        }
        proof {
            lemma_digit_run_bounds(hit@, split as int);
        }
        assert(digit_run(hit@, split as int) == split);
        let digits = sub_chars(hit, 0, split);
        let kind = sub_chars(hit, split, hit.len());
        let row = match parse_unsigned_chars(&digits, usize::MAX as u64) {
            None => {
                return Err(int_error(&digits, usize::MAX as u64));
            },
            Some(n) => n as usize,
        };
        if row >= rows.len() || taken[row] {
            proof {
                if row < rows.len() {
                    assert(taken_set(taken@).contains(row as int));
                }
            }
            return Err(owned("duplicate or out-of-range catalog drum step"));
        }
        assert(!taken_set(taken@).contains(row as int));
        let (note, velocity) = match catalog_hit(lane, &kind) {
            Err(e) => {
                return Err(e);
            },
            Ok(hit) => hit,
        };
        let ghost before = rows_view(rows@);
        let ghost taken_before = taken@;
        let mut cells = rows[row];
        cells[lane] = note_cell_exec(note, velocity);
        rows.set(row, cells);
        taken.set(row, true);
        proof {
            assert(rows_view(rows@) =~= before.update(row as int, before[row as int].update(lane as int, note_cell(note, velocity))));
            assert(taken_set(taken@) =~= taken_set(taken_before).insert(row as int));
        }
        i += 1;
    }
    Ok(())
}

pub open spec fn fields_error() -> Seq<char> {
    "drum catalog pattern needs genre, meter, name, and four lanes"@
}

/// Placing the lane specifications `fields[3 + lane..]` from `lane` on.
pub open spec fn place_lanes(rows: Seq<Seq<Cell>>, fields: Seq<Seq<char>>, lane: int) -> Result<Seq<Seq<Cell>>, Seq<char>>
    decreases 4 - lane,
{
    if lane < 0 || lane >= 4 {
        Ok(rows)
    } else {
        match place_lane(rows, lane as nat, fields[3 + lane]) {
            Err(e) => Err(e),
            Ok(next) => place_lanes(next, fields, lane + 1),
        }
    }
}

/// The pattern a `pattern=` value describes: 12 rows in 3/4, 16 in 4/4.
pub open spec fn catalog_pattern(value: Seq<char>) -> Result<PatternModel, Seq<char>> {
    let fields = split_all(value, '|');
    if fields.len() != 7 {
        Err(fields_error())
    } else {
        match parse_unsigned(fields[1], 255) {
            None => Err(int_error_text(fields[1], 255)),
            Some(meter) => if meter != 3 && meter != 4 {
                Err("catalog meter must be 3 or 4"@)
            } else {
                let n: nat = if meter == 3 { 12 } else { 16 };
                match place_lanes(Seq::new(n, |i: int| empty_row()), fields, 0) {
                    Err(e) => Err(e),
                    Ok(rows) => {
                        let p = PatternModel { name: fields[2], genre: fields[0], meter: meter as u8, rows };
                        match spec_pattern_error(p) {
                            Some(e) => Err(e),
                            None => Ok(p),
                        }
                    },
                }
            },
        }
    }
}

fn empty_rows(n: usize) -> (r: Vec<[Cell; LANES_PER_PAGE]>)
    ensures
        rows_view(r@) == Seq::new(n as nat, |i: int| empty_row()),
        forall|k: int| 0 <= k < r@.len() ==> (#[trigger] r@[k])@.len() == LANES_PER_PAGE,
{
    let mut out: Vec<[Cell; LANES_PER_PAGE]> = Vec::new();
    let mut i: usize = 0;
    while i < n
        invariant
            i <= n,
            out@.len() == i,
            forall|k: int| 0 <= k < i ==> (#[trigger] out@[k])@ == empty_row(),
        decreases n - i,
    {
        let e = Cell { note: Note::Empty, velocity: None, program: None, gate: None, command: Command::Blank };
        let row = [e, e, e, e];
        assert(row@ =~= empty_row());
        out.push(row);
        i += 1;
    }
    assert(rows_view(out@) =~= Seq::new(n as nat, |i: int| empty_row()));
    out
}

fn catalog_pattern_exec(value: &Vec<char>) -> (r: Result<DrumPattern, String>)
    ensures
        match r {
            Ok(p) => catalog_pattern(value@) == Ok::<PatternModel, Seq<char>>(p@),
            Err(e) => catalog_pattern(value@) == Err::<PatternModel, Seq<char>>(e@),
        },
{
    let fields = split_all_chars(value, '|');
    let ghost fs = chars_views(fields@);
    if fields.len() != 7 {
        return Err(owned("drum catalog pattern needs genre, meter, name, and four lanes"));
    }
    assert(fs[0] == fields@[0]@ && fs[1] == fields@[1]@ && fs[2] == fields@[2]@);
    let meter = match parse_unsigned_chars(&fields[1], 255) {
        None => {
            return Err(int_error(&fields[1], 255));
        },
        Some(m) => m as u8,
    };
    if meter != 3 && meter != 4 {
        return Err(owned("catalog meter must be 3 or 4"));
    }
    let n: usize = if meter == 3 { 12 } else { 16 };
    let mut rows = empty_rows(n);
    let ghost start = rows_view(rows@);
    let mut lane: usize = 0;
    while lane < 4
        invariant
            lane <= 4,
            fs == chars_views(fields@),
            fs == split_all(value@, '|'),
            fields@.len() == 7,
            parse_unsigned(fs[1], 255) == Some(meter as nat),
            meter == 3 || meter == 4,
            n == (if meter == 3 { 12usize } else { 16usize }),
            start == Seq::new(n as nat, |i: int| empty_row()),
            forall|k: int| 0 <= k < rows@.len() ==> (#[trigger] rows@[k])@.len() == LANES_PER_PAGE,
            place_lanes(start, fs, 0) == place_lanes(rows_view(rows@), fs, lane as int),
        decreases 4 - lane,
    {
        assert(fs[3 + lane as int] == fields@[3 + lane as int]@);
        match lane_hits(&mut rows, lane, &fields[3 + lane]) {
            Err(e) => {
                return Err(e);
            },
            Ok(()) => {},
        }
        proof {
            assert forall|k: int| 0 <= k < rows@.len() implies (#[trigger] rows@[k])@.len() == LANES_PER_PAGE by {
                assert(rows@[k]@.len() == LANES_PER_PAGE);
            }
        }
        lane += 1;
    }
    let pattern = DrumPattern {
        name: string_from_chars(&fields[2]),
        genre: string_from_chars(&fields[0]),
        meter,
        rows,
    };
    match validate(&pattern) {
        Err(e) => Err(e),
        Ok(()) => Ok(pattern),
    }
}

/// Whether two patterns share a genre and a name.
pub open spec fn has_duplicate(ps: Seq<PatternModel>) -> bool {
    exists|i: int, j: int| 0 <= i < j < ps.len() && ps[i].genre == ps[j].genre && ps[i].name == ps[j].name
}

/// The patterns of the catalog lines `lines[i..]` added to `found`; blank
/// lines and lines starting with `#` are skipped.
pub open spec fn catalog_body(lines: Seq<Seq<char>>, i: int, found: Seq<PatternModel>) -> Result<Seq<PatternModel>, Seq<char>>
    decreases lines.len() - i,
{
    if i < 0 || i >= lines.len() {
        Ok(found)
    } else {
        let line = lines[i];
        if trim(line).len() == 0 || (line.len() > 0 && line[0] == '#') {
            catalog_body(lines, i + 1, found)
        } else {
            match strip_prefix(line, "pattern="@) {
                None => Err("invalid drum catalog line"@),
                Some(value) => match catalog_pattern(value) {
                    Err(e) => Err(e),
                    Ok(p) => catalog_body(lines, i + 1, found.push(p)),
                },
            }
        }
    }
}

/// The patterns of a catalog: a `SHR-DRUM-CATALOG <version>` line, version
/// at most 1, then pattern lines whose genre and name pairs differ.
pub open spec fn spec_decode_catalog(text: Seq<char>) -> Result<Seq<PatternModel>, Seq<char>> {
    let lines = spec_lines(text);
    if lines.len() == 0 {
        Err("empty drum catalog"@)
    } else {
        match strip_prefix(lines[0], "SHR-DRUM-CATALOG "@) {
            None => Err("not an SHR-DAW drum catalog"@),
            Some(v) => match parse_unsigned(v, 255) {
                None => Err(int_error_text(v, 255)),
                Some(version) => if version > 1 {
                    Err("unsupported drum catalog version "@ + decimal(version))
                } else {
                    match catalog_body(lines, 1, Seq::empty()) {
                        Err(e) => Err(e),
                        Ok(ps) => if has_duplicate(ps) {
                            Err("duplicate genre/name in drum catalog"@)
                        } else {
                            Ok(ps)
                        },
                    }
                },
            },
        }
    }
}

pub open spec fn pattern_views(v: Seq<DrumPattern>) -> Seq<PatternModel> {
    Seq::new(v.len(), |i: int| v[i]@)
}

fn same_identity(a: &DrumPattern, b: &DrumPattern) -> (r: bool)
    ensures
        r == (a@.genre == b@.genre && a@.name == b@.name),
{
    let ag = chars_of(a.genre.as_str());
    let bg = chars_of(b.genre.as_str());
    let an = chars_of(a.name.as_str());
    let bn = chars_of(b.name.as_str());
    chars_eq(&ag, &bg) && chars_eq(&an, &bn)
}

fn any_duplicate(ps: &Vec<DrumPattern>) -> (r: bool)
    ensures
        r == has_duplicate(pattern_views(ps@)),
{
    let ghost v = pattern_views(ps@);
    let mut j: usize = 0;
    while j < ps.len()
        invariant
            j <= ps.len(),
            v == pattern_views(ps@),
            forall|a: int, b: int| 0 <= a < b < j ==> !(v[a].genre == v[b].genre && v[a].name == v[b].name),
        decreases ps.len() - j,
    {
        let mut i: usize = 0;
        while i < j
            invariant
                i <= j < ps.len(),
                v == pattern_views(ps@),
                forall|a: int| 0 <= a < i ==> !(v[a].genre == v[j as int].genre && v[a].name == v[j as int].name),
            decreases j - i,
        {
            if same_identity(&ps[i], &ps[j]) {
                assert(v[i as int].genre == v[j as int].genre && v[i as int].name == v[j as int].name);
                return true;
            }
            i += 1;
        }
        j += 1;
    }
    false
}

/// The patterns of a drum catalog text, in order.
pub fn decode_catalog(text: &str) -> (r: Result<Vec<DrumPattern>, String>)
    ensures
        match r {
            Ok(ps) => spec_decode_catalog(text@) == Ok::<Seq<PatternModel>, Seq<char>>(pattern_views(ps@)),
            Err(e) => spec_decode_catalog(text@) == Err::<Seq<PatternModel>, Seq<char>>(e@),
        },
{
    let chars = chars_of(text);
    let lines = lines_of(&chars);
    let ghost ls = chars_views(lines@);
    if lines.len() == 0 {
        return Err(owned("empty drum catalog"));
    }
    assert(ls[0] == lines@[0]@);
    let v = match strip_prefix_chars(&lines[0], "SHR-DRUM-CATALOG ") {
        None => {
            return Err(owned("not an SHR-DAW drum catalog"));
        },
        Some(v) => v,
    };
    let version = match parse_unsigned_chars(&v, 255) {
        None => {
            return Err(int_error(&v, 255));
        },
        Some(n) => n,
    };
    if version > 1 {
        let mut out = owned("unsupported drum catalog version ");
        push_decimal(&mut out, version);
        return Err(out);
    }
    let mut patterns: Vec<DrumPattern> = Vec::new();
    assert(pattern_views(patterns@) =~= Seq::<PatternModel>::empty());
    let mut i: usize = 1;
    while i < lines.len()
        invariant
            1 <= i <= lines.len(),
            ls == chars_views(lines@),
            ls == spec_lines(text@),
            ls.len() > 0,
            strip_prefix(ls[0], "SHR-DRUM-CATALOG "@) == Some(v@),
            parse_unsigned(v@, 255) == Some(version as nat),
            version <= 1,
            catalog_body(ls, 1, Seq::empty()) == catalog_body(ls, i as int, pattern_views(patterns@)),
        decreases lines.len() - i,
    {
        let line = &lines[i];
        assert(ls[i as int] == line@);
        let trimmed = trim_chars(line);
        if trimmed.len() == 0 || (line.len() > 0 && line[0] == '#') {
            i += 1;
            continue;
        }
        let value = match strip_prefix_chars(line, "pattern=") {
            None => {
                return Err(owned("invalid drum catalog line"));
            },
            Some(value) => value,
        };
        match catalog_pattern_exec(&value) {
            Err(e) => {
                return Err(e);
            },
            Ok(p) => {
                let ghost before = pattern_views(patterns@);
                patterns.push(p);
                assert(pattern_views(patterns@) =~= before.push(p@));
            },
        }
        i += 1;
    }
    if any_duplicate(&patterns) {
        return Err(owned("duplicate genre/name in drum catalog"));
    }
    Ok(patterns)
}

} // verus!
