//! Routing decisions of the MIDI/JACK engine that depend only on text the
//! system tools print (`aconnect -l`, `jack_lsp`) and on input roles.
use vstd::prelude::*;
use crate::text::{
    chars_eq, chars_of, contains_chars, contains_seq, is_ws_exec, lower_chars, lower_seq,
    parse_unsigned, parse_unsigned_chars, second_field, second_field_chars, split_once,
    split_once_chars, starts_with_ws, string_from_chars, strip_prefix, strip_prefix_chars, trim,
    trim_chars, views, split_all, split_all_chars, before_char, before_char_chars, chars_views,
    trim_start, trim_start_chars, push_char, push_str, opt_view, insert_sorted, strictly_sorted, lex_lt,
    lemma_sorted_no_duplicates, owned, sub_chars, starts_at, lower_vec, decimal, push_decimal,
};

verus! {

// ---------------------------------------------------------------------------
// ALSA client listing (`aconnect -l`)
// ---------------------------------------------------------------------------

/// The client a `client <id>: '<name>' ...` line announces.
pub open spec fn alsa_client_line(line: Seq<char>) -> Option<(u32, Seq<char>)> {
    match strip_prefix(line, "client "@) {
        None => None,
        Some(rest) => match split_once(rest, ':') {
            None => None,
            Some((id, description)) => match second_field(description, '\'') {
                None => None,
                Some(name) => match parse_unsigned(id, u32::MAX as int) {
                    None => None,
                    Some(n) => Some((n as u32, name)),
                },
            },
        },
    }
}

/// The clients announced by `lines`, in order.
pub open spec fn alsa_clients(lines: Seq<Seq<char>>) -> Seq<(u32, Seq<char>)>
    decreases lines.len(),
{
    if lines.len() == 0 {
        Seq::empty()
    } else {
        let before = alsa_clients(lines.drop_last());
        match alsa_client_line(lines.last()) {
            Some(c) => before.push(c),
            None => before,
        }
    }
}

pub open spec fn client_views(v: Seq<(u32, String)>) -> Seq<(u32, Seq<char>)> {
    Seq::new(v.len(), |i: int| (v[i].0, v[i].1@))
}

pub open spec fn client_names(v: Seq<(u32, String)>) -> Seq<Seq<char>> {
    Seq::new(v.len(), |i: int| v[i].1@)
}

fn alsa_client_of(line: &String) -> (r: Option<(u32, String)>)
    ensures
        match r {
            Some((id, name)) => alsa_client_line(line@) == Some((id, name@)),
            None => alsa_client_line(line@) is None,
        },
{
    let chars = chars_of(line.as_str());
    let rest = match strip_prefix_chars(&chars, "client ") {
        Some(rest) => rest,
        None => return None,
    };
    let (id, description) = match split_once_chars(&rest, ':') {
        Some(pair) => pair,
        None => return None,
    };
    let name = match second_field_chars(&description, '\'') {
        Some(name) => name,
        None => return None,
    };
    match parse_unsigned_chars(&id, 4294967295) {
        Some(n) => Some((n as u32, string_from_chars(&name))),
        None => None,
    }
}

/// The `(id, name)` of every ALSA client listed by `aconnect -l`.
pub fn parse_alsa_clients(lines: &[String]) -> (r: Vec<(u32, String)>)
    ensures
        client_views(r@) == alsa_clients(views(lines@)),
{
    let mut out: Vec<(u32, String)> = Vec::new();
    let mut i: usize = 0;
    while i < lines.len()
        invariant
            i <= lines.len(),
            client_views(out@) =~= alsa_clients(views(lines@).take(i as int)),
        decreases lines.len() - i,
    {
        assert(views(lines@).take(i + 1).drop_last() =~= views(lines@).take(i as int));
        assert(views(lines@).take(i + 1).last() == lines@[i as int]@);
        if let Some(c) = alsa_client_of(&lines[i]) {
            out.push(c);
        }
        i += 1;
    }
    assert(views(lines@).take(lines.len() as int) =~= views(lines@));
    out
}

/// Indices (below `k`) of the clients whose lowercase name equals `wanted`
/// (`exact`) or contains it (otherwise).
pub open spec fn client_matches(names: Seq<Seq<char>>, wanted: Seq<char>, exact: bool, k: int) -> Seq<int>
    decreases k,
{
    if k <= 0 {
        Seq::empty()
    } else {
        let before = client_matches(names, wanted, exact, k - 1);
        let name = lower_seq(names[k - 1]);
        if (exact && name == wanted) || (!exact && contains_seq(name, wanted)) {
            before.push(k - 1)
        } else {
            before
        }
    }
}

/// The one client a selector names: the only exact (case-insensitive)
/// match, or, when there is no exact match, the only partial match.
pub open spec fn unique_client_index(names: Seq<Seq<char>>, wanted: Seq<char>) -> Option<int> {
    let w = lower_seq(wanted);
    let exact = client_matches(names, w, true, names.len() as int);
    let partial = client_matches(names, w, false, names.len() as int);
    if w.len() == 0 {
        None
    } else if exact.len() == 1 {
        Some(exact[0])
    } else if exact.len() > 1 {
        None
    } else if partial.len() == 1 {
        Some(partial[0])
    } else {
        None
    }
}

proof fn lemma_client_matches_bounds(names: Seq<Seq<char>>, wanted: Seq<char>, exact: bool, k: int)
    requires
        0 <= k <= names.len(),
    ensures
        forall|j: int| 0 <= j < client_matches(names, wanted, exact, k).len() ==> 0 <= #[trigger] client_matches(names, wanted, exact, k)[j] < k,
    decreases k,
{
    if k > 0 {
        lemma_client_matches_bounds(names, wanted, exact, k - 1);
        let before = client_matches(names, wanted, exact, k - 1);
        let now = client_matches(names, wanted, exact, k);
        assert forall|j: int| 0 <= j < now.len() implies 0 <= #[trigger] now[j] < k by {
            if j < before.len() {
                assert(now[j] == before[j]);
            }
        }
    }
}

fn client_match_indices(clients: &[(u32, String)], wanted: &Vec<char>, exact: bool) -> (r: Vec<usize>)
    ensures
        r@.len() == client_matches(client_names(clients@), wanted@, exact, clients@.len() as int).len(),
        forall|j: int| 0 <= j < r@.len() ==> r@[j] as int == #[trigger] client_matches(client_names(clients@), wanted@, exact, clients@.len() as int)[j],
{
    let ghost names = client_names(clients@);
    let mut out: Vec<usize> = Vec::new();
    let mut i: usize = 0;
    while i < clients.len()
        invariant
            i <= clients.len(),
            names == client_names(clients@),
            out@.len() == client_matches(names, wanted@, exact, i as int).len(),
            forall|j: int| 0 <= j < out@.len() ==> out@[j] as int == #[trigger] client_matches(names, wanted@, exact, i as int)[j],
        decreases clients.len() - i,
    {
        let name = lower_chars(clients[i].1.as_str());
        assert(names[i as int] == clients@[i as int].1@);
        let hit = if exact {
            chars_eq(&name, wanted)
        } else {
            contains_chars(&name, wanted)
        };
        if hit {
            out.push(i);
        }
        i += 1;
    }
    out
}

/// The client whose name matches `wanted` uniquely, ignoring ASCII case:
/// an exact match wins; otherwise one partial match; never a guess.
pub fn unique_client_match<'a>(clients: &'a [(u32, String)], wanted: &str) -> (r: Option<&'a (u32, String)>)
    ensures
        match unique_client_index(client_names(clients@), wanted@) {
            Some(i) => r matches Some(c) && 0 <= i < clients@.len() && *c == clients@[i],
            None => r is None,
        },
{
    let ghost names = client_names(clients@);
    let w = lower_chars(wanted);
    if w.len() == 0 {
        return None;
    }
    let exact = client_match_indices(clients, &w, true);
    proof {
        lemma_client_matches_bounds(names, w@, true, clients@.len() as int);
        lemma_client_matches_bounds(names, w@, false, clients@.len() as int);
    }
    if exact.len() == 1 {
        return Some(&clients[exact[0]]);
    }
    if exact.len() > 1 {
        return None;
    }
    let partial = client_match_indices(clients, &w, false);
    if partial.len() == 1 {
        return Some(&clients[partial[0]]);
    }
    None
}

/// For a `client ...` line, the client id it names (`None` inside when the id
/// is unreadable); `None` for any other line.
pub open spec fn alsa_client_id(line: Seq<char>) -> Option<Option<u32>> {
    match strip_prefix(line, "client "@) {
        Some(rest) => Some(
            match split_once(rest, ':') {
                Some((id, _)) => match parse_unsigned(id, u32::MAX as int) {
                    Some(n) => Some(n as u32),
                    None => None,
                },
                None => None,
            },
        ),
        None => None,
    }
}

/// The `client:port` a `Connecting To:` entry names, ignoring a `[...]` suffix.
pub open spec fn destination_of(piece: Seq<char>) -> Option<(u32, u32)> {
    match split_once(before_char(trim(piece), '['), ':') {
        Some((client, port)) => match (parse_unsigned(client, u32::MAX as int), parse_unsigned(port, u32::MAX as int)) {
            (Some(c), Some(p)) => Some((c as u32, p as u32)),
            _ => None,
        },
        None => None,
    }
}

/// `acc` extended by the destinations of `pieces`, each kept once.
pub open spec fn add_destinations(acc: Seq<(u32, u32)>, pieces: Seq<Seq<char>>) -> Seq<(u32, u32)>
    decreases pieces.len(),
{
    if pieces.len() == 0 {
        acc
    } else {
        let next = match destination_of(pieces[0]) {
            Some(d) => if acc.contains(d) {
                acc
            } else {
                acc.push(d)
            },
            None => acc,
        };
        add_destinations(next, pieces.drop_first())
    }
}

/// The destinations of client `source` listed from line `i` on, `current`
/// being the client whose block the scan is in.
pub open spec fn alsa_destinations_from(
    lines: Seq<Seq<char>>,
    source: u32,
    i: int,
    current: Option<u32>,
    acc: Seq<(u32, u32)>,
) -> Seq<(u32, u32)>
    decreases lines.len() - i,
{
    if i < 0 || i >= lines.len() {
        acc
    } else {
        match alsa_client_id(lines[i]) {
            Some(id) => alsa_destinations_from(lines, source, i + 1, id, acc),
            None => if current != Some(source) {
                alsa_destinations_from(lines, source, i + 1, current, acc)
            } else {
                match strip_prefix(trim(lines[i]), "Connecting To:"@) {
                    Some(raw) => alsa_destinations_from(
                        lines,
                        source,
                        i + 1,
                        current,
                        add_destinations(acc, split_all(raw, ',')),
                    ),
                    None => alsa_destinations_from(lines, source, i + 1, current, acc),
                }
            },
        }
    }
}

fn contains_pair(v: &Vec<(u32, u32)>, d: (u32, u32)) -> (r: bool)
    ensures
        r == v@.contains(d),
{
    let mut i: usize = 0;
    while i < v.len()
        invariant
            i <= v.len(),
            forall|j: int| 0 <= j < i ==> v@[j] != d,
        decreases v.len() - i,
    {
        if v[i].0 == d.0 && v[i].1 == d.1 {
            assert(v@[i as int] == d);
            return true;
        }
        i += 1;
    }
    false
}

fn destination_of_chars(piece: &Vec<char>) -> (r: Option<(u32, u32)>)
    ensures
        r == destination_of(piece@),
{
    let trimmed = trim_chars(piece);
    let head = before_char_chars(&trimmed, '[');
    match split_once_chars(&head, ':') {
        Some((client, port)) => {
            let c = parse_unsigned_chars(&client, 4294967295);
            let p = parse_unsigned_chars(&port, 4294967295);
            match (c, p) {
                (Some(c), Some(p)) => Some((c as u32, p as u32)),
                _ => None,
            }
        },
        None => None,
    }
}

fn alsa_client_id_of(line: &Vec<char>) -> (r: Option<Option<u32>>)
    ensures
        r == alsa_client_id(line@),
{
    match strip_prefix_chars(line, "client ") {
        Some(rest) => Some(
            match split_once_chars(&rest, ':') {
                Some((id, _)) => match parse_unsigned_chars(&id, 4294967295) {
                    Some(n) => Some(n as u32),
                    None => None,
                },
                None => None,
            },
        ),
        None => None,
    }
}

fn add_all_destinations(destinations: &mut Vec<(u32, u32)>, pieces: &Vec<Vec<char>>)
    ensures
        final(destinations)@ == add_destinations(old(destinations)@, chars_views(pieces@)),
{
    let ghost start = destinations@;
    let mut k: usize = 0;
    assert(chars_views(pieces@).skip(0) =~= chars_views(pieces@));
    while k < pieces.len()
        invariant
            k <= pieces.len(),
            add_destinations(start, chars_views(pieces@)) == add_destinations(
                destinations@,
                chars_views(pieces@).skip(k as int),
            ),
        decreases pieces.len() - k,
    {
        let ghost rest = chars_views(pieces@).skip(k as int);
        assert(rest[0] == pieces@[k as int]@);
        assert(rest.drop_first() =~= chars_views(pieces@).skip(k + 1));
        if let Some(d) = destination_of_chars(&pieces[k]) {
            if !contains_pair(destinations, d) {
                destinations.push(d);
            }
        }
        k += 1;
    }
    assert(chars_views(pieces@).skip(0) =~= chars_views(pieces@));
}

/// The `(client, port)` subscriptions of ALSA client `source_id` listed by
/// `aconnect -l`, each once, in listing order.
pub fn parse_alsa_destinations(lines: &[String], source_id: u32) -> (r: Vec<(u32, u32)>)
    ensures
        r@ == alsa_destinations_from(views(lines@), source_id, 0, None, Seq::empty()),
{
    let ghost all = views(lines@);
    let mut current: Option<u32> = None;
    let mut destinations: Vec<(u32, u32)> = Vec::new();
    let mut i: usize = 0;
    while i < lines.len()
        invariant
            i <= lines.len(),
            all == views(lines@),
            alsa_destinations_from(all, source_id, 0, None, Seq::empty())
                == alsa_destinations_from(all, source_id, i as int, current, destinations@),
        decreases lines.len() - i,
    {
        let line = chars_of(lines[i].as_str());
        assert(line@ == all[i as int]);
        match alsa_client_id_of(&line) {
            Some(id) => {
                current = id;
            },
            None => {
                if current == Some(source_id) {
                    let trimmed = trim_chars(&line);
                    if let Some(raw) = strip_prefix_chars(&trimmed, "Connecting To:") {
                        let pieces = split_all_chars(&raw, ',');
                        add_all_destinations(&mut destinations, &pieces);
                    }
                }
            },
        }
        i += 1;
    }
    destinations
}

/// The client a `client ...` line opens for the source-port scan: its id and
/// quoted name (empty when unquoted); `None` when the id is unreadable.
pub open spec fn source_client_of(rest: Seq<char>) -> Option<(u32, Seq<char>)> {
    match split_once(rest, ':') {
        Some((id, tail)) => {
            let name = match second_field(tail, '\'') {
                Some(n) => n,
                None => Seq::empty(),
            };
            match parse_unsigned(id, u32::MAX as int) {
                Some(n) => Some((n as u32, name)),
                None => None,
            }
        },
        None => None,
    }
}

/// The port a `  <port> '<name>'` line lists: its number and quoted name.
pub open spec fn source_port_of(line: Seq<char>) -> Option<(u32, Seq<char>)> {
    match split_once(trim_start(line), ' ') {
        Some((port, rest)) => match parse_unsigned(port, u32::MAX as int) {
            Some(p) => Some(
                (
                    p as u32,
                    match second_field(rest, '\'') {
                        Some(n) => n,
                        None => Seq::empty(),
                    },
                ),
            ),
            None => None,
        },
        None => None,
    }
}

/// The named ports listed from line `i` on, `client` being the client whose
/// block the scan is in.
pub open spec fn alsa_sources_from(
    lines: Seq<Seq<char>>,
    i: int,
    client: Option<(u32, Seq<char>)>,
    acc: Seq<(u32, u32, Seq<char>)>,
) -> Seq<(u32, u32, Seq<char>)>
    decreases lines.len() - i,
{
    if i < 0 || i >= lines.len() {
        acc
    } else {
        match strip_prefix(lines[i], "client "@) {
            Some(rest) => alsa_sources_from(lines, i + 1, source_client_of(rest), acc),
            None => match client {
                None => alsa_sources_from(lines, i + 1, client, acc),
                Some((id, name)) => match source_port_of(lines[i]) {
                    Some((port, port_name)) => if port_name.len() > 0 {
                        alsa_sources_from(
                            lines,
                            i + 1,
                            client,
                            acc.push((id, port, name + ":"@ + port_name)),
                        )
                    } else {
                        alsa_sources_from(lines, i + 1, client, acc)
                    },
                    None => alsa_sources_from(lines, i + 1, client, acc),
                },
            },
        }
    }
}

pub open spec fn source_views(v: Seq<(u32, u32, String)>) -> Seq<(u32, u32, Seq<char>)> {
    Seq::new(v.len(), |i: int| (v[i].0, v[i].1, v[i].2@))
}

pub open spec fn opt_client(c: Option<(u32, Vec<char>)>) -> Option<(u32, Seq<char>)> {
    match c {
        Some((id, name)) => Some((id, name@)),
        None => None,
    }
}

fn source_client_of_chars(rest: &Vec<char>) -> (r: Option<(u32, Vec<char>)>)
    ensures
        opt_client(r) == source_client_of(rest@),
{
    match split_once_chars(rest, ':') {
        Some((id, tail)) => {
            let name = match second_field_chars(&tail, '\'') {
                Some(n) => n,
                None => Vec::new(),
            };
            match parse_unsigned_chars(&id, 4294967295) {
                Some(n) => Some((n as u32, name)),
                None => None,
            }
        },
        None => None,
    }
}

fn source_port_of_chars(line: &Vec<char>) -> (r: Option<(u32, Vec<char>)>)
    ensures
        opt_client(r) == source_port_of(line@),
{
    let trimmed = trim_start_chars(line);
    match split_once_chars(&trimmed, ' ') {
        Some((port, rest)) => match parse_unsigned_chars(&port, 4294967295) {
            Some(p) => {
                let name = match second_field_chars(&rest, '\'') {
                    Some(n) => n,
                    None => Vec::new(),
                };
                Some((p as u32, name))
            },
            None => None,
        },
        None => None,
    }
}

/// Every named ALSA port listed by `aconnect -l`, as `(client, port,
/// "client:port")`, in listing order.
pub fn parse_alsa_source_ports(lines: &[String]) -> (r: Vec<(u32, u32, String)>)
    ensures
        source_views(r@) == alsa_sources_from(views(lines@), 0, None, Seq::empty()),
{
    let ghost all = views(lines@);
    let mut client: Option<(u32, Vec<char>)> = None;
    let mut sources: Vec<(u32, u32, String)> = Vec::new();
    assert(source_views(sources@) =~= Seq::empty());
    let mut i: usize = 0;
    while i < lines.len()
        invariant
            i <= lines.len(),
            all == views(lines@),
            alsa_sources_from(all, 0, None, Seq::empty()) == alsa_sources_from(
                all,
                i as int,
                opt_client(client),
                source_views(sources@),
            ),
        decreases lines.len() - i,
    {
        let line = chars_of(lines[i].as_str());
        assert(line@ == all[i as int]);
        match strip_prefix_chars(&line, "client ") {
            Some(rest) => {
                client = source_client_of_chars(&rest);
            },
            None => {
                match &client {
                    None => {},
                    Some((id, name)) => {
                        match source_port_of_chars(&line) {
                            Some((port, port_name)) => {
                                if port_name.len() > 0 {
                                    let mut full = string_from_chars(name);
                                    push_char(&mut full, ':');
                                    let tail = string_from_chars(&port_name);
                                    push_str(&mut full, tail.as_str());
                                    let ghost before = source_views(sources@);
                                    sources.push((*id, port, full));
                                    assert(source_views(sources@) =~= before.push((*id, port, name@ + ":"@ + port_name@))) by {
                                        assert(full@ =~= name@ + ":"@ + port_name@) by {
                                            reveal_strlit(":");
                                        }
                                    }
                                }
                            },
                            None => {},
                        }
                    },
                }
            },
        }
        i += 1;
    }
    sources
}

// ---------------------------------------------------------------------------
// JACK connection listing (`jack_lsp -c`)
// ---------------------------------------------------------------------------

/// Scans `lines` from `i` on: an unindented line names a port; each indented,
/// non-blank line below it is one connection of that port.
pub open spec fn jack_connections_from(
    lines: Seq<Seq<char>>,
    i: int,
    port: Option<Seq<char>>,
) -> Seq<(Seq<char>, Seq<char>)>
    decreases lines.len() - i,
{
    if i < 0 || i >= lines.len() {
        Seq::empty()
    } else {
        let line = lines[i];
        if starts_with_ws(line) {
            let rest = jack_connections_from(lines, i + 1, port);
            match port {
                Some(source) => if trim(line).len() > 0 {
                    seq![(source, trim(line))] + rest
                } else {
                    rest
                },
                None => rest,
            }
        } else {
            jack_connections_from(lines, i + 1, Some(line))
        }
    }
}

pub open spec fn opt_chars(o: Option<Vec<char>>) -> Option<Seq<char>> {
    match o {
        Some(v) => Some(v@),
        None => None,
    }
}

pub open spec fn pair_views(v: Seq<(String, String)>) -> Seq<(Seq<char>, Seq<char>)> {
    Seq::new(v.len(), |i: int| (v[i].0@, v[i].1@))
}

/// The `(source, destination)` connections listed by `jack_lsp -c`.
pub fn parse_jack_connections(lines: Vec<String>) -> (r: Vec<(String, String)>)
    ensures
        pair_views(r@) == jack_connections_from(views(lines@), 0, None),
{
    let ghost all = views(lines@);
    let mut port: Option<Vec<char>> = None;
    let mut connections: Vec<(String, String)> = Vec::new();
    let mut i: usize = 0;
    while i < lines.len()
        invariant
            i <= lines.len(),
            all == views(lines@),
            jack_connections_from(all, 0, None) == pair_views(connections@) + jack_connections_from(
                all,
                i as int,
                opt_chars(port),
            ),
        decreases lines.len() - i,
    {
        let line = chars_of(lines[i].as_str());
        let ghost port_view = opt_chars(port);
        if line.len() > 0 && is_ws_exec(line[0]) {
            match &port {
                Some(source) => {
                    let destination = trim_chars(&line);
                    if destination.len() > 0 {
                        let ghost before = pair_views(connections@);
                        connections.push((string_from_chars(source), string_from_chars(&destination)));
                        assert(pair_views(connections@) =~= before.push((source@, destination@)));
                        assert(before + (seq![(source@, destination@)] + jack_connections_from(all, i + 1, port_view)) =~= before.push((source@, destination@)) + jack_connections_from(all, i + 1, port_view));
                    }
                },
                None => {},
            }
        } else {
            port = Some(line);
        }
        i += 1;
    }
    assert(pair_views(connections@) + Seq::<(Seq<char>, Seq<char>)>::empty() =~= pair_views(connections@));
    connections
}


// ---------------------------------------------------------------------------
// JACK audio source discovery (`jack_lsp -p -t`)
// ---------------------------------------------------------------------------

/// Separators between the words of a JACK `properties:` line.
pub open spec fn is_property_separator(c: char) -> bool {
    c == ',' || crate::text::is_ws(c)
}

/// Whether one separator-delimited word of `p` is `output`, ignoring ASCII case.
pub open spec fn has_output_property(p: Seq<char>) -> bool {
    exists|k: int|
        0 <= k && k + 6 <= p.len() && #[trigger] lower_seq(p.subrange(k, k + 6)) == "output"@ && (k
            == 0 || is_property_separator(p[k - 1])) && (k + 6 == p.len() || is_property_separator(
            p[k + 6],
        ))
}

/// `out` with `port` added when it is a named audio port with the `output`
/// property.
pub open spec fn finish_port(
    port: Seq<char>,
    properties: Seq<char>,
    audio: bool,
    out: Seq<Seq<char>>,
) -> Seq<Seq<char>> {
    if port.len() > 0 && audio && has_output_property(properties) {
        out.push(port)
    } else {
        out
    }
}

/// The audio output ports found from line `i` on; an unindented line starts
/// a port, the indented lines below it carry its properties and type.
pub open spec fn jack_sources_from(
    lines: Seq<Seq<char>>,
    i: int,
    port: Seq<char>,
    properties: Seq<char>,
    audio: bool,
    out: Seq<Seq<char>>,
) -> Seq<Seq<char>>
    decreases lines.len() - i,
{
    if i < 0 || i >= lines.len() {
        finish_port(port, properties, audio, out)
    } else if !starts_with_ws(lines[i]) {
        jack_sources_from(lines, i + 1, lines[i], Seq::empty(), false, finish_port(port, properties, audio, out))
    } else {
        let detail = trim(lines[i]);
        if strip_prefix(lower_seq(detail), "properties:"@) is Some {
            jack_sources_from(lines, i + 1, port, properties + detail, audio, out)
        } else if contains_seq(lower_seq(detail), "audio"@) {
            jack_sources_from(lines, i + 1, port, properties, true, out)
        } else {
            jack_sources_from(lines, i + 1, port, properties, audio, out)
        }
    }
}

fn is_separator(c: char) -> (r: bool)
    ensures
        r == is_property_separator(c),
{
    c == ',' || is_ws_exec(c)
}

fn has_output_property_exec(p: &Vec<char>) -> (r: bool)
    ensures
        r == has_output_property(p@),
{
    if p.len() < 6 {
        return false;
    }
    let word = chars_of("output");
    proof {
        reveal_strlit("output");
    }
    let lowered = lower_vec(p);
    let last = p.len() - 6;
    let mut k: usize = 0;
    while k <= last
        invariant
            p.len() >= 6,
            last == p.len() - 6,
            k <= last + 1,
            word@ == "output"@,
            word@.len() == 6,
            lowered@ == lower_seq(p@),
            lowered@.len() == p@.len(),
            forall|t: int|
                0 <= t < k ==> !(0 <= t && t + 6 <= p@.len() && #[trigger] lower_seq(p@.subrange(t, t + 6))
                    == "output"@ && (t == 0 || is_property_separator(p@[t - 1])) && (t + 6
                    == p@.len() || is_property_separator(p@[t + 6]))),
        decreases last + 1 - k,
    {
        assert(lower_seq(p@.subrange(k as int, k + 6)) =~= lowered@.subrange(k as int, k + 6));
        let hit = starts_at(&lowered, &word, k) && (k == 0 || is_separator(p[k - 1])) && (k + 6
            == p.len() || is_separator(p[k + 6]));
        if hit {
            assert(0 <= k && k + 6 <= p@.len() && lower_seq(p@.subrange(k as int, k + 6))
                == "output"@ && (k == 0 || is_property_separator(p@[k - 1])) && (k + 6
                == p@.len() || is_property_separator(p@[k + 6])));
            return true;
        }
        k += 1;
    }
    false
}

fn finish_port_exec(port: &Vec<char>, properties: &Vec<char>, audio: bool, out: &mut Vec<Vec<char>>)
    ensures
        chars_views(final(out)@) == finish_port(port@, properties@, audio, chars_views(old(out)@)),
{
    if port.len() > 0 && audio && has_output_property_exec(properties) {
        let ghost before = chars_views(out@);
        let copy = sub_chars(port, 0, port.len());
        assert(copy@ =~= port@);
        out.push(copy);
        assert(chars_views(out@) =~= before.push(port@));
    }
}

/// The JACK audio ports with the `output` property listed by
/// `jack_lsp -p -t`, sorted and each once.
pub fn parse_jack_audio_sources(lines: Vec<String>) -> (r: Vec<String>)
    ensures
        strictly_sorted(views(r@)),
        views(r@).to_set() == jack_sources_from(
            views(lines@),
            0,
            Seq::empty(),
            Seq::empty(),
            false,
            Seq::empty(),
        ).to_set(),
{
    let ghost all = views(lines@);
    let mut found: Vec<Vec<char>> = Vec::new();
    let mut port: Vec<char> = Vec::new();
    let mut properties: Vec<char> = Vec::new();
    let mut audio = false;
    let mut i: usize = 0;
    assert(chars_views(found@) =~= Seq::empty());
    while i < lines.len()
        invariant
            i <= lines.len(),
            all == views(lines@),
            jack_sources_from(all, 0, Seq::empty(), Seq::empty(), false, Seq::empty())
                == jack_sources_from(all, i as int, port@, properties@, audio, chars_views(found@)),
        decreases lines.len() - i,
    {
        let line = chars_of(lines[i].as_str());
        assert(line@ == all[i as int]);
        if !(line.len() > 0 && is_ws_exec(line[0])) {
            finish_port_exec(&port, &properties, audio, &mut found);
            port = line;
            properties = Vec::new();
            audio = false;
        } else {
            let detail = trim_chars(&line);
            let lowered = lower_vec(&detail);
            if strip_prefix_chars(&lowered, "properties:").is_some() {
                let mut k: usize = 0;
                let ghost start = properties@;
                while k < detail.len()
                    invariant
                        k <= detail.len(),
                        properties@ =~= start + detail@.subrange(0, k as int),
                    decreases detail.len() - k,
                {
                    properties.push(detail[k]);
                    k += 1;
                }
                assert(detail@.subrange(0, detail@.len() as int) =~= detail@);
            } else {
                let audio_word = chars_of("audio");
                if contains_chars(&lowered, &audio_word) {
                    audio = true;
                }
            }
        }
        i += 1;
    }
    finish_port_exec(&port, &properties, audio, &mut found);
    let ghost collected = chars_views(found@);
    let mut sources: Vec<String> = Vec::new();
    let mut k: usize = 0;
    while k < found.len()
        invariant
            k <= found.len(),
            collected == chars_views(found@),
            strictly_sorted(views(sources@)),
            views(sources@).to_set() =~= collected.subrange(0, k as int).to_set(),
        decreases found.len() - k,
    {
        let ghost before = views(sources@).to_set();
        let text = string_from_chars(&found[k]);
        assert(text@ == collected[k as int]);
        insert_sorted(&mut sources, text);
        assert(collected.subrange(0, k + 1) =~= collected.subrange(0, k as int) + seq![collected[k as int]]);
        proof {
            Seq::lemma_to_set_insert_commutes(collected.subrange(0, k as int), collected[k as int]);
        }
        k += 1;
    }
    assert(collected.subrange(0, found.len() as int) =~= collected);
    sources
}


// ---------------------------------------------------------------------------
// Managed audio outputs
// ---------------------------------------------------------------------------

/// A routing failure with its message.
#[derive(Clone, Debug, PartialEq, Eq)]
pub struct RoutingError(pub String);

/// Whether a JACK port's short name looks like an audio output.
pub open spec fn is_output_name(short: Seq<char>) -> bool {
    let s = lower_seq(short);
    contains_seq(s, "out"@) || contains_seq(s, "audio"@) || s == "left"@ || s == "right"@
}

/// The `(client, port)` candidate a port is for client selector `wanted`
/// (lowercase): exact when its client equals the selector ignoring ASCII
/// case, partial when it contains it.
pub open spec fn output_candidate(port: Seq<char>, wanted: Seq<char>, exact: bool) -> Option<Seq<char>> {
    match split_once(port, ':') {
        Some((client, short)) => if is_output_name(short) && ((exact && lower_seq(client) == wanted)
            || (!exact && lower_seq(client) != wanted && contains_seq(lower_seq(client), wanted))) {
            Some(client)
        } else {
            None
        },
        None => None,
    }
}

/// The `(client, port)` candidates among the first `k` ports.
pub open spec fn output_candidates(ports: Seq<Seq<char>>, wanted: Seq<char>, exact: bool, k: int) -> Seq<(Seq<char>, Seq<char>)>
    decreases k,
{
    if k <= 0 {
        Seq::empty()
    } else {
        let before = output_candidates(ports, wanted, exact, k - 1);
        match output_candidate(ports[k - 1], wanted, exact) {
            Some(client) => before.push((client, ports[k - 1])),
            None => before,
        }
    }
}

/// The candidates considered: the exact ones when there are any, else the
/// partial ones.
pub open spec fn chosen_candidates(ports: Seq<Seq<char>>, client_name: Seq<char>) -> Seq<(Seq<char>, Seq<char>)> {
    let w = lower_seq(client_name);
    let exact = output_candidates(ports, w, true, ports.len() as int);
    if exact.len() > 0 {
        exact
    } else {
        output_candidates(ports, w, false, ports.len() as int)
    }
}

/// The distinct clients among the candidates.
pub open spec fn candidate_clients(c: Seq<(Seq<char>, Seq<char>)>) -> Set<Seq<char>> {
    c.map_values(|p: (Seq<char>, Seq<char>)| p.0).to_set()
}

/// The distinct ports of `client` among the candidates.
pub open spec fn candidate_ports(c: Seq<(Seq<char>, Seq<char>)>, client: Seq<char>) -> Set<Seq<char>> {
    ports_of_upto(c, client, c.len() as int).to_set()
}

/// The ports of `client` among the first `k` candidates.
pub open spec fn ports_of_upto(c: Seq<(Seq<char>, Seq<char>)>, client: Seq<char>, k: int) -> Seq<Seq<char>>
    decreases k,
{
    if k <= 0 {
        Seq::empty()
    } else if c[k - 1].0 == client {
        ports_of_upto(c, client, k - 1) + seq![c[k - 1].1]
    } else {
        ports_of_upto(c, client, k - 1)
    }
}

fn output_candidates_exec(ports: &Vec<String>, wanted: &Vec<char>, exact: bool) -> (r: Vec<(Vec<char>, String)>)
    ensures
        candidate_views(r@) == output_candidates(views(ports@), wanted@, exact, ports@.len() as int),
{
    let ghost all = views(ports@);
    let out_word = chars_of("out");
    let audio_word = chars_of("audio");
    let left_word = chars_of("left");
    let right_word = chars_of("right");
    let mut out: Vec<(Vec<char>, String)> = Vec::new();
    let mut i: usize = 0;
    while i < ports.len()
        invariant
            i <= ports.len(),
            all == views(ports@),
            out_word@ == "out"@,
            audio_word@ == "audio"@,
            left_word@ == "left"@,
            right_word@ == "right"@,
            candidate_views(out@) =~= output_candidates(all, wanted@, exact, i as int),
        decreases ports.len() - i,
    {
        let port = chars_of(ports[i].as_str());
        assert(port@ == all[i as int]);
        if let Some((client, short)) = split_once_chars(&port, ':') {
            let s = lower_vec(&short);
            let is_output = contains_chars(&s, &out_word) || contains_chars(&s, &audio_word)
                || chars_eq(&s, &left_word) || chars_eq(&s, &right_word);
            let cl = lower_vec(&client);
            let same = chars_eq(&cl, wanted);
            let hit = is_output && ((exact && same) || (!exact && !same && contains_chars(&cl, wanted)));
            if hit {
                let ghost before = candidate_views(out@);
                out.push((client, owned(ports[i].as_str())));
                assert(candidate_views(out@) =~= before.push((client@, all[i as int])));
            }
        }
        i += 1;
    }
    out
}

pub open spec fn candidate_views(v: Seq<(Vec<char>, String)>) -> Seq<(Seq<char>, Seq<char>)> {
    Seq::new(v.len(), |i: int| (v[i].0@, v[i].1@))
}

/// The two audio outputs of the managed JACK client `client_name`: the one
/// client whose name equals the selector (ignoring ASCII case) or, when none
/// does, the one client containing it, must publish exactly two distinct
/// output-like ports; they are returned sorted. Anything else is refused.
pub fn resolve_managed_audio_outputs(client_name: &str, ports: Vec<String>) -> (r: Result<[String; 2], RoutingError>)
    ensures
        ({
            let c = chosen_candidates(views(ports@), client_name@);
            match r {
                Ok(pair) => exists|m: Seq<char>|
                    candidate_clients(c) == set![m] && candidate_ports(c, m) == set![pair[0]@, pair[1]@]
                        && lex_lt(pair[0]@, pair[1]@),
                Err(_) => candidate_clients(c).len() != 1 || (forall|m: Seq<char>|
                    candidate_clients(c) == set![m] ==> candidate_ports(c, m).len() != 2),
            }
        }),
{
    let wanted = lower_chars(client_name);
    let exact = output_candidates_exec(&ports, &wanted, true);
    let candidates = if exact.len() > 0 {
        exact
    } else {
        output_candidates_exec(&ports, &wanted, false)
    };
    let ghost c = candidate_views(candidates@);
    assert(c == chosen_candidates(views(ports@), client_name@));
    let mut clients: Vec<String> = Vec::new();
    let mut k: usize = 0;
    while k < candidates.len()
        invariant
            k <= candidates.len(),
            c == candidate_views(candidates@),
            strictly_sorted(views(clients@)),
            views(clients@).to_set() =~= c.subrange(0, k as int).map_values(|p: (Seq<char>, Seq<char>)| p.0).to_set(),
        decreases candidates.len() - k,
    {
        let text = string_from_chars(&candidates[k].0);
        insert_sorted(&mut clients, text);
        assert(c.subrange(0, k + 1).map_values(|p: (Seq<char>, Seq<char>)| p.0) =~= c.subrange(0, k as int).map_values(|p: (Seq<char>, Seq<char>)| p.0) + seq![c[k as int].0]);
        proof {
            Seq::lemma_to_set_insert_commutes(c.subrange(0, k as int).map_values(|p: (Seq<char>, Seq<char>)| p.0), c[k as int].0);
        }
        k += 1;
    }
    assert(c.subrange(0, candidates.len() as int) =~= c);
    proof {
        lemma_sorted_no_duplicates(views(clients@));
    }
    if clients.len() != 1 {
        return Err(RoutingError(owned("managed JACK client did not match exactly one audio client")));
    }
    let matched = chars_of(clients[0].as_str());
    let ghost m = matched@;
    assert(views(clients@) =~= seq![m]);
    assert(candidate_clients(c) =~= set![m]) by {
        assert forall|x: Seq<char>| seq![m].to_set().contains(x) <==> set![m].contains(x) by {
            if x == m {
                assert(seq![m][0] == m);
            }
        }
        assert(seq![m].to_set() =~= set![m]);
    }
    let mut outputs: Vec<String> = Vec::new();
    let mut j: usize = 0;
    while j < candidates.len()
        invariant
            j <= candidates.len(),
            c == candidate_views(candidates@),
            matched@ == m,
            strictly_sorted(views(outputs@)),
            views(outputs@).to_set() =~= ports_of_upto(c, m, j as int).to_set(),
        decreases candidates.len() - j,
    {
        if chars_eq(&candidates[j].0, &matched) {
            let text = owned(candidates[j].1.as_str());
            insert_sorted(&mut outputs, text);
            proof {
                Seq::lemma_to_set_insert_commutes(ports_of_upto(c, m, j as int), c[j as int].1);
            }
        }
        j += 1;
    }
    proof {
        lemma_sorted_no_duplicates(views(outputs@));
    }
    assert(views(outputs@).to_set() == candidate_ports(c, m));
    if outputs.len() != 2 {
        assert forall|m2: Seq<char>| candidate_clients(c) == set![m2] implies candidate_ports(c, m2).len() != 2 by {
            assert(set![m2].contains(m));
        }
        return Err(RoutingError(owned("managed JACK client did not publish exactly two audio outputs")));
    }
    let ghost v = views(outputs@);
    let second = outputs.pop().unwrap();
    let first = outputs.pop().unwrap();
    proof {
        assert(first@ == v[0] && second@ == v[1]);
        assert(lex_lt(v[0], v[1]));
        assert forall|x: Seq<char>| v.to_set().contains(x) <==> set![first@, second@].contains(x) by {
            if x == v[0] {
                assert(v.contains(x));
            }
            if x == v[1] {
                assert(v[1] == x);
                assert(v.contains(x));
            }
        }
        assert(candidate_ports(c, m) =~= set![first@, second@]);
    }
    Ok([first, second])
}

// ---------------------------------------------------------------------------
// Input roles
// ---------------------------------------------------------------------------

/// What a MIDI input is used for: controlling SHR-DAW, playing music, or both.
#[derive(Clone, Copy, Debug, Default, PartialEq, Eq, Structural)]
pub struct InputRoles {
    pub controller: bool,
    pub performance: bool,
}

/// Whether a message from an input may reach the instrument: performance
/// inputs always may; a control-only input only for mapped controls or a
/// note release it must finish.
pub fn controller_allows_musical(roles: InputRoles, mapped_control: bool, forced_note_release: bool) -> (r: bool)
    ensures
        r == (roles.performance || mapped_control || forced_note_release),
{
    roles.performance || mapped_control || forced_note_release
}

/// Whether MIDI learn consumes a message: only while learning, and only from
/// the controller input.
pub fn controller_learning_owns_message(roles: InputRoles, learning: bool) -> (r: bool)
    ensures
        r == (roles.controller && learning),
{
    roles.controller && learning
}


// ---------------------------------------------------------------------------
// MIDI input availability
// ---------------------------------------------------------------------------

/// One configured MIDI input: the name it was asked for by, the port it
/// resolved to, and why it could not be used.
#[derive(Clone, Debug, PartialEq, Eq)]
pub struct MidiInputState {
    pub wanted: String,
    pub resolved: Option<String>,
    pub error: Option<String>,
}

/// The status line of an input, from what it resolved to and its error.
pub open spec fn input_description(resolved: Option<Seq<char>>, error: Option<Seq<char>>) -> Seq<char> {
    match (resolved, error) {
        (Some(name), None) => "connected · "@ + name,
        (_, Some(e)) => "unavailable · "@ + e,
        (None, None) => "not configured"@,
    }
}

impl MidiInputState {
    pub open spec fn spec_available(self) -> bool {
        self.resolved is Some && self.error is None
    }

    /// Whether the input resolved to a port without an error.
    pub fn available(&self) -> (r: bool)
        ensures
            r == self.spec_available(),
    {
        self.resolved.is_some() && self.error.is_none()
    }

    /// `connected · <port>`, `unavailable · <error>` or `not configured`.
    pub fn description(&self) -> (r: String)
        ensures
            r@ == input_description(opt_view(self.resolved), opt_view(self.error)),
    {
        let mut out = String::new();
        match (&self.resolved, &self.error) {
            (Some(name), None) => {
                push_str(&mut out, "connected · ");
                push_str(&mut out, name.as_str());
            },
            (_, Some(error)) => {
                push_str(&mut out, "unavailable · ");
                push_str(&mut out, error.as_str());
            },
            (None, None) => {
                push_str(&mut out, "not configured");
            },
        }
        out
    }
}

/// The availability of the controller input and of each performance input.
#[derive(Clone, Debug, Default, PartialEq, Eq)]
pub struct MidiInputAvailability {
    pub controller: Option<MidiInputState>,
    pub performance: Vec<MidiInputState>,
}

/// How many of `states` are available.
pub open spec fn count_available(states: Seq<MidiInputState>) -> nat
    decreases states.len(),
{
    if states.len() == 0 {
        0
    } else {
        count_available(states.drop_last()) + if states.last().spec_available() { 1nat } else { 0nat }
    }
}

proof fn lemma_count_available_bound(states: Seq<MidiInputState>)
    ensures
        count_available(states) <= states.len(),
    decreases states.len(),
{
    if states.len() > 0 {
        lemma_count_available_bound(states.drop_last());
    }
}

impl MidiInputAvailability {
    /// Whether a controller input is configured and available.
    pub fn controller_available(&self) -> (r: bool)
        ensures
            r == (match self.controller {
                Some(state) => state.spec_available(),
                None => false,
            }),
    {
        match &self.controller {
            Some(state) => state.available(),
            None => false,
        }
    }

    /// How many performance inputs are available.
    pub fn performance_available(&self) -> (r: usize)
        ensures
            r == count_available(self.performance@),
    {
        let mut n: usize = 0;
        let mut i: usize = 0;
        while i < self.performance.len()
            invariant
                i <= self.performance.len(),
                n == count_available(self.performance@.take(i as int)),
            decreases self.performance.len() - i,
        {
            proof {
                assert(self.performance@.take(i + 1).drop_last() =~= self.performance@.take(i as int));
                lemma_count_available_bound(self.performance@.take(i as int));
            }
            if self.performance[i].available() {
                n += 1;
            }
            i += 1;
        }
        assert(self.performance@.take(self.performance.len() as int) =~= self.performance@);
        n
    }
}

/// A port to open and what for.
#[derive(Clone, Debug, PartialEq, Eq)]
pub struct PlannedMidiInput {
    pub name: String,
    pub roles: InputRoles,
}

/// The first of `inputs` named `name` at or after `from`.
pub open spec fn planned_index(inputs: Seq<PlannedMidiInput>, name: Seq<char>, from: int) -> Option<int>
    decreases inputs.len() - from,
{
    if from < 0 || from >= inputs.len() {
        None
    } else if inputs[from].name@ == name {
        Some(from)
    } else {
        planned_index(inputs, name, from + 1)
    }
}

/// `inputs` with the port `name` planned for `roles` too: its roles joined
/// with those of the first entry for it, or a new entry at the end.
pub open spec fn spec_merge_planned(inputs: Seq<PlannedMidiInput>, name: Seq<char>, roles: InputRoles) -> Seq<(Seq<char>, InputRoles)> {
    let plain = inputs.map_values(|p: PlannedMidiInput| (p.name@, p.roles));
    match planned_index(inputs, name, 0) {
        Some(i) => plain.update(i, (name, InputRoles {
            controller: inputs[i].roles.controller || roles.controller,
            performance: inputs[i].roles.performance || roles.performance,
        })),
        None => plain.push((name, roles)),
    }
}

/// Plans the port `name` for `roles` too.
pub fn merge_planned_input(inputs: &mut Vec<PlannedMidiInput>, name: String, roles: InputRoles)
    ensures
        final(inputs)@.map_values(|p: PlannedMidiInput| (p.name@, p.roles)) == spec_merge_planned(old(inputs)@, name@, roles),
{
    let ghost start = inputs@;
    let mut i: usize = 0;
    while i < inputs.len()
        invariant
            i <= inputs.len(),
            inputs@ == start,
            start == old(inputs)@,
            planned_index(start, name@, 0) == planned_index(start, name@, i as int),
        decreases inputs.len() - i,
    {
        if inputs[i].name == name {
            let merged = PlannedMidiInput {
                name: name,
                roles: InputRoles {
                    controller: inputs[i].roles.controller || roles.controller,
                    performance: inputs[i].roles.performance || roles.performance,
                },
            };
            inputs.set(i, merged);
            proof {
                assert(inputs@.map_values(|p: PlannedMidiInput| (p.name@, p.roles))
                    =~= spec_merge_planned(start, name@, roles));
            }
            return;
        }
        i += 1;
    }
    inputs.push(PlannedMidiInput { name: name, roles: roles });
    proof {
        assert(inputs@.map_values(|p: PlannedMidiInput| (p.name@, p.roles)) =~= spec_merge_planned(start, name@, roles));
    }
}

/// `state` marked with `error`.
pub open spec fn with_error(state: MidiInputState, error: Seq<char>) -> (Seq<char>, Option<Seq<char>>, Option<Seq<char>>) {
    (state.wanted@, opt_view(state.resolved), Some(error))
}

/// A state as its three texts.
pub open spec fn state_texts(state: MidiInputState) -> (Seq<char>, Option<Seq<char>>, Option<Seq<char>>) {
    (state.wanted@, opt_view(state.resolved), opt_view(state.error))
}

fn marked(state: &MidiInputState, error: &String) -> (r: MidiInputState)
    ensures
        state_texts(r) == with_error(*state, error@),
{
    MidiInputState { wanted: state.wanted.clone(), resolved: state.resolved.clone(), error: Some(error.clone()) }
}

/// Records that the port `planned` could not be opened: on the controller
/// input when it was planned for control, and on each performance input
/// that resolved to it when it was planned for playing.
pub fn mark_input_open_error(availability: &mut MidiInputAvailability, planned: &PlannedMidiInput, error: String)
    ensures
        match old(availability).controller {
            Some(c) => final(availability).controller matches Some(n) && state_texts(n)
                == if planned.roles.controller { with_error(c, error@) } else { state_texts(c) },
            None => final(availability).controller is None,
        },
        final(availability).performance@.len() == old(availability).performance@.len(),
        forall|i: int| 0 <= i < old(availability).performance@.len() ==> state_texts(#[trigger] final(availability).performance@[i])
            == if planned.roles.performance && opt_view(old(availability).performance@[i].resolved) == Some(planned.name@) {
                with_error(old(availability).performance@[i], error@)
            } else {
                state_texts(old(availability).performance@[i])
            },
{
    if planned.roles.controller {
        let next = match &availability.controller {
            Some(state) => Some(marked(state, &error)),
            None => None,
        };
        availability.controller = next;
    }
    if planned.roles.performance {
        let mut out: Vec<MidiInputState> = Vec::new();
        let mut i: usize = 0;
        while i < availability.performance.len()
            invariant
                i <= availability.performance.len(),
                out@.len() == i,
                forall|k: int| 0 <= k < i ==> state_texts(#[trigger] out@[k])
                    == if opt_view(availability.performance@[k].resolved) == Some(planned.name@) {
                        with_error(availability.performance@[k], error@)
                    } else {
                        state_texts(availability.performance@[k])
                    },
            decreases availability.performance.len() - i,
        {
            let state = &availability.performance[i];
            let hit = match &state.resolved {
                Some(name) => *name == planned.name,
                None => false,
            };
            if hit {
                out.push(marked(state, &error));
            } else {
                out.push(MidiInputState {
                    wanted: state.wanted.clone(),
                    resolved: state.resolved.clone(),
                    error: state.error.clone(),
                });
            }
            i += 1;
        }
        availability.performance = out;
    }
}


// ---------------------------------------------------------------------------
// Owned-process identity and note messages
// ---------------------------------------------------------------------------

/// An executable path without the ` (deleted)` suffix the kernel appends
/// once the file was replaced.
pub open spec fn executable_identity(path: Seq<u8>) -> Seq<u8> {
    let suffix = " (deleted)"@.map_values(|c: char| c as u8);
    if path.len() >= suffix.len() && path.subrange(path.len() - suffix.len(), path.len() as int) == suffix {
        path.subrange(0, path.len() - suffix.len())
    } else {
        path
    }
}

fn deleted_suffix() -> (r: Vec<u8>)
    ensures
        r@ == " (deleted)"@.map_values(|c: char| c as u8),
{
    let r: Vec<u8> = vec![32u8, 40, 100, 101, 108, 101, 116, 101, 100, 41];
    proof {
        reveal_strlit(" (deleted)");
        assert(r@ =~= " (deleted)"@.map_values(|c: char| c as u8));
    }
    r
}

fn executable_bytes(path: &[u8]) -> (r: Vec<u8>)
    ensures
        r@ == executable_identity(path@),
{
    let suffix = deleted_suffix();
    let n = path.len();
    let mut keep = n;
    if n >= suffix.len() {
        let start = n - suffix.len();
        let mut same = true;
        let mut i: usize = 0;
        while i < suffix.len()
            invariant
                suffix@ == " (deleted)"@.map_values(|c: char| c as u8),
                n == path.len(),
                start + suffix.len() == n,
                i <= suffix.len(),
                same == (forall|k: int| 0 <= k < i ==> path@[start + k] == suffix@[k]),
            decreases suffix.len() - i,
        {
            if path[start + i] != suffix[i] {
                same = false;
            }
            i += 1;
        }
        proof {
            let tail = path@.subrange(start as int, n as int);
            if same {
                assert(tail =~= suffix@);
            } else {
                if tail == suffix@ {
                    assert(forall|k: int| 0 <= k < suffix@.len() ==> path@[start + k] == #[trigger] tail[k]);
                }
            }
        }
        if same {
            keep = start;
        }
    }
    let mut out: Vec<u8> = Vec::new();
    let mut j: usize = 0;
    while j < keep
        invariant
            keep <= path.len(),
            j <= keep,
            out@ == path@.subrange(0, j as int),
        decreases keep - j,
    {
        out.push(path[j]);
        j += 1;
        assert(out@ =~= path@.subrange(0, j as int));
    }
    proof {
        if keep == n {
            assert(out@ =~= path@);
        }
    }
    out
}

/// Whether a recorded executable path names the running one, ignoring the
/// ` (deleted)` suffix of a replaced binary.
pub fn same_executable(recorded: &[u8], current: &[u8]) -> (r: bool)
    ensures
        r == (executable_identity(recorded@) == executable_identity(current@)),
{
    let a = executable_bytes(recorded);
    let b = executable_bytes(current);
    if a.len() != b.len() {
        assert(a@.len() != b@.len());
        return false;
    }
    let mut i: usize = 0;
    while i < a.len()
        invariant
            a@ == executable_identity(recorded@),
            b@ == executable_identity(current@),
            a.len() == b.len(),
            i <= a.len(),
            forall|k: int| 0 <= k < i ==> a@[k] == b@[k],
        decreases a.len() - i,
    {
        if a[i] != b[i] {
            assert(a@[i as int] != b@[i as int]);
            return false;
        }
        i += 1;
    }
    assert(a@ =~= b@);
    true
}

/// A complete note-on or note-off: three bytes, status 0x8n or 0x9n, and
/// 7-bit data.
pub open spec fn is_note_message(m: Seq<u8>) -> bool {
    &&& m.len() == 3
    &&& (m[0] >> 4u8 == 8u8 || m[0] >> 4u8 == 9u8)
    &&& m[1] <= 127
    &&& m[2] <= 127
}

pub fn valid_note_message(message: &[u8]) -> (r: bool)
    ensures
        r == is_note_message(message@),
{
    if message.len() != 3 {
        return false;
    }
    let kind = message[0] >> 4u8;
    (kind == 8 || kind == 9) && message[1] <= 127 && message[2] <= 127
}

/// A message with a note status whose length or data is not a valid note.
pub fn invalid_note_message(message: &[u8]) -> (r: bool)
    ensures
        r == (message@.len() > 0 && (message@[0] >> 4u8 == 8u8 || message@[0] >> 4u8 == 9u8)
            && !is_note_message(message@)),
{
    if message.len() == 0 {
        return false;
    }
    let kind = message[0] >> 4u8;
    (kind == 8 || kind == 9) && !valid_note_message(message)
}


// ---------------------------------------------------------------------------
// Owned-process records
// ---------------------------------------------------------------------------

/// A 32-bit signed decimal in Rust's `FromStr` syntax: an optional sign
/// then one or more ASCII digits, within `i32`.
pub open spec fn parse_i32(s: Seq<char>) -> Option<int> {
    if s.len() > 0 && s[0] == '-' {
        let d = s.subrange(1, s.len() as int);
        if d.len() > 0 && crate::text::all_digits(d) && crate::text::digits_value(d) <= 2147483648 {
            Some(-(crate::text::digits_value(d) as int))
        } else {
            None
        }
    } else {
        match parse_unsigned(s, 2147483647) {
            Some(n) => Some(n as int),
            None => None,
        }
    }
}

fn parse_i32_chars(v: &Vec<char>) -> (r: Option<i32>)
    ensures
        match r {
            Some(n) => parse_i32(v@) == Some(n as int),
            None => parse_i32(v@) is None,
        },
{
    if v.len() > 0 && v[0] == '-' {
        let d = sub_chars(v, 1, v.len());
        if d.len() == 0 || d[0] == '+' {
            proof {
                if d@.len() > 0 {
                    assert(!crate::text::is_digit(d@[0]));
                }
            }
            return None;
        }
        match parse_unsigned_chars(&d, 2147483648) {
            None => None,
            Some(n) => {
                proof {
                    crate::text::lemma_parse_decimal_digits(d@, 2147483648);
                }
                Some((0i64 - n as i64) as i32)
            },
        }
    } else {
        match parse_unsigned_chars(v, 2147483647) {
            None => None,
            Some(n) => Some(n as i32),
        }
    }
}

/// The rest of the first line of `lines[i..]` that starts with `name`.
pub open spec fn field_value(lines: Seq<Seq<char>>, name: Seq<char>, i: int) -> Option<Seq<char>>
    decreases lines.len() - i,
{
    if i < 0 || i >= lines.len() {
        None
    } else {
        match strip_prefix(lines[i], name) {
            Some(rest) => Some(rest),
            None => field_value(lines, name, i + 1),
        }
    }
}

fn field_value_exec(lines: &Vec<Vec<char>>, name: &str) -> (r: Option<Vec<char>>)
    ensures
        opt_chars(r) == field_value(chars_views(lines@), name@, 0),
{
    let ghost ls = chars_views(lines@);
    let mut i: usize = 0;
    while i < lines.len()
        invariant
            i <= lines.len(),
            ls == chars_views(lines@),
            field_value(ls, name@, 0) == field_value(ls, name@, i as int),
        decreases lines.len() - i,
    {
        assert(ls[i as int] == lines@[i as int]@);
        match strip_prefix_chars(&lines[i], name) {
            Some(rest) => {
                return Some(rest);
            },
            None => {},
        }
        i += 1;
    }
    None
}

/// The owner a `pid=`/`start=`/`exe=` record names: its process id, its
/// start time and its executable path; `None` when a field is missing or
/// malformed.
pub open spec fn spec_owner_record(text: Seq<char>) -> Option<(int, nat, Seq<char>)> {
    let lines = crate::text::spec_lines(text);
    match (field_value(lines, "pid="@, 0), field_value(lines, "start="@, 0), field_value(lines, "exe="@, 0)) {
        (Some(p), Some(s), Some(e)) => match (parse_i32(p), parse_unsigned(s, u64::MAX as int)) {
            (Some(pid), Some(start)) => Some((pid, start, e)),
            _ => None,
        },
        _ => None,
    }
}

/// Reads an owner record (see `spec_owner_record`).
pub fn parse_owner_record(text: &str) -> (r: Option<(i32, u64, String)>)
    ensures
        match r {
            Some((pid, start, exe)) => spec_owner_record(text@) == Some((pid as int, start as nat, exe@)),
            None => spec_owner_record(text@) is None,
        },
{
    let chars = chars_of(text);
    let lines = crate::text::lines_of(&chars);
    let pid = field_value_exec(&lines, "pid=");
    let start = field_value_exec(&lines, "start=");
    let exe = field_value_exec(&lines, "exe=");
    match (pid, start, exe) {
        (Some(p), Some(s), Some(e)) => {
            match (parse_i32_chars(&p), parse_unsigned_chars(&s, u64::MAX)) {
                (Some(pid), Some(start)) => Some((pid, start, string_from_chars(&e))),
                _ => None,
            }
        },
        _ => None,
    }
}

/// The record that names an owned process.
pub open spec fn spec_owner_text(pid: int, start: nat, exe: Seq<char>) -> Seq<char> {
    "pid="@ + (if pid < 0 { "-"@ + decimal((-pid) as nat) } else { decimal(pid as nat) }) + "\n"@
        + "start="@ + decimal(start) + "\n"@ + "exe="@ + exe + "\n"@
}

/// Writes an owner record (see `spec_owner_text`).
pub fn owner_record_text(pid: i32, start: u64, exe: &str) -> (r: String)
    ensures
        r@ == spec_owner_text(pid as int, start as nat, exe@),
{
    let mut out = String::new();
    push_str(&mut out, "pid=");
    if pid < 0 {
        push_str(&mut out, "-");
        push_decimal(&mut out, (0i64 - pid as i64) as u64);
    } else {
        push_decimal(&mut out, pid as u64);
    }
    push_str(&mut out, "\n");
    push_str(&mut out, "start=");
    push_decimal(&mut out, start);
    push_str(&mut out, "\n");
    push_str(&mut out, "exe=");
    push_str(&mut out, exe);
    push_str(&mut out, "\n");
    proof {
        assert(out@ =~= spec_owner_text(pid as int, start as nat, exe@));
    }
    out
}

/// Where the last `c` of `s` is.
pub open spec fn last_index(s: Seq<char>, c: char) -> Option<int>
    decreases s.len(),
{
    if s.len() == 0 {
        None
    } else if s.last() == c {
        Some(s.len() - 1)
    } else {
        last_index(s.drop_last(), c)
    }
}

/// The start time in a `/proc/<pid>/stat` line: the 22nd field, counted
/// after the parenthesised command name.
pub open spec fn spec_stat_start_time(stat: Seq<char>) -> Option<nat> {
    match last_index(stat, ')') {
        None => None,
        Some(k) => {
            let words = crate::text::words_from(trim(stat.subrange(k + 1, stat.len() as int)), 0);
            if words.len() > 19 {
                parse_unsigned(words[19], u64::MAX as int)
            } else {
                None
            }
        },
    }
}

fn last_paren(chars: &Vec<char>) -> (r: Option<usize>)
    ensures
        match r {
            Some(k) => k < chars.len() && last_index(chars@, ')') == Some(k as int),
            None => last_index(chars@, ')') is None,
        },
{
    let mut k = chars.len();
    assert(chars@.subrange(0, k as int) =~= chars@);
    while k > 0
        invariant
            k <= chars.len(),
            last_index(chars@, ')') == last_index(chars@.subrange(0, k as int), ')'),
        decreases k,
    {
        if chars[k - 1] == ')' {
            proof {
                let p = chars@.subrange(0, k as int);
                assert(p.last() == ')');
            }
            return Some(k - 1);
        }
        assert(chars@.subrange(0, k as int).drop_last() =~= chars@.subrange(0, k - 1));
        k -= 1;
    }
    None
}

/// Reads the start time of a `/proc/<pid>/stat` line.
pub fn stat_start_time(stat: &str) -> (r: Option<u64>)
    ensures
        match r {
            Some(n) => spec_stat_start_time(stat@) == Some(n as nat),
            None => spec_stat_start_time(stat@) is None,
        },
{
    let chars = chars_of(stat);
    let k = match last_paren(&chars) {
        None => {
            return None;
        },
        Some(k) => k,
    };
    let after = sub_chars(&chars, k + 1, chars.len());
    let trimmed = trim_chars(&after);
    let words = crate::text::words_of(&trimmed);
    if words.len() > 19 {
        assert(chars_views(words@)[19] == words@[19]@);
        parse_unsigned_chars(&words[19], u64::MAX)
    } else {
        None
    }
}

/// A path as a command-line argument for a synth: refused when it holds a
/// line break, which would end the command.
pub fn safe_command_path(path: &str) -> (r: Result<String, String>)
    ensures
        match r {
            Ok(p) => p@ == path@ && !path@.contains('\n') && !path@.contains('\r'),
            Err(e) => e@ == "preset path contains a newline"@ && (path@.contains('\n') || path@.contains('\r')),
        },
{
    let v = chars_of(path);
    let mut i: usize = 0;
    while i < v.len()
        invariant
            i <= v.len(),
            v@ == path@,
            forall|k: int| 0 <= k < i ==> v@[k] != '\n' && v@[k] != '\r',
        decreases v.len() - i,
    {
        if v[i] == '\n' || v[i] == '\r' {
            return Err(owned("preset path contains a newline"));
        }
        i += 1;
    }
    Ok(owned(path))
}

} // verus!
