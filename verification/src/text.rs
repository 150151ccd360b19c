//! Small text helpers shared by the parsers and renderers: building `String`s
//! character by character and splitting text into characters.
use vstd::prelude::*;
use vstd::string::StringExecFns;

verus! {

/// Appends one character to a string (std's `String::push`).
#[verifier::external_body]
pub(crate) fn push_char(s: &mut String, c: char)
    ensures
        final(s)@ == old(s)@.push(c),
{
    s.push(c);
}

/// Appends a string slice.
pub(crate) fn push_str(s: &mut String, t: &str)
    ensures
        final(s)@ == old(s)@ + t@,
{
    s.append(t);
}

/// The characters of a string slice, in order.
pub fn chars_of(s: &str) -> (r: Vec<char>)
    ensures
        r@ == s@,
{
    broadcast use vstd::string::group_string_axioms;
    let mut out: Vec<char> = Vec::new();
    for c in it: s.chars()
        invariant
            out@ == it.seq().take(it.index()),
    {
        out.push(c);
    }
    out
}

/// Builds a `String` from characters.
pub fn string_from_chars(v: &Vec<char>) -> (r: String)
    ensures
        r@ == v@,
{
    let mut out = String::new();
    let mut i: usize = 0;
    while i < v.len()
        invariant
            i <= v.len(),
            out@ == v@.take(i as int),
        decreases v.len() - i,
    {
        push_char(&mut out, v[i]);
        assert(v@.take(i + 1) =~= v@.take(i as int).push(v@[i as int]));
        i += 1;
    }
    assert(v@.take(v.len() as int) =~= v@);
    out
}

/// An optional string as an optional character sequence.
pub open spec fn opt_view(o: Option<String>) -> Option<Seq<char>> {
    match o {
        Some(s) => Some(s@),
        None => None,
    }
}

/// The text `format!("{:?}", s)` gives for a string: quoted, with std's
/// escapes.
pub uninterp spec fn debug_text(s: Seq<char>) -> Seq<char>;

/// std's `Debug` for `str`.
#[verifier::external_body]
pub(crate) fn debug_quoted(s: &str) -> (r: String)
    ensures
        r@ == debug_text(s@),
{
    format!("{:?}", s)
}

/// Copies a string slice into an owned `String` (std's `str::to_owned`).
pub fn owned(s: &str) -> (r: String)
    ensures
        r@ == s@,
{
    s.to_owned()
}

/// Joins words with one separator between neighbours.
pub open spec fn join_with(words: Seq<Seq<char>>, sep: Seq<char>) -> Seq<char>
    decreases words.len(),
{
    if words.len() == 0 {
        Seq::empty()
    } else if words.len() == 1 {
        words[0]
    } else {
        join_with(words.drop_last(), sep) + sep + words.last()
    }
}

/// The decimal digits of a number, most significant first, with no leading zero.
pub open spec fn decimal(n: nat) -> Seq<char>
    decreases n,
{
    if n < 10 {
        seq![digit_char(n)]
    } else {
        decimal(n / 10).push(digit_char(n % 10))
    }
}

pub open spec fn digit_char(d: nat) -> char {
    if d == 0 {
        '0'
    } else if d == 1 {
        '1'
    } else if d == 2 {
        '2'
    } else if d == 3 {
        '3'
    } else if d == 4 {
        '4'
    } else if d == 5 {
        '5'
    } else if d == 6 {
        '6'
    } else if d == 7 {
        '7'
    } else if d == 8 {
        '8'
    } else {
        '9'
    }
}

pub open spec fn is_digit(c: char) -> bool {
    '0' <= c <= '9'
}

pub open spec fn digit_value(c: char) -> nat {
    (c as int - '0' as int) as nat
}

/// The number a non-empty run of decimal digits denotes (leading zeros allowed).
pub open spec fn digits_value(s: Seq<char>) -> nat
    decreases s.len(),
{
    if s.len() == 0 {
        0
    } else {
        digits_value(s.drop_last()) * 10 + digit_value(s.last())
    }
}

pub open spec fn all_digits(s: Seq<char>) -> bool {
    forall|i: int| 0 <= i < s.len() ==> is_digit(#[trigger] s[i])
}

/// The character `c` after ASCII lowercasing.
pub open spec fn ascii_lower(c: char) -> char {
    if 'A' <= c <= 'Z' {
        ((c as int) + 32) as char
    } else {
        c
    }
}

pub open spec fn lower_seq(s: Seq<char>) -> Seq<char> {
    Seq::new(s.len(), |i: int| ascii_lower(s[i]))
}

pub fn lower_char(c: char) -> (r: char)
    ensures
        r == ascii_lower(c),
{
    if 'A' <= c && c <= 'Z' {
        ((c as u8) + 32) as char
    } else {
        c
    }
}

/// The lowercase characters of `v`.
pub fn lower_vec(v: &Vec<char>) -> (r: Vec<char>)
    ensures
        r@ == lower_seq(v@),
{
    let mut out: Vec<char> = Vec::new();
    let mut i: usize = 0;
    while i < v.len()
        invariant
            i <= v.len(),
            out@ =~= lower_seq(v@.subrange(0, i as int)),
        decreases v.len() - i,
    {
        out.push(lower_char(v[i]));
        i += 1;
    }
    out
}

/// The lowercase characters of a string.
pub fn lower_chars(s: &str) -> (r: Vec<char>)
    ensures
        r@ == lower_seq(s@),
{
    let cs = chars_of(s);
    let mut out: Vec<char> = Vec::new();
    let mut i: usize = 0;
    while i < cs.len()
        invariant
            i <= cs.len(),
            cs@ == s@,
            out@ =~= lower_seq(cs@.take(i as int)),
        decreases cs.len() - i,
    {
        let c = lower_char(cs[i]);
        out.push(c);
        i += 1;
    }
    assert(cs@.take(cs.len() as int) =~= cs@);
    out
}

/// Whether `needle` occurs as a contiguous run of `hay`.
pub open spec fn contains_seq(hay: Seq<char>, needle: Seq<char>) -> bool {
    exists|k: int| 0 <= k && k + needle.len() <= hay.len() && #[trigger] hay.subrange(k, k + needle.len()) == needle
}

pub fn starts_at(hay: &Vec<char>, needle: &Vec<char>, k: usize) -> (r: bool)
    requires
        k + needle.len() <= hay.len(),
    ensures
        r == (hay@.subrange(k as int, k + needle.len()) == needle@),
{
    let mut j: usize = 0;
    while j < needle.len()
        invariant
            j <= needle.len(),
            k + needle.len() <= hay.len(),
            forall|t: int| 0 <= t < j ==> hay@[k + t] == needle@[t],
        decreases needle.len() - j,
    {
        if hay[k + j] != needle[j] {
            assert(hay@.subrange(k as int, k + needle.len())[j as int] != needle@[j as int]);
            return false;
        }
        j += 1;
    }
    assert(hay@.subrange(k as int, k + needle.len()) =~= needle@);
    true
}

/// Whether `needle` occurs inside `hay`.
pub fn contains_chars(hay: &Vec<char>, needle: &Vec<char>) -> (r: bool)
    ensures
        r == contains_seq(hay@, needle@),
{
    if needle.len() > hay.len() {
        return false;
    }
    let last = hay.len() - needle.len();
    let mut k: usize = 0;
    while k <= last
        invariant
            needle.len() <= hay.len(),
            last == hay.len() - needle.len(),
            k <= last,
            forall|t: int| 0 <= t < k ==> #[trigger] hay@.subrange(t, t + needle.len()) != needle@,
        decreases last - k,
    {
        if starts_at(hay, needle, k) {
            return true;
        }
        if k == last {
            return false;
        }
        k += 1;
    }
    false
}

/// Whether two character sequences are equal.
pub fn chars_eq(a: &Vec<char>, b: &Vec<char>) -> (r: bool)
    ensures
        r == (a@ == b@),
{
    if a.len() != b.len() {
        return false;
    }
    let mut i: usize = 0;
    while i < a.len()
        invariant
            a.len() == b.len(),
            i <= a.len(),
            forall|t: int| 0 <= t < i ==> a@[t] == b@[t],
        decreases a.len() - i,
    {
        if a[i] != b[i] {
            return false;
        }
        i += 1;
    }
    assert(a@ =~= b@);
    true
}

} // verus!

verus! {

/// Unicode `White_Space` (what `char::is_whitespace` tests).
pub open spec fn is_ws(c: char) -> bool {
    ('\u{9}' <= c <= '\u{d}') || c == ' ' || c == '\u{85}' || c == '\u{a0}' || c == '\u{1680}'
        || ('\u{2000}' <= c <= '\u{200a}') || c == '\u{2028}' || c == '\u{2029}' || c
        == '\u{202f}' || c == '\u{205f}' || c == '\u{3000}'
}

pub fn is_ws_exec(c: char) -> (r: bool)
    ensures
        r == is_ws(c),
{
    ('\u{9}' <= c && c <= '\u{d}') || c == ' ' || c == '\u{85}' || c == '\u{a0}' || c == '\u{1680}'
        || ('\u{2000}' <= c && c <= '\u{200a}') || c == '\u{2028}' || c == '\u{2029}' || c
        == '\u{202f}' || c == '\u{205f}' || c == '\u{3000}'
}

/// Index of the first character of `s` at or after `from` that is not
/// whitespace (`s.len()` when there is none).
pub open spec fn skip_ws_from(s: Seq<char>, from: int) -> int
    decreases s.len() - from,
{
    if from >= s.len() || from < 0 {
        s.len() as int
    } else if is_ws(s[from]) {
        skip_ws_from(s, from + 1)
    } else {
        from
    }
}

/// One past the last non-whitespace character of `s` below `to` (0 when none).
pub open spec fn skip_ws_back(s: Seq<char>, to: int) -> int
    decreases to,
{
    if to <= 0 || to > s.len() {
        0
    } else if is_ws(s[to - 1]) {
        skip_ws_back(s, to - 1)
    } else {
        to
    }
}

/// `s` without leading whitespace (`str::trim_start`).
pub open spec fn trim_start(s: Seq<char>) -> Seq<char> {
    s.subrange(skip_ws_from(s, 0), s.len() as int)
}

/// `s` without trailing whitespace (`str::trim_end`).
pub open spec fn trim_end(s: Seq<char>) -> Seq<char> {
    s.subrange(0, skip_ws_back(s, s.len() as int))
}

/// `s` without leading or trailing whitespace (`str::trim`).
pub open spec fn trim(s: Seq<char>) -> Seq<char> {
    trim_end(trim_start(s))
}

proof fn lemma_skip_ws_from_bounds(s: Seq<char>, from: int)
    requires
        0 <= from <= s.len(),
    ensures
        from <= skip_ws_from(s, from) <= s.len(),
    decreases s.len() - from,
{
    if from < s.len() && is_ws(s[from]) {
        lemma_skip_ws_from_bounds(s, from + 1);
    }
}

pub proof fn lemma_skip_ws_from_stops(s: Seq<char>, from: int)
    requires
        0 <= from <= s.len(),
    ensures
        from <= skip_ws_from(s, from) <= s.len(),
        skip_ws_from(s, from) < s.len() ==> !is_ws(s[skip_ws_from(s, from)]),
    decreases s.len() - from,
{
    if from < s.len() && is_ws(s[from]) {
        lemma_skip_ws_from_stops(s, from + 1);
    }
}

proof fn lemma_skip_ws_back_bounds(s: Seq<char>, to: int)
    requires
        0 <= to <= s.len(),
    ensures
        0 <= skip_ws_back(s, to) <= to,
    decreases to,
{
    if to > 0 && is_ws(s[to - 1]) {
        lemma_skip_ws_back_bounds(s, to - 1);
    }
}

pub fn first_non_ws(v: &Vec<char>, from: usize) -> (r: usize)
    requires
        from <= v.len(),
    ensures
        r == skip_ws_from(v@, from as int),
        from <= r <= v.len(),
{
    let mut i = from;
    while i < v.len() && is_ws_exec(v[i])
        invariant
            from <= i <= v.len(),
            skip_ws_from(v@, from as int) == skip_ws_from(v@, i as int),
        decreases v.len() - i,
    {
        i += 1;
    }
    i
}

pub fn last_non_ws_end(v: &Vec<char>, to: usize) -> (r: usize)
    requires
        to <= v.len(),
    ensures
        r == skip_ws_back(v@, to as int),
        r <= to,
{
    let mut i = to;
    while i > 0 && is_ws_exec(v[i - 1])
        invariant
            i <= to <= v.len(),
            skip_ws_back(v@, to as int) == skip_ws_back(v@, i as int),
        decreases i,
    {
        i -= 1;
    }
    i
}

/// The characters of `v` from `a` up to `b`.
pub fn sub_chars(v: &Vec<char>, a: usize, b: usize) -> (r: Vec<char>)
    requires
        a <= b <= v.len(),
    ensures
        r@ == v@.subrange(a as int, b as int),
{
    let mut out: Vec<char> = Vec::new();
    let mut i = a;
    while i < b
        invariant
            a <= i <= b <= v.len(),
            out@ == v@.subrange(a as int, i as int),
        decreases b - i,
    {
        out.push(v[i]);
        assert(v@.subrange(a as int, i + 1) =~= v@.subrange(a as int, i as int).push(v@[i as int]));
        i += 1;
    }
    out
}

pub fn trim_chars(v: &Vec<char>) -> (r: Vec<char>)
    ensures
        r@ == trim(v@),
{
    let a = first_non_ws(v, 0);
    let rest = sub_chars(v, a, v.len());
    let b = last_non_ws_end(&rest, rest.len());
    sub_chars(&rest, 0, b)
}

pub fn trim_start_chars(v: &Vec<char>) -> (r: Vec<char>)
    ensures
        r@ == trim_start(v@),
{
    let a = first_non_ws(v, 0);
    sub_chars(v, a, v.len())
}

/// Index of the first `c` in `s` at or after `from`.
pub open spec fn find_from(s: Seq<char>, c: char, from: int) -> Option<int>
    decreases s.len() - from,
{
    if from < 0 || from >= s.len() {
        None
    } else if s[from] == c {
        Some(from)
    } else {
        find_from(s, c, from + 1)
    }
}

pub open spec fn find(s: Seq<char>, c: char) -> Option<int> {
    find_from(s, c, 0)
}

pub proof fn lemma_find_from_bounds(s: Seq<char>, c: char, from: int)
    requires
        0 <= from,
    ensures
        find_from(s, c, from) matches Some(i) ==> from <= i < s.len() && s[i] == c,
    decreases s.len() - from,
{
    if from < s.len() && s[from] != c {
        lemma_find_from_bounds(s, c, from + 1);
    }
}

pub fn find_char(v: &Vec<char>, c: char, from: usize) -> (r: Option<usize>)
    requires
        from <= v.len(),
    ensures
        match r {
            Some(i) => find_from(v@, c, from as int) == Some(i as int) && from <= i < v.len()
                && v@[i as int] == c,
            None => find_from(v@, c, from as int) is None,
        },
{
    let mut i = from;
    while i < v.len()
        invariant
            from <= i <= v.len(),
            find_from(v@, c, from as int) == find_from(v@, c, i as int),
        decreases v.len() - i,
    {
        if v[i] == c {
            return Some(i);
        }
        i += 1;
    }
    None
}

/// `s` split at its first `c` (`str::split_once`).
pub open spec fn split_once(s: Seq<char>, c: char) -> Option<(Seq<char>, Seq<char>)> {
    match find(s, c) {
        Some(i) => Some((s.subrange(0, i), s.subrange(i + 1, s.len() as int))),
        None => None,
    }
}

pub fn split_once_chars(v: &Vec<char>, c: char) -> (r: Option<(Vec<char>, Vec<char>)>)
    ensures
        match r {
            Some((a, b)) => split_once(v@, c) == Some((a@, b@)),
            None => split_once(v@, c) is None,
        },
{
    match find_char(v, c, 0) {
        Some(i) => Some((sub_chars(v, 0, i), sub_chars(v, i + 1, v.len()))),
        None => None,
    }
}

/// The text between the first and second `c` of `s`, or everything after the
/// first `c` when there is no second (`s.split(c).nth(1)`).
pub open spec fn second_field(s: Seq<char>, c: char) -> Option<Seq<char>> {
    match split_once(s, c) {
        Some((_, rest)) => Some(
            match find(rest, c) {
                Some(j) => rest.subrange(0, j),
                None => rest,
            },
        ),
        None => None,
    }
}

pub fn second_field_chars(v: &Vec<char>, c: char) -> (r: Option<Vec<char>>)
    ensures
        match r {
            Some(a) => second_field(v@, c) == Some(a@),
            None => second_field(v@, c) is None,
        },
{
    match split_once_chars(v, c) {
        Some((_, rest)) => {
            match find_char(&rest, c, 0) {
                Some(j) => Some(sub_chars(&rest, 0, j)),
                None => Some(rest),
            }
        },
        None => None,
    }
}

/// `s` with the prefix `p` removed, when it starts with `p`.
pub open spec fn strip_prefix(s: Seq<char>, p: Seq<char>) -> Option<Seq<char>> {
    if p.len() <= s.len() && s.subrange(0, p.len() as int) == p {
        Some(s.subrange(p.len() as int, s.len() as int))
    } else {
        None
    }
}

pub fn strip_prefix_chars(v: &Vec<char>, p: &str) -> (r: Option<Vec<char>>)
    ensures
        match r {
            Some(a) => strip_prefix(v@, p@) == Some(a@),
            None => strip_prefix(v@, p@) is None,
        },
{
    let pc = chars_of(p);
    if pc.len() <= v.len() && starts_at(v, &pc, 0) {
        Some(sub_chars(v, pc.len(), v.len()))
    } else {
        None
    }
}

/// Whether `s` begins with a whitespace character.
pub open spec fn starts_with_ws(s: Seq<char>) -> bool {
    s.len() > 0 && is_ws(s[0])
}

/// The value of an unsigned decimal number in Rust's `FromStr` syntax: an
/// optional `+` then one or more ASCII digits; `None` when malformed or
/// larger than `max`.
pub open spec fn parse_unsigned(s: Seq<char>, max: int) -> Option<nat> {
    let digits = if s.len() > 0 && s[0] == '+' { s.subrange(1, s.len() as int) } else { s };
    if digits.len() > 0 && all_digits(digits) && digits_value(digits) <= max {
        Some(digits_value(digits))
    } else {
        None
    }
}

/// The error text of Rust's integer parsing for an unsigned number that
/// does not parse: the string is read from the left, after an optional
/// `+`, and the first non-digit or the first digit that takes the value
/// past `max` decides the error. (On a number that parses the text is
/// never used.)
pub open spec fn int_error_text(s: Seq<char>, max: int) -> Seq<char> {
    if s.len() == 0 {
        "cannot parse integer from empty string"@
    } else if s[0] == '+' {
        digits_error(s.subrange(1, s.len() as int), max, 0, 0)
    } else {
        digits_error(s, max, 0, 0)
    }
}

/// The error among `d[i..]`, `acc` being the value of `d[..i]`.
pub open spec fn digits_error(d: Seq<char>, max: int, i: int, acc: int) -> Seq<char>
    decreases d.len() - i,
{
    if i < 0 || i >= d.len() || !is_digit(d[i]) {
        "invalid digit found in string"@
    } else if acc * 10 + digit_value(d[i]) > max {
        "number too large to fit in target type"@
    } else {
        digits_error(d, max, i + 1, acc * 10 + digit_value(d[i]))
    }
}

/// The error text of Rust's integer parsing for `v` as an unsigned number
/// of at most `max`.
pub fn int_error(v: &Vec<char>, max: u64) -> (r: String)
    ensures
        r@ == int_error_text(v@, max as int),
{
    if v.len() == 0 {
        return owned("cannot parse integer from empty string");
    }
    let start: usize = if v[0] == '+' { 1 } else { 0 };
    let ghost d = if v@[0] == '+' { v@.subrange(1, v@.len() as int) } else { v@ };
    let mut acc: u64 = 0;
    let mut i = start;
    while i < v.len()
        invariant
            start <= i <= v.len(),
            v@.len() > 0,
            start == (if v@[0] == '+' { 1usize } else { 0usize }),
            d == (if v@[0] == '+' { v@.subrange(1, v@.len() as int) } else { v@ }),
            acc <= max,
            int_error_text(v@, max as int) == digits_error(d, max as int, i - start, acc as int),
        decreases v.len() - i,
    {
        let c = v[i];
        assert(d[i - start] == c);
        if !('0' <= c && c <= '9') {
            return owned("invalid digit found in string");
        }
        let dv = ((c as u32) - ('0' as u32)) as u64;
        assert(digit_value(c) == dv);
        if dv > max || acc > (max - dv) / 10 {
            proof {
                assert(acc * 10 + dv > max) by (nonlinear_arith)
                    requires dv > max || acc > (max - dv) / 10, dv <= max ==> max - dv >= 0, acc >= 0;
            }
            return owned("number too large to fit in target type");
        }
        proof {
            assert(acc * 10 + dv <= max) by (nonlinear_arith)
                requires acc <= (max - dv) / 10, dv <= max;
        }
        acc = acc * 10 + dv;
        i += 1;
    }
    owned("invalid digit found in string")
}

proof fn lemma_digits_value_grows(s: Seq<char>, i: int)
    requires
        0 <= i <= s.len(),
        all_digits(s),
    ensures
        digits_value(s.subrange(0, i)) <= digits_value(s),
    decreases s.len() - i,
{
    if i < s.len() {
        lemma_digits_value_grows(s, i + 1);
        assert(s.subrange(0, i + 1).drop_last() =~= s.subrange(0, i));
        assert(is_digit(s[i]));
        assert(s.subrange(0, i + 1).last() == s[i]);
    } else {
        assert(s.subrange(0, i) =~= s);
    }
}

pub fn parse_unsigned_chars(v: &Vec<char>, max: u64) -> (r: Option<u64>)
    ensures
        match r {
            Some(n) => parse_unsigned(v@, max as int) == Some(n as nat),
            None => parse_unsigned(v@, max as int) is None,
        },
{
    let start: usize = if v.len() > 0 && v[0] == '+' { 1 } else { 0 };
    let ghost digits = if v@.len() > 0 && v@[0] == '+' { v@.subrange(1, v@.len() as int) } else { v@ };
    assert(digits =~= v@.subrange(start as int, v@.len() as int));
    if start >= v.len() {
        return None;
    }
    let mut acc: u64 = 0;
    let mut i = start;
    while i < v.len()
        invariant
            start <= i <= v.len(),
            digits =~= v@.subrange(start as int, v@.len() as int),
            digits == (if v@.len() > 0 && v@[0] == '+' { v@.subrange(1, v@.len() as int) } else { v@ }),
            forall|t: int| 0 <= t < i - start ==> is_digit(#[trigger] digits[t]),
            acc == digits_value(digits.subrange(0, i - start)),
            acc <= max,
        decreases v.len() - i,
    {
        let c = v[i];
        if !('0' <= c && c <= '9') {
            assert(digits[i - start] == c);
            assert(!is_digit(digits[i - start]));
            assert(!all_digits(digits));
            return None;
        }
        let d = ((c as u32) - ('0' as u32)) as u64;
        assert(digits.subrange(0, i + 1 - start).drop_last() =~= digits.subrange(0, i - start));
        if d > max || acc > (max - d) / 10 {
            proof {
                assert(acc * 10 + d > max) by (nonlinear_arith)
                    requires d > max || acc > (max - d) / 10, d <= max ==> max - d >= 0, acc >= 0;
                if all_digits(digits) {
                    lemma_digits_value_grows(digits, i + 1 - start);
                }
            }
            return None;
        }
        proof {
            assert(acc * 10 + d <= max) by (nonlinear_arith)
                requires acc <= (max - d) / 10, d <= max;
        }
        acc = acc * 10 + d;
        i += 1;
    }
    assert(digits.subrange(0, digits.len() as int) =~= digits);
    Some(acc)
}

} // verus!

verus! {

/// Lexicographic order on character sequences by code point, the order of
/// Rust's `String` comparison.
pub open spec fn lex_lt(a: Seq<char>, b: Seq<char>) -> bool
    decreases a.len(),
{
    if a.len() == 0 {
        b.len() > 0
    } else if b.len() == 0 {
        false
    } else if a[0] < b[0] {
        true
    } else if a[0] > b[0] {
        false
    } else {
        lex_lt(a.drop_first(), b.drop_first())
    }
}

pub proof fn lemma_lex_irreflexive(a: Seq<char>)
    ensures
        !lex_lt(a, a),
    decreases a.len(),
{
    if a.len() > 0 {
        lemma_lex_irreflexive(a.drop_first());
    }
}

pub proof fn lemma_lex_total(a: Seq<char>, b: Seq<char>)
    ensures
        a == b || lex_lt(a, b) || lex_lt(b, a),
    decreases a.len(),
{
    if a.len() > 0 && b.len() > 0 && a[0] == b[0] {
        lemma_lex_total(a.drop_first(), b.drop_first());
        if a.drop_first() == b.drop_first() {
            assert(a =~= seq![a[0]] + a.drop_first());
            assert(b =~= seq![b[0]] + b.drop_first());
        }
    }
}

pub proof fn lemma_lex_transitive(a: Seq<char>, b: Seq<char>, c: Seq<char>)
    requires
        lex_lt(a, b),
        lex_lt(b, c),
    ensures
        lex_lt(a, c),
    decreases a.len(),
{
    if a.len() > 0 && b.len() > 0 && c.len() > 0 && a[0] == b[0] && b[0] == c[0] {
        lemma_lex_transitive(a.drop_first(), b.drop_first(), c.drop_first());
    }
}

pub proof fn lemma_lex_asymmetric(a: Seq<char>, b: Seq<char>)
    requires
        lex_lt(a, b),
    ensures
        !lex_lt(b, a),
    decreases a.len(),
{
    if a.len() > 0 && b.len() > 0 && a[0] == b[0] {
        lemma_lex_asymmetric(a.drop_first(), b.drop_first());
    }
}

/// Whether `a` sorts before `b`.
pub fn chars_lt(a: &Vec<char>, b: &Vec<char>) -> (r: bool)
    ensures
        r == lex_lt(a@, b@),
{
    let mut i: usize = 0;
    assert(a@.subrange(0, a@.len() as int) =~= a@);
    assert(b@.subrange(0, b@.len() as int) =~= b@);
    while i < a.len() && i < b.len() && a[i] == b[i]
        invariant
            i <= a.len(),
            i <= b.len(),
            lex_lt(a@, b@) == lex_lt(a@.subrange(i as int, a@.len() as int), b@.subrange(i as int, b@.len() as int)),
        decreases a.len() - i,
    {
        proof {
            let x = a@.subrange(i as int, a@.len() as int);
            let y = b@.subrange(i as int, b@.len() as int);
            assert(x.drop_first() =~= a@.subrange(i + 1, a@.len() as int));
            assert(y.drop_first() =~= b@.subrange(i + 1, b@.len() as int));
        }
        i += 1;
    }
    if i == a.len() {
        i < b.len()
    } else if i == b.len() {
        false
    } else {
        a[i] < b[i]
    }
}

/// The views of a sequence of strings.
pub open spec fn views(v: Seq<String>) -> Seq<Seq<char>> {
    Seq::new(v.len(), |i: int| v[i]@)
}

/// Strictly ascending in lexicographic order (hence without repeats).
pub open spec fn strictly_sorted(v: Seq<Seq<char>>) -> bool {
    forall|i: int, j: int| 0 <= i < j < v.len() ==> lex_lt(#[trigger] v[i], #[trigger] v[j])
}

pub proof fn lemma_sorted_no_duplicates(v: Seq<Seq<char>>)
    requires
        strictly_sorted(v),
    ensures
        v.no_duplicates(),
        v.to_set().len() == v.len(),
{
    assert forall|i: int, j: int| 0 <= i < v.len() && 0 <= j < v.len() && i != j implies v[i]
        != v[j] by {
        if i < j {
            assert(lex_lt(v[i], v[j]));
            lemma_lex_irreflexive(v[i]);
        } else {
            assert(lex_lt(v[j], v[i]));
            lemma_lex_irreflexive(v[j]);
        }
    }
    v.unique_seq_to_set();
}

/// Adds `s` to a strictly sorted list of strings unless it is already there.
pub fn insert_sorted(v: &mut Vec<String>, s: String)
    requires
        strictly_sorted(views(old(v)@)),
    ensures
        strictly_sorted(views(final(v)@)),
        views(final(v)@).to_set() == views(old(v)@).to_set().insert(s@),
{
    let sc = chars_of(s.as_str());
    let mut i: usize = 0;
    while i < v.len()
        invariant
            i <= v.len(),
            sc@ == s@,
            forall|j: int| 0 <= j < i ==> lex_lt(#[trigger] views(v@)[j], s@),
        ensures
            i <= v.len(),
            sc@ == s@,
            forall|j: int| 0 <= j < i ==> lex_lt(#[trigger] views(v@)[j], s@),
            i < v.len() ==> !lex_lt(views(v@)[i as int], s@),
        decreases v.len() - i,
    {
        let vc = chars_of(v[i].as_str());
        if !chars_lt(&vc, &sc) {
            break;
        }
        i += 1;
    }
    let ghost old_views = views(v@);
    if i < v.len() {
        let vc = chars_of(v[i].as_str());
        if chars_eq(&vc, &sc) {
            assert(views(v@).to_set().insert(s@) =~= views(v@).to_set()) by {
                assert(views(v@)[i as int] == s@);
            }
            return;
        }
        proof {
            lemma_lex_total(views(v@)[i as int], s@);
        }
    }
    v.insert(i, s);
    proof {
        let nv = views(v@);
        assert(nv =~= old_views.insert(i as int, s@));
        assert forall|a: int, b: int| 0 <= a < b < nv.len() implies lex_lt(#[trigger] nv[a], #[trigger] nv[b]) by {
            if b < i {
            } else if a < i && b == i {
            } else if a < i && b > i {
                assert(nv[b] == old_views[b - 1]);
                if b - 1 == i {
                    lemma_lex_transitive(nv[a], s@, nv[b]);
                } else {
                    assert(lex_lt(old_views[i as int], old_views[b - 1]));
                    lemma_lex_transitive(s@, old_views[i as int], old_views[b - 1]);
                    lemma_lex_transitive(nv[a], s@, nv[b]);
                }
            } else if a == i {
                assert(nv[b] == old_views[b - 1]);
                if b - 1 > i {
                    assert(lex_lt(old_views[i as int], old_views[b - 1]));
                    lemma_lex_transitive(s@, old_views[i as int], old_views[b - 1]);
                }
            } else {
                assert(nv[a] == old_views[a - 1]);
                assert(nv[b] == old_views[b - 1]);
            }
        }
        assert(nv.to_set() =~= old_views.to_set().insert(s@)) by {
            assert forall|x: Seq<char>| nv.to_set().contains(x) implies old_views.to_set().insert(s@).contains(x) by {
                let k = choose|k: int| 0 <= k < nv.len() && nv[k] == x;
                if k < i {
                    assert(old_views[k] == x);
                } else if k > i {
                    assert(old_views[k - 1] == x);
                }
            }
            assert forall|x: Seq<char>| old_views.to_set().insert(s@).contains(x) implies nv.to_set().contains(x) by {
                if x == s@ {
                    assert(nv[i as int] == x);
                } else {
                    let k = choose|k: int| 0 <= k < old_views.len() && old_views[k] == x;
                    if k < i {
                        assert(nv[k] == x);
                    } else {
                        assert(nv[k + 1] == x);
                    }
                }
            }
        }
    }
}

} // verus!

verus! {

/// `s` cut at every `c` (`str::split`), always at least one piece.
pub open spec fn split_all(s: Seq<char>, c: char) -> Seq<Seq<char>>
    decreases s.len(),
{
    match find(s, c) {
        Some(i) => {
            if 0 <= i < s.len() {
                seq![s.subrange(0, i)] + split_all(s.subrange(i + 1, s.len() as int), c)
            } else {
                seq![s]
            }
        },
        None => seq![s],
    }
}

pub open spec fn chars_views(v: Seq<Vec<char>>) -> Seq<Seq<char>> {
    Seq::new(v.len(), |i: int| v[i]@)
}

pub fn split_all_chars(v: &Vec<char>, c: char) -> (r: Vec<Vec<char>>)
    ensures
        chars_views(r@) == split_all(v@, c),
{
    let mut out: Vec<Vec<char>> = Vec::new();
    let mut rest = sub_chars(v, 0, v.len());
    assert(rest@ =~= v@);
    loop
        invariant
            split_all(v@, c) == chars_views(out@) + split_all(rest@, c),
        decreases rest@.len(),
    {
        match find_char(&rest, c, 0) {
            Some(i) => {
                let piece = sub_chars(&rest, 0, i);
                let next = sub_chars(&rest, i + 1, rest.len());
                let ghost before = chars_views(out@);
                out.push(piece);
                assert(chars_views(out@) =~= before.push(piece@));
                assert(split_all(rest@, c) == seq![piece@] + split_all(next@, c));
                assert(before + (seq![piece@] + split_all(next@, c)) =~= before.push(piece@) + split_all(next@, c));
                rest = next;
            },
            None => {
                let ghost before = chars_views(out@);
                out.push(rest);
                assert(chars_views(out@) =~= before + seq![rest@]);
                return out;
            },
        }
    }
}

/// `s` up to its first `c` (`s.split(c).next()`).
pub open spec fn before_char(s: Seq<char>, c: char) -> Seq<char> {
    match find(s, c) {
        Some(i) => s.subrange(0, i),
        None => s,
    }
}

pub fn before_char_chars(v: &Vec<char>, c: char) -> (r: Vec<char>)
    ensures
        r@ == before_char(v@, c),
{
    match find_char(v, c, 0) {
        Some(i) => sub_chars(v, 0, i),
        None => sub_chars(v, 0, v.len()),
    }
}

} // verus!

verus! {

pub fn digit_char_exec(d: u64) -> (r: char)
    requires
        d < 10,
    ensures
        r == digit_char(d as nat),
{
    if d == 0 { '0' }
    else if d == 1 { '1' }
    else if d == 2 { '2' }
    else if d == 3 { '3' }
    else if d == 4 { '4' }
    else if d == 5 { '5' }
    else if d == 6 { '6' }
    else if d == 7 { '7' }
    else if d == 8 { '8' }
    else { '9' }
}

/// The decimal digits of `n`.
pub fn decimal_chars(n: u64) -> (r: Vec<char>)
    ensures
        r@ == decimal(n as nat),
    decreases n,
{
    if n < 10 {
        let mut v: Vec<char> = Vec::new();
        v.push(digit_char_exec(n));
        assert(v@ =~= seq![digit_char(n as nat)]);
        v
    } else {
        let mut v = decimal_chars(n / 10);
        v.push(digit_char_exec(n % 10));
        v
    }
}

/// Appends the decimal digits of `n` (what `format!("{n}")` writes).
pub fn push_decimal(s: &mut String, n: u64)
    ensures
        final(s)@ == old(s)@ + decimal(n as nat),
{
    let digits = decimal_chars(n);
    let mut i: usize = 0;
    let ghost start = s@;
    while i < digits.len()
        invariant
            i <= digits.len(),
            digits@ == decimal(n as nat),
            s@ == start + digits@.subrange(0, i as int),
        decreases digits.len() - i,
    {
        push_char(s, digits[i]);
        assert(digits@.subrange(0, i + 1) =~= digits@.subrange(0, i as int).push(digits@[i as int]));
        i += 1;
    }
    assert(digits@.subrange(0, digits.len() as int) =~= digits@);
}

} // verus!

verus! {

/// The decimal digits of a number are digits, at least one, not starting
/// with `+`, and denote the number.
pub proof fn lemma_decimal_digits(n: nat)
    ensures
        decimal(n).len() >= 1,
        all_digits(decimal(n)),
        digits_value(decimal(n)) == n,
        n < 10 ==> decimal(n).len() == 1,
        n < 100 ==> decimal(n).len() <= 2,
        n < 1000 ==> decimal(n).len() <= 3,
    decreases n,
{
    if n < 10 {
        lemma_digit_char_value(n);
        assert(decimal(n) == seq![digit_char(n)]);
        assert(seq![digit_char(n)].drop_last() =~= Seq::<char>::empty());
        assert(digits_value(Seq::<char>::empty()) == 0);
        assert(digits_value(decimal(n)) == digits_value(Seq::<char>::empty()) * 10 + digit_value(digit_char(n)));
    } else {
        lemma_digit_char_value(n % 10);
        assert(n == (n / 10) * 10 + n % 10);
        lemma_decimal_digits(n / 10);
        let s = decimal(n / 10);
        assert(decimal(n) == s.push(digit_char(n % 10)));
        assert(s.push(digit_char(n % 10)).drop_last() =~= s);
        assert(digits_value(decimal(n)) == digits_value(s) * 10 + digit_value(digit_char(n % 10)));
        assert forall|i: int| 0 <= i < decimal(n).len() implies is_digit(#[trigger] decimal(n)[i]) by {
            if i < s.len() {
                assert(decimal(n)[i] == s[i]);
            }
        }
    }
}

proof fn lemma_digit_char_value(d: nat)
    requires
        d < 10,
    ensures
        is_digit(digit_char(d)),
        digit_value(digit_char(d)) == d,
{
}

/// A number's decimal digits read back as that number.
pub proof fn lemma_parse_decimal(n: nat, max: int)
    requires
        n <= max,
    ensures
        parse_unsigned(decimal(n), max) == Some(n),
{
    lemma_decimal_digits(n);
    assert(is_digit(decimal(n)[0]));
}

/// A line starting with a character other than whitespace is not blank.
/// A run of digits that `parse_unsigned` accepts without a sign is all
/// digits and at most `max`.
pub proof fn lemma_parse_decimal_digits(s: Seq<char>, max: int)
    requires
        parse_unsigned(s, max) is Some,
        s.len() > 0 ==> s[0] != '+',
    ensures
        s.len() > 0,
        all_digits(s),
        digits_value(s) <= max,
        parse_unsigned(s, max) == Some(digits_value(s)),
{
}

/// A text that is its own trim has no whitespace at either end.
pub proof fn lemma_trim_nonempty_ends(s: Seq<char>)
    requires
        s.len() > 0,
        trim(s) == s,
    ensures
        !is_ws(s[0]),
        !is_ws(s.last()),
{
    lemma_skip_ws_from_stops(s, 0);
    let a = skip_ws_from(s, 0);
    let t = trim_start(s);
    lemma_skip_ws_back_bounds(t, t.len() as int);
    assert(trim(s).len() <= t.len());
    if a > 0 {
        assert(t.len() < s.len());
        assert(false);
    }
    assert(t =~= s);
    if is_ws(s.last()) {
        assert(skip_ws_back(s, s.len() as int) == skip_ws_back(s, s.len() - 1));
        lemma_skip_ws_back_bounds(s, s.len() - 1);
        assert(false);
    }
}

pub proof fn lemma_trim_nonempty(s: Seq<char>)
    requires
        s.len() > 0,
        !is_ws(s[0]),
    ensures
        trim(s).len() > 0,
{
    assert(skip_ws_from(s, 0) == 0);
    assert(trim_start(s) =~= s);
    lemma_skip_back_positive(s, s.len() as int);
    assert(trim_end(s).len() == skip_ws_back(s, s.len() as int));
}

proof fn lemma_skip_back_positive(s: Seq<char>, to: int)
    requires
        1 <= to <= s.len(),
        !is_ws(s[0]),
    ensures
        1 <= skip_ws_back(s, to) <= to,
    decreases to,
{
    if to > 1 && is_ws(s[to - 1]) {
        lemma_skip_back_positive(s, to - 1);
    }
}

} // verus!

verus! {

/// One past the end of the run of non-whitespace characters starting at `i`.
pub open spec fn run_end(s: Seq<char>, i: int) -> int
    decreases s.len() - i,
{
    if i < 0 || i >= s.len() {
        s.len() as int
    } else if is_ws(s[i]) {
        i
    } else {
        run_end(s, i + 1)
    }
}

/// The whitespace-separated words of `s` from index `i` on
/// (`str::split_whitespace`).
pub open spec fn words_from(s: Seq<char>, i: int) -> Seq<Seq<char>>
    decreases s.len() - i,
{
    let j = skip_ws_from(s, i);
    if i < 0 || j >= s.len() || j < i {
        Seq::empty()
    } else {
        let e = run_end(s, j);
        if e <= j || e > s.len() {
            Seq::empty()
        } else {
            seq![s.subrange(j, e)] + words_from(s, e)
        }
    }
}

pub fn words_of(v: &Vec<char>) -> (r: Vec<Vec<char>>)
    ensures
        chars_views(r@) == words_from(v@, 0),
{
    let mut out: Vec<Vec<char>> = Vec::new();
    let mut i: usize = 0;
    loop
        invariant
            i <= v.len(),
            words_from(v@, 0) == chars_views(out@) + words_from(v@, i as int),
        decreases v.len() - i,
    {
        let j = first_non_ws(v, i);
        if j >= v.len() {
            assert(words_from(v@, i as int) =~= Seq::<Seq<char>>::empty());
            assert(chars_views(out@) + Seq::<Seq<char>>::empty() =~= chars_views(out@));
            return out;
        }
        proof {
            lemma_skip_ws_from_stops(v@, i as int);
        }
        let mut e = j;
        while e < v.len() && !is_ws_exec(v[e])
            invariant
                j <= e <= v.len(),
                run_end(v@, j as int) == run_end(v@, e as int),
            decreases v.len() - e,
        {
            e += 1;
        }
        assert(e > j);
        assert(run_end(v@, e as int) == e);
        let word = sub_chars(v, j, e);
        let ghost before = chars_views(out@);
        out.push(word);
        assert(chars_views(out@) =~= before.push(word@));
        assert(before + (seq![word@] + words_from(v@, e as int)) =~= before.push(word@) + words_from(v@, e as int));
        i = e;
    }
}

} // verus!

verus! {

/// A line without the `\r` of a `\r\n` ending.
pub open spec fn strip_cr(l: Seq<char>) -> Seq<char> {
    if l.len() > 0 && l.last() == '\r' {
        l.drop_last()
    } else {
        l
    }
}

/// The lines of `s` as `str::lines` yields them: split at `\n`, a `\r`
/// before the `\n` dropped, no empty line after a final `\n`.
pub open spec fn spec_lines(s: Seq<char>) -> Seq<Seq<char>>
    decreases s.len(),
{
    if s.len() == 0 {
        Seq::empty()
    } else {
        match find(s, '\n') {
            Some(i) => if 0 <= i < s.len() {
                seq![strip_cr(s.subrange(0, i))] + spec_lines(s.subrange(i + 1, s.len() as int))
            } else {
                seq![s]
            },
            None => seq![s],
        }
    }
}

pub fn strip_cr_chars(l: Vec<char>) -> (r: Vec<char>)
    ensures
        r@ == strip_cr(l@),
{
    if l.len() > 0 && l[l.len() - 1] == '\r' {
        sub_chars(&l, 0, l.len() - 1)
    } else {
        l
    }
}

/// The lines of `v` (`str::lines`).
pub fn lines_of(v: &Vec<char>) -> (r: Vec<Vec<char>>)
    ensures
        chars_views(r@) == spec_lines(v@),
{
    let mut out: Vec<Vec<char>> = Vec::new();
    let mut rest = sub_chars(v, 0, v.len());
    assert(rest@ =~= v@);
    assert(chars_views(out@) =~= Seq::<Seq<char>>::empty());
    assert(chars_views(out@) + spec_lines(rest@) =~= spec_lines(rest@));
    loop
        invariant
            spec_lines(v@) == chars_views(out@) + spec_lines(rest@),
        decreases rest@.len(),
    {
        if rest.len() == 0 {
            assert(chars_views(out@) + spec_lines(rest@) =~= chars_views(out@));
            return out;
        }
        match find_char(&rest, '\n', 0) {
            Some(i) => {
                let piece = strip_cr_chars(sub_chars(&rest, 0, i));
                let next = sub_chars(&rest, i + 1, rest.len());
                let ghost before = chars_views(out@);
                out.push(piece);
                assert(chars_views(out@) =~= before.push(piece@));
                assert(spec_lines(rest@) == seq![piece@] + spec_lines(next@));
                assert(before + (seq![piece@] + spec_lines(next@)) =~= before.push(piece@) + spec_lines(next@));
                rest = next;
            },
            None => {
                let ghost before = chars_views(out@);
                assert(spec_lines(rest@) == seq![rest@]);
                out.push(rest);
                assert(chars_views(out@) =~= before + seq![rest@]);
                return out;
            },
        }
    }
}

} // verus!
