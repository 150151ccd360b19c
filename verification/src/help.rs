//! The in-app help: Markdown text laid out as screen lines that fit a width,
//! with headings as link targets, and the same text as an HTML page.
use vstd::prelude::*;
use crate::text::{
    opt_view,
    ascii_lower, chars_of, find, find_char, find_from, owned, push_char, push_str,
    strip_prefix, sub_chars, trim, trim_chars, words_from, words_of,
};

verus! {

// ---------------------------------------------------------------------------
// Truncation and anchors
// ---------------------------------------------------------------------------

/// At most the first `width` characters of `text`.
pub open spec fn spec_truncate(text: Seq<char>, width: nat) -> Seq<char> {
    if text.len() <= width {
        text
    } else {
        text.take(width as int)
    }
}

pub fn truncate(text: &Vec<char>, width: usize) -> (r: Vec<char>)
    ensures
        r@ == spec_truncate(text@, width as nat),
{
    if text.len() <= width {
        sub_chars(text, 0, text.len())
    } else {
        sub_chars(text, 0, width)
    }
}

pub open spec fn is_ascii_alnum(c: char) -> bool {
    ('0' <= c <= '9') || ('a' <= c <= 'z') || ('A' <= c <= 'Z')
}

pub open spec fn is_ascii_ws(c: char) -> bool {
    c == ' ' || c == '\t' || c == '\n' || c == '\u{c}' || c == '\r'
}

/// The ASCII character in the lowercase form of `c`, if any (for a
/// non-ASCII character only the Kelvin sign and the dotted capital I have
/// one).
pub open spec fn ascii_of_lower(c: char) -> Option<char> {
    if (c as u32) < 0x80 {
        Some(ascii_lower(c))
    } else if c == '\u{212a}' {
        Some('k')
    } else if c == '\u{130}' {
        Some('i')
    } else {
        None
    }
}

/// Building an anchor over the first `k` characters: the anchor so far and
/// whether it ends in a dash just added.
pub open spec fn anchor_fold(s: Seq<char>, k: int) -> (Seq<char>, bool)
    decreases k,
{
    if k <= 0 {
        (Seq::empty(), false)
    } else {
        let (out, dash) = anchor_fold(s, k - 1);
        match ascii_of_lower(s[k - 1]) {
            None => (out, dash),
            Some(c) => if is_ascii_alnum(c) {
                (out.push(c), false)
            } else if (is_ascii_ws(c) || c == '-') && out.len() > 0 && !dash {
                (out.push('-'), true)
            } else {
                (out, dash)
            },
        }
    }
}

pub open spec fn strip_dashes(s: Seq<char>) -> Seq<char>
    decreases s.len(),
{
    if s.len() > 0 && s.last() == '-' {
        strip_dashes(s.drop_last())
    } else {
        s
    }
}

/// The link target of a heading: its lowercase ASCII letters and digits,
/// with one dash for each run of spaces or dashes between them.
pub open spec fn spec_anchor(text: Seq<char>) -> Seq<char> {
    strip_dashes(anchor_fold(text, text.len() as int).0)
}

fn ascii_of_lower_exec(c: char) -> (r: Option<char>)
    ensures
        r == ascii_of_lower(c),
{
    if (c as u32) < 0x80 {
        Some(crate::text::lower_char(c))
    } else if c == '\u{212a}' {
        Some('k')
    } else if c == '\u{130}' {
        Some('i')
    } else {
        None
    }
}

pub fn anchor(text: &Vec<char>) -> (r: Vec<char>)
    ensures
        r@ == spec_anchor(text@),
{
    let mut out: Vec<char> = Vec::new();
    let mut dash = false;
    let mut i: usize = 0;
    while i < text.len()
        invariant
            i <= text.len(),
            (out@, dash) == anchor_fold(text@, i as int),
        decreases text.len() - i,
    {
        match ascii_of_lower_exec(text[i]) {
            None => {},
            Some(c) => {
                if ('0' <= c && c <= '9') || ('a' <= c && c <= 'z') || ('A' <= c && c <= 'Z') {
                    out.push(c);
                    dash = false;
                } else if (c == ' ' || c == '\t' || c == '\n' || c == '\u{c}' || c == '\r' || c == '-')
                    && out.len() > 0 && !dash {
                    out.push('-');
                    dash = true;
                }
            },
        }
        i += 1;
    }
    while out.len() > 0 && out[out.len() - 1] == '-'
        invariant
            strip_dashes(anchor_fold(text@, text@.len() as int).0) == strip_dashes(out@),
        decreases out.len(),
    {
        let ghost before = out@;
        out.pop();
        assert(out@ =~= before.drop_last());
    }
    out
}

} // verus!

verus! {

// ---------------------------------------------------------------------------
// Links and wrapping
// ---------------------------------------------------------------------------

/// A line with its first Markdown link `[label](target)` shown as the label
/// (followed by ` >` for an in-page `#target`), the in-page target, and
/// whether the link is all the line holds.
pub open spec fn spec_display_link(raw: Seq<char>) -> (Seq<char>, Option<Seq<char>>, bool) {
    match find(raw, '[') {
        None => (raw, None, false),
        Some(open) => match find_from(raw, ']', open + 1) {
            None => (raw, None, false),
            Some(close) => {
                let rest = raw.subrange(close + 1, raw.len() as int);
                if !(rest.len() > 0 && rest[0] == '(') {
                    (raw, None, false)
                } else {
                    let after = rest.subrange(1, rest.len() as int);
                    match find(after, ')') {
                        None => (raw, None, false),
                        Some(end) => {
                            let inner = after.subrange(0, end);
                            let target = if inner.len() > 0 && inner[0] == '#' {
                                Some(inner.subrange(1, inner.len() as int))
                            } else {
                                None
                            };
                            let suffix = after.subrange(end + 1, after.len() as int);
                            let text = raw.subrange(0, open) + raw.subrange(open + 1, close) + (if target is Some {
                                " >"@
                            } else {
                                Seq::empty()
                            }) + suffix;
                            (text, target, trim(raw.subrange(0, open)).len() == 0 && trim(suffix).len() == 0)
                        },
                    }
                }
            },
        },
    }
}

pub fn display_link(raw: &Vec<char>) -> (r: (Vec<char>, Option<Vec<char>>, bool))
    ensures
        (r.0@, match r.1 {
            Some(t) => Some(t@),
            None => None,
        }, r.2) == spec_display_link(raw@),
{
    let unchanged = sub_chars(raw, 0, raw.len());
    assert(unchanged@ =~= raw@);
    let open = match find_char(raw, '[', 0) {
        None => {
            return (unchanged, None, false);
        },
        Some(i) => i,
    };
    proof {
        crate::text::lemma_find_from_bounds(raw@, '[', 0);
    }
    let close = match find_char(raw, ']', open + 1) {
        None => {
            return (unchanged, None, false);
        },
        Some(i) => i,
    };
    let rest = sub_chars(raw, close + 1, raw.len());
    if !(rest.len() > 0 && rest[0] == '(') {
        return (unchanged, None, false);
    }
    let after = sub_chars(&rest, 1, rest.len());
    let end = match find_char(&after, ')', 0) {
        None => {
            return (unchanged, None, false);
        },
        Some(i) => i,
    };
    let inner = sub_chars(&after, 0, end);
    let target = if inner.len() > 0 && inner[0] == '#' {
        Some(sub_chars(&inner, 1, inner.len()))
    } else {
        None
    };
    let before = sub_chars(raw, 0, open);
    let label = sub_chars(raw, open + 1, close);
    let suffix = sub_chars(&after, end + 1, after.len());
    let mut text: Vec<char> = Vec::new();
    append(&mut text, &before);
    append(&mut text, &label);
    if target.is_some() {
        text.push(' ');
        text.push('>');
    }
    append(&mut text, &suffix);
    proof {
        reveal_strlit(" >");
        if target is Some {
            assert(text@ =~= before@ + label@ + " >"@ + suffix@);
        } else {
            assert(text@ =~= before@ + label@ + Seq::<char>::empty() + suffix@);
        }
    }
    let link_only = trim_chars(&before).len() == 0 && trim_chars(&suffix).len() == 0;
    (text, target, link_only)
}

/// Appends the characters of `b`.
pub fn append(a: &mut Vec<char>, b: &Vec<char>)
    ensures
        final(a)@ == old(a)@ + b@,
{
    let ghost start = a@;
    let mut i: usize = 0;
    while i < b.len()
        invariant
            i <= b.len(),
            a@ == start + b@.take(i as int),
        decreases b.len() - i,
    {
        a.push(b[i]);
        assert(b@.take(i + 1) =~= b@.take(i as int).push(b@[i as int]));
        i += 1;
    }
    assert(b@.take(b.len() as int) =~= b@);
}

pub open spec fn spaces(n: nat) -> Seq<char> {
    Seq::new(n, |i: int| ' ')
}

/// Filling lines with the first `k` words: the finished lines and the line
/// being filled.
pub open spec fn wrap_fold(words: Seq<Seq<char>>, k: int, pw: nat, width: nat, prefix: Seq<char>) -> (Seq<Seq<char>>, Seq<char>)
    decreases k,
{
    if k <= 0 {
        (Seq::empty(), prefix)
    } else {
        let (lines, cur) = wrap_fold(words, k - 1, pw, width, prefix);
        let w = words[k - 1];
        let sep: int = if cur.len() > pw { 1 } else { 0 };
        let (lines2, cur2) = if cur.len() + sep + w.len() > width && cur.len() > pw {
            (lines.push(cur), spaces(pw))
        } else {
            (lines, cur)
        };
        let cur3 = if cur2.len() > pw { cur2.push(' ') } else { cur2 };
        (lines2, cur3 + w)
    }
}

/// The words of `text` filled into lines of at most `width` characters, the
/// first starting with `prefix` and the others indented as wide; a blank
/// result is one empty line, and the last line is cut to `width`.
pub open spec fn spec_wrap(text: Seq<char>, prefix: Seq<char>, width: nat) -> Seq<Seq<char>> {
    let words = words_from(text, 0);
    let (lines, cur) = wrap_fold(words, words.len() as int, prefix.len(), width, prefix);
    if trim(cur).len() == 0 {
        lines.push(Seq::empty())
    } else {
        lines.push(spec_truncate(cur, width))
    }
}

pub fn wrap(text: &Vec<char>, prefix: &str, width: usize) -> (r: Vec<Vec<char>>)
    ensures
        crate::text::chars_views(r@) == spec_wrap(text@, prefix@, width as nat),
{
    let p = chars_of(prefix);
    let pw = p.len();
    let words = words_of(text);
    let ghost ws = crate::text::chars_views(words@);
    let mut lines: Vec<Vec<char>> = Vec::new();
    let mut current = sub_chars(&p, 0, p.len());
    assert(current@ =~= prefix@);
    assert(crate::text::chars_views(lines@) =~= Seq::<Seq<char>>::empty());
    let mut k: usize = 0;
    while k < words.len()
        invariant
            k <= words.len(),
            pw == prefix@.len(),
            ws == crate::text::chars_views(words@),
            ws == words_from(text@, 0),
            (crate::text::chars_views(lines@), current@) == wrap_fold(ws, k as int, pw as nat, width as nat, prefix@),
        decreases words.len() - k,
    {
        let word = &words[k];
        assert(ws[k as int] == word@);
        let cw = current.len();
        let sep: usize = if cw > pw { 1 } else { 0 };
        if cw as u128 + sep as u128 + word.len() as u128 > width as u128 && cw > pw {
            let ghost before = crate::text::chars_views(lines@);
            let finished = current;
            let fresh_line: Vec<char> = Vec::new();
            current = fresh_line;
            let mut j: usize = 0;
            while j < pw
                invariant
                    j <= pw,
                    current@ == spaces(j as nat),
                decreases pw - j,
            {
                current.push(' ');
                assert(current@ =~= spaces((j + 1) as nat));
                j += 1;
            }
            let ghost fin = finished@;
            lines.push(finished);
            assert(crate::text::chars_views(lines@) =~= before.push(fin));
        }
        if current.len() > pw {
            current.push(' ');
        }
        append(&mut current, word);
        k += 1;
    }
    if trim_chars(&current).len() == 0 {
        let ghost before = crate::text::chars_views(lines@);
        lines.push(Vec::new());
        assert(crate::text::chars_views(lines@) =~= before.push(Seq::<char>::empty()));
    } else {
        let ghost before = crate::text::chars_views(lines@);
        let cut = truncate(&current, width);
        lines.push(cut);
        assert(crate::text::chars_views(lines@) =~= before.push(spec_truncate(current@, width as nat)));
    }
    lines
}

} // verus!

verus! {

proof fn lemma_wrap_fold_fits(words: Seq<Seq<char>>, k: int, width: nat, prefix: Seq<char>)
    requires
        0 <= k <= words.len(),
        prefix.len() <= width,
        forall|i: int| 0 <= i < words.len() ==> (#[trigger] words[i]).len() + prefix.len() <= width,
    ensures
        wrap_fold(words, k, prefix.len(), width, prefix).1.len() <= width,
        wrap_fold(words, k, prefix.len(), width, prefix).1.len() >= prefix.len(),
        forall|i: int| 0 <= i < wrap_fold(words, k, prefix.len(), width, prefix).0.len() ==> (#[trigger] wrap_fold(
            words,
            k,
            prefix.len(),
            width,
            prefix,
        ).0[i]).len() <= width,
    decreases k,
{
    if k > 0 {
        lemma_wrap_fold_fits(words, k - 1, width, prefix);
        let (lines, cur) = wrap_fold(words, k - 1, prefix.len(), width, prefix);
        let w = words[k - 1];
        assert(w.len() + prefix.len() <= width);
        let pw = prefix.len();
        let sep: int = if cur.len() > pw { 1 } else { 0 };
        if cur.len() + sep + w.len() > width && cur.len() > pw {
            let l2 = lines.push(cur);
            assert forall|i: int| 0 <= i < l2.len() implies (#[trigger] l2[i]).len() <= width by {
                if i < lines.len() {
                    assert(l2[i] == lines[i]);
                }
            }
        }
    }
}

/// Every wrapped line fits the width when every word fits beside the prefix.
pub proof fn lemma_wrap_fits(text: Seq<char>, prefix: Seq<char>, width: nat)
    requires
        prefix.len() <= width,
        forall|i: int| 0 <= i < words_from(text, 0).len() ==> (#[trigger] words_from(text, 0)[i]).len() + prefix.len() <= width,
    ensures
        forall|i: int| 0 <= i < spec_wrap(text, prefix, width).len() ==> (#[trigger] spec_wrap(text, prefix, width)[i]).len() <= width,
{
    let words = words_from(text, 0);
    lemma_wrap_fold_fits(words, words.len() as int, width, prefix);
    let (lines, cur) = wrap_fold(words, words.len() as int, prefix.len(), width, prefix);
    let out = spec_wrap(text, prefix, width);
    assert forall|i: int| 0 <= i < out.len() implies (#[trigger] out[i]).len() <= width by {
        if i < lines.len() {
            assert(out[i] == lines[i]);
        }
    }
}

} // verus!

verus! {

// ---------------------------------------------------------------------------
// Screen lines
// ---------------------------------------------------------------------------

#[derive(Clone, Copy, Debug, PartialEq, Eq, Structural)]
pub enum HelpKind {
    Blank,
    Heading,
    Link,
    Text,
}

/// One screen line of help: its text, its kind, the anchor a heading
/// defines, and the in-page target a link's first line jumps to.
#[derive(Clone, Debug, PartialEq, Eq)]
pub struct HelpLine {
    pub text: String,
    pub kind: HelpKind,
    pub anchor: Option<String>,
    pub target: Option<String>,
}

pub struct HelpLineModel {
    pub text: Seq<char>,
    pub kind: HelpKind,
    pub anchor: Option<Seq<char>>,
    pub target: Option<Seq<char>>,
}

impl View for HelpLine {
    type V = HelpLineModel;

    open spec fn view(&self) -> HelpLineModel {
        HelpLineModel { text: self.text@, kind: self.kind, anchor: opt_view(self.anchor), target: opt_view(self.target) }
    }
}

pub open spec fn lines_view(v: Seq<HelpLine>) -> Seq<HelpLineModel> {
    Seq::new(v.len(), |i: int| v[i]@)
}

pub open spec fn skip_hashes(s: Seq<char>) -> Seq<char>
    decreases s.len(),
{
    if s.len() > 0 && s[0] == '#' {
        skip_hashes(s.subrange(1, s.len() as int))
    } else {
        s
    }
}

pub open spec fn blank_line() -> HelpLineModel {
    HelpLineModel { text: Seq::empty(), kind: HelpKind::Blank, anchor: None, target: None }
}

/// The heading text of a trimmed `#` line.
pub open spec fn heading_text(trimmed: Seq<char>) -> Seq<char> {
    trim(skip_hashes(trimmed.subrange(1, trimmed.len() as int)))
}

/// The prefix a body line is wrapped with: an indent for a line that is
/// only a link, the bullet of a list item, or nothing.
pub open spec fn body_prefix(text: Seq<char>, link_only: bool) -> Seq<char> {
    if link_only {
        "  "@
    } else if strip_prefix(text, "- "@) is Some {
        "- "@
    } else {
        Seq::empty()
    }
}

pub open spec fn body_of(text: Seq<char>) -> Seq<char> {
    match strip_prefix(text, "- "@) {
        Some(b) => b,
        None => text,
    }
}

/// The screen lines one Markdown line becomes at width `w`.
pub open spec fn raw_help_lines(raw: Seq<char>, w: nat) -> Seq<HelpLineModel> {
    let trimmed = trim(raw);
    if trimmed.len() == 0 {
        seq![blank_line()]
    } else if trimmed[0] == '#' {
        let heading = heading_text(trimmed);
        seq![HelpLineModel { text: spec_truncate(heading, w), kind: HelpKind::Heading, anchor: Some(spec_anchor(heading)), target: None }]
    } else {
        let (text, target, link_only) = spec_display_link(trimmed);
        let wrapped = spec_wrap(body_of(text), body_prefix(text, link_only), w);
        let kind = if target is Some { HelpKind::Link } else { HelpKind::Text };
        Seq::new(
            wrapped.len(),
            |i: int| HelpLineModel { text: wrapped[i], kind, anchor: None, target: if i == 0 { target } else { None } },
        )
    }
}

/// The screen lines of the first `k` Markdown lines.
pub open spec fn help_lines_upto(raws: Seq<Seq<char>>, k: int, w: nat) -> Seq<HelpLineModel>
    decreases k,
{
    if k <= 0 {
        Seq::empty()
    } else {
        help_lines_upto(raws, k - 1, w) + raw_help_lines(raws[k - 1], w)
    }
}

pub open spec fn drop_trailing_blanks(ls: Seq<HelpLineModel>) -> Seq<HelpLineModel>
    decreases ls.len(),
{
    if ls.len() > 0 && ls.last().kind == HelpKind::Blank {
        drop_trailing_blanks(ls.drop_last())
    } else {
        ls
    }
}

pub open spec fn effective_width(width: nat) -> nat {
    if width < 8 { 8 } else { width }
}

/// The help's screen lines at `width` (at least 8), without trailing blank
/// lines.
pub open spec fn spec_help_lines(markdown: Seq<char>, width: nat) -> Seq<HelpLineModel> {
    let raws = crate::text::spec_lines(markdown);
    drop_trailing_blanks(help_lines_upto(raws, raws.len() as int, effective_width(width)))
}

fn string_of(v: &Vec<char>) -> (r: String)
    ensures
        r@ == v@,
{
    crate::text::string_from_chars(v)
}

fn skip_hashes_chars(v: &Vec<char>) -> (r: Vec<char>)
    ensures
        r@ == skip_hashes(v@),
{
    let mut i: usize = 0;
    assert(v@.subrange(0, v@.len() as int) =~= v@);
    while i < v.len() && v[i] == '#'
        invariant
            i <= v.len(),
            skip_hashes(v@) == skip_hashes(v@.subrange(i as int, v@.len() as int)),
        decreases v.len() - i,
    {
        let ghost cur = v@.subrange(i as int, v@.len() as int);
        assert(cur.subrange(1, cur.len() as int) =~= v@.subrange(i + 1, v@.len() as int));
        i += 1;
    }
    let r = sub_chars(v, i, v.len());
    r
}

/// The screen lines of one Markdown line, appended to `out`.
fn push_raw_lines(out: &mut Vec<HelpLine>, raw: &Vec<char>, w: usize)
    ensures
        lines_view(final(out)@) == lines_view(old(out)@) + raw_help_lines(raw@, w as nat),
{
    let ghost start = lines_view(out@);
    let trimmed = trim_chars(raw);
    if trimmed.len() == 0 {
        out.push(HelpLine { text: String::new(), kind: HelpKind::Blank, anchor: None, target: None });
        assert(lines_view(out@) =~= start + seq![blank_line()]);
        return;
    }
    if trimmed[0] == '#' {
        let after = sub_chars(&trimmed, 1, trimmed.len());
        let heading = trim_chars(&skip_hashes_chars(&after));
        let text = truncate(&heading, w);
        let a = anchor(&heading);
        let line = HelpLine { text: string_of(&text), kind: HelpKind::Heading, anchor: Some(string_of(&a)), target: None };
        out.push(line);
        assert(lines_view(out@) =~= start + raw_help_lines(raw@, w as nat));
        return;
    }
    let (text, target, link_only) = display_link(&trimmed);
    let dash = chars_of("- ");
    let is_item = text.len() >= 2 && text[0] == '-' && text[1] == ' ';
    proof {
        reveal_strlit("- ");
        assert(is_item == (strip_prefix(text@, "- "@) is Some)) by {
            if text@.len() >= 2 {
                if text@[0] == '-' && text@[1] == ' ' {
                    assert(text@.subrange(0, 2) =~= "- "@);
                }
                if text@.subrange(0, 2) == "- "@ {
                    assert(text@.subrange(0, 2)[0] == '-');
                    assert(text@.subrange(0, 2)[1] == ' ');
                }
            }
        }
    }
    let prefix = if link_only { "  " } else if is_item { "- " } else { "" };
    let body = if is_item { sub_chars(&text, 2, text.len()) } else { sub_chars(&text, 0, text.len()) };
    proof {
        reveal_strlit("  ");
        reveal_strlit("");
        assert(prefix@ == body_prefix(text@, link_only));
        assert(body@ == body_of(text@));
    }
    let wrapped = wrap(&body, prefix, w);
    let kind = if target.is_some() { HelpKind::Link } else { HelpKind::Text };
    let ghost want = raw_help_lines(raw@, w as nat);
    let mut i: usize = 0;
    while i < wrapped.len()
        invariant
            i <= wrapped.len(),
            want == raw_help_lines(raw@, w as nat),
            trim(raw@) == trimmed@,
            trimmed@.len() > 0 && trimmed@[0] != '#',
            (text@, match target {
                Some(t) => Some(t@),
                None => None,
            }, link_only) == spec_display_link(trimmed@),
            crate::text::chars_views(wrapped@) == spec_wrap(body_of(text@), body_prefix(text@, link_only), w as nat),
            kind == (if target is Some { HelpKind::Link } else { HelpKind::Text }),
            want.len() == wrapped@.len(),
            lines_view(out@) == start + want.take(i as int),
        decreases wrapped.len() - i,
    {
        let line_target = if i == 0 {
            match &target {
                Some(t) => Some(string_of(t)),
                None => None,
            }
        } else {
            None
        };
        let line = HelpLine { text: string_of(&wrapped[i]), kind, anchor: None, target: line_target };
        assert(line@ == want[i as int]);
        let ghost before = lines_view(out@);
        out.push(line);
        assert(lines_view(out@) =~= before.push(line@));
        assert(want.take(i + 1) =~= want.take(i as int).push(want[i as int]));
        i += 1;
    }
    assert(want.take(wrapped.len() as int) =~= want);
}

/// The help's screen lines at `width` (at least 8): headings with their
/// anchors, links shown with their label, text wrapped to the width.
pub fn lines(markdown: &str, width: usize) -> (r: Vec<HelpLine>)
    ensures
        lines_view(r@) == spec_help_lines(markdown@, width as nat),
{
    let w = if width < 8 { 8 } else { width };
    let v = chars_of(markdown);
    let raws = crate::text::lines_of(&v);
    let ghost rv = crate::text::chars_views(raws@);
    let mut out: Vec<HelpLine> = Vec::new();
    assert(lines_view(out@) =~= Seq::<HelpLineModel>::empty());
    let mut k: usize = 0;
    while k < raws.len()
        invariant
            k <= raws.len(),
            w == effective_width(width as nat),
            rv == crate::text::chars_views(raws@),
            rv == crate::text::spec_lines(markdown@),
            lines_view(out@) == help_lines_upto(rv, k as int, w as nat),
        decreases raws.len() - k,
    {
        assert(rv[k as int] == raws@[k as int]@);
        push_raw_lines(&mut out, &raws[k], w);
        k += 1;
    }
    while out.len() > 0 && out[out.len() - 1].kind == HelpKind::Blank
        invariant
            drop_trailing_blanks(lines_view(out@)) == spec_help_lines(markdown@, width as nat),
        decreases out.len(),
    {
        let ghost before = lines_view(out@);
        out.pop();
        assert(lines_view(out@) =~= before.drop_last());
    }
    out
}

/// The position of the line whose anchor is `target`.
pub fn target_index(lines: &[HelpLine], target: &str) -> (r: Option<usize>)
    ensures
        match r {
            Some(i) => i < lines@.len() && lines@[i as int]@.anchor == Some(target@) && forall|j: int| 0 <= j < i ==> (#[trigger] lines@[j])@.anchor != Some(target@),
            None => forall|j: int| 0 <= j < lines@.len() ==> (#[trigger] lines@[j])@.anchor != Some(target@),
        },
{
    let wanted = chars_of(target);
    let mut i: usize = 0;
    while i < lines.len()
        invariant
            i <= lines@.len(),
            wanted@ == target@,
            forall|j: int| 0 <= j < i ==> (#[trigger] lines@[j])@.anchor != Some(target@),
        decreases lines.len() - i,
    {
        match &lines[i].anchor {
            Some(a) => {
                let ac = chars_of(a.as_str());
                if crate::text::chars_eq(&ac, &wanted) {
                    return Some(i);
                }
            },
            None => {},
        }
        i += 1;
    }
    None
}

} // verus!

verus! {

/// Whether the words of a Markdown line's wrapped body each fit beside its
/// prefix at width `w` (blank lines and headings have none).
pub open spec fn body_words_fit(raw: Seq<char>, w: nat) -> bool {
    let t = trim(raw);
    t.len() == 0 || t[0] == '#' || {
        let (text, _, link_only) = spec_display_link(t);
        let words = words_from(body_of(text), 0);
        forall|i: int| 0 <= i < words.len() ==> (#[trigger] words[i]).len() + body_prefix(text, link_only).len() <= w
    }
}

pub open spec fn help_words_fit(markdown: Seq<char>, width: nat) -> bool {
    let raws = crate::text::spec_lines(markdown);
    forall|k: int| 0 <= k < raws.len() ==> body_words_fit(#[trigger] raws[k], effective_width(width))
}

proof fn lemma_raw_lines_fit(raw: Seq<char>, w: nat)
    requires
        w >= 8,
        body_words_fit(raw, w),
    ensures
        forall|i: int| 0 <= i < raw_help_lines(raw, w).len() ==> (#[trigger] raw_help_lines(raw, w)[i]).text.len() <= w,
{
    reveal_strlit("  ");
    reveal_strlit("- ");
    let t = trim(raw);
    if t.len() != 0 && t[0] != '#' {
        let (text, target, link_only) = spec_display_link(t);
        let prefix = body_prefix(text, link_only);
        assert(prefix.len() <= 2);
        lemma_wrap_fits(body_of(text), prefix, w);
    }
}

proof fn lemma_upto_fit(raws: Seq<Seq<char>>, k: int, w: nat)
    requires
        0 <= k <= raws.len(),
        w >= 8,
        forall|j: int| 0 <= j < raws.len() ==> body_words_fit(#[trigger] raws[j], w),
    ensures
        forall|i: int| 0 <= i < help_lines_upto(raws, k, w).len() ==> (#[trigger] help_lines_upto(raws, k, w)[i]).text.len() <= w,
    decreases k,
{
    if k > 0 {
        lemma_upto_fit(raws, k - 1, w);
        lemma_raw_lines_fit(raws[k - 1], w);
        let a = help_lines_upto(raws, k - 1, w);
        let b = raw_help_lines(raws[k - 1], w);
        assert forall|i: int| 0 <= i < (a + b).len() implies (#[trigger] (a + b)[i]).text.len() <= w by {
            if i < a.len() {
                assert((a + b)[i] == a[i]);
            } else {
                assert((a + b)[i] == b[i - a.len()]);
            }
        }
    }
}

proof fn lemma_drop_blanks_fit(ls: Seq<HelpLineModel>, w: nat)
    requires
        forall|i: int| 0 <= i < ls.len() ==> (#[trigger] ls[i]).text.len() <= w,
    ensures
        forall|i: int| 0 <= i < drop_trailing_blanks(ls).len() ==> (#[trigger] drop_trailing_blanks(ls)[i]).text.len() <= w,
    decreases ls.len(),
{
    if ls.len() > 0 && ls.last().kind == HelpKind::Blank {
        assert forall|i: int| 0 <= i < ls.drop_last().len() implies (#[trigger] ls.drop_last()[i]).text.len() <= w by {
            assert(ls.drop_last()[i] == ls[i]);
        }
        lemma_drop_blanks_fit(ls.drop_last(), w);
    }
}

/// Every help line fits the width (at least 8) whenever each word of the
/// text fits beside its line's prefix; headings are cut to the width.
pub proof fn lemma_help_lines_fit(markdown: Seq<char>, width: nat)
    requires
        help_words_fit(markdown, width),
    ensures
        forall|i: int| 0 <= i < spec_help_lines(markdown, width).len() ==> (#[trigger] spec_help_lines(markdown, width)[i]).text.len()
            <= effective_width(width),
{
    let raws = crate::text::spec_lines(markdown);
    let w = effective_width(width);
    lemma_upto_fit(raws, raws.len() as int, w);
    lemma_drop_blanks_fit(help_lines_upto(raws, raws.len() as int, w), w);
}

} // verus!

verus! {

// ---------------------------------------------------------------------------
// The HTML page
// ---------------------------------------------------------------------------

pub open spec fn escape_char(c: char) -> Seq<char> {
    if c == '&' {
        "&amp;"@
    } else if c == '<' {
        "&lt;"@
    } else if c == '>' {
        "&gt;"@
    } else if c == '"' {
        "&quot;"@
    } else if c == '\'' {
        "&#39;"@
    } else {
        seq![c]
    }
}

/// `s` with the HTML special characters escaped.
pub open spec fn spec_escape(s: Seq<char>) -> Seq<char>
    decreases s.len(),
{
    if s.len() == 0 {
        Seq::empty()
    } else {
        spec_escape(s.drop_last()) + escape_char(s.last())
    }
}

/// The text an HTML fragment stands for: the character references
/// `&amp;`, `&lt;`, `&gt;`, `&quot;` and `&#39;` decoded, left to right,
/// and every other character kept.
pub open spec fn html_unescape(t: Seq<char>) -> Seq<char>
    decreases t.len(),
{
    if t.len() == 0 {
        Seq::empty()
    } else if t.len() >= 5 && t.subrange(0, 5) == seq!['&', 'a', 'm', 'p', ';'] {
        seq!['&'] + html_unescape(t.subrange(5, t.len() as int))
    } else if t.len() >= 4 && t.subrange(0, 4) == seq!['&', 'l', 't', ';'] {
        seq!['<'] + html_unescape(t.subrange(4, t.len() as int))
    } else if t.len() >= 4 && t.subrange(0, 4) == seq!['&', 'g', 't', ';'] {
        seq!['>'] + html_unescape(t.subrange(4, t.len() as int))
    } else if t.len() >= 6 && t.subrange(0, 6) == seq!['&', 'q', 'u', 'o', 't', ';'] {
        seq!['"'] + html_unescape(t.subrange(6, t.len() as int))
    } else if t.len() >= 5 && t.subrange(0, 5) == seq!['&', '#', '3', '9', ';'] {
        seq!['\''] + html_unescape(t.subrange(5, t.len() as int))
    } else {
        seq![t[0]] + html_unescape(t.subrange(1, t.len() as int))
    }
}

#[verifier::rlimit(60)]
#[verifier::spinoff_prover]
proof fn lemma_unescape_char(c: char, t: Seq<char>)
    ensures
        html_unescape(escape_char(c) + t) == seq![c] + html_unescape(t),
{
    reveal_strlit("&amp;");
    reveal_strlit("&lt;");
    reveal_strlit("&gt;");
    reveal_strlit("&quot;");
    reveal_strlit("&#39;");
    let e = escape_char(c);
    let u = e + t;
    if c == '&' {
        assert(u.subrange(0, 5) =~= seq!['&', 'a', 'm', 'p', ';']);
        assert(u.subrange(5, u.len() as int) =~= t);
    } else if c == '<' {
        if u.len() >= 5 {
            assert(u.subrange(0, 5)[1] != seq!['&', 'a', 'm', 'p', ';'][1]);
        }
        assert(u.subrange(0, 4) =~= seq!['&', 'l', 't', ';']);
        assert(u.subrange(4, u.len() as int) =~= t);
    } else if c == '>' {
        if u.len() >= 5 {
            assert(u.subrange(0, 5)[1] != seq!['&', 'a', 'm', 'p', ';'][1]);
        }
        if u.len() >= 4 {
            assert(u.subrange(0, 4)[1] != seq!['&', 'l', 't', ';'][1]);
        }
        assert(u.subrange(0, 4) =~= seq!['&', 'g', 't', ';']);
        assert(u.subrange(4, u.len() as int) =~= t);
    } else if c == '"' {
        if u.len() >= 5 {
            assert(u.subrange(0, 5)[1] != seq!['&', 'a', 'm', 'p', ';'][1]);
        }
        if u.len() >= 4 {
            assert(u.subrange(0, 4)[1] != seq!['&', 'l', 't', ';'][1]);
        }
        if u.len() >= 4 {
            assert(u.subrange(0, 4)[1] != seq!['&', 'g', 't', ';'][1]);
        }
        assert(u.subrange(0, 6) =~= seq!['&', 'q', 'u', 'o', 't', ';']);
        assert(u.subrange(6, u.len() as int) =~= t);
    } else if c == '\'' {
        if u.len() >= 5 {
            assert(u.subrange(0, 5)[1] != seq!['&', 'a', 'm', 'p', ';'][1]);
        }
        if u.len() >= 4 {
            assert(u.subrange(0, 4)[1] != seq!['&', 'l', 't', ';'][1]);
        }
        if u.len() >= 4 {
            assert(u.subrange(0, 4)[1] != seq!['&', 'g', 't', ';'][1]);
        }
        if u.len() >= 6 {
            assert(u.subrange(0, 6)[1] != seq!['&', 'q', 'u', 'o', 't', ';'][1]);
        }
        assert(u.subrange(0, 5) =~= seq!['&', '#', '3', '9', ';']);
        assert(u.subrange(5, u.len() as int) =~= t);
    } else {
        assert(u[0] == c);
        if u.len() >= 4 {
            assert(u.subrange(0, 4)[0] != '&');
        }
        if u.len() >= 5 {
            assert(u.subrange(0, 5)[0] != '&');
        }
        if u.len() >= 6 {
            assert(u.subrange(0, 6)[0] != '&');
        }
        assert(u.subrange(1, u.len() as int) =~= t);
    }
}

proof fn lemma_escape_front(s: Seq<char>)
    requires
        s.len() > 0,
    ensures
        spec_escape(s) == escape_char(s[0]) + spec_escape(s.subrange(1, s.len() as int)),
    decreases s.len(),
{
    if s.len() == 1 {
        assert(s.drop_last() =~= Seq::<char>::empty());
        assert(s.subrange(1, 1) =~= Seq::<char>::empty());
        assert(spec_escape(Seq::<char>::empty()) == Seq::<char>::empty());
        assert(escape_char(s[0]) + Seq::<char>::empty() =~= escape_char(s[0]));
        assert(Seq::<char>::empty() + escape_char(s[0]) =~= escape_char(s[0]));
    } else {
        let d = s.drop_last();
        lemma_escape_front(d);
        let rest = s.subrange(1, s.len() as int);
        assert(rest.drop_last() =~= d.subrange(1, d.len() as int));
        assert(rest.last() == s.last());
        assert(spec_escape(rest) == spec_escape(rest.drop_last()) + escape_char(rest.last()));
        assert(escape_char(s[0]) + spec_escape(d.subrange(1, d.len() as int)) + escape_char(s.last())
            =~= escape_char(s[0]) + (spec_escape(d.subrange(1, d.len() as int)) + escape_char(s.last())));
    }
}

/// Escaping keeps the text: decoding the character references of the
/// escaped text gives back exactly the raw text, so each special character
/// becomes a reference to that same character.
pub proof fn lemma_escape_round_trip(s: Seq<char>)
    ensures
        html_unescape(spec_escape(s)) == s,
    decreases s.len(),
{
    if s.len() > 0 {
        let rest = s.subrange(1, s.len() as int);
        lemma_escape_front(s);
        lemma_escape_round_trip(rest);
        lemma_unescape_char(s[0], spec_escape(rest));
        assert(seq![s[0]] + rest =~= s);
    }
}

pub fn escape_html(raw: &Vec<char>, out: &mut String)
    ensures
        final(out)@ == old(out)@ + spec_escape(raw@),
{
    let ghost start = out@;
    let mut i: usize = 0;
    while i < raw.len()
        invariant
            i <= raw.len(),
            out@ == start + spec_escape(raw@.take(i as int)),
        decreases raw.len() - i,
    {
        let c = raw[i];
        assert(raw@.take(i + 1).drop_last() =~= raw@.take(i as int));
        if c == '&' {
            push_str(out, "&amp;");
        } else if c == '<' {
            push_str(out, "&lt;");
        } else if c == '>' {
            push_str(out, "&gt;");
        } else if c == '"' {
            push_str(out, "&quot;");
        } else if c == '\'' {
            push_str(out, "&#39;");
        } else {
            push_char(out, c);
            assert(out@ =~= start + spec_escape(raw@.take(i as int)) + seq![c]);
        }
        i += 1;
    }
    assert(raw@.take(raw.len() as int) =~= raw@);
}

/// Markdown links rendered: in-page links as anchors, other links as their
/// label, everything else escaped.
pub open spec fn spec_render(rest: Seq<char>) -> Seq<char>
    decreases rest.len(),
{
    match find(rest, '[') {
        None => spec_escape(rest),
        Some(open) => match find_from(rest, ']', open + 1) {
            None => spec_escape(rest),
            Some(close) => {
                let after_label = rest.subrange(close + 1, rest.len() as int);
                if !(after_label.len() > 0 && after_label[0] == '(') {
                    spec_escape(rest)
                } else {
                    let after_open = after_label.subrange(1, after_label.len() as int);
                    match find(after_open, ')') {
                        None => spec_escape(rest),
                        Some(end) => {
                            proof {
                                crate::text::lemma_find_from_bounds(rest, '[', 0);
                                crate::text::lemma_find_from_bounds(rest, ']', open + 1);
                                crate::text::lemma_find_from_bounds(after_open, ')', 0);
                            }
                            let label = rest.subrange(open + 1, close);
                            let target = after_open.subrange(0, end);
                            spec_escape(rest.subrange(0, open)) + (if target.len() > 0 && target[0] == '#' {
                                "<a href=\"#"@ + spec_escape(target.subrange(1, target.len() as int)) + "\">"@
                                    + spec_escape(label) + "</a>"@
                            } else {
                                spec_escape(label)
                            }) + spec_render(after_open.subrange(end + 1, after_open.len() as int))
                        },
                    }
                }
            },
        },
    }
}

pub fn render_inline(raw: &Vec<char>, out: &mut String)
    ensures
        final(out)@ == old(out)@ + spec_render(raw@),
{
    let ghost start = out@;
    let mut rest = sub_chars(raw, 0, raw.len());
    assert(rest@ =~= raw@);
    loop
        invariant
            start == old(out)@,
            start + spec_render(raw@) == out@ + spec_render(rest@),
        decreases rest@.len(),
    {
        let open = match find_char(&rest, '[', 0) {
            None => {
                escape_html(&rest, out);
                return;
            },
            Some(i) => i,
        };
        let close = match find_char(&rest, ']', open + 1) {
            None => {
                escape_html(&rest, out);
                return;
            },
            Some(i) => i,
        };
        let after_label = sub_chars(&rest, close + 1, rest.len());
        if !(after_label.len() > 0 && after_label[0] == '(') {
            escape_html(&rest, out);
            return;
        }
        let after_open = sub_chars(&after_label, 1, after_label.len());
        let end = match find_char(&after_open, ')', 0) {
            None => {
                escape_html(&rest, out);
                return;
            },
            Some(i) => i,
        };
        let ghost before = out@;
        let head = sub_chars(&rest, 0, open);
        escape_html(&head, out);
        let label = sub_chars(&rest, open + 1, close);
        let target = sub_chars(&after_open, 0, end);
        if target.len() > 0 && target[0] == '#' {
            push_str(out, "<a href=\"#");
            let t = sub_chars(&target, 1, target.len());
            escape_html(&t, out);
            push_str(out, "\">");
            escape_html(&label, out);
            push_str(out, "</a>");
        } else {
            escape_html(&label, out);
        }
        let next = sub_chars(&after_open, end + 1, after_open.len());
        proof {
            let piece = spec_escape(head@) + (if target@.len() > 0 && target@[0] == '#' {
                "<a href=\"#"@ + spec_escape(target@.subrange(1, target@.len() as int)) + "\">"@ + spec_escape(label@) + "</a>"@
            } else {
                spec_escape(label@)
            });
            assert(out@ =~= before + piece);
            assert(spec_render(rest@) == piece + spec_render(next@));
            assert(before + spec_render(rest@) =~= out@ + spec_render(next@));
        }
        rest = next;
    }
}

/// The number of `#` characters a line starts with.
pub open spec fn leading_hashes(s: Seq<char>) -> nat
    decreases s.len(),
{
    if s.len() > 0 && s[0] == '#' {
        1 + leading_hashes(s.subrange(1, s.len() as int))
    } else {
        0
    }
}

/// The page before the help text.
pub open spec fn page_head() -> Seq<char> {
    "<!doctype html><html lang=\"en\"><head><meta charset=\"utf-8\"><meta name=\"viewport\" content=\"width=device-width, initial-scale=1\"><title>SHR-DAW Help</title><style>body{font-family:system-ui,sans-serif;line-height:1.5;margin:1.5rem auto;max-width:44rem;padding:0 1rem;color:#111;background:#fdfdf9}h1,h2,h3{line-height:1.2}a{color:#075f8f}p{margin:0 0 1rem}.toc{margin:.2rem 0}.toc a{font-weight:600}</style></head><body>"@
}

/// The page so far with the pending paragraph written out.
pub open spec fn flushed(html: Seq<char>, paragraph: Seq<Seq<char>>) -> Seq<char> {
    if paragraph.len() == 0 {
        html
    } else {
        html + "<p>"@ + spec_render(crate::text::join_with(paragraph, " "@)) + "</p>"@
    }
}

/// The page after the first `k` Markdown lines: the HTML written and the
/// paragraph lines still pending.
pub open spec fn html_fold(raws: Seq<Seq<char>>, k: int) -> (Seq<char>, Seq<Seq<char>>)
    decreases k,
{
    if k <= 0 {
        (page_head(), Seq::empty())
    } else {
        let (html, paragraph) = html_fold(raws, k - 1);
        let trimmed = trim(raws[k - 1]);
        if trimmed.len() == 0 {
            (flushed(html, paragraph), Seq::empty())
        } else if trimmed[0] == '#' {
            let level = if leading_hashes(trimmed) < 3 { leading_hashes(trimmed) } else { 3 };
            let heading = heading_text(trimmed);
            (
                flushed(html, paragraph) + "<h"@ + crate::text::decimal(level) + " id=\""@ + spec_anchor(heading) + "\">"@
                    + spec_escape(heading) + "</h"@ + crate::text::decimal(level) + ">"@,
                Seq::empty(),
            )
        } else if spec_display_link(trimmed).2 {
            (flushed(html, paragraph) + "<p class=\"toc\">"@ + spec_render(trimmed) + "</p>"@, Seq::empty())
        } else {
            (html, paragraph.push(trimmed))
        }
    }
}

/// The help as one HTML page: headings with anchors, link-only lines as a
/// table of contents, other lines joined into paragraphs.
pub open spec fn spec_markdown_html(markdown: Seq<char>) -> Seq<char> {
    let raws = crate::text::spec_lines(markdown);
    let (html, paragraph) = html_fold(raws, raws.len() as int);
    flushed(html, paragraph) + "</body></html>"@
}

} // verus!

verus! {

/// Words joined by single spaces.
fn join_spaced(words: &Vec<Vec<char>>) -> (r: Vec<char>)
    ensures
        r@ == crate::text::join_with(crate::text::chars_views(words@), " "@),
{
    let ghost all = crate::text::chars_views(words@);
    let mut out: Vec<char> = Vec::new();
    let mut k: usize = 0;
    while k < words.len()
        invariant
            k <= words.len(),
            all == crate::text::chars_views(words@),
            out@ == crate::text::join_with(all.take(k as int), " "@),
        decreases words.len() - k,
    {
        assert(all.take(k + 1).drop_last() =~= all.take(k as int));
        assert(all[k as int] == words@[k as int]@);
        if k > 0 {
            out.push(' ');
            proof {
                reveal_strlit(" ");
            }
        }
        let ghost mid = out@;
        append(&mut out, &words[k]);
        proof {
            reveal_strlit(" ");
            if k > 0 {
                assert(out@ =~= crate::text::join_with(all.take(k as int), " "@) + " "@ + all[k as int]);
            } else {
                assert(all.take(1).len() == 1);
                assert(out@ =~= all.take(1)[0]);
            }
        }
        k += 1;
    }
    assert(all.take(words.len() as int) =~= all);
    out
}

fn flush_paragraph(html: &mut String, paragraph: &mut Vec<Vec<char>>)
    ensures
        final(html)@ == flushed(old(html)@, crate::text::chars_views(old(paragraph)@)),
        final(paragraph)@.len() == 0,
{
    if paragraph.len() == 0 {
        return;
    }
    push_str(html, "<p>");
    let joined = join_spaced(paragraph);
    render_inline(&joined, html);
    push_str(html, "</p>");
    *paragraph = Vec::new();
}

fn leading_hashes_exec(v: &Vec<char>) -> (r: usize)
    ensures
        r == leading_hashes(v@),
{
    let mut i: usize = 0;
    assert(v@.subrange(0, v@.len() as int) =~= v@);
    while i < v.len() && v[i] == '#'
        invariant
            i <= v.len(),
            leading_hashes(v@) == i + leading_hashes(v@.subrange(i as int, v@.len() as int)),
        decreases v.len() - i,
    {
        let ghost cur = v@.subrange(i as int, v@.len() as int);
        assert(cur.subrange(1, cur.len() as int) =~= v@.subrange(i + 1, v@.len() as int));
        i += 1;
    }
    i
}

/// The help as one HTML page (see `spec_markdown_html`).
pub fn markdown_html(markdown: &str) -> (r: String)
    ensures
        r@ == spec_markdown_html(markdown@),
{
    let mut html = owned("<!doctype html><html lang=\"en\"><head><meta charset=\"utf-8\"><meta name=\"viewport\" content=\"width=device-width, initial-scale=1\"><title>SHR-DAW Help</title><style>body{font-family:system-ui,sans-serif;line-height:1.5;margin:1.5rem auto;max-width:44rem;padding:0 1rem;color:#111;background:#fdfdf9}h1,h2,h3{line-height:1.2}a{color:#075f8f}p{margin:0 0 1rem}.toc{margin:.2rem 0}.toc a{font-weight:600}</style></head><body>");
    let mut paragraph: Vec<Vec<char>> = Vec::new();
    let v = chars_of(markdown);
    let raws = crate::text::lines_of(&v);
    let ghost rv = crate::text::chars_views(raws@);
    assert(crate::text::chars_views(paragraph@) =~= Seq::<Seq<char>>::empty());
    let mut k: usize = 0;
    while k < raws.len()
        invariant
            k <= raws.len(),
            rv == crate::text::chars_views(raws@),
            rv == crate::text::spec_lines(markdown@),
            (html@, crate::text::chars_views(paragraph@)) == html_fold(rv, k as int),
        decreases raws.len() - k,
    {
        assert(rv[k as int] == raws@[k as int]@);
        let trimmed = trim_chars(&raws[k]);
        if trimmed.len() == 0 {
            flush_paragraph(&mut html, &mut paragraph);
            assert(crate::text::chars_views(paragraph@) =~= Seq::<Seq<char>>::empty());
        } else if trimmed[0] == '#' {
            flush_paragraph(&mut html, &mut paragraph);
            assert(crate::text::chars_views(paragraph@) =~= Seq::<Seq<char>>::empty());
            let hashes = leading_hashes_exec(&trimmed);
            let level: u64 = if hashes < 3 { hashes as u64 } else { 3 };
            let after = sub_chars(&trimmed, 1, trimmed.len());
            let heading = trim_chars(&skip_hashes_chars(&after));
            push_str(&mut html, "<h");
            crate::text::push_decimal(&mut html, level);
            push_str(&mut html, " id=\"");
            let a = anchor(&heading);
            let a_text = string_of(&a);
            push_str(&mut html, a_text.as_str());
            push_str(&mut html, "\">");
            escape_html(&heading, &mut html);
            push_str(&mut html, "</h");
            crate::text::push_decimal(&mut html, level);
            push_str(&mut html, ">");
        } else {
            let (_, _, link_only) = display_link(&trimmed);
            if link_only {
                flush_paragraph(&mut html, &mut paragraph);
                assert(crate::text::chars_views(paragraph@) =~= Seq::<Seq<char>>::empty());
                push_str(&mut html, "<p class=\"toc\">");
                render_inline(&trimmed, &mut html);
                push_str(&mut html, "</p>");
            } else {
                let ghost before = crate::text::chars_views(paragraph@);
                let ghost t = trimmed@;
                paragraph.push(trimmed);
                assert(crate::text::chars_views(paragraph@) =~= before.push(t));
            }
        }
        k += 1;
    }
    flush_paragraph(&mut html, &mut paragraph);
    push_str(&mut html, "</body></html>");
    html
}

} // verus!

verus! {

// ---------------------------------------------------------------------------
// Serving the page
// ---------------------------------------------------------------------------

/// Why the web help could not start.
#[derive(Clone, Copy, Debug, PartialEq, Eq, Structural)]
pub enum WebHelpUnavailable {
    NoLanIp,
    PortUnavailable,
}

impl WebHelpUnavailable {
    pub fn label(&self) -> (r: &'static str)
        ensures
            r@ == "web help unavailable"@,
    {
        "web help unavailable"
    }
}

/// Whether an IPv4 address can be offered on the local network: not the
/// unspecified, loopback, multicast, broadcast, documentation or link-local
/// address ranges.
pub open spec fn spec_usable_lan_ipv4(o: [u8; 4]) -> bool {
    &&& !(o[0] == 0 && o[1] == 0 && o[2] == 0 && o[3] == 0)
    &&& o[0] != 127
    &&& !(224 <= o[0] <= 239)
    &&& !(o[0] == 255 && o[1] == 255 && o[2] == 255 && o[3] == 255)
    &&& !(o[0] == 192 && o[1] == 0 && o[2] == 2)
    &&& !(o[0] == 198 && o[1] == 51 && o[2] == 100)
    &&& !(o[0] == 203 && o[1] == 0 && o[2] == 113)
    &&& !(o[0] == 169 && o[1] == 254)
}

pub fn usable_lan_ipv4(octets: [u8; 4]) -> (r: bool)
    ensures
        r == spec_usable_lan_ipv4(octets),
{
    let a = octets[0];
    let b = octets[1];
    let c = octets[2];
    let d = octets[3];
    !(a == 0 && b == 0 && c == 0 && d == 0) && a != 127 && !(224 <= a && a <= 239) && !(a == 255 && b == 255
        && c == 255 && d == 255) && !(a == 192 && b == 0 && c == 2) && !(a == 198 && b == 51 && c == 100)
        && !(a == 203 && b == 0 && c == 113) && !(a == 169 && b == 254)
}

/// The text of `bytes` when they are valid UTF-8 (std's `str::from_utf8`):
/// `Some` exactly for valid UTF-8, holding the characters the bytes encode.
#[verifier::external_body]
fn text_from_utf8(bytes: &[u8]) -> (r: Option<String>)
    ensures
        r is Some <==> vstd::utf8::valid_utf8(bytes@),
        r matches Some(s) ==> s@ == vstd::utf8::decode_utf8(bytes@),
{
    match std::str::from_utf8(bytes) {
        Ok(text) => Some(text.to_owned()),
        Err(_) => None,
    }
}

/// The first line of a request, empty when there is none or the request
/// is not UTF-8.
pub open spec fn request_first_line(request: Seq<u8>) -> Seq<char> {
    if vstd::utf8::valid_utf8(request) && crate::text::spec_lines(vstd::utf8::decode_utf8(request)).len() > 0 {
        crate::text::spec_lines(vstd::utf8::decode_utf8(request))[0]
    } else {
        Seq::empty()
    }
}

/// Whether a request's first line asks to `GET /help`.
pub open spec fn asks_for_help(request: Seq<u8>) -> bool {
    let words = words_from(request_first_line(request), 0);
    words.len() > 0 && words[0] == "GET"@ && words.len() > 1 && words[1] == "/help"@
}

/// The HTTP response to a request: the help page for `GET /help`, a 404
/// otherwise, with the body's length in bytes.
pub open spec fn spec_help_response(request: Seq<u8>, html: Seq<char>) -> Seq<char> {
    let (status, content_type, body) = if asks_for_help(request) {
        ("200 OK"@, "text/html; charset=utf-8"@, html)
    } else {
        ("404 Not Found"@, "text/plain; charset=utf-8"@, "not found\n"@)
    };
    "HTTP/1.1 "@ + status + "\r\nContent-Type: "@ + content_type + "\r\nContent-Length: "@ + crate::text::decimal(
        (vstd::utf8::encode_utf8(body).len() as usize) as nat,
    ) + "\r\nConnection: close\r\nX-Content-Type-Options: nosniff\r\n\r\n"@ + body
}

pub fn help_response(request: &[u8], html: &str) -> (r: String)
    ensures
        r@ == spec_help_response(request@, html@),
{
    let first: Vec<char> = match text_from_utf8(request) {
        Some(text) => {
            let v = chars_of(text.as_str());
            let ls = crate::text::lines_of(&v);
            if ls.len() > 0 {
                assert(crate::text::chars_views(ls@)[0] == ls@[0]@);
                sub_chars(&ls[0], 0, ls[0].len())
            } else {
                Vec::new()
            }
        },
        None => Vec::new(),
    };
    proof {
        if first@.len() == 0 {
            assert(first@ =~= request_first_line(request@)) by {
                if vstd::utf8::valid_utf8(request@) && crate::text::spec_lines(vstd::utf8::decode_utf8(request@)).len() > 0 {
                    assert(first@ =~= crate::text::spec_lines(vstd::utf8::decode_utf8(request@))[0]);
                }
            }
        } else {
            assert(first@ =~= request_first_line(request@));
        }
    }
    let words = words_of(&first);
    let ghost ws = crate::text::chars_views(words@);
    let get = chars_of("GET");
    let help = chars_of("/help");
    let asks = words.len() > 1 && crate::text::chars_eq(&words[0], &get) && crate::text::chars_eq(&words[1], &help);
    proof {
        if words.len() > 1 {
            assert(ws[0] == words@[0]@ && ws[1] == words@[1]@);
        }
        assert(asks == asks_for_help(request@));
    }
    let (status, content_type, body) = if asks {
        ("200 OK", "text/html; charset=utf-8", html)
    } else {
        ("404 Not Found", "text/plain; charset=utf-8", "not found\n")
    };
    let mut out = owned("HTTP/1.1 ");
    push_str(&mut out, status);
    push_str(&mut out, "\r\nContent-Type: ");
    push_str(&mut out, content_type);
    push_str(&mut out, "\r\nContent-Length: ");
    crate::text::push_decimal(&mut out, body.len() as u64);
    push_str(&mut out, "\r\nConnection: close\r\nX-Content-Type-Options: nosniff\r\n\r\n");
    push_str(&mut out, body);
    out
}

} // verus!

