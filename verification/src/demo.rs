//! The checks a cleared demo passes: its Standard MIDI file, and the
//! manifest entry that names, describes and vouches for it.
use vstd::prelude::*;
use crate::text::{chars_of, contains_chars, contains_seq, is_ws, is_ws_exec, owned, push_str, starts_at, views};
use vstd::utf8::encode_utf8;

verus! {

/// `MThd`
pub open spec fn mthd_tag() -> Seq<u8> {
    seq![77u8, 84, 104, 100]
}

/// `MTrk`
pub open spec fn mtrk_tag() -> Seq<u8> {
    seq![77u8, 84, 114, 107]
}

/// The big-endian number of the two bytes at `at`.
pub open spec fn be16(d: Seq<u8>, at: int) -> nat {
    (256 * d[at] + d[at + 1]) as nat
}

/// The big-endian number of the four bytes at `at`.
pub open spec fn be32(d: Seq<u8>, at: int) -> nat {
    (16777216 * d[at] + 65536 * d[at + 1] + 256 * d[at + 2] + d[at + 3]) as nat
}

/// The track chunks of `d` from `offset` on: how many there are, or what
/// is wrong with the first bad one. Each is `MTrk`, a 32-bit length and a
/// body of that length ending in the end-of-track event.
pub open spec fn track_walk(d: Seq<u8>, offset: int) -> Result<nat, Seq<char>>
    decreases d.len() - offset,
{
    if offset < 0 || offset >= d.len() {
        Ok(0)
    } else if offset + 4 > d.len() || d.subrange(offset, offset + 4) != mtrk_tag() {
        Err("invalid MIDI track chunk"@)
    } else if offset + 8 > d.len() {
        Err("truncated MIDI track length"@)
    } else {
        let end = offset + 8 + be32(d, offset + 4);
        if end > usize::MAX {
            Err("MIDI track length overflow"@)
        } else if end > d.len() {
            Err("truncated MIDI track"@)
        } else if !(end - offset - 8 >= 3 && d[end - 3] == 0xFF && d[end - 2] == 0x2F && d[end - 1] == 0) {
            Err("MIDI track lacks an end marker"@)
        } else {
            match track_walk(d, end) {
                Ok(n) => Ok(n + 1),
                Err(e) => Err(e),
            }
        }
    }
}

/// What is wrong with `d` as a demo's MIDI file with `tracks` declared
/// parts: a format-1 file with a conductor track and one track per part.
pub open spec fn spec_midi_error(d: Seq<u8>, tracks: nat) -> Option<Seq<char>> {
    if d.len() < 14 || d.subrange(0, 4) != mthd_tag() || be32(d, 4) != 6 {
        Some("invalid Standard MIDI header"@)
    } else if be16(d, 8) != 1 || be16(d, 10) != tracks + 1 || be16(d, 12) == 0 {
        Some("demo MIDI must be format 1 with conductor plus declared parts"@)
    } else {
        match track_walk(d, 14) {
            Err(e) => Some(e),
            Ok(n) => if n != tracks + 1 {
                Some("MIDI chunk count does not match its header"@)
            } else {
                None
            },
        }
    }
}

/// A check's outcome as the error text it gives, if any.
pub open spec fn error_of(r: Result<(), String>) -> Option<Seq<char>> {
    match r {
        Ok(()) => None,
        Err(e) => Some(e@),
    }
}

fn be16_at(d: &[u8], at: usize) -> (r: u64)
    requires
        at + 2 <= d@.len(),
    ensures
        r as nat == be16(d@, at as int),
{
    256 * (d[at] as u64) + d[at + 1] as u64
}

fn be32_at(d: &[u8], at: usize) -> (r: u64)
    requires
        at + 4 <= d@.len(),
    ensures
        r as nat == be32(d@, at as int),
{
    16777216 * (d[at] as u64) + 65536 * (d[at + 1] as u64) + 256 * (d[at + 2] as u64) + d[at + 3] as u64
}

fn tag_at(d: &[u8], at: usize, tag: &Vec<u8>) -> (r: bool)
    requires
        at + tag@.len() <= d@.len(),
    ensures
        r == (d@.subrange(at as int, at + tag@.len()) == tag@),
{
    let n = d.len();
    let mut i: usize = 0;
    while i < tag.len()
        invariant
            i <= tag.len(),
            n == d@.len(),
            at + tag@.len() <= d@.len(),
            forall|k: int| 0 <= k < i ==> d@[at + k] == tag@[k],
        decreases tag.len() - i,
    {
        if d[at + i] != tag[i] {
            assert(d@.subrange(at as int, at + tag@.len())[i as int] != tag@[i as int]);
            return false;
        }
        i += 1;
    }
    assert(d@.subrange(at as int, at + tag@.len()) =~= tag@);
    true
}

/// Checks a demo's MIDI file for `expected_tracks` declared parts.
pub fn validate_midi(data: &[u8], expected_tracks: usize) -> (r: Result<(), String>)
    requires
        expected_tracks < usize::MAX,
    ensures
        error_of(r) == spec_midi_error(data@, expected_tracks as nat),
{
    let ghost d = data@;
    let header_tag = vec![77u8, 84, 104, 100];
    let track_tag = vec![77u8, 84, 114, 107];
    assert(header_tag@ =~= mthd_tag());
    assert(track_tag@ =~= mtrk_tag());
    let n = data.len();
    if n < 14 || !tag_at(data, 0, &header_tag) || be32_at(data, 4) != 6 {
        return Err(owned("invalid Standard MIDI header"));
    }
    if be16_at(data, 8) != 1 || be16_at(data, 10) != expected_tracks as u64 + 1 || be16_at(data, 12) == 0 {
        return Err(owned("demo MIDI must be format 1 with conductor plus declared parts"));
    }
    let mut offset: usize = 14;
    let mut chunks: usize = 0;
    while offset < n
        invariant
            d == data@,
            n == d.len(),
            track_tag@ == mtrk_tag(),
            expected_tracks < usize::MAX,
            !(d.len() < 14 || d.subrange(0, 4) != mthd_tag() || be32(d, 4) != 6),
            !(be16(d, 8) != 1 || be16(d, 10) != expected_tracks + 1 || be16(d, 12) == 0),
            14 <= offset,
            chunks <= offset,
            offset <= data@.len(),
            track_walk(d, 14) == match track_walk(d, offset as int) {
                Ok(n) => Ok::<nat, Seq<char>>(n + chunks as nat),
                Err(e) => Err(e),
            },
        decreases data.len() - offset,
    {
        if n - offset < 4 || !tag_at(data, offset, &track_tag) {
            return Err(owned("invalid MIDI track chunk"));
        }
        if n - offset < 8 {
            return Err(owned("truncated MIDI track length"));
        }
        let length = be32_at(data, offset + 4);
        if length > (usize::MAX - 8 - offset) as u64 {
            return Err(owned("MIDI track length overflow"));
        }
        let end: usize = offset + 8 + length as usize;
        if end > data.len() {
            return Err(owned("truncated MIDI track"));
        }
        if !(end - offset - 8 >= 3 && data[end - 3] == 0xFF && data[end - 2] == 0x2F && data[end - 1] == 0) {
            return Err(owned("MIDI track lacks an end marker"));
        }
        chunks = chunks + 1;
        offset = end;
    }
    if chunks != expected_tracks + 1 {
        return Err(owned("MIDI chunk count does not match its header"));
    }
    Ok(())
}

// ---------------------------------------------------------------------------
// The manifest
// ---------------------------------------------------------------------------

/// The SHA-256 digests a demo's files are pinned to.
pub struct Hashes {
    pub midi: String,
    pub project: String,
}

/// One cleared demo as the manifest lists it.
pub struct Demo {
    pub id: String,
    pub title: String,
    pub bpm: u16,
    pub time_signature: String,
    pub key: String,
    pub tracks: Vec<String>,
    pub description: String,
    pub style_ideas: Vec<String>,
    pub public_domain_reasoning: String,
    pub sources: Vec<String>,
    pub midi: String,
    pub project: String,
    pub sha256: Hashes,
}

/// The manifest of the cleared demos.
pub struct Manifest {
    pub schema: u8,
    pub policy: String,
    pub demos: Vec<Demo>,
}

/// A demo entry as mathematical values.
pub struct DemoModel {
    pub id: Seq<char>,
    pub title: Seq<char>,
    pub bpm: u16,
    pub time_signature: Seq<char>,
    pub key: Seq<char>,
    pub tracks: Seq<Seq<char>>,
    pub description: Seq<char>,
    pub style_ideas: Seq<Seq<char>>,
    pub public_domain_reasoning: Seq<char>,
    pub sources: Seq<Seq<char>>,
    pub midi: Seq<char>,
    pub project: Seq<char>,
    pub midi_sha256: Seq<char>,
    pub project_sha256: Seq<char>,
}

impl View for Demo {
    type V = DemoModel;

    open spec fn view(&self) -> DemoModel {
        DemoModel {
            id: self.id@,
            title: self.title@,
            bpm: self.bpm,
            time_signature: self.time_signature@,
            key: self.key@,
            tracks: views(self.tracks@),
            description: self.description@,
            style_ideas: views(self.style_ideas@),
            public_domain_reasoning: self.public_domain_reasoning@,
            sources: views(self.sources@),
            midi: self.midi@,
            project: self.project@,
            midi_sha256: self.sha256.midi@,
            project_sha256: self.sha256.project@,
        }
    }
}

/// A hexadecimal digit.
pub open spec fn is_hex(c: char) -> bool {
    ('0' <= c <= '9') || ('a' <= c <= 'f') || ('A' <= c <= 'F')
}

/// A SHA-256 digest written out: 64 hexadecimal digits.
pub open spec fn spec_is_sha256(v: Seq<char>) -> bool {
    v.len() == 64 && forall|i: int| 0 <= i < v.len() ==> is_hex(#[trigger] v[i])
}

/// Whether `value` is a SHA-256 digest written out.
pub fn is_sha256(value: &str) -> (r: bool)
    ensures
        r == spec_is_sha256(value@),
{
    let v = chars_of(value);
    if v.len() != 64 {
        return false;
    }
    let mut i: usize = 0;
    while i < v.len()
        invariant
            i <= v.len(),
            v@ == value@,
            forall|k: int| 0 <= k < i ==> is_hex(#[trigger] v@[k]),
        decreases v.len() - i,
    {
        let c = v[i];
        if !(('0' <= c && c <= '9') || ('a' <= c && c <= 'f') || ('A' <= c && c <= 'F')) {
            return false;
        }
        i += 1;
    }
    true
}

/// Text with nothing but whitespace in it.
pub open spec fn blank(s: Seq<char>) -> bool {
    forall|i: int| 0 <= i < s.len() ==> is_ws(#[trigger] s[i])
}

fn is_blank(s: &String) -> (r: bool)
    ensures
        r == blank(s@),
{
    let v = chars_of(s.as_str());
    let mut i: usize = 0;
    while i < v.len()
        invariant
            i <= v.len(),
            v@ == s@,
            forall|k: int| 0 <= k < i ==> is_ws(#[trigger] v@[k]),
        decreases v.len() - i,
    {
        if !is_ws_exec(v[i]) {
            return false;
        }
        i += 1;
    }
    true
}

/// A demo id: lowercase letters, digits and single hyphens inside.
pub open spec fn id_char(c: char) -> bool {
    ('a' <= c <= 'z') || ('0' <= c <= '9') || c == '-'
}

pub open spec fn spec_id_ok(id: Seq<char>) -> bool {
    &&& id.len() > 0
    &&& id[0] != '-'
    &&& id.last() != '-'
    &&& !contains_seq(id, "--"@)
    &&& forall|i: int| 0 <= i < id.len() ==> id_char(#[trigger] id[i])
}

fn id_ok(id: &String) -> (r: bool)
    ensures
        r == spec_id_ok(id@),
{
    let v = chars_of(id.as_str());
    if v.len() == 0 || v[0] == '-' || v[v.len() - 1] == '-' {
        return false;
    }
    let double = chars_of("--");
    if contains_chars(&v, &double) {
        return false;
    }
    let mut i: usize = 0;
    while i < v.len()
        invariant
            i <= v.len(),
            v@ == id@,
            forall|k: int| 0 <= k < i ==> id_char(#[trigger] v@[k]),
        decreases v.len() - i,
    {
        let c = v[i];
        if !(('a' <= c && c <= 'z') || ('0' <= c && c <= '9') || c == '-') {
            return false;
        }
        i += 1;
    }
    true
}

fn contains_string(list: &Vec<String>, item: &String) -> (r: bool)
    ensures
        r == views(list@).contains(item@),
{
    let mut i: usize = 0;
    while i < list.len()
        invariant
            i <= list.len(),
            forall|k: int| 0 <= k < i ==> list@[k]@ != item@,
        decreases list.len() - i,
    {
        if list[i] == *item {
            assert(views(list@)[i as int] == item@);
            return true;
        }
        i += 1;
    }
    assert forall|k: int| 0 <= k < views(list@).len() implies views(list@)[k] != item@ by {
        assert(views(list@)[k] == list@[k]@);
    }
    false
}

/// The bytes `c` takes in UTF-8.
fn utf8_width(c: char) -> (r: usize)
    ensures
        r == vstd::utf8::encode_scalar(c as u32).len(),
        1 <= r <= 4,
{
    let v = c as u32;
    if v <= 0x7f {
        1
    } else if v <= 0x7ff {
        2
    } else if v <= 0xffff {
        3
    } else {
        4
    }
}

proof fn lemma_encode_step(s: Seq<char>, i: int)
    requires
        0 <= i < s.len(),
    ensures
        encode_utf8(s.subrange(i, s.len() as int)).len()
            == vstd::utf8::encode_scalar(s[i] as u32).len() + encode_utf8(s.subrange(i + 1, s.len() as int)).len(),
{
    let t = s.subrange(i, s.len() as int);
    assert(t[0] == s[i]);
    assert(t.drop_first() =~= s.subrange(i + 1, s.len() as int));
}

proof fn lemma_encode_longer(s: Seq<char>, j: int, i: int)
    requires
        0 <= j <= i <= s.len(),
    ensures
        encode_utf8(s.subrange(j, s.len() as int)).len() >= encode_utf8(s.subrange(i, s.len() as int)).len(),
    decreases i - j,
{
    if j < i {
        lemma_encode_step(s, j);
        lemma_encode_longer(s, j + 1, i);
    }
}

/// Whether `s` takes fewer than `limit` bytes in UTF-8.
fn utf8_shorter_than(s: &String, limit: usize) -> (r: bool)
    requires
        limit <= 1024,
    ensures
        r == (encode_utf8(s@).len() < limit),
{
    if limit == 0 {
        return false;
    }
    let v = chars_of(s.as_str());
    let n = v.len();
    let mut i: usize = n;
    let mut acc: usize = 0;
    assert(v@.subrange(n as int, n as int) =~= Seq::<char>::empty());
    while i > 0
        invariant
            i <= n,
            n == v@.len(),
            v@ == s@,
            limit <= 1024,
            acc < limit,
            acc == encode_utf8(v@.subrange(i as int, n as int)).len(),
        decreases i,
    {
        let w = utf8_width(v[i - 1]);
        proof {
            lemma_encode_step(v@, i - 1);
        }
        if acc + w >= limit {
            proof {
                lemma_encode_longer(v@, 0, i - 1);
                assert(v@.subrange(0, n as int) =~= v@);
            }
            return false;
        }
        acc = acc + w;
        i = i - 1;
    }
    assert(v@.subrange(0, n as int) =~= v@);
    true
}

/// What is wrong with the manifest as a whole: an unknown schema, a
/// policy that does not say that only the named files are cleared, or no
/// demos at all.
pub open spec fn spec_manifest_error(schema: u8, policy: Seq<char>, count: nat) -> Option<Seq<char>> {
    if schema != 1 || !contains_seq(policy, "Only files named here"@) {
        Some("unknown or non-explicit demo manifest policy"@)
    } else if count == 0 {
        Some("demo manifest is empty"@)
    } else {
        None
    }
}

/// Checks the manifest's schema, policy and that it lists a demo.
pub fn check_manifest(manifest: &Manifest) -> (r: Result<(), String>)
    ensures
        error_of(r) == spec_manifest_error(manifest.schema, manifest.policy@, manifest.demos@.len()),
{
    let policy = chars_of(manifest.policy.as_str());
    let wanted = chars_of("Only files named here");
    if manifest.schema != 1 || !contains_chars(&policy, &wanted) {
        return Err(owned("unknown or non-explicit demo manifest policy"));
    }
    if manifest.demos.len() == 0 {
        return Err(owned("demo manifest is empty"));
    }
    Ok(())
}

pub open spec fn starts_with_seq(s: Seq<char>, prefix: Seq<char>) -> bool {
    s.len() >= prefix.len() && s.subrange(0, prefix.len() as int) == prefix
}

/// The parts every demo plays.
pub open spec fn has_required_parts(tracks: Seq<Seq<char>>) -> bool {
    &&& 4 <= tracks.len() <= 8
    &&& tracks.contains("Drums"@)
    &&& tracks.contains("Bass"@)
    &&& tracks.contains("Pad"@)
    &&& tracks.contains("Lead"@)
}

/// Whether a demo's description and provenance are complete.
pub open spec fn metadata_complete(d: DemoModel) -> bool {
    &&& d.bpm >= 20
    &&& !blank(d.time_signature)
    &&& !blank(d.key)
    &&& !blank(d.description)
    &&& d.style_ideas.len() > 0
    &&& encode_utf8(d.public_domain_reasoning).len() >= 80
    &&& d.sources.len() > 0
    &&& forall|i: int| 0 <= i < d.sources.len() ==> starts_with_seq(#[trigger] d.sources[i], "https://"@)
    &&& spec_is_sha256(d.midi_sha256)
    &&& spec_is_sha256(d.project_sha256)
}

/// What is wrong with a demo entry, after the entries with `earlier` ids.
pub open spec fn spec_demo_error(d: DemoModel, earlier: Seq<Seq<char>>) -> Option<Seq<char>> {
    if earlier.contains(d.id) || !spec_id_ok(d.id) || blank(d.title) {
        Some("duplicate demo id or empty title"@)
    } else if d.midi != d.id + ".mid"@ || d.project != d.id + ".shsong"@ {
        Some("demo paths must be safe and derived from their id"@)
    } else if !has_required_parts(d.tracks) {
        Some("demo lacks the required useful parts"@)
    } else if !metadata_complete(d) {
        Some("demo metadata or provenance is incomplete"@)
    } else {
        None
    }
}

fn derived_name(id: &String, ext: &str) -> (r: String)
    ensures
        r@ == id@ + ext@,
{
    let mut out = id.clone();
    push_str(&mut out, ext);
    out
}

fn has_parts(tracks: &Vec<String>) -> (r: bool)
    ensures
        r == has_required_parts(views(tracks@)),
{
    if tracks.len() < 4 || tracks.len() > 8 {
        return false;
    }
    contains_string(tracks, &owned("Drums")) && contains_string(tracks, &owned("Bass"))
        && contains_string(tracks, &owned("Pad")) && contains_string(tracks, &owned("Lead"))
}

fn all_https(sources: &Vec<String>) -> (r: bool)
    ensures
        r == forall|i: int| 0 <= i < views(sources@).len() ==> starts_with_seq(#[trigger] views(sources@)[i], "https://"@),
{
    let prefix = chars_of("https://");
    let mut i: usize = 0;
    while i < sources.len()
        invariant
            i <= sources.len(),
            prefix@ == "https://"@,
            forall|k: int| 0 <= k < i ==> starts_with_seq(#[trigger] views(sources@)[k], "https://"@),
        decreases sources.len() - i,
    {
        let v = chars_of(sources[i].as_str());
        assert(views(sources@)[i as int] == v@);
        if v.len() < prefix.len() || !starts_at(&v, &prefix, 0) {
            return false;
        }
        i += 1;
    }
    true
}

fn metadata_ok(demo: &Demo) -> (r: bool)
    ensures
        r == metadata_complete(demo@),
{
    demo.bpm >= 20 && !is_blank(&demo.time_signature) && !is_blank(&demo.key) && !is_blank(&demo.description)
        && demo.style_ideas.len() > 0 && !utf8_shorter_than(&demo.public_domain_reasoning, 80)
        && demo.sources.len() > 0 && all_https(&demo.sources) && is_sha256(demo.sha256.midi.as_str())
        && is_sha256(demo.sha256.project.as_str())
}

/// Checks a demo entry listed after the entries with `earlier_ids`: a new,
/// well-formed id and a title; file names derived from the id; four to
/// eight parts among them drums, bass, pad and lead; and complete metadata
/// and provenance.
pub fn check_demo(demo: &Demo, earlier_ids: &Vec<String>) -> (r: Result<(), String>)
    ensures
        error_of(r) == spec_demo_error(demo@, views(earlier_ids@)),
{
    if contains_string(earlier_ids, &demo.id) || !id_ok(&demo.id) || is_blank(&demo.title) {
        return Err(owned("duplicate demo id or empty title"));
    }
    if demo.midi != derived_name(&demo.id, ".mid") || demo.project != derived_name(&demo.id, ".shsong") {
        return Err(owned("demo paths must be safe and derived from their id"));
    }
    if !has_parts(&demo.tracks) {
        return Err(owned("demo lacks the required useful parts"));
    }
    if !metadata_ok(demo) {
        return Err(owned("demo metadata or provenance is incomplete"));
    }
    Ok(())
}

} // verus!
