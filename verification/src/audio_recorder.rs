//! The files a recording leaves: 24-bit stereo WAV headers, the check
//! that a left-over `.part` file is one of ours, and the names recordings
//! are saved under.
use vstd::prelude::*;
use crate::text::{chars_of, decimal, owned, push_decimal, push_str, string_from_chars, sub_chars};

verus! {

/// The largest PCM size a RIFF header can count after its 36 header bytes.
pub const WAV_MAX_DATA_BYTES: u64 = 4_294_967_259;
/// The most 24-bit stereo frames (6 bytes each) that fit in
/// `WAV_MAX_DATA_BYTES`.
pub const WAV_MAX_FRAMES: u64 = WAV_MAX_DATA_BYTES / 6;

/// `x` as two little-endian bytes.
pub open spec fn le16(x: nat) -> Seq<u8> {
    seq![(x % 256) as u8, ((x / 256) % 256) as u8]
}

/// `x` as four little-endian bytes.
pub open spec fn le32(x: nat) -> Seq<u8> {
    seq![(x % 256) as u8, ((x / 256) % 256) as u8, ((x / 65536) % 256) as u8, ((x / 16777216) % 256) as u8]
}

/// The number four little-endian bytes at `at` stand for.
pub open spec fn from_le32(b: Seq<u8>, at: int) -> nat {
    (b[at] + 256 * b[at + 1] + 65536 * b[at + 2] + 16777216 * b[at + 3]) as nat
}

/// `RIFF`
pub open spec fn riff_tag() -> Seq<u8> {
    seq![82u8, 73, 70, 70]
}

/// `WAVE`
pub open spec fn wave_tag() -> Seq<u8> {
    seq![87u8, 65, 86, 69]
}

/// `fmt ` followed by the format chunk's size, 16.
pub open spec fn fmt_chunk_tag() -> Seq<u8> {
    seq![102u8, 109, 116, 32, 16, 0, 0, 0]
}

/// PCM (format 1) with two channels.
pub open spec fn pcm_stereo_tag() -> Seq<u8> {
    seq![1u8, 0, 2, 0]
}

/// Six bytes per frame, 24 bits per sample.
pub open spec fn frame_layout_tag() -> Seq<u8> {
    seq![6u8, 0, 24, 0]
}

/// `data`
pub open spec fn data_tag() -> Seq<u8> {
    seq![100u8, 97, 116, 97]
}

/// The 44-byte header of a 24-bit stereo PCM WAV file with `rate` frames a
/// second and `data` bytes of samples.
pub open spec fn spec_wav_header(rate: nat, data: nat) -> Seq<u8> {
    riff_tag() + le32(36 + data) + wave_tag() + fmt_chunk_tag() + pcm_stereo_tag() + le32(rate)
        + le32(rate * 6) + frame_layout_tag() + data_tag() + le32(data)
}

/// The header, or why the sizes do not fit in it.
pub open spec fn spec_wav_header_result(rate: nat, data: nat) -> Result<Seq<u8>, Seq<char>> {
    if 36 + data > u32::MAX {
        Err("WAV size overflow"@)
    } else if rate * 6 > u32::MAX {
        Err("WAV sample rate overflow"@)
    } else {
        Ok(spec_wav_header(rate, data))
    }
}

/// The header once `frames` frames were written, or why they do not fit.
pub open spec fn spec_finalized_header(rate: nat, frames: nat) -> Result<Seq<u8>, Seq<char>> {
    if frames * 6 > WAV_MAX_DATA_BYTES {
        Err("WAV exceeded 4 GiB PCM limit"@)
    } else {
        spec_wav_header_result(rate, frames * 6)
    }
}

/// A byte result as its bytes, an error as its text.
pub open spec fn bytes_outcome(r: Result<Vec<u8>, String>) -> Result<Seq<u8>, Seq<char>> {
    match r {
        Ok(b) => Ok(b@),
        Err(e) => Err(e@),
    }
}

fn push_le16(out: &mut Vec<u8>, x: u16)
    ensures
        final(out)@ == old(out)@ + le16(x as nat),
{
    out.push((x % 256) as u8);
    out.push(((x / 256) % 256) as u8);
}

fn push_le32(out: &mut Vec<u8>, x: u32)
    ensures
        final(out)@ == old(out)@ + le32(x as nat),
{
    out.push((x % 256) as u8);
    out.push(((x / 256) % 256) as u8);
    out.push(((x / 65536) % 256) as u8);
    out.push(((x / 16777216) % 256) as u8);
}

fn push_bytes(out: &mut Vec<u8>, bytes: Vec<u8>)
    ensures
        final(out)@ == old(out)@ + bytes@,
{
    let mut i: usize = 0;
    let ghost start = out@;
    while i < bytes.len()
        invariant
            i <= bytes.len(),
            out@ == start + bytes@.take(i as int),
        decreases bytes.len() - i,
    {
        out.push(bytes[i]);
        i += 1;
        assert(out@ =~= start + bytes@.take(i as int));
    }
    assert(bytes@.take(i as int) =~= bytes@);
}

/// The header of a 24-bit stereo WAV file with `rate` frames a second and
/// `data` bytes of samples; refused when a size does not fit in 32 bits.
pub fn wav_header(rate: u32, data: u32) -> (r: Result<Vec<u8>, String>)
    ensures
        bytes_outcome(r) == spec_wav_header_result(rate as nat, data as nat),
{
    if data > u32::MAX - 36 {
        return Err(owned("WAV size overflow"));
    }
    if rate > u32::MAX / 6 {
        return Err(owned("WAV sample rate overflow"));
    }
    let riff_size: u32 = 36 + data;
    let byte_rate: u32 = rate * 6;
    let mut out: Vec<u8> = Vec::new();
    push_bytes(&mut out, vec![82u8, 73, 70, 70]);
    push_le32(&mut out, riff_size);
    push_bytes(&mut out, vec![87u8, 65, 86, 69]);
    push_bytes(&mut out, vec![102u8, 109, 116, 32]);
    push_le32(&mut out, 16);
    push_le16(&mut out, 1);
    push_le16(&mut out, 2);
    push_le32(&mut out, rate);
    push_le32(&mut out, byte_rate);
    push_le16(&mut out, 6);
    push_le16(&mut out, 24);
    push_bytes(&mut out, vec![100u8, 97, 116, 97]);
    push_le32(&mut out, data);
    proof {
        assert(le32(16) =~= seq![16u8, 0, 0, 0]);
        assert(le16(1) =~= seq![1u8, 0]);
        assert(le16(2) =~= seq![2u8, 0]);
        assert(le16(6) =~= seq![6u8, 0]);
        assert(le16(24) =~= seq![24u8, 0]);
        assert(out@ =~= spec_wav_header(rate as nat, data as nat));
    }
    Ok(out)
}

/// The header to write over a recording once `frames` frames were written:
/// refused when they do not fit in a RIFF file.
pub fn finalized_wav_header(rate: u32, frames: u64) -> (r: Result<Vec<u8>, String>)
    ensures
        bytes_outcome(r) == spec_finalized_header(rate as nat, frames as nat),
{
    if frames > WAV_MAX_DATA_BYTES / 6 {
        return Err(owned("WAV exceeded 4 GiB PCM limit"));
    }
    let data: u64 = frames * 6;
    wav_header(rate, data as u32)
}

/// The sample rate a header names, when it is a rate recordings use
/// (8 kHz to 384 kHz) and the byte rate agrees with it.
pub open spec fn spec_wav_rate(h: Seq<u8>) -> Option<u32> {
    let rate = from_le32(h, 24);
    if 8000 <= rate <= 384000 && rate * 6 == from_le32(h, 28) {
        Some(rate as u32)
    } else {
        None
    }
}

fn le32_at(header: &[u8; 44], at: usize) -> (r: u32)
    requires
        at + 4 <= 44,
    ensures
        r as nat == from_le32(header@, at as int),
{
    let b0 = header[at] as u32;
    let b1 = header[at + 1] as u32;
    let b2 = header[at + 2] as u32;
    let b3 = header[at + 3] as u32;
    b0 + 256 * b1 + 65536 * b2 + 16777216 * b3
}

/// The sample rate of a WAV header, when it is one recordings use and the
/// byte rate agrees with it.
pub fn read_wav_rate_bytes(header: &[u8; 44]) -> (r: Option<u32>)
    ensures
        r == spec_wav_rate(header@),
{
    let rate = le32_at(header, 24);
    let byte_rate = le32_at(header, 28);
    if 8000 <= rate && rate <= 384000 && rate * 6 == byte_rate {
        Some(rate)
    } else {
        None
    }
}

/// Whether `h` is the header a recording starts with: the fixed tags of a
/// 24-bit stereo PCM file and a rate recordings use.
pub open spec fn spec_wav_part_header(h: Seq<u8>) -> bool {
    &&& h.subrange(0, 4) == riff_tag()
    &&& h.subrange(8, 12) == wave_tag()
    &&& h.subrange(12, 20) == fmt_chunk_tag()
    &&& h.subrange(20, 24) == pcm_stereo_tag()
    &&& h.subrange(32, 36) == frame_layout_tag()
    &&& h.subrange(36, 40) == data_tag()
    &&& spec_wav_rate(h) is Some
}

fn bytes_at(header: &[u8; 44], at: usize, expected: Vec<u8>) -> (r: bool)
    requires
        at + expected@.len() <= 44,
    ensures
        r == (header@.subrange(at as int, at + expected@.len()) == expected@),
{
    let mut i: usize = 0;
    while i < expected.len()
        invariant
            i <= expected.len(),
            at + expected@.len() <= 44,
            forall|k: int| 0 <= k < i ==> header@[at + k] == expected@[k],
        decreases expected.len() - i,
    {
        if header[at + i] != expected[i] {
            assert(header@.subrange(at as int, at + expected@.len())[i as int] != expected@[i as int]);
            return false;
        }
        i += 1;
    }
    assert(header@.subrange(at as int, at + expected@.len()) =~= expected@);
    true
}

/// Whether the first 44 bytes of a left-over `.part` file are the header a
/// recording starts with.
pub fn is_wav_part_header(header: &[u8; 44]) -> (r: bool)
    ensures
        r == spec_wav_part_header(header@),
{
    bytes_at(header, 0, vec![82u8, 73, 70, 70])
        && bytes_at(header, 8, vec![87u8, 65, 86, 69])
        && bytes_at(header, 12, vec![102u8, 109, 116, 32, 16, 0, 0, 0])
        && bytes_at(header, 20, vec![1u8, 0, 2, 0])
        && bytes_at(header, 32, vec![6u8, 0, 24, 0])
        && bytes_at(header, 36, vec![100u8, 97, 116, 97])
        && read_wav_rate_bytes(header).is_some()
}

/// The whole frames a left-over recording of `len` bytes holds after its
/// header, at most `WAV_MAX_FRAMES`.
pub fn recovered_frames(len: u64) -> (r: u64)
    requires
        len >= 44,
    ensures
        r == if (len - 44) / 6 < WAV_MAX_FRAMES { (len - 44) / 6 } else { WAV_MAX_FRAMES as int },
        44 + r * 6 <= len,
{
    let frames = (len - 44) / 6;
    if frames < WAV_MAX_FRAMES {
        frames
    } else {
        WAV_MAX_FRAMES
    }
}

/// `s` with every trailing `suffix` removed.
pub open spec fn trim_suffixes(s: Seq<char>, suffix: Seq<char>) -> Seq<char>
    decreases s.len(),
{
    if suffix.len() > 0 && s.len() >= suffix.len() && s.subrange(s.len() - suffix.len(), s.len() as int) == suffix {
        trim_suffixes(s.subrange(0, s.len() - suffix.len()), suffix)
    } else {
        s
    }
}

/// The stem a recovered recording is named after: the left-over file's name
/// without its `.wav.part` endings, then `-recovered`.
pub open spec fn spec_recovered_stem(name: Seq<char>) -> Seq<char> {
    trim_suffixes(name, ".wav.part"@) + "-recovered"@
}

fn ends_with_at(v: &Vec<char>, end: usize, suffix: &Vec<char>) -> (r: bool)
    requires
        end <= v@.len(),
    ensures
        r == (end >= suffix@.len() && v@.subrange(end - suffix@.len(), end as int) == suffix@),
{
    if end < suffix.len() {
        return false;
    }
    let start = end - suffix.len();
    let mut i: usize = 0;
    while i < suffix.len()
        invariant
            i <= suffix.len(),
            start + suffix@.len() == end,
            end <= v@.len(),
            forall|k: int| 0 <= k < i ==> v@[start + k] == suffix@[k],
        decreases suffix.len() - i,
    {
        if v[start + i] != suffix[i] {
            assert(v@.subrange(start as int, end as int)[i as int] != suffix@[i as int]);
            return false;
        }
        i += 1;
    }
    assert(v@.subrange(start as int, end as int) =~= suffix@);
    true
}

/// The stem a recovered recording is named after.
pub fn recovered_stem(name: &str) -> (r: String)
    ensures
        r@ == spec_recovered_stem(name@),
{
    let v = chars_of(name);
    let suffix = chars_of(".wav.part");
    proof {
        reveal_strlit(".wav.part");
    }
    let mut end: usize = v.len();
    assert(v@.take(end as int) =~= v@);
    assert(suffix@.len() == 9);
    while ends_with_at(&v, end, &suffix)
        invariant
            end <= v@.len(),
            suffix@ == ".wav.part"@,
            suffix@.len() == 9,
            v@ == name@,
            trim_suffixes(v@.take(end as int), suffix@) == trim_suffixes(name@, suffix@),
        decreases end,
    {
        let ghost before = v@.take(end as int);
        end = end - suffix.len();
        proof {
            assert(before.subrange(before.len() - suffix@.len(), before.len() as int)
                =~= v@.subrange(end as int, end + suffix@.len()));
            assert(before.subrange(0, before.len() - suffix@.len()) =~= v@.take(end as int));
        }
    }
    proof {
        let t = v@.take(end as int);
        if t.len() >= suffix@.len() {
            assert(t.subrange(t.len() - suffix@.len(), t.len() as int)
                =~= v@.subrange(end - suffix@.len(), end as int));
        }
    }
    let kept = sub_chars(&v, 0, end);
    let mut out = string_from_chars(&kept);
    push_str(&mut out, "-recovered");
    proof {
        assert(kept@ =~= v@.take(end as int));
    }
    out
}

/// The name of the `n`th try at a new file: `stem.ext`, then
/// `stem-1.ext`, `stem-2.ext` and on.
pub open spec fn spec_numbered_name(stem: Seq<char>, ext: Seq<char>, n: nat) -> Seq<char> {
    if n == 0 {
        stem + "."@ + ext
    } else {
        stem + "-"@ + decimal(n) + "."@ + ext
    }
}

/// The name of the `n`th try at a new file.
pub fn numbered_name(stem: &str, ext: &str, n: u64) -> (r: String)
    ensures
        r@ == spec_numbered_name(stem@, ext@, n as nat),
{
    let mut out = owned(stem);
    if n > 0 {
        push_str(&mut out, "-");
        push_decimal(&mut out, n);
    }
    push_str(&mut out, ".");
    push_str(&mut out, ext);
    out
}

/// Four little-endian bytes read back as the number they were made from.
pub proof fn lemma_le32_round_trip(x: u32)
    ensures
        le32(x as nat)[0] + 256 * le32(x as nat)[1] + 65536 * le32(x as nat)[2] + 16777216 * le32(x as nat)[3] == x,
{
    let b = le32(x as nat);
    assert(b[0] == x % 256);
    assert(b[1] == (x / 256) % 256);
    assert(b[2] == (x / 65536) % 256);
    assert(b[3] == (x / 16777216) % 256);
    assert((x % 256) + 256 * ((x / 256) % 256) + 65536 * ((x / 65536) % 256) + 16777216 * ((x / 16777216) % 256) == x)
        by (nonlinear_arith)
        requires
            x <= 0xffff_ffff;
}

/// A header written for a rate recordings use is recognized as a
/// recording's header, and its rate reads back.
pub proof fn lemma_written_header_recognized(rate: u32, data: u32)
    requires
        8000 <= rate <= 384000,
        36 + data <= u32::MAX,
    ensures
        spec_wav_header(rate as nat, data as nat).len() == 44,
        spec_wav_part_header(spec_wav_header(rate as nat, data as nat)),
        spec_wav_rate(spec_wav_header(rate as nat, data as nat)) == Some(rate),
{
    let h = spec_wav_header(rate as nat, data as nat);
    assert(h.subrange(0, 4) =~= riff_tag());
    assert(h.subrange(8, 12) =~= wave_tag());
    assert(h.subrange(12, 20) =~= fmt_chunk_tag());
    assert(h.subrange(20, 24) =~= pcm_stereo_tag());
    assert(h.subrange(32, 36) =~= frame_layout_tag());
    assert(h.subrange(36, 40) =~= data_tag());
    lemma_le32_round_trip(rate);
    lemma_le32_round_trip((rate * 6) as u32);
    assert(h[24] == le32(rate as nat)[0] && h[25] == le32(rate as nat)[1]);
    assert(h[26] == le32(rate as nat)[2] && h[27] == le32(rate as nat)[3]);
    assert(h[28] == le32((rate * 6) as nat)[0] && h[29] == le32((rate * 6) as nat)[1]);
    assert(h[30] == le32((rate * 6) as nat)[2] && h[31] == le32((rate * 6) as nat)[3]);
    assert(from_le32(h, 24) == rate);
    assert(from_le32(h, 28) == rate * 6);
}

} // verus!
