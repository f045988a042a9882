//! A minimal RIFF/WAVE reader for test tooling: 16 kHz mono 16-bit PCM only.

use vstd::prelude::*;

verus! {

/// Why a file was refused.
#[derive(Clone, Copy, PartialEq, Eq, Structural, Debug)]
pub enum WavError {
    /// Too short, or no `RIFF`/`WAVE` header.
    NotWav,
    /// A `fmt ` chunk describes something other than 16 kHz mono 16-bit audio.
    UnexpectedFormat { channels: u16, rate: u32, bits: u16 },
    /// No `data` chunk.
    NoData,
}

/// A little-endian 16-bit value at `i`.
pub open spec fn le16(b: Seq<u8>, i: int) -> int {
    b[i] + 256 * b[i + 1]
}

/// A little-endian 32-bit value at `i`.
pub open spec fn le32(b: Seq<u8>, i: int) -> int {
    b[i] + 256 * b[i + 1] + 65536 * b[i + 2] + 16777216 * b[i + 3]
}

/// The two's-complement reading of a 16-bit value.
pub open spec fn as_i16(v: int) -> int {
    if v < 32768 {
        v
    } else {
        v - 65536
    }
}

/// Whether the four bytes at `i` spell `tag`.
pub open spec fn tag_at(b: Seq<u8>, i: int, tag: Seq<u8>) -> bool {
    b.subrange(i, i + 4) == tag
}

/// `RIFF`
pub open spec fn riff() -> Seq<u8> {
    seq![0x52u8, 0x49, 0x46, 0x46]
}

/// `WAVE`
pub open spec fn wave() -> Seq<u8> {
    seq![0x57u8, 0x41, 0x56, 0x45]
}

/// `fmt `
pub open spec fn fmt_tag() -> Seq<u8> {
    seq![0x66u8, 0x6d, 0x74, 0x20]
}

/// `data`
pub open spec fn data_tag() -> Seq<u8> {
    seq![0x64u8, 0x61, 0x74, 0x61]
}

/// What walking the chunks from `pos` finds first.
pub enum Scan {
    /// A `data` chunk whose body spans `start..end` (cut at the end of the file).
    Data(int, int),
    /// A `fmt ` chunk with the wrong channel count, rate or sample width.
    BadFormat(u16, u32, u16),
    /// A `fmt ` chunk too short to hold the fields that are read.
    ShortFmt,
    /// No `data` chunk.
    NoData,
}

/// The chunk walk: each chunk is a 4-byte tag, a 4-byte little-endian body
/// length, and the body, padded to an even length. `fmt ` chunks are checked
/// as they come; the first `data` chunk ends the walk.
pub open spec fn scan_chunks(b: Seq<u8>, pos: int) -> Scan
    decreases b.len() - pos,
{
    if pos < 0 || pos + 8 > b.len() {
        Scan::NoData
    } else {
        let len = le32(b, pos + 4);
        let start = pos + 8;
        let end = if start + len < b.len() { start + len } else { b.len() as int };
        let next = pos + 8 + len + len % 2;
        if tag_at(b, pos, fmt_tag()) {
            if end - start < 16 {
                Scan::ShortFmt
            } else {
                let channels = le16(b, start + 2);
                let rate = le32(b, start + 4);
                let bits = le16(b, start + 14);
                if channels != 1 || rate != 16000 || bits != 16 {
                    Scan::BadFormat(channels as u16, rate as u32, bits as u16)
                } else if next + 8 > b.len() {
                    Scan::NoData
                } else {
                    scan_chunks(b, next)
                }
            }
        } else if tag_at(b, pos, data_tag()) {
            Scan::Data(start, end)
        } else if next + 8 > b.len() {
            Scan::NoData
        } else {
            scan_chunks(b, next)
        }
    }
}

/// The file has the RIFF/WAVE header the reader insists on.
pub open spec fn has_wav_header(b: Seq<u8>) -> bool {
    b.len() > 44 && tag_at(b, 0, riff()) && tag_at(b, 8, wave())
}

/// The reader would index past a `fmt ` chunk that is too short.
pub open spec fn fmt_truncated(b: Seq<u8>) -> bool {
    has_wav_header(b) && scan_chunks(b, 12) is ShortFmt
}

/// The samples of a data chunk body: little-endian signed 16-bit pairs, an
/// odd last byte ignored.
pub open spec fn pcm16(body: Seq<u8>) -> Seq<i16> {
    Seq::new(body.len() / 2, |i: int| as_i16(le16(body, 2 * i)) as i16)
}

/// What reading the file gives.
pub open spec fn wav_result(b: Seq<u8>) -> Result<Seq<i16>, WavError> {
    if !has_wav_header(b) {
        Err(WavError::NotWav)
    } else {
        match scan_chunks(b, 12) {
            Scan::Data(start, end) => Ok(pcm16(b.subrange(start, end))),
            Scan::BadFormat(c, r, w) => Err(WavError::UnexpectedFormat { channels: c, rate: r, bits: w }),
            _ => Err(WavError::NoData),
        }
    }
}

fn read_le16(b: &[u8], i: usize) -> (v: u16)
    requires
        i + 1 < b@.len(),
    ensures
        v == le16(b@, i as int),
{
    b[i] as u16 + (b[i + 1] as u16) * 256
}

fn read_le32(b: &[u8], i: usize) -> (v: u32)
    requires
        i + 3 < b@.len(),
    ensures
        v == le32(b@, i as int),
{
    b[i] as u32 + (b[i + 1] as u32) * 256 + (b[i + 2] as u32) * 65536 + (b[i + 3] as u32) * 16777216
}

fn tag_is(b: &[u8], i: usize, t0: u8, t1: u8, t2: u8, t3: u8) -> (r: bool)
    requires
        i + 3 < b@.len(),
    ensures
        r == tag_at(b@, i as int, seq![t0, t1, t2, t3]),
{
    let r = b[i] == t0 && b[i + 1] == t1 && b[i + 2] == t2 && b[i + 3] == t3;
    assert(r == (b@.subrange(i as int, i + 4) =~= seq![t0, t1, t2, t3]));
    r
}

/// The outcome of the chunk walk, with positions as indices.
enum Found {
    Data(usize, usize),
    BadFormat(u16, u32, u16),
    ShortFmt,
    NoData,
}

fn scan(b: &[u8]) -> (f: Found)
    requires
        has_wav_header(b@),
    ensures
        match (f, scan_chunks(b@, 12)) {
            (Found::Data(s, e), Scan::Data(s2, e2)) => s == s2 && e == e2 && s <= e <= b@.len(),
            (Found::BadFormat(c, r, w), Scan::BadFormat(c2, r2, w2)) => c == c2 && r == r2 && w == w2,
            (Found::ShortFmt, Scan::ShortFmt) => true,
            (Found::NoData, Scan::NoData) => true,
            _ => false,
        },
{
    let n = b.len();
    let mut pos: usize = 12;
    while pos <= n && n - pos >= 8
        invariant
            n == b@.len(),
            12 <= pos,
            scan_chunks(b@, 12) == scan_chunks(b@, pos as int),
        decreases n - pos,
    {
        let len = read_le32(b, pos + 4);
        let start = pos + 8;
        let avail: u64 = (n - start) as u64;
        let end: usize = if (len as u64) < avail {
            start + len as usize
        } else {
            n
        };
        if tag_is(b, pos, 0x66, 0x6d, 0x74, 0x20) {
            if end - start < 16 {
                return Found::ShortFmt;
            }
            let channels = read_le16(b, start + 2);
            let rate = read_le32(b, start + 4);
            let bits = read_le16(b, start + 14);
            if channels != 1 || rate != 16000 || bits != 16 {
                return Found::BadFormat(channels, rate, bits);
            }
        } else if tag_is(b, pos, 0x64, 0x61, 0x74, 0x61) {
            return Found::Data(start, end);
        }
        let step: u64 = len as u64 + (len % 2) as u64;
        if step > avail {
            assert(scan_chunks(b@, pos + 8 + len + len % 2) is NoData);
            return Found::NoData;
        }
        pos = start + step as usize;
    }
    Found::NoData
}

/// Whether `bytes` is a WAVE file whose `fmt ` chunk is too short to hold the
/// channel count, rate and sample width; reading such a file is refused.
pub fn wav_fmt_truncated(bytes: &[u8]) -> (r: bool)
    ensures
        r == fmt_truncated(bytes@),
{
    if !(bytes.len() > 44 && tag_is(bytes, 0, 0x52, 0x49, 0x46, 0x46) && tag_is(bytes, 8, 0x57, 0x41, 0x56, 0x45)) {
        return false;
    }
    match scan(bytes) {
        Found::ShortFmt => true,
        _ => false,
    }
}

/// Reads the samples of a 16 kHz mono 16-bit PCM WAVE file: the body of its
/// first `data` chunk as signed little-endian 16-bit values.
pub fn read_wav_16k_mono(bytes: &[u8]) -> (r: Result<Vec<i16>, WavError>)
    requires
        !fmt_truncated(bytes@),
    ensures
        match (r, wav_result(bytes@)) {
            (Ok(v), Ok(s)) => v@ == s,
            (Err(e), Err(e2)) => e == e2,
            _ => false,
        },
{
    if !(bytes.len() > 44 && tag_is(bytes, 0, 0x52, 0x49, 0x46, 0x46) && tag_is(bytes, 8, 0x57, 0x41, 0x56, 0x45)) {
        return Err(WavError::NotWav);
    }
    match scan(bytes) {
        Found::Data(start, end) => {
            let ghost body = bytes@.subrange(start as int, end as int);
            let mut samples: Vec<i16> = Vec::new();
            let mut i: usize = start;
            while end - i >= 2
                invariant
                    start <= i <= end <= bytes@.len(),
                    (i - start) % 2 == 0,
                    body == bytes@.subrange(start as int, end as int),
                    samples@ == pcm16(body).take((i - start) / 2),
                decreases end - i,
            {
                let v = read_le16(bytes, i);
                let s: i16 = if v < 32768 {
                    v as i16
                } else {
                    (v as i32 - 65536) as i16
                };
                samples.push(s);
                assert(samples@ =~= pcm16(body).take((i + 2 - start) / 2)) by {
                    assert(le16(body, 2 * ((i - start) / 2)) == le16(bytes@, i as int));
                }
                i = i + 2;
            }
            assert(samples@ =~= pcm16(body));
            Ok(samples)
        },
        Found::BadFormat(c, r, w) => Err(WavError::UnexpectedFormat { channels: c, rate: r, bits: w }),
        Found::ShortFmt => Err(WavError::NoData),
        Found::NoData => Err(WavError::NoData),
    }
}

} // verus!
