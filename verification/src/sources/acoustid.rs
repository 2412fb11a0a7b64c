//! AcoustID: the fingerprint sent for a track, and the recording chosen from
//! the reply.

use vstd::prelude::*;
use base64::Engine;
use crate::models::{SourceName, SourceResult};
use crate::text::{str_eq};

verus! {

// ---------------------------------------------------------------------------
// The fingerprint
// ---------------------------------------------------------------------------

/// Runs `rusty_chromaprint::Fingerprinter` with `Configuration::preset_test1()`:
/// `start`, then `consume` on each slice of 4096 samples in turn, `finish`,
/// `fingerprint`. `start` refuses no channels and a sample rate of 1000 Hz or
/// less, and then nothing comes back; on any other rate and channel count it
/// starts (the resampler it builds accepts every positive ratio), and a
/// fingerprint comes back. What the fingerprint holds is left
/// unsaid: the resampler it runs picks its arithmetic by the processor, so
/// the same samples need not give the same fingerprint on every machine.
/// `consume` asserts that each slice it gets holds whole frames, hence the
/// `requires` (a start that fails consumes nothing).
#[verifier::external_body]
fn chromaprint_fingerprint(samples: &Vec<i16>, sample_rate: u32, channels: u32) -> (r: Option<Vec<u32>>)
    requires
        channels > 0 ==> (samples@.len() as int) % (channels as int) == 0,
        channels > 0 ==> samples@.len() <= 4096 || 4096int % (channels as int) == 0,
    ensures
        r is Some <==> (channels > 0 && sample_rate > 1000),
{
    let config = rusty_chromaprint::Configuration::preset_test1();
    let mut printer = rusty_chromaprint::Fingerprinter::new(&config);
    if printer.start(sample_rate, channels).is_err() {
        return None;
    }
    for chunk in samples.chunks(4096) {
        printer.consume(chunk);
    }
    printer.finish();
    Some(printer.fingerprint().to_vec())
}

/// The little-endian bytes of each value, in order.
pub open spec fn le_bytes(fp: Seq<u32>) -> Seq<u8>
    decreases fp.len(),
{
    if fp.len() == 0 {
        seq![]
    } else {
        let x = fp.last() as int;
        le_bytes(fp.drop_last()) + seq![
            (x % 256) as u8,
            ((x / 256) % 256) as u8,
            ((x / 65536) % 256) as u8,
            (x / 16777216) as u8,
        ]
    }
}

fn to_le_bytes(fp: &Vec<u32>) -> (r: Vec<u8>)
    ensures
        r@ == le_bytes(fp@),
{
    let mut r: Vec<u8> = Vec::new();
    for i in 0..fp.len()
        invariant
            r@ == le_bytes(fp@.take(i as int)),
    {
        let x = fp[i];
        assert(fp@.take(i + 1).drop_last() =~= fp@.take(i as int));
        r.push((x % 256) as u8);
        r.push(((x / 256) % 256) as u8);
        r.push(((x / 65536) % 256) as u8);
        r.push((x / 16777216) as u8);
        assert(r@ =~= le_bytes(fp@.take(i + 1)));
    }
    assert(fp@.take(fp@.len() as int) =~= fp@);
    r
}

/// A digit of the URL-safe base64 alphabet (RFC 4648, section 5).
pub open spec fn b64_digit(v: int) -> char {
    if v < 26 {
        (65 + v) as char
    } else if v < 52 {
        (97 + v - 26) as char
    } else if v < 62 {
        (48 + v - 52) as char
    } else if v == 62 {
        '-'
    } else {
        '_'
    }
}

/// URL-safe base64 without padding: each group of three bytes gives four
/// digits, a final pair three, a final single byte two.
pub open spec fn base64_url(b: Seq<u8>) -> Seq<char>
    decreases b.len(),
{
    if b.len() == 0 {
        seq![]
    } else if b.len() == 1 {
        let b0 = b[0] as int;
        seq![b64_digit(b0 / 4), b64_digit((b0 % 4) * 16)]
    } else if b.len() == 2 {
        let b0 = b[0] as int;
        let b1 = b[1] as int;
        seq![b64_digit(b0 / 4), b64_digit((b0 % 4) * 16 + b1 / 16), b64_digit((b1 % 16) * 4)]
    } else {
        let b0 = b[0] as int;
        let b1 = b[1] as int;
        let b2 = b[2] as int;
        seq![
            b64_digit(b0 / 4),
            b64_digit((b0 % 4) * 16 + b1 / 16),
            b64_digit((b1 % 16) * 4 + b2 / 64),
            b64_digit(b2 % 64),
        ] + base64_url(b.subrange(3, b.len() as int))
    }
}

/// Calls `base64`'s `URL_SAFE_NO_PAD.encode`. The contract claims what the
/// crate documents: RFC 4648 URL-safe base64 without `=` padding.
#[verifier::external_body]
fn encode_base64_url(bytes: &Vec<u8>) -> (s: String)
    ensures
        s@ == base64_url(bytes@),
{
    base64::engine::general_purpose::URL_SAFE_NO_PAD.encode(bytes)
}

/// The fingerprint as AcoustID expects it: little-endian bytes in URL-safe base64.
pub fn encode_fingerprint(fp: &Vec<u32>) -> (s: String)
    ensures
        s@ == base64_url(le_bytes(fp@)),
{
    let bytes = to_le_bytes(fp);
    encode_base64_url(&bytes)
}

/// Whole seconds of audio: the sample count (as a `u32`, wrapping) divided by
/// the samples per second of all channels.
pub open spec fn duration_secs(n: nat, sample_rate: u32, channels: u32) -> int {
    ((n as int) % 0x1_0000_0000) / ((sample_rate as int) * (channels as int))
}

/// What a fingerprint gives to send: the fingerprint encoded, and the
/// duration of `n` samples; nothing without a fingerprint.
pub fn fingerprint_result(fp: Option<Vec<u32>>, n: usize, sample_rate: u32, channels: u32) -> (r: Option<(String, u32)>)
    requires
        0 < sample_rate * channels <= u32::MAX,
    ensures
        match fp {
            Some(f) => r matches Some((s, d)) && s@ == base64_url(le_bytes(f@)) && d as int == duration_secs(
                n as nat,
                sample_rate,
                channels,
            ),
            None => r is None,
        },
{
    let per_second = sample_rate * channels;
    let n32: u32 = ((n as u64) % 0x1_0000_0000) as u32;
    let duration = n32 / per_second;
    match fp {
        Some(f) => Some((encode_fingerprint(&f), duration)),
        None => None,
    }
}

/// The fingerprint and the duration of decoded audio; `None` exactly when the
/// fingerprinter refuses the rate (1000 Hz or less). The samples reach the
/// fingerprinter in slices of 4096, each of which must hold whole frames.
pub fn compute_fingerprint(samples: &Vec<i16>, sample_rate: u32, channels: u32) -> (r: Option<(String, u32)>)
    requires
        0 < sample_rate * channels <= u32::MAX,
        (samples@.len() as int) % (channels as int) == 0,
        samples@.len() <= 4096 || 4096int % (channels as int) == 0,
    ensures
        r is Some <==> sample_rate > 1000,
        r matches Some((s, d)) ==> {
            &&& d as int == duration_secs(samples@.len(), sample_rate, channels)
            &&& exists|f: Seq<u32>| s@ == base64_url(#[trigger] le_bytes(f))
        },
{
    let fp = chromaprint_fingerprint(samples, sample_rate, channels);
    let ghost g = fp;
    let r = fingerprint_result(fp, samples.len(), sample_rate, channels);
    proof {
        if let Some(f) = g {
            assert(r matches Some((s, _)) && s@ == base64_url(le_bytes(f@)));
        }
    }
    r
}

// ---------------------------------------------------------------------------
// The reply
// ---------------------------------------------------------------------------

/// One match of a lookup. `score` is in millionths (a score of 0.8 is 800000).
#[derive(Debug)]
pub struct AcoustIdResult {
    pub score: u32,
    pub recordings: Option<Vec<String>>,
}

/// The first match scored above 0.8, or -1.
pub open spec fn first_confident(rs: Seq<AcoustIdResult>, i: int) -> int
    decreases rs.len() - i,
{
    if i < 0 || i >= rs.len() {
        -1
    } else if rs[i].score > 800_000 {
        i
    } else {
        first_confident(rs, i + 1)
    }
}

/// The MBID taken from a reply: with status "ok", the first recording of the
/// first match scored above 0.8.
pub open spec fn chosen_mbid(status: Seq<char>, rs: Seq<AcoustIdResult>) -> Option<Seq<char>> {
    let i = first_confident(rs, 0);
    if status != "ok"@ || i < 0 {
        None
    } else {
        match rs[i].recordings {
            Some(recs) => if recs.len() > 0 {
                Some(recs@[0]@)
            } else {
                None
            },
            None => None,
        }
    }
}

pub fn select_mbid(status: &str, results: &Vec<AcoustIdResult>) -> (r: Option<String>)
    ensures
        match r {
            Some(m) => chosen_mbid(status@, results@) == Some(m@),
            None => chosen_mbid(status@, results@) is None,
        },
{
    if !str_eq(status, "ok") {
        return None;
    }
    let mut i: usize = 0;
    while i < results.len()
        invariant
            status@ == "ok"@,
            i <= results@.len(),
            first_confident(results@, 0) == first_confident(results@, i as int),
        decreases results.len() - i,
    {
        if results[i].score > 800_000 {
            return match &results[i].recordings {
                Some(recs) => if recs.len() > 0 {
                    Some(recs[0].clone())
                } else {
                    None
                },
                None => None,
            };
        }
        i = i + 1;
    }
    None
}

/// An AcoustID match carries no year or genre, only the MBID, at 0.9.
pub fn acoustid_result(mbid: String) -> (r: SourceResult)
    ensures
        r.source == SourceName::AcoustId,
        r.year is None,
        r.genre is None,
        r.subgenre is None,
        r.confidence == 900_000_000,
        r.mbid == Some(mbid),
{
    SourceResult {
        source: SourceName::AcoustId,
        year: None,
        genre: None,
        subgenre: None,
        confidence: 900_000_000,
        mbid: Some(mbid),
    }
}

} // verus!
