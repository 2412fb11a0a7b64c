//! Corrections after voting: the artist name MusicBrainz prefers, and the DJ
//! category of a genre.

use vstd::prelude::*;
use crate::text::{all_ascii, alphanumeric, append_str, hex_digit, hex_upper, is_ascii_digit, is_ascii_letter, chars_eq, chars_of, hex_upper2, is_alphanumeric, lowercase, parse_u64, parse_u64_chars, push_percent_hex, str_eq, string_of, to_lowercase, trim, trim_chars};

verus! {

// ---------------------------------------------------------------------------
// Artist correction
// ---------------------------------------------------------------------------

/// Whether a character of a query value is written as it is: a letter or a
/// digit (for ASCII, exactly `A-Z`, `a-z` and `0-9`), or one of `- _ . ~`.
pub open spec fn query_safe(c: char) -> bool {
    ||| (if (c as u32) < 128 { is_ascii_letter(c) || is_ascii_digit(c) } else { alphanumeric(c) })
    ||| c == '-' || c == '_' || c == '.' || c == '~'
}

/// How a character of a query value is written in a URL.
pub open spec fn query_char(c: char) -> Seq<char> {
    if c == ' ' {
        seq!['+']
    } else if query_safe(c) {
        seq![c]
    } else {
        seq!['%'] + hex_upper2((c as u32) as nat)
    }
}

pub open spec fn query_encode(s: Seq<char>) -> Seq<char>
    decreases s.len(),
{
    if s.len() == 0 {
        seq![]
    } else {
        query_encode(s.drop_last()) + query_char(s.last())
    }
}

fn push_query_encoded(v: &mut Vec<char>, s: &str)
    ensures
        final(v)@ == old(v)@ + query_encode(s@),
{
    let cs = chars_of(s);
    for i in 0..cs.len()
        invariant
            cs@ == s@,
            v@ == old(v)@ + query_encode(cs@.take(i as int)),
    {
        let c = cs[i];
        assert(cs@.take(i + 1).drop_last() =~= cs@.take(i as int));
        let ghost before = v@;
        if c == ' ' {
            v.push('+');
        } else if is_alphanumeric(c) || c == '-' || c == '_' || c == '.' || c == '~' {
            v.push(c);
        } else {
            push_percent_hex(v, c as u32);
        }
        assert(v@ =~= before + query_char(c));
    }
    assert(cs@.take(cs@.len() as int) =~= cs@);
}

// ---------------------------------------------------------------------------
// Decoding a query value
// ---------------------------------------------------------------------------

/// The value of a hexadecimal digit (`0-9`, `A-F`).
pub open spec fn hex_value(c: char) -> nat {
    if '0' <= c <= '9' {
        ((c as u32) - 48) as nat
    } else if 'A' <= c <= 'F' {
        ((c as u32) - 55) as nat
    } else {
        0
    }
}

/// Form decoding: `+` is a space, `%XY` the character of code `0xXY`, and any
/// other character itself.
pub open spec fn form_decode(t: Seq<char>) -> Seq<char>
    decreases t.len(),
{
    if t.len() == 0 {
        seq![]
    } else if t[0] == '+' {
        seq![' '] + form_decode(t.drop_first())
    } else if t[0] == '%' && t.len() >= 3 {
        seq![(hex_value(t[1]) * 16 + hex_value(t[2])) as char] + form_decode(t.subrange(3, t.len() as int))
    } else {
        seq![t[0]] + form_decode(t.drop_first())
    }
}

/// The characters an encoded query value is made of.
pub open spec fn query_text_char(c: char) -> bool {
    is_ascii_letter(c) || is_ascii_digit(c) || c == '-' || c == '_' || c == '.' || c == '~' || c == '+'
        || c == '%'
}

proof fn lemma_hex_digit_value(d: nat)
    requires
        d < 16,
    ensures
        hex_value(hex_digit(d)) == d,
        is_ascii_letter(hex_digit(d)) || is_ascii_digit(hex_digit(d)),
{
}

proof fn lemma_hex_upper2_ascii(n: nat)
    requires
        n < 128,
    ensures
        hex_upper2(n) == seq![hex_digit(n / 16), hex_digit(n % 16)],
{
    if n >= 16 {
        assert(hex_upper(n / 16) == seq![hex_digit(n / 16)]);
        assert(hex_upper(n) =~= seq![hex_digit(n / 16), hex_digit(n % 16)]);
    } else {
        assert(hex_upper(n) == seq![hex_digit(n)]);
        assert(seq!['0'] + hex_upper(n) =~= seq![hex_digit(n / 16), hex_digit(n % 16)]);
    }
}

proof fn lemma_query_encode_cons(c: char, s: Seq<char>)
    ensures
        query_encode(seq![c] + s) == query_char(c) + query_encode(s),
    decreases s.len(),
{
    let t = seq![c] + s;
    if s.len() == 0 {
        assert(t.drop_last() =~= Seq::<char>::empty());
        assert(t.last() == c);
        assert(query_encode(t) == query_encode(t.drop_last()) + query_char(c));
        assert(query_encode(t) =~= query_char(c));
        assert(query_char(c) + query_encode(s) =~= query_char(c));
    } else {
        assert(t.drop_last() =~= seq![c] + s.drop_last());
        assert(t.last() == s.last());
        lemma_query_encode_cons(c, s.drop_last());
        assert(query_encode(t) == query_encode(t.drop_last()) + query_char(s.last()));
        assert(query_encode(s) == query_encode(s.drop_last()) + query_char(s.last()));
        assert(query_encode(t) =~= query_char(c) + query_encode(s));
    }
}

/// Decoding what one ASCII character was encoded to gives the character back.
proof fn lemma_decode_query_char(c: char, rest: Seq<char>)
    requires
        (c as u32) < 128,
    ensures
        form_decode(query_char(c) + rest) == seq![c] + form_decode(rest),
        forall|i: int| 0 <= i < query_char(c).len() ==> query_text_char(#[trigger] query_char(c)[i]),
{
    let t = query_char(c) + rest;
    if c == ' ' {
        assert(t.drop_first() =~= rest);
    } else if query_safe(c) {
        assert(t.drop_first() =~= rest);
    } else {
        let n = (c as u32) as nat;
        lemma_hex_upper2_ascii(n);
        lemma_hex_digit_value(n / 16);
        lemma_hex_digit_value(n % 16);
        assert(t.subrange(3, t.len() as int) =~= rest);
        assert((n / 16) * 16 + n % 16 == n);
        assert(((hex_value(t[1]) * 16 + hex_value(t[2])) as char) == c);
    }
}

/// Encoding an ASCII query value loses nothing: form decoding gives it back,
/// and the encoding holds only letters, digits and `- _ . ~ + %`.
pub proof fn law_query_encoding_round_trip(s: Seq<char>)
    requires
        all_ascii(s),
    ensures
        form_decode(query_encode(s)) == s,
        forall|i: int| 0 <= i < query_encode(s).len() ==> query_text_char(#[trigger] query_encode(s)[i]),
    decreases s.len(),
{
    if s.len() == 0 {
        assert(query_encode(s) =~= Seq::<char>::empty());
    } else {
        let c = s[0];
        let rest = s.drop_first();
        assert(s =~= seq![c] + rest);
        assert(all_ascii(rest));
        law_query_encoding_round_trip(rest);
        lemma_query_encode_cons(c, rest);
        lemma_decode_query_char(c, query_encode(rest));
        let q = query_char(c);
        let e = query_encode(s);
        assert forall|i: int| 0 <= i < e.len() implies query_text_char(#[trigger] e[i]) by {
            if i < q.len() {
                assert(e[i] == q[i]);
            } else {
                assert(e[i] == query_encode(rest)[i - q.len()]);
            }
        }
    }
}

/// Encodes a query value: a space becomes `+`; letters, digits and `- _ . ~`
/// stay; any other character becomes `%` and its code in hex.
pub fn urlencoding(s: &str) -> (r: String)
    ensures
        r@ == query_encode(s@),
{
    let mut v: Vec<char> = Vec::new();
    push_query_encoded(&mut v, s);
    assert(v@ =~= query_encode(s@));
    string_of(&v)
}

/// The artist search of the MusicBrainz web service, best match only.
pub open spec fn artist_search(artist: Seq<char>) -> Seq<char> {
    "https://musicbrainz.org/ws/2/artist/?query=artist:"@ + query_encode(artist)
        + "&limit=1&fmt=json"@
}

pub fn artist_search_url(artist: &str) -> (r: String)
    ensures
        r@ == artist_search(artist@),
{
    let mut v: Vec<char> = Vec::new();
    append_str(&mut v, "https://musicbrainz.org/ws/2/artist/?query=artist:");
    push_query_encoded(&mut v, artist);
    append_str(&mut v, "&limit=1&fmt=json");
    assert(v@ =~= artist_search(artist@));
    string_of(&v)
}

/// The score of the best artist match: given as text, it is parsed; otherwise
/// the number given; otherwise 0.
pub open spec fn match_score(text: Option<Seq<char>>, number: Option<u64>) -> u64 {
    let parsed = match text {
        Some(t) => parse_u64(t),
        None => None,
    };
    match parsed {
        Some(s) => s,
        None => match number {
            Some(n) => n,
            None => 0,
        },
    }
}

pub fn score_of_match(text: Option<&str>, number: Option<u64>) -> (r: u64)
    ensures
        r == match_score(
            match text {
                Some(t) => Some(t@),
                None => None,
            },
            number,
        ),
{
    let parsed = match text {
        Some(t) => {
            let tv = chars_of(t);
            parse_u64_chars(&tv)
        },
        None => None,
    };
    match parsed {
        Some(s) => s,
        None => match number {
            Some(n) => n,
            None => 0,
        },
    }
}

/// The corrected artist: the best match's name when it scores 90 or more and
/// differs from the name on the track.
pub fn artist_correction(artist: &str, score: u64, matched_name: &str) -> (r: Option<String>)
    ensures
        r is Some <==> (score >= 90 && matched_name@ != artist@),
        r matches Some(n) ==> n@ == matched_name@,
{
    if score >= 90 && !str_eq(matched_name, artist) {
        Some(matched_name.to_owned())
    } else {
        None
    }
}

// ---------------------------------------------------------------------------
// DJ categories
// ---------------------------------------------------------------------------

pub const CATEGORY_COUNT: usize = 30;

/// The DJ categories: entry `i` maps a genre to its category.
pub open spec fn category_at(i: usize) -> (Seq<char>, Seq<char>) {
    match i {
        0 => ("electronic"@, "House & Electronic"@),
        1 => ("house"@, "House & Electronic"@),
        2 => ("techno"@, "House & Electronic"@),
        3 => ("trance"@, "House & Electronic"@),
        4 => ("edm"@, "House & Electronic"@),
        5 => ("dance"@, "Pop & Dance"@),
        6 => ("pop"@, "Pop & Dance"@),
        7 => ("rock"@, "Rock"@),
        8 => ("metal"@, "Rock"@),
        9 => ("punk"@, "Rock"@),
        10 => ("hip hop"@, "Hip-Hop & R&B"@),
        11 => ("hip-hop"@, "Hip-Hop & R&B"@),
        12 => ("r&b"@, "Hip-Hop & R&B"@),
        13 => ("rap"@, "Hip-Hop & R&B"@),
        14 => ("trap"@, "Hip-Hop & R&B"@),
        15 => ("soul"@, "Disco, Funk & Soul"@),
        16 => ("funk"@, "Disco, Funk & Soul"@),
        17 => ("disco"@, "Disco, Funk & Soul"@),
        18 => ("jazz"@, "Jazz"@),
        19 => ("blues"@, "Jazz"@),
        20 => ("reggae"@, "Reggae & Dancehall"@),
        21 => ("dancehall"@, "Reggae & Dancehall"@),
        22 => ("ska"@, "Reggae & Dancehall"@),
        23 => ("latin"@, "World & Latin"@),
        24 => ("salsa"@, "World & Latin"@),
        25 => ("reggaeton"@, "World & Latin"@),
        26 => ("country"@, "Country"@),
        27 => ("classical"@, "Classical"@),
        28 => ("new wave"@, "Synth Pop & New Wave"@),
        29 => ("synth"@, "Synth Pop & New Wave"@),
        _ => (Seq::empty(), Seq::empty()),
    }
}

fn category_entry(i: usize) -> (r: (&'static str, &'static str))
    requires
        i < CATEGORY_COUNT,
    ensures
        (r.0@, r.1@) == category_at(i),
{
    match i {
        0 => ("electronic", "House & Electronic"),
        1 => ("house", "House & Electronic"),
        2 => ("techno", "House & Electronic"),
        3 => ("trance", "House & Electronic"),
        4 => ("edm", "House & Electronic"),
        5 => ("dance", "Pop & Dance"),
        6 => ("pop", "Pop & Dance"),
        7 => ("rock", "Rock"),
        8 => ("metal", "Rock"),
        9 => ("punk", "Rock"),
        10 => ("hip hop", "Hip-Hop & R&B"),
        11 => ("hip-hop", "Hip-Hop & R&B"),
        12 => ("r&b", "Hip-Hop & R&B"),
        13 => ("rap", "Hip-Hop & R&B"),
        14 => ("trap", "Hip-Hop & R&B"),
        15 => ("soul", "Disco, Funk & Soul"),
        16 => ("funk", "Disco, Funk & Soul"),
        17 => ("disco", "Disco, Funk & Soul"),
        18 => ("jazz", "Jazz"),
        19 => ("blues", "Jazz"),
        20 => ("reggae", "Reggae & Dancehall"),
        21 => ("dancehall", "Reggae & Dancehall"),
        22 => ("ska", "Reggae & Dancehall"),
        23 => ("latin", "World & Latin"),
        24 => ("salsa", "World & Latin"),
        25 => ("reggaeton", "World & Latin"),
        26 => ("country", "Country"),
        27 => ("classical", "Classical"),
        28 => ("new wave", "Synth Pop & New Wave"),
        _ => ("synth", "Synth Pop & New Wave"),
    }
}

/// The first entry at or after `i` of the `category_at` table whose key is `k`, or -1.
pub open spec fn category_at_from(k: Seq<char>, i: int) -> int
    decreases CATEGORY_COUNT - i,
{
    if i < 0 || i >= CATEGORY_COUNT {
        -1
    } else if category_at(i as usize).0 == k {
        i
    } else {
        category_at_from(k, i + 1)
    }
}

/// Where `k` stands in the `category_at` table.
fn category_entry_find(k: &Vec<char>) -> (r: Option<usize>)
    ensures
        match r {
            Some(i) => i < CATEGORY_COUNT && i as int == category_at_from(k@, 0),
            None => category_at_from(k@, 0) == -1,
        },
{
    let mut i: usize = 0;
    while i < CATEGORY_COUNT
        invariant
            i <= CATEGORY_COUNT,
            category_at_from(k@, 0) == category_at_from(k@, i as int),
        decreases CATEGORY_COUNT - i,
    {
        let (key, _) = category_entry(i);
        let kv = chars_of(key);
        if chars_eq(&kv, k) {
            return Some(i);
        }
        i = i + 1;
    }
    None
}

/// The DJ category of a genre, matched lowercased and trimmed.
pub open spec fn category(genre: Seq<char>) -> Option<Seq<char>> {
    let i = category_at_from(trim(lowercase(genre)), 0);
    if i >= 0 {
        Some(category_at(i as usize).1)
    } else {
        None
    }
}

/// Maps a genre to one of the eleven DJ categories, or `None` when it has none.
pub fn map_genre(genre: &str) -> (r: Option<&'static str>)
    ensures
        match r {
            Some(c) => category(genre@) == Some(c@),
            None => category(genre@) is None,
        },
{
    let lower = to_lowercase(genre);
    let lv = chars_of(lower.as_str());
    let g = trim_chars(&lv);
    match category_entry_find(&g) {
        Some(i) => {
            let (_, c) = category_entry(i);
            Some(c)
        },
        None => None,
    }
}

} // verus!
