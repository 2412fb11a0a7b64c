//! Wikipedia song articles: which article to read, and the genre, subgenre
//! and year its summary mentions.

use vstd::prelude::*;
use crate::models::{SourceName, SourceResult};
use crate::text::{alphanumeric, chars_eq, chars_of, contains, contains_str, hex_upper2, is_alphanumeric, lowercase, matches_at, opt_chars, parse_u32, parse_u32_chars, push_percent_hex, string_of, to_lowercase};

verus! {

// ---------------------------------------------------------------------------
// Choosing the article
// ---------------------------------------------------------------------------

/// The first position at or after `i` whose title names the song as a song or single, or -1.
pub open spec fn first_song(ts: Seq<Seq<char>>, song: Seq<char>, i: int) -> int
    decreases ts.len() - i,
{
    if i < 0 || i >= ts.len() {
        -1
    } else if names_song(ts[i], song) {
        i
    } else {
        first_song(ts, song, i + 1)
    }
}

/// The first position at or after `i` whose title names the song and is no album or discography, or -1.
pub open spec fn first_title(ts: Seq<Seq<char>>, song: Seq<char>, i: int) -> int
    decreases ts.len() - i,
{
    if i < 0 || i >= ts.len() {
        -1
    } else if names_title(ts[i], song) {
        i
    } else {
        first_title(ts, song, i + 1)
    }
}

/// The first position at or after `i` whose title is no album, discography or remix, or -1.
pub open spec fn first_plain(ts: Seq<Seq<char>>, i: int) -> int
    decreases ts.len() - i,
{
    if i < 0 || i >= ts.len() {
        -1
    } else if plain_article(ts[i]) {
        i
    } else {
        first_plain(ts, i + 1)
    }
}

/// A song article that names the song: it holds the title and "song" or "single".
pub open spec fn names_song(t: Seq<char>, song: Seq<char>) -> bool {
    contains(t, song) && (contains(t, "song"@) || contains(t, "single"@))
}

/// An article that holds the title and is no album or discography.
pub open spec fn names_title(t: Seq<char>, song: Seq<char>) -> bool {
    contains(t, song) && !contains(t, "album"@) && !contains(t, "discography"@)
}

/// An article that is no album, discography or remix.
pub open spec fn plain_article(t: Seq<char>) -> bool {
    !contains(t, "album"@) && !contains(t, "discography"@) && !contains(t, "remix"@)
}

/// The article read: the first that names the song as a song or single, else
/// the first that names it and is no album or discography, else the first
/// that is no album, discography or remix, else the first. Titles compare lowercased.
pub open spec fn article_choice(titles: Seq<Seq<char>>, song_title: Seq<char>) -> int {
    let ts = titles.map_values(|t: Seq<char>| lowercase(t));
    let song = lowercase(song_title);
    let a = first_song(ts, song, 0);
    let b = first_title(ts, song, 0);
    let c = first_plain(ts, 0);
    if a >= 0 {
        a
    } else if b >= 0 {
        b
    } else if c >= 0 {
        c
    } else if titles.len() > 0 {
        0
    } else {
        -1
    }
}

/// Which of the search results to read, by position.
pub fn choose_article(titles: &Vec<String>, song_title: &str) -> (r: Option<usize>)
    ensures
        match r {
            Some(i) => i as int == article_choice(titles@.map_values(|t: String| t@), song_title@),
            None => article_choice(titles@.map_values(|t: String| t@), song_title@) == -1,
        },
{
    let ghost tv = titles@.map_values(|t: String| t@);
    let ghost ts = tv.map_values(|t: Seq<char>| lowercase(t));
    let lsong = to_lowercase(song_title);
    let song = chars_of(lsong.as_str());
    let mut lowered: Vec<Vec<char>> = Vec::new();
    for i in 0..titles.len()
        invariant
            tv == titles@.map_values(|t: String| t@),
            ts == tv.map_values(|t: Seq<char>| lowercase(t)),
            lowered@.len() == i,
            forall|k: int| 0 <= k < i ==> (#[trigger] lowered@[k])@ == ts[k],
    {
        let l = to_lowercase(titles[i].as_str());
        lowered.push(chars_of(l.as_str()));
    }
    let n = titles.len();
    let mut i: usize = 0;
    while i < n
        invariant
            tv == titles@.map_values(|t: String| t@),
            ts == tv.map_values(|t: Seq<char>| lowercase(t)),
            song@ == lowercase(song_title@),
            n == ts.len(),
            lowered@.len() == n,
            forall|k: int| 0 <= k < n ==> (#[trigger] lowered@[k])@ == ts[k],
            first_song(ts, song@, 0) == first_song(ts, song@, i as int),
        decreases n - i,
    {
        let t = &lowered[i];
        if contains_chars_v(t, &song) && (contains_str(t, "song") || contains_str(t, "single")) {
            assert(names_song(ts[i as int], song@));
            return Some(i);
        }
        i = i + 1;
    }
    let mut i: usize = 0;
    while i < n
        invariant
            tv == titles@.map_values(|t: String| t@),
            ts == tv.map_values(|t: Seq<char>| lowercase(t)),
            song@ == lowercase(song_title@),
            n == ts.len(),
            lowered@.len() == n,
            forall|k: int| 0 <= k < n ==> (#[trigger] lowered@[k])@ == ts[k],
            first_song(ts, song@, 0) == -1,
            first_title(ts, song@, 0) == first_title(ts, song@, i as int),
        decreases n - i,
    {
        let t = &lowered[i];
        if contains_chars_v(t, &song) && !contains_str(t, "album") && !contains_str(t, "discography") {
            assert(names_title(ts[i as int], song@));
            return Some(i);
        }
        i = i + 1;
    }
    let mut i: usize = 0;
    while i < n
        invariant
            tv == titles@.map_values(|t: String| t@),
            ts == tv.map_values(|t: Seq<char>| lowercase(t)),
            song@ == lowercase(song_title@),
            n == ts.len(),
            lowered@.len() == n,
            forall|k: int| 0 <= k < n ==> (#[trigger] lowered@[k])@ == ts[k],
            first_song(ts, song@, 0) == -1,
            first_title(ts, song@, 0) == -1,
            first_plain(ts, 0) == first_plain(ts, i as int),
        decreases n - i,
    {
        let t = &lowered[i];
        if !contains_str(t, "album") && !contains_str(t, "discography") && !contains_str(t, "remix") {
            assert(plain_article(ts[i as int]));
            return Some(i);
        }
        i = i + 1;
    }
    if n > 0 {
        Some(0)
    } else {
        None
    }
}

fn contains_chars_v(h: &Vec<char>, n: &Vec<char>) -> (b: bool)
    ensures
        b == contains(h@, n@),
{
    crate::text::contains_chars(h, n)
}

/// How one character of an article slug is written in a URL.
pub open spec fn slug_char(c: char) -> Seq<char> {
    if c == ' ' {
        "%20"@
    } else if alphanumeric(c) || c == '_' || c == '-' || c == '(' || c == ')' {
        seq![c]
    } else {
        seq!['%'] + hex_upper2((c as u32) as nat)
    }
}

pub open spec fn slug_encode(s: Seq<char>) -> Seq<char>
    decreases s.len(),
{
    if s.len() == 0 {
        seq![]
    } else {
        slug_encode(s.drop_last()) + slug_char(s.last())
    }
}

/// Percent-encodes an article slug: a space becomes `%20`; letters, digits
/// and `_ - ( )` stay; any other character becomes `%` and its code in hex.
pub fn urlencoding(s: &str) -> (r: String)
    ensures
        r@ == slug_encode(s@),
{
    let cs = chars_of(s);
    let mut v: Vec<char> = Vec::new();
    for i in 0..cs.len()
        invariant
            cs@ == s@,
            v@ == slug_encode(cs@.take(i as int)),
    {
        let c = cs[i];
        assert(cs@.take(i + 1).drop_last() =~= cs@.take(i as int));
        let ghost before = v@;
        proof {
            reveal_strlit("%20");
        }
        if c == ' ' {
            v.push('%');
            v.push('2');
            v.push('0');
        } else if is_alphanumeric(c) || c == '_' || c == '-' || c == '(' || c == ')' {
            v.push(c);
        } else {
            push_percent_hex(&mut v, c as u32);
        }
        assert(v@ =~= before + slug_char(c));
    }
    assert(cs@.take(cs@.len() as int) =~= cs@);
    string_of(&v)
}

/// The title with spaces turned into underscores.
pub open spec fn underscored(s: Seq<char>) -> Seq<char> {
    s.map_values(|c: char| if c == ' ' { '_' } else { c })
}

/// The URL path segment of an article: spaces become underscores, then the
/// title is percent-encoded.
pub fn article_slug(title: &str) -> (r: String)
    ensures
        r@ == slug_encode(underscored(title@)),
{
    let cs = chars_of(title);
    let mut v: Vec<char> = Vec::new();
    for i in 0..cs.len()
        invariant
            cs@ == title@,
            v@ == underscored(cs@.take(i as int)),
    {
        v.push(if cs[i] == ' ' { '_' } else { cs[i] });
        assert(v@ =~= underscored(cs@.take(i + 1)));
    }
    assert(cs@.take(cs@.len() as int) =~= cs@);
    let u = string_of(&v);
    urlencoding(u.as_str())
}

// ---------------------------------------------------------------------------
// Reading the summary
// ---------------------------------------------------------------------------

pub const CUE_COUNT: usize = 33;

/// The genre cues looked for in an article, charts first, then genre names:
/// entry `i` is a phrase and the genre it signals.
pub open spec fn cue_at(i: usize) -> (Seq<char>, Seq<char>) {
    match i {
        0 => ("hot black singles"@, "soul"@),
        1 => ("r&b"@, "soul"@),
        2 => ("hot r&b"@, "soul"@),
        3 => ("dance chart"@, "disco"@),
        4 => ("hot dance"@, "disco"@),
        5 => ("dance club"@, "disco"@),
        6 => ("hot 100"@, "pop"@),
        7 => ("billboard hot 100"@, "pop"@),
        8 => ("new jack swing"@, "new jack swing"@),
        9 => ("freestyle"@, "freestyle"@),
        10 => ("synth-pop"@, "synth-pop"@),
        11 => ("synthpop"@, "synth-pop"@),
        12 => ("new wave"@, "new wave"@),
        13 => ("post-punk"@, "post-punk"@),
        14 => ("hip hop"@, "hip hop"@),
        15 => ("hip-hop"@, "hip hop"@),
        16 => ("electro funk"@, "electro"@),
        17 => ("latin pop"@, "latin pop"@),
        18 => ("dance-pop"@, "dance-pop"@),
        19 => ("contemporary r&b"@, "soul"@),
        20 => ("rhythm and blues"@, "soul"@),
        21 => ("r&b"@, "soul"@),
        22 => ("funk"@, "funk"@),
        23 => ("soul"@, "soul"@),
        24 => ("disco"@, "disco"@),
        25 => ("house"@, "house"@),
        26 => ("pop rock"@, "rock"@),
        27 => ("rock"@, "rock"@),
        28 => ("pop"@, "pop"@),
        29 => ("jazz"@, "jazz"@),
        30 => ("reggae"@, "reggae"@),
        31 => ("blues"@, "blues"@),
        32 => ("electronic"@, "electronic"@),
        _ => (Seq::empty(), Seq::empty()),
    }
}

fn cue_entry(i: usize) -> (r: (&'static str, &'static str))
    requires
        i < CUE_COUNT,
    ensures
        (r.0@, r.1@) == cue_at(i),
{
    match i {
        0 => ("hot black singles", "soul"),
        1 => ("r&b", "soul"),
        2 => ("hot r&b", "soul"),
        3 => ("dance chart", "disco"),
        4 => ("hot dance", "disco"),
        5 => ("dance club", "disco"),
        6 => ("hot 100", "pop"),
        7 => ("billboard hot 100", "pop"),
        8 => ("new jack swing", "new jack swing"),
        9 => ("freestyle", "freestyle"),
        10 => ("synth-pop", "synth-pop"),
        11 => ("synthpop", "synth-pop"),
        12 => ("new wave", "new wave"),
        13 => ("post-punk", "post-punk"),
        14 => ("hip hop", "hip hop"),
        15 => ("hip-hop", "hip hop"),
        16 => ("electro funk", "electro"),
        17 => ("latin pop", "latin pop"),
        18 => ("dance-pop", "dance-pop"),
        19 => ("contemporary r&b", "soul"),
        20 => ("rhythm and blues", "soul"),
        21 => ("r&b", "soul"),
        22 => ("funk", "funk"),
        23 => ("soul", "soul"),
        24 => ("disco", "disco"),
        25 => ("house", "house"),
        26 => ("pop rock", "rock"),
        27 => ("rock", "rock"),
        28 => ("pop", "pop"),
        29 => ("jazz", "jazz"),
        30 => ("reggae", "reggae"),
        31 => ("blues", "blues"),
        _ => ("electronic", "electronic"),
    }
}

/// Genre and subgenre so far: the first cue found gives the genre, the next
/// one that signals another genre gives the subgenre.
pub open spec fn take_cue(st: (Option<Seq<char>>, Option<Seq<char>>), g: Seq<char>) -> (Option<Seq<char>>, Option<Seq<char>>) {
    if st.0 is None {
        (Some(g), st.1)
    } else if st.1 is None && Some(g) != st.0 {
        (st.0, Some(g))
    } else {
        st
    }
}

/// Genre and subgenre after looking for the first `n` cues in `text`.
pub open spec fn cues_upto(text: Seq<char>, n: nat) -> (Option<Seq<char>>, Option<Seq<char>>)
    decreases n,
{
    if n == 0 {
        (None, None)
    } else {
        let st = cues_upto(text, (n - 1) as nat);
        if contains(text, cue_at((n - 1) as usize).0) {
            take_cue(st, cue_at((n - 1) as usize).1)
        } else {
            st
        }
    }
}

/// Genre and subgenre that a (lowercased) summary mentions.
pub open spec fn summary_genres(text: Seq<char>) -> (Option<Seq<char>>, Option<Seq<char>>) {
    cues_upto(text, CUE_COUNT as nat)
}

proof fn lemma_cues_distinct(text: Seq<char>, n: nat)
    ensures
        cues_upto(text, n).1 matches Some(sub) ==> cues_upto(text, n).0 matches Some(g) && sub != g,
    decreases n,
{
    if n > 0 {
        lemma_cues_distinct(text, (n - 1) as nat);
    }
}

/// A summary's subgenre is never its genre: a subgenre comes only with a
/// genre, and differs from it.
pub proof fn law_summary_subgenre_differs(text: Seq<char>)
    ensures
        summary_genres(text).1 matches Some(sub) ==> summary_genres(text).0 matches Some(g) && sub != g,
{
    lemma_cues_distinct(text, CUE_COUNT as nat);
}

fn opt_eq(a: &Option<Vec<char>>, g: &Vec<char>) -> (b: bool)
    ensures
        b == (match *a {
            Some(x) => Some(x@),
            None => None::<Seq<char>>,
        } == Some(g@)),
{
    match a {
        Some(x) => chars_eq(x, g),
        None => false,
    }
}

pub open spec fn opt_vec(o: Option<Vec<char>>) -> Option<Seq<char>> {
    match o {
        Some(x) => Some(x@),
        None => None,
    }
}

fn scan_cues(text: &Vec<char>) -> (r: (Option<Vec<char>>, Option<Vec<char>>))
    ensures
        (opt_vec(r.0), opt_vec(r.1)) == summary_genres(text@),
{
    let mut genre: Option<Vec<char>> = None;
    let mut subgenre: Option<Vec<char>> = None;
    for i in 0..CUE_COUNT
        invariant
            (opt_vec(genre), opt_vec(subgenre)) == cues_upto(text@, i as nat),
    {
        let (phrase, mapped) = cue_entry(i);
        if contains_str(text, phrase) {
            let m = chars_of(mapped);
            if genre.is_none() {
                genre = Some(m);
            } else if subgenre.is_none() && !opt_eq(&genre, &m) {
                subgenre = Some(m);
            }
        }
    }
    (genre, subgenre)
}

/// Whether `\d` of the `regex` crate matches `c` (a Unicode decimal digit).
pub uninterp spec fn regex_digit(c: char) -> bool;

/// A match of `released[^.]*?(\d{4})` starts at `i`, with its four digits at `j`:
/// "released", then no full stop up to `j`, then four digits.
pub open spec fn released_match(t: Seq<char>, i: int, j: int) -> bool {
    &&& matches_at(t, "released"@, i)
    &&& i + 8 <= j
    &&& j + 4 <= t.len()
    &&& forall|k: int| i + 8 <= k < j ==> t[k] != '.'
    &&& forall|k: int| j <= k < j + 4 ==> regex_digit(#[trigger] t[k])
}

/// Some match of the pattern starts at `i`.
pub open spec fn match_starts(t: Seq<char>, i: int) -> bool {
    exists|j: int| #[trigger] released_match(t, i, j)
}

/// What the pattern captures in a text: the four digits of its leftmost
/// match, where the lazy `[^.]*?` takes the shortest stretch.
pub open spec fn released_capture(t: Seq<char>) -> Option<Seq<char>> {
    if exists|i: int| #[trigger] match_starts(t, i) {
        let i = choose|i: int| #[trigger] match_starts(t, i) && forall|i2: int| i2 < i ==> !#[trigger] match_starts(t, i2);
        let j = choose|j: int|
            #[trigger] released_match(t, i, j) && forall|j2: int| j2 < j ==> !#[trigger] released_match(t, i, j2);
        Some(t.subrange(j, j + 4))
    } else {
        None
    }
}

/// Runs `regex::Regex::captures` with the pattern `released[^.]*?(\d{4})` and
/// returns the text of its first group. The contract states the pattern's
/// leftmost-first match as the crate documents it, with `\d` named.
#[verifier::external_body]
fn released_digits(text: &str) -> (r: Option<String>)
    ensures
        opt_chars(r) == released_capture(text@),
        r matches Some(d) ==> d@.len() == 4 && forall|k: int| 0 <= k < 4 ==> regex_digit(#[trigger] d@[k]),
{
    let re = regex::Regex::new(r"released[^.]*?(\d{4})").ok()?;
    re.captures(text).and_then(|c| c.get(1)).map(|m| m.as_str().to_string())
}

/// The release year a summary mentions: the four digits after "released"
/// (before the next full stop), read as a number within 1950..=2030.
pub open spec fn summary_year(text: Seq<char>) -> Option<u32> {
    match released_capture(text) {
        Some(d) => match parse_u32(d) {
            Some(y) => if 1950 <= y <= 2030 {
                Some(y)
            } else {
                None
            },
            None => None,
        },
        None => None,
    }
}

pub fn extract_year(text: &str) -> (r: Option<u32>)
    ensures
        r == summary_year(text@),
{
    match released_digits(text) {
        Some(d) => {
            let dv = chars_of(d.as_str());
            match parse_u32_chars(&dv) {
                Some(y) => if 1950 <= y && y <= 2030 {
                    Some(y)
                } else {
                    None
                },
                None => None,
            }
        },
        None => None,
    }
}

/// What an article summary gives: genre and subgenre from its cues, the year
/// it was released. An empty summary, or one with neither genre nor year,
/// gives nothing.
pub fn summary_result(extract: &str) -> (r: Option<SourceResult>)
    ensures
        r is None <==> (extract@.len() == 0 || (summary_genres(lowercase(extract@)).0 is None
            && summary_year(lowercase(extract@)) is None)),
        r matches Some(sr) ==> {
            let text = lowercase(extract@);
            &&& sr.source == SourceName::WikiSong
            &&& sr.year == summary_year(text)
            &&& opt_chars(sr.genre) == summary_genres(text).0
            &&& opt_chars(sr.subgenre) == summary_genres(text).1
            &&& sr.confidence == 850_000_000
            &&& sr.mbid is None
        },
{
    let ev = chars_of(extract);
    if ev.len() == 0 {
        return None;
    }
    let lower = to_lowercase(extract);
    let lv = chars_of(lower.as_str());
    let (genre, subgenre) = scan_cues(&lv);
    let year = extract_year(lower.as_str());
    if genre.is_none() && year.is_none() {
        return None;
    }
    let g = match genre {
        Some(x) => Some(string_of(&x)),
        None => None,
    };
    let s = match subgenre {
        Some(x) => Some(string_of(&x)),
        None => None,
    };
    Some(SourceResult {
        source: SourceName::WikiSong,
        year,
        genre: g,
        subgenre: s,
        confidence: 850_000_000,
        mbid: None,
    })
}

} // verus!
