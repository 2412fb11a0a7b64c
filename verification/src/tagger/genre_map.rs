//! The genre synonym map: the mapping files that send a source's subgenre
//! to a MusicBrainz tag, and the built-in synonyms that fill in what the
//! files leave out.

use vstd::prelude::*;
use crate::text::{
    all_ascii, ascii_lower_seq, lemma_ascii_lower_twice, lemma_ascii_subrange, lemma_ascii_trimmed, lower_text,
    trim_start, chars_eq, chars_of, opt_chars, slice_chars, string_of, strip_leading, strip_leading_chars,
    strip_trailing, strip_trailing_chars, to_lowercase, trim, trim_chars,
};

verus! {

// ---------------------------------------------------------------------------
// Lines and fields
// ---------------------------------------------------------------------------

/// The first position at or after `i` that holds `c`, or the length of `s`.
pub open spec fn char_from(s: Seq<char>, c: char, i: int) -> int
    decreases s.len() - i,
{
    if i < 0 || i >= s.len() {
        s.len() as int
    } else if s[i] == c {
        i
    } else {
        char_from(s, c, i + 1)
    }
}

pub proof fn lemma_char_from(s: Seq<char>, c: char, i: int)
    requires
        0 <= i <= s.len(),
    ensures
        i <= char_from(s, c, i) <= s.len(),
        char_from(s, c, i) < s.len() ==> s[char_from(s, c, i)] == c,
        forall|j: int| i <= j < char_from(s, c, i) ==> s[j] != c,
    decreases s.len() - i,
{
    if i < s.len() && s[i] != c {
        lemma_char_from(s, c, i + 1);
    }
}

/// The pieces of `s` from position `i` on, cut at every `c` (`str::split`).
pub open spec fn pieces_from(s: Seq<char>, c: char, i: int) -> Seq<Seq<char>>
    decreases s.len() + 1 - i,
{
    if i < 0 || i > s.len() {
        seq![]
    } else {
        let j = char_from(s, c, i);
        if j >= s.len() {
            seq![s.subrange(i, s.len() as int)]
        } else {
            proof {
                lemma_char_from(s, c, i);
            }
            seq![s.subrange(i, j)] + pieces_from(s, c, j + 1)
        }
    }
}

/// `str::split` on one character: never empty, one more piece than there are `c`s.
pub open spec fn split_on(s: Seq<char>, c: char) -> Seq<Seq<char>> {
    pieces_from(s, c, 0)
}

/// The lines of `s` from position `i` on (`str::lines`): cut after every
/// newline, which is dropped with a carriage return just before it; a last
/// line ending is optional.
pub open spec fn lines_from(s: Seq<char>, i: int) -> Seq<Seq<char>>
    decreases s.len() + 1 - i,
{
    if i < 0 || i >= s.len() {
        seq![]
    } else {
        let j = char_from(s, '\n', i);
        let raw = s.subrange(i, j);
        let line = if j < s.len() && raw.len() > 0 && raw.last() == '\r' {
            raw.drop_last()
        } else {
            raw
        };
        proof {
            lemma_char_from(s, '\n', i);
        }
        seq![line] + lines_from(s, j + 1)
    }
}

pub open spec fn lines(s: Seq<char>) -> Seq<Seq<char>> {
    lines_from(s, 0)
}

/// The position of the next `c` at or after `i`, or the length of `s`.
fn next_char(s: &Vec<char>, c: char, i: usize) -> (j: usize)
    requires
        i <= s@.len(),
    ensures
        j as int == char_from(s@, c, i as int),
{
    let mut j = i;
    while j < s.len() && s[j] != c
        invariant
            i <= j <= s@.len(),
            char_from(s@, c, i as int) == char_from(s@, c, j as int),
        decreases s.len() - j,
    {
        j = j + 1;
    }
    j
}

/// `str::split` on one character.
fn split_chars(s: &Vec<char>, c: char) -> (r: Vec<Vec<char>>)
    ensures
        r@.map_values(|p: Vec<char>| p@) == split_on(s@, c),
{
    let n = s.len();
    let mut r: Vec<Vec<char>> = Vec::new();
    let mut i: usize = 0;
    loop
        invariant_except_break
            i <= n == s@.len(),
            split_on(s@, c) == r@.map_values(|p: Vec<char>| p@) + pieces_from(s@, c, i as int),
        ensures
            r@.map_values(|p: Vec<char>| p@) == split_on(s@, c),
        decreases n - i,
    {
        let ghost before = r@.map_values(|p: Vec<char>| p@);
        let j = next_char(s, c, i);
        proof {
            lemma_char_from(s@, c, i as int);
        }
        let piece = slice_chars(s, i, j);
        r.push(piece);
        assert(r@.map_values(|p: Vec<char>| p@) =~= before.push(piece@));
        if j >= n {
            assert(pieces_from(s@, c, i as int) =~= seq![piece@]);
            assert(before + seq![piece@] =~= before.push(piece@));
            break;
        }
        assert(pieces_from(s@, c, i as int) == seq![piece@] + pieces_from(s@, c, j + 1));
        assert(before + (seq![piece@] + pieces_from(s@, c, j + 1)) =~= before.push(piece@) + pieces_from(
            s@,
            c,
            j + 1,
        ));
        i = j + 1;
    }
    r
}

// ---------------------------------------------------------------------------
// Mapping files
// ---------------------------------------------------------------------------

/// A field without surrounding whitespace and quotes (`trim().trim_matches('"')`).
pub open spec fn clean_field(f: Seq<char>) -> Seq<char> {
    strip_trailing(strip_leading(trim(f), "\""@), '"')
}

/// What one row of a mapping file maps: its second field to its third, both
/// lowercased, when the row has at least three fields and neither is empty.
pub open spec fn row_entry(line: Seq<char>) -> Option<(Seq<char>, Seq<char>)> {
    let f = split_on(line, ',');
    if f.len() >= 3 {
        let sub = lower_text(clean_field(f[1]));
        let tag = lower_text(clean_field(f[2]));
        if sub.len() > 0 && tag.len() > 0 {
            Some((sub, tag))
        } else {
            None
        }
    } else {
        None
    }
}

/// The entries of the given rows, in order.
pub open spec fn row_entries(ls: Seq<Seq<char>>) -> Seq<(Seq<char>, Seq<char>)>
    decreases ls.len(),
{
    if ls.len() == 0 {
        seq![]
    } else {
        let prev = row_entries(ls.drop_last());
        match row_entry(ls.last()) {
            Some(e) => prev.push(e),
            None => prev,
        }
    }
}

/// The entries of a mapping file: those of every line after the header.
pub open spec fn file_entries(text: Seq<char>) -> Seq<(Seq<char>, Seq<char>)> {
    let ls = lines(text);
    if ls.len() == 0 {
        seq![]
    } else {
        row_entries(ls.drop_first())
    }
}

fn clean_field_exec(f: &Vec<char>) -> (r: Vec<char>)
    ensures
        r@ == clean_field(f@),
{
    let t = trim_chars(f);
    let s = strip_leading_chars(&t, "\"");
    strip_trailing_chars(&s, '"')
}

fn lower_chars(v: &Vec<char>) -> (r: Vec<char>)
    ensures
        r@ == lower_text(v@),
{
    let s = string_of(v);
    let l = to_lowercase(s.as_str());
    chars_of(l.as_str())
}

fn row_entry_exec(line: &Vec<char>) -> (r: Option<(Vec<char>, Vec<char>)>)
    ensures
        match r {
            Some((a, b)) => row_entry(line@) == Some((a@, b@)),
            None => row_entry(line@) is None,
        },
{
    let f = split_chars(line, ',');
    let ghost fv = f@.map_values(|p: Vec<char>| p@);
    if f.len() >= 3 {
        assert(fv[1] == f@[1]@ && fv[2] == f@[2]@);
        let sub = lower_chars(&clean_field_exec(&f[1]));
        let tag = lower_chars(&clean_field_exec(&f[2]));
        if sub.len() > 0 && tag.len() > 0 {
            Some((sub, tag))
        } else {
            None
        }
    } else {
        None
    }
}

/// The entries of a mapping file.
fn file_entries_exec(text: &str) -> (r: Vec<(Vec<char>, Vec<char>)>)
    ensures
        r@.map_values(|e: (Vec<char>, Vec<char>)| (e.0@, e.1@)) == file_entries(text@),
{
    let s = chars_of(text);
    let n = s.len();
    let mut out: Vec<(Vec<char>, Vec<char>)> = Vec::new();
    let mut i: usize = 0;
    let ghost mut seen: Seq<Seq<char>> = seq![];
    let mut header = true;
    while i < n
        invariant
            i <= n == s@.len(),
            header == (seen.len() == 0),
            s@ == text@,
            lines(s@) == seen + lines_from(s@, i as int),
            out@.map_values(|e: (Vec<char>, Vec<char>)| (e.0@, e.1@)) == if seen.len() == 0 {
                seq![]
            } else {
                row_entries(seen.drop_first())
            },
        decreases n - i,
    {
        let j = next_char(&s, '\n', i);
        proof {
            lemma_char_from(s@, '\n', i as int);
        }
        let raw = slice_chars(&s, i, j);
        let line = if j < n && raw.len() > 0 && raw[raw.len() - 1] == '\r' {
            let l = slice_chars(&raw, 0, raw.len() - 1);
            assert(l@ =~= raw@.drop_last());
            l
        } else {
            raw
        };
        let ghost old_view = out@.map_values(|e: (Vec<char>, Vec<char>)| (e.0@, e.1@));
        assert(lines_from(s@, i as int) == seq![line@] + lines_from(s@, j + 1));
        assert(seen + (seq![line@] + lines_from(s@, j + 1)) =~= seen.push(line@) + lines_from(s@, j + 1));
        if !header {
            assert(seen.push(line@).drop_first() =~= seen.drop_first().push(line@));
            assert(seen.drop_first().push(line@).drop_last() =~= seen.drop_first());
            match row_entry_exec(&line) {
                Some((a, b)) => {
                    let ghost kv = (a@, b@);
                    out.push((a, b));
                    assert(out@.map_values(|e: (Vec<char>, Vec<char>)| (e.0@, e.1@)) =~= old_view.push(kv));
                },
                None => {},
            }
        } else {
            assert(seen.push(line@).drop_first() =~= Seq::<Seq<char>>::empty());
        }
        proof {
            seen = seen.push(line@);
        }
        header = false;
        if j < n {
            i = j + 1;
        } else {
            assert(lines_from(s@, j + 1) =~= lines_from(s@, n as int));
            i = n;
        }
    }
    assert(lines_from(s@, i as int) =~= Seq::<Seq<char>>::empty());
    assert(seen + Seq::<Seq<char>>::empty() =~= seen);
    out
}

// ---------------------------------------------------------------------------
// The map
// ---------------------------------------------------------------------------

/// The first entry at or after `i` for the genre `k`, or -1.
pub open spec fn entry_pos(m: Seq<(Seq<char>, Seq<char>)>, k: Seq<char>, i: int) -> int
    decreases m.len() - i,
{
    if i < 0 || i >= m.len() {
        -1
    } else if m[i].0 == k {
        i
    } else {
        entry_pos(m, k, i + 1)
    }
}

pub proof fn lemma_entry_pos(m: Seq<(Seq<char>, Seq<char>)>, k: Seq<char>, i: int)
    requires
        0 <= i,
    ensures
        entry_pos(m, k, i) == -1 || (i <= entry_pos(m, k, i) < m.len() && m[entry_pos(m, k, i)].0 == k),
    decreases m.len() - i,
{
    if i < m.len() && m[i].0 != k {
        lemma_entry_pos(m, k, i + 1);
    }
}

/// What the map says of the genre `k`.
pub open spec fn map_get(m: Seq<(Seq<char>, Seq<char>)>, k: Seq<char>) -> Option<Seq<char>> {
    let p = entry_pos(m, k, 0);
    if p >= 0 {
        Some(m[p].1)
    } else {
        None
    }
}

/// `HashMap::insert`: `k` now maps to `v`.
pub open spec fn map_put(m: Seq<(Seq<char>, Seq<char>)>, k: Seq<char>, v: Seq<char>) -> Seq<
    (Seq<char>, Seq<char>),
> {
    let p = entry_pos(m, k, 0);
    if p >= 0 {
        m.update(p, (k, v))
    } else {
        m.push((k, v))
    }
}

/// `entry(k).or_insert(v)`: `k` maps to `v` unless it already maps to something.
pub open spec fn map_put_absent(m: Seq<(Seq<char>, Seq<char>)>, k: Seq<char>, v: Seq<char>) -> Seq<
    (Seq<char>, Seq<char>),
> {
    if entry_pos(m, k, 0) >= 0 {
        m
    } else {
        m.push((k, v))
    }
}

/// Every entry put in order, later ones replacing earlier ones.
pub open spec fn put_all(m: Seq<(Seq<char>, Seq<char>)>, es: Seq<(Seq<char>, Seq<char>)>) -> Seq<
    (Seq<char>, Seq<char>),
>
    decreases es.len(),
{
    if es.len() == 0 {
        m
    } else {
        map_put(put_all(m, es.drop_last()), es.last().0, es.last().1)
    }
}

/// Every entry put in order where its genre is not mapped yet.
pub open spec fn put_absent_all(m: Seq<(Seq<char>, Seq<char>)>, es: Seq<(Seq<char>, Seq<char>)>) -> Seq<
    (Seq<char>, Seq<char>),
>
    decreases es.len(),
{
    if es.len() == 0 {
        m
    } else {
        map_put_absent(put_absent_all(m, es.drop_last()), es.last().0, es.last().1)
    }
}

pub const SYNONYM_COUNT: usize = 39;

/// The built-in synonyms: entry `i` maps a genre spelling to its canonical name.
pub open spec fn synonym_at(i: int) -> (Seq<char>, Seq<char>) {
    if i == 0 { ("funk / soul"@, "r&b"@) }
    else if i == 1 { ("funk/soul"@, "r&b"@) }
    else if i == 2 { ("contemporary r&b"@, "r&b"@) }
    else if i == 3 { ("rnb/swing"@, "r&b"@) }
    else if i == 4 { ("rhythm & blues"@, "r&b"@) }
    else if i == 5 { ("rhythm and blues"@, "r&b"@) }
    else if i == 6 { ("rnb"@, "r&b"@) }
    else if i == 7 { ("r&b"@, "r&b"@) }
    else if i == 8 { ("p.funk"@, "funk"@) }
    else if i == 9 { ("bayou funk"@, "funk"@) }
    else if i == 10 { ("neo soul"@, "soul"@) }
    else if i == 11 { ("euro disco"@, "disco"@) }
    else if i == 12 { ("italo-disco"@, "disco"@) }
    else if i == 13 { ("hi-nrg"@, "disco"@) }
    else if i == 14 { ("hi nrg"@, "disco"@) }
    else if i == 15 { ("synthpop"@, "synth-pop"@) }
    else if i == 16 { ("electropop"@, "synth-pop"@) }
    else if i == 17 { ("no wave"@, "new wave"@) }
    else if i == 18 { ("acid house"@, "house"@) }
    else if i == 19 { ("electro funk"@, "electro"@) }
    else if i == 20 { ("eurodance"@, "dance-pop"@) }
    else if i == 21 { ("hip-hop"@, "hip hop"@) }
    else if i == 22 { ("hiphop"@, "hip hop"@) }
    else if i == 23 { ("pop rap"@, "hip hop"@) }
    else if i == 24 { ("gangsta"@, "hip hop"@) }
    else if i == 25 { ("classic rock"@, "rock"@) }
    else if i == 26 { ("pop rock"@, "rock"@) }
    else if i == 27 { ("hard rock"@, "rock"@) }
    else if i == 28 { ("arena rock"@, "rock"@) }
    else if i == 29 { ("rock & roll"@, "rock"@) }
    else if i == 30 { ("indie rock"@, "alternative rock"@) }
    else if i == 31 { ("classic pop"@, "pop"@) }
    else if i == 32 { ("adult contemporary"@, "pop"@) }
    else if i == 33 { ("latin pop"@, "latin"@) }
    else if i == 34 { ("latin"@, "latin"@) }
    else if i == 35 { ("modern jazz"@, "jazz"@) }
    else if i == 36 { ("dub"@, "reggae"@) }
    else if i == 37 { ("ska"@, "reggae"@) }
    else { ("punk rock"@, "punk"@) }
}

fn synonym_entry(i: usize) -> (r: (&'static str, &'static str))
    requires
        i < SYNONYM_COUNT,
    ensures
        (r.0@, r.1@) == synonym_at(i as int),
{
    match i {
        0 => ("funk / soul", "r&b"),
        1 => ("funk/soul", "r&b"),
        2 => ("contemporary r&b", "r&b"),
        3 => ("rnb/swing", "r&b"),
        4 => ("rhythm & blues", "r&b"),
        5 => ("rhythm and blues", "r&b"),
        6 => ("rnb", "r&b"),
        7 => ("r&b", "r&b"),
        8 => ("p.funk", "funk"),
        9 => ("bayou funk", "funk"),
        10 => ("neo soul", "soul"),
        11 => ("euro disco", "disco"),
        12 => ("italo-disco", "disco"),
        13 => ("hi-nrg", "disco"),
        14 => ("hi nrg", "disco"),
        15 => ("synthpop", "synth-pop"),
        16 => ("electropop", "synth-pop"),
        17 => ("no wave", "new wave"),
        18 => ("acid house", "house"),
        19 => ("electro funk", "electro"),
        20 => ("eurodance", "dance-pop"),
        21 => ("hip-hop", "hip hop"),
        22 => ("hiphop", "hip hop"),
        23 => ("pop rap", "hip hop"),
        24 => ("gangsta", "hip hop"),
        25 => ("classic rock", "rock"),
        26 => ("pop rock", "rock"),
        27 => ("hard rock", "rock"),
        28 => ("arena rock", "rock"),
        29 => ("rock & roll", "rock"),
        30 => ("indie rock", "alternative rock"),
        31 => ("classic pop", "pop"),
        32 => ("adult contemporary", "pop"),
        33 => ("latin pop", "latin"),
        34 => ("latin", "latin"),
        35 => ("modern jazz", "jazz"),
        36 => ("dub", "reggae"),
        37 => ("ska", "reggae"),
        _ => ("punk rock", "punk"),
    }
}

/// The built-in synonyms, in order.
pub open spec fn builtin_synonyms() -> Seq<(Seq<char>, Seq<char>)> {
    Seq::new(SYNONYM_COUNT as nat, |i: int| synonym_at(i))
}

/// The map the built-in synonyms make on their own.
pub open spec fn builtin_map() -> Seq<(Seq<char>, Seq<char>)> {
    put_absent_all(seq![], builtin_synonyms())
}

/// The map of the two mapping files (Discogs, then Last.fm), completed by the
/// built-in synonyms where the files say nothing.
pub open spec fn genre_map_of(discogs_csv: Seq<char>, lastfm_csv: Seq<char>) -> Seq<(Seq<char>, Seq<char>)> {
    put_absent_all(put_all(put_all(seq![], file_entries(discogs_csv)), file_entries(lastfm_csv)), builtin_synonyms())
}

// ---------------------------------------------------------------------------
// Keys are lowercase
// ---------------------------------------------------------------------------

/// An ASCII key with no capital letter.
pub open spec fn lowercase_key(k: Seq<char>) -> bool {
    all_ascii(k) && ascii_lower_seq(k) == k
}

/// Every key of the map is an ASCII key with no capital letter.
pub open spec fn keys_lowercase(m: Seq<(Seq<char>, Seq<char>)>) -> bool {
    forall|i: int| 0 <= i < m.len() ==> lowercase_key(#[trigger] m[i].0)
}

proof fn lemma_synonym_key_lowercase(i: int)
    requires
        0 <= i < SYNONYM_COUNT,
    ensures
        lowercase_key(synonym_at(i).0),
{
    if i == 0 {
        reveal_strlit("funk / soul");
        assert(ascii_lower_seq(synonym_at(i).0) =~= synonym_at(i).0);
    } else if i == 1 {
        reveal_strlit("funk/soul");
        assert(ascii_lower_seq(synonym_at(i).0) =~= synonym_at(i).0);
    } else if i == 2 {
        reveal_strlit("contemporary r&b");
        assert(ascii_lower_seq(synonym_at(i).0) =~= synonym_at(i).0);
    } else if i == 3 {
        reveal_strlit("rnb/swing");
        assert(ascii_lower_seq(synonym_at(i).0) =~= synonym_at(i).0);
    } else if i == 4 {
        reveal_strlit("rhythm & blues");
        assert(ascii_lower_seq(synonym_at(i).0) =~= synonym_at(i).0);
    } else if i == 5 {
        reveal_strlit("rhythm and blues");
        assert(ascii_lower_seq(synonym_at(i).0) =~= synonym_at(i).0);
    } else if i == 6 {
        reveal_strlit("rnb");
        assert(ascii_lower_seq(synonym_at(i).0) =~= synonym_at(i).0);
    } else if i == 7 {
        reveal_strlit("r&b");
        assert(ascii_lower_seq(synonym_at(i).0) =~= synonym_at(i).0);
    } else if i == 8 {
        reveal_strlit("p.funk");
        assert(ascii_lower_seq(synonym_at(i).0) =~= synonym_at(i).0);
    } else if i == 9 {
        reveal_strlit("bayou funk");
        assert(ascii_lower_seq(synonym_at(i).0) =~= synonym_at(i).0);
    } else if i == 10 {
        reveal_strlit("neo soul");
        assert(ascii_lower_seq(synonym_at(i).0) =~= synonym_at(i).0);
    } else if i == 11 {
        reveal_strlit("euro disco");
        assert(ascii_lower_seq(synonym_at(i).0) =~= synonym_at(i).0);
    } else if i == 12 {
        reveal_strlit("italo-disco");
        assert(ascii_lower_seq(synonym_at(i).0) =~= synonym_at(i).0);
    } else if i == 13 {
        reveal_strlit("hi-nrg");
        assert(ascii_lower_seq(synonym_at(i).0) =~= synonym_at(i).0);
    } else if i == 14 {
        reveal_strlit("hi nrg");
        assert(ascii_lower_seq(synonym_at(i).0) =~= synonym_at(i).0);
    } else if i == 15 {
        reveal_strlit("synthpop");
        assert(ascii_lower_seq(synonym_at(i).0) =~= synonym_at(i).0);
    } else if i == 16 {
        reveal_strlit("electropop");
        assert(ascii_lower_seq(synonym_at(i).0) =~= synonym_at(i).0);
    } else if i == 17 {
        reveal_strlit("no wave");
        assert(ascii_lower_seq(synonym_at(i).0) =~= synonym_at(i).0);
    } else if i == 18 {
        reveal_strlit("acid house");
        assert(ascii_lower_seq(synonym_at(i).0) =~= synonym_at(i).0);
    } else if i == 19 {
        reveal_strlit("electro funk");
        assert(ascii_lower_seq(synonym_at(i).0) =~= synonym_at(i).0);
    } else if i == 20 {
        reveal_strlit("eurodance");
        assert(ascii_lower_seq(synonym_at(i).0) =~= synonym_at(i).0);
    } else if i == 21 {
        reveal_strlit("hip-hop");
        assert(ascii_lower_seq(synonym_at(i).0) =~= synonym_at(i).0);
    } else if i == 22 {
        reveal_strlit("hiphop");
        assert(ascii_lower_seq(synonym_at(i).0) =~= synonym_at(i).0);
    } else if i == 23 {
        reveal_strlit("pop rap");
        assert(ascii_lower_seq(synonym_at(i).0) =~= synonym_at(i).0);
    } else if i == 24 {
        reveal_strlit("gangsta");
        assert(ascii_lower_seq(synonym_at(i).0) =~= synonym_at(i).0);
    } else if i == 25 {
        reveal_strlit("classic rock");
        assert(ascii_lower_seq(synonym_at(i).0) =~= synonym_at(i).0);
    } else if i == 26 {
        reveal_strlit("pop rock");
        assert(ascii_lower_seq(synonym_at(i).0) =~= synonym_at(i).0);
    } else if i == 27 {
        reveal_strlit("hard rock");
        assert(ascii_lower_seq(synonym_at(i).0) =~= synonym_at(i).0);
    } else if i == 28 {
        reveal_strlit("arena rock");
        assert(ascii_lower_seq(synonym_at(i).0) =~= synonym_at(i).0);
    } else if i == 29 {
        reveal_strlit("rock & roll");
        assert(ascii_lower_seq(synonym_at(i).0) =~= synonym_at(i).0);
    } else if i == 30 {
        reveal_strlit("indie rock");
        assert(ascii_lower_seq(synonym_at(i).0) =~= synonym_at(i).0);
    } else if i == 31 {
        reveal_strlit("classic pop");
        assert(ascii_lower_seq(synonym_at(i).0) =~= synonym_at(i).0);
    } else if i == 32 {
        reveal_strlit("adult contemporary");
        assert(ascii_lower_seq(synonym_at(i).0) =~= synonym_at(i).0);
    } else if i == 33 {
        reveal_strlit("latin pop");
        assert(ascii_lower_seq(synonym_at(i).0) =~= synonym_at(i).0);
    } else if i == 34 {
        reveal_strlit("latin");
        assert(ascii_lower_seq(synonym_at(i).0) =~= synonym_at(i).0);
    } else if i == 35 {
        reveal_strlit("modern jazz");
        assert(ascii_lower_seq(synonym_at(i).0) =~= synonym_at(i).0);
    } else if i == 36 {
        reveal_strlit("dub");
        assert(ascii_lower_seq(synonym_at(i).0) =~= synonym_at(i).0);
    } else if i == 37 {
        reveal_strlit("ska");
        assert(ascii_lower_seq(synonym_at(i).0) =~= synonym_at(i).0);
    } else {
        reveal_strlit("punk rock");
        assert(ascii_lower_seq(synonym_at(i).0) =~= synonym_at(i).0);
    }
}

proof fn lemma_put_keeps_lowercase(m: Seq<(Seq<char>, Seq<char>)>, k: Seq<char>, v: Seq<char>)
    requires
        keys_lowercase(m),
        lowercase_key(k),
    ensures
        keys_lowercase(map_put(m, k, v)),
        keys_lowercase(map_put_absent(m, k, v)),
{
    lemma_entry_pos(m, k, 0);
    let p = map_put(m, k, v);
    assert forall|i: int| 0 <= i < p.len() implies lowercase_key(#[trigger] p[i].0) by {
        if i < m.len() && p[i].0 != k {
            assert(p[i] == m[i]);
        }
    }
    let q = map_put_absent(m, k, v);
    assert forall|i: int| 0 <= i < q.len() implies lowercase_key(#[trigger] q[i].0) by {
        if i < m.len() {
            assert(q[i] == m[i]);
        }
    }
}

proof fn lemma_put_all_lowercase(m: Seq<(Seq<char>, Seq<char>)>, es: Seq<(Seq<char>, Seq<char>)>)
    requires
        keys_lowercase(m),
        keys_lowercase(es),
    ensures
        keys_lowercase(put_all(m, es)),
        keys_lowercase(put_absent_all(m, es)),
    decreases es.len(),
{
    if es.len() > 0 {
        let front = es.drop_last();
        assert forall|i: int| 0 <= i < front.len() implies lowercase_key(#[trigger] front[i].0) by {
            assert(front[i] == es[i]);
        }
        lemma_put_all_lowercase(m, front);
        assert(lowercase_key(es[es.len() - 1].0));
        lemma_put_keeps_lowercase(put_all(m, front), es.last().0, es.last().1);
        lemma_put_keeps_lowercase(put_absent_all(m, front), es.last().0, es.last().1);
    }
}

proof fn lemma_pieces_ascii(s: Seq<char>, c: char, i: int)
    requires
        all_ascii(s),
    ensures
        forall|k: int| 0 <= k < pieces_from(s, c, i).len() ==> all_ascii(#[trigger] pieces_from(s, c, i)[k]),
    decreases s.len() + 1 - i,
{
    if 0 <= i <= s.len() {
        let j = char_from(s, c, i);
        lemma_char_from(s, c, i);
        let ps = pieces_from(s, c, i);
        if j >= s.len() {
            lemma_ascii_subrange(s, i, s.len() as int);
            assert(ps == seq![s.subrange(i, s.len() as int)]);
        } else {
            lemma_ascii_subrange(s, i, j);
            lemma_pieces_ascii(s, c, j + 1);
            assert(ps == seq![s.subrange(i, j)] + pieces_from(s, c, j + 1));
            assert forall|k: int| 0 <= k < ps.len() implies all_ascii(#[trigger] ps[k]) by {
                if k > 0 {
                    assert(ps[k] == pieces_from(s, c, j + 1)[k - 1]);
                }
            }
        }
    }
}

proof fn lemma_lines_ascii(s: Seq<char>, i: int)
    requires
        all_ascii(s),
    ensures
        forall|k: int| 0 <= k < lines_from(s, i).len() ==> all_ascii(#[trigger] lines_from(s, i)[k]),
    decreases s.len() + 1 - i,
{
    if 0 <= i < s.len() {
        let j = char_from(s, '\n', i);
        lemma_char_from(s, '\n', i);
        let raw = s.subrange(i, j);
        lemma_ascii_subrange(s, i, j);
        if raw.len() > 0 {
            lemma_ascii_subrange(raw, 0, raw.len() - 1);
            assert(raw.drop_last() == raw.subrange(0, raw.len() - 1));
        }
        lemma_lines_ascii(s, j + 1);
        let ls = lines_from(s, i);
        assert forall|k: int| 0 <= k < ls.len() implies all_ascii(#[trigger] ls[k]) by {
            if k > 0 {
                assert(ls[k] == lines_from(s, j + 1)[k - 1]);
            }
        }
    }
}

proof fn lemma_row_entry_lowercase(line: Seq<char>)
    requires
        all_ascii(line),
    ensures
        row_entry(line) matches Some((k, _)) ==> lowercase_key(k),
{
    let f = split_on(line, ',');
    lemma_pieces_ascii(line, ',', 0);
    if f.len() >= 3 {
        let x = f[1];
        assert(all_ascii(x));
        lemma_ascii_trimmed(x, seq![], ' ');
        lemma_ascii_trimmed(trim_start(x), seq![], ' ');
        let t = trim(x);
        lemma_ascii_trimmed(t, "\""@, '"');
        lemma_ascii_trimmed(strip_leading(t, "\""@), seq![], '"');
        let cf = clean_field(x);
        assert(all_ascii(cf));
        lemma_ascii_lower_twice(cf);
    }
}

proof fn lemma_row_entries_lowercase(ls: Seq<Seq<char>>)
    requires
        forall|k: int| 0 <= k < ls.len() ==> all_ascii(#[trigger] ls[k]),
    ensures
        keys_lowercase(row_entries(ls)),
    decreases ls.len(),
{
    if ls.len() > 0 {
        let front = ls.drop_last();
        assert forall|k: int| 0 <= k < front.len() implies all_ascii(#[trigger] front[k]) by {
            assert(front[k] == ls[k]);
        }
        lemma_row_entries_lowercase(front);
        assert(all_ascii(ls[ls.len() - 1]));
        lemma_row_entry_lowercase(ls.last());
    }
}

proof fn lemma_file_entries_lowercase(text: Seq<char>)
    requires
        all_ascii(text),
    ensures
        keys_lowercase(file_entries(text)),
{
    lemma_lines_ascii(text, 0);
    let ls = lines(text);
    if ls.len() > 0 {
        let rest = ls.drop_first();
        assert forall|k: int| 0 <= k < rest.len() implies all_ascii(#[trigger] rest[k]) by {
            assert(rest[k] == ls[k + 1]);
        }
        lemma_row_entries_lowercase(rest);
    }
}

/// Every key of the map of ASCII mapping files, and of the built-in
/// synonyms, is lowercase: a lowercased genre is what looks it up.
pub proof fn law_map_keys_lowercase(discogs_csv: Seq<char>, lastfm_csv: Seq<char>)
    requires
        all_ascii(discogs_csv),
        all_ascii(lastfm_csv),
    ensures
        keys_lowercase(genre_map_of(discogs_csv, lastfm_csv)),
        keys_lowercase(builtin_map()),
{
    lemma_lines_ascii(discogs_csv, 0);
    lemma_lines_ascii(lastfm_csv, 0);
    lemma_file_entries_lowercase(discogs_csv);
    lemma_file_entries_lowercase(lastfm_csv);
    let empty = Seq::<(Seq<char>, Seq<char>)>::empty();
    lemma_put_all_lowercase(empty, file_entries(discogs_csv));
    lemma_put_all_lowercase(put_all(empty, file_entries(discogs_csv)), file_entries(lastfm_csv));
    let syn = builtin_synonyms();
    assert forall|i: int| 0 <= i < syn.len() implies lowercase_key(#[trigger] syn[i].0) by {
        lemma_synonym_key_lowercase(i);
    }
    lemma_put_all_lowercase(put_all(put_all(empty, file_entries(discogs_csv)), file_entries(lastfm_csv)), syn);
    lemma_put_all_lowercase(empty, syn);
}

/// Without mapping files (empty texts, or files holding only their header
/// line), the map is the built-in one.
pub proof fn law_no_files_builtin_map(discogs_csv: Seq<char>, lastfm_csv: Seq<char>)
    requires
        lines(discogs_csv).len() <= 1,
        lines(lastfm_csv).len() <= 1,
    ensures
        genre_map_of(discogs_csv, lastfm_csv) == builtin_map(),
{
    assert(file_entries(discogs_csv) =~= seq![]) by {
        if lines(discogs_csv).len() == 1 {
            assert(lines(discogs_csv).drop_first() =~= seq![]);
        }
    }
    assert(file_entries(lastfm_csv) =~= seq![]) by {
        if lines(lastfm_csv).len() == 1 {
            assert(lines(lastfm_csv).drop_first() =~= seq![]);
        }
    }
}

/// The canonical name of a (lowercased) genre: what the map sends it to, or itself.
pub open spec fn normalize_in(m: Seq<(Seq<char>, Seq<char>)>, g: Seq<char>) -> Seq<char> {
    match map_get(m, g) {
        Some(v) => v,
        None => g,
    }
}

// ---------------------------------------------------------------------------
// Which entry a genre gets
// ---------------------------------------------------------------------------

/// The value of the last entry for `k`.
pub open spec fn last_value(es: Seq<(Seq<char>, Seq<char>)>, k: Seq<char>) -> Option<Seq<char>>
    decreases es.len(),
{
    if es.len() == 0 {
        None
    } else if es.last().0 == k {
        Some(es.last().1)
    } else {
        last_value(es.drop_last(), k)
    }
}

/// The value of the first entry for `k`.
pub open spec fn first_value(es: Seq<(Seq<char>, Seq<char>)>, k: Seq<char>) -> Option<Seq<char>>
    decreases es.len(),
{
    if es.len() == 0 {
        None
    } else {
        match first_value(es.drop_last(), k) {
            Some(v) => Some(v),
            None => if es.last().0 == k {
                Some(es.last().1)
            } else {
                None
            },
        }
    }
}

proof fn lemma_entry_pos_first(m: Seq<(Seq<char>, Seq<char>)>, k: Seq<char>, i: int)
    requires
        0 <= i,
    ensures
        entry_pos(m, k, i) == -1 ==> forall|j: int| i <= j < m.len() ==> m[j].0 != k,
        entry_pos(m, k, i) != -1 ==> forall|j: int| i <= j < entry_pos(m, k, i) ==> m[j].0 != k,
    decreases m.len() - i,
{
    if i < m.len() && m[i].0 != k {
        lemma_entry_pos_first(m, k, i + 1);
    }
}

/// Two maps whose entries carry the same genres, in the same places up to the
/// first entry for `k`, find `k` at the same place.
proof fn lemma_entry_pos_same(a: Seq<(Seq<char>, Seq<char>)>, b: Seq<(Seq<char>, Seq<char>)>, k: Seq<char>)
    requires
        a.len() <= b.len(),
        forall|j: int| 0 <= j < a.len() ==> (a[j].0 == k <==> b[j].0 == k),
        a.len() < b.len() ==> forall|j: int| a.len() <= j < b.len() ==> b[j].0 != k,
    ensures
        entry_pos(a, k, 0) == entry_pos(b, k, 0),
{
    lemma_entry_pos(a, k, 0);
    lemma_entry_pos(b, k, 0);
    lemma_entry_pos_first(a, k, 0);
    lemma_entry_pos_first(b, k, 0);
    let pa = entry_pos(a, k, 0);
    let pb = entry_pos(b, k, 0);
    if pa >= 0 && pb >= 0 {
        if pa < pb {
            assert(b[pa].0 == k);
        } else if pb < pa {
            assert(a[pb].0 == k);
        }
    } else if pa >= 0 {
        assert(b[pa].0 == k);
    } else if pb >= 0 {
        if pb < a.len() {
            assert(a[pb].0 == k);
        }
    }
}

proof fn lemma_get_put(m: Seq<(Seq<char>, Seq<char>)>, k2: Seq<char>, v: Seq<char>, k: Seq<char>)
    ensures
        map_get(map_put(m, k2, v), k) == if k == k2 {
            Some(v)
        } else {
            map_get(m, k)
        },
{
    lemma_entry_pos(m, k2, 0);
    lemma_entry_pos_first(m, k2, 0);
    let p = entry_pos(m, k2, 0);
    let t = map_put(m, k2, v);
    if p >= 0 {
        if k == k2 {
            lemma_entry_pos_same(m, t, k);
        } else {
            lemma_entry_pos_same(m, t, k);
            lemma_entry_pos(m, k, 0);
        }
    } else {
        if k == k2 {
            lemma_entry_pos(t, k, 0);
            lemma_entry_pos_first(t, k, 0);
            assert(t[m.len() as int].0 == k);
            assert(entry_pos(t, k, 0) == m.len());
        } else {
            lemma_entry_pos_same(m, t, k);
            lemma_entry_pos(m, k, 0);
        }
    }
}

proof fn lemma_get_put_absent(m: Seq<(Seq<char>, Seq<char>)>, k2: Seq<char>, v: Seq<char>, k: Seq<char>)
    ensures
        map_get(map_put_absent(m, k2, v), k) == match map_get(m, k) {
            Some(x) => Some(x),
            None => if k == k2 {
                Some(v)
            } else {
                None
            },
        },
{
    lemma_entry_pos(m, k2, 0);
    lemma_entry_pos(m, k, 0);
    if entry_pos(m, k2, 0) < 0 {
        let t = m.push((k2, v));
        lemma_entry_pos_first(m, k, 0);
        if k == k2 {
            lemma_entry_pos(t, k, 0);
            lemma_entry_pos_first(t, k, 0);
            assert(t[m.len() as int].0 == k);
            assert(entry_pos(t, k, 0) == m.len());
        } else {
            lemma_entry_pos_same(m, t, k);
        }
    }
}

proof fn lemma_get_put_all(m: Seq<(Seq<char>, Seq<char>)>, es: Seq<(Seq<char>, Seq<char>)>, k: Seq<char>)
    ensures
        map_get(put_all(m, es), k) == match last_value(es, k) {
            Some(v) => Some(v),
            None => map_get(m, k),
        },
    decreases es.len(),
{
    if es.len() > 0 {
        lemma_get_put_all(m, es.drop_last(), k);
        lemma_get_put(put_all(m, es.drop_last()), es.last().0, es.last().1, k);
    }
}

proof fn lemma_get_put_absent_all(m: Seq<(Seq<char>, Seq<char>)>, es: Seq<(Seq<char>, Seq<char>)>, k: Seq<char>)
    ensures
        map_get(put_absent_all(m, es), k) == match map_get(m, k) {
            Some(x) => Some(x),
            None => first_value(es, k),
        },
    decreases es.len(),
{
    if es.len() > 0 {
        lemma_get_put_absent_all(m, es.drop_last(), k);
        lemma_get_put_absent(put_absent_all(m, es.drop_last()), es.last().0, es.last().1, k);
    }
}

/// What a genre maps to: the last row of the Last.fm file that maps it, else
/// the last row of the Discogs file that maps it, else its built-in synonym.
/// The files always come before the built-in synonyms.
pub proof fn law_mapping_files_come_first(discogs_csv: Seq<char>, lastfm_csv: Seq<char>, k: Seq<char>)
    ensures
        map_get(genre_map_of(discogs_csv, lastfm_csv), k) == match last_value(file_entries(lastfm_csv), k) {
            Some(v) => Some(v),
            None => match last_value(file_entries(discogs_csv), k) {
                Some(v) => Some(v),
                None => first_value(builtin_synonyms(), k),
            },
        },
{
    let m1 = put_all(seq![], file_entries(discogs_csv));
    let m2 = put_all(m1, file_entries(lastfm_csv));
    lemma_get_put_all(seq![], file_entries(discogs_csv), k);
    lemma_get_put_all(m1, file_entries(lastfm_csv), k);
    lemma_get_put_absent_all(m2, builtin_synonyms(), k);
    assert(map_get(seq![], k) is None);
}

/// Genre spellings and what they stand for.
#[derive(Debug)]
pub struct GenreMap {
    pub entries: Vec<(Vec<char>, Vec<char>)>,
}

impl View for GenreMap {
    type V = Seq<(Seq<char>, Seq<char>)>;

    /// The entries, in the order their genres were first put.
    open spec fn view(&self) -> Seq<(Seq<char>, Seq<char>)> {
        self.entries@.map_values(|e: (Vec<char>, Vec<char>)| (e.0@, e.1@))
    }
}

impl GenreMap {
    fn empty() -> (m: Self)
        ensures
            m@ == Seq::<(Seq<char>, Seq<char>)>::empty(),
    {
        let m = GenreMap { entries: Vec::new() };
        assert(m@ =~= Seq::<(Seq<char>, Seq<char>)>::empty());
        m
    }

    fn find(&self, k: &Vec<char>) -> (r: Option<usize>)
        ensures
            match r {
                Some(p) => p as int == entry_pos(self@, k@, 0) && p < self.entries@.len(),
                None => entry_pos(self@, k@, 0) == -1,
            },
    {
        let mut i: usize = 0;
        while i < self.entries.len()
            invariant
                i <= self.entries@.len(),
                entry_pos(self@, k@, 0) == entry_pos(self@, k@, i as int),
            decreases self.entries.len() - i,
        {
            assert(self@[i as int].0 == self.entries@[i as int].0@);
            if chars_eq(&self.entries[i].0, k) {
                return Some(i);
            }
            i = i + 1;
        }
        None
    }

    fn put(&mut self, k: Vec<char>, v: Vec<char>)
        ensures
            final(self)@ == map_put(old(self)@, k@, v@),
    {
        let ghost m = self@;
        let ghost kv = (k@, v@);
        match self.find(&k) {
            Some(p) => {
                self.entries.set(p, (k, v));
                assert(self@ =~= m.update(p as int, kv));
            },
            None => {
                self.entries.push((k, v));
                assert(self@ =~= m.push(kv));
            },
        }
    }

    fn put_absent(&mut self, k: Vec<char>, v: Vec<char>)
        ensures
            final(self)@ == map_put_absent(old(self)@, k@, v@),
    {
        let ghost m = self@;
        let ghost kv = (k@, v@);
        match self.find(&k) {
            Some(_) => {},
            None => {
                self.entries.push((k, v));
                assert(self@ =~= m.push(kv));
            },
        }
    }

    fn put_each(&mut self, es: Vec<(Vec<char>, Vec<char>)>)
        ensures
            final(self)@ == put_all(old(self)@, es@.map_values(|e: (Vec<char>, Vec<char>)| (e.0@, e.1@))),
    {
        let ghost ev = es@.map_values(|e: (Vec<char>, Vec<char>)| (e.0@, e.1@));
        let ghost m0 = self@;
        for i in 0..es.len()
            invariant
                ev == es@.map_values(|e: (Vec<char>, Vec<char>)| (e.0@, e.1@)),
                self@ == put_all(m0, ev.take(i as int)),
        {
            assert(ev.take(i + 1).drop_last() =~= ev.take(i as int));
            let k = es[i].0.clone();
            let v = es[i].1.clone();
            assert(k@ == ev[i as int].0 && v@ == ev[i as int].1);
            self.put(k, v);
        }
        assert(ev.take(es@.len() as int) =~= ev);
    }

    fn put_builtin(&mut self)
        ensures
            final(self)@ == put_absent_all(old(self)@, builtin_synonyms()),
    {
        let ghost es = builtin_synonyms();
        let ghost m0 = self@;
        for i in 0..SYNONYM_COUNT
            invariant
                es == builtin_synonyms(),
                self@ == put_absent_all(m0, es.take(i as int)),
        {
            assert(es.take(i + 1).drop_last() =~= es.take(i as int));
            let (a, b) = synonym_entry(i);
            let k = chars_of(a);
            let v = chars_of(b);
            self.put_absent(k, v);
        }
        assert(es.take(SYNONYM_COUNT as int) =~= es);
    }

    /// The map of the built-in synonyms alone.
    pub fn builtin() -> (m: Self)
        ensures
            m@ == builtin_map(),
    {
        let mut m = GenreMap::empty();
        m.put_builtin();
        m
    }

    /// What the map sends `genre` to, if anything.
    pub fn get(&self, genre: &str) -> (r: Option<String>)
        ensures
            opt_chars(r) == map_get(self@, genre@),
    {
        let k = chars_of(genre);
        proof {
            lemma_entry_pos(self@, k@, 0);
        }
        match self.find(&k) {
            Some(p) => Some(string_of(&self.entries[p].1)),
            None => None,
        }
    }

    /// The canonical name of `g` as characters.
    pub fn normalize_chars(&self, g: &Vec<char>) -> (r: Vec<char>)
        ensures
            r@ == normalize_in(self@, g@),
    {
        proof {
            lemma_entry_pos(self@, g@, 0);
        }
        match self.find(g) {
            Some(p) => self.entries[p].1.clone(),
            None => g.clone(),
        }
    }
}

/// Builds the synonym map from the two mapping files (header line first;
/// rows of `genre,subgenre,mb_tag,...`): each row maps its subgenre to its
/// first MusicBrainz tag, later rows winning, and the built-in synonyms
/// fill in the genres the files do not map.
pub fn build_genre_map(discogs_csv: &str, lastfm_csv: &str) -> (m: GenreMap)
    ensures
        m@ == genre_map_of(discogs_csv@, lastfm_csv@),
{
    let mut m = GenreMap::empty();
    m.put_each(file_entries_exec(discogs_csv));
    m.put_each(file_entries_exec(lastfm_csv));
    m.put_builtin();
    m
}

/// The canonical name of a lowercased genre, by the map.
pub fn normalize_genre(map: &GenreMap, genre: &str) -> (r: String)
    ensures
        r@ == normalize_in(map@, genre@),
{
    let g = chars_of(genre);
    string_of(&map.normalize_chars(&g))
}

} // verus!
