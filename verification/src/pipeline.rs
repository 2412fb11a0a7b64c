//! Per-track decisions of the tagging run: remixes, fake folders, names taken
//! from file names, when a track is skipped and which MBID is used.

use vstd::prelude::*;
use crate::models::{TagWriteStatus, TrackMetadata, VoteResult};
use crate::paths::{extension, extension_exec, file_stem, file_stem_exec, has_segment, has_segment_exec};
use crate::text::{alphabetic, before_sub, before_sub_chars, chars_eq, chars_of, contains, contains_chars, find, find_chars, is_alphabetic, lemma_find_from, lemma_rfind_to, lowercase, rfind, rfind_chars, slice_chars, split_whitespace, starts_with, strip_leading, strip_leading_chars, strip_trailing, strip_trailing_chars, string_of, to_lowercase, trim, trim_chars, utf8_len, utf8_len_prefix, char_count_at, char_count_at_bytes, words, match_at};

verus! {

/// What processing one file came to.
#[derive(Debug)]
pub struct ProcessResult {
    pub path: String,
    pub status: TagWriteStatus,
    pub vote: Option<VoteResult>,
}

pub const REMIX_PATTERN_COUNT: usize = 27;

/// Title and file-name words that mark a remix, edit or other non-original version.
pub open spec fn remix_pattern_at(i: usize) -> Seq<char> {
    match i {
        0 => "remix"@,
        1 => "remixed"@,
        2 => "re-edit"@,
        3 => "re-mix"@,
        4 => "re-situated"@,
        5 => "re-version"@,
        6 => "club mix"@,
        7 => "extended mix"@,
        8 => "dub mix"@,
        9 => "radio mix"@,
        10 => "radio edit"@,
        11 => "12\" mix"@,
        12 => "7\" mix"@,
        13 => "dance mix"@,
        14 => "party mix"@,
        15 => "instrumental"@,
        16 => "acappella"@,
        17 => "a cappella"@,
        18 => "mashup"@,
        19 => "mash-up"@,
        20 => "bootleg"@,
        21 => "medley"@,
        22 => "megamix"@,
        23 => "mega mix"@,
        24 => "nu disco mix"@,
        25 => "reconstruction"@,
        26 => "rework"@,
        _ => Seq::empty(),
    }
}

fn remix_pattern_entry(i: usize) -> (r: &'static str)
    requires
        i < REMIX_PATTERN_COUNT,
    ensures
        r@ == remix_pattern_at(i),
{
    match i {
        0 => "remix",
        1 => "remixed",
        2 => "re-edit",
        3 => "re-mix",
        4 => "re-situated",
        5 => "re-version",
        6 => "club mix",
        7 => "extended mix",
        8 => "dub mix",
        9 => "radio mix",
        10 => "radio edit",
        11 => "12\" mix",
        12 => "7\" mix",
        13 => "dance mix",
        14 => "party mix",
        15 => "instrumental",
        16 => "acappella",
        17 => "a cappella",
        18 => "mashup",
        19 => "mash-up",
        20 => "bootleg",
        21 => "medley",
        22 => "megamix",
        23 => "mega mix",
        24 => "nu disco mix",
        25 => "reconstruction",
        _ => "rework",
    }
}

/// `t` contains one of the `remix_pattern` entries.
pub open spec fn contains_any_remix_pattern(t: Seq<char>) -> bool {
    exists|i: usize| i < REMIX_PATTERN_COUNT && contains(t, #[trigger] remix_pattern_at(i))
}

fn has_remix_pattern(t: &Vec<char>) -> (b: bool)
    ensures
        b == contains_any_remix_pattern(t@),
{
    for i in 0..REMIX_PATTERN_COUNT
        invariant
            forall|j: usize| j < i ==> !contains(t@, #[trigger] remix_pattern_at(j)),
    {
        let p = chars_of(remix_pattern_entry(i));
        if contains_chars(t, &p) {
            return true;
        }
    }
    false
}
pub const NOT_NAME_COUNT: usize = 17;

/// Words that open a trailing parenthesis without naming a remixer.
pub open spec fn not_name_at(i: usize) -> Seq<char> {
    match i {
        0 => "part"@,
        1 => "vol"@,
        2 => "live"@,
        3 => "remastered"@,
        4 => "acoustic"@,
        5 => "demo"@,
        6 => "explicit"@,
        7 => "album"@,
        8 => "original"@,
        9 => "single"@,
        10 => "version"@,
        11 => "feat"@,
        12 => "edit"@,
        13 => "reprise"@,
        14 => "interlude"@,
        15 => "intro"@,
        16 => "outro"@,
        _ => Seq::empty(),
    }
}

fn not_name_entry(i: usize) -> (r: &'static str)
    requires
        i < NOT_NAME_COUNT,
    ensures
        r@ == not_name_at(i),
{
    match i {
        0 => "part",
        1 => "vol",
        2 => "live",
        3 => "remastered",
        4 => "acoustic",
        5 => "demo",
        6 => "explicit",
        7 => "album",
        8 => "original",
        9 => "single",
        10 => "version",
        11 => "feat",
        12 => "edit",
        13 => "reprise",
        14 => "interlude",
        15 => "intro",
        _ => "outro",
    }
}
pub const AUDIO_EXT_COUNT: usize = 5;

/// The file extensions of audio files, lowercase.
pub open spec fn audio_ext_at(i: usize) -> Seq<char> {
    match i {
        0 => "flac"@,
        1 => "mp3"@,
        2 => "aiff"@,
        3 => "aif"@,
        4 => "wav"@,
        _ => Seq::empty(),
    }
}

fn audio_ext_entry(i: usize) -> (r: &'static str)
    requires
        i < AUDIO_EXT_COUNT,
    ensures
        r@ == audio_ext_at(i),
{
    match i {
        0 => "flac",
        1 => "mp3",
        2 => "aiff",
        3 => "aif",
        _ => "wav",
    }
}

/// `t` is one of the `audio_ext` entries.
pub open spec fn is_any_audio_ext(t: Seq<char>) -> bool {
    exists|i: usize| i < AUDIO_EXT_COUNT && t == #[trigger] audio_ext_at(i)
}

fn is_audio_ext(t: &Vec<char>) -> (b: bool)
    ensures
        b == is_any_audio_ext(t@),
{
    for i in 0..AUDIO_EXT_COUNT
        invariant
            forall|j: usize| j < i ==> t@ != #[trigger] audio_ext_at(j),
    {
        let p = chars_of(audio_ext_entry(i));
        if chars_eq(t, &p) {
            return true;
        }
    }
    false
}

// ---------------------------------------------------------------------------
// Remix titles
// ---------------------------------------------------------------------------

/// Every character of every word is a letter, an apostrophe or a hyphen.
pub open spec fn name_words(ws: Seq<Seq<char>>) -> bool {
    forall|i: int, j: int|
        0 <= i < ws.len() && 0 <= j < ws[i].len() ==> alphabetic(#[trigger] ws[i][j]) || ws[i][j] == '\''
            || ws[i][j] == '-'
}

/// The text opens with one of the words that name no remixer.
pub open spec fn opens_with_not_name(inner: Seq<char>) -> bool {
    exists|i: usize| i < NOT_NAME_COUNT && starts_with(inner, #[trigger] not_name_at(i))
}

/// What the last parenthesis of a lowercased title holds: the text after its
/// `" ("`, without closing parentheses, trimmed.
pub open spec fn last_paren(lower: Seq<char>) -> Seq<char> {
    let o = rfind(lower, " ("@);
    trim(strip_trailing(lower.subrange(o + 2, lower.len() as int), ')'))
}

/// A title is a remix when it holds a remix word, or when its last
/// parenthesis holds one to four words that look like a name (letters,
/// apostrophes, hyphens) and do not open with a word such as "part" or "live".
pub open spec fn remix_title(title: Seq<char>) -> bool {
    let lower = lowercase(title);
    ||| contains_any_remix_pattern(lower)
    ||| (rfind(lower, " ("@) >= 0 && {
        let inner = last_paren(lower);
        let ws = words(inner);
        &&& 1 <= ws.len() <= 4
        &&& name_words(ws)
        &&& !opens_with_not_name(inner)
    })
}

fn opens_with_not_name_exec(inner: &Vec<char>) -> (b: bool)
    ensures
        b == opens_with_not_name(inner@),
{
    for i in 0..NOT_NAME_COUNT
        invariant
            forall|j: usize| j < i ==> !starts_with(inner@, #[trigger] not_name_at(j)),
    {
        let p = chars_of(not_name_entry(i));
        if match_at(inner, &p, 0) {
            return true;
        }
    }
    false
}

fn name_words_exec(ws: &Vec<Vec<char>>) -> (b: bool)
    ensures
        b == name_words(ws@.map_values(|w: Vec<char>| w@)),
{
    let ghost wv = ws@.map_values(|w: Vec<char>| w@);
    for i in 0..ws.len()
        invariant
            wv == ws@.map_values(|w: Vec<char>| w@),
            forall|a: int, j: int|
                0 <= a < i && 0 <= j < wv[a].len() ==> alphabetic(#[trigger] wv[a][j]) || wv[a][j] == '\''
                    || wv[a][j] == '-',
    {
        let w = &ws[i];
        for j in 0..w.len()
            invariant
                wv == ws@.map_values(|w: Vec<char>| w@),
                i < ws@.len(),
                *w == ws@[i as int],
                forall|a: int, k: int|
                    0 <= a < i && 0 <= k < wv[a].len() ==> alphabetic(#[trigger] wv[a][k]) || wv[a][k] == '\''
                        || wv[a][k] == '-',
                forall|k: int| 0 <= k < j ==> alphabetic(#[trigger] wv[i as int][k]) || wv[i as int][k] == '\''
                    || wv[i as int][k] == '-',
        {
            let c = w[j];
            assert(wv[i as int][j as int] == c);
            if !(is_alphabetic(c) || c == '\'' || c == '-') {
                return false;
            }
        }
    }
    true
}

/// Whether an embedded title names a remix.
pub fn is_remix_title(title: &str) -> (b: bool)
    ensures
        b == remix_title(title@),
{
    let lower = to_lowercase(title);
    let lv = chars_of(lower.as_str());
    if has_remix_pattern(&lv) {
        return true;
    }
    let open = chars_of(" (");
    proof {
        reveal_strlit(" (");
    }
    match rfind_chars(&lv, &open) {
        Some(o) => {
            proof {
                lemma_rfind_to(lv@, open@, lv@.len() - open@.len());
            }
            let n = lv.len();
            let rest = slice_chars(&lv, o + 2, n);
            let stripped = strip_trailing_chars(&rest, ')');
            let inner = trim_chars(&stripped);
            let ws = split_whitespace(&inner);
            let looks_like_name = ws.len() >= 1 && ws.len() <= 4 && name_words_exec(&ws);
            looks_like_name && !opens_with_not_name_exec(&inner)
        },
        None => false,
    }
}

/// The part of the title from the first `" ("` on, lowercased, marks a
/// remix credit: it holds a remix word or, without its leading `" ("`s, at
/// most four words.
pub open spec fn credit_follows(after: Seq<char>) -> bool {
    contains_any_remix_pattern(after) || words(strip_leading(after, " ("@)).len() <= 4
}

/// Where the title is cut: before the first `" ("` of its lowercase form,
/// when what follows is a remix credit. The cut is made at the same byte
/// offset of the original title, as the number of characters filling it.
pub open spec fn cut_point(title: Seq<char>) -> int {
    let lower = lowercase(title);
    let p = find(lower, " ("@);
    if p >= 0 && credit_follows(lower.subrange(p, lower.len() as int)) {
        char_count_at(title, utf8_len(lower.take(p)), 0)
    } else {
        -1
    }
}

/// The cut falls between two characters of the original title. Where
/// lowercasing changes the byte length of the text before the cut, it may not,
/// and the byte slice would not be valid.
pub open spec fn cut_is_clean(title: Seq<char>) -> bool {
    let lower = lowercase(title);
    let p = find(lower, " ("@);
    (p >= 0 && credit_follows(lower.subrange(p, lower.len() as int))) ==> cut_point(title) >= 0
}

/// The title of the original song: cut before a remix credit, else before
/// the first `" ("`, and trimmed.
pub open spec fn cleaned_title(title: Seq<char>) -> Seq<char> {
    let c = cut_point(title);
    if c >= 0 {
        trim(title.take(c))
    } else {
        trim(before_sub(title, " ("@))
    }
}

/// `"Careless Whisper (DMC Remix)"` gives `"Careless Whisper"`.
pub fn clean_remix_title(title: &str) -> (r: String)
    requires
        cut_is_clean(title@),
    ensures
        r@ == cleaned_title(title@),
{
    let tv = chars_of(title);
    let lower = to_lowercase(title);
    let lv = chars_of(lower.as_str());
    let open = chars_of(" (");
    match find_chars(&lv, &open) {
        Some(idx) => {
            proof {
                lemma_find_from(lv@, open@, 0);
            }
            let after = slice_chars(&lv, idx, lv.len());
            let stripped = strip_leading_chars(&after, " (");
            let ws = split_whitespace(&stripped);
            if has_remix_pattern(&after) || ws.len() <= 4 {
                let bytes = utf8_len_prefix(&lv, idx);
                assert(lv@.take(idx as int) =~= lowercase(title@).take(idx as int));
                match char_count_at_bytes(&tv, bytes) {
                    Some(q) => {
                        proof {
                            lemma_char_count_range(tv@, bytes as int, 0);
                        }
                        let head = slice_chars(&tv, 0, q);
                        assert(head@ =~= tv@.take(q as int));
                        return string_of(&trim_chars(&head));
                    },
                    None => {
                        assert(false);
                        return string_of(&tv);
                    },
                }
            }
        },
        None => {},
    }
    let head = before_sub_chars(&tv, " (");
    string_of(&trim_chars(&head))
}

/// Whether `clean_remix_title` can cut `title`: false only where the cut
/// would fall inside a character of the title.
pub fn remix_cut_is_clean(title: &str) -> (b: bool)
    ensures
        b == cut_is_clean(title@),
{
    let tv = chars_of(title);
    let lower = to_lowercase(title);
    let lv = chars_of(lower.as_str());
    let open = chars_of(" (");
    match find_chars(&lv, &open) {
        Some(idx) => {
            proof {
                lemma_find_from(lv@, open@, 0);
            }
            let after = slice_chars(&lv, idx, lv.len());
            let stripped = strip_leading_chars(&after, " (");
            let ws = split_whitespace(&stripped);
            if has_remix_pattern(&after) || ws.len() <= 4 {
                let bytes = utf8_len_prefix(&lv, idx);
                assert(lv@.take(idx as int) =~= lowercase(title@).take(idx as int));
                char_count_at_bytes(&tv, bytes).is_some()
            } else {
                true
            }
        },
        None => true,
    }
}

proof fn lemma_char_count_range(s: Seq<char>, b: int, q: int)
    requires
        0 <= q,
    ensures
        char_count_at(s, b, q) == -1 || q <= char_count_at(s, b, q) <= s.len(),
    decreases s.len() + 1 - q,
{
    if q <= s.len() && crate::text::utf8_len(s.take(q)) < b {
        lemma_char_count_range(s, b, q + 1);
    }
}

// ---------------------------------------------------------------------------
// Files
// ---------------------------------------------------------------------------

/// The file lies in a folder (or is a file) named `_fakes`, in any ASCII case.
pub open spec fn in_fakes_folder(path: Seq<char>) -> bool {
    has_segment(path, "_fakes"@)
}

pub fn is_in_fakes_folder(path: &str) -> (b: bool)
    ensures
        b == in_fakes_folder(path@),
{
    let pv = chars_of(path);
    let name = chars_of("_fakes");
    has_segment_exec(&pv, &name)
}

/// The lowercased file stem holds a remix word.
pub open spec fn remix_file(path: Seq<char>) -> bool {
    let stem = match file_stem(path) {
        Some(s) => s,
        None => ""@,
    };
    contains_any_remix_pattern(lowercase(stem))
}

/// Whether the file name marks the file as a remix.
pub fn is_remix(path: &str) -> (b: bool)
    ensures
        b == remix_file(path@),
{
    let pv = chars_of(path);
    let stem = match file_stem_exec(&pv) {
        Some(s) => string_of(&s),
        None => "".to_owned(),
    };
    let lower = to_lowercase(stem.as_str());
    let lv = chars_of(lower.as_str());
    has_remix_pattern(&lv)
}

/// The file is an audio file: its extension, lowercased, is one of the audio extensions.
pub open spec fn audio_file(path: Seq<char>) -> bool {
    match extension(path) {
        Some(e) => is_any_audio_ext(lowercase(e)),
        None => false,
    }
}

pub fn has_audio_extension(path: &str) -> (b: bool)
    ensures
        b == audio_file(path@),
{
    let pv = chars_of(path);
    match extension_exec(&pv) {
        Some(e) => {
            let es = string_of(&e);
            let lower = to_lowercase(es.as_str());
            let lv = chars_of(lower.as_str());
            is_audio_ext(&lv)
        },
        None => false,
    }
}

/// Artist and title read from a file named `"Artist - Title.ext"`: the
/// stem split at the first `" - "`, both sides trimmed, the title cut before
/// its first `" ("`. Either side empty gives nothing.
pub open spec fn filename_parts(path: Seq<char>) -> Option<(Seq<char>, Seq<char>)> {
    match file_stem(path) {
        Some(stem) => {
            let k = find(stem, " - "@);
            if k < 0 {
                None
            } else {
                let artist = trim(stem.take(k));
                let title = before_sub(trim(stem.subrange(k + 3, stem.len() as int)), " ("@);
                if artist.len() == 0 || title.len() == 0 {
                    None
                } else {
                    Some((artist, title))
                }
            }
        },
        None => None,
    }
}

pub fn parse_filename(path: &str) -> (r: Option<(String, String)>)
    ensures
        match r {
            Some((a, t)) => filename_parts(path@) == Some((a@, t@)),
            None => filename_parts(path@) is None,
        },
{
    let pv = chars_of(path);
    let stem = match file_stem_exec(&pv) {
        Some(s) => s,
        None => {
            return None;
        },
    };
    let sep = chars_of(" - ");
    proof {
        reveal_strlit(" - ");
    }
    let k = match find_chars(&stem, &sep) {
        Some(k) => k,
        None => {
            return None;
        },
    };
    proof {
        lemma_find_from(stem@, sep@, 0);
    }
    let a = slice_chars(&stem, 0, k);
    let artist = trim_chars(&a);
    let n = stem.len();
    let rest = slice_chars(&stem, k + 3, n);
    let rt = trim_chars(&rest);
    let title = before_sub_chars(&rt, " (");
    if artist.len() == 0 || title.len() == 0 {
        return None;
    }
    Some((string_of(&artist), string_of(&title)))
}

// ---------------------------------------------------------------------------
// Per-track decisions
// ---------------------------------------------------------------------------

/// The track already carries a year and a genre.
pub fn has_existing_tags(track: &TrackMetadata) -> (b: bool)
    ensures
        b == (track.existing_year is Some && track.existing_genre is Some),
{
    track.existing_year.is_some() && track.existing_genre.is_some()
}

/// A track is skipped when asked to skip tagged tracks, it has year and
/// genre, and re-tagging is not forced.
pub fn should_skip(track: &TrackMetadata, skip_existing: bool, force: bool) -> (b: bool)
    ensures
        b == (skip_existing && track.existing_year is Some && track.existing_genre is Some && !force),
{
    skip_existing && has_existing_tags(track) && !force
}

/// The empty vote reported for a skipped track.
pub fn dummy_vote() -> (v: VoteResult)
    ensures
        v.year is None,
        v.decade is None,
        v.genre is None,
        v.subgenre is None,
        !v.needs_review,
        v.sources_used@.len() == 0,
{
    VoteResult {
        year: None,
        decade: None,
        genre: None,
        subgenre: None,
        needs_review: false,
        sources_used: Vec::new(),
    }
}

/// The title searched for: a remix title is cleaned, any other kept.
pub fn search_title(title: &str) -> (r: String)
    requires
        cut_is_clean(title@),
    ensures
        r@ == if remix_title(title@) {
            cleaned_title(title@)
        } else {
            title@
        },
{
    if is_remix_title(title) {
        clean_remix_title(title)
    } else {
        title.to_owned()
    }
}

/// The MBID used for the AcousticBrainz lookup: AcoustID's, else MusicBrainz's.
pub fn resolve_mbid(acoustid: Option<String>, musicbrainz: Option<String>) -> (r: Option<String>)
    ensures
        r == if acoustid is Some {
            acoustid
        } else {
            musicbrainz
        },
{
    match acoustid {
        Some(m) => Some(m),
        None => musicbrainz,
    }
}

} // verus!
