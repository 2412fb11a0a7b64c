//! Last.fm top tags: the first tags that are no noise give genre and subgenre.

use vstd::prelude::*;
use crate::models::{SourceName, SourceResult};
use crate::sources::musicbrainz::clamp;
use crate::text::{chars_eq, chars_of, lowercase, opt_chars, to_lowercase};

verus! {

/// A top tag of a track, with its count.
#[derive(Debug)]
pub struct Tag {
    pub name: String,
    pub count: Option<u32>,
}

pub const NOISE_TAG_COUNT: usize = 36;

/// Last.fm tags that say nothing about genre.
pub open spec fn noise_tag_at(i: usize) -> Seq<char> {
    match i {
        0 => "seen live"@,
        1 => "beautiful"@,
        2 => "favorite"@,
        3 => "favourite"@,
        4 => "amazing"@,
        5 => "awesome"@,
        6 => "cool"@,
        7 => "love"@,
        8 => "my favorite"@,
        9 => "great"@,
        10 => "best"@,
        11 => "good"@,
        12 => "classic"@,
        13 => "masterpiece"@,
        14 => "perfect"@,
        15 => "brilliant"@,
        16 => "excellent"@,
        17 => "fantastic"@,
        18 => "catchy"@,
        19 => "chill"@,
        20 => "relax"@,
        21 => "relaxing"@,
        22 => "workout"@,
        23 => "running"@,
        24 => "driving"@,
        25 => "party"@,
        26 => "sad"@,
        27 => "happy"@,
        28 => "melancholic"@,
        29 => "epic"@,
        30 => "underrated"@,
        31 => "overrated"@,
        32 => "all time favorite"@,
        33 => "all-time favorite"@,
        34 => "to listen"@,
        35 => "must listen"@,
        _ => Seq::empty(),
    }
}

fn noise_tag_entry(i: usize) -> (r: &'static str)
    requires
        i < NOISE_TAG_COUNT,
    ensures
        r@ == noise_tag_at(i),
{
    match i {
        0 => "seen live",
        1 => "beautiful",
        2 => "favorite",
        3 => "favourite",
        4 => "amazing",
        5 => "awesome",
        6 => "cool",
        7 => "love",
        8 => "my favorite",
        9 => "great",
        10 => "best",
        11 => "good",
        12 => "classic",
        13 => "masterpiece",
        14 => "perfect",
        15 => "brilliant",
        16 => "excellent",
        17 => "fantastic",
        18 => "catchy",
        19 => "chill",
        20 => "relax",
        21 => "relaxing",
        22 => "workout",
        23 => "running",
        24 => "driving",
        25 => "party",
        26 => "sad",
        27 => "happy",
        28 => "melancholic",
        29 => "epic",
        30 => "underrated",
        31 => "overrated",
        32 => "all time favorite",
        33 => "all-time favorite",
        34 => "to listen",
        _ => "must listen",
    }
}

/// `t` is one of the `noise_tag` entries.
pub open spec fn is_any_noise_tag(t: Seq<char>) -> bool {
    exists|i: usize| i < NOISE_TAG_COUNT && t == #[trigger] noise_tag_at(i)
}

fn is_noise_tag(t: &Vec<char>) -> (b: bool)
    ensures
        b == is_any_noise_tag(t@),
{
    for i in 0..NOISE_TAG_COUNT
        invariant
            forall|j: usize| j < i ==> t@ != #[trigger] noise_tag_at(j),
    {
        let p = chars_of(noise_tag_entry(i));
        if chars_eq(t, &p) {
            return true;
        }
    }
    false
}

/// A tag is noise when its lowercase form is one of the noise tags.
pub open spec fn noise(name: Seq<char>) -> bool {
    is_any_noise_tag(lowercase(name))
}

pub fn is_noise(tag: &str) -> (b: bool)
    ensures
        b == noise(tag@),
{
    let lower = to_lowercase(tag);
    let lv = chars_of(lower.as_str());
    is_noise_tag(&lv)
}

/// The tags that are no noise, in order.
pub open spec fn genre_tags(tags: Seq<Tag>) -> Seq<Tag>
    decreases tags.len(),
{
    if tags.len() == 0 {
        seq![]
    } else if !noise(tags.last().name@) {
        genre_tags(tags.drop_last()).push(tags.last())
    } else {
        genre_tags(tags.drop_last())
    }
}

/// The sum of the counts that are given.
pub open spec fn count_sum(tags: Seq<Tag>) -> int
    decreases tags.len(),
{
    if tags.len() == 0 {
        0
    } else {
        count_sum(tags.drop_last()) + match tags.last().count {
            Some(c) => c as int,
            None => 0,
        }
    }
}

/// The confidence in billionths: the first genre tag's share of all genre-tag
/// counts kept within 0.3..=0.95, or 0.5 when no count is given.
pub open spec fn lastfm_confidence(kept: Seq<Tag>) -> int {
    let total = count_sum(kept);
    let top = match kept[0].count {
        Some(c) => c as int,
        None => 0,
    };
    if total > 0 {
        clamp((top * 1_000_000_000) / total, 300_000_000, 950_000_000)
    } else {
        500_000_000
    }
}

/// Genre and subgenre are the first two tags that are no noise, lowercased;
/// without a first one there is no result.
pub fn build_result(tags: Vec<Tag>) -> (r: Option<SourceResult>)
    ensures
        r is None <==> genre_tags(tags@).len() == 0,
        r matches Some(sr) ==> {
            let kept = genre_tags(tags@);
            &&& sr.source == SourceName::LastFm
            &&& sr.year is None
            &&& opt_chars(sr.genre) == Some(lowercase(kept[0].name@))
            &&& opt_chars(sr.subgenre) == if kept.len() > 1 {
                Some(lowercase(kept[1].name@))
            } else {
                None
            }
            &&& sr.confidence as int == lastfm_confidence(kept)
            &&& sr.mbid is None
        },
{
    let ghost ts = tags@;
    let mut kept: Vec<Tag> = Vec::new();
    let mut total: u128 = 0;
    let n = tags.len();
    for t in it: tags
        invariant
            it.seq() == ts,
            ts.len() == n,
            kept@ == genre_tags(ts.take(it.index() as int)),
            total as int == count_sum(kept@),
            total <= it.index() * 0xFFFF_FFFF,
    {
        let ghost i = it.index();
        assert(i < n);
        assert(ts.take(i + 1).drop_last() =~= ts.take(i as int));
        assert(ts.take(i + 1).last() == t);
        if !is_noise(t.name.as_str()) {
            let ghost before = kept@;
            let c: u128 = match t.count {
                Some(c) => c as u128,
                None => 0,
            };
            kept.push(t);
            assert(kept@.drop_last() =~= before);
            assert(total + c <= (i + 1) * 0xFFFF_FFFF);
            assert((i + 1) * 0xFFFF_FFFF <= 0x1_0000_0000_0000_0000 * 0xFFFF_FFFF) by (nonlinear_arith)
                requires
                    i < 0x1_0000_0000_0000_0000,
            ;
            total = total + c;
        }
    }
    assert(ts.take(ts.len() as int) =~= ts);
    if kept.len() == 0 {
        return None;
    }
    let g = to_lowercase(kept[0].name.as_str());
    let sub = if kept.len() > 1 {
        Some(to_lowercase(kept[1].name.as_str()))
    } else {
        None
    };
    let top: u128 = match kept[0].count {
        Some(c) => c as u128,
        None => 0,
    };
    let confidence: u32 = if total > 0 {
        let q = (top * 1_000_000_000) / total;
        if q < 300_000_000 {
            300_000_000
        } else if q > 950_000_000 {
            950_000_000
        } else {
            q as u32
        }
    } else {
        500_000_000
    };
    Some(SourceResult {
        source: SourceName::LastFm,
        year: None,
        genre: Some(g),
        subgenre: sub,
        confidence,
        mbid: None,
    })
}


proof fn lemma_genre_tags_not_noise(tags: Seq<Tag>)
    ensures
        forall|i: int| 0 <= i < genre_tags(tags).len() ==> !noise(#[trigger] genre_tags(tags)[i].name@),
    decreases tags.len(),
{
    if tags.len() > 0 {
        lemma_genre_tags_not_noise(tags.drop_last());
    }
}

/// The genre and subgenre Last.fm gives are never noise tags.
pub proof fn law_lastfm_genre_not_noise(tags: Seq<Tag>)
    ensures
        genre_tags(tags).len() > 0 ==> !noise(genre_tags(tags)[0].name@),
        genre_tags(tags).len() > 1 ==> !noise(genre_tags(tags)[1].name@),
{
    lemma_genre_tags_not_noise(tags);
}

} // verus!
