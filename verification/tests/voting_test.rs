use music_tagger::models::{Fraction, SourceName, SourceResult};
use music_tagger::tagger::decade::to_decade;
use music_tagger::tagger::voter::{quick_genre_leader, vote};

fn result(
    source: SourceName,
    year: Option<u32>,
    genre: Option<&str>,
    subgenre: Option<&str>,
    confidence: f64,
) -> SourceResult {
    SourceResult {
        source,
        year,
        genre: genre.map(str::to_string),
        subgenre: subgenre.map(str::to_string),
        confidence: (confidence * 1e9).round() as u32,
        mbid: None,
    }
}

fn ratio(c: Fraction) -> f64 {
    c.num as f64 / c.den as f64
}

fn genre_of(v: &music_tagger::models::VoteResult) -> Option<(&str, f64)> {
    v.genre.as_ref().map(|(g, c)| (g.as_str(), ratio(*c)))
}

fn close(a: f64, b: f64) -> bool {
    (a - b).abs() < 1e-9
}

fn genre_is(v: &music_tagger::models::VoteResult, name: &str, share: f64) -> bool {
    match genre_of(v) {
        Some((g, c)) => g == name && close(c, share),
        None => false,
    }
}

#[test]
fn decade_of_years() {
    assert_eq!(to_decade(0), "00s");
    assert_eq!(to_decade(9), "00s");
    assert_eq!(to_decade(2019), "2010s");
    assert_eq!(to_decade(2020), "2020s");
}

#[test]
fn one_strong_source_carries_the_genre() {
    // WikiSong weighs 3.5: 3.5 * 0.85 = 2.975 >= 2.5, a strong genre.
    let v = vote(vec![result(SourceName::WikiSong, None, Some("synth-pop"), None, 0.85)], 650);
    // Share 1, times (1+1)/(1+2).
    assert!(genre_is(&v, "synth-pop", 2.0 / 3.0));
    assert!(!v.needs_review);
    assert!(v.year.is_none());
    assert!(v.decade.is_none());
    assert_eq!(v.sources_used, vec![SourceName::WikiSong]);
}

#[test]
fn a_lone_weak_source_needs_review() {
    // Last.fm alone: 2.5 * 0.7 = 1.75, confident (2/3 >= 0.65) but one source, no year.
    let v = vote(vec![result(SourceName::LastFm, None, Some("electronic"), None, 0.7)], 650);
    assert!(genre_is(&v, "electronic", 2.0 / 3.0));
    assert!(v.needs_review);
}

#[test]
fn a_lone_vote_has_exactly_two_thirds() {
    let v = vote(vec![result(SourceName::LastFm, Some(1994), Some("pop"), None, 0.7)], 650);
    let (g, c) = v.genre.clone().unwrap();
    assert_eq!(g, "pop");
    assert_eq!(c.num * 3, c.den * 2);
    assert!(v.year.is_none());
    assert!(v.decade.is_none());
    assert!(v.needs_review);
    assert_eq!(v.sources_used, vec![SourceName::LastFm]);
}

#[test]
fn a_low_share_of_the_possible_score_needs_review() {
    // pop scores 3.0 * 0.5 + 2.5 * 0.5 = 2.75, strong, but the two votes
    // could reach 5.5: a share of 0.5, under 0.65.
    let v = vote(
        vec![
            result(SourceName::MusicBrainz, Some(1984), Some("pop"), None, 0.5),
            result(SourceName::LastFm, None, Some("pop"), None, 0.5),
        ],
        650,
    );
    assert!(genre_is(&v, "pop", 0.75));
    assert!(v.needs_review);
    // The same votes at full confidence reach the whole possible score.
    let w = vote(
        vec![
            result(SourceName::MusicBrainz, Some(1984), Some("pop"), None, 1.0),
            result(SourceName::LastFm, None, Some("pop"), None, 1.0),
        ],
        650,
    );
    assert!(!w.needs_review);
}

#[test]
fn a_confidence_below_threshold_needs_review() {
    let v = vote(vec![result(SourceName::LastFm, None, Some("electronic"), None, 0.7)], 700);
    assert!(v.needs_review);
}

#[test]
fn subgenre_folds_into_its_parent() {
    // synth-pop (2.5 * 0.7) and pop (1.0 * 0.9) are both candidates: pop takes it all.
    let v = vote(
        vec![
            result(SourceName::LastFm, None, Some("synth-pop"), None, 0.7),
            result(SourceName::Discogs, None, Some("Pop"), None, 0.9),
        ],
        650,
    );
    assert!(genre_is(&v, "pop", 0.75));
    // The best score before folding, synth-pop's 1.75, is half of the 3.5
    // the two votes could reach: under the threshold.
    assert!(v.needs_review);
}

#[test]
fn synonyms_count_together() {
    // "Hip-Hop" and "hiphop" both count as "hip hop".
    let v = vote(
        vec![
            result(SourceName::MusicBrainz, None, Some("Hip-Hop"), None, 0.5),
            result(SourceName::LastFm, None, Some("hiphop"), None, 0.6),
            result(SourceName::Discogs, None, Some("rock"), None, 0.9),
        ],
        650,
    );
    // hip hop: 3.0*0.5 + 2.5*0.6 = 3.0; rock: 0.9; share 3/3.9 times 4/5.
    assert!(genre_is(&v, "hip hop", 3.0 / 3.9 * 0.8));
    // Strong (3.0 >= 2.5), but 3.0 of the 6.5 the votes could reach.
    assert!(v.needs_review);
}

#[test]
fn wikipedia_is_not_counted_as_a_source() {
    let v = vote(
        vec![
            result(SourceName::Discogs, Some(1995), Some("rock"), None, 0.9),
            result(SourceName::Wikipedia, None, Some("rock"), None, 0.7),
        ],
        650,
    );
    // Genre share is 1 with one counted source: 2/3.
    assert!(genre_is(&v, "rock", 2.0 / 3.0));
    let (y, c) = v.year.unwrap();
    assert_eq!(y, 1995);
    assert!(close(ratio(c), 2.0 / 3.0));
    assert_eq!(v.decade.as_deref(), Some("1990s"));
    assert!(!v.needs_review);
}

#[test]
fn identifier_genres_cast_no_vote() {
    let v = vote(
        vec![result(SourceName::MusicBrainz, Some(1990), Some("MBID:1234"), None, 0.9)],
        650,
    );
    assert!(v.genre.is_none());
    assert_eq!(v.year.map(|(y, _)| y), Some(1990));
    assert!(v.needs_review);
}

#[test]
fn lastfm_years_are_ignored() {
    let v = vote(
        vec![
            result(SourceName::LastFm, Some(2001), Some("pop"), None, 0.9),
            result(SourceName::WikiSong, Some(1999), None, None, 0.85),
        ],
        650,
    );
    assert!(v.year.is_none());
    assert!(v.decade.is_none());
}

#[test]
fn equal_scores_go_to_the_first_named() {
    // rock 1.0 * 0.9 = 0.9, pop 2.5 * 0.36 = 0.9.
    let v = vote(
        vec![
            result(SourceName::Discogs, None, Some("rock"), None, 0.9),
            result(SourceName::LastFm, None, Some("pop"), None, 0.36),
        ],
        650,
    );
    assert!(genre_is(&v, "rock", 0.375));
    assert!(v.needs_review);
}

#[test]
fn subgenre_is_a_plain_plurality() {
    let v = vote(
        vec![
            result(SourceName::Discogs, Some(1983), Some("electronic"), Some("Synth-Pop"), 0.9),
            result(SourceName::LastFm, None, Some("electronic"), Some("new wave"), 0.7),
        ],
        650,
    );
    // new wave 2.5*0.7 = 1.75 of 2.65.
    let (s, c) = v.subgenre.clone().unwrap();
    assert_eq!(s, "new wave");
    assert!(close(ratio(c), 1.75 / 2.65));
    assert_eq!(v.decade.as_deref(), Some("1980s"));
}

#[test]
fn year_scores_add_up() {
    let v = vote(
        vec![
            result(SourceName::Discogs, Some(1986), None, None, 0.5),
            result(SourceName::MusicBrainz, Some(1985), None, None, 0.5),
            result(SourceName::AcoustId, Some(1985), None, None, 0.5),
        ],
        650,
    );
    // 1985: 2.5*0.5 + 2.0*0.5 = 2.25 of 3.75, times 4/5.
    let (y, c) = v.year.unwrap();
    assert_eq!(y, 1985);
    assert!(close(ratio(c), 0.48));
    assert!(v.needs_review);
}

#[test]
fn quick_leader_is_not_normalized() {
    let rs = vec![
        result(SourceName::Discogs, None, Some("Funk / Soul"), None, 0.9),
        result(SourceName::LastFm, None, Some("soul"), None, 0.3),
        result(SourceName::MbMapping, None, Some("disco"), None, 1.0),
    ];
    assert_eq!(quick_genre_leader(&rs).as_deref(), Some("funk / soul"));
    assert_eq!(quick_genre_leader(&[]), None);
    let ids = vec![result(SourceName::MusicBrainz, None, Some("mbid:x"), None, 0.9)];
    assert_eq!(quick_genre_leader(&ids), None);
}

// ---------------------------------------------------------------------------
// The genre map
// ---------------------------------------------------------------------------

use music_tagger::tagger::genre_map::{build_genre_map, normalize_genre, GenreMap};
use music_tagger::tagger::voter::vote_with_map;

const DISCOGS_MAPPING: &str = "genre,subgenre,mb_tag1,mb_tag2\nElectronic,Synth-pop,\"synth-pop\",electronic\r\nRock, Soft Rock ,soft rock,\nFunk / Soul,Disco,,\nPop,Ballad\n";
const LASTFM_MAPPING: &str = "genre,subgenre,mb_tag1,mb_tag2,\nHip Hop,hiphop,trip hop,\nRock,soft rock,yacht rock,";

#[test]
fn mapping_files_come_before_builtin_synonyms() {
    let m = build_genre_map(DISCOGS_MAPPING, LASTFM_MAPPING);
    assert_eq!(normalize_genre(&m, "hiphop"), "trip hop");
    assert_eq!(normalize_genre(&m, "soft rock"), "yacht rock");
    assert_eq!(normalize_genre(&m, "synth-pop"), "synth-pop");
    assert_eq!(normalize_genre(&m, "rnb"), "r&b");
    assert_eq!(normalize_genre(&m, "polka"), "polka");
    assert_eq!(m.get("disco"), None);
    assert_eq!(m.get("ballad"), None);
    assert_eq!(m.get("subgenre"), None);
    assert_eq!(m.get("hiphop").as_deref(), Some("trip hop"));
}

#[test]
fn map_keys_are_lowercase() {
    let m = build_genre_map(DISCOGS_MAPPING, LASTFM_MAPPING);
    assert!(!m.entries.is_empty());
    for (k, _) in m.entries.iter() {
        let key: String = k.iter().collect();
        assert_eq!(key, key.to_lowercase());
    }
    assert_eq!(normalize_genre(&m, "hiphop"), "trip hop");
    assert_eq!(normalize_genre(&m, "HipHop"), "HipHop");
}

#[test]
fn without_mapping_files_the_builtin_synonyms_remain() {
    let m = build_genre_map("", "genre,subgenre,mb_tag1\n");
    assert_eq!(normalize_genre(&m, "hip-hop"), "hip hop");
    assert_eq!(normalize_genre(&m, "latin pop"), "latin");
    assert_eq!(m.entries.len(), GenreMap::builtin().entries.len());
}

#[test]
fn the_vote_uses_the_map() {
    let m = build_genre_map(DISCOGS_MAPPING, LASTFM_MAPPING);
    let rs = vec![result(SourceName::LastFm, None, Some("HipHop"), None, 0.7)];
    let v = vote_with_map(rs, 650, &m);
    assert!(genre_is(&v, "trip hop", 2.0 / 3.0));
    let rs2 = vec![result(SourceName::LastFm, None, Some("HipHop"), None, 0.7)];
    assert!(genre_is(&vote(rs2, 650), "hip hop", 2.0 / 3.0));
}
