use music_tagger::models::SourceName;
use music_tagger::sources::acousticbrainz::{rows_result, GenreRow};
use music_tagger::sources::acoustid::{
    acoustid_result, compute_fingerprint, encode_fingerprint, fingerprint_result, select_mbid, AcoustIdResult,
};
use music_tagger::sources::discogs::{self, ReleaseResponse, SearchResult};
use music_tagger::sources::essentia::EssentiaClassifier;
use music_tagger::sources::lastfm::{self, is_noise, Tag};
use music_tagger::sources::mb_mapping;
use music_tagger::sources::musicbrainz::{
    self, after_search, escape_lucene, keep_candidates, pick_best, primary_artist, recording_outcome, recording_query,
    retry_artist, title_case_genre, MbGenre, MbRecording, MbTag, SearchNext,
};
use music_tagger::sources::wiki_song::{self, article_slug, choose_article, extract_year, summary_result};
use music_tagger::sources::wikipedia::{confirmation_result, validate_genre, GenreValidation};

// ---------------------------------------------------------------------------
// MusicBrainz
// ---------------------------------------------------------------------------

#[test]
fn title_case_known_genres() {
    assert_eq!(title_case_genre("synth-pop"), "Synth-Pop");
    assert_eq!(title_case_genre("dance-pop"), "Dance-Pop");
    assert_eq!(title_case_genre("r&b"), "R&B");
    assert_eq!(title_case_genre("HI NRG"), "Hi-NRG");
    assert_eq!(title_case_genre("electro-funk"), "Electro Funk");
}

#[test]
fn title_case_other_genres() {
    assert_eq!(title_case_genre(""), "");
    assert_eq!(title_case_genre("progressive house"), "Progressive House");
    assert_eq!(title_case_genre("post-punk revival"), "Post-Punk Revival");
    assert_eq!(title_case_genre("  hip   hop "), "Hip Hop");
    assert_eq!(title_case_genre("éLECTRO"), "ÉLECTRO");
    assert_eq!(title_case_genre("italo-DISCO"), "Italo-DISCO");
    assert_eq!(title_case_genre("4-beat 80s"), "4-Beat 80s");
}

#[test]
fn title_casing_twice_changes_nothing() {
    for s in ["synth pop", "hi nrg", "electro-funk", "italo-DISCO", "progressive house", "post-punk revival", "r&b"] {
        let once = title_case_genre(s);
        assert_eq!(title_case_genre(&once), once);
    }
}

#[test]
fn primary_artist_cuts_at_the_first_listed_separator() {
    assert_eq!(primary_artist("Michael Jackson & Siedah Garrett"), "Michael Jackson");
    assert_eq!(primary_artist("Daft Punk feat. Pharrell Williams"), "Daft Punk");
    assert_eq!(primary_artist("Run-DMC vs. Jason Nevins"), "Run-DMC");
    // " & " is tried before " feat. ".
    assert_eq!(primary_artist("A feat. B & C"), "A feat. B");
    assert_eq!(primary_artist("Madonna"), "Madonna");
}

#[test]
fn retry_only_with_a_different_artist() {
    assert_eq!(retry_artist("Eric B. & Rakim").as_deref(), Some("Eric B."));
    assert_eq!(retry_artist("Prince"), None);
}

#[test]
fn lucene_escapes() {
    assert_eq!(escape_lucene("Love (Is): \"Here\""), "Love \\(Is\\)\\: \\\"Here\\\"");
    assert_eq!(
        recording_query("Take On Me", "a-ha"),
        "recording:\"Take On Me\" AND artist:\"a-ha\""
    );
}

fn rec(
    id: &str,
    score: Option<u32>,
    title: &str,
    date: Option<&str>,
    genres: Option<Vec<(&str, Option<u32>)>>,
    tags: Option<Vec<(&str, Option<u32>)>>,
) -> MbRecording {
    MbRecording {
        id: Some(id.to_string()),
        score,
        title: Some(title.to_string()),
        first_release_date: date.map(str::to_string),
        genres: genres.map(|g| {
            g.into_iter().map(|(n, c)| MbGenre { name: n.to_string(), count: c }).collect()
        }),
        tags: tags.map(|t| t.into_iter().map(|(n, c)| MbTag { name: n.to_string(), count: c }).collect()),
    }
}

#[test]
fn candidates_need_a_score_of_seventy() {
    let kept = keep_candidates(vec![
        rec("a", Some(100), "x", None, None, None),
        rec("b", Some(69), "x", None, None, None),
        rec("c", None, "x", None, None, None),
        rec("d", Some(70), "x", None, None, None),
    ]);
    let ids: Vec<_> = kept.iter().map(|r| r.id.clone().unwrap()).collect();
    assert_eq!(ids, vec!["a", "d"]);
}

#[test]
fn pick_prefers_originals_with_genres_then_the_earliest() {
    let cs = vec![
        rec("remix", Some(100), "Song (Club Mix)", Some("1983"), Some(vec![("pop", Some(1))]), None),
        rec("late", Some(100), "Song", Some("1990-01-01"), Some(vec![("pop", Some(1))]), None),
        rec("bare", Some(100), "Song", Some("1980"), None, None),
        rec("early", Some(100), "Song", Some("1985-05"), None, Some(vec![("rock", Some(2))])),
    ];
    assert_eq!(pick_best(cs).and_then(|r| r.id).as_deref(), Some("early"));
}

#[test]
fn a_search_that_finds_nothing_retries_with_the_primary_artist() {
    let found = vec![rec("a", Some(100), "Song", Some("1984"), None, None)];
    assert!(matches!(after_search(found, "Eric B. & Rakim", false), SearchNext::Chosen(Some(ref r)) if r.id.as_deref() == Some("a")));
    assert!(matches!(after_search(vec![], "Eric B. & Rakim", false), SearchNext::Retry(ref p) if p == "Eric B."));
    assert!(matches!(after_search(vec![], "Eric B.", true), SearchNext::Chosen(None)));
    assert!(matches!(after_search(vec![], "Prince", false), SearchNext::Chosen(None)));
}

#[test]
fn pick_falls_back_to_the_earliest_and_to_remixes() {
    let no_data = vec![
        rec("x", Some(90), "Song", Some("1999"), None, None),
        rec("y", Some(90), "Song", None, None, None),
        rec("z", Some(90), "Song", Some("1988"), None, None),
    ];
    assert_eq!(pick_best(no_data).and_then(|r| r.id).as_deref(), Some("z"));
    let remixes = vec![
        rec("r1", Some(90), "Song (Dub Mix)", Some("1999"), None, None),
        rec("r2", Some(90), "Song (Extended Version)", Some("1987"), None, None),
    ];
    assert_eq!(pick_best(remixes).and_then(|r| r.id).as_deref(), Some("r2"));
    assert!(pick_best(vec![]).is_none());
}

#[test]
fn musicbrainz_result_from_genres() {
    let r = rec(
        "id1",
        Some(100),
        "Take On Me",
        Some("1985-06-01"),
        Some(vec![("synth-pop", Some(5)), ("new wave", Some(3))]),
        None,
    );
    let (res, mbid) = recording_outcome(r);
    assert_eq!(mbid.as_deref(), Some("id1"));
    let res = res.unwrap();
    assert_eq!(res.source, SourceName::MusicBrainz);
    assert_eq!(res.year, Some(1985));
    assert_eq!(res.genre.as_deref(), Some("Synth-Pop"));
    assert_eq!(res.subgenre.as_deref(), Some("New Wave"));
    // score 1.0, dominance 5/8.
    assert_eq!(res.confidence, 625_000_000);
}

#[test]
fn musicbrainz_result_from_few_tags_is_penalized() {
    let r = rec("id2", None, "Song", None, None, Some(vec![("rock", Some(2))]));
    let res = musicbrainz::build_result(r).unwrap();
    assert_eq!(res.year, None);
    assert_eq!(res.genre.as_deref(), Some("Rock"));
    assert_eq!(res.subgenre, None);
    // score 0.7 (absent), dominance 1.0, few votes 0.7.
    assert_eq!(res.confidence, 490_000_000);
}

#[test]
fn musicbrainz_dominance_is_clamped() {
    let r = rec(
        "id3",
        Some(80),
        "Song",
        Some("1977"),
        Some(vec![("disco", Some(2)), ("funk", Some(2)), ("soul", Some(2)), ("pop", Some(2))]),
        None,
    );
    let res = musicbrainz::build_result(r).unwrap();
    // Top share 2/8 is raised to 0.5; the last of equal counts wins.
    assert_eq!(res.genre.as_deref(), Some("Pop"));
    assert_eq!(res.subgenre.as_deref(), Some("Funk"));
    assert_eq!(res.confidence, 400_000_000);
}

#[test]
fn musicbrainz_without_year_or_genre_gives_nothing() {
    let r = rec("id4", Some(100), "Song", Some("unknown"), Some(vec![]), None);
    assert!(musicbrainz::build_result(r).is_none());
}

// ---------------------------------------------------------------------------
// Last.fm
// ---------------------------------------------------------------------------

fn tag(name: &str, count: Option<u32>) -> Tag {
    Tag { name: name.to_string(), count }
}

#[test]
fn noise_tags() {
    assert!(is_noise("Seen Live"));
    assert!(is_noise("favourite"));
    assert!(!is_noise("house"));
    assert!(!is_noise("seen live "));
}

#[test]
fn lastfm_skips_noise() {
    let res = lastfm::build_result(vec![
        tag("seen live", Some(100)),
        tag("Italo Disco", Some(60)),
        tag("awesome", Some(50)),
        tag("Synthpop", Some(20)),
        tag("80s", Some(20)),
    ])
    .unwrap();
    assert_eq!(res.source, SourceName::LastFm);
    assert_eq!(res.genre.as_deref(), Some("italo disco"));
    assert_eq!(res.subgenre.as_deref(), Some("synthpop"));
    assert_eq!(res.year, None);
    // 60 of 100 genre-tag counts.
    assert_eq!(res.confidence, 600_000_000);
}

#[test]
fn lastfm_confidence_bounds() {
    let dominant = lastfm::build_result(vec![tag("house", Some(99)), tag("techno", Some(1))]).unwrap();
    assert_eq!(dominant.confidence, 950_000_000);
    let weak = lastfm::build_result(vec![tag("house", Some(1)), tag("techno", Some(9))]).unwrap();
    assert_eq!(weak.confidence, 300_000_000);
    let uncounted = lastfm::build_result(vec![tag("house", None)]).unwrap();
    assert_eq!(uncounted.confidence, 500_000_000);
    assert_eq!(uncounted.subgenre, None);
    assert!(lastfm::build_result(vec![tag("cool", Some(5))]).is_none());
    assert!(lastfm::build_result(vec![]).is_none());
}

// ---------------------------------------------------------------------------
// Discogs
// ---------------------------------------------------------------------------

fn search(id: u64, genres: Option<Vec<&str>>) -> SearchResult {
    SearchResult { id, genre: genres.map(|g| g.into_iter().map(str::to_string).collect()) }
}

#[test]
fn discogs_takes_the_first_release_of_the_top_genre() {
    let rs = vec![
        search(1, Some(vec!["Electronic"])),
        search(2, Some(vec!["Funk / Soul", "Pop"])),
        search(3, Some(vec!["funk / soul"])),
    ];
    // funk / soul: 2 of 3 results, 3 results (full factor).
    assert_eq!(discogs::choose_release(&rs), Some((2, 666_666_666)));
}

#[test]
fn discogs_few_results_lower_the_confidence() {
    assert_eq!(discogs::choose_release(&vec![search(9, Some(vec!["Rock"]))]), Some((9, 333_333_333)));
    assert_eq!(discogs::choose_release(&vec![search(7, None), search(8, Some(vec![]))]), Some((7, 500_000_000)));
    assert_eq!(discogs::choose_release(&vec![]), None);
}

fn release(genres: Option<Vec<&str>>, styles: Option<Vec<&str>>, year: Option<u32>) -> ReleaseResponse {
    ReleaseResponse {
        genres: genres.map(|g| g.into_iter().map(str::to_string).collect()),
        styles: styles.map(|s| s.into_iter().map(str::to_string).collect()),
        year,
    }
}

#[test]
fn discogs_coarse_genre_gives_way_to_the_style() {
    let res = discogs::build_result(release(Some(vec!["Electronic"]), Some(vec!["Synth-pop", "New Wave"]), Some(1984)), 666_666_666)
        .unwrap();
    assert_eq!(res.source, SourceName::Discogs);
    assert_eq!(res.genre.as_deref(), Some("synth-pop"));
    assert_eq!(res.subgenre.as_deref(), Some("new wave"));
    assert_eq!(res.year, Some(1984));
    assert_eq!(res.confidence, 666_666_666);
}

#[test]
fn discogs_specific_genre_keeps_the_style_as_subgenre() {
    let res = discogs::build_result(release(Some(vec!["Jazz"]), Some(vec!["Fusion"]), None), 500_000_000).unwrap();
    assert_eq!(res.genre.as_deref(), Some("jazz"));
    assert_eq!(res.subgenre.as_deref(), Some("fusion"));
    let bare = discogs::build_result(release(Some(vec!["Rock"]), None, None), 400_000_000).unwrap();
    assert_eq!(bare.genre.as_deref(), Some("rock"));
    assert_eq!(bare.subgenre, None);
    assert!(discogs::build_result(release(None, Some(vec!["Disco"]), None), 400_000_000).is_none());
    let year_only = discogs::build_result(release(None, None, Some(1979)), 400_000_000).unwrap();
    assert_eq!(year_only.genre, None);
    assert_eq!(year_only.year, Some(1979));
}

// ---------------------------------------------------------------------------
// WikiSong
// ---------------------------------------------------------------------------

#[test]
fn wiki_article_choice() {
    let titles: Vec<String> = vec![
        "Thriller (album)".into(),
        "Beat It".into(),
        "Beat It (song)".into(),
    ];
    assert_eq!(choose_article(&titles, "beat it"), Some(2));
    let titles2: Vec<String> = vec!["Beat It (album)".into(), "Beat It".into()];
    assert_eq!(choose_article(&titles2, "Beat It"), Some(1));
    let titles3: Vec<String> = vec!["Some album".into(), "Remix culture".into(), "Michael Jackson".into()];
    assert_eq!(choose_article(&titles3, "Beat It"), Some(2));
    let titles4: Vec<String> = vec!["Greatest album".into()];
    assert_eq!(choose_article(&titles4, "Beat It"), Some(0));
    assert_eq!(choose_article(&vec![], "Beat It"), None);
}

#[test]
fn wiki_slugs() {
    assert_eq!(wiki_song::urlencoding("Take_On_Me_(song)"), "Take_On_Me_(song)");
    assert_eq!(wiki_song::urlencoding("Don't Stop"), "Don%27t%20Stop");
    assert_eq!(wiki_song::urlencoding("Café"), "Café");
    assert_eq!(wiki_song::urlencoding("a→b"), "a%2192b");
    assert_eq!(article_slug("Don't Stop Me Now"), "Don%27t_Stop_Me_Now");
}

#[test]
fn wiki_years() {
    assert_eq!(extract_year("it was released in 1985 by warner."), Some(1985));
    assert_eq!(extract_year("released in the 1990s"), Some(1990));
    assert_eq!(extract_year("it was released. in 1985"), None);
    assert_eq!(extract_year("released in 1949"), None);
    assert_eq!(extract_year("recorded in 1985"), None);
}

#[test]
fn wiki_summary_genres_and_year() {
    let res = summary_result("\"Take On Me\" is a song by the Norwegian synth-pop band a-ha. It was released in 1985.")
        .unwrap();
    assert_eq!(res.source, SourceName::WikiSong);
    assert_eq!(res.genre.as_deref(), Some("synth-pop"));
    assert_eq!(res.subgenre.as_deref(), Some("pop"));
    assert_eq!(res.year, Some(1985));
    assert_eq!(res.confidence, 850_000_000);
}

#[test]
fn wiki_summary_charts_come_first() {
    let res = summary_result("It reached the Billboard Hot 100 and the Hot Black Singles chart. A funk song.").unwrap();
    assert_eq!(res.genre.as_deref(), Some("soul"));
    assert_eq!(res.subgenre.as_deref(), Some("pop"));
    assert_eq!(res.year, None);
    assert!(summary_result("").is_none());
    assert!(summary_result("A song about nothing in particular.").is_none());
}

// ---------------------------------------------------------------------------
// AcoustID
// ---------------------------------------------------------------------------

#[test]
fn fingerprint_encoding() {
    assert_eq!(encode_fingerprint(&vec![]), "");
    assert_eq!(encode_fingerprint(&vec![1]), "AQAAAA");
    assert_eq!(encode_fingerprint(&vec![0x0403_0201]), "AQIDBA");
    assert_eq!(encode_fingerprint(&vec![0xFFFF_FFFF]), "_____w");
}

#[test]
fn fingerprint_duration() {
    let samples = vec![0i16; 44_100 * 2 * 3];
    let (_, secs) = compute_fingerprint(&samples, 44_100, 2).unwrap();
    assert_eq!(secs, 3);
}

#[test]
fn fingerprint_result_encodes_and_times() {
    assert_eq!(
        fingerprint_result(Some(vec![0x0403_0201]), 44_100 * 2 * 3 + 5, 44_100, 2),
        Some(("AQIDBA".to_string(), 3))
    );
    assert_eq!(fingerprint_result(Some(vec![]), 0, 8_000, 1), Some((String::new(), 0)));
    assert_eq!(fingerprint_result(None, 44_100, 44_100, 1), None);
}

#[test]
fn fingerprinting_refuses_low_rates() {
    let samples = vec![0i16; 1_000 * 4];
    assert_eq!(compute_fingerprint(&samples, 1_000, 1), None);
    assert_eq!(compute_fingerprint(&samples, 500, 2), None);
    let (_, secs) = compute_fingerprint(&samples, 1_001, 1).unwrap();
    assert_eq!(secs, 3);
    assert!(compute_fingerprint(&samples, 8_000, 2).is_some());
}

fn hit(score: u32, recordings: Option<Vec<&str>>) -> AcoustIdResult {
    AcoustIdResult { score, recordings: recordings.map(|r| r.into_iter().map(str::to_string).collect()) }
}

#[test]
fn acoustid_takes_the_first_confident_match() {
    let rs = vec![hit(700_000, Some(vec!["a"])), hit(900_000, Some(vec!["b", "c"])), hit(950_000, Some(vec!["d"]))];
    assert_eq!(select_mbid("ok", &rs).as_deref(), Some("b"));
    assert_eq!(select_mbid("error", &rs), None);
    let empty_first = vec![hit(800_001, Some(vec![])), hit(900_000, Some(vec!["e"]))];
    assert_eq!(select_mbid("ok", &empty_first), None);
    assert_eq!(select_mbid("ok", &vec![hit(800_000, Some(vec!["f"]))]), None);
    let r = acoustid_result("b".to_string());
    assert_eq!(r.source, SourceName::AcoustId);
    assert_eq!(r.confidence, 900_000_000);
    assert_eq!(r.mbid.as_deref(), Some("b"));
    assert!(r.genre.is_none() && r.year.is_none());
}

// ---------------------------------------------------------------------------
// AcousticBrainz, MB mapping, Wikipedia, Essentia
// ---------------------------------------------------------------------------

fn row(genre: &str, sub: Option<&str>) -> GenreRow {
    GenreRow { genre: genre.to_string(), subgenre: sub.map(str::to_string), source: "dortmund".to_string() }
}

#[test]
fn acousticbrainz_majority() {
    let res = rows_result(&vec![
        row("Electronic", Some("House")),
        row("rock", None),
        row("electronic", Some("house")),
    ])
    .unwrap();
    assert_eq!(res.source, SourceName::AcousticBrainz);
    assert_eq!(res.genre.as_deref(), Some("electronic"));
    assert_eq!(res.subgenre.as_deref(), Some("house"));
    assert_eq!(res.confidence, 666_666_666);
    let single = rows_result(&vec![row("Jazz", None)]).unwrap();
    assert_eq!(single.confidence, 950_000_000);
    assert_eq!(single.subgenre, None);
    let split = rows_result(&vec![row("a", None), row("b", None), row("c", None)]).unwrap();
    assert_eq!(split.genre.as_deref(), Some("a"));
    assert_eq!(split.confidence, 500_000_000);
    assert!(rows_result(&vec![]).is_none());
}

#[test]
fn mapped_and_confirmed_genres() {
    assert!(mb_mapping::lookup("synthpop").is_none());
    let m = mb_mapping::to_source_result(mb_mapping::MbGenre {
        mb_genre: "synth-pop".to_string(),
        mb_subgenre: None,
        confidence: 1_000_000_000,
    });
    assert_eq!(m.source, SourceName::MbMapping);
    assert_eq!(m.genre.as_deref(), Some("synth-pop"));
    assert!(validate_genre("house").is_none());
    let v = GenreValidation { parent_genre: Some("electronic".to_string()), origin_decade: None, confirmed: true };
    let w = confirmation_result("house".to_string(), v).unwrap();
    assert_eq!(w.source, SourceName::Wikipedia);
    assert_eq!(w.confidence, 700_000_000);
    assert_eq!(w.subgenre.as_deref(), Some("electronic"));
    let no = GenreValidation { parent_genre: None, origin_decade: None, confirmed: false };
    assert!(confirmation_result("house".to_string(), no).is_none());
}

#[test]
fn essentia_needs_its_model() {
    assert!(EssentiaClassifier::load("/models/genre.pb", false).is_none());
    let c = EssentiaClassifier::load("/models/genre.pb", true).unwrap();
    assert_eq!(c.model_path, "/models/genre.pb");
    assert!(c.analyze("/music/a.flac").is_none());
}
