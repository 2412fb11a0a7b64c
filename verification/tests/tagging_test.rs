use music_tagger::cache::{genre_is_fresh, is_fresh, track_is_fresh};
use music_tagger::cli::tag_is_dry_run;
use music_tagger::config::{jobs_from, Config, ConfigError};
use music_tagger::models::{Fraction, SourceName, TrackMetadata, VoteResult};
use music_tagger::pipeline::{
    clean_remix_title, dummy_vote, has_audio_extension, has_existing_tags, is_in_fakes_folder, is_remix,
    is_remix_title, parse_filename, resolve_mbid, search_title, should_skip,
};
use music_tagger::tagger::correction::{self, artist_correction, artist_search_url, map_genre, score_of_match};
use music_tagger::tagger::writer::{dry_run_report, fake_report, tag_ops, write_step, TagOp, WriteStep};

// ---------------------------------------------------------------------------
// Titles and files
// ---------------------------------------------------------------------------

#[test]
fn remix_titles() {
    assert!(is_remix_title("Like a Virgin (Maik Schafer Pleasure and Pain Remix)"));
    assert!(is_remix_title("Blue Monday (12\" Mix)"));
    assert!(is_remix_title("Holiday (Peter Slaghuis)"));
    assert!(is_remix_title("Holiday (Jean-Luc O'Neil)"));
    assert!(!is_remix_title("Holiday (Part 2)"));
    assert!(!is_remix_title("Holiday (Live at Wembley)"));
    assert!(!is_remix_title("Holiday (Five Words Is Too Many)"));
    assert!(!is_remix_title("Holiday"));
}

#[test]
fn remix_titles_are_cleaned() {
    assert_eq!(clean_remix_title("Like a Virgin (Maik Schafer Pleasure and Pain Remix)"), "Like a Virgin");
    assert_eq!(clean_remix_title("Careless Whisper (DMC Remix)"), "Careless Whisper");
    assert_eq!(clean_remix_title("Song (one two three four five six)"), "Song");
    assert_eq!(clean_remix_title("  Song  "), "Song");
    assert_eq!(search_title("Careless Whisper (DMC Remix)"), "Careless Whisper");
    assert_eq!(search_title("Careless Whisper (Live)"), "Careless Whisper (Live)");
}

#[test]
fn fakes_folders() {
    assert!(is_in_fakes_folder("/music/_FAKES/a.mp3"));
    assert!(is_in_fakes_folder("/music/_fakes"));
    assert!(!is_in_fakes_folder("/music/fakes/a.mp3"));
    assert!(!is_in_fakes_folder("/music/_fakes_old/a.mp3"));
}

#[test]
fn remix_files_and_audio_files() {
    assert!(is_remix("/music/Artist - Song (Extended Mix).flac"));
    assert!(!is_remix("/music/Artist - Song.flac"));
    assert!(is_remix("/music/bootleg/../Song MEGAMIX.mp3"));
    assert!(has_audio_extension("/music/a.FLAC"));
    assert!(has_audio_extension("/music/a.aif"));
    assert!(!has_audio_extension("/music/a.ogg"));
    assert!(!has_audio_extension("/music/noext"));
    assert!(!has_audio_extension("/music/.mp3"));
}

#[test]
fn artist_and_title_from_file_name() {
    assert_eq!(
        parse_filename("/music/Artist - Title (Extra).flac"),
        Some(("Artist".to_string(), "Title".to_string()))
    );
    assert_eq!(
        parse_filename("Eric B. & Rakim - Paid in Full - Remix.mp3"),
        Some(("Eric B. & Rakim".to_string(), "Paid in Full - Remix".to_string()))
    );
    assert_eq!(parse_filename("/music/NoSeparator.flac"), None);
    assert_eq!(parse_filename("/music/ - Title.mp3"), None);
    assert_eq!(parse_filename("/music/Artist - .mp3"), None);
    assert_eq!(
        parse_filename("/music/Artist - (Intro).mp3"),
        Some(("Artist".to_string(), "(Intro)".to_string()))
    );
}

fn track(year: Option<u32>, genre: Option<&str>) -> TrackMetadata {
    TrackMetadata {
        path: "/music/a.flac".to_string(),
        artist: Some("A".to_string()),
        title: Some("T".to_string()),
        album: None,
        existing_year: year,
        existing_genre: genre.map(str::to_string),
        fingerprint: None,
        mbid: None,
    }
}

#[test]
fn skipping_tagged_tracks() {
    let tagged = track(Some(1990), Some("pop"));
    let half = track(Some(1990), None);
    assert!(has_existing_tags(&tagged));
    assert!(!has_existing_tags(&half));
    assert!(should_skip(&tagged, true, false));
    assert!(!should_skip(&tagged, true, true));
    assert!(!should_skip(&tagged, false, false));
    assert!(!should_skip(&half, true, false));
    let d = dummy_vote();
    assert!(d.year.is_none() && d.genre.is_none() && !d.needs_review && d.sources_used.is_empty());
}

#[test]
fn acoustid_mbid_comes_first() {
    assert_eq!(resolve_mbid(Some("a".into()), Some("b".into())).as_deref(), Some("a"));
    assert_eq!(resolve_mbid(None, Some("b".into())).as_deref(), Some("b"));
    assert_eq!(resolve_mbid(None, None), None);
}

// ---------------------------------------------------------------------------
// Writing
// ---------------------------------------------------------------------------

fn full_vote(review: bool) -> VoteResult {
    VoteResult {
        year: Some((1985, Fraction { num: 4, den: 5 })),
        decade: Some("1980s".to_string()),
        genre: Some(("synth-pop".to_string(), Fraction { num: 855, den: 1000 })),
        subgenre: Some(("new wave".to_string(), Fraction { num: 1, den: 2 })),
        needs_review: review,
        sources_used: vec![SourceName::Discogs],
    }
}

fn empty_vote() -> VoteResult {
    VoteResult { year: None, decade: None, genre: None, subgenre: None, needs_review: false, sources_used: vec![] }
}

#[test]
fn write_steps() {
    assert_eq!(write_step(&full_vote(true), false, false), WriteStep::Review);
    assert_eq!(write_step(&full_vote(true), true, false), WriteStep::Review);
    assert_eq!(write_step(&full_vote(false), true, false), WriteStep::Preview);
    assert_eq!(write_step(&full_vote(false), false, false), WriteStep::Write);
}

#[test]
fn forcing_writes_a_vote_that_needs_review() {
    assert_eq!(write_step(&full_vote(true), false, true), WriteStep::Write);
    assert_eq!(write_step(&full_vote(true), true, true), WriteStep::Preview);
    assert_eq!(write_step(&full_vote(false), false, true), WriteStep::Write);
}

#[test]
fn vorbis_tag_ops() {
    let ops = tag_ops(&full_vote(false), true);
    assert_eq!(ops.len(), 5);
    assert!(matches!(&ops[0], TagOp::ClearYear));
    assert!(matches!(&ops[1], TagOp::SetCustom(k, v) if k == "YEAR" && v == "1985"));
    assert!(matches!(&ops[2], TagOp::SetGenre(g) if g == "synth-pop"));
    assert!(matches!(&ops[3], TagOp::SetCustom(k, v) if k == "SUBGENRE" && v == "new wave"));
    assert!(matches!(&ops[4], TagOp::SetCustom(k, v) if k == "decade" && v == "1980s"));
}

#[test]
fn other_tag_ops() {
    let ops = tag_ops(&full_vote(false), false);
    assert_eq!(ops.len(), 4);
    assert!(matches!(&ops[0], TagOp::SetYear(y) if y == "1985"));
    assert!(matches!(&ops[1], TagOp::SetGenre(g) if g == "synth-pop"));
    assert!(matches!(&ops[3], TagOp::SetCustom(k, v) if k == "GROUPING" && v == "1980s"));
    assert!(tag_ops(&empty_vote(), true).is_empty());
}

#[test]
fn dry_run_reports() {
    assert_eq!(
        dry_run_report("/m/a.flac", &full_vote(false)),
        "[DRY-RUN] /m/a.flac\n  year=1985 (80%) | genre=synth-pop (86%) | subgenre=new wave | decade=1980s"
    );
    assert_eq!(
        dry_run_report("p", &empty_vote()),
        "[DRY-RUN] p\n  year=- | genre=- | subgenre=- | decade=-"
    );
    let mut v = empty_vote();
    v.genre = Some(("pop".to_string(), Fraction { num: 845, den: 1000 }));
    v.year = Some((2001, Fraction { num: 2, den: 3 }));
    assert_eq!(dry_run_report("p", &v), "[DRY-RUN] p\n  year=2001 (67%) | genre=pop (84%) | subgenre=- | decade=-");
    v.genre = Some(("pop".to_string(), Fraction { num: 68_504, den: 100_000 }));
    v.year = Some((2001, Fraction { num: 0, den: 7 }));
    assert_eq!(dry_run_report("p", &v), "[DRY-RUN] p\n  year=2001 (0%) | genre=pop (69%) | subgenre=- | decade=-");
    assert_eq!(fake_report("/m/_fakes/x.mp3"), "[FAKE] /m/_fakes/x.mp3");
}

// ---------------------------------------------------------------------------
// Corrections
// ---------------------------------------------------------------------------

/// Form decoding, as a server reads a query value.
fn form_decode(t: &str) -> String {
    let b = t.as_bytes();
    let mut out = Vec::new();
    let mut i = 0;
    while i < b.len() {
        if b[i] == b'+' {
            out.push(b' ');
            i += 1;
        } else if b[i] == b'%' && i + 2 < b.len() {
            out.push(u8::from_str_radix(&t[i + 1..i + 3], 16).unwrap());
            i += 3;
        } else {
            out.push(b[i]);
            i += 1;
        }
    }
    String::from_utf8(out).unwrap()
}

#[test]
fn ascii_query_values_decode_back() {
    for s in ["AC/DC & Queen+", "100% pure", "a+b=c?d", "", " ~x~ ", "\t\n%"] {
        let e = correction::urlencoding(s);
        assert!(e.chars().all(|c| c.is_ascii_alphanumeric() || "-_.~+%".contains(c)));
        assert_eq!(form_decode(&e), s);
    }
}

#[test]
fn artist_queries() {
    assert_eq!(correction::urlencoding("AC/DC & Co."), "AC%2FDC+%26+Co.");
    assert_eq!(correction::urlencoding("Björk"), "Björk");
    assert_eq!(correction::urlencoding("AC/DC & Queen+"), "AC%2FDC+%26+Queen%2B");
    assert_eq!(correction::urlencoding("100%\t~_-"), "100%25%09~_-");
    assert_eq!(
        artist_search_url("a-ha"),
        "https://musicbrainz.org/ws/2/artist/?query=artist:a-ha&limit=1&fmt=json"
    );
}

#[test]
fn artist_corrections() {
    assert_eq!(score_of_match(Some("95"), Some(10)), 95);
    assert_eq!(score_of_match(Some("n/a"), Some(92)), 92);
    assert_eq!(score_of_match(None, None), 0);
    assert_eq!(artist_correction("ABBA", 100, "ABBA"), None);
    assert_eq!(artist_correction("Abba", 89, "ABBA"), None);
    assert_eq!(artist_correction("Abba", 90, "ABBA").as_deref(), Some("ABBA"));
}

#[test]
fn dj_categories() {
    assert_eq!(map_genre("  House "), Some("House & Electronic"));
    assert_eq!(map_genre("POP"), Some("Pop & Dance"));
    assert_eq!(map_genre("hip-hop"), Some("Hip-Hop & R&B"));
    assert_eq!(map_genre("Funk"), Some("Disco, Funk & Soul"));
    assert_eq!(map_genre("blues"), Some("Jazz"));
    assert_eq!(map_genre("ska"), Some("Reggae & Dancehall"));
    assert_eq!(map_genre("reggaeton"), Some("World & Latin"));
    assert_eq!(map_genre("country"), Some("Country"));
    assert_eq!(map_genre("classical"), Some("Classical"));
    assert_eq!(map_genre("synth"), Some("Synth Pop & New Wave"));
    assert_eq!(map_genre("polka"), None);
    assert_eq!(map_genre("synth-pop"), None);
}

// ---------------------------------------------------------------------------
// Settings, cache, command line, names
// ---------------------------------------------------------------------------

fn config(d: &str, l: &str, a: &str) -> Config {
    Config {
        discogs_token: d.to_string(),
        lastfm_api_key: l.to_string(),
        acoustid_app_key: a.to_string(),
        confidence_threshold: 650,
        jobs: 8,
        essentia_model_path: None,
    }
}

#[test]
fn api_keys() {
    assert_eq!(config("d", "l", "a").validate_api_keys(), Ok(()));
    assert_eq!(config("", "", "").validate_api_keys(), Err(ConfigError::MissingDiscogsToken));
    assert_eq!(config("d", "", "").validate_api_keys(), Err(ConfigError::MissingLastfmApiKey));
    assert_eq!(config("d", "l", "").validate_api_keys(), Err(ConfigError::MissingAcoustidAppKey));
    assert_eq!(ConfigError::MissingLastfmApiKey.message(), "LASTFM_API_KEY no definido en .env");
}

#[test]
fn job_counts() {
    assert_eq!(jobs_from(Some("4")), 4);
    assert_eq!(jobs_from(Some("+3")), 3);
    assert_eq!(jobs_from(Some("four")), 8);
    assert_eq!(jobs_from(Some("")), 8);
    assert_eq!(jobs_from(Some(" 4")), 8);
    assert_eq!(jobs_from(None), 8);
}

#[test]
fn cache_freshness() {
    assert!(track_is_fresh(7_776_000, 0));
    assert!(!track_is_fresh(7_776_001, 0));
    assert!(genre_is_fresh(15_552_000, 0));
    assert!(!genre_is_fresh(15_552_001, 0));
    assert!(is_fresh(5, 10, 0));
    assert!(!is_fresh(11, 10, 0));
}

#[test]
fn dry_run_is_the_default() {
    assert!(tag_is_dry_run(false, false));
    assert!(tag_is_dry_run(true, true));
    assert!(!tag_is_dry_run(false, true));
}

#[test]
fn source_names() {
    assert_eq!(SourceName::LastFm.to_string(), "Last.fm");
    assert_eq!(SourceName::AcoustId.to_string(), "AcoustID");
    assert_eq!(SourceName::MbMapping.to_string(), "MB Mapping");
}

// ---------------------------------------------------------------------------
// What the commands ask, and what a run reports
// ---------------------------------------------------------------------------

use music_tagger::cli::{run_options, Commands};
use music_tagger::models::TagWriteStatus;
use music_tagger::pipeline::{remix_cut_is_clean, ProcessResult};
use music_tagger::report::{audit_files, count_statuses, missing_fields, missing_label, needs_review_paths, Missing};

#[test]
fn tag_and_retry_options() {
    let tag = Commands::Tag {
        path: "/m".to_string(),
        dry_run: false,
        write: true,
        force: true,
        skip_existing: false,
        correct_artist: true,
        map_genre: false,
    };
    let o = run_options(&tag, 650, true, false, true).unwrap();
    assert!(!o.dry_run && o.force && o.correct_artist && !o.map_genre);
    assert!(o.use_acoustid && !o.use_essentia && o.use_acousticbrainz);
    assert_eq!(o.confidence_threshold, 650);
    let retry = Commands::Retry { path: "/m".to_string(), write: false };
    let r = run_options(&retry, 700, false, true, false).unwrap();
    assert!(r.dry_run && !r.force && !r.skip_existing && r.use_essentia);
    assert!(run_options(&Commands::Audit { path: "/m".to_string() }, 650, true, true, true).is_none());
}

#[test]
fn audit_labels() {
    assert_eq!(missing_fields(false, false), Some(Missing::YearAndGenre));
    assert_eq!(missing_fields(false, true), Some(Missing::Year));
    assert_eq!(missing_fields(true, false), Some(Missing::Genre));
    assert_eq!(missing_fields(true, true), None);
    assert_eq!(missing_label(Missing::YearAndGenre), "[MISSING year+genre]");
    assert_eq!(missing_label(Missing::Genre), "[MISSING genre]");
    let files = vec![
        "/m/A - Song.flac".to_string(),
        "/m/A - Song (Dub Mix).flac".to_string(),
        "/m/B - Other.mp3".to_string(),
    ];
    assert_eq!(audit_files(&files), vec!["/m/A - Song.flac".to_string(), "/m/B - Other.mp3".to_string()]);
}

fn processed(path: &str, status: TagWriteStatus) -> ProcessResult {
    ProcessResult { path: path.to_string(), status, vote: None }
}

#[test]
fn run_tally() {
    let rs = vec![
        processed("a", TagWriteStatus::Written),
        processed("b", TagWriteStatus::NeedsReview),
        processed("c", TagWriteStatus::DryRun),
        processed("d", TagWriteStatus::Skipped),
        processed("e", TagWriteStatus::Error("x".to_string())),
        processed("f", TagWriteStatus::NeedsReview),
    ];
    let c = count_statuses(&rs);
    assert_eq!((c.written, c.dry_run, c.needs_review, c.errors), (1, 1, 2, 1));
    assert_eq!(needs_review_paths(&rs), vec!["b".to_string(), "f".to_string()]);
}

#[test]
fn remix_cuts() {
    assert!(remix_cut_is_clean("Careless Whisper (DMC Remix)"));
    assert!(remix_cut_is_clean("No credit here"));
    // Each "İ" lowercases to three bytes instead of two: the cut moves three
    // bytes on and falls inside the "é".
    assert!(!remix_cut_is_clean("İİİ (éRemix)"));
    assert!(remix_cut_is_clean("İİİ (Remix)"));
}
