use music_tagger::models::{Fraction, SourceName, SourceResult, TagWriteStatus};
use music_tagger::sources::acoustid::acoustid_result;
use music_tagger::sources::wikipedia::GenreValidation;
use music_tagger::tagger::genre_map::GenreMap;
use music_tagger::track_run::{Action, EmbeddedTags, Event, RunOptions, Stage, TrackRun};

fn builtin() -> GenreMap {
    GenreMap::builtin()
}

fn options(dry_run: bool) -> RunOptions {
    RunOptions {
        dry_run,
        force: false,
        skip_existing: false,
        correct_artist: false,
        map_genre: false,
        use_acoustid: false,
        use_acousticbrainz: false,
        use_essentia: false,
        confidence_threshold: 650,
    }
}

fn no_tags() -> EmbeddedTags {
    EmbeddedTags { artist: None, title: None, album: None, year: None, genre: None }
}

/// A source's answer, its confidence given in thousandths.
fn found(source: SourceName, year: Option<u32>, genre: Option<&str>, per_mille: u32) -> SourceResult {
    let confidence = per_mille * 1_000_000;
    SourceResult { source, year, genre: genre.map(str::to_string), subgenre: None, confidence, mbid: None }
}

fn is_share(c: &Fraction, num: u128, den: u128) -> bool {
    c.num * den == num * c.den
}

#[test]
fn fakes_are_reported_in_a_dry_run() {
    let (run, action) = TrackRun::start("/m/_fakes/x.mp3".to_string(), options(true));
    assert!(matches!(action, Action::PrintFake(ref t) if t == "[FAKE] /m/_fakes/x.mp3"));
    let result = run.finish();
    assert!(matches!(result.status, TagWriteStatus::DryRun));
    assert!(result.vote.is_none());
}

#[test]
fn fakes_are_marked_otherwise() {
    let (mut run, action) = TrackRun::start("/m/_Fakes/x.mp3".to_string(), options(false));
    assert!(matches!(action, Action::MarkFake));
    let next = run.step(Event::Status(TagWriteStatus::Written), &builtin());
    assert!(matches!(next, Action::Finish));
    let result = run.finish();
    assert!(matches!(result.status, TagWriteStatus::Written));
    assert!(result.vote.is_none());
}

#[test]
fn a_dry_run_from_start_to_finish() {
    let path = "/m/Artist - Song (Club Mix).flac";
    let (mut run, action) = TrackRun::start(path.to_string(), options(true));
    assert!(matches!(action, Action::ReadTags));
    assert!(run.tags_fit(&no_tags()));
    let action = run.step(Event::Tags(no_tags()), &builtin());
    assert!(matches!(action, Action::QueryMain));
    assert_eq!(run.track.artist.as_deref(), Some("Artist"));
    assert_eq!(run.track.title.as_deref(), Some("Song"));

    let action = run.step(Event::Main {
        musicbrainz: Some(found(SourceName::MusicBrainz, Some(1985), Some("Synth-Pop"), 800)),
        mbid: Some("mb-1".to_string()),
        discogs: Some(found(SourceName::Discogs, Some(1985), Some("pop"), 700)),
        lastfm: None,
    }, &builtin());
    assert!(matches!(action, Action::QueryWikiSong(ref a, ref t) if a == "Artist" && t == "Song"));
    assert_eq!(run.stage, Stage::WikiSong);

    let action = run.step(Event::Found(Some(found(SourceName::WikiSong, None, Some("synth-pop"), 850))), &builtin());
    // synth-pop leads before normalization: 3.0*0.8 + 3.5*0.85 against pop's 0.7.
    assert!(matches!(action, Action::ValidateGenre(ref g) if g == "synth-pop"));

    let action = run.step(
        Event::Validated(Some(GenreValidation {
            parent_genre: Some("pop".to_string()),
            origin_decade: None,
            confirmed: true,
        })),
        &builtin(),
    );
    assert_eq!(run.results.len(), 4);
    assert_eq!(run.results[3].source, SourceName::Wikipedia);
    assert_eq!(run.results[3].genre.as_deref(), Some("synth-pop"));
    assert_eq!(run.results[3].confidence, 700_000_000);
    // synth-pop folds into pop; Wikipedia does not count as a source.
    let expected = "[DRY-RUN] /m/Artist - Song (Club Mix).flac\n  year=1985 (75%) | genre=pop (80%) | subgenre=pop | decade=1980s";
    assert!(matches!(action, Action::PrintReport(ref t) if t == expected));

    let action = run.step(Event::Done, &builtin());
    assert!(matches!(action, Action::Finish));
    let result = run.finish();
    assert!(matches!(result.status, TagWriteStatus::DryRun));
    let vote = result.vote.unwrap();
    let (g, c) = vote.genre.clone().unwrap();
    assert!(g == "pop" && is_share(&c, 4, 5));
    let (y, c) = vote.year.unwrap();
    assert!(y == 1985 && is_share(&c, 3, 4));
    assert_eq!(
        vote.sources_used,
        vec![SourceName::MusicBrainz, SourceName::Discogs, SourceName::WikiSong, SourceName::Wikipedia]
    );
}

#[test]
fn tagged_tracks_are_skipped_when_asked() {
    let mut o = options(false);
    o.skip_existing = true;
    let (mut run, _) = TrackRun::start("/m/a.flac".to_string(), o);
    let tags = EmbeddedTags {
        artist: Some("A".to_string()),
        title: Some("T".to_string()),
        album: None,
        year: Some(1990),
        genre: Some("pop".to_string()),
    };
    assert!(matches!(run.step(Event::Tags(tags), &builtin()), Action::Finish));
    let result = run.finish();
    assert!(matches!(result.status, TagWriteStatus::Skipped));
    assert!(result.vote.unwrap().genre.is_none());
}

#[test]
fn a_written_track_is_corrected_and_mapped() {
    let mut o = options(false);
    o.correct_artist = true;
    o.map_genre = true;
    let (mut run, _) = TrackRun::start("/m/a.flac".to_string(), o);
    let tags = EmbeddedTags { artist: Some("A".to_string()), title: Some("T".to_string()), ..no_tags() };
    assert!(matches!(run.step(Event::Tags(tags), &builtin()), Action::QueryMain));
    let a = run.step(Event::Main {
        musicbrainz: Some(found(SourceName::MusicBrainz, None, Some("House"), 1000)),
        mbid: None,
        discogs: None,
        lastfm: None,
    }, &builtin());
    assert!(matches!(a, Action::QueryWikiSong(_, _)));
    assert!(matches!(run.step(Event::Found(None), &builtin()), Action::ValidateGenre(ref g) if g == "house"));
    // House at 3.0 is strong: it is written.
    assert!(matches!(run.step(Event::Validated(None), &builtin()), Action::WriteTags));
    assert!(!run.vote.as_ref().unwrap().needs_review);
    assert!(matches!(run.step(Event::Status(TagWriteStatus::Written), &builtin()), Action::CorrectArtist(ref x) if x == "A"));
    assert!(matches!(run.step(Event::Done, &builtin()), Action::MapGenre));
    assert!(matches!(run.step(Event::Done, &builtin()), Action::Finish));
    assert!(matches!(run.finish().status, TagWriteStatus::Written));
}

#[test]
fn a_track_needing_review_is_not_written() {
    let mut o = options(false);
    o.correct_artist = true;
    let (mut run, _) = TrackRun::start("/m/a.flac".to_string(), o);
    let tags = EmbeddedTags { artist: Some("A".to_string()), ..no_tags() };
    assert!(matches!(run.step(Event::Tags(tags), &builtin()), Action::QueryMain));
    // No title: no song article; no genre: nothing to validate.
    let a = run.step(Event::Main { musicbrainz: None, mbid: None, discogs: None, lastfm: None }, &builtin());
    assert!(matches!(a, Action::CorrectArtist(ref x) if x == "A"));
    assert!(matches!(run.status, Some(TagWriteStatus::NeedsReview)));
    assert!(matches!(run.step(Event::Done, &builtin()), Action::Finish));
}

#[test]
fn a_forced_run_writes_a_track_needing_review() {
    let mut o = options(false);
    o.force = true;
    let (mut run, _) = TrackRun::start("/m/a.flac".to_string(), o);
    let tags = EmbeddedTags { artist: Some("A".to_string()), title: Some("T".to_string()), ..no_tags() };
    assert!(matches!(run.step(Event::Tags(tags), &builtin()), Action::QueryMain));
    let a = run.step(Event::Main {
        musicbrainz: Some(found(SourceName::MusicBrainz, Some(1984), Some("pop"), 500)),
        mbid: None,
        discogs: None,
        lastfm: Some(found(SourceName::LastFm, None, Some("pop"), 500)),
    }, &builtin());
    assert!(matches!(a, Action::QueryWikiSong(_, _)));
    assert!(matches!(run.step(Event::Found(None), &builtin()), Action::ValidateGenre(ref g) if g == "pop"));
    // pop scores 2.75 of a possible 5.5: the vote needs review, yet it is written.
    assert!(matches!(run.step(Event::Validated(None), &builtin()), Action::WriteTags));
    assert!(run.vote.as_ref().unwrap().needs_review);
    assert!(matches!(run.step(Event::Status(TagWriteStatus::Written), &builtin()), Action::Finish));
    assert!(matches!(run.finish().status, TagWriteStatus::Written));
}

#[test]
fn an_unforced_run_leaves_the_same_track_for_review() {
    let (mut run, _) = TrackRun::start("/m/a.flac".to_string(), options(false));
    let tags = EmbeddedTags { artist: Some("A".to_string()), title: Some("T".to_string()), ..no_tags() };
    run.step(Event::Tags(tags), &builtin());
    run.step(Event::Main {
        musicbrainz: Some(found(SourceName::MusicBrainz, Some(1984), Some("pop"), 500)),
        mbid: None,
        discogs: None,
        lastfm: Some(found(SourceName::LastFm, None, Some("pop"), 500)),
    }, &builtin());
    run.step(Event::Found(None), &builtin());
    assert!(matches!(run.step(Event::Validated(None), &builtin()), Action::Finish));
    assert!(matches!(run.finish().status, TagWriteStatus::NeedsReview));
}

#[test]
fn acoustid_comes_before_the_acousticbrainz_table() {
    let mut o = options(true);
    o.use_acoustid = true;
    o.use_acousticbrainz = true;
    o.use_essentia = true;
    let (mut run, _) = TrackRun::start("/m/a.flac".to_string(), o);
    run.step(Event::Tags(no_tags()), &builtin());
    let a = run.step(Event::Main { musicbrainz: None, mbid: Some("mb".to_string()), discogs: None, lastfm: None }, &builtin());
    assert!(matches!(a, Action::QueryAcoustId));
    let a = run.step(Event::Found(Some(acoustid_result("ac".to_string()))), &builtin());
    assert!(matches!(a, Action::LookupAcousticBrainz(ref m) if m == "ac"));
    let a = run.step(Event::Found(None), &builtin());
    assert!(matches!(a, Action::RunEssentia));
    // No artist or title: the song article is not looked for; no genre: the vote needs review.
    let a = run.step(Event::Found(None), &builtin());
    assert!(matches!(a, Action::Finish));
    assert!(matches!(run.status, Some(TagWriteStatus::NeedsReview)));
}

#[test]
fn musicbrainz_mbid_when_acoustid_finds_nothing() {
    let mut o = options(true);
    o.use_acoustid = true;
    o.use_acousticbrainz = true;
    let (mut run, _) = TrackRun::start("/m/a.flac".to_string(), o);
    run.step(Event::Tags(no_tags()), &builtin());
    run.step(Event::Main { musicbrainz: None, mbid: Some("mb".to_string()), discogs: None, lastfm: None }, &builtin());
    let a = run.step(Event::Found(None), &builtin());
    assert!(matches!(a, Action::LookupAcousticBrainz(ref m) if m == "mb"));
}

#[test]
fn failures_end_the_run() {
    let (mut run, _) = TrackRun::start("/m/a.flac".to_string(), options(false));
    assert!(matches!(run.step(Event::Failed("unreadable".to_string()), &builtin()), Action::Finish));
    let result = run.finish();
    assert!(matches!(result.status, TagWriteStatus::Error(ref e) if e == "unreadable"));
    assert!(result.vote.is_none());
}
