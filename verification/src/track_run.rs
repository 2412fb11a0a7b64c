//! The processing of one track, step by step: which outside work comes next
//! (reading tags, asking each source, writing), given what the last step
//! brought back.
//!
//! The caller performs each `Action` and hands its outcome back as an
//! `Event`, until the run asks to `Finish`.

use vstd::prelude::*;
use crate::models::{SourceResult, TagWriteStatus, TrackMetadata, VoteResult};
use crate::pipeline::{
    clean_remix_title, cleaned_title, cut_is_clean, dummy_vote, filename_parts, in_fakes_folder,
    is_in_fakes_folder, is_remix_title, parse_filename, remix_cut_is_clean, remix_title, resolve_mbid,
    should_skip, ProcessResult,
};
use crate::sources::wikipedia::{confirmation_result, GenreValidation};
use crate::tagger::genre_map::GenreMap;
use crate::tagger::voter::{genre_leader, is_vote_of, quick_genre_leader, vote_with_map};
use crate::tagger::writer::{dry_run_report, dry_run_text, fake_report, write_step, WriteStep};
use crate::text::opt_chars;

verus! {

/// What the command asks of every track, and which optional sources are there.
#[derive(Debug, Clone, Copy)]
pub struct RunOptions {
    pub dry_run: bool,
    pub force: bool,
    pub skip_existing: bool,
    pub correct_artist: bool,
    pub map_genre: bool,
    /// An AcoustID key is configured.
    pub use_acoustid: bool,
    /// The AcousticBrainz table is open.
    pub use_acousticbrainz: bool,
    /// The audio classifier is loaded.
    pub use_essentia: bool,
    /// In thousandths.
    pub confidence_threshold: u32,
}

/// The tags found in a file.
#[derive(Debug)]
pub struct EmbeddedTags {
    pub artist: Option<String>,
    pub title: Option<String>,
    pub album: Option<String>,
    pub year: Option<u32>,
    pub genre: Option<String>,
}

/// Where a run stands: the outside work it waits for.
#[derive(Debug, Clone, Copy, PartialEq, Eq, Structural)]
pub enum Stage {
    Faking,
    Reading,
    Main,
    AcoustId,
    AcousticBrainz,
    Essentia,
    WikiSong,
    Validation,
    Printing,
    Writing,
    Correcting,
    Mapping,
    Finished,
}

/// The outside work to do next.
#[derive(Debug)]
pub enum Action {
    /// Print this line for a file in a `_fakes` folder; answer `Done`.
    PrintFake(String),
    /// Mark the file as fake in its tags; answer `Status`.
    MarkFake,
    /// Read the file's tags; answer `Tags` or `Failed`.
    ReadTags,
    /// Ask MusicBrainz, Discogs and Last.fm about `run.track`; answer `Main` or `Failed`.
    QueryMain,
    /// Fingerprint the file and ask AcoustID; answer `Found`.
    QueryAcoustId,
    /// Look the recording up in the AcousticBrainz table; answer `Found`.
    LookupAcousticBrainz(String),
    /// Classify the audio; answer `Found`.
    RunEssentia,
    /// Look for the song's Wikipedia article (artist, title); answer `Found`.
    QueryWikiSong(String, String),
    /// Ask Wikipedia about the leading genre; answer `Validated`.
    ValidateGenre(String),
    /// Print the dry-run report; answer `Done`.
    PrintReport(String),
    /// Write `run.vote` into the file's tags; answer `Status`.
    WriteTags,
    /// Look for the artist's corrected name and write it; answer `Done`.
    CorrectArtist(String),
    /// Map the file's genre to its DJ category and write it; answer `Done`.
    MapGenre,
    /// The run is over: take its result.
    Finish,
}

/// What the last action brought back.
#[derive(Debug)]
pub enum Event {
    Tags(EmbeddedTags),
    Failed(String),
    Main {
        musicbrainz: Option<SourceResult>,
        mbid: Option<String>,
        discogs: Option<SourceResult>,
        lastfm: Option<SourceResult>,
    },
    Found(Option<SourceResult>),
    Validated(Option<GenreValidation>),
    Status(TagWriteStatus),
    Done,
}

/// One track being processed.
#[derive(Debug)]
pub struct TrackRun {
    pub stage: Stage,
    pub options: RunOptions,
    pub track: TrackMetadata,
    /// What the sources said, in the order they said it.
    pub results: Vec<SourceResult>,
    pub mb_mbid: Option<String>,
    pub acoustid_mbid: Option<String>,
    pub vote: Option<VoteResult>,
    pub status: Option<TagWriteStatus>,
}

// ---------------------------------------------------------------------------
// The plan
// ---------------------------------------------------------------------------

/// Artist and title: the tags, completed from a `"Artist - Title"` file name
/// when either is missing.
pub open spec fn completed_names(path: Seq<char>, artist: Option<Seq<char>>, title: Option<Seq<char>>) -> (
    Option<Seq<char>>,
    Option<Seq<char>>,
) {
    if artist is Some && title is Some {
        (artist, title)
    } else {
        match filename_parts(path) {
            Some((a, t)) => (
                if artist is Some {
                    artist
                } else {
                    Some(a)
                },
                if title is Some {
                    title
                } else {
                    Some(t)
                },
            ),
            None => (artist, title),
        }
    }
}

/// The title searched for: a remix title is cleaned.
pub open spec fn searched_title(title: Option<Seq<char>>) -> Option<Seq<char>> {
    match title {
        Some(t) => Some(
            if remix_title(t) {
                cleaned_title(t)
            } else {
                t
            },
        ),
        None => None,
    }
}

/// The track read from a file: its tags, names completed from the file
/// name, a remix title cleaned.
pub open spec fn track_of(path: Seq<char>, tags: EmbeddedTags, track: TrackMetadata) -> bool {
    let (a, t) = completed_names(path, opt_chars(tags.artist), opt_chars(tags.title));
    &&& track.path@ == path
    &&& opt_chars(track.artist) == a
    &&& opt_chars(track.title) == searched_title(t)
    &&& track.album == tags.album
    &&& track.existing_year == tags.year
    &&& track.existing_genre == tags.genre
    &&& track.fingerprint is None
    &&& track.mbid is None
}

/// The optional sources, in the order they are asked.
pub open spec fn source_stage(i: int) -> Stage {
    if i == 0 {
        Stage::AcoustId
    } else if i == 1 {
        Stage::AcousticBrainz
    } else if i == 2 {
        Stage::Essentia
    } else if i == 3 {
        Stage::WikiSong
    } else {
        Stage::Validation
    }
}

/// The steps after writing, in order.
pub open spec fn wrap_stage(i: int) -> Stage {
    if i == 0 {
        Stage::Correcting
    } else {
        Stage::Mapping
    }
}

/// Whether the run takes the optional step `s`: AcoustID with a key, the
/// AcousticBrainz table with a table and an MBID (AcoustID's first), the
/// classifier when loaded, the song article with artist and title, the
/// genre check when some genre leads; after writing (not in a dry run), the
/// artist correction when asked and the artist is known, the genre mapping when asked.
pub open spec fn wants(r: TrackRun, s: Stage) -> bool {
    match s {
        Stage::AcoustId => r.options.use_acoustid,
        Stage::AcousticBrainz => r.options.use_acousticbrainz && (r.acoustid_mbid is Some
            || r.mb_mbid is Some),
        Stage::Essentia => r.options.use_essentia,
        Stage::WikiSong => r.track.artist is Some && r.track.title is Some,
        Stage::Validation => genre_leader(r.results@) is Some,
        Stage::Correcting => !r.options.dry_run && r.options.correct_artist && r.track.artist is Some,
        Stage::Mapping => !r.options.dry_run && r.options.map_genre,
        _ => false,
    }
}

/// The first optional source at or after position `i` that the run takes, or 5.
pub open spec fn next_source(r: TrackRun, i: int) -> int
    decreases 5 - i,
{
    if i < 0 || i >= 5 {
        5
    } else if wants(r, source_stage(i)) {
        i
    } else {
        next_source(r, i + 1)
    }
}

/// The first step after writing at or after position `i` that the run takes, or 2.
pub open spec fn next_wrap(r: TrackRun, i: int) -> int
    decreases 2 - i,
{
    if i < 0 || i >= 2 {
        2
    } else if wants(r, wrap_stage(i)) {
        i
    } else {
        next_wrap(r, i + 1)
    }
}

/// The action that starts the step `s` of `r`.
pub open spec fn starts(r: TrackRun, s: Stage, a: Action) -> bool {
    match s {
        Stage::AcoustId => a is QueryAcoustId,
        Stage::AcousticBrainz => a matches Action::LookupAcousticBrainz(m) && Some(m) == resolved(r),
        Stage::Essentia => a is RunEssentia,
        Stage::WikiSong => a matches Action::QueryWikiSong(x, y) && r.track.artist == Some(x)
            && r.track.title == Some(y),
        Stage::Validation => a matches Action::ValidateGenre(g) && genre_leader(r.results@) == Some(g@),
        Stage::Correcting => a matches Action::CorrectArtist(x) && r.track.artist == Some(x),
        Stage::Mapping => a is MapGenre,
        _ => false,
    }
}

/// The MBID used for the AcousticBrainz table: AcoustID's, else MusicBrainz's.
pub open spec fn resolved(r: TrackRun) -> Option<String> {
    if r.acoustid_mbid is Some {
        r.acoustid_mbid
    } else {
        r.mb_mbid
    }
}

/// After writing (or not), the run goes on from step `i` of the wrap-up.
pub open spec fn wraps_up(r: TrackRun, i: int, a: Action) -> bool {
    let k = next_wrap(r, i);
    if k < 2 {
        r.stage == wrap_stage(k) && starts(r, wrap_stage(k), a)
    } else {
        r.stage == Stage::Finished && a is Finish
    }
}

/// The run has voted over its results and acted on the vote: a vote that
/// needs review is not written unless the run is forced, a dry run prints its
/// report, otherwise the tags are written.
pub open spec fn voted(r: TrackRun, a: Action, m: Seq<(Seq<char>, Seq<char>)>) -> bool {
    &&& r.vote matches Some(v)
    &&& is_vote_of(v, r.results@, r.options.confidence_threshold, m)
    &&& if v.needs_review && !r.options.force {
        r.status == Some(TagWriteStatus::NeedsReview) && wraps_up(r, 0, a)
    } else if r.options.dry_run {
        &&& r.status == Some(TagWriteStatus::DryRun)
        &&& r.stage == Stage::Printing
        &&& a matches Action::PrintReport(t) && t@ == dry_run_text(r.track.path@, v)
    } else {
        r.status is None && r.stage == Stage::Writing && a is WriteTags
    }
}

/// The run goes on from optional source `i`: to the next source it takes,
/// or to the vote.
pub open spec fn goes_on(r: TrackRun, i: int, a: Action, m: Seq<(Seq<char>, Seq<char>)>) -> bool {
    let k = next_source(r, i);
    if k < 5 {
        r.stage == source_stage(k) && starts(r, source_stage(k), a) && r.vote is None && r.status is None
    } else {
        voted(r, a, m)
    }
}

/// The results with `o` appended when it holds one.
pub open spec fn with_found(rs: Seq<SourceResult>, o: Option<SourceResult>) -> Seq<SourceResult> {
    match o {
        Some(x) => rs.push(x),
        None => rs,
    }
}

/// The event answers the action the run waits for.
pub open spec fn fits(r: TrackRun, e: Event) -> bool {
    match r.stage {
        Stage::Faking => e is Status,
        Stage::Reading => e is Failed || (e matches Event::Tags(t) && cut_is_clean_names(r.track.path@, t)),
        Stage::Main => e is Main || e is Failed,
        Stage::AcoustId | Stage::AcousticBrainz | Stage::Essentia | Stage::WikiSong => e is Found,
        Stage::Validation => e is Validated,
        Stage::Writing => e is Status,
        Stage::Printing | Stage::Correcting | Stage::Mapping => e is Done,
        Stage::Finished => false,
    }
}

/// The completed title of a file can be cleaned of a remix credit (see `cut_is_clean`).
pub open spec fn cut_is_clean_names(path: Seq<char>, t: EmbeddedTags) -> bool {
    match completed_names(path, opt_chars(t.artist), opt_chars(t.title)).1 {
        Some(title) => cut_is_clean(title),
        None => true,
    }
}

/// Before the vote a run has neither vote nor status; once it has printed
/// its report or moved past writing it holds its status; a genre check waits
/// on a leading genre.
pub open spec fn well_formed(r: TrackRun) -> bool {
    &&& match r.stage {
        Stage::Faking | Stage::Reading | Stage::Main | Stage::AcoustId | Stage::AcousticBrainz
        | Stage::Essentia | Stage::WikiSong | Stage::Validation => r.status is None && r.vote is None,
        Stage::Writing => r.status is None,
        Stage::Printing | Stage::Correcting | Stage::Mapping | Stage::Finished => r.status is Some,
    }
    &&& r.stage == Stage::Validation ==> genre_leader(r.results@) is Some
}

// ---------------------------------------------------------------------------
// The steps
// ---------------------------------------------------------------------------

fn opt_clone(o: &Option<String>) -> (r: Option<String>)
    ensures
        r == *o,
{
    match o {
        Some(s) => Some(s.clone()),
        None => None,
    }
}

/// A copy of the results.
fn copy_results(rs: &Vec<SourceResult>) -> (c: Vec<SourceResult>)
    ensures
        c@ == rs@,
{
    let mut c: Vec<SourceResult> = Vec::new();
    for i in 0..rs.len()
        invariant
            c@ == rs@.take(i as int),
    {
        c.push(rs[i].duplicate());
        assert(c@ =~= rs@.take(i + 1));
    }
    assert(rs@.take(rs@.len() as int) =~= rs@);
    c
}

/// The track a file's tags give (see `track_of`).
fn read_track(path: &String, tags: EmbeddedTags) -> (t: TrackMetadata)
    requires
        cut_is_clean_names(path@, tags),
    ensures
        track_of(path@, tags, t),
{
    let ghost tags0 = tags;
    let EmbeddedTags { artist, title, album, year, genre } = tags;
    let mut artist = artist;
    let mut title = title;
    if artist.is_none() || title.is_none() {
        match parse_filename(path.as_str()) {
            Some((a, t)) => {
                if artist.is_none() {
                    artist = Some(a);
                }
                if title.is_none() {
                    title = Some(t);
                }
            },
            None => {},
        }
    }
    let title = match title {
        Some(t) => {
            if is_remix_title(t.as_str()) {
                Some(clean_remix_title(t.as_str()))
            } else {
                Some(t)
            }
        },
        None => None,
    };
    TrackMetadata {
        path: path.clone(),
        artist,
        title,
        album,
        existing_year: year,
        existing_genre: genre,
        fingerprint: None,
        mbid: None,
    }
}

impl TrackRun {
    /// Whether the tags of this run's file can be taken: the title they give
    /// can be cleaned of a remix credit without cutting inside a character.
    pub fn tags_fit(&self, tags: &EmbeddedTags) -> (b: bool)
        ensures
            b == cut_is_clean_names(self.track.path@, *tags),
    {
        let title = if tags.artist.is_some() && tags.title.is_some() {
            opt_clone(&tags.title)
        } else {
            match parse_filename(self.track.path.as_str()) {
                Some((_, t)) => if tags.title.is_some() {
                    opt_clone(&tags.title)
                } else {
                    Some(t)
                },
                None => opt_clone(&tags.title),
            }
        };
        match title {
            Some(t) => remix_cut_is_clean(t.as_str()),
            None => true,
        }
    }

    /// A run for the file at `path`: a file in a `_fakes` folder is only
    /// marked as fake (reported, in a dry run); any other first has its tags read.
    pub fn start(path: String, options: RunOptions) -> (r: (TrackRun, Action))
        ensures
            well_formed(r.0),
            r.0.track.path == path,
            r.0.options == options,
            r.0.results@.len() == 0,
            r.0.mb_mbid is None && r.0.acoustid_mbid is None && r.0.vote is None,
            r.0.track.artist is None && r.0.track.title is None,
            if in_fakes_folder(path@) {
                if options.dry_run {
                    &&& r.0.stage == Stage::Finished
                    &&& r.0.status == Some(TagWriteStatus::DryRun)
                    &&& r.1 matches Action::PrintFake(t) && t@ == "[FAKE] "@ + path@
                } else {
                    r.0.stage == Stage::Faking && r.0.status is None && r.1 is MarkFake
                }
            } else {
                r.0.stage == Stage::Reading && r.0.status is None && r.1 is ReadTags
            },
    {
        let fake = is_in_fakes_folder(path.as_str());
        let report = fake_report(path.as_str());
        let track = TrackMetadata {
            path,
            artist: None,
            title: None,
            album: None,
            existing_year: None,
            existing_genre: None,
            fingerprint: None,
            mbid: None,
        };
        let mut run = TrackRun {
            stage: Stage::Reading,
            options,
            track,
            results: Vec::new(),
            mb_mbid: None,
            acoustid_mbid: None,
            vote: None,
            status: None,
        };
        if fake {
            if options.dry_run {
                run.stage = Stage::Finished;
                run.status = Some(TagWriteStatus::DryRun);
                return (run, Action::PrintFake(report));
            }
            run.stage = Stage::Faking;
            return (run, Action::MarkFake);
        }
        (run, Action::ReadTags)
    }

    /// Goes to the step after writing at or after `i` that the run takes.
    fn wrap_up(&mut self, i: usize) -> (a: Action)
        requires
            i <= 2,
            old(self).status is Some,
        ensures
            wraps_up(*final(self), i as int, a),
            final(self).track == old(self).track,
            final(self).options == old(self).options,
            final(self).results == old(self).results,
            final(self).mb_mbid == old(self).mb_mbid,
            final(self).acoustid_mbid == old(self).acoustid_mbid,
            final(self).vote == old(self).vote,
            final(self).status == old(self).status,
        decreases 2 - i,
    {
        if i >= 2 {
            self.stage = Stage::Finished;
            return Action::Finish;
        }
        if i == 0 && !self.options.dry_run && self.options.correct_artist && self.track.artist.is_some() {
            self.stage = Stage::Correcting;
            let artist = opt_clone(&self.track.artist);
            return Action::CorrectArtist(artist.unwrap());
        }
        if i == 1 && !self.options.dry_run && self.options.map_genre {
            self.stage = Stage::Mapping;
            return Action::MapGenre;
        }
        self.wrap_up(i + 1)
    }

    /// Votes over the results and acts on the outcome.
    fn decide(&mut self, map: &GenreMap) -> (a: Action)
        requires
            old(self).results@.len() <= u32::MAX,
            old(self).status is None,
        ensures
            voted(*final(self), a, map@),
            final(self).track == old(self).track,
            final(self).options == old(self).options,
            final(self).results == old(self).results,
            final(self).mb_mbid == old(self).mb_mbid,
            final(self).acoustid_mbid == old(self).acoustid_mbid,
    {
        let v = vote_with_map(copy_results(&self.results), self.options.confidence_threshold, map);
        match write_step(&v, self.options.dry_run, self.options.force) {
            WriteStep::Review => {
                self.vote = Some(v);
                self.status = Some(TagWriteStatus::NeedsReview);
                self.wrap_up(0)
            },
            WriteStep::Preview => {
                let report = dry_run_report(self.track.path.as_str(), &v);
                self.vote = Some(v);
                self.status = Some(TagWriteStatus::DryRun);
                self.stage = Stage::Printing;
                Action::PrintReport(report)
            },
            WriteStep::Write => {
                self.vote = Some(v);
                self.stage = Stage::Writing;
                Action::WriteTags
            },
        }
    }

    /// Whether the run takes optional source `i`.
    fn wants_source(&self, i: usize) -> (b: bool)
        requires
            i < 5,
        ensures
            b == wants(*self, source_stage(i as int)),
    {
        if i == 0 {
            self.options.use_acoustid
        } else if i == 1 {
            self.options.use_acousticbrainz && (self.acoustid_mbid.is_some() || self.mb_mbid.is_some())
        } else if i == 2 {
            self.options.use_essentia
        } else if i == 3 {
            self.track.artist.is_some() && self.track.title.is_some()
        } else {
            quick_genre_leader(self.results.as_slice()).is_some()
        }
    }

    /// Moves to optional source `i` and says how to ask it.
    fn start_source(&mut self, i: usize) -> (a: Action)
        requires
            i < 5,
            wants(*old(self), source_stage(i as int)),
        ensures
            final(self).stage == source_stage(i as int),
            starts(*final(self), source_stage(i as int), a),
            final(self).track == old(self).track,
            final(self).options == old(self).options,
            final(self).results == old(self).results,
            final(self).mb_mbid == old(self).mb_mbid,
            final(self).acoustid_mbid == old(self).acoustid_mbid,
            final(self).vote == old(self).vote,
            final(self).status == old(self).status,
    {
        if i == 0 {
            self.stage = Stage::AcoustId;
            Action::QueryAcoustId
        } else if i == 1 {
            let m = resolve_mbid(opt_clone(&self.acoustid_mbid), opt_clone(&self.mb_mbid));
            self.stage = Stage::AcousticBrainz;
            Action::LookupAcousticBrainz(m.unwrap())
        } else if i == 2 {
            self.stage = Stage::Essentia;
            Action::RunEssentia
        } else if i == 3 {
            let artist = opt_clone(&self.track.artist).unwrap();
            let title = opt_clone(&self.track.title).unwrap();
            self.stage = Stage::WikiSong;
            Action::QueryWikiSong(artist, title)
        } else {
            let g = quick_genre_leader(self.results.as_slice()).unwrap();
            self.stage = Stage::Validation;
            Action::ValidateGenre(g)
        }
    }

    /// Goes to the optional source at or after `i` that the run takes, or to the vote.
    fn go_on(&mut self, i: usize, map: &GenreMap) -> (a: Action)
        requires
            i <= 5,
            old(self).results@.len() <= u32::MAX,
            old(self).vote is None,
            old(self).status is None,
        ensures
            goes_on(*final(self), i as int, a, map@),
            final(self).track == old(self).track,
            final(self).options == old(self).options,
            final(self).results == old(self).results,
            final(self).mb_mbid == old(self).mb_mbid,
            final(self).acoustid_mbid == old(self).acoustid_mbid,
        decreases 5 - i,
    {
        if i >= 5 {
            return self.decide(map);
        }
        if self.wants_source(i) {
            return self.start_source(i);
        }
        self.go_on(i + 1, map)
    }

    /// Takes in what the last action brought back and says what to do next;
    /// genres are normalized by `map` when the run votes.
    pub fn step(&mut self, event: Event, map: &GenreMap) -> (a: Action)
        requires
            fits(*old(self), event),
            well_formed(*old(self)),
            old(self).results@.len() + 3 <= u32::MAX,
        ensures
            well_formed(*final(self)),
            final(self).options == old(self).options,
            !(event is Tags) ==> final(self).track == old(self).track,
            (event is Status || event is Done || event is Failed || event is Tags) ==> final(self).results
                == old(self).results,
            (event is Status || event is Done) ==> final(self).vote == old(self).vote,
            match event {
                Event::Failed(msg) => {
                    &&& final(self).stage == Stage::Finished
                    &&& final(self).status == Some(TagWriteStatus::Error(msg))
                    &&& final(self).vote is None
                    &&& a is Finish
                },
                Event::Status(s) => {
                    &&& final(self).status == Some(s)
                    &&& old(self).stage == Stage::Faking ==> final(self).stage == Stage::Finished && a is Finish
                    &&& old(self).stage == Stage::Writing ==> wraps_up(*final(self), 0, a)
                },
                Event::Tags(t) => {
                    &&& track_of(old(self).track.path@, t, final(self).track)
                    &&& if should_skip_spec(final(self).track, old(self).options) {
                        &&& final(self).stage == Stage::Finished
                        &&& final(self).status == Some(TagWriteStatus::Skipped)
                        &&& final(self).vote matches Some(v) && v.year is None && v.genre is None
                            && v.subgenre is None && v.decade is None && !v.needs_review
                            && v.sources_used@.len() == 0
                        &&& a is Finish
                    } else {
                        final(self).stage == Stage::Main && final(self).status is None && a is QueryMain
                    }
                },
                Event::Main { musicbrainz, mbid, discogs, lastfm } => {
                    &&& final(self).results@ == with_found(
                        with_found(with_found(old(self).results@, musicbrainz), discogs),
                        lastfm,
                    )
                    &&& final(self).mb_mbid == mbid
                    &&& final(self).track == old(self).track
                    &&& goes_on(*final(self), 0, a, map@)
                },
                Event::Found(o) => {
                    &&& final(self).results@ == with_found(old(self).results@, o)
                    &&& final(self).track == old(self).track
                    &&& old(self).stage == Stage::AcoustId ==> {
                        &&& final(self).acoustid_mbid == match o {
                            Some(x) => x.mbid,
                            None => None,
                        }
                        &&& goes_on(*final(self), 1, a, map@)
                    }
                    &&& old(self).stage == Stage::AcousticBrainz ==> goes_on(*final(self), 2, a, map@)
                    &&& old(self).stage == Stage::Essentia ==> goes_on(*final(self), 3, a, map@)
                    &&& old(self).stage == Stage::WikiSong ==> goes_on(*final(self), 4, a, map@)
                },
                Event::Validated(o) => {
                    &&& if o matches Some(v) && v.confirmed {
                        &&& final(self).results@.len() == old(self).results@.len() + 1
                        &&& final(self).results@.drop_last() == old(self).results@
                        &&& confirms(final(self).results@.last(), old(self).results@, o->0)
                    } else {
                        final(self).results@ == old(self).results@
                    }
                    &&& final(self).track == old(self).track
                    &&& goes_on(*final(self), 5, a, map@)
                },
                Event::Done => {
                    &&& old(self).stage == Stage::Printing ==> wraps_up(*final(self), 0, a)
                    &&& old(self).stage == Stage::Correcting ==> wraps_up(*final(self), 1, a)
                    &&& old(self).stage == Stage::Mapping ==> final(self).stage == Stage::Finished
                        && a is Finish
                },
            },
    {
        match event {
            Event::Failed(msg) => {
                self.stage = Stage::Finished;
                self.status = Some(TagWriteStatus::Error(msg));
                self.vote = None;
                Action::Finish
            },
            Event::Status(s) => {
                let from_writing = self.stage == Stage::Writing;
                self.status = Some(s);
                if from_writing {
                    return self.wrap_up(0);
                }
                self.stage = Stage::Finished;
                Action::Finish
            },
            Event::Tags(t) => {
                let track = read_track(&self.track.path, t);
                self.track = track;
                if should_skip(&self.track, self.options.skip_existing, self.options.force) {
                    self.stage = Stage::Finished;
                    self.status = Some(TagWriteStatus::Skipped);
                    self.vote = Some(dummy_vote());
                    return Action::Finish;
                }
                self.stage = Stage::Main;
                Action::QueryMain
            },
            Event::Main { musicbrainz, mbid, discogs, lastfm } => {
                match musicbrainz {
                    Some(r) => self.results.push(r),
                    None => {},
                }
                match discogs {
                    Some(r) => self.results.push(r),
                    None => {},
                }
                match lastfm {
                    Some(r) => self.results.push(r),
                    None => {},
                }
                self.mb_mbid = mbid;
                self.go_on(0, map)
            },
            Event::Found(o) => {
                let at = self.stage;
                match o {
                    Some(r) => {
                        if at == Stage::AcoustId {
                            self.acoustid_mbid = opt_clone(&r.mbid);
                        }
                        self.results.push(r);
                    },
                    None => {
                        if at == Stage::AcoustId {
                            self.acoustid_mbid = None;
                        }
                    },
                }
                if at == Stage::AcoustId {
                    self.go_on(1, map)
                } else if at == Stage::AcousticBrainz {
                    self.go_on(2, map)
                } else if at == Stage::Essentia {
                    self.go_on(3, map)
                } else {
                    self.go_on(4, map)
                }
            },
            Event::Validated(o) => {
                match o {
                    Some(v) => {
                        if v.confirmed {
                            match quick_genre_leader(self.results.as_slice()) {
                                Some(g) => match confirmation_result(g, v) {
                                    Some(r) => self.results.push(r),
                                    None => {},
                                },
                                None => {},
                            }
                        }
                    },
                    None => {},
                }
                self.go_on(5, map)
            },
            Event::Done => {
                let at = self.stage;
                if at == Stage::Printing {
                    self.wrap_up(0)
                } else if at == Stage::Correcting {
                    self.wrap_up(1)
                } else {
                    self.stage = Stage::Finished;
                    Action::Finish
                }
            },
        }
    }

    /// What processing the file came to.
    pub fn finish(self) -> (p: ProcessResult)
        requires
            self.stage == Stage::Finished,
            well_formed(self),
        ensures
            p.path == self.track.path,
            Some(p.status) == self.status,
            p.vote == self.vote,
    {
        ProcessResult { path: self.track.path, status: self.status.unwrap(), vote: self.vote }
    }
}

/// Whether a read track is skipped (see `should_skip`).
pub open spec fn should_skip_spec(t: TrackMetadata, o: RunOptions) -> bool {
    o.skip_existing && t.existing_year is Some && t.existing_genre is Some && !o.force
}

/// `r` is the Wikipedia vote confirming the leading genre of `rs` at 0.7,
/// with the genre article's parent genre as subgenre.
pub open spec fn confirms(r: SourceResult, rs: Seq<SourceResult>, v: GenreValidation) -> bool {
    &&& r.source == crate::models::SourceName::Wikipedia
    &&& r.year is None
    &&& opt_chars(r.genre) == genre_leader(rs)
    &&& r.subgenre == v.parent_genre
    &&& r.confidence == 700_000_000
    &&& r.mbid is None
}

// ---------------------------------------------------------------------------
// Laws
// ---------------------------------------------------------------------------

proof fn lemma_wrap_dry(r: TrackRun, i: int, a: Action)
    requires
        r.options.dry_run,
        wraps_up(r, i, a),
    ensures
        a is Finish,
    decreases 2 - i,
{
    if 0 <= i < 2 {
        assert(!wants(r, wrap_stage(i)));
        lemma_wrap_dry(r, i + 1, a);
    }
}

/// A dry run writes nothing: once it has voted, its only outside work is
/// printing the report.
pub proof fn law_dry_run_writes_nothing(r: TrackRun, a: Action, m: Seq<(Seq<char>, Seq<char>)>)
    requires
        r.options.dry_run,
        voted(r, a, m),
    ensures
        a is PrintReport || a is Finish,
{
    if r.vote->0.needs_review && !r.options.force {
        lemma_wrap_dry(r, 0, a);
    }
}

/// Unless the run is forced, a vote that needs review is never written into
/// the file.
pub proof fn law_review_is_never_written(r: TrackRun, a: Action, m: Seq<(Seq<char>, Seq<char>)>)
    requires
        voted(r, a, m),
        r.vote->0.needs_review,
        !r.options.force,
    ensures
        !(a is WriteTags),
        r.status == Some(TagWriteStatus::NeedsReview),
{
}

/// The optional sources are asked in their fixed order: going on from
/// source `i`, the run never goes back to an earlier one.
pub proof fn law_sources_in_order(r: TrackRun, i: int, a: Action, m: Seq<(Seq<char>, Seq<char>)>)
    requires
        0 <= i <= 5,
        goes_on(r, i, a, m),
    ensures
        forall|k: int| 0 <= k < i ==> r.stage != source_stage(k),
{
    lemma_next_source_from(r, i);
}

proof fn lemma_next_source_from(r: TrackRun, i: int)
    requires
        0 <= i <= 5,
    ensures
        i <= next_source(r, i) <= 5,
    decreases 5 - i,
{
    if i < 5 && !wants(r, source_stage(i)) {
        lemma_next_source_from(r, i + 1);
    }
}

} // verus!
