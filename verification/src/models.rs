//! The values that flow between the sources, the vote and the tag writer.
//!
//! A source's confidence is held as a whole number of billionths: a source
//! that is 85% sure reports `850_000_000`. The vote's confidences are exact
//! fractions.

use vstd::prelude::*;

verus! {

/// What is known of a track before any source is asked.
#[derive(Debug, Clone)]
pub struct TrackMetadata {
    pub path: String,
    pub artist: Option<String>,
    pub title: Option<String>,
    pub album: Option<String>,
    pub existing_year: Option<u32>,
    pub existing_genre: Option<String>,
    pub fingerprint: Option<String>,
    pub mbid: Option<String>,
}

/// What one source says about a track. `confidence` is in billionths.
#[derive(Debug, Clone)]
pub struct SourceResult {
    pub source: SourceName,
    pub year: Option<u32>,
    pub genre: Option<String>,
    pub subgenre: Option<String>,
    pub confidence: u32,
    pub mbid: Option<String>,
}

impl SourceResult {
    /// A copy equal to this result.
    pub fn duplicate(&self) -> (c: Self)
        ensures
            c == *self,
    {
        SourceResult {
            source: self.source,
            year: self.year,
            genre: match &self.genre {
                Some(g) => Some(g.clone()),
                None => None,
            },
            subgenre: match &self.subgenre {
                Some(g) => Some(g.clone()),
                None => None,
            },
            confidence: self.confidence,
            mbid: match &self.mbid {
                Some(g) => Some(g.clone()),
                None => None,
            },
        }
    }
}

#[derive(Debug, Clone, Copy, PartialEq, Eq, Hash, Structural)]
pub enum SourceName {
    Discogs,
    MusicBrainz,
    LastFm,
    AcoustId,
    Wikipedia,
    WikiSong,
    AcousticBrainz,
    Essentia,
    MbMapping,
    ExistingTag,
}

/// The name under which a source is shown to the user.
pub open spec fn source_label(s: SourceName) -> Seq<char> {
    match s {
        SourceName::Discogs => "Discogs"@,
        SourceName::MusicBrainz => "MusicBrainz"@,
        SourceName::LastFm => "Last.fm"@,
        SourceName::AcoustId => "AcoustID"@,
        SourceName::Wikipedia => "Wikipedia"@,
        SourceName::WikiSong => "WikiSong"@,
        SourceName::AcousticBrainz => "AcousticBrainz"@,
        SourceName::Essentia => "Essentia"@,
        SourceName::MbMapping => "MB Mapping"@,
        SourceName::ExistingTag => "ExistingTag"@,
    }
}

impl SourceName {
    /// The name under which the source is shown (what `Display` prints).
    pub fn to_string(&self) -> (s: String)
        ensures
            s@ == source_label(*self),
    {
        match self {
            SourceName::Discogs => "Discogs".to_owned(),
            SourceName::MusicBrainz => "MusicBrainz".to_owned(),
            SourceName::LastFm => "Last.fm".to_owned(),
            SourceName::AcoustId => "AcoustID".to_owned(),
            SourceName::Wikipedia => "Wikipedia".to_owned(),
            SourceName::WikiSong => "WikiSong".to_owned(),
            SourceName::AcousticBrainz => "AcousticBrainz".to_owned(),
            SourceName::Essentia => "Essentia".to_owned(),
            SourceName::MbMapping => "MB Mapping".to_owned(),
            SourceName::ExistingTag => "ExistingTag".to_owned(),
        }
    }
}

/// An exact share, `num / den`; the vote always gives `den > 0`.
#[derive(Debug, Clone, Copy, PartialEq, Eq, Structural)]
pub struct Fraction {
    pub num: u128,
    pub den: u128,
}

/// The outcome of the vote. Each winner carries its confidence as an exact fraction.
#[derive(Debug)]
pub struct VoteResult {
    pub year: Option<(u32, Fraction)>,
    pub decade: Option<String>,
    pub genre: Option<(String, Fraction)>,
    pub subgenre: Option<(String, Fraction)>,
    pub needs_review: bool,
    pub sources_used: Vec<SourceName>,
}

#[derive(Debug)]
pub enum TagWriteStatus {
    Written,
    DryRun,
    NeedsReview,
    Skipped,
    Error(String),
}

} // verus!
