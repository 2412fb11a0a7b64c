//! The MusicBrainz genre mapping: source tags mapped to MusicBrainz genres.

use vstd::prelude::*;
use crate::models::{SourceName, SourceResult};

verus! {

/// A MusicBrainz genre (and maybe subgenre) that a source tag maps to, with
/// the mapping's confidence in billionths.
#[derive(Debug)]
pub struct MbGenre {
    pub mb_genre: String,
    pub mb_subgenre: Option<String>,
    pub confidence: u32,
}

/// The mapping table is not filled yet: no tag maps to a genre.
pub fn lookup(_source_tag: &str) -> (r: Option<MbGenre>)
    ensures
        r is None,
{
    None
}

/// A mapped genre as a vote of the mapping source.
pub fn to_source_result(genre: MbGenre) -> (r: SourceResult)
    ensures
        r.source == SourceName::MbMapping,
        r.year is None,
        r.genre == Some(genre.mb_genre),
        r.subgenre == genre.mb_subgenre,
        r.confidence == genre.confidence,
        r.mbid is None,
{
    SourceResult {
        source: SourceName::MbMapping,
        year: None,
        genre: Some(genre.mb_genre),
        subgenre: genre.mb_subgenre,
        confidence: genre.confidence,
        mbid: None,
    }
}

} // verus!
