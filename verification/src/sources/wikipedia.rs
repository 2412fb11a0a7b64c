//! Wikipedia genre articles: whether the leading genre is confirmed.

use vstd::prelude::*;
use crate::models::{SourceName, SourceResult};

verus! {

/// What a genre article says of a genre.
#[derive(Debug)]
pub struct GenreValidation {
    pub parent_genre: Option<String>,
    pub origin_decade: Option<String>,
    pub confirmed: bool,
}

/// Genre articles are not read yet: no genre is validated.
pub fn validate_genre(_genre: &str) -> (r: Option<GenreValidation>)
    ensures
        r is None,
{
    None
}

/// A confirmed genre becomes a Wikipedia vote for it at 0.7, with the
/// article's parent genre as subgenre; an unconfirmed one gives nothing.
pub fn confirmation_result(genre: String, validation: GenreValidation) -> (r: Option<SourceResult>)
    ensures
        r is None <==> !validation.confirmed,
        r matches Some(sr) ==> {
            &&& sr.source == SourceName::Wikipedia
            &&& sr.year is None
            &&& sr.genre == Some(genre)
            &&& sr.subgenre == validation.parent_genre
            &&& sr.confidence == 700_000_000
            &&& sr.mbid is None
        },
{
    if validation.confirmed {
        Some(SourceResult {
            source: SourceName::Wikipedia,
            year: None,
            genre: Some(genre),
            subgenre: validation.parent_genre,
            confidence: 700_000_000,
            mbid: None,
        })
    } else {
        None
    }
}

} // verus!
