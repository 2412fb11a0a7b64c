//! AcousticBrainz genre rows for a recording: the genre most rows agree on.

use vstd::prelude::*;
use crate::models::{SourceName, SourceResult};
use crate::sources::musicbrainz::clamp;
use crate::tagger::voter::{Tally, add_vote, best_index, lemma_add_vote, lemma_best_index, nonneg, total, lemma_entry_le_total};
use crate::text::{chars_of, lowercase, opt_chars, string_of, to_lowercase};

verus! {

/// One row of the local AcousticBrainz table: a genre, maybe a subgenre, and
/// the dataset it came from.
#[derive(Debug)]
pub struct GenreRow {
    pub genre: String,
    pub subgenre: Option<String>,
    pub source: String,
}

/// Votes per lowercased genre, in order of first appearance.
pub open spec fn row_genre_votes(rows: Seq<GenreRow>) -> Seq<(Seq<char>, int)>
    decreases rows.len(),
{
    if rows.len() == 0 {
        seq![]
    } else {
        add_vote(row_genre_votes(rows.drop_last()), lowercase(rows.last().genre@), 1)
    }
}

/// Votes per lowercased subgenre, in order of first appearance.
pub open spec fn row_subgenre_votes(rows: Seq<GenreRow>) -> Seq<(Seq<char>, int)>
    decreases rows.len(),
{
    if rows.len() == 0 {
        seq![]
    } else {
        let prev = row_subgenre_votes(rows.drop_last());
        match rows.last().subgenre {
            Some(s) => add_vote(prev, lowercase(s@), 1),
            None => prev,
        }
    }
}

/// The candidate with the most votes; on a tie, the one named first.
pub open spec fn top_key(v: Seq<(Seq<char>, int)>) -> Option<Seq<char>> {
    let b = best_index(v);
    if b >= 0 {
        Some(v[b].0)
    } else {
        None
    }
}

/// The share of rows that agree on the top genre, in billionths, kept within 0.5..=0.95.
pub open spec fn row_confidence(rows: Seq<GenreRow>) -> int {
    let v = row_genre_votes(rows);
    clamp((v[best_index(v)].1 * 1_000_000_000) / (rows.len() as int), 500_000_000, 950_000_000)
}

/// The genre most rows give (lowercased), the subgenre most rows give, and
/// their agreement. No rows give nothing.
pub fn rows_result(rows: &Vec<GenreRow>) -> (r: Option<SourceResult>)
    ensures
        r is None <==> rows@.len() == 0,
        r matches Some(sr) ==> {
            &&& sr.source == SourceName::AcousticBrainz
            &&& sr.year is None
            &&& opt_chars(sr.genre) == top_key(row_genre_votes(rows@))
            &&& opt_chars(sr.subgenre) == top_key(row_subgenre_votes(rows@))
            &&& sr.confidence as int == row_confidence(rows@)
            &&& sr.mbid is None
        },
{
    let ghost rs = rows@;
    let mut genres: Tally<Vec<char>> = Tally::new();
    let mut subs: Tally<Vec<char>> = Tally::new();
    let n = rows.len();
    for i in 0..n
        invariant
            n == rs.len(),
            rs == rows@,
            genres.wf(),
            subs.wf(),
            genres.view_scores() == row_genre_votes(rs.take(i as int)),
            subs.view_scores() == row_subgenre_votes(rs.take(i as int)),
            nonneg(genres.view_scores()),
            nonneg(subs.view_scores()),
            total(genres.view_scores()) == i,
            total(subs.view_scores()) <= i,
    {
        assert(rs.take(i + 1).drop_last() =~= rs.take(i as int));
        assert(rs.take(i + 1).last() == rs[i as int]);
        let g = to_lowercase(rows[i].genre.as_str());
        let gv = chars_of(g.as_str());
        proof {
            lemma_add_vote(genres.view_scores(), gv@, 1);
        }
        genres.add(&gv, 1);
        match &rows[i].subgenre {
            Some(s) => {
                let l = to_lowercase(s.as_str());
                let sv = chars_of(l.as_str());
                proof {
                    lemma_add_vote(subs.view_scores(), sv@, 1);
                }
                subs.add(&sv, 1);
            },
            None => {},
        }
    }
    assert(rs.take(n as int) =~= rs);
    if n == 0 {
        return None;
    }
    proof {
        lemma_best_index(genres.view_scores());
        lemma_best_index(subs.view_scores());
    }
    let b = match genres.best() {
        Some(b) => b,
        None => {
            assert(genres.view_scores().len() == 0);
            assert(total(genres.view_scores()) == 0);
            return None;
        },
    };
    let genre = string_of(&genres.keys[b]);
    let agreeing = genres.scores[b];
    proof {
        lemma_entry_le_total(genres.view_scores(), b as int);
    }
    let q = (agreeing * 1_000_000_000) / (n as u128);
    let confidence: u32 = if q < 500_000_000 {
        500_000_000
    } else if q > 950_000_000 {
        950_000_000
    } else {
        q as u32
    };
    let subgenre = match subs.best() {
        Some(k) => Some(string_of(&subs.keys[k])),
        None => None,
    };
    Some(SourceResult {
        source: SourceName::AcousticBrainz,
        year: None,
        genre: Some(genre),
        subgenre,
        confidence,
        mbid: None,
    })
}

} // verus!
