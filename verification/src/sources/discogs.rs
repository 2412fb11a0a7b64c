//! Discogs: the genre most search results agree on picks the release; the
//! release's genres and styles give genre and subgenre.

use vstd::prelude::*;
use crate::models::{SourceName, SourceResult};
use crate::tagger::voter::{Tally, add_vote, best_index, lemma_add_vote, lemma_best_index, nonneg, total};
use crate::text::{chars_eq, chars_of, lowercase, opt_chars, to_lowercase};

verus! {

/// One result of a release search.
#[derive(Debug)]
pub struct SearchResult {
    pub id: u64,
    pub genre: Option<Vec<String>>,
}

/// A release as Discogs describes it.
#[derive(Debug)]
pub struct ReleaseResponse {
    pub genres: Option<Vec<String>>,
    pub styles: Option<Vec<String>>,
    pub year: Option<u32>,
}

/// The genres of a search result, lowercased.
pub open spec fn result_genres(r: SearchResult) -> Seq<Seq<char>> {
    match r.genre {
        Some(g) => g@.map_values(|s: String| lowercase(s@)),
        None => seq![],
    }
}

/// Each key gains one vote, in order.
pub open spec fn add_all(s: Seq<(Seq<char>, int)>, keys: Seq<Seq<char>>) -> Seq<(Seq<char>, int)>
    decreases keys.len(),
{
    if keys.len() == 0 {
        s
    } else {
        add_vote(add_all(s, keys.drop_last()), keys.last(), 1)
    }
}

/// How often each lowercased genre appears over the search results.
pub open spec fn genre_votes(rs: Seq<SearchResult>) -> Seq<(Seq<char>, int)>
    decreases rs.len(),
{
    if rs.len() == 0 {
        seq![]
    } else {
        add_all(genre_votes(rs.drop_last()), result_genres(rs.last()))
    }
}

/// The genre named most often; on a tie, the one named first.
pub open spec fn top_genre(rs: Seq<SearchResult>) -> Option<Seq<char>> {
    let v = genre_votes(rs);
    let b = best_index(v);
    if b >= 0 {
        Some(v[b].0)
    } else {
        None
    }
}

/// How many results list `g` among their genres.
pub open spec fn results_with(rs: Seq<SearchResult>, g: Seq<char>) -> nat
    decreases rs.len(),
{
    if rs.len() == 0 {
        0
    } else {
        results_with(rs.drop_last(), g) + if result_genres(rs.last()).contains(g) {
            1nat
        } else {
            0nat
        }
    }
}

/// The first result that lists `g`, or -1.
pub open spec fn first_with(rs: Seq<SearchResult>, g: Seq<char>, i: int) -> int
    decreases rs.len() - i,
{
    if i < 0 || i >= rs.len() {
        -1
    } else if result_genres(rs[i]).contains(g) {
        i
    } else {
        first_with(rs, g, i + 1)
    }
}

/// Agreement with the top genre times a factor for few results, in billionths:
/// `votes / max(n, 1) * min(n / 3, 1)`, rounded down.
pub open spec fn agreement(votes: int, n: int) -> int {
    let m = if n < 1 { 1 } else { n };
    let f = if n < 3 { n } else { 3 };
    (votes * f * 1_000_000_000) / (m * 3)
}

/// The release to fetch and the confidence of the search: the first result
/// that lists the top genre; without any genre, the first result at 0.5.
pub open spec fn search_choice(rs: Seq<SearchResult>) -> Option<(u64, int)> {
    match top_genre(rs) {
        Some(g) => {
            let i = first_with(rs, g, 0);
            if i >= 0 {
                Some((rs[i].id, agreement(results_with(rs, g) as int, rs.len() as int)))
            } else {
                None
            }
        },
        None => if rs.len() > 0 {
            Some((rs[0].id, 500_000_000))
        } else {
            None
        },
    }
}

fn lowered_genres(r: &SearchResult) -> (v: Vec<Vec<char>>)
    ensures
        v@.map_values(|k: Vec<char>| k@) == result_genres(*r),
{
    let mut v: Vec<Vec<char>> = Vec::new();
    match &r.genre {
        Some(g) => {
            for j in 0..g.len()
                invariant
                    r.genre == Some(*g),
                    v@.len() == j,
                    forall|k: int| 0 <= k < j ==> (#[trigger] v@[k])@ == lowercase(g@[k]@),
            {
                let l = to_lowercase(g[j].as_str());
                v.push(chars_of(l.as_str()));
            }
        },
        None => {},
    }
    assert(v@.map_values(|k: Vec<char>| k@) =~= result_genres(*r));
    v
}

fn lists_genre(r: &SearchResult, g: &Vec<char>) -> (b: bool)
    ensures
        b == result_genres(*r).contains(g@),
{
    let v = lowered_genres(r);
    let ghost vv = v@.map_values(|k: Vec<char>| k@);
    for j in 0..v.len()
        invariant
            vv == v@.map_values(|k: Vec<char>| k@),
            vv == result_genres(*r),
            forall|k: int| 0 <= k < j ==> vv[k] != g@,
    {
        if chars_eq(&v[j], g) {
            assert(vv[j as int] == g@);
            return true;
        }
    }
    false
}

/// Votes for the genres of the search results, then picks the release and
/// the search confidence (in billionths).
pub fn choose_release(results: &Vec<SearchResult>) -> (r: Option<(u64, u32)>)
    ensures
        match r {
            Some((id, c)) => search_choice(results@) == Some((id, c as int)),
            None => search_choice(results@) is None,
        },
{
    let ghost rs = results@;
    let mut votes: Tally<Vec<char>> = Tally::new();
    let mut sum: u128 = 0;
    for i in 0..results.len()
        invariant
            rs == results@,
            votes.wf(),
            votes.view_scores() == genre_votes(rs.take(i as int)),
            nonneg(votes.view_scores()),
            sum as int == total(votes.view_scores()),
            sum <= i * 0x1_0000_0000_0000_0000,
    {
        let keys = lowered_genres(&results[i]);
        let ghost kv = keys@.map_values(|k: Vec<char>| k@);
        let ghost prev = votes.view_scores();
        assert(rs.take(i + 1).drop_last() =~= rs.take(i as int));
        assert(rs.take(i + 1).last() == rs[i as int]);
        for j in 0..keys.len()
            invariant
                rs == results@,
                kv == keys@.map_values(|k: Vec<char>| k@),
                i < results@.len(),
                votes.wf(),
                votes.view_scores() == add_all(prev, kv.take(j as int)),
                nonneg(votes.view_scores()),
                sum as int == total(votes.view_scores()),
                sum <= i * 0x1_0000_0000_0000_0000 + j,
        {
            assert(kv.take(j + 1).drop_last() =~= kv.take(j as int));
            assert(kv.take(j + 1).last() == keys@[j as int]@);
            proof {
                lemma_add_vote(votes.view_scores(), keys@[j as int]@, 1);
                assert(i * 0x1_0000_0000_0000_0000 + j + 1 <= (0x1_0000_0000_0000_0000 - 1) * 0x1_0000_0000_0000_0000 + 0x1_0000_0000_0000_0000) by (nonlinear_arith)
                    requires
                        i < 0x1_0000_0000_0000_0000,
                        j < 0x1_0000_0000_0000_0000,
                ;
            }
            votes.add(&keys[j], 1);
            sum = sum + 1;
        }
        assert(kv.take(keys@.len() as int) =~= kv);
        assert(i * 0x1_0000_0000_0000_0000 + keys@.len() <= (i + 1) * 0x1_0000_0000_0000_0000);
    }
    assert(rs.take(results@.len() as int) =~= rs);
    proof {
        lemma_best_index(votes.view_scores());
    }
    let n = results.len();
    match votes.best() {
        Some(b) => {
            let g = &votes.keys[b];
            let mut count: u64 = 0;
            let mut first: Option<usize> = None;
            for i in 0..n
                invariant
                    n == rs.len(),
                    rs == results@,
                    count as nat == results_with(rs.take(i as int), g@),
                    count <= i,
                    match first {
                        Some(f) => f < i && first_with(rs, g@, 0) == f as int,
                        None => first_with(rs, g@, 0) == first_with(rs, g@, i as int),
                    },
            {
                assert(rs.take(i + 1).drop_last() =~= rs.take(i as int));
                assert(rs.take(i + 1).last() == rs[i as int]);
                if lists_genre(&results[i], g) {
                    count = count + 1;
                    if first.is_none() {
                        first = Some(i);
                    }
                }
            }
            assert(rs.take(n as int) =~= rs);
            match first {
                Some(f) => {
                    let m: u128 = if n < 1 { 1 } else { n as u128 };
                    let fac: u128 = if n < 3 { n as u128 } else { 3 };
                    assert(count * fac * 1_000_000_000 <= m * 3 * 1_000_000_000) by (nonlinear_arith)
                        requires
                            count <= n,
                            n <= m,
                            fac <= 3,
                            m >= 1,
                    ;
                    assert((count * fac * 1_000_000_000) / (m * 3) <= 1_000_000_000) by (nonlinear_arith)
                        requires
                            count * fac * 1_000_000_000 <= m * 3 * 1_000_000_000,
                            m >= 1,
                    ;
                    let c = ((count as u128 * fac * 1_000_000_000) / (m * 3)) as u32;
                    Some((results[f].id, c))
                },
                None => None,
            }
        },
        None => {
            if n > 0 {
                Some((results[0].id, 500_000_000))
            } else {
                None
            }
        },
    }
}


/// Entry `k` of a list, lowercased.
pub open spec fn nth_lower(o: Option<Vec<String>>, k: int) -> Option<Seq<char>> {
    match o {
        Some(v) => if 0 <= k < v.len() {
            Some(lowercase(v@[k]@))
        } else {
            None
        },
        None => None,
    }
}

fn nth_lower_exec(o: &Option<Vec<String>>, k: usize) -> (r: Option<Vec<char>>)
    ensures
        match r {
            Some(v) => nth_lower(*o, k as int) == Some(v@),
            None => nth_lower(*o, k as int) is None,
        },
{
    match o {
        Some(v) => {
            if k < v.len() {
                let l = to_lowercase(v[k].as_str());
                Some(chars_of(l.as_str()))
            } else {
                None
            }
        },
        None => None,
    }
}

/// Discogs genres so broad that the first style says more.
pub open spec fn coarse_genre(g: Seq<char>) -> bool {
    g == "electronic"@ || g == "rock"@ || g == "pop"@ || g == "funk / soul"@
}

/// The genre: the first genre, replaced by the first style when the genre is coarse.
pub open spec fn release_genre(rel: ReleaseResponse) -> Option<Seq<char>> {
    let raw = nth_lower(rel.genres, 0);
    let s1 = nth_lower(rel.styles, 0);
    match raw {
        Some(g) => if coarse_genre(g) && s1 is Some {
            s1
        } else {
            raw
        },
        None => raw,
    }
}

/// The subgenre: the second style when the first became the genre, else the first style.
pub open spec fn release_subgenre(rel: ReleaseResponse) -> Option<Seq<char>> {
    if release_genre(rel) == nth_lower(rel.styles, 0) {
        nth_lower(rel.styles, 1)
    } else {
        nth_lower(rel.styles, 0)
    }
}

/// When the first genre of a release is one of Discogs' broad genres
/// (Electronic, Rock, Pop, Funk / Soul, in any case) and the release has a
/// style, the first style, lowercased, is the genre and the second style, if
/// any, the subgenre.
pub proof fn law_broad_genre_gives_way_to_style(rel: ReleaseResponse)
    requires
        rel.genres matches Some(gs) && gs@.len() > 0 && {
            let g = lowercase(gs@[0]@);
            g == "electronic"@ || g == "rock"@ || g == "pop"@ || g == "funk / soul"@
        },
        rel.styles matches Some(ss) && ss@.len() > 0,
    ensures
        release_genre(rel) == Some(lowercase((rel.styles->0)@[0]@)),
        release_subgenre(rel) == if (rel.styles->0)@.len() > 1 {
            Some(lowercase((rel.styles->0)@[1]@))
        } else {
            None
        },
{
}

/// Otherwise the first genre, lowercased, stays the genre.
pub proof fn law_specific_genre_kept(rel: ReleaseResponse)
    requires
        rel.genres matches Some(gs) && gs@.len() > 0,
        !(rel.styles matches Some(ss) && ss@.len() > 0) || {
            let g = lowercase((rel.genres->0)@[0]@);
            !(g == "electronic"@ || g == "rock"@ || g == "pop"@ || g == "funk / soul"@)
        },
    ensures
        release_genre(rel) == Some(lowercase((rel.genres->0)@[0]@)),
{
}

fn string_opt(v: Option<Vec<char>>) -> (r: Option<String>)
    ensures
        opt_chars(r) == match v {
            Some(c) => Some(c@),
            None => None::<Seq<char>>,
        },
{
    match v {
        Some(c) => Some(crate::text::string_of(&c)),
        None => None,
    }
}

fn same_opt(a: &Option<Vec<char>>, b: &Option<Vec<char>>) -> (r: bool)
    ensures
        r == (match *a {
            Some(x) => Some(x@),
            None => None::<Seq<char>>,
        } == match *b {
            Some(x) => Some(x@),
            None => None::<Seq<char>>,
        }),
{
    match (a, b) {
        (Some(x), Some(y)) => chars_eq(x, y),
        (None, None) => true,
        _ => false,
    }
}

/// Year, genre and subgenre of the release, at the confidence of the search.
/// A release with neither year nor genre gives nothing.
pub fn build_result(release: ReleaseResponse, search_confidence: u32) -> (r: Option<SourceResult>)
    ensures
        r is None <==> (release.year is None && release_genre(release) is None),
        r matches Some(sr) ==> {
            &&& sr.source == SourceName::Discogs
            &&& sr.year == release.year
            &&& opt_chars(sr.genre) == release_genre(release)
            &&& opt_chars(sr.subgenre) == release_subgenre(release)
            &&& sr.confidence == search_confidence
            &&& sr.mbid is None
        },
{
    let raw = nth_lower_exec(&release.genres, 0);
    let s1 = nth_lower_exec(&release.styles, 0);
    let s2 = nth_lower_exec(&release.styles, 1);
    let coarse = match &raw {
        Some(g) => {
            let e = chars_of("electronic");
            let ro = chars_of("rock");
            let po = chars_of("pop");
            let fs = chars_of("funk / soul");
            chars_eq(g, &e) || chars_eq(g, &ro) || chars_eq(g, &po) || chars_eq(g, &fs)
        },
        None => false,
    };
    let genre = if coarse && s1.is_some() {
        match &s1 {
            Some(x) => Some(crate::text::slice_chars(x, 0, x.len())),
            None => None,
        }
    } else {
        raw
    };
    proof {
        if s1 is Some {
            let x = s1->0;
            assert(x@.subrange(0, x@.len() as int) =~= x@);
        }
    }
    let subgenre = if same_opt(&genre, &s1) { s2 } else { s1 };
    if release.year.is_none() && genre.is_none() {
        return None;
    }
    Some(SourceResult {
        source: SourceName::Discogs,
        year: release.year,
        genre: string_opt(genre),
        subgenre: string_opt(subgenre),
        confidence: search_confidence,
        mbid: None,
    })
}

} // verus!
