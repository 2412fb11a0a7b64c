//! The weighted vote over what the sources said.
//!
//! Each source votes for a year with its year weight and for a genre with its
//! genre weight, both scaled by its confidence. Weights are held in tenths and
//! confidences in billionths, so a score is counted in units of 10^-10. The
//! confidences the vote gives are exact fractions of such scores.

use vstd::prelude::*;
use crate::models::{Fraction, SourceName, SourceResult, VoteResult};
use crate::tagger::decade::{decade_label, to_decade};
use crate::tagger::genre_map::{builtin_map, normalize_in, GenreMap};
use crate::text::{chars_eq, chars_of, lowercase, starts_with, starts_with_str, string_of, to_lowercase};

verus! {

// ---------------------------------------------------------------------------
// Weights per source, in tenths
// ---------------------------------------------------------------------------

/// How much a source counts when it names a year (tenths).
pub open spec fn track_weight(s: SourceName) -> nat {
    match s {
        SourceName::Discogs => 30,
        SourceName::MusicBrainz => 25,
        SourceName::AcoustId => 20,
        SourceName::LastFm => 0,
        SourceName::Essentia => 10,
        SourceName::ExistingTag => 10,
        SourceName::MbMapping => 0,
        SourceName::Wikipedia => 0,
        SourceName::WikiSong => 0,
        SourceName::AcousticBrainz => 0,
    }
}

/// How much a source counts when it names a genre (tenths).
pub open spec fn genre_weight(s: SourceName) -> nat {
    match s {
        SourceName::AcousticBrainz => 40,
        SourceName::WikiSong => 35,
        SourceName::MusicBrainz => 30,
        SourceName::LastFm => 25,
        SourceName::Essentia => 20,
        SourceName::Wikipedia => 15,
        SourceName::Discogs => 10,
        SourceName::MbMapping => 0,
        SourceName::AcoustId => 0,
        SourceName::ExistingTag => 0,
    }
}

fn weight_track(source: SourceName) -> (w: u32)
    ensures
        w == track_weight(source),
{
    match source {
        SourceName::Discogs => 30,
        SourceName::MusicBrainz => 25,
        SourceName::AcoustId => 20,
        SourceName::LastFm => 0,
        SourceName::Essentia => 10,
        SourceName::ExistingTag => 10,
        SourceName::MbMapping => 0,
        SourceName::Wikipedia => 0,
        SourceName::WikiSong => 0,
        SourceName::AcousticBrainz => 0,
    }
}

fn weight_genre(source: SourceName) -> (w: u32)
    ensures
        w == genre_weight(source),
{
    match source {
        SourceName::AcousticBrainz => 40,
        SourceName::WikiSong => 35,
        SourceName::MusicBrainz => 30,
        SourceName::LastFm => 25,
        SourceName::Essentia => 20,
        SourceName::Wikipedia => 15,
        SourceName::Discogs => 10,
        SourceName::MbMapping => 0,
        SourceName::AcoustId => 0,
        SourceName::ExistingTag => 0,
    }
}

/// The largest score that one result can add: the top weight times the largest confidence.
pub open spec fn max_vote() -> int {
    171_798_691_800int
}

// ---------------------------------------------------------------------------
// Parent genres
// ---------------------------------------------------------------------------

pub const PARENT_COUNT: usize = 15;

/// The parent table: entry `i` names a subgenre and the genre it folds into.
pub open spec fn parent_at(i: usize) -> (Seq<char>, Seq<char>) {
    match i {
        0 => ("synth-pop"@, "pop"@),
        1 => ("dance-pop"@, "pop"@),
        2 => ("electro"@, "electronic"@),
        3 => ("house"@, "electronic"@),
        4 => ("freestyle"@, "electronic"@),
        5 => ("breakbeat"@, "electronic"@),
        6 => ("new wave"@, "rock"@),
        7 => ("post-punk"@, "rock"@),
        8 => ("alternative rock"@, "rock"@),
        9 => ("punk"@, "rock"@),
        10 => ("new jack swing"@, "r&b"@),
        11 => ("funk"@, "r&b"@),
        12 => ("soul"@, "r&b"@),
        13 => ("disco"@, "r&b"@),
        14 => ("gospel"@, "soul"@),
        _ => (Seq::empty(), Seq::empty()),
    }
}
fn parent_entry(i: usize) -> (r: (&'static str, &'static str))
    requires
        i < PARENT_COUNT,
    ensures
        (r.0@, r.1@) == parent_at(i),
{
    match i {
        0 => ("synth-pop", "pop"),
        1 => ("dance-pop", "pop"),
        2 => ("electro", "electronic"),
        3 => ("house", "electronic"),
        4 => ("freestyle", "electronic"),
        5 => ("breakbeat", "electronic"),
        6 => ("new wave", "rock"),
        7 => ("post-punk", "rock"),
        8 => ("alternative rock", "rock"),
        9 => ("punk", "rock"),
        10 => ("new jack swing", "r&b"),
        11 => ("funk", "r&b"),
        12 => ("soul", "r&b"),
        13 => ("disco", "r&b"),
        _ => ("gospel", "soul"),
    }
}

/// The key under which a genre is counted: lowercased, then normalized by
/// the synonym map `m`. Genres that are MusicBrainz identifiers (`mbid:...`)
/// are not counted.
pub open spec fn genre_key(m: Seq<(Seq<char>, Seq<char>)>, g: Seq<char>) -> Option<Seq<char>> {
    let l = lowercase(g);
    if starts_with(l, "mbid:"@) {
        None
    } else {
        Some(normalize_in(m, l))
    }
}

// ---------------------------------------------------------------------------
// Scores: candidates in order of first vote, each with its summed score
// ---------------------------------------------------------------------------

/// Where `k` stands among the candidates at or after `i`, or -1.
pub open spec fn key_pos<K>(s: Seq<(K, int)>, k: K, i: int) -> int
    decreases s.len() - i,
{
    if i < 0 || i >= s.len() {
        -1
    } else if s[i].0 == k {
        i
    } else {
        key_pos(s, k, i + 1)
    }
}

pub open spec fn pos<K>(s: Seq<(K, int)>, k: K) -> int {
    key_pos(s, k, 0)
}

/// The score of `k`: 0 when it is no candidate.
pub open spec fn score_of<K>(s: Seq<(K, int)>, k: K) -> int {
    if pos(s, k) >= 0 {
        s[pos(s, k)].1
    } else {
        0
    }
}

/// `k` gains `w`: added to its score, or appended as a new candidate.
pub open spec fn add_vote<K>(s: Seq<(K, int)>, k: K, w: int) -> Seq<(K, int)> {
    if pos(s, k) >= 0 {
        s.update(pos(s, k), (k, s[pos(s, k)].1 + w))
    } else {
        s.push((k, w))
    }
}

/// `k` is no longer a candidate.
pub open spec fn remove_key<K>(s: Seq<(K, int)>, k: K) -> Seq<(K, int)> {
    if pos(s, k) >= 0 {
        s.remove(pos(s, k))
    } else {
        s
    }
}

/// The sum of all scores.
pub open spec fn total<K>(s: Seq<(K, int)>) -> int
    decreases s.len(),
{
    if s.len() == 0 {
        0
    } else {
        total(s.drop_last()) + s.last().1
    }
}

/// The position of the winner: the first candidate with the highest score, or -1.
pub open spec fn best_index<K>(s: Seq<(K, int)>) -> int
    decreases s.len(),
{
    if s.len() == 0 {
        -1
    } else {
        let b = best_index(s.drop_last());
        if b >= 0 && s[b].1 >= s.last().1 {
            b
        } else {
            s.len() - 1
        }
    }
}

pub open spec fn nonneg<K>(s: Seq<(K, int)>) -> bool {
    forall|j: int| 0 <= j < s.len() ==> s[j].1 >= 0
}

pub proof fn lemma_key_pos<K>(s: Seq<(K, int)>, k: K, i: int)
    requires
        0 <= i,
    ensures
        key_pos(s, k, i) == -1 ==> forall|j: int| i <= j < s.len() ==> s[j].0 != k,
        key_pos(s, k, i) != -1 ==> {
            &&& i <= key_pos(s, k, i) < s.len()
            &&& s[key_pos(s, k, i)].0 == k
            &&& forall|j: int| i <= j < key_pos(s, k, i) ==> s[j].0 != k
        },
    decreases s.len() - i,
{
    if i < s.len() && s[i].0 != k {
        lemma_key_pos(s, k, i + 1);
    }
}

/// Positions are found by key alone, so changing scores leaves them in place.
pub proof fn lemma_pos_update<K>(s: Seq<(K, int)>, p: int, v: int, k: K)
    requires
        0 <= p < s.len(),
    ensures
        pos(s.update(p, (s[p].0, v)), k) == pos(s, k),
{
    let t = s.update(p, (s[p].0, v));
    lemma_key_pos(s, k, 0);
    lemma_key_pos(t, k, 0);
    assert forall|j: int| 0 <= j < s.len() implies t[j].0 == s[j].0 by {}
}

pub proof fn lemma_total_push<K>(s: Seq<(K, int)>, x: (K, int))
    ensures
        total(s.push(x)) == total(s) + x.1,
{
    assert(s.push(x).drop_last() =~= s);
}

pub proof fn lemma_total_update<K>(s: Seq<(K, int)>, p: int, x: (K, int))
    requires
        0 <= p < s.len(),
    ensures
        total(s.update(p, x)) == total(s) - s[p].1 + x.1,
    decreases s.len(),
{
    if p == s.len() - 1 {
        assert(s.update(p, x).drop_last() =~= s.drop_last());
    } else {
        lemma_total_update(s.drop_last(), p, x);
        assert(s.update(p, x).drop_last() =~= s.drop_last().update(p, x));
    }
}

pub proof fn lemma_total_remove<K>(s: Seq<(K, int)>, p: int)
    requires
        0 <= p < s.len(),
    ensures
        total(s.remove(p)) == total(s) - s[p].1,
    decreases s.len(),
{
    if p == s.len() - 1 {
        assert(s.remove(p) =~= s.drop_last());
    } else {
        lemma_total_remove(s.drop_last(), p);
        assert(s.remove(p).drop_last() =~= s.drop_last().remove(p));
    }
}

pub proof fn lemma_entry_le_total<K>(s: Seq<(K, int)>, j: int)
    requires
        nonneg(s),
        0 <= j < s.len(),
    ensures
        0 <= s[j].1 <= total(s),
        total(s) >= 0,
    decreases s.len(),
{
    let d = s.drop_last();
    assert(nonneg(d)) by {
        assert forall|i: int| 0 <= i < d.len() implies d[i].1 >= 0 by {
            assert(d[i] == s[i]);
        }
    }
    assert(s.last().1 >= 0);
    if j < s.len() - 1 {
        lemma_entry_le_total(d, j);
        assert(d[j] == s[j]);
    } else if s.len() > 1 {
        lemma_entry_le_total(d, 0);
    } else {
        assert(total(d) == 0);
    }
}

pub proof fn lemma_total_nonneg<K>(s: Seq<(K, int)>)
    requires
        nonneg(s),
    ensures
        total(s) >= 0,
{
    if s.len() > 0 {
        lemma_entry_le_total(s, 0);
    }
}

pub proof fn lemma_add_vote<K>(s: Seq<(K, int)>, k: K, w: int)
    ensures
        total(add_vote(s, k, w)) == total(s) + w,
        nonneg(s) && w >= 0 ==> nonneg(add_vote(s, k, w)),
{
    lemma_key_pos(s, k, 0);
    if pos(s, k) >= 0 {
        lemma_total_update(s, pos(s, k), (k, s[pos(s, k)].1 + w));
    } else {
        lemma_total_push(s, (k, w));
    }
}

/// The winner has a score no candidate beats, and it is the first such candidate.
pub proof fn lemma_best_index<K>(s: Seq<(K, int)>)
    ensures
        s.len() == 0 <==> best_index(s) == -1,
        s.len() > 0 ==> {
            &&& 0 <= best_index(s) < s.len()
            &&& forall|j: int| 0 <= j < s.len() ==> #[trigger] s[j].1 <= s[best_index(s)].1
            &&& forall|j: int| 0 <= j < best_index(s) ==> #[trigger] s[j].1 < s[best_index(s)].1
        },
    decreases s.len(),
{
    if s.len() > 0 {
        let d = s.drop_last();
        lemma_best_index(d);
        let b = best_index(d);
        assert forall|j: int| 0 <= j < d.len() implies d[j] == s[j] by {}
        if b >= 0 && s[b].1 >= s.last().1 {
            assert(best_index(s) == b);
            assert forall|j: int| 0 <= j < s.len() implies #[trigger] s[j].1 <= s[b].1 by {
                if j < d.len() {
                    assert(d[j].1 <= d[b].1);
                }
            }
        } else {
            assert(best_index(s) == s.len() - 1);
            assert forall|j: int| 0 <= j < s.len() implies #[trigger] s[j].1 <= s[s.len() - 1].1 by {
                if j < d.len() {
                    assert(d[j].1 <= d[b].1);
                }
            }
            assert forall|j: int| 0 <= j < s.len() - 1 implies #[trigger] s[j].1 < s[s.len() - 1].1 by {
                assert(d[j].1 <= d[b].1);
            }
        }
    }
}


// ---------------------------------------------------------------------------
// The executable tally
// ---------------------------------------------------------------------------

/// A key that a tally can compare and copy.
pub trait TallyKey: View + Sized {
    fn same_key(&self, other: &Self) -> (b: bool)
        ensures
            b == (self@ == other@);

    fn copy_key(&self) -> (r: Self)
        ensures
            r@ == self@;
}

impl TallyKey for u32 {
    fn same_key(&self, other: &Self) -> (b: bool) {
        *self == *other
    }

    fn copy_key(&self) -> (r: Self) {
        *self
    }
}

impl TallyKey for Vec<char> {
    fn same_key(&self, other: &Self) -> (b: bool) {
        chars_eq(self, other)
    }

    fn copy_key(&self) -> (r: Self) {
        let r = crate::text::slice_chars(self, 0, self.len());
        assert(r@ =~= self@);
        r
    }
}

/// Candidates in order of their first vote, each with its summed score.
pub struct Tally<K> {
    pub keys: Vec<K>,
    pub scores: Vec<u128>,
}

impl<K: TallyKey> Tally<K> {
    pub open spec fn wf(&self) -> bool {
        self.keys.len() == self.scores.len()
    }

    /// The candidates and their scores.
    pub open spec fn view_scores(&self) -> Seq<(K::V, int)> {
        Seq::new(self.keys@.len(), |i: int| (self.keys@[i]@, self.scores@[i] as int))
    }

    pub fn new() -> (t: Self)
        ensures
            t.wf(),
            t.view_scores() == Seq::<(K::V, int)>::empty(),
    {
        let t = Tally { keys: Vec::new(), scores: Vec::new() };
        assert(t.view_scores() =~= Seq::<(K::V, int)>::empty());
        t
    }

    /// Where `k` stands, or `None`.
    pub fn find(&self, k: &K) -> (r: Option<usize>)
        requires
            self.wf(),
        ensures
            match r {
                Some(i) => i as int == pos(self.view_scores(), k@),
                None => pos(self.view_scores(), k@) == -1,
            },
    {
        let ghost v = self.view_scores();
        let mut i: usize = 0;
        while i < self.keys.len()
            invariant
                self.wf(),
                v == self.view_scores(),
                i <= self.keys@.len(),
                key_pos(v, k@, 0) == key_pos(v, k@, i as int),
            decreases self.keys.len() - i,
        {
            if self.keys[i].same_key(k) {
                return Some(i);
            }
            i = i + 1;
        }
        None
    }

    /// The score of `k`, 0 when it is no candidate.
    pub fn score(&self, k: &K) -> (r: u128)
        requires
            self.wf(),
        ensures
            r as int == score_of(self.view_scores(), k@),
    {
        proof {
            lemma_key_pos(self.view_scores(), k@, 0);
        }
        match self.find(k) {
            Some(i) => self.scores[i],
            None => 0,
        }
    }

    /// `k` gains `w`.
    pub fn add(&mut self, k: &K, w: u128)
        requires
            old(self).wf(),
            nonneg(old(self).view_scores()),
            total(old(self).view_scores()) + w <= u128::MAX,
        ensures
            final(self).wf(),
            final(self).view_scores() == add_vote(old(self).view_scores(), k@, w as int),
    {
        let ghost v = self.view_scores();
        proof {
            lemma_key_pos(v, k@, 0);
        }
        match self.find(k) {
            Some(i) => {
                proof {
                    lemma_entry_le_total(v, i as int);
                }
                let cur = self.scores[i];
                self.scores.set(i, cur + w);
                assert(self.view_scores() =~= v.update(i as int, (k@, v[i as int].1 + w)));
            },
            None => {
                let kk = k.copy_key();
                self.keys.push(kk);
                self.scores.push(w);
                assert(self.view_scores() =~= v.push((k@, w as int)));
            },
        }
    }

    /// `k` is no longer a candidate.
    pub fn remove(&mut self, k: &K)
        requires
            old(self).wf(),
        ensures
            final(self).wf(),
            final(self).view_scores() == remove_key(old(self).view_scores(), k@),
    {
        let ghost v = self.view_scores();
        proof {
            lemma_key_pos(v, k@, 0);
        }
        match self.find(k) {
            Some(i) => {
                self.keys.remove(i);
                self.scores.remove(i);
                assert(self.view_scores() =~= v.remove(i as int));
            },
            None => {},
        }
    }

    /// Where the winner stands: the first candidate with the highest score.
    pub fn best(&self) -> (r: Option<usize>)
        requires
            self.wf(),
        ensures
            match r {
                Some(i) => i as int == best_index(self.view_scores()),
                None => best_index(self.view_scores()) == -1,
            },
    {
        let ghost v = self.view_scores();
        let mut b: Option<usize> = None;
        for j in 0..self.scores.len()
            invariant
                self.wf(),
                v == self.view_scores(),
                match b {
                    Some(i) => i < j && i as int == best_index(v.take(j as int)),
                    None => j == 0,
                },
        {
            let ghost t = v.take(j + 1);
            assert(t.drop_last() =~= v.take(j as int));
            assert(t.last() == v[j as int]);
            assert forall|x: int| 0 <= x <= j implies t[x] == v[x] by {}
            match b {
                Some(i) => {
                    if self.scores[j] > self.scores[i] {
                        b = Some(j);
                    }
                },
                None => {
                    assert(v.take(j as int).len() == 0);
                    assert(best_index(v.take(j as int)) == -1);
                    b = Some(j);
                },
            }
            assert(b matches Some(i) && i as int == best_index(t));
        }
        assert(v.take(self.scores.len() as int) =~= v);
        b
    }
}


// ---------------------------------------------------------------------------
// What the vote counts
// ---------------------------------------------------------------------------

/// A result votes for its year when it has one and its source has a year weight.
pub open spec fn votes_year(r: SourceResult) -> bool {
    r.year is Some && track_weight(r.source) > 0
}

/// A result votes for its genre when it has one that is no identifier and its
/// source has a genre weight.
pub open spec fn votes_genre(r: SourceResult, m: Seq<(Seq<char>, Seq<char>)>) -> bool {
    r.genre is Some && genre_key(m, (r.genre->0)@) is Some && genre_weight(r.source) > 0
}

/// A result votes for its subgenre when it has one and its source has a genre weight.
pub open spec fn votes_subgenre(r: SourceResult) -> bool {
    r.subgenre is Some && genre_weight(r.source) > 0
}

/// Year candidates and scores, in the order the results first named them.
pub open spec fn year_tally(rs: Seq<SourceResult>) -> Seq<(u32, int)>
    decreases rs.len(),
{
    if rs.len() == 0 {
        seq![]
    } else {
        let prev = year_tally(rs.drop_last());
        let r = rs.last();
        if votes_year(r) {
            add_vote(prev, r.year->0, (track_weight(r.source) * r.confidence) as int)
        } else {
            prev
        }
    }
}

/// Genre candidates (lowercased, normalized) and scores, before parents absorb subgenres.
pub open spec fn genre_tally(rs: Seq<SourceResult>, m: Seq<(Seq<char>, Seq<char>)>) -> Seq<(Seq<char>, int)>
    decreases rs.len(),
{
    if rs.len() == 0 {
        seq![]
    } else {
        let prev = genre_tally(rs.drop_last(), m);
        let r = rs.last();
        if votes_genre(r, m) {
            add_vote(
                prev,
                genre_key(m, (r.genre->0)@)->0,
                (genre_weight(r.source) * r.confidence) as int,
            )
        } else {
            prev
        }
    }
}

/// Subgenre candidates (lowercased) and scores.
pub open spec fn subgenre_tally(rs: Seq<SourceResult>) -> Seq<(Seq<char>, int)>
    decreases rs.len(),
{
    if rs.len() == 0 {
        seq![]
    } else {
        let prev = subgenre_tally(rs.drop_last());
        let r = rs.last();
        if votes_subgenre(r) {
            add_vote(
                prev,
                lowercase((r.subgenre->0)@),
                (genre_weight(r.source) * r.confidence) as int,
            )
        } else {
            prev
        }
    }
}

/// How many results other than Wikipedia's vote for a year.
pub open spec fn year_sources(rs: Seq<SourceResult>) -> nat
    decreases rs.len(),
{
    if rs.len() == 0 {
        0
    } else {
        year_sources(rs.drop_last()) + if votes_year(rs.last()) && rs.last().source
            != SourceName::Wikipedia {
            1nat
        } else {
            0nat
        }
    }
}

/// How many results other than Wikipedia's vote for a genre.
pub open spec fn genre_sources(rs: Seq<SourceResult>, m: Seq<(Seq<char>, Seq<char>)>) -> nat
    decreases rs.len(),
{
    if rs.len() == 0 {
        0
    } else {
        genre_sources(rs.drop_last(), m) + if votes_genre(rs.last(), m) && rs.last().source
            != SourceName::Wikipedia {
            1nat
        } else {
            0nat
        }
    }
}

/// When a subgenre and its parent are both candidates, the parent takes the
/// subgenre's score and the subgenre leaves the race.
pub open spec fn coalesce_pair(s: Seq<(Seq<char>, int)>, child: Seq<char>, parent: Seq<char>) -> Seq<
    (Seq<char>, int),
> {
    if score_of(s, child) > 0 && score_of(s, parent) > 0 {
        remove_key(add_vote(s, parent, score_of(s, child)), child)
    } else {
        s
    }
}

/// The first `n` entries of the parent table applied in order.
pub open spec fn coalesce_upto(s: Seq<(Seq<char>, int)>, n: nat) -> Seq<(Seq<char>, int)>
    decreases n,
{
    if n == 0 {
        s
    } else {
        let t = coalesce_upto(s, (n - 1) as nat);
        coalesce_pair(t, parent_at((n - 1) as usize).0, parent_at((n - 1) as usize).1)
    }
}

/// The genre candidates that the vote ranks.
pub open spec fn genre_scores(rs: Seq<SourceResult>, m: Seq<(Seq<char>, Seq<char>)>) -> Seq<(Seq<char>, int)> {
    coalesce_upto(genre_tally(rs, m), PARENT_COUNT as nat)
}

/// The winner's share of all votes times (n+1)/(n+2), where `n` counts the
/// sources that voted, as a fraction (numerator, denominator); 0 when no
/// vote carries any weight.
pub open spec fn weighted_confidence(score: int, total: int, n: nat) -> (int, int) {
    if total > 0 {
        (score * (n + 1), total * (n + 2))
    } else {
        (0, 1)
    }
}

/// The winner's share of all votes, as a fraction; 0 when no vote carries any weight.
pub open spec fn plurality(score: int, total: int) -> (int, int) {
    if total > 0 {
        (score, total)
    } else {
        (0, 1)
    }
}

/// A share that is at most one, over a denominator small enough to be
/// printed as a percentage.
pub open spec fn reportable(f: Fraction) -> bool {
    f.num <= f.den && 0 < f.den <= 0x1_0000_0000_0000_0000_0000_0000_0000
}

/// A fraction as the pair of its numerator and denominator.
pub open spec fn frac(f: Fraction) -> (int, int) {
    (f.num as int, f.den as int)
}

/// The winner of a tally and its confidence.
pub open spec fn winner<K>(s: Seq<(K, int)>, n: nat) -> Option<(K, (int, int))> {
    let b = best_index(s);
    if b >= 0 {
        Some((s[b].0, weighted_confidence(s[b].1, total(s), n)))
    } else {
        None
    }
}

/// The voted year.
pub open spec fn voted_year(rs: Seq<SourceResult>) -> Option<(u32, (int, int))> {
    winner(year_tally(rs), year_sources(rs))
}

/// The voted genre.
pub open spec fn voted_genre(rs: Seq<SourceResult>, m: Seq<(Seq<char>, Seq<char>)>) -> Option<(Seq<char>, (int, int))> {
    winner(genre_scores(rs, m), genre_sources(rs, m))
}

/// The voted subgenre, with its plain share of the subgenre votes.
pub open spec fn voted_subgenre(rs: Seq<SourceResult>) -> Option<(Seq<char>, (int, int))> {
    let s = subgenre_tally(rs);
    let b = best_index(s);
    if b >= 0 {
        Some((s[b].0, plurality(s[b].1, total(s))))
    } else {
        None
    }
}

/// The top genre score reaches 2.5 (in units of 10^-10, as weights are in
/// tenths and confidences in billionths): one strong source carries the genre
/// even against disagreement.
pub open spec fn genre_strong(rs: Seq<SourceResult>, m: Seq<(Seq<char>, Seq<char>)>) -> bool {
    let s = genre_scores(rs, m);
    best_index(s) >= 0 && s[best_index(s)].1 >= 25_000_000_000
}

/// The voted genre's confidence reaches the threshold (in thousandths).
pub open spec fn genre_ok(rs: Seq<SourceResult>, threshold: u32, m: Seq<(Seq<char>, Seq<char>)>) -> bool {
    voted_genre(rs, m) matches Some(g) && g.1.0 * 1000 >= threshold * g.1.1
}

/// The most a genre could score: the genre weights (in tenths) of all the
/// results that vote for a genre, each at full confidence.
pub open spec fn genre_weight_total(rs: Seq<SourceResult>, m: Seq<(Seq<char>, Seq<char>)>) -> int
    decreases rs.len(),
{
    if rs.len() == 0 {
        0
    } else {
        genre_weight_total(rs.drop_last(), m) + if votes_genre(rs.last(), m) {
            genre_weight(rs.last().source) as int
        } else {
            0
        }
    }
}

/// The winning genre score before parents absorb subgenres.
pub open spec fn top_genre_score(rs: Seq<SourceResult>, m: Seq<(Seq<char>, Seq<char>)>) -> int {
    let s = genre_tally(rs, m);
    if best_index(s) >= 0 {
        s[best_index(s)].1
    } else {
        0
    }
}

/// The winning genre score over the most a genre could score falls below
/// the threshold (in thousandths).
pub open spec fn score_below_threshold(rs: Seq<SourceResult>, threshold: u32, m: Seq<(Seq<char>, Seq<char>)>) -> bool {
    top_genre_score(rs, m) * 1000 < threshold * genre_weight_total(rs, m) * 1_000_000_000
}

/// A track needs review unless its genre is confident or strong; a confident
/// genre from fewer than two sources, with no year and not strong, needs
/// review too; and so does a track whose winning genre score, over the most
/// it could score, falls below the threshold.
pub open spec fn review_needed(rs: Seq<SourceResult>, threshold: u32, m: Seq<(Seq<char>, Seq<char>)>) -> bool {
    let ok = genre_ok(rs, threshold, m);
    let strong = genre_strong(rs, m);
    ||| !(ok || strong)
    ||| (ok && genre_sources(rs, m) < 2 && voted_year(rs) is None && !strong)
    ||| score_below_threshold(rs, threshold, m)
}


// ---------------------------------------------------------------------------
// Lemmas for the vote
// ---------------------------------------------------------------------------

/// No entry of the parent table names a genre as its own parent.
proof fn lemma_parent_distinct(i: usize)
    requires
        i < PARENT_COUNT,
    ensures
        parent_at(i).0 != parent_at(i).1,
{
    reveal_strlit("alternative rock");
    reveal_strlit("breakbeat");
    reveal_strlit("dance-pop");
    reveal_strlit("disco");
    reveal_strlit("electro");
    reveal_strlit("electronic");
    reveal_strlit("freestyle");
    reveal_strlit("funk");
    reveal_strlit("gospel");
    reveal_strlit("house");
    reveal_strlit("new jack swing");
    reveal_strlit("new wave");
    reveal_strlit("pop");
    reveal_strlit("post-punk");
    reveal_strlit("punk");
    reveal_strlit("r&b");
    reveal_strlit("rock");
    reveal_strlit("soul");
    reveal_strlit("synth-pop");
    if i == 0 {
        assert("synth-pop"@.len() != "pop"@.len());
    } else if i == 1 {
        assert("dance-pop"@.len() != "pop"@.len());
    } else if i == 2 {
        assert("electro"@.len() != "electronic"@.len());
    } else if i == 3 {
        assert("house"@.len() != "electronic"@.len());
    } else if i == 4 {
        assert("freestyle"@.len() != "electronic"@.len());
    } else if i == 5 {
        assert("breakbeat"@.len() != "electronic"@.len());
    } else if i == 6 {
        assert("new wave"@.len() != "rock"@.len());
    } else if i == 7 {
        assert("post-punk"@.len() != "rock"@.len());
    } else if i == 8 {
        assert("alternative rock"@.len() != "rock"@.len());
    } else if i == 9 {
        assert("punk"@[0] != "rock"@[0]);
    } else if i == 10 {
        assert("new jack swing"@.len() != "r&b"@.len());
    } else if i == 11 {
        assert("funk"@.len() != "r&b"@.len());
    } else if i == 12 {
        assert("soul"@.len() != "r&b"@.len());
    } else if i == 13 {
        assert("disco"@.len() != "r&b"@.len());
    } else if i == 14 {
        assert("gospel"@.len() != "soul"@.len());
    }
}

proof fn lemma_coalesce_pair(s: Seq<(Seq<char>, int)>, c: Seq<char>, p: Seq<char>)
    requires
        nonneg(s),
        c != p,
    ensures
        total(coalesce_pair(s, c, p)) == total(s),
        nonneg(coalesce_pair(s, c, p)),
{
    if score_of(s, c) > 0 && score_of(s, p) > 0 {
        let sc = score_of(s, c);
        lemma_key_pos(s, p, 0);
        lemma_key_pos(s, c, 0);
        let pp = pos(s, p);
        let pc = pos(s, c);
        let t = add_vote(s, p, sc);
        lemma_add_vote(s, p, sc);
        assert(t == s.update(pp, (s[pp].0, s[pp].1 + sc)));
        lemma_pos_update(s, pp, s[pp].1 + sc, c);
        assert(pos(t, c) == pc);
        assert(pc != pp);
        assert(t[pc] == s[pc]);
        lemma_total_remove(t, pc);
        let u = t.remove(pc);
        assert forall|j: int| 0 <= j < u.len() implies u[j].1 >= 0 by {
            if j < pc {
                assert(u[j] == t[j]);
            } else {
                assert(u[j] == t[j + 1]);
            }
        }
    }
}

proof fn lemma_coalesce_upto(s: Seq<(Seq<char>, int)>, n: nat)
    requires
        nonneg(s),
        n <= PARENT_COUNT,
    ensures
        total(coalesce_upto(s, n)) == total(s),
        nonneg(coalesce_upto(s, n)),
    decreases n,
{
    if n > 0 {
        lemma_coalesce_upto(s, (n - 1) as nat);
        lemma_parent_distinct((n - 1) as usize);
        lemma_coalesce_pair(
            coalesce_upto(s, (n - 1) as nat),
            parent_at((n - 1) as usize).0,
            parent_at((n - 1) as usize).1,
        );
    }
}

/// The bound on any total over at most `u32::MAX` results.
pub open spec fn total_bound() -> int {
    0x1_0000_0000_0000_0000_00int
}

proof fn lemma_bound_step(i: int)
    requires
        0 <= i < 0x1_0000_0000,
    ensures
        (i + 1) * max_vote() <= total_bound(),
{
    assert((i + 1) * max_vote() <= 0x1_0000_0000int * max_vote()) by (nonlinear_arith)
        requires
            0 <= i < 0x1_0000_0000,
            max_vote() == 171_798_691_800int,
    ;
}

proof fn lemma_weighted_confidence(score: int, total: int, n: int)
    requires
        0 <= score <= total <= total_bound(),
        0 <= n <= u32::MAX,
        total > 0,
    ensures
        score * (n + 1) * 1000 <= u128::MAX,
        total * (n + 2) <= u128::MAX,
        total * (n + 2) > 0,
        total * (n + 2) <= total_bound() * 0x1_0000_0001int,
        0 <= score * (n + 1) <= total * (n + 2),
{
    assert(score * (n + 1) * 1000 <= total_bound() * 0x1_0000_0000int * 1000) by (nonlinear_arith)
        requires
            0 <= score <= total_bound(),
            0 <= n <= u32::MAX,
    ;
    assert(total * (n + 2) <= total_bound() * 0x1_0000_0001int) by (nonlinear_arith)
        requires
            0 <= total <= total_bound(),
            0 <= n <= u32::MAX,
    ;
    assert(total * (n + 2) > 0) by (nonlinear_arith)
        requires
            total > 0,
            n >= 0,
    ;
    assert(0 <= score * (n + 1) <= total * (n + 2)) by (nonlinear_arith)
        requires
            0 <= score <= total,
            n >= 0,
    ;
}

fn confidence_of(score: u128, total: u128, n: u32) -> (c: Fraction)
    requires
        score <= total <= total_bound(),
    ensures
        frac(c) == weighted_confidence(score as int, total as int, n as nat),
        reportable(c),
        c.num * 1000 <= u128::MAX,
{
    if total == 0 {
        return Fraction { num: 0, den: 1 };
    }
    proof {
        lemma_weighted_confidence(score as int, total as int, n as int);
    }
    Fraction { num: score * (n as u128 + 1), den: total * (n as u128 + 2) }
}

fn plurality_of(score: u128, total: u128) -> (c: Fraction)
    requires
        score <= total <= total_bound(),
    ensures
        frac(c) == plurality(score as int, total as int),
        reportable(c),
{
    if total == 0 {
        return Fraction { num: 0, den: 1 };
    }
    Fraction { num: score, den: total }
}

/// `a / d` rounded down reaches `t` exactly when `a` reaches `t * d`.
proof fn lemma_floor_reaches(a: int, d: int, t: int)
    requires
        a >= 0,
        d > 0,
        t >= 0,
    ensures
        (a / d >= t) == (a >= t * d),
{
    assert((a / d >= t) ==> (a >= t * d)) by (nonlinear_arith)
        requires
            a >= 0,
            d > 0,
            t >= 0,
    ;
    assert((a >= t * d) ==> (a / d >= t)) by (nonlinear_arith)
        requires
            a >= 0,
            d > 0,
            t >= 0,
    ;
}


proof fn lemma_score_le_total<K>(s: Seq<(K, int)>, k: K)
    requires
        nonneg(s),
    ensures
        0 <= score_of(s, k) <= total(s),
{
    lemma_key_pos(s, k, 0);
    lemma_total_nonneg(s);
    if pos(s, k) >= 0 {
        lemma_entry_le_total(s, pos(s, k));
    }
}

proof fn lemma_vote_le_max(w: int, c: int)
    requires
        0 <= w <= 40,
        0 <= c <= 0xFFFF_FFFF,
    ensures
        0 <= w * c <= max_vote(),
{
    assert(0 <= w * c <= 40 * 0xFFFF_FFFF) by (nonlinear_arith)
        requires
            0 <= w <= 40,
            0 <= c <= 0xFFFF_FFFF,
    ;
}

/// The key under which a genre is counted, or `None` for an identifier.
fn genre_key_of(map: &GenreMap, g: &String) -> (r: Option<Vec<char>>)
    ensures
        match r {
            Some(k) => genre_key(map@, g@) == Some(k@),
            None => genre_key(map@, g@) is None,
        },
{
    let lower = to_lowercase(g.as_str());
    let lv = chars_of(lower.as_str());
    if starts_with_str(&lv, "mbid:") {
        None
    } else {
        Some(map.normalize_chars(&lv))
    }
}

// ---------------------------------------------------------------------------
// Voting
// ---------------------------------------------------------------------------

/// Every confidence of the vote can be reported (see `reportable`).
pub open spec fn shares_reportable(v: VoteResult) -> bool {
    &&& v.year matches Some((_, c)) ==> reportable(c)
    &&& v.genre matches Some((_, c)) ==> reportable(c)
    &&& v.subgenre matches Some((_, c)) ==> reportable(c)
}

/// `v` is the outcome of voting over `rs` with the threshold (in thousandths)
/// and the synonym map `m`: the voted year, genre and subgenre with their
/// confidences, the decade of the year, whether review is needed, and the
/// sources in the order they answered.
pub open spec fn is_vote_of(v: VoteResult, rs: Seq<SourceResult>, threshold: u32, m: Seq<(Seq<char>, Seq<char>)>) -> bool {
    &&& match v.year {
        Some((y, c)) => voted_year(rs) == Some((y, frac(c))),
        None => voted_year(rs) is None,
    }
    &&& match v.genre {
        Some((g, c)) => voted_genre(rs, m) == Some((g@, frac(c))),
        None => voted_genre(rs, m) is None,
    }
    &&& match v.subgenre {
        Some((g, c)) => voted_subgenre(rs) == Some((g@, frac(c))),
        None => voted_subgenre(rs) is None,
    }
    &&& match v.decade {
        Some(d) => v.year matches Some((y, _)) && d@ == decade_label(y as nat),
        None => v.year is None,
    }
    &&& v.needs_review == review_needed(rs, threshold, m)
    &&& v.sources_used@ == rs.map_values(|r: SourceResult| r.source)
}

/// Weighs what the sources said and picks year, genre and subgenre, with
/// genres normalized by `map`.
///
/// Each year vote counts its source's year weight times its confidence, each
/// genre vote its genre weight times its confidence; genres are lowercased and
/// normalized, and a subgenre whose parent is also a candidate folds into it.
/// The winner's confidence is its share of the votes times (n+1)/(n+2), where
/// `n` counts the sources (other than Wikipedia) that voted for that field.
/// `confidence_threshold` is in thousandths.
pub fn vote_with_map(results: Vec<SourceResult>, confidence_threshold: u32, map: &GenreMap) -> (v: VoteResult)
    requires
        results.len() <= u32::MAX,
    ensures
        is_vote_of(v, results@, confidence_threshold, map@),
        shares_reportable(v),
{
    let ghost rs = results@;
    let mut years: Tally<u32> = Tally::new();
    let mut genres: Tally<Vec<char>> = Tally::new();
    let mut subgenres: Tally<Vec<char>> = Tally::new();
    let mut sources_used: Vec<SourceName> = Vec::new();
    let mut year_total: u128 = 0;
    let mut genre_total: u128 = 0;
    let mut sub_total: u128 = 0;
    let mut year_count: u32 = 0;
    let mut genre_count: u32 = 0;
    let mut weight_sum: u64 = 0;
    let n = results.len();
    for i in 0..n
        invariant
            n == rs.len() <= u32::MAX,
            rs == results@,
            years.wf(),
            genres.wf(),
            subgenres.wf(),
            years.view_scores() == year_tally(rs.take(i as int)),
            genres.view_scores() == genre_tally(rs.take(i as int), map@),
            subgenres.view_scores() == subgenre_tally(rs.take(i as int)),
            nonneg(years.view_scores()),
            nonneg(genres.view_scores()),
            nonneg(subgenres.view_scores()),
            year_total as int == total(years.view_scores()),
            genre_total as int == total(genres.view_scores()),
            sub_total as int == total(subgenres.view_scores()),
            year_total <= i * max_vote(),
            genre_total <= i * max_vote(),
            sub_total <= i * max_vote(),
            year_count as nat == year_sources(rs.take(i as int)),
            genre_count as nat == genre_sources(rs.take(i as int), map@),
            weight_sum as int == genre_weight_total(rs.take(i as int), map@),
            weight_sum <= i * 40,
            year_count <= i,
            genre_count <= i,
            sources_used@ == rs.take(i as int).map_values(|r: SourceResult| r.source),
    {
        let r = &results[i];
        let ghost rs1 = rs.take(i + 1);
        assert(rs1.drop_last() =~= rs.take(i as int));
        assert(rs1.last() == rs[i as int]);
        proof {
            lemma_bound_step(i as int);
        }
        sources_used.push(r.source);
        assert(rs1.map_values(|r: SourceResult| r.source) =~= rs.take(i as int).map_values(
            |r: SourceResult| r.source,
        ).push(r.source));
        let is_primary = r.source != SourceName::Wikipedia;
        let tw = weight_track(r.source);
        let gw = weight_genre(r.source);
        match r.year {
            Some(y) => {
                if tw > 0 {
                    proof {
                        lemma_vote_le_max(tw as int, r.confidence as int);
                        lemma_add_vote(years.view_scores(), y, (tw * r.confidence) as int);
                    }
                    let w: u128 = tw as u128 * r.confidence as u128;
                    assert(year_total + w <= (i + 1) * max_vote());
                    years.add(&y, w);
                    year_total = year_total + w;
                    if is_primary {
                        year_count = year_count + 1;
                    }
                }
            },
            None => {},
        }
        match &r.genre {
            Some(g) => {
                if gw > 0 {
                    match genre_key_of(map, g) {
                        Some(k) => {
                            proof {
                                lemma_vote_le_max(gw as int, r.confidence as int);
                                lemma_add_vote(genres.view_scores(), k@, (gw * r.confidence) as int);
                            }
                            let w: u128 = gw as u128 * r.confidence as u128;
                            assert(genre_total + w <= (i + 1) * max_vote());
                            genres.add(&k, w);
                            genre_total = genre_total + w;
                            weight_sum = weight_sum + gw as u64;
                            if is_primary {
                                genre_count = genre_count + 1;
                            }
                        },
                        None => {},
                    }
                }
            },
            None => {},
        }
        match &r.subgenre {
            Some(sub) => {
                if gw > 0 {
                    let lower = to_lowercase(sub.as_str());
                    let k = chars_of(lower.as_str());
                    proof {
                        lemma_vote_le_max(gw as int, r.confidence as int);
                        lemma_add_vote(subgenres.view_scores(), k@, (gw * r.confidence) as int);
                    }
                    let w: u128 = gw as u128 * r.confidence as u128;
                    assert(sub_total + w <= (i + 1) * max_vote());
                    subgenres.add(&k, w);
                    sub_total = sub_total + w;
                }
            },
            None => {},
        }
    }
    assert(rs.take(n as int) =~= rs);
    proof {
        if n > 0 {
            lemma_bound_step(n - 1);
        }
    }

    // The winning score before parents absorb subgenres.
    proof {
        lemma_best_index(genres.view_scores());
    }
    let pre_top: u128 = match genres.best() {
        Some(b) => {
            proof {
                lemma_entry_le_total(genres.view_scores(), b as int);
            }
            genres.scores[b]
        },
        None => 0,
    };
    assert(pre_top as int == top_genre_score(rs, map@));

    // A subgenre whose parent is also a candidate folds into the parent.
    let ghost g0 = genres.view_scores();
    for k in 0..PARENT_COUNT
        invariant
            genres.wf(),
            genres.view_scores() == coalesce_upto(g0, k as nat),
            nonneg(g0),
            genre_total as int == total(g0),
            genre_total <= total_bound(),
    {
        proof {
            lemma_coalesce_upto(g0, k as nat);
        }
        let (c, p) = parent_entry(k);
        let cv = chars_of(c);
        let pv = chars_of(p);
        let cs = genres.score(&cv);
        let ps = genres.score(&pv);
        proof {
            lemma_score_le_total(genres.view_scores(), cv@);
        }
        if cs > 0 && ps > 0 {
            genres.add(&pv, cs);
            genres.remove(&cv);
        }
    }
    proof {
        lemma_coalesce_upto(g0, PARENT_COUNT as nat);
        lemma_best_index(years.view_scores());
        lemma_best_index(genres.view_scores());
        lemma_best_index(subgenres.view_scores());
    }

    let year = match years.best() {
        Some(b) => {
            proof {
                lemma_entry_le_total(years.view_scores(), b as int);
            }
            Some((years.keys[b], confidence_of(years.scores[b], year_total, year_count)))
        },
        None => None,
    };
    let mut genre_top: u128 = 0;
    let genre = match genres.best() {
        Some(b) => {
            proof {
                lemma_entry_le_total(genres.view_scores(), b as int);
            }
            genre_top = genres.scores[b];
            let g = genres.keys[b].copy_key();
            Some((string_of(&g), confidence_of(genres.scores[b], genre_total, genre_count)))
        },
        None => None,
    };
    let subgenre = match subgenres.best() {
        Some(b) => {
            proof {
                lemma_entry_le_total(subgenres.view_scores(), b as int);
            }
            let g = subgenres.keys[b].copy_key();
            Some((string_of(&g), plurality_of(subgenres.scores[b], sub_total)))
        },
        None => None,
    };

    let genre_ok = match &genre {
        Some((_, c)) => {
            proof {
                lemma_floor_reaches(c.num * 1000, c.den as int, confidence_threshold as int);
            }
            (c.num * 1000) / c.den >= confidence_threshold as u128
        },
        None => false,
    };
    let genre_strong = genre.is_some() && genre_top >= 25_000_000_000;
    assert(pre_top * 1000 <= total_bound() * 1000);
    assert(confidence_threshold as u128 * weight_sum as u128 <= 0xFFFF_FFFF * (0x1_0000_0000 * 40))
        by (nonlinear_arith)
        requires
            weight_sum <= 0x1_0000_0000 * 40,
    ;
    let below = pre_top * 1000 < confidence_threshold as u128 * weight_sum as u128 * 1_000_000_000;
    let needs_review = !(genre_ok || genre_strong) || (genre_ok && genre_count < 2
        && year.is_none() && !genre_strong) || below;

    let decade = match year {
        Some((y, _)) => Some(to_decade(y)),
        None => None,
    };

    VoteResult { year, decade, genre, subgenre, needs_review, sources_used }
}

/// The vote with the built-in genre synonyms: the map of mapping files that
/// hold no rows. Where the mapping files are at hand, build their map with
/// `build_genre_map` and vote with `vote_with_map`.
pub fn vote(results: Vec<SourceResult>, confidence_threshold: u32) -> (v: VoteResult)
    requires
        results.len() <= u32::MAX,
    ensures
        is_vote_of(v, results@, confidence_threshold, builtin_map()),
        shares_reportable(v),
{
    let map = GenreMap::builtin();
    vote_with_map(results, confidence_threshold, &map)
}


// ---------------------------------------------------------------------------
// Quick pre-vote
// ---------------------------------------------------------------------------

/// A result counts for the quick leader when it names a genre that is no
/// identifier and its source has a genre weight.
pub open spec fn votes_lead(r: SourceResult) -> bool {
    r.genre is Some && !starts_with(lowercase((r.genre->0)@), "mbid:"@) && genre_weight(r.source)
        > 0
}

/// Lowercased genres (not normalized) and their weighted scores.
pub open spec fn leader_tally(rs: Seq<SourceResult>) -> Seq<(Seq<char>, int)>
    decreases rs.len(),
{
    if rs.len() == 0 {
        seq![]
    } else {
        let prev = leader_tally(rs.drop_last());
        let r = rs.last();
        if votes_lead(r) {
            add_vote(
                prev,
                lowercase((r.genre->0)@),
                (genre_weight(r.source) * r.confidence) as int,
            )
        } else {
            prev
        }
    }
}

/// The genre with the highest weighted score, before any normalization.
pub open spec fn genre_leader(rs: Seq<SourceResult>) -> Option<Seq<char>> {
    let s = leader_tally(rs);
    let b = best_index(s);
    if b >= 0 {
        Some(s[b].0)
    } else {
        None
    }
}

proof fn lemma_bound_step_usize(i: int)
    requires
        0 <= i < 0x1_0000_0000_0000_0000,
    ensures
        (i + 1) * max_vote() <= 0x1_0000_0000_0000_0000int * max_vote(),
        0x1_0000_0000_0000_0000int * max_vote() < u128::MAX,
{
    assert((i + 1) * max_vote() <= 0x1_0000_0000_0000_0000int * max_vote()) by (nonlinear_arith)
        requires
            0 <= i < 0x1_0000_0000_0000_0000,
            max_vote() == 171_798_691_800int,
    ;
}

/// The genre with the most weight behind it, used to pick the genre that
/// Wikipedia is asked to confirm.
pub fn quick_genre_leader(results: &[SourceResult]) -> (r: Option<String>)
    ensures
        match r {
            Some(g) => genre_leader(results@) == Some(g@),
            None => genre_leader(results@) is None,
        },
{
    let ghost rs = results@;
    let mut scores: Tally<Vec<char>> = Tally::new();
    let mut sum: u128 = 0;
    let n = results.len();
    for i in 0..n
        invariant
            n == rs.len(),
            rs == results@,
            scores.wf(),
            scores.view_scores() == leader_tally(rs.take(i as int)),
            nonneg(scores.view_scores()),
            sum as int == total(scores.view_scores()),
            sum <= i * max_vote(),
    {
        let r = &results[i];
        let ghost rs1 = rs.take(i + 1);
        assert(rs1.drop_last() =~= rs.take(i as int));
        assert(rs1.last() == rs[i as int]);
        proof {
            lemma_bound_step_usize(i as int);
        }
        match &r.genre {
            Some(g) => {
                let lower = to_lowercase(g.as_str());
                let k = chars_of(lower.as_str());
                if !starts_with_str(&k, "mbid:") {
                    let w = weight_genre(r.source);
                    if w > 0 {
                        proof {
                            lemma_vote_le_max(w as int, r.confidence as int);
                            lemma_add_vote(scores.view_scores(), k@, (w * r.confidence) as int);
                        }
                        let x: u128 = w as u128 * r.confidence as u128;
                        assert(sum + x <= (i + 1) * max_vote());
                        scores.add(&k, x);
                        sum = sum + x;
                    }
                }
            },
            None => {},
        }
    }
    assert(rs.take(n as int) =~= rs);
    proof {
        lemma_best_index(scores.view_scores());
    }
    match scores.best() {
        Some(b) => {
            let g = scores.keys[b].copy_key();
            Some(string_of(&g))
        },
        None => None,
    }
}


// ---------------------------------------------------------------------------
// Laws of the vote
// ---------------------------------------------------------------------------

proof fn lemma_year_tally_nonneg(rs: Seq<SourceResult>)
    ensures
        nonneg(year_tally(rs)),
    decreases rs.len(),
{
    if rs.len() > 0 {
        lemma_year_tally_nonneg(rs.drop_last());
        let r = rs.last();
        lemma_add_vote(
            year_tally(rs.drop_last()),
            r.year->0,
            (track_weight(r.source) * r.confidence) as int,
        );
    }
}

proof fn lemma_genre_tally_nonneg(rs: Seq<SourceResult>, m: Seq<(Seq<char>, Seq<char>)>)
    ensures
        nonneg(genre_tally(rs, m)),
    decreases rs.len(),
{
    if rs.len() > 0 {
        lemma_genre_tally_nonneg(rs.drop_last(), m);
        let r = rs.last();
        lemma_add_vote(
            genre_tally(rs.drop_last(), m),
            genre_key(m, (r.genre->0)@)->0,
            (genre_weight(r.source) * r.confidence) as int,
        );
    }
}

proof fn lemma_share_at_most_one(score: int, total: int, n: nat)
    requires
        0 <= score <= total,
    ensures
        0 <= weighted_confidence(score, total, n).0 <= weighted_confidence(score, total, n).1,
        weighted_confidence(score, total, n).1 > 0,
{
    if total > 0 {
        assert(0 <= score * (n + 1) <= total * (n + 2) && total * (n + 2) > 0) by (nonlinear_arith)
            requires
                0 <= score <= total,
                total > 0,
                n >= 0,
        ;
    }
}

/// A track without a voted genre always needs review: the genre is obligatory.
pub proof fn law_no_genre_needs_review(rs: Seq<SourceResult>, threshold: u32, m: Seq<(Seq<char>, Seq<char>)>)
    requires
        voted_genre(rs, m) is None,
    ensures
        review_needed(rs, threshold, m),
{
}

/// A genre below the confidence threshold needs review unless one source
/// carried it strongly (a score of 2.5 or more).
pub proof fn law_low_confidence_needs_review(rs: Seq<SourceResult>, threshold: u32, m: Seq<(Seq<char>, Seq<char>)>)
    requires
        voted_genre(rs, m) matches Some((_, c)) && c.0 * 1000 < threshold * c.1,
        !genre_strong(rs, m),
    ensures
        review_needed(rs, threshold, m),
{
}

/// A track whose winning genre score, divided by the most any genre could
/// score (every genre vote agreeing at full confidence), falls below the
/// threshold needs review, however strong that score is.
pub proof fn law_low_score_share_needs_review(rs: Seq<SourceResult>, threshold: u32, m: Seq<(Seq<char>, Seq<char>)>)
    requires
        top_genre_score(rs, m) * 1000 < threshold * genre_weight_total(rs, m) * 1_000_000_000,
    ensures
        review_needed(rs, threshold, m),
{
}

/// Two lists of results that agree, place by place, in source, confidence and
/// whether there is a subgenre, and whose subgenres lowercase alike.
pub open spec fn same_subgenre_votes(rs1: Seq<SourceResult>, rs2: Seq<SourceResult>) -> bool {
    &&& rs1.len() == rs2.len()
    &&& forall|i: int|
        0 <= i < rs1.len() ==> {
            &&& (#[trigger] rs1[i]).source == rs2[i].source
            &&& rs1[i].confidence == rs2[i].confidence
            &&& (rs1[i].subgenre is Some <==> rs2[i].subgenre is Some)
            &&& rs1[i].subgenre is Some ==> lowercase((rs1[i].subgenre->0)@) == lowercase(
                (rs2[i].subgenre->0)@,
            )
        }
}

proof fn lemma_subgenre_tally_alike(rs1: Seq<SourceResult>, rs2: Seq<SourceResult>)
    requires
        same_subgenre_votes(rs1, rs2),
    ensures
        subgenre_tally(rs1) == subgenre_tally(rs2),
    decreases rs1.len(),
{
    if rs1.len() > 0 {
        let d1 = rs1.drop_last();
        let d2 = rs2.drop_last();
        assert forall|i: int| 0 <= i < d1.len() implies {
            &&& (#[trigger] d1[i]).source == d2[i].source
            &&& d1[i].confidence == d2[i].confidence
            &&& (d1[i].subgenre is Some <==> d2[i].subgenre is Some)
            &&& d1[i].subgenre is Some ==> lowercase((d1[i].subgenre->0)@) == lowercase(
                (d2[i].subgenre->0)@,
            )
        } by {
            assert(d1[i] == rs1[i] && d2[i] == rs2[i]);
        }
        lemma_subgenre_tally_alike(d1, d2);
        assert(rs1[rs1.len() - 1] == rs1.last());
    }
}

/// Subgenre votes that differ only in letter case count for one candidate:
/// results that agree but for how their subgenres are written, as long as
/// those lowercase alike, vote the same subgenre with the same share.
pub proof fn law_subgenre_case_blind(rs1: Seq<SourceResult>, rs2: Seq<SourceResult>)
    requires
        same_subgenre_votes(rs1, rs2),
    ensures
        voted_subgenre(rs1) == voted_subgenre(rs2),
{
    lemma_subgenre_tally_alike(rs1, rs2);
}

proof fn lemma_subgenre_keys(rs: Seq<SourceResult>)
    ensures
        forall|j: int| #![trigger subgenre_tally(rs)[j]] 0 <= j < subgenre_tally(rs).len() ==> exists|i: int|
            0 <= i < rs.len() && (#[trigger] rs[i]).subgenre is Some && subgenre_tally(rs)[j].0
                == lowercase((rs[i].subgenre->0)@),
    decreases rs.len(),
{
    if rs.len() > 0 {
        let d = rs.drop_last();
        lemma_subgenre_keys(d);
        let prev = subgenre_tally(d);
        let t = subgenre_tally(rs);
        let r = rs.last();
        assert forall|j: int| #![trigger t[j]] 0 <= j < t.len() implies exists|i: int|
            0 <= i < rs.len() && (#[trigger] rs[i]).subgenre is Some && t[j].0 == lowercase(
                (rs[i].subgenre->0)@,
            ) by {
            if votes_subgenre(r) {
                let k = lowercase((r.subgenre->0)@);
                lemma_key_pos(prev, k, 0);
                if j < prev.len() && (pos(prev, k) < 0 || j != pos(prev, k)) {
                    assert(t[j].0 == prev[j].0);
                    let i = choose|i: int|
                        0 <= i < d.len() && (#[trigger] d[i]).subgenre is Some && prev[j].0 == lowercase(
                            (d[i].subgenre->0)@,
                        );
                    assert(rs[i] == d[i]);
                } else {
                    assert(t[j].0 == k);
                    assert(rs[rs.len() - 1] == r);
                }
            } else {
                let i = choose|i: int|
                    0 <= i < d.len() && (#[trigger] d[i]).subgenre is Some && prev[j].0 == lowercase(
                        (d[i].subgenre->0)@,
                    );
                assert(rs[i] == d[i]);
            }
        }
        assert(t == subgenre_tally(rs));
    } else {
        assert(subgenre_tally(rs).len() == 0);
    }
}

/// The voted subgenre is one of the subgenres the results named, lowercased.
pub proof fn law_subgenre_is_lowercased(rs: Seq<SourceResult>)
    ensures
        voted_subgenre(rs) matches Some((g, _)) ==> exists|i: int|
            0 <= i < rs.len() && (#[trigger] rs[i]).subgenre is Some && g == lowercase(
                (rs[i].subgenre->0)@,
            ),
{
    lemma_subgenre_keys(rs);
    lemma_best_index(subgenre_tally(rs));
}

/// No candidate appears twice.
pub open spec fn distinct_keys<K>(s: Seq<(K, int)>) -> bool {
    forall|i: int, j: int| 0 <= i < j < s.len() ==> #[trigger] s[i].0 != #[trigger] s[j].0
}

proof fn lemma_add_vote_distinct<K>(s: Seq<(K, int)>, k: K, w: int)
    requires
        distinct_keys(s),
    ensures
        distinct_keys(add_vote(s, k, w)),
{
    lemma_key_pos(s, k, 0);
    let t = add_vote(s, k, w);
    assert forall|i: int, j: int| 0 <= i < j < t.len() implies #[trigger] t[i].0 != #[trigger] t[j].0 by {
        if pos(s, k) >= 0 {
            assert(t[i].0 == s[i].0 && t[j].0 == s[j].0);
        } else if j == s.len() {
            assert(t[i].0 == s[i].0);
        } else {
            assert(t[i].0 == s[i].0 && t[j].0 == s[j].0);
        }
    }
}

proof fn lemma_year_tally_distinct(rs: Seq<SourceResult>)
    ensures
        distinct_keys(year_tally(rs)),
    decreases rs.len(),
{
    if rs.len() > 0 {
        lemma_year_tally_distinct(rs.drop_last());
        let r = rs.last();
        lemma_add_vote_distinct(
            year_tally(rs.drop_last()),
            r.year->0,
            (track_weight(r.source) * r.confidence) as int,
        );
    }
}

/// The voted year is the candidate with the highest year score.
pub proof fn law_year_winner_has_top_score(rs: Seq<SourceResult>)
    ensures
        voted_year(rs) matches Some((y, _)) ==> forall|j: int|
            0 <= j < year_tally(rs).len() ==> #[trigger] year_tally(rs)[j].1 <= score_of(
                year_tally(rs),
                y,
            ),
{
    let s = year_tally(rs);
    lemma_best_index(s);
    lemma_year_tally_distinct(rs);
    if best_index(s) >= 0 {
        let b = best_index(s);
        lemma_key_pos(s, s[b].0, 0);
        let p = pos(s, s[b].0);
        if p != b {
            assert(s[p].0 == s[b].0);
            if p < b {
                assert(s[p].0 != s[b].0);
            }
        }
        assert(p == b);
    }
}

/// The voted genre is a candidate whose score no other candidate beats.
pub proof fn law_genre_winner_has_top_score(rs: Seq<SourceResult>, m: Seq<(Seq<char>, Seq<char>)>)
    ensures
        voted_genre(rs, m) matches Some((g, _)) ==> exists|b: int|
            0 <= b < genre_scores(rs, m).len() && genre_scores(rs, m)[b].0 == g && forall|j: int|
                0 <= j < genre_scores(rs, m).len() ==> #[trigger] genre_scores(rs, m)[j].1
                    <= genre_scores(rs, m)[b].1,
{
    let s = genre_scores(rs, m);
    lemma_best_index(s);
    if best_index(s) >= 0 {
        assert(s[best_index(s)].0 == s[best_index(s)].0);
    }
}

/// Confidences never exceed 100%: each is a fraction no greater than one.
pub proof fn law_confidences_at_most_one(rs: Seq<SourceResult>, m: Seq<(Seq<char>, Seq<char>)>)
    ensures
        voted_year(rs) matches Some((_, c)) ==> 0 <= c.0 <= c.1 && c.1 > 0,
        voted_genre(rs, m) matches Some((_, c)) ==> 0 <= c.0 <= c.1 && c.1 > 0,
{
    let ys = year_tally(rs);
    lemma_year_tally_nonneg(rs);
    lemma_best_index(ys);
    if best_index(ys) >= 0 {
        lemma_entry_le_total(ys, best_index(ys));
        lemma_share_at_most_one(ys[best_index(ys)].1, total(ys), year_sources(rs));
    }
    let g0 = genre_tally(rs, m);
    lemma_genre_tally_nonneg(rs, m);
    lemma_coalesce_upto(g0, PARENT_COUNT as nat);
    let gs = genre_scores(rs, m);
    lemma_best_index(gs);
    if best_index(gs) >= 0 {
        lemma_entry_le_total(gs, best_index(gs));
        lemma_share_at_most_one(gs[best_index(gs)].1, total(gs), genre_sources(rs, m));
    }
}

/// A result that casts no year vote (no year, or a source without year weight,
/// such as Last.fm) leaves the voted year as it was.
pub proof fn law_year_ignores_non_voters(rs: Seq<SourceResult>, r: SourceResult)
    requires
        !votes_year(r),
    ensures
        voted_year(rs.push(r)) == voted_year(rs),
{
    assert(rs.push(r).drop_last() =~= rs);
}


/// A Wikipedia result confirms, it does not count as a source: adding one
/// leaves both source counts as they were.
pub proof fn law_wikipedia_not_counted(rs: Seq<SourceResult>, r: SourceResult, m: Seq<(Seq<char>, Seq<char>)>)
    requires
        r.source == SourceName::Wikipedia,
    ensures
        year_sources(rs.push(r)) == year_sources(rs),
        genre_sources(rs.push(r), m) == genre_sources(rs, m),
{
    assert(rs.push(r).drop_last() =~= rs);
}

/// A genre that is a MusicBrainz identifier (`mbid:...`, in any case) casts no
/// vote: adding such a result leaves the voted genre as it was.
pub proof fn law_identifier_genres_ignored(rs: Seq<SourceResult>, r: SourceResult, m: Seq<(Seq<char>, Seq<char>)>)
    requires
        r.genre is Some,
        starts_with(lowercase((r.genre->0)@), "mbid:"@),
    ensures
        voted_genre(rs.push(r), m) == voted_genre(rs, m),
        genre_scores(rs.push(r), m) == genre_scores(rs, m),
{
    assert(rs.push(r).drop_last() =~= rs);
    assert(!votes_genre(r, m));
}

} // verus!
