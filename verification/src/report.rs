//! What a run reports: the fields an audit finds missing and the tally of a
//! tagging run.

use vstd::prelude::*;
use crate::models::TagWriteStatus;
use crate::pipeline::{is_remix, remix_file, ProcessResult};

verus! {

/// The tag fields an audited file lacks.
#[derive(Debug, Clone, Copy, PartialEq, Eq, Structural)]
pub enum Missing {
    YearAndGenre,
    Year,
    Genre,
}

/// What a file lacks, if anything.
pub fn missing_fields(has_year: bool, has_genre: bool) -> (m: Option<Missing>)
    ensures
        m == if !has_year && !has_genre {
            Some(Missing::YearAndGenre)
        } else if !has_year {
            Some(Missing::Year)
        } else if !has_genre {
            Some(Missing::Genre)
        } else {
            None
        },
{
    if !has_year && !has_genre {
        Some(Missing::YearAndGenre)
    } else if !has_year {
        Some(Missing::Year)
    } else if !has_genre {
        Some(Missing::Genre)
    } else {
        None
    }
}

pub open spec fn missing_text(m: Missing) -> Seq<char> {
    match m {
        Missing::YearAndGenre => "[MISSING year+genre]"@,
        Missing::Year => "[MISSING year]"@,
        Missing::Genre => "[MISSING genre]"@,
    }
}

/// The label an audit prints for a file.
pub fn missing_label(m: Missing) -> (s: &'static str)
    ensures
        s@ == missing_text(m),
{
    match m {
        Missing::YearAndGenre => "[MISSING year+genre]",
        Missing::Year => "[MISSING year]",
        Missing::Genre => "[MISSING genre]",
    }
}

/// The files an audit looks at: those whose names mark no remix, in order.
pub open spec fn audited(paths: Seq<String>) -> Seq<String>
    decreases paths.len(),
{
    if paths.len() == 0 {
        seq![]
    } else if remix_file(paths.last()@) {
        audited(paths.drop_last())
    } else {
        audited(paths.drop_last()).push(paths.last())
    }
}

/// The files to audit, leaving out remixes.
pub fn audit_files(paths: &Vec<String>) -> (r: Vec<String>)
    ensures
        r@ == audited(paths@),
{
    let mut r: Vec<String> = Vec::new();
    for i in 0..paths.len()
        invariant
            r@ == audited(paths@.take(i as int)),
    {
        assert(paths@.take(i + 1).drop_last() =~= paths@.take(i as int));
        if !is_remix(paths[i].as_str()) {
            r.push(paths[i].clone());
        }
    }
    assert(paths@.take(paths@.len() as int) =~= paths@);
    r
}

/// How many files a tagging run wrote, only reported, left for review, or failed on.
#[derive(Debug, Clone, Copy, PartialEq, Eq, Structural)]
pub struct StatusCounts {
    pub written: usize,
    pub dry_run: usize,
    pub needs_review: usize,
    pub errors: usize,
}

/// The counts over the results, by status.
pub open spec fn counts_of(rs: Seq<ProcessResult>) -> (int, int, int, int)
    decreases rs.len(),
{
    if rs.len() == 0 {
        (0, 0, 0, 0)
    } else {
        let (w, d, n, e) = counts_of(rs.drop_last());
        match rs.last().status {
            TagWriteStatus::Written => (w + 1, d, n, e),
            TagWriteStatus::DryRun => (w, d + 1, n, e),
            TagWriteStatus::NeedsReview => (w, d, n + 1, e),
            TagWriteStatus::Error(_) => (w, d, n, e + 1),
            TagWriteStatus::Skipped => (w, d, n, e),
        }
    }
}

proof fn lemma_counts_bound(rs: Seq<ProcessResult>)
    ensures
        0 <= counts_of(rs).0 && 0 <= counts_of(rs).1 && 0 <= counts_of(rs).2 && 0 <= counts_of(rs).3,
        counts_of(rs).0 + counts_of(rs).1 + counts_of(rs).2 + counts_of(rs).3 <= rs.len(),
    decreases rs.len(),
{
    if rs.len() > 0 {
        lemma_counts_bound(rs.drop_last());
    }
}

/// The tally of a tagging run (skipped files count in none of its columns).
pub fn count_statuses(results: &Vec<ProcessResult>) -> (c: StatusCounts)
    ensures
        (c.written as int, c.dry_run as int, c.needs_review as int, c.errors as int) == counts_of(results@),
{
    let mut c = StatusCounts { written: 0, dry_run: 0, needs_review: 0, errors: 0 };
    for i in 0..results.len()
        invariant
            (c.written as int, c.dry_run as int, c.needs_review as int, c.errors as int) == counts_of(
                results@.take(i as int),
            ),
            i <= results@.len(),
    {
        assert(results@.take(i + 1).drop_last() =~= results@.take(i as int));
        proof {
            lemma_counts_bound(results@.take(i as int));
        }
        match &results[i].status {
            TagWriteStatus::Written => c.written = c.written + 1,
            TagWriteStatus::DryRun => c.dry_run = c.dry_run + 1,
            TagWriteStatus::NeedsReview => c.needs_review = c.needs_review + 1,
            TagWriteStatus::Error(_) => c.errors = c.errors + 1,
            TagWriteStatus::Skipped => {},
        }
    }
    assert(results@.take(results@.len() as int) =~= results@);
    c
}

/// The files left for review, in order.
pub open spec fn review_paths(rs: Seq<ProcessResult>) -> Seq<String>
    decreases rs.len(),
{
    if rs.len() == 0 {
        seq![]
    } else if rs.last().status is NeedsReview {
        review_paths(rs.drop_last()).push(rs.last().path)
    } else {
        review_paths(rs.drop_last())
    }
}

pub fn needs_review_paths(results: &Vec<ProcessResult>) -> (r: Vec<String>)
    ensures
        r@ == review_paths(results@),
{
    let mut r: Vec<String> = Vec::new();
    for i in 0..results.len()
        invariant
            r@ == review_paths(results@.take(i as int)),
    {
        assert(results@.take(i + 1).drop_last() =~= results@.take(i as int));
        match &results[i].status {
            TagWriteStatus::NeedsReview => r.push(results[i].path.clone()),
            _ => {},
        }
    }
    assert(results@.take(results@.len() as int) =~= results@);
    r
}

} // verus!
