//! What writing tags does: whether to write at all, which fields to set, and
//! the report of a dry run.

use vstd::prelude::*;
use crate::models::{Fraction, VoteResult};
use crate::tagger::voter::{reportable, shares_reportable};
use crate::text::{append_chars, append_str, chars_of, decimal, opt_chars, push_decimal, string_of};

verus! {

/// What happens to a file once the vote is in.
#[derive(Debug, Clone, Copy, PartialEq, Eq, Structural)]
pub enum WriteStep {
    /// The vote needs review: nothing is written.
    Review,
    /// A dry run: the tags are reported, not written.
    Preview,
    /// The tags are written.
    Write,
}

/// A vote that needs review is never written, unless the run is forced; a
/// dry run only reports.
pub fn write_step(vote: &VoteResult, dry_run: bool, force: bool) -> (s: WriteStep)
    ensures
        s == if vote.needs_review && !force {
            WriteStep::Review
        } else if dry_run {
            WriteStep::Preview
        } else {
            WriteStep::Write
        },
{
    if vote.needs_review && !force {
        WriteStep::Review
    } else if dry_run {
        WriteStep::Preview
    } else {
        WriteStep::Write
    }
}

/// One change to a file's primary tag.
#[derive(Debug)]
pub enum TagOp {
    /// Remove every year item (the known year key and any custom key named
    /// "year" in any ASCII case).
    ClearYear,
    /// Set the format's year item.
    SetYear(String),
    /// Set the format's genre item.
    SetGenre(String),
    /// Set a custom item under the given key.
    SetCustom(String, String),
}

/// A change to a tag, its texts taken as characters.
pub enum TagOpView {
    ClearYear,
    SetYear(Seq<char>),
    SetGenre(Seq<char>),
    SetCustom(Seq<char>, Seq<char>),
}

pub open spec fn op_view(op: TagOp) -> TagOpView {
    match op {
        TagOp::ClearYear => TagOpView::ClearYear,
        TagOp::SetYear(y) => TagOpView::SetYear(y@),
        TagOp::SetGenre(g) => TagOpView::SetGenre(g@),
        TagOp::SetCustom(k, v) => TagOpView::SetCustom(k@, v@),
    }
}

/// The changes, in order, that write a vote into a tag. Vorbis comments get
/// the year under a custom `YEAR` key (after removing any other year) and the
/// decade under `decade`; other formats get the year in their year item and
/// the decade under `GROUPING`. The subgenre goes under `SUBGENRE`.
pub open spec fn planned_ops(vote: VoteResult, is_vorbis: bool) -> Seq<TagOpView> {
    year_ops(vote, is_vorbis) + genre_ops(vote) + subgenre_ops(vote) + decade_ops(vote, is_vorbis)
}

pub open spec fn year_ops(vote: VoteResult, is_vorbis: bool) -> Seq<TagOpView> {
    match vote.year {
        Some((y, _)) => if is_vorbis {
            seq![TagOpView::ClearYear, TagOpView::SetCustom("YEAR"@, decimal(y as nat))]
        } else {
            seq![TagOpView::SetYear(decimal(y as nat))]
        },
        None => seq![],
    }
}

pub open spec fn genre_ops(vote: VoteResult) -> Seq<TagOpView> {
    match vote.genre {
        Some((g, _)) => seq![TagOpView::SetGenre(g@)],
        None => seq![],
    }
}

pub open spec fn subgenre_ops(vote: VoteResult) -> Seq<TagOpView> {
    match vote.subgenre {
        Some((sub, _)) => seq![TagOpView::SetCustom("SUBGENRE"@, sub@)],
        None => seq![],
    }
}

pub open spec fn decade_ops(vote: VoteResult, is_vorbis: bool) -> Seq<TagOpView> {
    match vote.decade {
        Some(d) => seq![TagOpView::SetCustom(if is_vorbis { "decade"@ } else { "GROUPING"@ }, d@)],
        None => seq![],
    }
}

/// In every tag format the genre is written once, as the voted genre, and
/// nothing else is written as the genre; a voted subgenre is written under
/// the custom `SUBGENRE` key.
pub proof fn law_genre_and_subgenre_items(vote: VoteResult, is_vorbis: bool)
    ensures
        forall|i: int| 0 <= i < planned_ops(vote, is_vorbis).len() ==> (#[trigger] planned_ops(vote, is_vorbis)[i]
            matches TagOpView::SetGenre(x) ==> vote.genre matches Some((g, _)) && x == g@),
        vote.genre matches Some((g, _)) ==> exists|i: int|
            0 <= i < planned_ops(vote, is_vorbis).len() && #[trigger] planned_ops(vote, is_vorbis)[i]
                == TagOpView::SetGenre(g@),
        vote.subgenre matches Some((sub, _)) ==> exists|i: int|
            0 <= i < planned_ops(vote, is_vorbis).len() && #[trigger] planned_ops(vote, is_vorbis)[i]
                == TagOpView::SetCustom("SUBGENRE"@, sub@),
{
    let y = year_ops(vote, is_vorbis);
    let g = genre_ops(vote);
    let sb = subgenre_ops(vote);
    let d = decade_ops(vote, is_vorbis);
    let p = planned_ops(vote, is_vorbis);
    assert(p == y + g + sb + d);
    assert forall|i: int| 0 <= i < p.len() implies (#[trigger] p[i] matches TagOpView::SetGenre(x) ==> vote.genre matches Some((gg, _)) && x == gg@) by {
        if i < y.len() {
            assert(p[i] == y[i]);
        } else if i < y.len() + g.len() {
            assert(p[i] == g[i - y.len()]);
        } else if i < y.len() + g.len() + sb.len() {
            assert(p[i] == sb[i - y.len() - g.len()]);
        } else {
            assert(p[i] == d[i - y.len() - g.len() - sb.len()]);
        }
    }
    if let Some((gg, _)) = vote.genre {
        assert(p[y.len() as int] == TagOpView::SetGenre(gg@));
    }
    if let Some((sub, _)) = vote.subgenre {
        assert(p[(y.len() + g.len()) as int] == TagOpView::SetCustom("SUBGENRE"@, sub@));
    }
}

fn owned(s: &str) -> (r: String)
    ensures
        r@ == s@,
{
    string_of(&chars_of(s))
}

fn decimal_string(n: u32) -> (s: String)
    ensures
        s@ == decimal(n as nat),
{
    let mut v: Vec<char> = Vec::new();
    push_decimal(&mut v, n);
    assert(v@ =~= decimal(n as nat));
    string_of(&v)
}

/// The changes that write `vote` into a tag, Vorbis comments or another format.
pub fn tag_ops(vote: &VoteResult, is_vorbis: bool) -> (ops: Vec<TagOp>)
    ensures
        ops@.map_values(|o: TagOp| op_view(o)) == planned_ops(*vote, is_vorbis),
{
    let mut ops: Vec<TagOp> = Vec::new();
    if let Some((y, _)) = &vote.year {
        if is_vorbis {
            ops.push(TagOp::ClearYear);
            ops.push(TagOp::SetCustom(owned("YEAR"), decimal_string(*y)));
        } else {
            ops.push(TagOp::SetYear(decimal_string(*y)));
        }
    }
    assert(ops@.map_values(|o: TagOp| op_view(o)) =~= year_ops(*vote, is_vorbis));
    if let Some((g, _)) = &vote.genre {
        ops.push(TagOp::SetGenre(g.clone()));
    }
    assert(ops@.map_values(|o: TagOp| op_view(o)) =~= year_ops(*vote, is_vorbis) + genre_ops(*vote));
    if let Some((sub, _)) = &vote.subgenre {
        ops.push(TagOp::SetCustom(owned("SUBGENRE"), sub.clone()));
    }
    assert(ops@.map_values(|o: TagOp| op_view(o)) =~= year_ops(*vote, is_vorbis) + genre_ops(*vote)
        + subgenre_ops(*vote));
    if let Some(d) = &vote.decade {
        let key = if is_vorbis { owned("decade") } else { owned("GROUPING") };
        ops.push(TagOp::SetCustom(key, d.clone()));
    }
    assert(ops@.map_values(|o: TagOp| op_view(o)) =~= planned_ops(*vote, is_vorbis));
    ops
}

// ---------------------------------------------------------------------------
// Reports
// ---------------------------------------------------------------------------

/// A confidence as a whole percentage, rounded half to even (as `{:.0}` rounds).
pub open spec fn percent(c: Fraction) -> nat {
    let x = c.num * 100;
    let d = c.den as int;
    let q = (x / d) as nat;
    let r = x % d;
    if 2 * r > d || (2 * r == d && q % 2 == 1) {
        q + 1
    } else {
        q
    }
}

/// `"<value> (<percent>%)"`, or `"-"` for nothing.
pub open spec fn scored_text(v: Option<(Seq<char>, Fraction)>) -> Seq<char> {
    match v {
        Some((s, c)) => s + " ("@ + decimal(percent(c)) + "%)"@,
        None => "-"@,
    }
}

pub open spec fn or_dash(v: Option<Seq<char>>) -> Seq<char> {
    match v {
        Some(s) => s,
        None => "-"@,
    }
}

/// The report of a dry run for one file.
pub open spec fn dry_run_text(path: Seq<char>, vote: VoteResult) -> Seq<char> {
    let year = match vote.year {
        Some((y, c)) => Some((decimal(y as nat), c)),
        None => None,
    };
    let genre = match vote.genre {
        Some((g, c)) => Some((g@, c)),
        None => None,
    };
    let sub = match vote.subgenre {
        Some((s, _)) => Some(s@),
        None => None,
    };
    "[DRY-RUN] "@ + path + "\n  year="@ + scored_text(year) + " | genre="@ + scored_text(genre)
        + " | subgenre="@ + or_dash(sub) + " | decade="@ + or_dash(opt_chars(vote.decade))
}

fn push_percent(v: &mut Vec<char>, c: Fraction)
    requires
        reportable(c),
    ensures
        final(v)@ == old(v)@ + decimal(percent(c)),
{
    let x = c.num * 100;
    let q = x / c.den;
    let r = x % c.den;
    assert(q <= 100) by (nonlinear_arith)
        requires
            x == c.num * 100,
            c.num <= c.den,
            c.den > 0,
            q == x / c.den,
    ;
    let q32 = q as u32;
    let p = if 2 * r > c.den || (2 * r == c.den && q32 % 2 == 1) { q32 + 1 } else { q32 };
    push_decimal(v, p);
}

fn push_scored(v: &mut Vec<char>, value: &Vec<char>, c: Fraction)
    requires
        reportable(c),
    ensures
        final(v)@ == old(v)@ + scored_text(Some((value@, c))),
{
    append_chars(v, value);
    append_str(v, " (");
    push_percent(v, c);
    append_str(v, "%)");
    assert(v@ =~= old(v)@ + scored_text(Some((value@, c))));
}

/// What a dry run prints for a file.
pub fn dry_run_report(path: &str, vote: &VoteResult) -> (r: String)
    requires
        shares_reportable(*vote),
    ensures
        r@ == dry_run_text(path@, *vote),
{
    let mut v: Vec<char> = Vec::new();
    append_str(&mut v, "[DRY-RUN] ");
    append_str(&mut v, path);
    append_str(&mut v, "\n  year=");
    let ghost y = match vote.year {
        Some((y, c)) => Some((decimal(y as nat), c)),
        None => None,
    };
    match &vote.year {
        Some((yr, c)) => {
            let mut d: Vec<char> = Vec::new();
            push_decimal(&mut d, *yr);
            assert(d@ =~= decimal(*yr as nat));
            push_scored(&mut v, &d, *c);
        },
        None => {
            append_str(&mut v, "-");
        },
    }
    append_str(&mut v, " | genre=");
    match &vote.genre {
        Some((g, c)) => {
            let gv = chars_of(g.as_str());
            push_scored(&mut v, &gv, *c);
        },
        None => {
            append_str(&mut v, "-");
        },
    }
    append_str(&mut v, " | subgenre=");
    match &vote.subgenre {
        Some((s, _)) => {
            append_str(&mut v, s.as_str());
        },
        None => {
            append_str(&mut v, "-");
        },
    }
    append_str(&mut v, " | decade=");
    match &vote.decade {
        Some(d) => {
            append_str(&mut v, d.as_str());
        },
        None => {
            append_str(&mut v, "-");
        },
    }
    assert(v@ =~= dry_run_text(path@, *vote));
    string_of(&v)
}

/// What a dry run prints for a file in a `_fakes` folder.
pub fn fake_report(path: &str) -> (r: String)
    ensures
        r@ == "[FAKE] "@ + path@,
{
    let mut v: Vec<char> = Vec::new();
    append_str(&mut v, "[FAKE] ");
    append_str(&mut v, path);
    string_of(&v)
}

} // verus!
