//! File paths as text, read as Unix paths: `/`-separated components, where
//! empty and `.` components add nothing.

use vstd::prelude::*;
use crate::text::{chars_eq_ignore_ascii_case, eq_ignore_ascii_case, rfind, rfind_chars, lemma_rfind_to, slice_chars};

verus! {

/// The position of the last `/`, or -1.
pub open spec fn last_slash(p: Seq<char>) -> int {
    rfind(p, seq!['/'])
}

/// The last component of a path that is no empty or `.` component.
pub open spec fn last_component(p: Seq<char>) -> Option<Seq<char>>
    decreases p.len(),
{
    let k = last_slash(p);
    let seg = if 0 <= k < p.len() {
        p.subrange(k + 1, p.len() as int)
    } else {
        p
    };
    if seg.len() == 0 || seg == seq!['.'] {
        if 0 <= k < p.len() {
            last_component(p.subrange(0, k))
        } else {
            None
        }
    } else {
        Some(seg)
    }
}

/// `Path::file_name`: the last component, unless it is `..`.
pub open spec fn file_name(p: Seq<char>) -> Option<Seq<char>> {
    match last_component(p) {
        Some(s) => if s == seq!['.', '.'] {
            None
        } else {
            Some(s)
        },
        None => None,
    }
}

/// The position of the last `.` in a file name, or -1.
pub open spec fn last_dot(name: Seq<char>) -> int {
    rfind(name, seq!['.'])
}

/// `Path::file_stem` of a file name: the part before the last `.`, unless
/// that part is empty (as in `.hidden`), in which case the whole name.
pub open spec fn stem_of(name: Seq<char>) -> Seq<char> {
    let k = last_dot(name);
    if k > 0 {
        name.subrange(0, k)
    } else {
        name
    }
}

/// `Path::extension` of a file name: the part after the last `.`, when the
/// part before it is not empty.
pub open spec fn extension_of(name: Seq<char>) -> Option<Seq<char>> {
    let k = last_dot(name);
    if k > 0 {
        Some(name.subrange(k + 1, name.len() as int))
    } else {
        None
    }
}

pub open spec fn file_stem(p: Seq<char>) -> Option<Seq<char>> {
    match file_name(p) {
        Some(n) => Some(stem_of(n)),
        None => None,
    }
}

pub open spec fn extension(p: Seq<char>) -> Option<Seq<char>> {
    match file_name(p) {
        Some(n) => extension_of(n),
        None => None,
    }
}

/// Some `/`-separated segment of the path equals `name`, ignoring ASCII case.
pub open spec fn has_segment(p: Seq<char>, name: Seq<char>) -> bool
    decreases p.len(),
{
    let k = last_slash(p);
    let seg = if 0 <= k < p.len() {
        p.subrange(k + 1, p.len() as int)
    } else {
        p
    };
    eq_ignore_ascii_case(seg, name) || (0 <= k < p.len() && has_segment(p.subrange(0, k), name))
}

fn slash() -> (v: Vec<char>)
    ensures
        v@ == seq!['/'],
{
    let mut v: Vec<char> = Vec::new();
    v.push('/');
    assert(v@ =~= seq!['/']);
    v
}

fn last_slash_exec(p: &Vec<char>) -> (r: Option<usize>)
    ensures
        match r {
            Some(k) => k < p@.len() && k as int == last_slash(p@),
            None => last_slash(p@) == -1,
        },
{
    let s = slash();
    let r = rfind_chars(p, &s);
    proof {
        if p@.len() >= 1 {
            lemma_rfind_to(p@, s@, p@.len() - 1);
        }
    }
    r
}

fn last_component_exec(p: &Vec<char>) -> (r: Option<Vec<char>>)
    ensures
        match r {
            Some(s) => last_component(p@) == Some(s@),
            None => last_component(p@) is None,
        },
    decreases p@.len(),
{
    let k = last_slash_exec(p);
    let n = p.len();
    let seg = match k {
        Some(k) => slice_chars(p, k + 1, n),
        None => slice_chars(p, 0, p.len()),
    };
    proof {
        if k is None {
            assert(p@.subrange(0, p@.len() as int) =~= p@);
        }
    }
    let is_dot = seg.len() == 1 && seg[0] == '.';
    proof {
        if seg@.len() == 1 {
            assert(is_dot == (seg@ == seq!['.'])) by {
                if seg@[0] == '.' {
                    assert(seg@ =~= seq!['.']);
                }
            }
        } else {
            assert(seg@ != seq!['.']);
        }
    }
    if seg.len() == 0 || is_dot {
        match k {
            Some(k) => {
                let head = slice_chars(p, 0, k);
                last_component_exec(&head)
            },
            None => None,
        }
    } else {
        Some(seg)
    }
}

fn is_dot_dot(s: &Vec<char>) -> (b: bool)
    ensures
        b == (s@ == seq!['.', '.']),
{
    if s.len() == 2 && s[0] == '.' && s[1] == '.' {
        assert(s@ =~= seq!['.', '.']);
        true
    } else {
        false
    }
}

pub fn file_name_exec(p: &Vec<char>) -> (r: Option<Vec<char>>)
    ensures
        match r {
            Some(s) => file_name(p@) == Some(s@),
            None => file_name(p@) is None,
        },
{
    match last_component_exec(p) {
        Some(s) => if is_dot_dot(&s) {
            None
        } else {
            Some(s)
        },
        None => None,
    }
}

fn last_dot_exec(name: &Vec<char>) -> (r: Option<usize>)
    ensures
        match r {
            Some(k) => k < name@.len() && k as int == last_dot(name@),
            None => last_dot(name@) == -1,
        },
{
    let mut d: Vec<char> = Vec::new();
    d.push('.');
    assert(d@ =~= seq!['.']);
    let r = rfind_chars(name, &d);
    proof {
        if name@.len() >= 1 {
            lemma_rfind_to(name@, d@, name@.len() - 1);
        }
    }
    r
}

/// `Path::file_stem`.
pub fn file_stem_exec(p: &Vec<char>) -> (r: Option<Vec<char>>)
    ensures
        match r {
            Some(s) => file_stem(p@) == Some(s@),
            None => file_stem(p@) is None,
        },
{
    match file_name_exec(p) {
        Some(n) => {
            match last_dot_exec(&n) {
                Some(k) => if k > 0 {
                    Some(slice_chars(&n, 0, k))
                } else {
                    Some(n)
                },
                None => Some(n),
            }
        },
        None => None,
    }
}

/// `Path::extension`.
pub fn extension_exec(p: &Vec<char>) -> (r: Option<Vec<char>>)
    ensures
        match r {
            Some(s) => extension(p@) == Some(s@),
            None => extension(p@) is None,
        },
{
    match file_name_exec(p) {
        Some(n) => {
            let len = n.len();
            match last_dot_exec(&n) {
                Some(k) => if k > 0 {
                    Some(slice_chars(&n, k + 1, len))
                } else {
                    None
                },
                None => None,
            }
        },
        None => None,
    }
}

pub fn has_segment_exec(p: &Vec<char>, name: &Vec<char>) -> (b: bool)
    ensures
        b == has_segment(p@, name@),
    decreases p@.len(),
{
    let k = last_slash_exec(p);
    let n = p.len();
    let seg = match k {
        Some(k) => slice_chars(p, k + 1, n),
        None => slice_chars(p, 0, p.len()),
    };
    proof {
        if k is None {
            assert(p@.subrange(0, p@.len() as int) =~= p@);
        }
    }
    if chars_eq_ignore_ascii_case(&seg, name) {
        return true;
    }
    match k {
        Some(k) => {
            let head = slice_chars(p, 0, k);
            has_segment_exec(&head, name)
        },
        None => false,
    }
}

} // verus!
