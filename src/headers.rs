use vstd::prelude::*;

use crate::text::{
    chars_of, has_lit, is_whitespace, is_ws, lemma_views_push, lines, lit_at, opt_chars, text_between,
    views,
};

verus! {

/// The first position at or after `i` that is not whitespace (or the end).
pub open spec fn skip_ws(l: Seq<char>, i: int) -> int
    decreases l.len() - i,
{
    if 0 <= i < l.len() && is_ws(l[i]) {
        skip_ws(l, i + 1)
    } else {
        i
    }
}

pub open spec fn is_closer(c: char) -> bool {
    c == '>' || c == '"'
}

/// The first position at or after `i` holding `>` or `"` (or the end).
pub open spec fn closer_from(l: Seq<char>, i: int) -> int
    decreases l.len() - i,
{
    if 0 <= i < l.len() && !is_closer(l[i]) {
        closer_from(l, i + 1)
    } else {
        i
    }
}

pub open spec fn include_word() -> Seq<char> {
    seq!['i', 'n', 'c', 'l', 'u', 'd', 'e']
}

/// The path named by a line of the form
/// `<ws>* # <ws>* include <ws>* (< or ") path (> or ") anything`,
/// where the path is not empty and holds neither `>` nor `"`.
pub open spec fn include_path(l: Seq<char>) -> Option<Seq<char>> {
    let a = skip_ws(l, 0);
    if a < l.len() && l[a] == '#' {
        let b = skip_ws(l, a + 1);
        if has_lit(l, b, include_word()) {
            let c = skip_ws(l, b + 7);
            if c < l.len() && (l[c] == '<' || l[c] == '"') {
                let e = closer_from(l, c + 1);
                if e < l.len() && e > c + 1 {
                    Some(l.subrange(c + 1, e))
                } else {
                    None
                }
            } else {
                None
            }
        } else {
            None
        }
    } else {
        None
    }
}

/// The position of the last `/` of `p`, or -1.
pub open spec fn last_slash(p: Seq<char>) -> int
    decreases p.len(),
{
    if p.len() == 0 {
        -1
    } else if p.last() == '/' {
        p.len() - 1
    } else {
        last_slash(p.drop_last())
    }
}

/// What follows the last `/` of `p`; all of `p` when it has none.
pub open spec fn leaf_name(p: Seq<char>) -> Seq<char> {
    p.subrange(last_slash(p) + 1, p.len() as int)
}

/// The file name of the header that a line includes.
pub open spec fn include_header(l: Seq<char>) -> Option<Seq<char>> {
    match include_path(l) {
        Some(p) => Some(leaf_name(p)),
        None => None,
    }
}

/// The headers included by the lines `ls`, in order.
pub open spec fn headers_of_lines(ls: Seq<Seq<char>>) -> Seq<Seq<char>>
    decreases ls.len(),
{
    if ls.len() == 0 {
        Seq::empty()
    } else {
        let r = headers_of_lines(ls.drop_last());
        match include_header(ls.last()) {
            Some(h) => r.push(h),
            None => r,
        }
    }
}

/// The headers included by the source files `fs`, in order.
pub open spec fn headers_of_files(fs: Seq<Seq<char>>) -> Seq<Seq<char>>
    decreases fs.len(),
{
    if fs.len() == 0 {
        Seq::empty()
    } else {
        headers_of_files(fs.drop_last()) + headers_of_lines(lines(fs.last()))
    }
}

fn skip_ws_from(l: &Vec<char>, i: usize) -> (r: usize)
    requires
        i <= l@.len(),
    ensures
        r == skip_ws(l@, i as int),
        i <= r <= l@.len(),
    decreases l@.len() - i,
{
    if i < l.len() && is_whitespace(l[i]) {
        skip_ws_from(l, i + 1)
    } else {
        i
    }
}

fn closer_from_exec(l: &Vec<char>, i: usize) -> (r: usize)
    requires
        i <= l@.len(),
    ensures
        r == closer_from(l@, i as int),
        i <= r <= l@.len(),
    decreases l@.len() - i,
{
    if i < l.len() && !(l[i] == '>' || l[i] == '"') {
        closer_from_exec(l, i + 1)
    } else {
        i
    }
}

/// The file name that an `#include` line names, if it is one.
pub fn include_header_of(l: &Vec<char>) -> (r: Option<String>)
    ensures
        opt_chars(r) == include_header(l@),
{
    let a = skip_ws_from(l, 0);
    if a < l.len() && l[a] == '#' {
        let b = skip_ws_from(l, a + 1);
        let word = vec!['i', 'n', 'c', 'l', 'u', 'd', 'e'];
        assert(word@ =~= include_word());
        if lit_at(l, b, &word) {
            let c = skip_ws_from(l, b + 7);
            if c < l.len() && (l[c] == '<' || l[c] == '"') {
                let e = closer_from_exec(l, c + 1);
                if e < l.len() && e > c + 1 {
                    let ghost p = l@.subrange(c + 1, e as int);
                    let mut j: usize = e;
                    while j > c + 1
                        invariant
                            c + 1 <= j <= e,
                            e <= l@.len(),
                            p == l@.subrange(c + 1, e as int),
                            forall|m: int| j <= m < e ==> l@[m] != '/',
                            last_slash(p) == last_slash(l@.subrange(c + 1, j as int)),
                        ensures
                            c + 1 <= j <= e,
                            last_slash(p) == last_slash(l@.subrange(c + 1, j as int)),
                            j == c + 1 || l@[j - 1] == '/',
                        decreases j,
                    {
                        let ghost q = l@.subrange(c + 1, j as int);
                        assert(q.last() == l@[j - 1]);
                        assert(q.drop_last() =~= l@.subrange(c + 1, j - 1));
                        if l[j - 1] == '/' {
                            break;
                        }
                        j = j - 1;
                    }
                    proof {
                        let ghost q = l@.subrange(c + 1, j as int);
                        if j == c + 1 {
                            assert(q.len() == 0);
                        } else {
                            assert(q.last() == l@[j - 1]);
                        }
                        assert(last_slash(p) + 1 == j - (c + 1));
                        assert(leaf_name(p) =~= l@.subrange(j as int, e as int));
                    }
                    return Some(text_between(l, j, e));
                }
            }
        }
    }
    None
}

/// The file names of the headers that the source text `s` includes, line by
/// line, in order.
pub fn headers_in_text(s: &str) -> (r: Vec<String>)
    ensures
        views(r@) == headers_of_lines(lines(s@)),
{
    let mut out: Vec<String> = Vec::new();
    let mut cur: Vec<char> = Vec::new();
    let ghost mut done: Seq<Seq<char>> = Seq::empty();
    for c in it: s.chars()
        invariant
            it.seq() == s@,
            lines(s@.subrange(0, it.index() as int)) == done.push(cur@),
            views(out@) == headers_of_lines(done),
    {
        let ghost pre = s@.subrange(0, it.index() as int);
        let ghost next = s@.subrange(0, it.index() + 1);
        assert(next.drop_last() =~= pre);
        assert(next.last() == c);
        if c == '\n' {
            let h = include_header_of(&cur);
            proof {
                assert(done.push(cur@).drop_last() =~= done);
            }
            match h {
                Some(name) => {
                    proof {
                        lemma_views_push(out@, name);
                    }
                    out.push(name);
                },
                None => {},
            }
            proof {
                done = done.push(cur@);
            }
            cur = Vec::new();
            assert(lines(next) =~= done.push(cur@));
        } else {
            cur.push(c);
            assert(lines(next) =~= done.push(cur@));
        }
    }
    assert(s@.subrange(0, s@.len() as int) =~= s@);
    let h = include_header_of(&cur);
    proof {
        assert(done.push(cur@).drop_last() =~= done);
    }
    match h {
        Some(name) => {
            proof {
                lemma_views_push(out@, name);
            }
            out.push(name);
        },
        None => {},
    }
    out
}

/// The file names of the headers that the source files `files` include:
/// every line of the form `#include <path>` or `#include "path"` (leading
/// whitespace and trailing text allowed) names the part of `path` after its
/// last `/`.
pub fn find_used_c_headers(files: &Vec<String>) -> (r: Vec<String>)
    ensures
        views(r@) == headers_of_files(views(files@)),
{
    let mut out: Vec<String> = Vec::new();
    let mut i: usize = 0;
    while i < files.len()
        invariant
            i <= files.len(),
            views(out@) == headers_of_files(views(files@.subrange(0, i as int))),
        decreases files.len() - i,
    {
        let mut more = headers_in_text(files[i].as_str());
        proof {
            let fs = views(files@.subrange(0, i + 1));
            assert(fs.drop_last() =~= views(files@.subrange(0, i as int)));
            assert(fs.last() == files@[i as int]@);
            crate::text::lemma_views_concat(out@, more@);
        }
        out.append(&mut more);
        i = i + 1;
    }
    assert(files@.subrange(0, i as int) =~= files@);
    out
}

} // verus!
