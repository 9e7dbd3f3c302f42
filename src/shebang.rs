use vstd::prelude::*;

use crate::text::{
    chars_of, has_lit, is_whitespace, is_ws, lemma_views_push, lit_at, opt_chars, text_between, views,
};

verus! {

/// The first position at or after `i` that is not a space (or the end).
pub open spec fn skip_spaces(l: Seq<char>, i: int) -> int
    decreases l.len() - i,
{
    if 0 <= i < l.len() && l[i] == ' ' {
        skip_spaces(l, i + 1)
    } else {
        i
    }
}

/// The end of the run of non-whitespace characters that starts at `i`.
pub open spec fn run_end(l: Seq<char>, i: int) -> int
    decreases l.len() - i,
{
    if 0 <= i < l.len() && !is_ws(l[i]) {
        run_end(l, i + 1)
    } else {
        i
    }
}

/// The first position at or after `i` holding `\n` (or the end).
pub open spec fn newline_from(s: Seq<char>, i: int) -> int
    decreases s.len() - i,
{
    if 0 <= i < s.len() && s[i] != '\n' {
        newline_from(s, i + 1)
    } else {
        i
    }
}

pub open spec fn store_word() -> Seq<char> {
    seq!['n', 'i', 'x', '/', 's', 't', 'o', 'r', 'e', '/']
}

pub open spec fn usr_word() -> Seq<char> {
    seq!['u', 's', 'r', '/']
}

pub open spec fn bin_word() -> Seq<char> {
    seq!['b', 'i', 'n', '/']
}

pub open spec fn env_word() -> Seq<char> {
    seq!['e', 'n', 'v', ' ']
}

/// A non-empty run of non-whitespace characters at `i`.
pub open spec fn plain_program(l: Seq<char>, i: int) -> Option<Seq<char>> {
    if 0 <= i < l.len() && !is_ws(l[i]) {
        Some(l.subrange(i, run_end(l, i)))
    } else {
        None
    }
}

/// The program named at `i`: after `env` and spaces when a program follows
/// them, else the word at `i` itself.
pub open spec fn program_at(l: Seq<char>, i: int) -> Option<Seq<char>> {
    if has_lit(l, i, env_word()) && plain_program(l, skip_spaces(l, i + 3)) is Some {
        plain_program(l, skip_spaces(l, i + 3))
    } else {
        plain_program(l, i)
    }
}

/// `bin/` followed by a program, at `i`.
pub open spec fn bin_tail(l: Seq<char>, i: int) -> Option<Seq<char>> {
    if has_lit(l, i, bin_word()) {
        program_at(l, i + 4)
    } else {
        None
    }
}

/// An optional `usr/`, then `bin/` and a program, at `i`.
pub open spec fn bin_part(l: Seq<char>, i: int) -> Option<Seq<char>> {
    if has_lit(l, i, usr_word()) {
        bin_tail(l, i + 4)
    } else {
        bin_tail(l, i)
    }
}

/// The program after the right-most `/` at a position in `lo..=q` that is
/// followed by a `bin_part`.
pub open spec fn store_scan(l: Seq<char>, lo: int, q: int) -> Option<Seq<char>>
    decreases q - lo + 1,
{
    if q < lo || q < 0 {
        None
    } else if q < l.len() && l[q] == '/' && bin_part(l, q + 1) is Some {
        bin_part(l, q + 1)
    } else {
        store_scan(l, lo, q - 1)
    }
}

/// What follows the `/` after `#!`: a store directory ending in `/` taken as
/// long as possible, or none, before the `bin_part`.
pub open spec fn after_root(l: Seq<char>, i: int) -> Option<Seq<char>> {
    if has_lit(l, i, store_word()) && store_scan(l, i + 10, l.len() - 1) is Some {
        store_scan(l, i + 10, l.len() - 1)
    } else {
        bin_part(l, i)
    }
}

/// The program of a shebang line `#! /[nix/store/.../][usr/]bin/[env ]prog`,
/// read up to the first `\n`.
pub open spec fn shebang_program(s: Seq<char>) -> Option<Seq<char>> {
    let l = s.subrange(0, newline_from(s, 0));
    if l.len() >= 2 && l[0] == '#' && l[1] == '!' {
        let a = skip_spaces(l, 2);
        if a < l.len() && l[a] == '/' {
            after_root(l, a + 1)
        } else {
            None
        }
    } else {
        None
    }
}

/// The programs named by the shebang lines among `ls`, in order.
pub open spec fn programs_of(ls: Seq<Seq<char>>) -> Seq<Seq<char>>
    decreases ls.len(),
{
    if ls.len() == 0 {
        Seq::empty()
    } else {
        let r = programs_of(ls.drop_last());
        match shebang_program(ls.last()) {
            Some(p) => r.push(p),
            None => r,
        }
    }
}

fn skip_spaces_from(l: &Vec<char>, i: usize) -> (r: usize)
    requires
        i <= l@.len(),
    ensures
        r == skip_spaces(l@, i as int),
        i <= r <= l@.len(),
    decreases l@.len() - i,
{
    if i < l.len() && l[i] == ' ' {
        skip_spaces_from(l, i + 1)
    } else {
        i
    }
}

fn run_end_from(l: &Vec<char>, i: usize) -> (r: usize)
    requires
        i <= l@.len(),
    ensures
        r == run_end(l@, i as int),
        i <= r <= l@.len(),
    decreases l@.len() - i,
{
    if i < l.len() && !is_whitespace(l[i]) {
        run_end_from(l, i + 1)
    } else {
        i
    }
}

fn newline_from_exec(l: &Vec<char>, i: usize) -> (r: usize)
    requires
        i <= l@.len(),
    ensures
        r == newline_from(l@, i as int),
        i <= r <= l@.len(),
    decreases l@.len() - i,
{
    if i < l.len() && l[i] != '\n' {
        newline_from_exec(l, i + 1)
    } else {
        i
    }
}

fn plain_program_at(l: &Vec<char>, i: usize) -> (r: Option<String>)
    ensures
        opt_chars(r) == plain_program(l@, i as int),
{
    if i < l.len() && !is_whitespace(l[i]) {
        let e = run_end_from(l, i);
        Some(text_between(l, i, e))
    } else {
        None
    }
}

fn program_from(l: &Vec<char>, i: usize) -> (r: Option<String>)
    ensures
        opt_chars(r) == program_at(l@, i as int),
{
    let env = vec!['e', 'n', 'v', ' '];
    assert(env@ =~= env_word());
    if lit_at(l, i, &env) {
        assert(i + 4 <= l.len());
        let j = skip_spaces_from(l, i + 3);
        let p = plain_program_at(l, j);
        if p.is_some() {
            return p;
        }
    }
    plain_program_at(l, i)
}

fn bin_tail_at(l: &Vec<char>, i: usize) -> (r: Option<String>)
    ensures
        opt_chars(r) == bin_tail(l@, i as int),
{
    let bin = vec!['b', 'i', 'n', '/'];
    assert(bin@ =~= bin_word());
    if lit_at(l, i, &bin) {
        assert(i + 4 <= l.len());
        program_from(l, i + 4)
    } else {
        None
    }
}

fn bin_part_at(l: &Vec<char>, i: usize) -> (r: Option<String>)
    ensures
        opt_chars(r) == bin_part(l@, i as int),
{
    let usr = vec!['u', 's', 'r', '/'];
    assert(usr@ =~= usr_word());
    if lit_at(l, i, &usr) {
        assert(i + 4 <= l.len());
        bin_tail_at(l, i + 4)
    } else {
        bin_tail_at(l, i)
    }
}

fn store_scan_at(l: &Vec<char>, lo: usize) -> (r: Option<String>)
    requires
        lo <= l@.len(),
    ensures
        opt_chars(r) == store_scan(l@, lo as int, l@.len() - 1),
{
    let mut q: usize = l.len();
    while q > lo
        invariant
            lo <= q <= l@.len(),
            store_scan(l@, lo as int, l@.len() - 1) == store_scan(l@, lo as int, q - 1),
        decreases q,
    {
        if l[q - 1] == '/' {
            let p = bin_part_at(l, q);
            if p.is_some() {
                return p;
            }
        }
        q = q - 1;
    }
    None
}

/// The program that a shebang line names, if the line is one.
pub fn shebang_program_of(line: &str) -> (r: Option<String>)
    ensures
        opt_chars(r) == shebang_program(line@),
{
    let all = chars_of(line);
    let n = newline_from_exec(&all, 0);
    let l = text_chars(&all, n);
    let ghost lv = line@.subrange(0, newline_from(line@, 0));
    assert(l@ == lv);
    if l.len() >= 2 && l[0] == '#' && l[1] == '!' {
        let a = skip_spaces_from(&l, 2);
        if a < l.len() && l[a] == '/' {
            let store = vec!['n', 'i', 'x', '/', 's', 't', 'o', 'r', 'e', '/'];
            assert(store@ =~= store_word());
            if lit_at(&l, a + 1, &store) {
                let p = store_scan_at(&l, a + 11);
                if p.is_some() {
                    return p;
                }
            }
            return bin_part_at(&l, a + 1);
        }
    }
    None
}

fn text_chars(l: &Vec<char>, n: usize) -> (r: Vec<char>)
    requires
        n <= l@.len(),
    ensures
        r@ == l@.subrange(0, n as int),
{
    let mut r: Vec<char> = Vec::new();
    let mut k: usize = 0;
    while k < n
        invariant
            k <= n <= l@.len(),
            r@ == l@.subrange(0, k as int),
        decreases n - k,
    {
        r.push(l[k]);
        assert(r@ =~= l@.subrange(0, k + 1));
        k = k + 1;
    }
    r
}

/// The programs that the first lines `first_lines` of source files name as
/// their interpreter, in order.
pub fn find_used_shebangs(first_lines: &Vec<String>) -> (r: Vec<String>)
    ensures
        views(r@) == programs_of(views(first_lines@)),
{
    let mut out: Vec<String> = Vec::new();
    let mut i: usize = 0;
    while i < first_lines.len()
        invariant
            i <= first_lines.len(),
            views(out@) == programs_of(views(first_lines@.subrange(0, i as int))),
        decreases first_lines.len() - i,
    {
        let p = shebang_program_of(first_lines[i].as_str());
        proof {
            let fs = views(first_lines@.subrange(0, i + 1));
            assert(fs.drop_last() =~= views(first_lines@.subrange(0, i as int)));
            assert(fs.last() == first_lines@[i as int]@);
        }
        match p {
            Some(name) => {
                proof {
                    lemma_views_push(out@, name);
                }
                out.push(name);
            },
            None => {},
        }
        i = i + 1;
    }
    assert(first_lines@.subrange(0, i as int) =~= first_lines@);
    out
}

} // verus!
