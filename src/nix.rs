use vstd::prelude::*;

use crate::text::{chars_of, has_lit, lemma_views_push, lines, lit_at, push_char, text_between, views};

verus! {

pub open spec fn drv_suffix() -> Seq<char> {
    seq!['.', 'd', 'r', 'v']
}

pub open spec fn ends_with(s: Seq<char>, suffix: Seq<char>) -> bool {
    s.len() >= suffix.len() && has_lit(s, s.len() - suffix.len(), suffix)
}

/// Whether `s` ends with `suffix`.
pub fn text_ends_with(s: &str, suffix: &Vec<char>) -> (r: bool)
    ensures
        r == ends_with(s@, suffix@),
{
    let l = chars_of(s);
    if l.len() < suffix.len() {
        false
    } else {
        lit_at(&l, l.len() - suffix.len(), suffix)
    }
}

/// A recipe file (`.drv`) is built with all its outputs, `path^*`; anything
/// else is handed on as it is.
pub open spec fn installable(p: Seq<char>) -> Seq<char> {
    if ends_with(p, drv_suffix()) {
        p.push('^').push('*')
    } else {
        p
    }
}

/// The installable that selects every output of `path`.
pub fn installable_of(path: &str) -> (r: String)
    ensures
        r@ == installable(path@),
{
    let suffix = vec!['.', 'd', 'r', 'v'];
    assert(suffix@ =~= drv_suffix());
    let mut r = path.to_owned();
    if text_ends_with(path, &suffix) {
        push_char(&mut r, '^');
        push_char(&mut r, '*');
    }
    r
}

fn with_flags(mut head: Vec<String>, flags: &Vec<String>) -> (r: Vec<String>)
    ensures
        views(r@) == views(head@) + views(flags@),
{
    let ghost h = head@;
    let mut i: usize = 0;
    while i < flags.len()
        invariant
            i <= flags@.len(),
            views(head@) == views(h) + views(flags@.subrange(0, i as int)),
        decreases flags.len() - i,
    {
        let ghost before = head@;
        head.push(flags[i].clone());
        proof {
            lemma_views_push(before, flags@[i as int]);
            lemma_views_push(flags@.subrange(0, i as int), flags@[i as int]);
            assert(flags@.subrange(0, i + 1) =~= flags@.subrange(0, i as int).push(flags@[i as int]));
        }
        i = i + 1;
    }
    assert(flags@.subrange(0, i as int) =~= flags@);
    head
}

/// The arguments of `nix` that build every output of a recipe without
/// leaving result links, followed by the extra options.
pub fn build_args(drv_path: &str, flags: &Vec<String>) -> (r: Vec<String>)
    ensures
        views(r@) == seq!["build"@, installable(drv_path@), "--no-link"@] + views(flags@),
{
    let head = vec!["build".to_owned(), installable_of(drv_path), "--no-link".to_owned()];
    assert(views(head@) =~= seq!["build"@, installable(drv_path@), "--no-link"@]);
    with_flags(head, flags)
}

/// The arguments of `nix` that describe a recipe as JSON.
pub fn show_args(drv_path: &str) -> (r: Vec<String>)
    ensures
        views(r@) == seq!["derivation"@, "show"@, installable(drv_path@)],
{
    let r = vec!["derivation".to_owned(), "show".to_owned(), installable_of(drv_path)];
    assert(views(r@) =~= seq!["derivation"@, "show"@, installable(drv_path@)]);
    r
}

/// The arguments of `nix` that evaluate a package selector to its recipe
/// path, as JSON, followed by the extra options.
pub fn eval_args(attr: &str, flags: &Vec<String>) -> (r: Vec<String>)
    ensures
        views(r@) == seq!["eval"@, attr@, "--apply"@, "attr: attr.drvPath"@, "--json"@] + views(
            flags@,
        ),
{
    let head = vec![
        "eval".to_owned(),
        attr.to_owned(),
        "--apply".to_owned(),
        "attr: attr.drvPath".to_owned(),
        "--json".to_owned(),
    ];
    assert(views(head@) =~= seq!["eval"@, attr@, "--apply"@, "attr: attr.drvPath"@, "--json"@]);
    with_flags(head, flags)
}

/// The arguments of `nix-store` that list every recipe a recipe needs.
pub fn requisites_args(drv_path: &str) -> (r: Vec<String>)
    ensures
        views(r@) == seq!["--query"@, "-R"@, drv_path@],
{
    let r = vec!["--query".to_owned(), "-R".to_owned(), drv_path.to_owned()];
    assert(views(r@) =~= seq!["--query"@, "-R"@, drv_path@]);
    r
}

/// A line without the `\r` of a CRLF ending.
pub open spec fn line_text(l: Seq<char>) -> Seq<char> {
    if l.len() > 0 && l.last() == '\r' {
        l.drop_last()
    } else {
        l
    }
}

/// The lines among `ls` that name recipe files, in order.
pub open spec fn drv_lines(ls: Seq<Seq<char>>) -> Seq<Seq<char>>
    decreases ls.len(),
{
    if ls.len() == 0 {
        Seq::empty()
    } else {
        let r = drv_lines(ls.drop_last());
        if ends_with(line_text(ls.last()), drv_suffix()) {
            r.push(line_text(ls.last()))
        } else {
            r
        }
    }
}

fn drv_line(l: &Vec<char>) -> (r: Option<String>)
    ensures
        r is Some <==> ends_with(line_text(l@), drv_suffix()),
        r is Some ==> r->0@ == line_text(l@),
{
    let n = if l.len() > 0 && l[l.len() - 1] == '\r' {
        l.len() - 1
    } else {
        l.len()
    };
    assert(line_text(l@) =~= l@.subrange(0, n as int));
    if n < 4 {
        return None;
    }
    let suffix = vec!['.', 'd', 'r', 'v'];
    assert(suffix@ =~= drv_suffix());
    let t = text_between(l, 0, n);
    let tl = chars_of(t.as_str());
    if lit_at(&tl, n - 4, &suffix) {
        Some(t)
    } else {
        None
    }
}

/// The recipe paths that `nix-store --query -R` printed, one per line.
pub fn requisite_drv_paths(output: &str) -> (r: Vec<String>)
    ensures
        views(r@) == drv_lines(lines(output@)),
{
    let mut out: Vec<String> = Vec::new();
    let mut cur: Vec<char> = Vec::new();
    let ghost mut done: Seq<Seq<char>> = Seq::empty();
    for c in it: output.chars()
        invariant
            it.seq() == output@,
            lines(output@.subrange(0, it.index() as int)) == done.push(cur@),
            views(out@) == drv_lines(done),
    {
        let ghost next = output@.subrange(0, it.index() + 1);
        assert(next.drop_last() =~= output@.subrange(0, it.index() as int));
        assert(next.last() == c);
        if c == '\n' {
            let p = drv_line(&cur);
            proof {
                assert(done.push(cur@).drop_last() =~= done);
            }
            match p {
                Some(x) => {
                    proof {
                        lemma_views_push(out@, x);
                    }
                    out.push(x);
                },
                None => {},
            }
            proof {
                done = done.push(cur@);
            }
            cur = Vec::new();
            assert(lines(next) =~= done.push(cur@));
        } else {
            cur.push(c);
            assert(lines(next) =~= done.push(cur@));
        }
    }
    assert(output@.subrange(0, output@.len() as int) =~= output@);
    let p = drv_line(&cur);
    proof {
        assert(done.push(cur@).drop_last() =~= done);
    }
    match p {
        Some(x) => {
            proof {
                lemma_views_push(out@, x);
            }
            out.push(x);
        },
        None => {},
    }
    out
}

} // verus!
