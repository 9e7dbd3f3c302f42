use vstd::prelude::*;

verus! {

/// The characters with the Unicode `White_Space` property.
pub open spec fn is_ws(c: char) -> bool {
    let u = c as u32;
    ||| 0x09 <= u <= 0x0d
    ||| u == 0x20
    ||| u == 0x85
    ||| u == 0xa0
    ||| u == 0x1680
    ||| 0x2000 <= u <= 0x200a
    ||| u == 0x2028
    ||| u == 0x2029
    ||| u == 0x202f
    ||| u == 0x205f
    ||| u == 0x3000
}

/// The maximal runs of non-whitespace characters of `s`, in order.
pub open spec fn words(s: Seq<char>) -> Seq<Seq<char>>
    decreases s.len(),
{
    if s.len() == 0 {
        Seq::empty()
    } else {
        let prev = words(s.drop_last());
        let c = s.last();
        if is_ws(c) {
            prev
        } else if s.len() >= 2 && !is_ws(s[s.len() - 2]) {
            prev.update(prev.len() - 1, prev.last().push(c))
        } else {
            prev.push(seq![c])
        }
    }
}

/// The views of a vector of strings.
pub open spec fn views(v: Seq<String>) -> Seq<Seq<char>> {
    v.map_values(|x: String| x@)
}

/// Some element of `a` equals some element of `b`.
pub open spec fn overlaps(a: Seq<Seq<char>>, b: Seq<Seq<char>>) -> bool {
    exists|i: int, j: int| 0 <= i < a.len() && 0 <= j < b.len() && a[i] == b[j]
}

pub proof fn lemma_views_push(v: Seq<String>, s: String)
    ensures
        views(v.push(s)) == views(v).push(s@),
{
    assert(views(v.push(s)) =~= views(v).push(s@));
}

pub proof fn lemma_views_concat(a: Seq<String>, b: Seq<String>)
    ensures
        views(a + b) == views(a) + views(b),
{
    assert(views(a + b) =~= views(a) + views(b));
}

/// Relies on `String::push`: appends one character.
#[verifier::external_body]
pub(crate) fn push_char(s: &mut String, c: char)
    ensures
        final(s)@ == old(s)@.push(c),
{
    s.push(c)
}

/// Whether two strings hold the same characters.
pub fn same_text(a: &str, b: &str) -> (r: bool)
    ensures
        r == (a@ == b@),
{
    let x = a.to_owned();
    let y = b.to_owned();
    x == y
}

/// Whether `x` equals one of the strings of `v`.
pub fn contains_text(v: &Vec<String>, x: &str) -> (r: bool)
    ensures
        r == views(v@).contains(x@),
{
    let target = x.to_owned();
    let mut i: usize = 0;
    while i < v.len()
        invariant
            i <= v.len(),
            target@ == x@,
            forall|k: int| 0 <= k < i ==> v@[k]@ != x@,
        decreases v.len() - i,
    {
        if v[i] == target {
            assert(views(v@)[i as int] == x@);
            return true;
        }
        i = i + 1;
    }
    proof {
        if views(v@).contains(x@) {
            let k = choose|k: int| 0 <= k < views(v@).len() && views(v@)[k] == x@;
            assert(v@[k]@ == x@);
        }
    }
    false
}

/// Whether the two vectors share a string.
pub fn any_shared(a: &Vec<String>, b: &Vec<String>) -> (r: bool)
    ensures
        r == overlaps(views(a@), views(b@)),
{
    let mut i: usize = 0;
    while i < a.len()
        invariant
            i <= a.len(),
            forall|k: int, j: int|
                0 <= k < i && 0 <= j < b@.len() ==> a@[k]@ != b@[j]@,
        decreases a.len() - i,
    {
        if contains_text(b, a[i].as_str()) {
            let ghost j = choose|j: int| 0 <= j < views(b@).len() && views(b@)[j] == a@[i as int]@;
            assert(views(a@)[i as int] == views(b@)[j]);
            return true;
        }
        assert forall|j: int| 0 <= j < b@.len() implies a@[i as int]@ != b@[j]@ by {
            assert(views(b@)[j] == b@[j]@);
        }
        i = i + 1;
    }
    proof {
        if overlaps(views(a@), views(b@)) {
            let (k, j) = choose|k: int, j: int|
                0 <= k < views(a@).len() && 0 <= j < views(b@).len() && views(a@)[k]
                    == views(b@)[j];
            assert(a@[k]@ == b@[j]@);
        }
    }
    false
}

/// Classifies a character as Unicode whitespace.
pub fn is_whitespace(c: char) -> (r: bool)
    ensures
        r == is_ws(c),
{
    let u = c as u32;
    (0x09 <= u && u <= 0x0d) || u == 0x20 || u == 0x85 || u == 0xa0 || u == 0x1680 || (0x2000
        <= u && u <= 0x200a) || u == 0x2028 || u == 0x2029 || u == 0x202f || u == 0x205f || u
        == 0x3000
}

/// Splits `s` into its whitespace-separated words.
pub fn split_words(s: &str) -> (r: Vec<String>)
    ensures
        views(r@) == words(s@),
{
    let mut out: Vec<String> = Vec::new();
    let mut cur = String::new();
    let mut in_word = false;
    for c in it: s.chars()
        invariant
            it.seq() == s@,
            in_word ==> words(s@.subrange(0, it.index() as int)) == views(out@).push(cur@),
            !in_word ==> words(s@.subrange(0, it.index() as int)) == views(out@),
            !in_word ==> cur@.len() == 0,
            in_word <==> (it.index() > 0 && !is_ws(s@[it.index() - 1])),
    {
        let ghost i = it.index() as int;
        let ghost pre = s@.subrange(0, i);
        let ghost next = s@.subrange(0, i + 1);
        assert(next.drop_last() == pre);
        assert(next.last() == c);
        if is_whitespace(c) {
            if in_word {
                out.push(cur);
                cur = String::new();
                in_word = false;
            }
            assert(views(out@) == words(next));
        } else {
            let ghost before = cur@;
            proof {
                if in_word {
                    assert(next[next.len() - 2] == s@[i - 1]);
                }
            }
            push_char(&mut cur, c);
            assert(words(next) =~= views(out@).push(cur@)) by {
                if in_word {
                    let prev = views(out@).push(before);
                    assert(words(pre) == prev);
                    assert(prev.update(prev.len() - 1, prev.last().push(c)) =~= views(
                        out@,
                    ).push(cur@));
                } else {
                    if i > 0 {
                        assert(next[next.len() - 2] == s@[i - 1]);
                    }
                    assert(cur@ =~= seq![c]);
                }
            }
            in_word = true;
        }
    }
    if in_word {
        out.push(cur);
    }
    assert(s@.subrange(0, s@.len() as int) == s@);
    out
}

/// The characters of `s`.
pub fn chars_of(s: &str) -> (r: Vec<char>)
    ensures
        r@ == s@,
{
    let mut r: Vec<char> = Vec::new();
    for c in it: s.chars()
        invariant
            it.seq() == s@,
            r@ == s@.subrange(0, it.index() as int),
    {
        r.push(c);
        assert(r@ =~= s@.subrange(0, it.index() + 1));
    }
    assert(s@.subrange(0, s@.len() as int) =~= s@);
    r
}

/// `lit` stands in `l` at position `i`.
pub open spec fn has_lit(l: Seq<char>, i: int, lit: Seq<char>) -> bool {
    0 <= i && i + lit.len() <= l.len() && l.subrange(i, i + lit.len()) == lit
}

/// The lines of `s`: the pieces between `\n` characters.
pub open spec fn lines(s: Seq<char>) -> Seq<Seq<char>>
    decreases s.len(),
{
    if s.len() == 0 {
        seq![Seq::empty()]
    } else {
        let p = lines(s.drop_last());
        if s.last() == '\n' {
            p.push(Seq::empty())
        } else {
            p.update(p.len() - 1, p.last().push(s.last()))
        }
    }
}

pub open spec fn opt_chars(o: Option<String>) -> Option<Seq<char>> {
    match o {
        Some(s) => Some(s@),
        None => None,
    }
}

/// Whether `lit` stands in `l` at position `i`.
pub fn lit_at(l: &Vec<char>, i: usize, lit: &Vec<char>) -> (r: bool)
    ensures
        r == has_lit(l@, i as int, lit@),
{
    if lit.len() > l.len() || i > l.len() - lit.len() {
        return false;
    }
    let mut k: usize = 0;
    while k < lit.len()
        invariant
            k <= lit@.len(),
            i + lit@.len() <= l@.len(),
            i + lit.len() <= l.len(),
            forall|m: int| 0 <= m < k ==> l@[i + m] == lit@[m],
        decreases lit.len() - k,
    {
        if l[i + k] != lit[k] {
            assert(l@.subrange(i as int, i + lit@.len())[k as int] != lit@[k as int]);
            return false;
        }
        k = k + 1;
    }
    assert(l@.subrange(i as int, i + lit@.len()) =~= lit@);
    true
}

/// The characters of `l` from `from` up to `to`, as a string.
pub fn text_between(l: &Vec<char>, from: usize, to: usize) -> (r: String)
    requires
        from <= to <= l@.len(),
    ensures
        r@ == l@.subrange(from as int, to as int),
{
    let mut r = String::new();
    let mut k: usize = from;
    while k < to
        invariant
            from <= k <= to,
            to <= l@.len(),
            r@ == l@.subrange(from as int, k as int),
        decreases to - k,
    {
        push_char(&mut r, l[k]);
        assert(r@ =~= l@.subrange(from as int, k + 1));
        k = k + 1;
    }
    r
}

} // verus!
