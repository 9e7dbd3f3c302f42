use vstd::prelude::*;

use crate::derivation::Candidate;
use crate::text::{chars_of, has_lit, lit_at, text_between};

verus! {

pub open spec fn store_prefix() -> Seq<char> {
    seq!['/', 'n', 'i', 'x', '/', 's', 't', 'o', 'r', 'e', '/']
}

/// The path without its leading `/nix/store/`, if it has one.
pub open spec fn strip_store(p: Seq<char>) -> Seq<char> {
    if has_lit(p, 0, store_prefix()) {
        p.subrange(11, p.len() as int)
    } else {
        p
    }
}

/// The path carries a fingerprint: at least 32 ASCII characters after the
/// store prefix.
pub open spec fn has_store_hash(p: Seq<char>) -> bool {
    let t = strip_store(p);
    t.len() >= 32 && forall|i: int| 0 <= i < 32 ==> (t[i] as u32) < 128
}

/// The content-hash fingerprint of a store path: the 32 characters after the
/// store prefix.
pub open spec fn store_hash(p: Seq<char>) -> Seq<char> {
    strip_store(p).subrange(0, 32)
}

/// The bytes of an ASCII text.
pub open spec fn ascii_bytes(s: Seq<char>) -> Seq<u8> {
    s.map_values(|c: char| (c as u32) as u8)
}

/// `needle` stands somewhere in `hay`.
pub open spec fn occurs(needle: Seq<u8>, hay: Seq<u8>) -> bool {
    exists|k: int| 0 <= k && k + needle.len() <= hay.len() && #[trigger] hay.subrange(k, k + needle.len()) == needle
}

/// Some output of `c` has a fingerprint that stands in `data`.
pub open spec fn referenced_in(c: Candidate, data: Seq<u8>) -> bool {
    exists|i: int|
        0 <= i < c.out_paths@.len() && has_store_hash(#[trigger] c.out_paths@[i]@) && occurs(
            ascii_bytes(store_hash(c.out_paths@[i]@)),
            data,
        )
}

fn strip_start(l: &Vec<char>) -> (r: usize)
    ensures
        r == 0 || r == 11,
        r == 11 <==> has_lit(l@, 0, store_prefix()),
{
    let prefix = vec!['/', 'n', 'i', 'x', '/', 's', 't', 'o', 'r', 'e', '/'];
    assert(prefix@ =~= store_prefix());
    if lit_at(l, 0, &prefix) {
        11
    } else {
        0
    }
}

/// The fingerprint of a store path: the 32 characters after `/nix/store/`.
pub fn get_store_hash(store_path: &str) -> (r: String)
    requires
        has_store_hash(store_path@),
    ensures
        r@ == store_hash(store_path@),
{
    let l = chars_of(store_path);
    let s = strip_start(&l);
    assert(strip_store(l@) =~= l@.subrange(s as int, l@.len() as int));
    let r = text_between(&l, s, s + 32);
    assert(r@ =~= store_hash(store_path@));
    r
}

/// The fingerprint bytes of a path that carries one.
fn fingerprint_bytes(path: &str) -> (r: Option<Vec<u8>>)
    ensures
        r is Some <==> has_store_hash(path@),
        r is Some ==> r->0@ == ascii_bytes(store_hash(path@)),
{
    let l = chars_of(path);
    let s = strip_start(&l);
    assert(strip_store(l@) =~= l@.subrange(s as int, l@.len() as int));
    if l.len() - s < 32 {
        return None;
    }
    let mut out: Vec<u8> = Vec::new();
    let mut k: usize = 0;
    while k < 32
        invariant
            k <= 32,
            s + 32 <= l@.len(),
            s + 32 <= l.len(),
            strip_store(path@) == l@.subrange(s as int, l@.len() as int),
            l@ == path@,
            forall|i: int| 0 <= i < k ==> (#[trigger] strip_store(path@)[i] as u32) < 128,
            out@ == ascii_bytes(l@.subrange(s as int, s + k)),
        decreases 32 - k,
    {
        let c = l[s + k];
        if (c as u32) >= 128 {
            assert(strip_store(path@)[k as int] == c);
            return None;
        }
        out.push((c as u32) as u8);
        assert(out@ =~= ascii_bytes(l@.subrange(s as int, s + k + 1)));
        k = k + 1;
    }
    assert(l@.subrange(s as int, s + 32) =~= store_hash(path@));
    Some(out)
}

fn matches_at(needle: &Vec<u8>, hay: &Vec<u8>, k: usize) -> (r: bool)
    requires
        k + needle@.len() <= hay@.len(),
    ensures
        r == (hay@.subrange(k as int, k + needle@.len()) == needle@),
{
    let n = needle.len();
    let mut m: usize = 0;
    while m < n
        invariant
            m <= n,
            n == needle@.len(),
            k + n <= hay.len(),
            forall|i: int| 0 <= i < m ==> hay@[k + i] == needle@[i],
        decreases n - m,
    {
        if hay[k + m] != needle[m] {
            assert(hay@.subrange(k as int, k + n)[m as int] != needle@[m as int]);
            return false;
        }
        m = m + 1;
    }
    assert(hay@.subrange(k as int, k + n) =~= needle@);
    true
}

/// Whether `needle` stands somewhere in `hay`.
pub fn occurs_in(needle: &Vec<u8>, hay: &Vec<u8>) -> (r: bool)
    ensures
        r == occurs(needle@, hay@),
{
    let n = needle.len();
    if n == 0 {
        assert(hay@.subrange(0int, 0int + needle@.len()) =~= needle@);
        return true;
    }
    if n > hay.len() {
        return false;
    }
    let end = hay.len() - n + 1;
    let mut k: usize = 0;
    while k < end
        invariant
            n == needle@.len(),
            n >= 1,
            end == hay@.len() - n + 1,
            k <= end,
            forall|j: int| 0 <= j < k ==> #[trigger] hay@.subrange(j, j + n) != needle@,
        decreases end - k,
    {
        if matches_at(needle, hay, k) {
            return true;
        }
        k = k + 1;
    }
    proof {
        if occurs(needle@, hay@) {
            let j = choose|j: int|
                0 <= j && j + needle@.len() <= hay@.len() && #[trigger] hay@.subrange(
                    j,
                    j + needle@.len(),
                ) == needle@;
            assert(hay@.subrange(j, j + n) == needle@);
        }
    }
    false
}

/// Whether the content of a file, or the target of a link, holds the
/// fingerprint of some output of `c`.
pub fn is_referenced_in(c: &Candidate, data: &Vec<u8>) -> (r: bool)
    ensures
        r == referenced_in(*c, data@),
{
    let mut i: usize = 0;
    while i < c.out_paths.len()
        invariant
            i <= c.out_paths@.len(),
            forall|j: int|
                0 <= j < i ==> !(has_store_hash(#[trigger] c.out_paths@[j]@) && occurs(
                    ascii_bytes(store_hash(c.out_paths@[j]@)),
                    data@,
                )),
        decreases c.out_paths.len() - i,
    {
        match fingerprint_bytes(c.out_paths[i].as_str()) {
            Some(f) => {
                if occurs_in(&f, data) {
                    return true;
                }
            },
            None => {},
        }
        i = i + 1;
    }
    false
}

} // verus!
