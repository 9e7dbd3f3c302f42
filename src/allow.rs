use vstd::prelude::*;

use crate::text::views;

verus! {

/// Whether the regex crate accepts `pattern`.
pub uninterp spec fn regex_compiles(pattern: Seq<char>) -> bool;

/// Whether the compiled `pattern` matches somewhere in `text`.
pub uninterp spec fn regex_finds(pattern: Seq<char>, text: Seq<char>) -> bool;

/// Relies on `regex::Regex::new`, which accepts or rejects a pattern, and on
/// `regex::Regex::is_match`, which tells whether the compiled pattern matches
/// somewhere in the text. Both depend on their arguments alone.
#[verifier::external_body]
fn regex_search(pattern: &str, text: &str) -> (r: Option<bool>)
    ensures
        r is Some <==> regex_compiles(pattern@),
        r is Some ==> r->0 == regex_finds(pattern@, text@),
{
    regex::Regex::new(pattern).ok().map(|re| re.is_match(text))
}

/// `id` matches one of `patterns`; a pattern that does not compile matches
/// nothing.
pub open spec fn exempted(patterns: Seq<Seq<char>>, id: Seq<char>) -> bool {
    exists|i: int|
        0 <= i < patterns.len() && regex_compiles(#[trigger] patterns[i]) && regex_finds(
            patterns[i],
            id,
        )
}

/// Whether the recipe id `id` matches one of the exemption `patterns`.
pub fn is_exempted(patterns: &Vec<String>, id: &str) -> (r: bool)
    ensures
        r == exempted(views(patterns@), id@),
{
    let mut i: usize = 0;
    while i < patterns.len()
        invariant
            i <= patterns.len(),
            forall|k: int|
                0 <= k < i ==> !(regex_compiles(#[trigger] views(patterns@)[k]) && regex_finds(
                    views(patterns@)[k],
                    id@,
                )),
        decreases patterns.len() - i,
    {
        match regex_search(patterns[i].as_str(), id) {
            Some(true) => {
                assert(views(patterns@)[i as int] == patterns@[i as int]@);
                return true;
            },
            _ => {},
        }
        assert(views(patterns@)[i as int] == patterns@[i as int]@);
        i = i + 1;
    }
    false
}

/// The exemption patterns for dependencies that are used without leaving a
/// trace that the evidence passes can see: test frameworks, build hooks and
/// platform integration shims.
pub fn permitted_unused_deps() -> (r: Vec<String>)
    ensures
        views(r@) == seq![
            "iconv-"@,
            "gtest-"@,
            "gbenchmark-"@,
            "wayland-protocols"@,
            "-dbus"@,
            "-polkit"@,
            "-systemd"@,
            "python3\\..*-mock-"@,
            "python3\\..*-pytest-"@,
            "perl-?5\\."@,
            "-check-"@,
            "-hook(\\.drv(\\^\\**)?)?$"@,
        ],
{
    let r = vec![
        "iconv-".to_owned(),
        "gtest-".to_owned(),
        "gbenchmark-".to_owned(),
        "wayland-protocols".to_owned(),
        "-dbus".to_owned(),
        "-polkit".to_owned(),
        "-systemd".to_owned(),
        "python3\\..*-mock-".to_owned(),
        "python3\\..*-pytest-".to_owned(),
        "perl-?5\\.".to_owned(),
        "-check-".to_owned(),
        "-hook(\\.drv(\\^\\**)?)?$".to_owned(),
    ];
    assert(views(r@) =~= seq![
        "iconv-"@,
        "gtest-"@,
        "gbenchmark-"@,
        "wayland-protocols"@,
        "-dbus"@,
        "-polkit"@,
        "-systemd"@,
        "python3\\..*-mock-"@,
        "python3\\..*-pytest-"@,
        "perl-?5\\."@,
        "-check-"@,
        "-hook(\\.drv(\\^\\**)?)?$"@,
    ]);
    r
}

} // verus!
