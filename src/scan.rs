use vstd::prelude::*;

use crate::allow::{exempted, is_exempted};
use crate::derivation::Candidate;
use crate::store::{is_referenced_in, referenced_in};
use crate::text::{any_shared, contains_text, lemma_views_push, overlaps, views};

verus! {

/// One narrowing step over a candidate set, with the evidence it acts on.
pub enum Pass {
    /// Exemption patterns over recipe ids.
    Exempt(Vec<String>),
    /// File names of the headers that the root's sources include.
    Headers(Vec<String>),
    /// Dependency names listed by the root's project manifest.
    Manifest(Vec<String>),
    /// Programs that the root's shebang lines name.
    Shebangs(Vec<String>),
    /// Shared libraries that the root's built binaries link against.
    SharedObjects(Vec<String>),
    /// The content of one file, or the target of one link, in the root's
    /// built outputs.
    Contents(Vec<u8>),
}

/// What a pass holds, as mathematical values.
pub enum Evidence {
    Exempt(Seq<Seq<char>>),
    Headers(Seq<Seq<char>>),
    Manifest(Seq<Seq<char>>),
    Shebangs(Seq<Seq<char>>),
    SharedObjects(Seq<Seq<char>>),
    Contents(Seq<u8>),
}

impl View for Pass {
    type V = Evidence;

    open spec fn view(&self) -> Evidence {
        match self {
            Pass::Exempt(v) => Evidence::Exempt(views(v@)),
            Pass::Headers(v) => Evidence::Headers(views(v@)),
            Pass::Manifest(v) => Evidence::Manifest(views(v@)),
            Pass::Shebangs(v) => Evidence::Shebangs(views(v@)),
            Pass::SharedObjects(v) => Evidence::SharedObjects(views(v@)),
            Pass::Contents(d) => Evidence::Contents(d@),
        }
    }
}

pub open spec fn pass_views(ps: Seq<Pass>) -> Seq<Evidence> {
    ps.map_values(|p: Pass| p@)
}

/// The evidence `e` removes candidate `c`.
pub open spec fn removes(e: Evidence, c: Candidate) -> bool {
    match e {
        Evidence::Exempt(ps) => exempted(ps, c.drv_path@),
        Evidence::Headers(u) => overlaps(views(c.provided_headers@), u),
        Evidence::Manifest(n) => c.pname is Some && n.contains(c.pname->0@),
        Evidence::Shebangs(u) => overlaps(views(c.provided_binaries@), u),
        Evidence::SharedObjects(u) => overlaps(views(c.provided_shared_objects@), u),
        Evidence::Contents(d) => referenced_in(c, d),
    }
}

pub open spec fn kept_by(e: Evidence) -> spec_fn(Candidate) -> bool {
    |c: Candidate| !removes(e, c)
}

/// The candidates of `cs` that evidence `e` does not remove, in order.
pub open spec fn survivors(cs: Seq<Candidate>, e: Evidence) -> Seq<Candidate> {
    cs.filter(kept_by(e))
}

/// The candidates left after the passes `ps`, applied in order.
pub open spec fn apply_all(cs: Seq<Candidate>, ps: Seq<Evidence>) -> Seq<Candidate>
    decreases ps.len(),
{
    if ps.len() == 0 {
        cs
    } else {
        survivors(apply_all(cs, ps.drop_last()), ps.last())
    }
}

/// Whether pass `p` finds evidence that removes `c`.
pub fn removes_candidate(p: &Pass, c: &Candidate) -> (r: bool)
    ensures
        r == removes(p@, *c),
{
    match p {
        Pass::Exempt(ps) => is_exempted(ps, c.drv_path.as_str()),
        Pass::Headers(u) => any_shared(&c.provided_headers, u),
        Pass::Manifest(n) => match &c.pname {
            Some(name) => contains_text(n, name.as_str()),
            None => false,
        },
        Pass::Shebangs(u) => any_shared(&c.provided_binaries, u),
        Pass::SharedObjects(u) => any_shared(&c.provided_shared_objects, u),
        Pass::Contents(d) => is_referenced_in(c, d),
    }
}

/// Narrows `cands` by one pass: removes exactly the candidates for which the
/// pass finds evidence, keeping the order of the others.
pub fn apply_pass(cands: Vec<Candidate>, pass: &Pass) -> (r: Vec<Candidate>)
    ensures
        r@ == survivors(cands@, pass@),
{
    let ghost orig = cands@;
    let n = cands.len();
    let mut rest = cands;
    let mut out: Vec<Candidate> = Vec::new();
    while rest.len() > 0
        invariant
            n == orig.len(),
            rest@.len() <= n,
            rest@ == orig.subrange(n - rest@.len(), n as int),
            out@ == orig.subrange(0, n - rest@.len()).filter(kept_by(pass@)),
        decreases rest@.len(),
    {
        let ghost k = n - rest@.len();
        let c = rest.remove(0);
        let gone = removes_candidate(pass, &c);
        proof {
            reveal(Seq::filter);
            let s1 = orig.subrange(0, k + 1);
            assert(s1.drop_last() =~= orig.subrange(0, k));
            assert(s1.last() == c);
            assert(rest@ =~= orig.subrange(k + 1, n as int));
        }
        if !gone {
            out.push(c);
        }
    }
    assert(orig.subrange(0, n as int) =~= orig);
    out
}

/// Narrows `cands` by each of `passes` in turn.
pub fn run_passes(cands: Vec<Candidate>, passes: &Vec<Pass>) -> (r: Vec<Candidate>)
    ensures
        r@ == apply_all(cands@, pass_views(passes@)),
{
    let ghost orig = cands@;
    let mut cur = cands;
    let mut i: usize = 0;
    while i < passes.len()
        invariant
            i <= passes@.len(),
            cur@ == apply_all(orig, pass_views(passes@.subrange(0, i as int))),
        decreases passes.len() - i,
    {
        cur = apply_pass(cur, &passes[i]);
        proof {
            let ps = pass_views(passes@.subrange(0, i + 1));
            assert(ps.drop_last() =~= pass_views(passes@.subrange(0, i as int)));
            assert(ps.last() == passes@[i as int]@);
        }
        i = i + 1;
    }
    assert(passes@.subrange(0, i as int) =~= passes@);
    cur
}

/// Which passes run, and the options that reach the package tools.
pub struct ScanSettings {
    pub check_headers: bool,
    pub list_used_headers: bool,
    pub check_pyproject: bool,
    pub check_shebangs: bool,
    pub check_shared_objects: bool,
    pub skip_dep_usage_check: bool,
    /// Package names of roots that are not analysed.
    pub skip: Vec<String>,
    /// Extra options handed to every `nix` invocation.
    pub nix_flags: Vec<String>,
}

/// The extra options handed to every `nix` invocation.
pub fn get_nix_flags(settings: &ScanSettings) -> (r: &Vec<String>)
    ensures
        *r == settings.nix_flags,
{
    &settings.nix_flags
}

/// What was found in the sources and built outputs of one root.
pub struct RootEvidence {
    pub used_headers: Vec<String>,
    pub used_py_deps: Vec<String>,
    pub used_shebangs: Vec<String>,
    pub used_shared_objects: Vec<String>,
}

/// The passes that run before the root's outputs are scanned: the
/// exemptions first, then each enabled evidence pass.
pub open spec fn planned(s: ScanSettings, patterns: Seq<Seq<char>>, ev: RootEvidence) -> Seq<
    Evidence,
> {
    seq![Evidence::Exempt(patterns)] + (if s.check_headers || s.list_used_headers {
        seq![Evidence::Headers(views(ev.used_headers@))]
    } else {
        Seq::empty()
    }) + (if s.check_pyproject {
        seq![Evidence::Manifest(views(ev.used_py_deps@))]
    } else {
        Seq::empty()
    }) + (if s.check_shebangs {
        seq![Evidence::Shebangs(views(ev.used_shebangs@))]
    } else {
        Seq::empty()
    }) + (if s.check_shared_objects {
        seq![Evidence::SharedObjects(views(ev.used_shared_objects@))]
    } else {
        Seq::empty()
    })
}

/// One content pass per file or link of the built outputs.
pub open spec fn contents(o: Seq<Vec<u8>>) -> Seq<Evidence> {
    o.map_values(|d: Vec<u8>| Evidence::Contents(d@))
}

fn push_pass(ps: &mut Vec<Pass>, p: Pass)
    ensures
        pass_views(final(ps)@) == pass_views(old(ps)@).push(p@),
{
    ps.push(p);
    assert(pass_views(ps@) =~= pass_views(old(ps)@).push(p@));
}

/// The passes to run, in order, for the given settings and evidence.
pub fn plan_passes(settings: &ScanSettings, patterns: Vec<String>, ev: RootEvidence) -> (r: Vec<
    Pass,
>)
    ensures
        pass_views(r@) == planned(*settings, views(patterns@), ev),
{
    let ghost e = ev;
    let ghost pv = views(patterns@);
    let RootEvidence { used_headers, used_py_deps, used_shebangs, used_shared_objects } = ev;
    let mut r: Vec<Pass> = Vec::new();
    push_pass(&mut r, Pass::Exempt(patterns));
    assert(pass_views(r@) =~= seq![Evidence::Exempt(pv)]);
    let ghost after_exempt = pass_views(r@);
    if settings.check_headers || settings.list_used_headers {
        push_pass(&mut r, Pass::Headers(used_headers));
    }
    let ghost after_headers = pass_views(r@);
    assert(after_headers =~= after_exempt + (if settings.check_headers || settings.list_used_headers {
        seq![Evidence::Headers(views(e.used_headers@))]
    } else {
        Seq::empty()
    }));
    if settings.check_pyproject {
        push_pass(&mut r, Pass::Manifest(used_py_deps));
    }
    let ghost after_manifest = pass_views(r@);
    assert(after_manifest =~= after_headers + (if settings.check_pyproject {
        seq![Evidence::Manifest(views(e.used_py_deps@))]
    } else {
        Seq::empty()
    }));
    if settings.check_shebangs {
        push_pass(&mut r, Pass::Shebangs(used_shebangs));
    }
    let ghost after_shebangs = pass_views(r@);
    assert(after_shebangs =~= after_manifest + (if settings.check_shebangs {
        seq![Evidence::Shebangs(views(e.used_shebangs@))]
    } else {
        Seq::empty()
    }));
    if settings.check_shared_objects {
        push_pass(&mut r, Pass::SharedObjects(used_shared_objects));
    }
    assert(pass_views(r@) =~= after_shebangs + (if settings.check_shared_objects {
        seq![Evidence::SharedObjects(views(e.used_shared_objects@))]
    } else {
        Seq::empty()
    }));
    r
}

/// Everything known of one root once its evidence has been gathered.
pub struct RootRun {
    pub drv_path: String,
    pub pname: Option<String>,
    /// Its classified candidates.
    pub candidates: Vec<Candidate>,
    pub evidence: RootEvidence,
    /// The contents of the files and the targets of the links in its built
    /// outputs; none when it did not build.
    pub outputs: Option<Vec<Vec<u8>>>,
}

/// How the analysis of one root ended.
pub enum RootOutcome {
    /// Its package name is on the skip list.
    Skipped,
    /// The dependency usage check was switched off.
    NotChecked,
    /// It did not build, so its outputs could not be scanned.
    BuildFailed,
    /// The recipe ids of its unused dependencies.
    Unused(Vec<String>),
}

/// How the analysis of one root ended, as mathematical values.
pub enum Verdict {
    Skipped,
    NotChecked,
    BuildFailed,
    Unused(Seq<Seq<char>>),
}

impl View for RootOutcome {
    type V = Verdict;

    open spec fn view(&self) -> Verdict {
        match self {
            RootOutcome::Skipped => Verdict::Skipped,
            RootOutcome::NotChecked => Verdict::NotChecked,
            RootOutcome::BuildFailed => Verdict::BuildFailed,
            RootOutcome::Unused(v) => Verdict::Unused(views(v@)),
        }
    }
}

pub open spec fn is_skipped(skip: Seq<Seq<char>>, pname: Option<String>) -> bool {
    pname is Some && skip.contains(pname->0@)
}

/// The candidates of `run` that no pass removes.
pub open spec fn unused_of(run: RootRun, s: ScanSettings, patterns: Seq<Seq<char>>) -> Seq<
    Candidate,
> {
    apply_all(
        run.candidates@,
        planned(s, patterns, run.evidence) + contents(run.outputs->0@),
    )
}

/// The outcome of analysing one root.
pub open spec fn root_verdict(run: RootRun, s: ScanSettings, patterns: Seq<Seq<char>>) -> Verdict {
    if is_skipped(views(s.skip@), run.pname) {
        Verdict::Skipped
    } else if s.skip_dep_usage_check {
        Verdict::NotChecked
    } else if run.outputs is None {
        Verdict::BuildFailed
    } else {
        Verdict::Unused(Candidate::ids(unused_of(run, s, patterns)))
    }
}

/// The outcome for a root that is skipped or not checked, decided before
/// anything is built.
pub fn precheck(settings: &ScanSettings, pname: &Option<String>) -> (r: Option<RootOutcome>)
    ensures
        is_skipped(views(settings.skip@), *pname) ==> r == Some(RootOutcome::Skipped),
        !is_skipped(views(settings.skip@), *pname) && settings.skip_dep_usage_check ==> r == Some(
            RootOutcome::NotChecked,
        ),
        !is_skipped(views(settings.skip@), *pname) && !settings.skip_dep_usage_check ==> r
            is None,
{
    let skipped = match pname {
        Some(p) => contains_text(&settings.skip, p.as_str()),
        None => false,
    };
    if skipped {
        Some(RootOutcome::Skipped)
    } else if settings.skip_dep_usage_check {
        Some(RootOutcome::NotChecked)
    } else {
        None
    }
}

/// The recipe ids of `cs`, in order.
pub fn candidate_ids(cs: &Vec<Candidate>) -> (r: Vec<String>)
    ensures
        views(r@) == Candidate::ids(cs@),
{
    let mut r: Vec<String> = Vec::new();
    let mut i: usize = 0;
    while i < cs.len()
        invariant
            i <= cs@.len(),
            views(r@) == Candidate::ids(cs@.subrange(0, i as int)),
        decreases cs.len() - i,
    {
        let ghost before = r@;
        r.push(cs[i].drv_path.clone());
        proof {
            lemma_views_push(before, cs@[i as int].drv_path);
            assert(cs@.subrange(0, i + 1) =~= cs@.subrange(0, i as int).push(cs@[i as int]));
            assert(Candidate::ids(cs@.subrange(0, i + 1)) =~= Candidate::ids(
                cs@.subrange(0, i as int),
            ).push(cs@[i as int].drv_path@));
        }
        i = i + 1;
    }
    assert(cs@.subrange(0, i as int) =~= cs@);
    r
}

fn copy_patterns(v: &Vec<String>) -> (r: Vec<String>)
    ensures
        views(r@) == views(v@),
{
    let mut r: Vec<String> = Vec::new();
    let mut i: usize = 0;
    while i < v.len()
        invariant
            i <= v@.len(),
            views(r@) == views(v@.subrange(0, i as int)),
        decreases v.len() - i,
    {
        let ghost before = r@;
        r.push(v[i].clone());
        proof {
            lemma_views_push(before, v@[i as int]);
            lemma_views_push(v@.subrange(0, i as int), v@[i as int]);
            assert(v@.subrange(0, i + 1) =~= v@.subrange(0, i as int).push(v@[i as int]));
        }
        i = i + 1;
    }
    assert(v@.subrange(0, i as int) =~= v@);
    r
}

/// Runs the whole pipeline for one root: the skip list, then the exemptions
/// and the enabled evidence passes, then one content pass per file or link of
/// its built outputs. What is left is reported as unused.
pub fn scan_root(run: RootRun, settings: &ScanSettings, patterns: &Vec<String>) -> (r: RootOutcome)
    ensures
        r@ == root_verdict(run, *settings, views(patterns@)),
{
    let RootRun { drv_path: _, pname, candidates, evidence, outputs } = run;
    match precheck(settings, &pname) {
        Some(o) => {
            return o;
        },
        None => {},
    }
    match outputs {
        None => RootOutcome::BuildFailed,
        Some(o) => {
            let ghost orig = o@;
            let mut passes = plan_passes(settings, copy_patterns(patterns), evidence);
            let ghost head = pass_views(passes@);
            let n = o.len();
            let mut rest = o;
            while rest.len() > 0
                invariant
                    n == orig.len(),
                    rest@.len() <= n,
                    rest@ == orig.subrange(n - rest@.len(), n as int),
                    pass_views(passes@) == head + contents(orig.subrange(0, n - rest@.len())),
                decreases rest@.len(),
            {
                let ghost k = n - rest@.len();
                let d = rest.remove(0);
                push_pass(&mut passes, Pass::Contents(d));
                assert(rest@ =~= orig.subrange(k + 1, n as int));
                assert(contents(orig.subrange(0, k + 1)) =~= contents(orig.subrange(0, k)).push(
                    Evidence::Contents(d@),
                ));
            }
            assert(orig.subrange(0, n as int) =~= orig);
            let left = run_passes(candidates, &passes);
            RootOutcome::Unused(candidate_ids(&left))
        },
    }
}

/// The outcome of each root, in order.
pub open spec fn verdicts(runs: Seq<RootRun>, s: ScanSettings, patterns: Seq<Seq<char>>) -> Seq<
    Verdict,
> {
    runs.map_values(|r: RootRun| root_verdict(r, s, patterns))
}

/// Analyses each root on its own; the outcome of one never depends on
/// another.
pub fn scan_roots(runs: Vec<RootRun>, settings: &ScanSettings, patterns: &Vec<String>) -> (r: Vec<
    RootOutcome,
>)
    ensures
        r@.len() == runs@.len(),
        forall|i: int| 0 <= i < r@.len() ==> #[trigger] r@[i]@ == verdicts(runs@, *settings, views(patterns@))[i],
{
    let ghost orig = runs@;
    let n = runs.len();
    let mut rest = runs;
    let mut out: Vec<RootOutcome> = Vec::new();
    while rest.len() > 0
        invariant
            n == orig.len(),
            rest@.len() <= n,
            rest@ == orig.subrange(n - rest@.len(), n as int),
            out@.len() == n - rest@.len(),
            forall|i: int| 0 <= i < out@.len() ==> #[trigger] out@[i]@ == root_verdict(orig[i], *settings, views(patterns@)),
        decreases rest@.len(),
    {
        let ghost k = n - rest@.len();
        let run = rest.remove(0);
        assert(run == orig[k]);
        out.push(scan_root(run, settings, patterns));
        assert(rest@ =~= orig.subrange(k + 1, n as int));
    }
    out
}

} // verus!
