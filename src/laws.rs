use vstd::prelude::*;

use crate::allow::exempted;
use crate::derivation::{
    all_described, all_out_paths, candidate_pred, classified, field_words, is_candidate,
    propagated_of, resolved, root_consulted, undescribed, Candidate, Derivation, DrvGraph,
};
use crate::scan::{
    apply_all, contents, is_skipped, kept_by, planned, removes, root_verdict, survivors, unused_of,
    verdicts, Evidence, RootRun, ScanSettings, Verdict,
};
use crate::store::referenced_in;
use crate::text::{overlaps, views};

verus! {

proof fn lemma_filter_subset<A>(s: Seq<A>, p: spec_fn(A) -> bool, x: A)
    requires
        s.filter(p).contains(x),
    ensures
        s.contains(x),
        p(x),
    decreases s.len(),
{
    reveal(Seq::filter);
    if s.len() > 0 {
        let t = s.drop_last();
        if t.filter(p).contains(x) {
            lemma_filter_subset(t, p, x);
            let i = choose|i: int| 0 <= i < t.len() && t[i] == x;
            assert(s[i] == x);
        } else {
            assert(p(s.last()) && x == s.last());
            assert(s[s.len() - 1] == x);
        }
    }
}

proof fn lemma_filter_keeps_all<A>(s: Seq<A>, p: spec_fn(A) -> bool)
    requires
        forall|i: int| 0 <= i < s.len() ==> p(#[trigger] s[i]),
    ensures
        s.filter(p) == s,
    decreases s.len(),
{
    reveal(Seq::filter);
    if s.len() > 0 {
        let t = s.drop_last();
        assert forall|i: int| 0 <= i < t.len() implies p(#[trigger] t[i]) by {
            assert(t[i] == s[i]);
        }
        lemma_filter_keeps_all(t, p);
        assert(p(s[s.len() - 1]));
        assert(t.push(s.last()) =~= s);
    }
}

/// Narrowing never adds: every candidate left after a sequence of passes
/// was a candidate before them.
pub proof fn lemma_narrowing_monotone(cs: Seq<Candidate>, es: Seq<Evidence>, c: Candidate)
    requires
        apply_all(cs, es).contains(c),
    ensures
        cs.contains(c),
    decreases es.len(),
{
    if es.len() > 0 {
        lemma_filter_subset(apply_all(cs, es.drop_last()), kept_by(es.last()), c);
        lemma_narrowing_monotone(cs, es.drop_last(), c);
    }
}

/// A candidate that any one pass of a sequence removes is not among those
/// left after the whole sequence.
pub proof fn lemma_removed_stays_out(cs: Seq<Candidate>, es: Seq<Evidence>, k: int, c: Candidate)
    requires
        0 <= k < es.len(),
        removes(es[k], c),
    ensures
        !apply_all(cs, es).contains(c),
    decreases es.len(),
{
    if apply_all(cs, es).contains(c) {
        lemma_filter_subset(apply_all(cs, es.drop_last()), kept_by(es.last()), c);
        if k < es.len() - 1 {
            assert(es.drop_last()[k] == es[k]);
            lemma_removed_stays_out(cs, es.drop_last(), k, c);
        }
    }
}

proof fn lemma_passes_keep_survivors(xs: Seq<Candidate>, es: Seq<Evidence>)
    requires
        forall|i: int, k: int| 0 <= i < xs.len() && 0 <= k < es.len() ==> !#[trigger] removes(es[k], xs[i]),
    ensures
        apply_all(xs, es) == xs,
    decreases es.len(),
{
    if es.len() > 0 {
        assert forall|i: int, k: int| 0 <= i < xs.len() && 0 <= k < es.drop_last().len() implies !#[trigger] removes(
            es.drop_last()[k],
            xs[i],
        ) by {
            assert(es.drop_last()[k] == es[k]);
            assert(!removes(es[k], xs[i]));
        }
        lemma_passes_keep_survivors(xs, es.drop_last());
        assert forall|i: int| 0 <= i < xs.len() implies kept_by(es.last())(#[trigger] xs[i]) by {
            assert(!removes(es[es.len() - 1], xs[i]));
        }
        lemma_filter_keeps_all(xs, kept_by(es.last()));
    }
}

/// Re-running the same passes over what they left changes nothing.
pub proof fn lemma_rerun_unchanged(cs: Seq<Candidate>, es: Seq<Evidence>)
    ensures
        apply_all(apply_all(cs, es), es) == apply_all(cs, es),
{
    let xs = apply_all(cs, es);
    assert forall|i: int, k: int| 0 <= i < xs.len() && 0 <= k < es.len() implies !#[trigger] removes(
        es[k],
        xs[i],
    ) by {
        if removes(es[k], xs[i]) {
            lemma_removed_stays_out(cs, es, k, xs[i]);
            assert(xs.contains(xs[i]));
        }
    }
    lemma_passes_keep_survivors(xs, es);
}

/// Every dependency reported unused for a root is one of its classified
/// candidates.
pub proof fn lemma_report_within_candidates(run: RootRun, s: ScanSettings, patterns: Seq<Seq<char>>)
    ensures
        root_verdict(run, s, patterns) matches Verdict::Unused(ids) ==> forall|i: int|
            0 <= i < ids.len() ==> Candidate::ids(run.candidates@).contains(#[trigger] ids[i]),
{
    if root_verdict(run, s, patterns) is Unused {
        let left = unused_of(run, s, patterns);
        let ids = Candidate::ids(left);
        assert forall|i: int| 0 <= i < ids.len() implies Candidate::ids(run.candidates@).contains(
            #[trigger] ids[i],
        ) by {
            assert(left.contains(left[i]));
            lemma_narrowing_monotone(
                run.candidates@,
                planned(s, patterns, run.evidence) + contents(run.outputs->0@),
                left[i],
            );
            let j = choose|j: int| 0 <= j < run.candidates@.len() && run.candidates@[j] == left[i];
            assert(Candidate::ids(run.candidates@)[j] == ids[i]);
        }
    }
}

/// No dependency whose recipe id matches an exemption pattern is ever
/// reported unused, whatever the evidence passes find.
pub proof fn lemma_exempt_never_reported(run: RootRun, s: ScanSettings, patterns: Seq<Seq<char>>)
    ensures
        root_verdict(run, s, patterns) matches Verdict::Unused(ids) ==> forall|i: int|
            0 <= i < ids.len() ==> !exempted(patterns, #[trigger] ids[i]),
{
    if root_verdict(run, s, patterns) is Unused {
        let es = planned(s, patterns, run.evidence) + contents(run.outputs->0@);
        let left = unused_of(run, s, patterns);
        let ids = Candidate::ids(left);
        assert forall|i: int| 0 <= i < ids.len() implies !exempted(patterns, #[trigger] ids[i]) by {
            assert(es[0] == Evidence::Exempt(patterns));
            if exempted(patterns, ids[i]) {
                assert(removes(es[0], left[i]));
                lemma_removed_stays_out(run.candidates@, es, 0, left[i]);
                assert(left.contains(left[i]));
            }
        }
    }
}

/// A candidate whose fingerprint stands in a file or link target of the
/// root's built outputs is not left among the unused.
pub proof fn lemma_store_reference_sound(
    run: RootRun,
    s: ScanSettings,
    patterns: Seq<Seq<char>>,
    j: int,
    c: Candidate,
)
    requires
        run.outputs is Some,
        0 <= j < run.outputs->0@.len(),
        referenced_in(c, run.outputs->0@[j]@),
    ensures
        !unused_of(run, s, patterns).contains(c),
{
    let head = planned(s, patterns, run.evidence);
    let es = head + contents(run.outputs->0@);
    assert(es[head.len() + j] == Evidence::Contents(run.outputs->0@[j]@));
    lemma_removed_stays_out(run.candidates@, es, head.len() + j, c);
}

/// Scanning a root again, with unchanged outputs and metadata, starting from
/// what the first scan left, leaves exactly the same dependencies.
pub proof fn lemma_rescan_identical(
    run: RootRun,
    again: RootRun,
    s: ScanSettings,
    patterns: Seq<Seq<char>>,
)
    requires
        run.outputs is Some,
        again.candidates@ == unused_of(run, s, patterns),
        again.evidence == run.evidence,
        again.outputs == run.outputs,
    ensures
        unused_of(again, s, patterns) == unused_of(run, s, patterns),
{
    lemma_rerun_unchanged(
        run.candidates@,
        planned(s, patterns, run.evidence) + contents(run.outputs->0@),
    );
}

/// A root that fails to build changes the outcome of no other root.
pub proof fn lemma_root_isolation(
    runs: Seq<RootRun>,
    j: int,
    failed: RootRun,
    s: ScanSettings,
    patterns: Seq<Seq<char>>,
)
    requires
        0 <= j < runs.len(),
        failed.outputs is None,
    ensures
        forall|i: int|
            0 <= i < runs.len() && i != j ==> #[trigger] verdicts(runs.update(j, failed), s, patterns)[i]
                == verdicts(runs, s, patterns)[i],
        !is_skipped(views(s.skip@), failed.pname) && !s.skip_dep_usage_check ==> verdicts(
            runs.update(j, failed),
            s,
            patterns,
        )[j] == Verdict::BuildFailed,
{
}

proof fn lemma_propagated_of_contains(ds: Seq<Derivation>, k: int, x: Seq<char>)
    requires
        0 <= k < ds.len(),
        field_words(ds[k].env.propagated_build_inputs).contains(x),
    ensures
        propagated_of(ds).contains(x),
    decreases ds.len(),
{
    let prev = propagated_of(ds.drop_last());
    let last = field_words(ds.last().env.propagated_build_inputs);
    if k == ds.len() - 1 {
        let i = choose|i: int| 0 <= i < last.len() && last[i] == x;
        assert((prev + last)[prev.len() + i] == x);
    } else {
        assert(ds.drop_last()[k] == ds[k]);
        lemma_propagated_of_contains(ds.drop_last(), k, x);
        let i = choose|i: int| 0 <= i < prev.len() && prev[i] == x;
        assert((prev + last)[i] == x);
    }
}

/// A dependency one of whose outputs a direct dependency of the root
/// propagates is never a candidate of the root.
pub proof fn lemma_propagated_excluded(g: DrvGraph, root: Derivation, k: int, d: Derivation)
    requires
        0 <= k < root.input_drvs@.len(),
        overlaps(
            all_out_paths(g, d),
            field_words(resolved(g, root.input_drvs@)[k].env.propagated_build_inputs),
        ),
    ensures
        !classified(g, root).contains(d),
{
    let ds = resolved(g, root.input_drvs@);
    let outs = all_out_paths(g, d);
    let (i, m) = choose|i: int, m: int|
        0 <= i < outs.len() && 0 <= m < field_words(ds[k].env.propagated_build_inputs).len()
            && outs[i] == field_words(ds[k].env.propagated_build_inputs)[m];
    assert(field_words(ds[k].env.propagated_build_inputs).contains(outs[i]));
    lemma_propagated_of_contains(ds, k, outs[i]);
    let p = choose|p: int| 0 <= p < propagated_of(ds).len() && propagated_of(ds)[p] == outs[i];
    assert(overlaps(outs, propagated_of(ds)));
    if classified(g, root).contains(d) {
        lemma_filter_subset(ds, candidate_pred(g, root), d);
        assert(is_candidate(g, root, d));
    }
}

/// A dependency one of whose outputs the root lists among its check inputs
/// is never a candidate of the root.
pub proof fn lemma_check_input_excluded(g: DrvGraph, root: Derivation, d: Derivation)
    requires
        overlaps(all_out_paths(g, d), field_words(root.env.check_inputs)),
    ensures
        !classified(g, root).contains(d),
{
    if classified(g, root).contains(d) {
        lemma_filter_subset(resolved(g, root.input_drvs@), candidate_pred(g, root), d);
        assert(is_candidate(g, root, d));
    }
}

proof fn lemma_undescribed_concat(g: DrvGraph, a: Seq<Seq<char>>, b: Seq<Seq<char>>)
    ensures
        undescribed(g, a + b) == undescribed(g, a) + undescribed(g, b),
    decreases b.len(),
{
    if b.len() == 0 {
        assert(a + b =~= a);
        assert(undescribed(g, a) + undescribed(g, b) =~= undescribed(g, a));
    } else {
        assert((a + b).drop_last() =~= a + b.drop_last());
        assert((a + b).last() == b.last());
        lemma_undescribed_concat(g, a, b.drop_last());
        if g.has(b.last()) {
        } else {
            assert(undescribed(g, a) + undescribed(g, b) =~= (undescribed(g, a) + undescribed(
                g,
                b.drop_last(),
            )).push(b.last()));
        }
    }
}

/// Once nothing that classifying `root` looks up is left to describe, every
/// input of `root` is described, so `read_deps` succeeds.
pub proof fn lemma_nothing_left_to_describe(g: DrvGraph, ids: Seq<String>)
    requires
        undescribed(g, root_consulted(g, ids)).len() == 0,
    ensures
        all_described(g, ids),
    decreases ids.len(),
{
    if ids.len() > 0 {
        let id = ids.last()@;
        let prev = root_consulted(g, ids.drop_last());
        let more = if g.has(id) {
            crate::derivation::consulted(g, g.node(id), g.drvs@.len())
        } else {
            Seq::empty()
        };
        assert(root_consulted(g, ids) == prev + seq![id] + more);
        lemma_undescribed_concat(g, prev + seq![id], more);
        lemma_undescribed_concat(g, prev, seq![id]);
        assert(seq![id].drop_last() =~= Seq::<Seq<char>>::empty());
        assert(g.has(id));
        lemma_nothing_left_to_describe(g, ids.drop_last());
        assert forall|i: int| 0 <= i < ids.len() implies g.has(#[trigger] ids[i]@) by {
            if i < ids.len() - 1 {
                assert(ids.drop_last()[i] == ids[i]);
            }
        }
    }
}

} // verus!
