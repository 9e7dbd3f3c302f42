use nix_check_deps::allow::{is_exempted, permitted_unused_deps};
use nix_check_deps::derivation::{Candidate, Derivation, DrvEnv, DrvGraph, DrvOutput};
use nix_check_deps::scan::{
    apply_pass, precheck, run_passes, scan_root, scan_roots, Pass, RootEvidence, RootOutcome,
    RootRun, ScanSettings,
};

const HB: &str = "/nix/store/bbbbbbbbbbbbbbbbbbbbbbbbbbbbbbbb-libb-1.0";
const HC: &str = "/nix/store/cccccccccccccccccccccccccccccccc-gtest-1.0";
const HD: &str = "/nix/store/dddddddddddddddddddddddddddddddd-libd-1.0";
const HG: &str = "/nix/store/gggggggggggggggggggggggggggggggg-libg-1.0";

fn s(x: &str) -> String {
    x.to_string()
}

fn env(build: Option<&str>, check: Option<&str>, pname: Option<&str>, prop: Option<&str>) -> DrvEnv {
    DrvEnv {
        build_inputs: build.map(s),
        check_inputs: check.map(s),
        pname: pname.map(s),
        propagated_build_inputs: prop.map(s),
        src: None,
    }
}

fn drv(path: &str, outs: &[&str], inputs: &[&str], env: DrvEnv) -> Derivation {
    Derivation {
        env,
        outputs: outs.iter().map(|o| DrvOutput { path: s(o) }).collect(),
        input_drvs: inputs.iter().map(|i| s(i)).collect(),
        drv_path: s(path),
    }
}

fn cand(path: &str, outs: &[&str]) -> Candidate {
    Candidate {
        drv_path: s(path),
        pname: None,
        out_paths: outs.iter().map(|o| s(o)).collect(),
        provided_headers: Vec::new(),
        provided_binaries: Vec::new(),
        provided_shared_objects: Vec::new(),
    }
}

fn settings() -> ScanSettings {
    ScanSettings {
        check_headers: true,
        list_used_headers: false,
        check_pyproject: true,
        check_shebangs: true,
        check_shared_objects: true,
        skip_dep_usage_check: false,
        skip: vec![s("")],
        nix_flags: Vec::new(),
    }
}

fn no_evidence() -> RootEvidence {
    RootEvidence {
        used_headers: Vec::new(),
        used_py_deps: Vec::new(),
        used_shebangs: Vec::new(),
        used_shared_objects: Vec::new(),
    }
}

fn ids(o: &RootOutcome) -> Vec<String> {
    match o {
        RootOutcome::Unused(v) => v.clone(),
        _ => panic!("no report"),
    }
}

fn binary_with(hash_path: &str) -> Vec<u8> {
    let mut v = vec![0u8, 1, 2, 0xff];
    v.extend_from_slice(hash_path.as_bytes());
    v.extend_from_slice(b"/lib\0\x7f");
    v
}

#[test]
fn exempt_and_referenced_leave_nothing() {
    let run = RootRun {
        drv_path: s("/nix/store/aaaa-a.drv"),
        pname: Some(s("a")),
        candidates: vec![cand("/nix/store/bbbb-libb-1.0.drv", &[HB]), cand("/nix/store/cccc-gtest-1.0.drv", &[HC])],
        evidence: no_evidence(),
        outputs: Some(vec![binary_with(HB)]),
    };
    let out = scan_root(run, &settings(), &permitted_unused_deps());
    assert_eq!(ids(&out), Vec::<String>::new());
}

#[test]
fn unreferenced_dependency_is_reported() {
    let run = RootRun {
        drv_path: s("/nix/store/aaaa-a.drv"),
        pname: Some(s("a")),
        candidates: vec![cand("/nix/store/bbbb-libb-1.0.drv", &[HB]), cand("/nix/store/dddd-libd-1.0.drv", &[HD])],
        evidence: no_evidence(),
        outputs: Some(vec![binary_with(HB), b"plain text".to_vec()]),
    };
    let out = scan_root(run, &settings(), &permitted_unused_deps());
    assert_eq!(ids(&out), vec![s("/nix/store/dddd-libd-1.0.drv")]);
}

#[test]
fn propagated_input_is_never_a_candidate() {
    let fo = "/nix/store/ffffffffffffffffffffffffffffffff-f";
    let eo = "/nix/store/eeeeeeeeeeeeeeeeeeeeeeeeeeeeeeee-e";
    let root = drv(
        "/nix/store/a.drv",
        &["/nix/store/aaaaaaaaaaaaaaaaaaaaaaaaaaaaaaaa-a"],
        &["/nix/store/e.drv", "/nix/store/f.drv"],
        env(Some(&format!("{} {}", eo, fo)), None, Some("a"), None),
    );
    let e = drv("/nix/store/e.drv", &[eo], &[], env(None, None, Some("e"), Some(fo)));
    let f = drv("/nix/store/f.drv", &[fo], &[], env(None, None, Some("f"), None));
    let mut g = DrvGraph::new();
    g.insert(e);
    g.insert(f);
    let deps = root.read_deps(&g).ok().unwrap();
    let names: Vec<String> = deps.iter().map(|c| c.drv_path.clone()).collect();
    assert_eq!(names, vec![s("/nix/store/e.drv")]);
}

#[test]
fn check_input_is_never_a_candidate() {
    let bo = "/nix/store/bbbbbbbbbbbbbbbbbbbbbbbbbbbbbbbb-b";
    let to = "/nix/store/tttttttttttttttttttttttttttttttt-t";
    let root = drv(
        "/nix/store/a.drv",
        &[],
        &["/nix/store/b.drv", "/nix/store/t.drv"],
        env(Some(&format!("{}\n{}", bo, to)), Some(to), None, None),
    );
    let mut g = DrvGraph::new();
    g.insert(drv("/nix/store/b.drv", &[bo], &[], env(None, None, None, None)));
    g.insert(drv("/nix/store/t.drv", &[to], &[], env(None, None, None, None)));
    let deps = root.read_deps(&g).ok().unwrap();
    assert_eq!(deps.len(), 1);
    assert_eq!(deps[0].drv_path, "/nix/store/b.drv");
    assert_eq!(deps[0].out_paths, vec![s(bo)]);
}

#[test]
fn undescribed_input_fails_the_root() {
    let root = drv("/nix/store/a.drv", &[], &["/nix/store/missing.drv"], env(Some("x"), None, None, None));
    let g = DrvGraph::new();
    assert_eq!(root.read_deps(&g).err(), Some(s("/nix/store/missing.drv")));
}

#[test]
fn input_not_among_build_inputs_is_dropped() {
    let root = drv("/nix/store/a.drv", &[], &["/nix/store/b.drv"], env(Some("/nix/store/other"), None, None, None));
    let mut g = DrvGraph::new();
    g.insert(drv("/nix/store/b.drv", &["/nix/store/b-out"], &[], env(None, None, None, None)));
    assert_eq!(root.read_deps(&g).ok().unwrap().len(), 0);
}

#[test]
fn sibling_outputs_with_same_package_name() {
    let main = drv("/nix/store/p.drv", &["/nix/store/p-out"], &["/nix/store/p-dev.drv", "/nix/store/q.drv"], env(None, None, Some("p"), None));
    let dev = drv("/nix/store/p-dev.drv", &["/nix/store/p-dev"], &[], env(None, None, Some("p"), None));
    let other = drv("/nix/store/q.drv", &["/nix/store/q-out"], &[], env(None, None, Some("q"), None));
    let mut g = DrvGraph::new();
    g.insert(dev);
    g.insert(other);
    assert_eq!(main.get_out_paths(&g), vec![s("/nix/store/p-out"), s("/nix/store/p-dev")]);
}

#[test]
fn graph_insert_keeps_ids_unique() {
    let mut g = DrvGraph::new();
    assert!(g.insert(drv("/nix/store/a.drv", &[], &[], env(None, None, None, None))));
    assert!(!g.insert(drv("/nix/store/a.drv", &["/x"], &[], env(None, None, None, None))));
    assert_eq!(g.drvs.len(), 1);
    assert_eq!(g.find("/nix/store/a.drv"), Some(0));
    assert_eq!(g.find("/nix/store/b.drv"), None);
}

#[test]
fn header_pass_proves_use() {
    let used = nix_check_deps::headers::find_used_c_headers(&vec![s("int x;\n#include \"foo/bar.h\"\n")]);
    assert_eq!(used, vec![s("bar.h")]);
    let mut g = cand("/nix/store/gggg-libg-1.0.drv", &[HG]);
    g.provided_headers = vec![s("bar.h"), s("baz.h")];
    let left = apply_pass(vec![g, cand("/nix/store/dddd-libd-1.0.drv", &[HD])], &Pass::Headers(used));
    assert_eq!(left.len(), 1);
    assert_eq!(left[0].drv_path, "/nix/store/dddd-libd-1.0.drv");
}

#[test]
fn build_failure_does_not_touch_other_roots() {
    let x = RootRun {
        drv_path: s("/nix/store/x.drv"),
        pname: Some(s("x")),
        candidates: vec![cand("/nix/store/dddd-libd-1.0.drv", &[HD])],
        evidence: no_evidence(),
        outputs: None,
    };
    let y = RootRun {
        drv_path: s("/nix/store/y.drv"),
        pname: Some(s("y")),
        candidates: vec![cand("/nix/store/bbbb-libb-1.0.drv", &[HB]), cand("/nix/store/dddd-libd-1.0.drv", &[HD])],
        evidence: no_evidence(),
        outputs: Some(vec![binary_with(HB)]),
    };
    let out = scan_roots(vec![x, y], &settings(), &permitted_unused_deps());
    assert!(matches!(out[0], RootOutcome::BuildFailed));
    assert_eq!(ids(&out[1]), vec![s("/nix/store/dddd-libd-1.0.drv")]);
}

#[test]
fn link_target_reference_counts() {
    let c = cand("/nix/store/dddd-libd-1.0.drv", &[HD]);
    let target = format!("{}/lib/libd.so", HD).into_bytes();
    assert_eq!(apply_pass(vec![c], &Pass::Contents(target)).len(), 0);
}

#[test]
fn rescan_of_result_is_unchanged() {
    let passes = vec![Pass::Exempt(permitted_unused_deps()), Pass::Contents(binary_with(HB))];
    let first = run_passes(
        vec![cand("/nix/store/bbbb-libb-1.0.drv", &[HB]), cand("/nix/store/dddd-libd-1.0.drv", &[HD]), cand("/nix/store/cccc-gtest-1.0.drv", &[HC])],
        &passes,
    );
    let first_ids: Vec<String> = first.iter().map(|c| c.drv_path.clone()).collect();
    let again = run_passes(first, &passes);
    let again_ids: Vec<String> = again.iter().map(|c| c.drv_path.clone()).collect();
    assert_eq!(first_ids, vec![s("/nix/store/dddd-libd-1.0.drv")]);
    assert_eq!(again_ids, first_ids);
}

#[test]
fn monotone_narrowing_keeps_order() {
    let cs = vec![cand("/nix/store/1-a.drv", &[HB]), cand("/nix/store/2-b.drv", &[HD]), cand("/nix/store/3-c.drv", &[HG])];
    let left = apply_pass(cs, &Pass::Contents(binary_with(HD)));
    let names: Vec<String> = left.iter().map(|c| c.drv_path.clone()).collect();
    assert_eq!(names, vec![s("/nix/store/1-a.drv"), s("/nix/store/3-c.drv")]);
}

#[test]
fn exemption_patterns_match_by_regex() {
    let p = permitted_unused_deps();
    assert_eq!(p.len(), 12);
    assert!(is_exempted(&p, "/nix/store/cccc-gtest-1.0.drv"));
    assert!(is_exempted(&p, "/nix/store/xxxx-python3.11-pytest-7.4.drv"));
    assert!(is_exempted(&p, "/nix/store/xxxx-autoreconf-hook.drv"));
    assert!(is_exempted(&p, "/nix/store/xxxx-perl5.38.0-Foo.drv"));
    assert!(!is_exempted(&p, "/nix/store/xxxx-zlib-1.3.drv"));
    assert!(!is_exempted(&p, "/nix/store/xxxx-hooks-1.drv"));
}

#[test]
fn invalid_pattern_matches_nothing() {
    assert!(!is_exempted(&vec![s("(unclosed")], "(unclosed"));
    assert!(is_exempted(&vec![s("(unclosed"), s("clo")], "(unclosed"));
}

#[test]
fn skip_list_and_disabled_check() {
    let mut st = settings();
    st.skip = vec![s("a"), s("b")];
    assert!(matches!(precheck(&st, &Some(s("b"))), Some(RootOutcome::Skipped)));
    assert!(precheck(&st, &Some(s("c"))).is_none());
    assert!(precheck(&st, &None).is_none());
    st.skip_dep_usage_check = true;
    assert!(matches!(precheck(&st, &Some(s("c"))), Some(RootOutcome::NotChecked)));
    let run = RootRun {
        drv_path: s("/nix/store/a.drv"),
        pname: Some(s("a")),
        candidates: Vec::new(),
        evidence: no_evidence(),
        outputs: None,
    };
    assert!(matches!(scan_root(run, &st, &Vec::new()), RootOutcome::Skipped));
}

#[test]
fn manifest_shebang_and_object_passes() {
    let mut py = cand("/nix/store/1-requests.drv", &[HB]);
    py.pname = Some(s("requests"));
    let mut sh = cand("/nix/store/2-bash.drv", &[HD]);
    sh.provided_binaries = vec![s("bash"), s("sh")];
    let mut so = cand("/nix/store/3-zlib.drv", &[HG]);
    so.provided_shared_objects = vec![s("/nix/store/z/lib/libz.so.1")];
    let keep = cand("/nix/store/4-keep.drv", &[HC]);
    let mut st = settings();
    st.skip = Vec::new();
    let run = RootRun {
        drv_path: s("/nix/store/a.drv"),
        pname: None,
        candidates: vec![py, sh, so, keep],
        evidence: RootEvidence {
            used_headers: Vec::new(),
            used_py_deps: vec![s("requests")],
            used_shebangs: vec![s("sh")],
            used_shared_objects: vec![s("/nix/store/z/lib/libz.so.1")],
        },
        outputs: Some(Vec::new()),
    };
    assert_eq!(ids(&scan_root(run, &st, &Vec::new())), vec![s("/nix/store/4-keep.drv")]);
}

#[test]
fn disabled_passes_find_nothing() {
    let mut sh = cand("/nix/store/2-bash.drv", &[HD]);
    sh.provided_binaries = vec![s("sh")];
    let mut st = settings();
    st.check_shebangs = false;
    let run = RootRun {
        drv_path: s("/nix/store/a.drv"),
        pname: None,
        candidates: vec![sh],
        evidence: RootEvidence {
            used_headers: Vec::new(),
            used_py_deps: Vec::new(),
            used_shebangs: vec![s("sh")],
            used_shared_objects: Vec::new(),
        },
        outputs: Some(Vec::new()),
    };
    assert_eq!(ids(&scan_root(run, &st, &Vec::new())), vec![s("/nix/store/2-bash.drv")]);
}

#[test]
fn graph_lists_what_is_still_undescribed() {
    let root = drv("/nix/store/a.drv", &[], &["/nix/store/p.drv", "/nix/store/q.drv"], env(None, None, None, None));
    let mut g = DrvGraph::new();
    assert_eq!(g.to_describe(&root), vec![s("/nix/store/p.drv"), s("/nix/store/q.drv")]);
    g.insert(drv("/nix/store/p.drv", &["/nix/store/p"], &["/nix/store/p-dev.drv", "/nix/store/z.drv"], env(None, None, Some("p"), None)));
    assert_eq!(g.to_describe(&root), vec![s("/nix/store/p-dev.drv"), s("/nix/store/z.drv"), s("/nix/store/q.drv")]);
    g.insert(drv("/nix/store/p-dev.drv", &["/nix/store/p-dev"], &["/nix/store/w.drv"], env(None, None, Some("p"), None)));
    g.insert(drv("/nix/store/z.drv", &["/nix/store/z"], &["/nix/store/v.drv"], env(None, None, Some("z"), None)));
    g.insert(drv("/nix/store/q.drv", &["/nix/store/q"], &[], env(None, None, None, None)));
    assert_eq!(g.to_describe(&root), vec![s("/nix/store/w.drv")]);
}
