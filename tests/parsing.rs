use nix_check_deps::derivation::{Derivation, DrvEnv, DrvGraph, DrvOutput};
use nix_check_deps::headers::{find_used_c_headers, include_header_of};
use nix_check_deps::nix::{build_args, eval_args, installable_of, requisite_drv_paths, requisites_args, show_args};
use nix_check_deps::objects::{is_linkable_object, is_object_mime};
use nix_check_deps::pyproject::find_used_pyproject_deps;
use nix_check_deps::shebang::{find_used_shebangs, shebang_program_of};
use nix_check_deps::source::{archive_kind, ArchiveKind};
use nix_check_deps::store::{get_store_hash, occurs_in};
use nix_check_deps::text::split_words;

fn s(x: &str) -> String {
    x.to_string()
}

fn header(line: &str) -> Option<String> {
    include_header_of(&line.chars().collect())
}

#[test]
fn words_split_on_any_whitespace() {
    assert_eq!(split_words("  a b\tc\n\u{a0}d  "), vec![s("a"), s("b"), s("c"), s("d")]);
    assert_eq!(split_words(""), Vec::<String>::new());
    assert_eq!(split_words(" \n\t "), Vec::<String>::new());
}

#[test]
fn env_fields_split_into_outputs() {
    let e = DrvEnv {
        build_inputs: Some(s("/nix/store/a /nix/store/b")),
        check_inputs: None,
        pname: Some(s("p")),
        propagated_build_inputs: Some(s("  /nix/store/c ")),
        src: None,
    };
    assert_eq!(e.get_build_inputs(), vec![s("/nix/store/a"), s("/nix/store/b")]);
    assert_eq!(e.get_check_inputs(), Vec::<String>::new());
    assert_eq!(e.get_propagated_build_inputs(), vec![s("/nix/store/c")]);
    assert_eq!(DrvOutput { path: s("/nix/store/o") }.path(), "/nix/store/o");
}

#[test]
fn store_hash_is_the_fingerprint() {
    assert_eq!(
        get_store_hash("/nix/store/0c7v9xq1lr1rmpjqmm4bbw8nldyd64sp-hello-2.12"),
        "0c7v9xq1lr1rmpjqmm4bbw8nldyd64sp"
    );
    assert_eq!(get_store_hash("abcdefghijklmnopqrstuvwxyz012345-x"), "abcdefghijklmnopqrstuvwxyz012345");
}

#[test]
fn substring_search() {
    assert!(occurs_in(&b"abc".to_vec(), &b"xxabcxx".to_vec()));
    assert!(occurs_in(&b"abc".to_vec(), &b"abc".to_vec()));
    assert!(!occurs_in(&b"abc".to_vec(), &b"ab".to_vec()));
    assert!(!occurs_in(&b"abd".to_vec(), &b"xxabcxx".to_vec()));
    assert!(occurs_in(&Vec::new(), &Vec::new()));
}

#[test]
fn include_lines() {
    assert_eq!(header("#include <foo/bar.h>"), Some(s("bar.h")));
    assert_eq!(header("  #  include \"x.h\" // note"), Some(s("x.h")));
    assert_eq!(header("#include<stdio.h>"), Some(s("stdio.h")));
    assert_eq!(header("#include <a/b/c.hpp>\r"), Some(s("c.hpp")));
    assert_eq!(header("#include <dir/>"), Some(s("")));
    assert_eq!(header("#includes <a.h>"), None);
    assert_eq!(header("#include <>"), None);
    assert_eq!(header("#include <a.h"), None);
    assert_eq!(header("int x; #include <a.h>"), None);
    assert_eq!(header(""), None);
}

#[test]
fn headers_across_files() {
    let files = vec![s("#include <a.h>\nint x;\n  #include \"sub/b.h\"\n"), s(""), s("#include <c.h>")];
    assert_eq!(find_used_c_headers(&files), vec![s("a.h"), s("b.h"), s("c.h")]);
}

#[test]
fn shebang_lines() {
    assert_eq!(shebang_program_of("#!/bin/sh\n"), Some(s("sh")));
    assert_eq!(shebang_program_of("#! /usr/bin/env python3\n"), Some(s("python3")));
    assert_eq!(shebang_program_of("#!/usr/bin/env  -S perl"), Some(s("-S")));
    assert_eq!(shebang_program_of("#!/nix/store/abc-bash-5.2/bin/bash -e\n"), Some(s("bash")));
    assert_eq!(shebang_program_of("#!/nix/store/x/bin/env perl"), Some(s("perl")));
    assert_eq!(shebang_program_of("#!/usr/bin/env\n"), Some(s("env")));
    assert_eq!(shebang_program_of("#!bin/sh"), None);
    assert_eq!(shebang_program_of("#!/opt/bin/sh"), None);
    assert_eq!(shebang_program_of("echo hi"), None);
    assert_eq!(shebang_program_of(""), None);
    assert_eq!(
        find_used_shebangs(&vec![s("#!/bin/sh\n"), s("x"), s("#!/usr/bin/python")]),
        vec![s("sh"), s("python")]
    );
}

#[test]
fn object_detection() {
    let mut elf = vec![0x7f, b'E', b'L', b'F'];
    elf.resize(64, 0);
    assert!(is_linkable_object(&elf));
    assert!(!is_linkable_object(&b"#!/bin/sh\necho hi\n".to_vec()));
    assert!(!is_linkable_object(&Vec::new()));
    assert!(is_object_mime(&Some(s("application/x-sharedlib"))));
    assert!(is_object_mime(&Some(s("application/x-executable"))));
    assert!(!is_object_mime(&Some(s("text/plain"))));
    assert!(!is_object_mime(&None));
}

#[test]
fn pyproject_names() {
    let text = s("[project]\nname = \"x\"\nversion = \"1.0\"\ndependencies = [\"requests>=2\"]\n\n[project.optional-dependencies]\ntest = [\"pytest\"]\n");
    let mut names = find_used_pyproject_deps(&Some(text));
    names.sort();
    assert_eq!(names, vec![s("pytest"), s("requests")]);
    assert_eq!(find_used_pyproject_deps(&Some(s("not toml ["))), Vec::<String>::new());
    assert_eq!(find_used_pyproject_deps(&Some(s("[tool.x]\na = 1\n"))), Vec::<String>::new());
    assert_eq!(find_used_pyproject_deps(&None), Vec::<String>::new());
}

#[test]
fn archive_formats() {
    assert!(matches!(archive_kind("/nix/store/x-src.tar.gz"), Some(ArchiveKind::Gzip)));
    assert!(matches!(archive_kind("a.tgz"), Some(ArchiveKind::Gzip)));
    assert!(matches!(archive_kind("a.tar.xz"), Some(ArchiveKind::Xz)));
    assert!(matches!(archive_kind("a.tar.bz2"), Some(ArchiveKind::Bzip2)));
    assert!(archive_kind("a.zip").is_none());
    assert!(archive_kind("gz").is_none());
}

#[test]
fn nix_command_lines() {
    assert_eq!(installable_of("/nix/store/a.drv"), "/nix/store/a.drv^*");
    assert_eq!(installable_of("nixpkgs#hello"), "nixpkgs#hello");
    assert_eq!(
        build_args("/nix/store/a.drv", &vec![s("--impure")]),
        vec![s("build"), s("/nix/store/a.drv^*"), s("--no-link"), s("--impure")]
    );
    assert_eq!(show_args("/nix/store/a.drv"), vec![s("derivation"), s("show"), s("/nix/store/a.drv^*")]);
    assert_eq!(
        eval_args("nixpkgs#hello", &Vec::new()),
        vec![s("eval"), s("nixpkgs#hello"), s("--apply"), s("attr: attr.drvPath"), s("--json")]
    );
    assert_eq!(requisites_args("/nix/store/a.drv"), vec![s("--query"), s("-R"), s("/nix/store/a.drv")]);
}

#[test]
fn requisite_listing() {
    let out = "/nix/store/a.drv\n/nix/store/b-src.tar.gz\n/nix/store/c.drv\r\n\n/nix/store/d.drv";
    assert_eq!(
        requisite_drv_paths(out),
        vec![s("/nix/store/a.drv"), s("/nix/store/c.drv"), s("/nix/store/d.drv")]
    );
    assert_eq!(requisite_drv_paths(""), Vec::<String>::new());
}

#[test]
fn source_recipe_lookup() {
    let plain = |p: &str, outs: &[&str], src: Option<&str>| Derivation {
        env: DrvEnv { build_inputs: None, check_inputs: None, pname: None, propagated_build_inputs: None, src: src.map(s) },
        outputs: outs.iter().map(|o| DrvOutput { path: s(o) }).collect(),
        input_drvs: Vec::new(),
        drv_path: s(p),
    };
    let mut g = DrvGraph::new();
    g.insert(plain("/nix/store/x.drv", &["/nix/store/x"], None));
    g.insert(plain("/nix/store/src.drv", &["/nix/store/src.tar.gz"], None));
    let mut root = plain("/nix/store/a.drv", &[], Some("/nix/store/src.tar.gz"));
    root.input_drvs = vec![s("/nix/store/x.drv"), s("/nix/store/src.drv")];
    assert_eq!(root.get_src_drv(&g), Some(1));
    root.env.src = Some(s("/nix/store/other"));
    assert_eq!(root.get_src_drv(&g), None);
    root.env.src = None;
    assert_eq!(root.get_src_drv(&g), None);
    assert!(root.matches_pname("") == false);
}
