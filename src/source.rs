use vstd::prelude::*;

use crate::derivation::{all_out_paths, Derivation, DrvGraph};
use crate::nix::{ends_with, text_ends_with};
use crate::text::{chars_of, contains_text};

verus! {

/// The compressed tarball formats that a fetched source can have.
pub enum ArchiveKind {
    Gzip,
    Xz,
    Bzip2,
}

/// The format of a source archive, by the suffix of its path.
pub open spec fn archive_kind_of(p: Seq<char>) -> Option<ArchiveKind> {
    if ends_with(p, ".tar.gz"@) || ends_with(p, ".tgz"@) {
        Some(ArchiveKind::Gzip)
    } else if ends_with(p, ".tar.xz"@) {
        Some(ArchiveKind::Xz)
    } else if ends_with(p, ".tar.bz2"@) {
        Some(ArchiveKind::Bzip2)
    } else {
        None
    }
}

/// The format of the source archive at `path`, or none when it is not a
/// recognised tarball.
pub fn archive_kind(path: &str) -> (r: Option<ArchiveKind>)
    ensures
        r == archive_kind_of(path@),
{
    let gz = chars_of(".tar.gz");
    let tgz = chars_of(".tgz");
    let xz = chars_of(".tar.xz");
    let bz2 = chars_of(".tar.bz2");
    if text_ends_with(path, &gz) || text_ends_with(path, &tgz) {
        Some(ArchiveKind::Gzip)
    } else if text_ends_with(path, &xz) {
        Some(ArchiveKind::Xz)
    } else if text_ends_with(path, &bz2) {
        Some(ArchiveKind::Bzip2)
    } else {
        None
    }
}

/// The `k`-th input of `d` is described and produces `src`.
pub open spec fn provides_src(g: DrvGraph, d: Derivation, k: int, src: Seq<char>) -> bool {
    g.has(d.input_drvs@[k]@) && all_out_paths(g, g.node(d.input_drvs@[k]@)).contains(src)
}

impl Derivation {
    /// The position in `graph` of the first input recipe of this recipe that
    /// produces its `src`; none when it has no `src` or no input produces it.
    pub fn get_src_drv(&self, graph: &DrvGraph) -> (r: Option<usize>)
        requires
            graph.wf(),
        ensures
            self.env.src is None ==> r is None,
            self.env.src is Some ==> (r is None <==> forall|k: int|
                0 <= k < self.input_drvs@.len() ==> !#[trigger] provides_src(
                    *graph,
                    *self,
                    k,
                    self.env.src->0@,
                )),
            r matches Some(j) ==> self.env.src is Some && exists|k: int|
                0 <= k < self.input_drvs@.len() && #[trigger] provides_src(
                    *graph,
                    *self,
                    k,
                    self.env.src->0@,
                ) && j == graph.index_of(self.input_drvs@[k]@) && forall|m: int|
                    0 <= m < k ==> !provides_src(*graph, *self, m, self.env.src->0@),
    {
        let src = match &self.env.src {
            Some(s) => s,
            None => {
                return None;
            },
        };
        let mut k: usize = 0;
        while k < self.input_drvs.len()
            invariant
                graph.wf(),
                self.env.src == Some(*src),
                k <= self.input_drvs@.len(),
                forall|m: int| 0 <= m < k ==> !#[trigger] provides_src(*graph, *self, m, src@),
            decreases self.input_drvs.len() - k,
        {
            match graph.find(self.input_drvs[k].as_str()) {
                Some(j) => {
                    let outs = graph.drvs[j].get_out_paths(graph);
                    if contains_text(&outs, src.as_str()) {
                        assert(provides_src(*graph, *self, k as int, src@));
                        assert(self.env.src->0@ == src@);
                        assert(provides_src(*graph, *self, k as int, self.env.src->0@));
                        assert(j == graph.index_of(self.input_drvs@[k as int]@));
                        assert(exists|kk: int|
                            0 <= kk < self.input_drvs@.len() && #[trigger] provides_src(
                                *graph,
                                *self,
                                kk,
                                src@,
                            ) && j == graph.index_of(self.input_drvs@[kk]@) && forall|m: int|
                                0 <= m < kk ==> !provides_src(*graph, *self, m, src@));
                        return Some(j);
                    }
                },
                None => {},
            }
            k = k + 1;
        }
        None
    }
}

} // verus!
