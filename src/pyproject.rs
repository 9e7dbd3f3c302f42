use vstd::prelude::*;

use crate::text::views;

verus! {

/// The names of the optional, then the required, dependencies that the
/// `[project]` table of a `pyproject.toml` text lists; none when the text does
/// not parse or has no such table.
pub uninterp spec fn pyproject_names(text: Seq<char>) -> Seq<Seq<char>>;

/// Relies on `pyproject_toml::PyProjectToml::new`, which parses the manifest
/// text, and on the `name` of each requirement that it yields.
#[verifier::external_body]
fn pyproject_dependency_names(text: &str) -> (r: Vec<String>)
    ensures
        views(r@) == pyproject_names(text@),
{
    match pyproject_toml::PyProjectToml::new(text).ok().and_then(|p| p.project) {
        Some(proj) => proj.optional_dependencies.into_iter().flat_map(|m| m.into_values()).flatten()
            .chain(proj.dependencies.into_iter().flatten()).map(|r| r.name.to_string()).collect(),
        None => Vec::new(),
    }
}

/// The dependency names that the project manifest of a source tree lists;
/// none when the tree has no manifest.
pub fn find_used_pyproject_deps(manifest: &Option<String>) -> (r: Vec<String>)
    ensures
        views(r@) == match *manifest {
            Some(t) => pyproject_names(t@),
            None => Seq::empty(),
        },
{
    match manifest {
        Some(t) => pyproject_dependency_names(t.as_str()),
        None => {
            let r: Vec<String> = Vec::new();
            assert(views(r@) =~= Seq::<Seq<char>>::empty());
            r
        },
    }
}

} // verus!
