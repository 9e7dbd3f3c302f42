//! Finds the declared build inputs of a package that its built outputs and
//! sources never use.
//!
//! A recipe's direct dependencies are classified into candidates
//! (`derivation`), exempted by pattern (`allow`), and narrowed by evidence
//! passes (`scan`): included headers (`headers`), shebang interpreters
//! (`shebang`), project manifests (`pyproject`), linked shared objects
//! (`objects`) and store fingerprints in the built outputs (`store`). What
//! is left is reported as unused. `laws` states the properties of the whole.

pub mod allow;
pub mod derivation;
pub mod headers;
pub mod laws;
pub mod nix;
pub mod objects;
pub mod pyproject;
pub mod scan;
pub mod shebang;
pub mod source;
pub mod store;
pub mod text;
