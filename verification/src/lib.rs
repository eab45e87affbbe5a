use vstd::prelude::*;

pub mod text;
pub mod trim;
pub mod args;
pub mod install;
pub mod json;
pub mod lua;
pub mod outcome;
pub mod paths;
pub mod probe;
pub mod provenance;
pub mod refs;
pub mod run;
pub mod scaffold;
pub mod sortedset;
pub mod spawn;
pub mod strmap;
pub mod version;

verus! {

/// The crate version, so `main` and tests share one source of truth.
pub fn version() -> (v: &'static str)
    ensures
        v@ == "0.1.0"@,
{
    "0.1.0"
}

} // verus!
