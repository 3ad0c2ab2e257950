//! Module location resolution, mirroring the loader's search order: the
//! preferred search directory first, then the standard executable search
//! path.  The file-system probes come from the `which` crate; the order in
//! which their outcomes are combined is verified.

use vstd::prelude::*;

verus! {

/// The search-order decision: the preferred directory's result wins
/// whenever it exists; the search-path result is only ever used when the
/// preferred directory yielded nothing.
pub fn pick_first(preferred: Option<String>, fallback: Option<String>) -> (r: Option<String>)
    ensures
        (preferred is Some) ==> r == preferred,
        (preferred is None) ==> r == fallback,
{
    match preferred {
        Option::Some(p) => Option::Some(p),
        Option::None => fallback,
    }
}

/// Relies on which::which_in: for a bare name, the first executable file
/// named `name` inside the directory `dir`; for a path, the path itself
/// when it points at an executable file.  What it returns depends on the
/// file system, so nothing is promised of the value.
#[verifier::external_body]
fn probe_in_dir(name: &str, dir: &str) -> (r: Option<String>) {
    match which::which_in(name, Some(dir), "") {
        Ok(p) => Some(p.to_string_lossy().into_owned()),
        Err(_) => None,
    }
}

/// Relies on which::which: for a bare name, the first executable file
/// named `name` on the process's standard executable search path; for a
/// path, the path itself when it points at an executable file.  What it
/// returns depends on the environment, so nothing is promised of the
/// value.
#[verifier::external_body]
fn probe_on_path(name: &str) -> (r: Option<String>) {
    match which::which(name) {
        Ok(p) => Some(p.to_string_lossy().into_owned()),
        Err(_) => None,
    }
}

/// Resolve a module name to a location: try the preferred search directory
/// `dir`, and only if that yields nothing, the standard executable search
/// path.  First match wins.
pub fn find_location(name: &str, dir: &str) -> (r: Option<String>) {
    let preferred = probe_in_dir(name, dir);
    let fallback = if preferred.is_some() {
        Option::None
    } else {
        probe_on_path(name)
    };
    pick_first(preferred, fallback)
}

} // verus!
