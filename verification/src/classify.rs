//! Verified system-module filter policy.
//!
//! Two independent, advisory filters decide whether a module is "system"
//! noise: a name filter that recognises well-known forwarding-stub name
//! prefixes before any file-system probing, and a path filter that
//! recognises resolved locations inside the system binary directory or a
//! platform SDK tree.  Both are disabled by the show-system override.

use vstd::prelude::*;

use crate::text::{contains_ci, contains_ci_x, starts_with_ci, starts_with_ci_x, str_chars};

verus! {

/// Why a module was suppressed from the graph.
#[derive(Clone, Copy, PartialEq, Eq, Structural, Debug)]
pub enum SkipReason {
    /// The bare name carries a well-known system-stub prefix.
    NamePattern,
    /// The resolved location lies inside a well-known system directory.
    PathPattern,
}

/// Outcome of evaluating a module against the filter policy.
#[derive(Clone, Copy, PartialEq, Eq, Structural, Debug)]
pub enum Classification {
    /// The module stays in the graph.
    Accept,
    /// The module is suppressed: not resolved further, not recursed into,
    /// and not added to the output tree.
    Skip(SkipReason),
}

/// A name beginning with either well-known system-stub prefix is filtered
/// before its location is ever probed.
pub open spec fn is_system_name(name: Seq<char>) -> bool {
    starts_with_ci(name, "api-ms-"@) || starts_with_ci(name, "ext-ms-"@)
}

/// A location inside the system binary directory or a platform SDK tree is
/// filtered once it is known.
pub open spec fn is_system_path(path: Seq<char>) -> bool {
    contains_ci(path, "windows\\system32"@) || contains_ci(path, "windows kits"@)
}

/// Name filter: applied to the bare reported name, before resolution.
pub fn classify_name(name: &str, show_system: bool) -> (c: Classification)
    ensures
        c == (if !show_system && is_system_name(name@) {
            Classification::Skip(SkipReason::NamePattern)
        } else {
            Classification::Accept
        }),
{
    if show_system {
        return Classification::Accept;
    }
    let cs: Vec<char> = str_chars(name);
    let p1: Vec<char> = str_chars("api-ms-");
    let p2: Vec<char> = str_chars("ext-ms-");
    if starts_with_ci_x(&cs, &p1) || starts_with_ci_x(&cs, &p2) {
        Classification::Skip(SkipReason::NamePattern)
    } else {
        Classification::Accept
    }
}

/// Path filter: applied to the resolved location.
pub fn classify_path(path: &str, show_system: bool) -> (c: Classification)
    ensures
        c == (if !show_system && is_system_path(path@) {
            Classification::Skip(SkipReason::PathPattern)
        } else {
            Classification::Accept
        }),
{
    if show_system {
        return Classification::Accept;
    }
    let cs: Vec<char> = str_chars(path);
    let n1: Vec<char> = str_chars("windows\\system32");
    let n2: Vec<char> = str_chars("windows kits");
    if contains_ci_x(&cs, &n1) || contains_ci_x(&cs, &n2) {
        Classification::Skip(SkipReason::PathPattern)
    } else {
        Classification::Accept
    }
}

} // verus!
