//! Verified core of a native-binary dependency walker.
//!
//! The library turns the textual report of an external binary-analysis
//! utility into a deduplicated dependency tree.  It parses the report,
//! classifies modules against a system-filter policy, decides the
//! file-system search order, and drives the recursive resolution as a
//! verified state machine.  All input/output (spawning the utility,
//! probing the file system) is performed by the embedding program, which
//! exchanges plain events and actions with the machine.

pub mod classify;
pub mod laws;
pub mod locate;
pub mod machine;
pub mod node;
pub mod parse;
pub mod text;

pub use classify::{classify_name, classify_path, Classification, SkipReason};
pub use locate::{find_location, pick_first};
pub use machine::{Action, Event, GraphResolver, ResolveError};
pub use node::{DependencyNode, NodeStatus};
pub use parse::extract_deps;
pub use text::str_chars;
