//! The project configuration and the project's directory layout.
use vstd::prelude::*;

use crate::text::{concat, has_prefix, starts_with};

verus! {

/// The `[project]` table of the configuration file.
pub struct Project {
    pub name: String,
    pub version: String,
    /// The compiler version.
    pub scala_version: String,
    /// The entry point that `run` starts, if any.
    pub main_class: Option<String>,
    /// External dependency coordinates, in order.
    pub dependencies: Vec<String>,
    /// Options passed to the compiler, in order.
    pub scalac_options: Vec<String>,
}

/// The configuration of a project.
pub struct SbConfig {
    pub project: Project,
}

/// `rel` joined below `root`, with one `/` between them.
pub open spec fn path_join(root: Seq<char>, rel: Seq<char>) -> Seq<char> {
    if root.len() == 0 {
        rel
    } else if root.last() == '/' {
        root + rel
    } else {
        root + "/"@ + rel
    }
}

/// `rel` joined below `root` (see `path_join`).
pub fn join_path(root: &str, rel: &str) -> (r: String)
    ensures
        r@ == path_join(root@, rel@),
{
    let n = root.unicode_len();
    if n == 0 {
        String::from_str(rel)
    } else if root.get_char(n - 1) == '/' {
        concat(root, rel)
    } else {
        let mut s = concat(root, "/");
        s.append(rel);
        s
    }
}

impl SbConfig {
    /// The directory holding the project's sources.
    pub fn source_dir(project_root: &str) -> (r: String)
        ensures
            r@ == path_join(project_root@, "src/main/scala"@),
    {
        join_path(project_root, "src/main/scala")
    }

    /// The output directory of the compiler.
    pub fn classes_dir(project_root: &str) -> (r: String)
        ensures
            r@ == path_join(project_root@, ".sb/classes"@),
    {
        join_path(project_root, ".sb/classes")
    }

    /// The directory of derived fingerprints.
    pub fn cache_dir(project_root: &str) -> (r: String)
        ensures
            r@ == path_join(project_root@, ".sb/cache"@),
    {
        join_path(project_root, ".sb/cache")
    }
}

/// Whether a compiler version is one this driver supports: a 3.x version.
pub fn is_supported_compiler(version: &str) -> (r: bool)
    ensures
        r == starts_with(version@, "3."@),
{
    has_prefix(version, "3.")
}

} // verus!
