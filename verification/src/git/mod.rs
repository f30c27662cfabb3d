//! Git repositories found in the projects directory.
use vstd::prelude::*;
use crate::paths::{file_name, file_name_exec, join, join_exec};
use crate::text::{to_chars, string_of};

verus! {

/// Info about a git repository discovered in the projects directory.
pub struct RepoInfo {
    pub path: String,
    pub name: String,
    pub branch: Option<String>,
    pub has_uncommitted: bool,
    pub last_commit_time: Option<i64>,
}

/// A repository's name: the file name of its directory, else `unknown`.
pub open spec fn repo_name_of(path: Seq<char>) -> Seq<char> {
    match file_name(path) {
        Some(n) => n,
        None => "unknown"@,
    }
}

/// The name of the repository at `path`.
pub fn repo_name(path: &str) -> (r: String)
    ensures
        r@ == repo_name_of(path@),
{
    match file_name_exec(path) {
        Some(n) => n,
        None => string_of(&to_chars("unknown")),
    }
}

/// The git paths of a project directory: its `.git` directory, the
/// `.git/refs` tree and the `.git/HEAD` file.
pub struct GitPaths {
    pub git_dir: String,
    pub refs: String,
    pub head: String,
}

/// The git paths of the project directory `project`, as plain values.
pub open spec fn git_paths_of(project: Seq<char>) -> (Seq<char>, Seq<char>, Seq<char>) {
    let g = join(project, ".git"@);
    (g, join(g, "refs"@), join(g, "HEAD"@))
}

/// Where a project's repository lives: a project directory is a
/// repository when its `.git` exists, and the daemon watches its
/// `.git/refs` tree and `.git/HEAD` file for ref changes.
pub fn git_paths(project: &str) -> (r: GitPaths)
    ensures
        (r.git_dir@, r.refs@, r.head@) == git_paths_of(project@),
{
    let git_dir = join_exec(project, ".git");
    let refs = join_exec(git_dir.as_str(), "refs");
    let head = join_exec(git_dir.as_str(), "HEAD");
    GitPaths { git_dir, refs, head }
}

} // verus!
