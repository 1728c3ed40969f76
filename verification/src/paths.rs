//! Locating model and metadata files given on the command line.

use vstd::prelude::*;
use crate::text::chars_of;

verus! {

/// Whether a Unix path is absolute.
pub open spec fn spec_is_absolute(p: Seq<char>) -> bool {
    p.len() > 0 && p[0] == '/'
}

/// `p` appended to `base` as `PathBuf::push` does on Unix: an absolute `p`
/// replaces `base`; otherwise a separator is added unless `base` is empty or
/// already ends with one.
pub open spec fn spec_join(base: Seq<char>, p: Seq<char>) -> Seq<char> {
    if spec_is_absolute(p) {
        p
    } else if base.len() > 0 && base.last() != '/' {
        base + seq!['/'] + p
    } else {
        base + p
    }
}

/// Whether `p` is an absolute path.
pub fn is_absolute(p: &str) -> (r: bool)
    ensures
        r == spec_is_absolute(p@),
{
    let v = chars_of(p);
    v.len() > 0 && v[0] == '/'
}

/// `p` relative to `base` (or `p` itself when absolute).
pub fn join_path(base: &str, p: &str) -> (r: String)
    ensures
        r@ == spec_join(base@, p@),
{
    if is_absolute(p) {
        return p.to_owned();
    }
    let b = chars_of(base);
    let mut out = base.to_owned();
    if b.len() > 0 && b[b.len() - 1] != '/' {
        proof {
            reveal_strlit("/");
        }
        out.append("/");
    }
    out.append(p);
    out
}

/// Which of the places a relative path may be found at exist on disk.
#[derive(Debug, Clone, Copy, PartialEq, Eq, Structural)]
pub struct PathProbes {
    /// The path as given, relative to the working directory.
    pub path_exists: bool,
    /// The path relative to the tool's own directory.
    pub manifest_relative_exists: bool,
    /// The path relative to the parent of the tool's directory.
    pub repo_relative_exists: bool,
}

/// Where a path given on the command line is looked for: as given when it
/// is absolute or exists, else relative to the tool's directory, else
/// relative to the directory above it, and as given when none exists.
pub open spec fn spec_resolve_path(
    path: Seq<char>,
    manifest_dir: Seq<char>,
    repo_root: Option<Seq<char>>,
    probes: PathProbes,
) -> Seq<char> {
    if spec_is_absolute(path) || probes.path_exists {
        path
    } else if probes.manifest_relative_exists {
        spec_join(manifest_dir, path)
    } else if repo_root is Some && probes.repo_relative_exists {
        spec_join(repo_root->0, path)
    } else {
        path
    }
}

/// The places `resolve_path` looks at, in order: the path itself, the path
/// relative to `manifest_dir`, and, when there is one, relative to
/// `repo_root`.
pub fn path_candidates(path: &str, manifest_dir: &str, repo_root: Option<&str>) -> (c: Vec<String>)
    ensures
        c@.len() == (if repo_root is Some {
            3int
        } else {
            2int
        }),
        c@[0]@ == path@,
        c@[1]@ == spec_join(manifest_dir@, path@),
        repo_root matches Some(r) ==> c@[2]@ == spec_join(r@, path@),
{
    let mut c: Vec<String> = Vec::new();
    c.push(path.to_owned());
    c.push(join_path(manifest_dir, path));
    match repo_root {
        Some(r) => c.push(join_path(r, path)),
        None => {},
    }
    c
}

/// Resolves a path given on the command line from what exists on disk.
pub fn resolve_path(path: &str, manifest_dir: &str, repo_root: Option<&str>, probes: PathProbes) -> (r:
    String)
    ensures
        r@ == spec_resolve_path(
            path@,
            manifest_dir@,
            match repo_root {
                Some(s) => Some(s@),
                None => None,
            },
            probes,
        ),
        spec_is_absolute(path@) || probes.path_exists ==> r@ == path@,
        !spec_is_absolute(path@) && !probes.path_exists && probes.manifest_relative_exists ==> r@
            == spec_join(manifest_dir@, path@),
        !spec_is_absolute(path@) && !probes.path_exists && !probes.manifest_relative_exists ==> (
        match repo_root {
            Some(root) => r@ == (if probes.repo_relative_exists {
                spec_join(root@, path@)
            } else {
                path@
            }),
            None => r@ == path@,
        }),
{
    if is_absolute(path) || probes.path_exists {
        return path.to_owned();
    }
    if probes.manifest_relative_exists {
        return join_path(manifest_dir, path);
    }
    match repo_root {
        Some(root) => {
            if probes.repo_relative_exists {
                return join_path(root, path);
            }
        },
        None => {},
    }
    path.to_owned()
}

/// The model to load: the one given on the command line, else the slimmed
/// model named by the metadata, else the metadata's model.
pub fn select_model_path(
    from_args: Option<String>,
    slim_from_metadata: Option<String>,
    from_metadata: String,
) -> (r: String)
    ensures
        r == (match from_args {
            Some(a) => a,
            None => match slim_from_metadata {
                Some(s) => s,
                None => from_metadata,
            },
        }),
{
    match from_args {
        Some(a) => a,
        None => match slim_from_metadata {
            Some(s) => s,
            None => from_metadata,
        },
    }
}

} // verus!
