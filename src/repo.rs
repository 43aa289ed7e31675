use vstd::prelude::*;
use vstd::string::*;

verus! {

/// Path of the marker entry (`.git`, the entry whose presence marks a
/// repository) directly under `dir`, joined the way a path
/// component is pushed: a separator is added unless `dir` is empty or already
/// ends with one.
pub open spec fn marker_path_of(dir: Seq<char>) -> Seq<char> {
    if dir.len() == 0 || dir.last() == '/' {
        dir + ".git"@
    } else {
        dir + "/"@ + ".git"@
    }
}

/// The path of the marker entry for the directory `dir`.
pub fn marker_path(dir: &str) -> (r: String)
    ensures
        r@ == marker_path_of(dir@),
{
    let n = dir.unicode_len();
    let mut r = String::from_str(dir);
    if n > 0 && dir.get_char(n - 1) != '/' {
        r.append("/");
    }
    r.append(".git");
    r
}

/// Relies on std::path::Path::exists: whether something is on disk at `p`.
/// The answer depends on the filesystem, so nothing is promised of it.
#[verifier::external_body]
fn path_exists(p: &str) -> (r: bool) {
    std::path::Path::new(p).exists()
}

/// Whether `path` is a git checkout: its marker entry exists on disk.
/// A missing or unreadable path is not an error; it is simply no repository.
pub fn is_git_repo(path: &str) -> (r: bool) {
    let marker = marker_path(path);
    path_exists(marker.as_str())
}

/// The directory to scan: the one given on the command line, or else the
/// current working directory.
pub fn resolve_root(given: Option<String>, current_dir: String) -> (r: String)
    ensures
        given is Some ==> r@ == given->0@,
        given is None ==> r@ == current_dir@,
{
    match given {
        Some(root) => root,
        None => current_dir,
    }
}

} // verus!
