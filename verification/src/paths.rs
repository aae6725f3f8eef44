//! Paths: the file name shown on a tab and the directory a command runs in.
//!
//! How a path is taken apart depends on the system: only Windows knows drives, shares and the
//! backslash as a separator. What is stated here holds on Windows and on Unix.

use vstd::prelude::*;

verus! {

/// Whether `part` stands in `whole` without a gap.
pub open spec fn part_of(part: Seq<char>, whole: Seq<char>) -> bool {
    exists|i: int, j: int| 0 <= i <= j <= whole.len() && part == #[trigger] whole.subrange(i, j)
}

/// Whether Windows, or else Unix, takes `c` for a separator.
pub open spec fn separates(c: char, windows: bool) -> bool {
    c == '/' || windows && c == '\\'
}

/// Whether some system takes `c` for a separator.
pub open spec fn is_separator(c: char) -> bool {
    separates(c, true)
}

/// Whether `path` starts as the path of a share does.
pub open spec fn names_share(path: Seq<char>) -> bool {
    path.len() >= 2 && is_separator(path[0]) && is_separator(path[1])
}

/// Whether every system takes `name` for the name of a file: it is not empty, has no separator
/// and no colon, and is neither the current directory nor the one above.
pub open spec fn ordinary_name(name: Seq<char>) -> bool {
    &&& name.len() > 0
    &&& !name.contains('/')
    &&& !name.contains('\\')
    &&& !name.contains(':')
    &&& name != seq!['.']
    &&& name != seq!['.', '.']
}

/// Whether the last component of `path`, where both separators count, is an ordinary name that
/// starts at `k`.
pub open spec fn name_starts_at(path: Seq<char>, k: int) -> bool {
    &&& !names_share(path)
    &&& 0 <= k < path.len()
    &&& k == 0 || is_separator(path[k - 1])
    &&& ordinary_name(path.skip(k))
}

/// Whether what follows the last slash of `path`, or all of a path without one, starts at `j`.
pub open spec fn follows_last_slash(path: Seq<char>, j: int) -> bool {
    &&& 0 <= j <= path.len()
    &&& j == 0 || path[j - 1] == '/'
    &&& !path.skip(j).contains('/')
}

/// Whether `name` can be what a system takes for the file name of a path that ends in an ordinary
/// name from `k` on. It is that name; or, where the path has a backslash, which Unix takes for a
/// part of a name, it is what follows the last slash.
pub open spec fn fits_name(path: Seq<char>, k: int, name: Seq<char>) -> bool {
    ||| name == path.skip(k)
    ||| path.contains('\\') && exists|j: int| #[trigger]
        follows_last_slash(path, j) && name == path.skip(j)
}

/// Whether the first `n` characters of `path` end in the component `.`, with something before it:
/// a separator or, on Windows, the colon of a drive.
pub open spec fn ends_in_dot(path: Seq<char>, n: int, windows: bool) -> bool {
    n >= 2 && path[n - 1] == '.' && (separates(path[n - 2], windows) || windows && path[n - 2]
        == ':')
}

/// Whether `dir` can be what Windows, or else Unix, takes for the directory of a path whose last
/// component is a name from `k` on. It is a beginning of the path that ends before the name.
/// Before a name right below the root it is the root; else it is what stands before the
/// separator, if that does not end in another separator or in the component `.`. The root of a
/// drive keeps its separator on Windows.
pub open spec fn directory_before(path: Seq<char>, k: int, dir: Seq<char>, windows: bool) -> bool {
    &&& dir.is_prefix_of(path.take(k))
    &&& k == 1 ==> dir == path.take(1)
    &&& k >= 2 && !separates(path[k - 2], windows) && !ends_in_dot(path, k - 1, windows) ==> {
        ||| dir == path.take(k - 1)
        ||| windows && k == 3 && path[1] == ':' && dir == path.take(3)
    }
}

/// Whether `dir` can be what a system takes for the directory of a path that ends in an ordinary
/// name from `k` on. Where the path has a backslash, Unix may see a longer name.
pub open spec fn fits_directory(path: Seq<char>, k: int, dir: Seq<char>) -> bool {
    ||| directory_before(path, k, dir, true)
    ||| path.contains('\\') && exists|j: int| #[trigger]
        follows_last_slash(path, j) && directory_before(path, j, dir, false)
}

/// Whether `path` is empty or the root, which have no directory on any system.
pub open spec fn has_no_parent(path: Seq<char>) -> bool {
    path.len() == 0 || path == seq!['/']
}

/// Whether `path` has a directory on every system, if only the empty one: it does not start as a
/// share does, and does not end in a separator, in the colon of a drive, or in a component `.`
/// that could stand behind a root.
pub open spec fn has_parent(path: Seq<char>) -> bool {
    &&& !names_share(path)
    &&& path.len() > 0
    &&& !is_separator(path.last())
    &&& path.last() != ':'
    &&& !ends_in_dot(path, path.len() as int, true)
}

/// Whether `name` can be what a system takes for the file name of `path`, where the empty text
/// stands for none.
pub open spec fn is_file_name(path: Seq<char>, name: Seq<char>) -> bool {
    &&& part_of(name, path)
    &&& forall|k: int| #[trigger] name_starts_at(path, k) ==> fits_name(path, k, name)
}

/// Whether `dir` can be what a system takes for the directory of `path`, where the empty text
/// stands for none.
pub open spec fn is_directory(path: Seq<char>, dir: Seq<char>) -> bool {
    &&& dir.is_prefix_of(path)
    &&& dir.len() == 0 || dir.len() < path.len()
    &&& forall|k: int| #[trigger] name_starts_at(path, k) ==> fits_directory(path, k, dir)
}

/// Calls `std::path::Path::file_name`, which gives the last component of a path if that is a
/// name. Claimed: the name is a part of the path that is not empty; and a path that ends in an
/// ordinary name has one, of which `fits_name` holds. Left unsaid is where a system finds the
/// last component of another path: that differs between systems.
#[verifier::external_body]
fn path_file_name(path: &str) -> (name: Option<String>)
    ensures
        name matches Some(n) ==> n@.len() > 0 && part_of(n@, path@),
        forall|k: int| #[trigger]
            name_starts_at(path@, k) ==> name is Some && fits_name(path@, k, name.unwrap()@),
{
    std::path::Path::new(path).file_name().map(|n| n.to_string_lossy().to_string())
}

/// Calls `std::path::Path::parent`, which gives a path without its last component. Claimed: it
/// is a beginning of the path and shorter; the empty path and the root have none; a path of which
/// `has_parent` holds has one; and so has a path that ends in an ordinary name, and
/// `fits_directory` holds of it. Left unsaid is what a system does with another path: that differs
/// between systems.
#[verifier::external_body]
pub(crate) fn path_parent(path: &str) -> (dir: Option<String>)
    ensures
        dir matches Some(d) ==> d@.is_prefix_of(path@) && d@.len() < path@.len(),
        has_no_parent(path@) ==> dir is None,
        has_parent(path@) ==> dir is Some,
        forall|k: int| #[trigger]
            name_starts_at(path@, k) ==> dir is Some && fits_directory(path@, k, dir.unwrap()@),
{
    std::path::Path::new(path).parent().map(|d| d.to_string_lossy().to_string())
}

/// A text that may be missing, as text.
pub open spec fn text_or_empty(text: Option<String>) -> Seq<char> {
    match text {
        Some(t) => t@,
        None => Seq::empty(),
    }
}

/// The text itself, or the empty text where there is none.
pub fn or_empty(text: Option<String>) -> (t: String)
    ensures
        t@ == text_or_empty(text),
{
    match text {
        Some(t) => t,
        None => String::new(),
    }
}

/// The directory a parent stands for: the parent itself, or the current directory where there is
/// none.
pub open spec fn parent_or_current(parent: Option<String>) -> Seq<char> {
    match parent {
        Some(p) => p@,
        None => "."@,
    }
}

/// The parent itself, or the current directory where there is none.
pub fn or_current(parent: Option<String>) -> (dir: String)
    ensures
        dir@ == parent_or_current(parent),
{
    match parent {
        Some(p) => p,
        None => ".".to_owned(),
    }
}

/// The file name of `path`, empty where the path does not end in a name.
pub fn file_name(path: &str) -> (name: String)
    ensures
        is_file_name(path@, name@),
{
    let name = or_empty(path_file_name(path));
    proof {
        if name@.len() == 0 {
            assert(name@ =~= path@.subrange(0, 0));
        }
    }
    name
}

/// The directory of `path`, empty where it has none.
pub fn directory(path: &str) -> (dir: String)
    ensures
        is_directory(path@, dir@),
{
    or_empty(path_parent(path))
}

} // verus!
