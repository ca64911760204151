//! Joining of POSIX paths, held as text.
//!
//! The paths are those that `squeue` prints, and every system that runs it has POSIX paths. There
//! [`join`] gives what `std::path::Path::join` gives. Drive letters and backslashes have no meaning
//! here.
use vstd::prelude::*;
use vstd::string::{StrSliceExecFns, StringExecFns};

verus! {

/// A path is absolute when it starts with a slash.
pub open spec fn is_absolute(path: Seq<char>) -> bool {
    path.len() > 0 && path[0] == '/'
}

/// `path` as seen from the directory `base`: an absolute path stands for itself, any other is
/// put behind `base`, with one slash between them unless `base` is empty or brings its own.
pub open spec fn joined(base: Seq<char>, path: Seq<char>) -> Seq<char> {
    if is_absolute(path) {
        path
    } else if base.len() == 0 || base.last() == '/' {
        base + path
    } else {
        base.push('/') + path
    }
}

/// Joins `path` to the directory `base`.
pub fn join(base: &str, path: &str) -> (res: String)
    ensures
        res@ == joined(base@, path@),
        path@.len() > 0 && path@[0] == '/' ==> res@ == path@,
        (path@.len() == 0 || path@[0] != '/') && (base@.len() == 0 || base@.last() == '/')
            ==> res@ == base@ + path@,
        (path@.len() == 0 || path@[0] != '/') && base@.len() > 0 && base@.last() != '/' ==> res@
            == base@ + seq!['/'] + path@,
{
    if !path.is_empty() && path.get_char(0) == '/' {
        return path.to_owned();
    }
    let mut res = base.to_owned();
    let len = base.unicode_len();
    if len > 0 && base.get_char(len - 1) != '/' {
        res.push('/');
    }
    res.append(path);
    res
}

} // verus!
