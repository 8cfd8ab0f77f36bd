//! Where the repositories are kept.

use crate::crypto::base58_text;
use crate::identity::Id;
use crate::storage::git::Storage;
use vstd::prelude::*;
use vstd::string::*;

verus! {

/// The path of `name` below the directory `base`: `name` itself if it
/// starts at the root or `base` is empty, else `base` and `name` with one
/// slash between them.
pub open spec fn joined(base: Seq<char>, name: Seq<char>) -> Seq<char> {
    if name.len() > 0 && name[0] == '/' {
        name
    } else if base.len() == 0 {
        name
    } else if base.last() == '/' {
        base + name
    } else {
        base + seq!['/'] + name
    }
}

/// The path of `name` below the directory `base`.
pub fn join(base: &str, name: &str) -> (path: String)
    ensures
        path@ == joined(base@, name@),
{
    let n: usize = name.unicode_len();
    let b: usize = base.unicode_len();
    if n > 0 && name.get_char(0) == '/' {
        return String::from_str(name);
    }
    if b == 0 {
        return String::from_str(name);
    }
    let mut path = String::from_str(base);
    if base.get_char(b - 1) != '/' {
        proof {
            reveal_strlit("/");
            assert("/"@ =~= seq!['/']);
        }
        path.append("/");
    }
    path.append(name);
    path
}

/// The directory of the repository of a project: the directory of storage
/// with the text form of the project identifier below it.
pub fn repository(storage: &Storage, proj: &Id) -> (path: String)
    ensures
        path@ == joined(storage.path@, base58_text(proj@)),
{
    let name = proj.to_human();
    join(storage.path(), name.as_str())
}

} // verus!
