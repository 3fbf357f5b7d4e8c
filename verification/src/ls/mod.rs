//! The library side of `ls`: its command line, glob detection, hidden
//! files, sizes and the ordering of entries.
use vstd::prelude::*;
use crate::text::{chars_of, file_name_of, path_file_name};

pub mod options;
pub mod names;

verus! {

/// `*` or `?` anywhere, or a `[` that something follows, makes a glob.
pub open spec fn has_glob_magic_spec(p: Seq<char>) -> bool {
    exists|i: int| 0 <= i < p.len() && (p[i] == '*' || p[i] == '?' || (p[i] == '[' && i + 1 < p.len()))
}

/// Whether an operand is a glob to be expanded.
pub fn has_glob_magic(pattern: &str) -> (r: bool)
    ensures
        r == has_glob_magic_spec(pattern@),
{
    let v = chars_of(pattern);
    let mut i: usize = 0;
    while i < v.len()
        invariant
            i <= v.len(),
            v@ == pattern@,
            forall|j: int| 0 <= j < i ==> !(v@[j] == '*' || v@[j] == '?' || (v@[j] == '[' && j + 1 < v@.len())),
        decreases v.len() - i,
    {
        let c = v[i];
        if c == '*' || c == '?' || (c == '[' && i + 1 < v.len()) {
            return true;
        }
        i += 1;
    }
    false
}

/// A file is hidden when its name starts with `.`.
pub open spec fn is_hidden_name(path: Seq<char>) -> bool {
    match file_name_of(path) {
        Some(n) => n.len() > 0 && n[0] == '.',
        None => false,
    }
}

/// The attributes of a file as this system knows them: hidden, system and
/// read-only. A name that starts with `.` is hidden; the other two do not
/// exist here.
pub fn get_file_attributes(path: &str) -> (r: (bool, bool, bool))
    ensures
        r == (is_hidden_name(path@), false, false),
{
    let name = match path_file_name(path) {
        Some(n) => chars_of(n.as_str()),
        None => Vec::new(),
    };
    (name.len() > 0 && name[0] == '.', false, false)
}

} // verus!
