//! A directory of attribute files as read from a pseudo-filesystem, held in
//! memory, and the reading of text and numbers from it.

use crate::text::{chars_of, decimal_u64, parse_u64, string_of, trim, trimmed};
use vstd::prelude::*;

verus! {

/// One readable file of a directory: its name and its whole content.
pub struct FileEntry {
    pub name: String,
    pub content: String,
}

/// The readable files of one directory, in the order in which they were
/// listed. A file that could not be read is not among them.
pub struct Directory {
    pub name: String,
    pub files: Vec<FileEntry>,
}

/// The content of the first file named `name` among `files`.
pub open spec fn lookup(files: Seq<FileEntry>, name: Seq<char>) -> Option<Seq<char>>
    decreases files.len(),
{
    if files.len() == 0 {
        None
    } else if files.first().name@ == name {
        Some(files.first().content@)
    } else {
        lookup(files.drop_first(), name)
    }
}

impl Directory {
    /// The content of the file `name`, without the white space around it.
    pub open spec fn attribute(&self, name: Seq<char>) -> Option<Seq<char>> {
        match lookup(self.files@, name) {
            Some(content) => Some(trimmed(content)),
            None => None,
        }
    }

    /// The number that the file `name` holds.
    pub open spec fn number(&self, name: Seq<char>) -> Option<u64> {
        match self.attribute(name) {
            Some(t) => decimal_u64(t),
            None => None,
        }
    }
}

/// The number in the attribute `name` of `d`, or zero.
pub open spec fn number_or_zero(d: Directory, name: Seq<char>) -> u64 {
    match d.number(name) {
        Some(v) => v,
        None => 0,
    }
}

/// Whether `a` and `b` hold the same characters.
pub fn same_chars(a: &[char], b: &[char]) -> (r: bool)
    ensures
        r == (a@ == b@),
{
    if a.len() != b.len() {
        return false;
    }
    let n: usize = a.len();
    let mut i: usize = 0;
    while i < n
        invariant
            i <= n,
            n == a@.len(),
            n == b@.len(),
            forall|j: int| 0 <= j < i ==> a@[j] == b@[j],
        decreases n - i,
    {
        if a[i] != b[i] {
            return false;
        }
        i += 1;
    }
    assert(a@ =~= b@);
    true
}

/// The trimmed content of the file `name` of `base`, as characters.
pub fn read_chars(base: &Directory, name: &str) -> (r: Option<Vec<char>>)
    ensures
        match r {
            Some(v) => base.attribute(name@) == Some(v@),
            None => base.attribute(name@).is_none(),
        },
{
    let wanted = chars_of(name);
    let n: usize = base.files.len();
    let mut i: usize = 0;
    assert(base.files@.skip(0) =~= base.files@);
    while i < n
        invariant
            i <= n,
            n == base.files@.len(),
            wanted@ == name@,
            lookup(base.files@, name@) == lookup(base.files@.skip(i as int), name@),
        decreases n - i,
    {
        let ghost rest = base.files@.skip(i as int);
        assert(rest.first() == base.files@[i as int]);
        assert(rest.drop_first() =~= base.files@.skip(i + 1));
        let entry_name = chars_of(base.files[i].name.as_str());
        if same_chars(entry_name.as_slice(), wanted.as_slice()) {
            let content = chars_of(base.files[i].content.as_str());
            let t = trim(content.as_slice());
            return Some(vstd::slice::slice_to_vec(t));
        }
        i += 1;
    }
    None
}

/// The trimmed content of the file `name` of `base`.
pub fn read_at(base: &Directory, name: &str) -> (r: Option<String>)
    ensures
        match r {
            Some(s) => base.attribute(name@) == Some(s@),
            None => base.attribute(name@).is_none(),
        },
{
    match read_chars(base, name) {
        Some(v) => Some(string_of(v.as_slice())),
        None => None,
    }
}

/// The number that the file `name` of `base` holds: `None` where the file is
/// missing or its trimmed content is no unsigned decimal number of 64 bits.
pub fn read_u64(base: &Directory, name: &str) -> (r: Option<u64>)
    ensures
        r == base.number(name@),
{
    match read_chars(base, name) {
        Some(v) => parse_u64(v.as_slice()),
        None => None,
    }
}

/// The number that the file `name` of `base` holds, or zero.
pub fn read_number(base: &Directory, name: &str) -> (r: u64)
    ensures
        r == number_or_zero(*base, name@),
{
    match read_u64(base, name) {
        Some(v) => v,
        None => 0,
    }
}

} // verus!
