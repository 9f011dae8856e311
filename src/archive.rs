//! Locators of files inside archives: `archive-path//internal-path`.
use vstd::prelude::*;
use crate::text::{chars_of, find, find_chars, lemma_find_from_bounds, slice_chars, string_of};

verus! {

/// A file inside an archive.
#[derive(Clone, Debug, PartialEq)]
pub struct Ba2Path {
    pub archive_path: String,
    pub file_path: String,
}

pub open spec fn separator() -> Seq<char> {
    seq!['/', '/']
}

/// The two halves of a locator that `//` splits into exactly two parts
/// (scanning left to right, occurrences not overlapping).
pub open spec fn split_locator(s: Seq<char>) -> Option<(Seq<char>, Seq<char>)> {
    match find(s, separator()) {
        None => None,
        Some(k) => {
            let rest = s.subrange(k + 2, s.len() as int);
            if find(rest, separator()) is None {
                Some((s.subrange(0, k), rest))
            } else {
                None
            }
        },
    }
}

impl Ba2Path {
    /// Parses `archive//internal/path`; `None` unless `//` splits the text
    /// into exactly two parts.
    pub fn from_string(path: &str) -> (r: Option<Ba2Path>)
        ensures
            r matches Some(b) ==> split_locator(path@) == Some((b.archive_path@, b.file_path@)),
            r is None ==> split_locator(path@) is None,
    {
        proof {
            reveal_strlit("//");
        }
        let sep = chars_of("//");
        assert(sep@ =~= separator());
        let s = chars_of(path);
        match find_chars(&s, &sep, 0) {
            None => None,
            Some(k) => {
                proof {
                    lemma_find_from_bounds(s@, sep@, 0);
                }
                let n = s.len();
                assert(k + 2 <= n);
                let rest = slice_chars(&s, k + 2, s.len());
                if find_chars(&rest, &sep, 0).is_some() {
                    None
                } else {
                    let head = slice_chars(&s, 0, k);
                    Some(Ba2Path { archive_path: string_of(&head), file_path: string_of(&rest) })
                }
            },
        }
    }
}

/// Whether a path names a file inside an archive.
pub fn is_ba2_path(path: &str) -> (r: bool)
    ensures
        r == split_locator(path@) is Some,
{
    Ba2Path::from_string(path).is_some()
}

} // verus!
