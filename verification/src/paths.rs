//! Resolution of window-file paths named by the metadata file.
//!
//! A path in a metadata record is taken relative to the metadata file's own
//! directory: the metadata path up to and including its last `/`, with the
//! record's path appended; a metadata path without any `/` lies in the
//! working directory and contributes nothing.

use vstd::prelude::*;

verus! {

/// Index of the last `/` of `s`, or `-1` if there is none.
pub open spec fn spec_last_slash(s: Seq<char>) -> int
    decreases s.len(),
{
    if s.len() == 0 {
        -1
    } else if s.last() == '/' {
        s.len() - 1
    } else {
        spec_last_slash(s.drop_last())
    }
}

/// `path2` resolved relative to the directory holding `path1`.
pub open spec fn spec_relative_path(path1: Seq<char>, path2: Seq<char>) -> Seq<char> {
    let k = spec_last_slash(path1);
    if k >= 0 {
        path1.take(k + 1) + path2
    } else {
        path2
    }
}

/// `spec_last_slash` is the unique slash position with none after it.
proof fn lemma_last_slash_at(s: Seq<char>, k: int)
    requires
        -1 <= k < s.len(),
        k >= 0 ==> s[k] == '/',
        forall|j: int| k < j < s.len() ==> s[j] != '/',
    ensures
        spec_last_slash(s) == k,
    decreases s.len(),
{
    if s.len() > 0 {
        if k == s.len() - 1 {
        } else {
            lemma_last_slash_at(s.drop_last(), k);
        }
    }
}

/// Returns the path to `path2` relative to the directory of `path1`:
/// for `path1 = "path/to/file.dat"` and `path2 = "another_file.dat"` the
/// result is `"path/to/another_file.dat"`.
pub fn get_relative_path(path1: &str, path2: &str) -> (r: String)
    ensures
        r@ == spec_relative_path(path1@, path2@),
{
    let n = path1.unicode_len();
    let mut i: usize = n;
    while i > 0
        invariant
            i <= n == path1@.len(),
            forall|j: int| i <= j < n ==> path1@[j] != '/',
        decreases i,
    {
        if path1.get_char(i - 1) == '/' {
            proof {
                lemma_last_slash_at(path1@, i - 1);
            }
            let prefix = path1.substring_char(0, i).to_owned();
            let joined = prefix.concat(path2);
            proof {
                assert(path1@.subrange(0, i as int) =~= path1@.take(i as int));
            }
            return joined;
        }
        i = i - 1;
    }
    proof {
        lemma_last_slash_at(path1@, -1);
    }
    path2.to_owned()
}

} // verus!
