//! Case-insensitive substring matching over character sequences.

use vstd::prelude::*;
use vstd::string::StrSliceExecFns;

verus! {

/// The needle occurs in the haystack starting at character position `k`.
pub open spec fn matches_at(needle: Seq<char>, hay: Seq<char>, k: int) -> bool {
    &&& 0 <= k
    &&& k + needle.len() <= hay.len()
    &&& forall|j: int| 0 <= j < needle.len() ==> hay[k + j] == needle[j]
}

/// The needle occurs somewhere in the haystack; an empty needle always does.
pub open spec fn is_substring(needle: Seq<char>, hay: Seq<char>) -> bool {
    exists|k: int| matches_at(needle, hay, k)
}

/// What `str::to_lowercase` returns for a given character sequence.
pub uninterp spec fn lower_of(s: Seq<char>) -> Seq<char>;

/// Relies on `str::to_lowercase`: the result depends on the characters of the
/// input alone, and an empty string stays empty.
#[verifier::external_body]
pub(crate) fn to_lowercase(s: &str) -> (r: String)
    ensures
        r@ == lower_of(s@),
        s@.len() == 0 ==> r@.len() == 0,
{
    s.to_lowercase()
}

/// Substring search by direct comparison at every starting position.
pub fn contains_substring(hay: &str, needle: &str) -> (b: bool)
    ensures
        b == is_substring(needle@, hay@),
{
    let n = hay.unicode_len();
    let m = needle.unicode_len();
    if m > n {
        assert(forall|k: int| !matches_at(needle@, hay@, k));
        return false;
    }
    let mut i: usize = 0;
    while i <= n - m
        invariant
            m <= n,
            n == hay@.len(),
            m == needle@.len(),
            i <= n - m + 1,
            forall|k: int| 0 <= k < i ==> !matches_at(needle@, hay@, k),
        decreases n - m + 1 - i,
    {
        let mut j: usize = 0;
        let mut ok = true;
        while ok && j < m
            invariant
                m <= n,
                n == hay@.len(),
                m == needle@.len(),
                i + m <= n,
                j <= m,
                ok ==> forall|jj: int| 0 <= jj < j ==> hay@[i + jj] == needle@[jj],
                !ok ==> !matches_at(needle@, hay@, i as int),
            decreases m - j + (if ok { 1int } else { 0int }),
        {
            if hay.get_char(i + j) == needle.get_char(j) {
                j += 1;
            } else {
                assert(!matches_at(needle@, hay@, i as int)) by {
                    assert(hay@[i + j] != needle@[j as int]);
                }
                ok = false;
            }
        }
        if ok {
            assert(matches_at(needle@, hay@, i as int));
            return true;
        }
        i += 1;
    }
    assert(forall|k: int| !matches_at(needle@, hay@, k)) by {
        assert(forall|k: int| k > n - m ==> !matches_at(needle@, hay@, k));
    }
    false
}

} // verus!
