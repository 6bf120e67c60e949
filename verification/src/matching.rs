//! Substring, prefix and suffix tests, both exact and case-insensitive.
//!
//! The case-insensitive executable functions fold only the scanned text;
//! the pattern is expected to be spelled in lowercase already, which is
//! how every heuristic in this crate states its patterns.

use vstd::prelude::*;
use vstd::string::StrSliceExecFns;
use crate::text::fold;
use crate::text::char_fold;

verus! {

/// `needle` occurs in `hay` starting at position `i`.
pub open spec fn occurs_at(hay: Seq<char>, needle: Seq<char>, i: int) -> bool {
    &&& 0 <= i
    &&& i + needle.len() <= hay.len()
    &&& hay.subrange(i, i + needle.len() as int) == needle
}

/// `needle` occurs somewhere in `hay`.
pub open spec fn has_sub(hay: Seq<char>, needle: Seq<char>) -> bool {
    exists|i: int| occurs_at(hay, needle, i)
}

/// `hay` begins with `needle`.
pub open spec fn has_prefix(hay: Seq<char>, needle: Seq<char>) -> bool {
    needle.len() <= hay.len() && hay.subrange(0, needle.len() as int) == needle
}

/// `hay` ends with `needle`.
pub open spec fn has_suffix(hay: Seq<char>, needle: Seq<char>) -> bool {
    needle.len() <= hay.len() && hay.subrange(
        hay.len() - needle.len(),
        hay.len() as int,
    ) == needle
}

/// Does the case-folded text match `pat` at position `i`?
fn folded_matches_at(hay: &str, pat: &str, i: usize) -> (r: bool)
    requires
        i + pat@.len() <= hay@.len(),
    ensures
        r == occurs_at(fold(hay@), pat@, i as int),
{
    let h = hay.unicode_len();
    let n = pat.unicode_len();
    let mut j: usize = 0;
    while j < n
        invariant
            h == hay@.len(),
            n == pat@.len(),
            j <= n,
            i + n <= h,
            forall|k: int| 0 <= k < j ==> fold(hay@)[i + k] == pat@[k],
        decreases n - j,
    {
        let hc = char_fold(hay.get_char(i + j));
        let pc = pat.get_char(j);
        if hc != pc {
            proof {
                assert(fold(hay@)[i + j] != pat@[j as int]);
                assert(!occurs_at(fold(hay@), pat@, i as int)) by {
                    if occurs_at(fold(hay@), pat@, i as int) {
                        assert(fold(hay@).subrange(i as int, i + n)[j as int] == pat@[j as int]);
                    }
                }
            }
            return false;
        }
        j += 1;
    }
    proof {
        assert(fold(hay@).subrange(i as int, i + n) =~= pat@);
    }
    true
}

/// Case-insensitive substring test: does the folded text contain `pat`?
pub fn contains_folded(hay: &str, pat: &str) -> (r: bool)
    ensures
        r == has_sub(fold(hay@), pat@),
{
    let h = hay.unicode_len();
    let n = pat.unicode_len();
    if n > h {
        proof {
            assert(!has_sub(fold(hay@), pat@)) by {
                if has_sub(fold(hay@), pat@) {
                    let i = choose|i: int| occurs_at(fold(hay@), pat@, i);
                }
            }
        }
        return false;
    }
    if n == 0 {
        proof {
            assert(occurs_at(fold(hay@), pat@, 0)) by {
                assert(fold(hay@).subrange(0, 0) =~= pat@);
            }
        }
        return true;
    }
    let bound = h - n + 1;
    let mut i: usize = 0;
    while i < bound
        invariant
            h == hay@.len(),
            n == pat@.len(),
            0 < n <= h,
            bound == h - n + 1,
            i <= bound,
            forall|k: int| 0 <= k < i ==> !occurs_at(fold(hay@), pat@, k),
        decreases bound - i,
    {
        if folded_matches_at(hay, pat, i) {
            return true;
        }
        i += 1;
    }
    proof {
        assert(!has_sub(fold(hay@), pat@)) by {
            if has_sub(fold(hay@), pat@) {
                let k = choose|k: int| occurs_at(fold(hay@), pat@, k);
                assert(0 <= k < bound);
            }
        }
    }
    false
}

/// Case-insensitive prefix test: does the folded text begin with `pat`?
pub fn starts_with_folded(hay: &str, pat: &str) -> (r: bool)
    ensures
        r == has_prefix(fold(hay@), pat@),
{
    let h = hay.unicode_len();
    let n = pat.unicode_len();
    if n > h {
        return false;
    }
    folded_matches_at(hay, pat, 0)
}

/// Case-insensitive suffix test: does the folded text end with `pat`?
pub fn ends_with_folded(hay: &str, pat: &str) -> (r: bool)
    ensures
        r == has_suffix(fold(hay@), pat@),
{
    let h = hay.unicode_len();
    let n = pat.unicode_len();
    if n > h {
        return false;
    }
    let r = folded_matches_at(hay, pat, h - n);
    proof {
        assert(fold(hay@).len() == hay@.len());
    }
    r
}

/// Case-insensitive equality of two pieces of text.
pub fn eq_folded(a: &str, b: &str) -> (r: bool)
    ensures
        r == (fold(a@) == fold(b@)),
{
    let la = a.unicode_len();
    let lb = b.unicode_len();
    if la != lb {
        proof {
            assert(fold(a@).len() == a@.len());
            assert(fold(b@).len() == b@.len());
        }
        return false;
    }
    let mut i: usize = 0;
    while i < la
        invariant
            la == a@.len(),
            lb == b@.len(),
            la == lb,
            i <= la,
            forall|k: int| 0 <= k < i ==> fold(a@)[k] == fold(b@)[k],
        decreases la - i,
    {
        if char_fold(a.get_char(i)) != char_fold(b.get_char(i)) {
            proof {
                assert(fold(a@)[i as int] != fold(b@)[i as int]);
            }
            return false;
        }
        i += 1;
    }
    proof {
        assert(fold(a@) =~= fold(b@));
    }
    true
}

/// Does the case-folded text match the case-folded `pat` at `i`?
fn folded_matches_at_term(hay: &str, pat: &str, i: usize) -> (r: bool)
    requires
        i + pat@.len() <= hay@.len(),
    ensures
        r == occurs_at(fold(hay@), fold(pat@), i as int),
{
    let h = hay.unicode_len();
    let n = pat.unicode_len();
    let mut j: usize = 0;
    while j < n
        invariant
            h == hay@.len(),
            n == pat@.len(),
            j <= n,
            i + n <= h,
            forall|k: int| 0 <= k < j ==> fold(hay@)[i + k] == fold(pat@)[k],
        decreases n - j,
    {
        let hc = char_fold(hay.get_char(i + j));
        let pc = char_fold(pat.get_char(j));
        if hc != pc {
            proof {
                assert(fold(hay@)[i + j] != fold(pat@)[j as int]);
                assert(!occurs_at(fold(hay@), fold(pat@), i as int)) by {
                    if occurs_at(fold(hay@), fold(pat@), i as int) {
                        assert(fold(hay@).subrange(i as int, i + n)[j as int] == fold(
                            pat@,
                        )[j as int]);
                    }
                }
            }
            return false;
        }
        j += 1;
    }
    proof {
        assert(fold(hay@).subrange(i as int, i + n) =~= fold(pat@));
    }
    true
}

/// Case-insensitive substring test with a case-insensitive pattern:
/// does the folded text contain the folded `pat`?
pub fn contains_folded_term(hay: &str, pat: &str) -> (r: bool)
    ensures
        r == has_sub(fold(hay@), fold(pat@)),
{
    let h = hay.unicode_len();
    let n = pat.unicode_len();
    if n > h {
        return false;
    }
    if n == 0 {
        proof {
            assert(occurs_at(fold(hay@), fold(pat@), 0)) by {
                assert(fold(hay@).subrange(0, 0) =~= fold(pat@));
            }
        }
        return true;
    }
    let bound = h - n + 1;
    let mut i: usize = 0;
    while i < bound
        invariant
            h == hay@.len(),
            n == pat@.len(),
            0 < n <= h,
            bound == h - n + 1,
            i <= bound,
            forall|k: int| 0 <= k < i ==> !occurs_at(fold(hay@), fold(pat@), k),
        decreases bound - i,
    {
        if folded_matches_at_term(hay, pat, i) {
            return true;
        }
        i += 1;
    }
    proof {
        assert(!has_sub(fold(hay@), fold(pat@))) by {
            if has_sub(fold(hay@), fold(pat@)) {
                let k = choose|k: int| occurs_at(fold(hay@), fold(pat@), k);
                assert(0 <= k < bound);
            }
        }
    }
    false
}

/// Case-insensitive prefix test with a case-insensitive pattern: does
/// the folded text begin with the folded `pat`?
pub fn starts_with_folded_term(hay: &str, pat: &str) -> (r: bool)
    ensures
        r == has_prefix(fold(hay@), fold(pat@)),
{
    let h = hay.unicode_len();
    let n = pat.unicode_len();
    if n > h {
        return false;
    }
    folded_matches_at_term(hay, pat, 0)
}

/// Exact equality of two pieces of text.
pub fn eq_exact(a: &str, b: &str) -> (r: bool)
    ensures
        r == (a@ == b@),
{
    let la = a.unicode_len();
    let lb = b.unicode_len();
    if la != lb {
        return false;
    }
    let mut i: usize = 0;
    while i < la
        invariant
            la == a@.len(),
            lb == b@.len(),
            la == lb,
            i <= la,
            forall|k: int| 0 <= k < i ==> a@[k] == b@[k],
        decreases la - i,
    {
        if a.get_char(i) != b.get_char(i) {
            return false;
        }
        i += 1;
    }
    proof {
        assert(a@ =~= b@);
    }
    true
}

} // verus!
