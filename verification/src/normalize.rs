//! Record normalization: whitespace and quote trimming, install-location
//! cleanup, and the camel-case spacing rule used to derive display names
//! from file names.

use vstd::prelude::*;
use vstd::string::StrSliceExecFns;
use vstd::string::StringExecFns;
use crate::text::{is_space, is_lower, is_upper, fold};
use crate::text::{char_is_space, char_is_lower, char_is_upper};
use crate::matching::has_suffix;
use crate::matching::ends_with_folded;
use crate::paths::{parent_of, parent_dir};

verus! {

/// `s` without its leading whitespace.
pub open spec fn trim_front(s: Seq<char>) -> Seq<char>
    decreases s.len(),
{
    if s.len() > 0 && is_space(s[0]) {
        trim_front(s.drop_first())
    } else {
        s
    }
}

/// `s` without its trailing whitespace.
pub open spec fn trim_back(s: Seq<char>) -> Seq<char>
    decreases s.len(),
{
    if s.len() > 0 && is_space(s.last()) {
        trim_back(s.drop_last())
    } else {
        s
    }
}

/// `s` without leading and trailing whitespace.
pub open spec fn trim_of(s: Seq<char>) -> Seq<char> {
    trim_back(trim_front(s))
}

/// `s` without one pair of surrounding double quotes, when it has one.
pub open spec fn strip_quotes(s: Seq<char>) -> Seq<char> {
    if s.len() >= 2 && s[0] == '"' && s.last() == '"' {
        s.subrange(1, s.len() - 1)
    } else {
        s
    }
}

/// Does the path end, case-insensitively, in a known uninstaller
/// executable name?
pub open spec fn uninstaller_suffix(s: Seq<char>) -> bool {
    has_suffix(fold(s), "uninstall.exe"@) || has_suffix(fold(s), "unins000.exe"@)
}

/// Replace a path ending in an uninstaller executable by its parent
/// directory.
pub open spec fn strip_uninstaller(s: Seq<char>) -> Seq<char> {
    if uninstaller_suffix(s) {
        parent_of(s)
    } else {
        s
    }
}

/// One cleaning pass: trim, strip one quote pair, strip one uninstaller
/// file name.
pub open spec fn clean_pass(s: Seq<char>) -> Seq<char> {
    strip_uninstaller(strip_quotes(trim_of(s)))
}

proof fn lemma_trim_front_shrinks(s: Seq<char>)
    ensures
        trim_front(s) == s || trim_front(s).len() < s.len(),
    decreases s.len(),
{
    if s.len() > 0 && is_space(s[0]) {
        lemma_trim_front_shrinks(s.drop_first());
    }
}

proof fn lemma_trim_back_shrinks(s: Seq<char>)
    ensures
        trim_back(s) == s || trim_back(s).len() < s.len(),
    decreases s.len(),
{
    if s.len() > 0 && is_space(s.last()) {
        lemma_trim_back_shrinks(s.drop_last());
    }
}

/// A cleaning pass either leaves its input alone or strictly shortens it.
pub proof fn lemma_clean_pass_shrinks(s: Seq<char>)
    ensures
        clean_pass(s) == s || clean_pass(s).len() < s.len(),
{
    lemma_trim_front_shrinks(s);
    lemma_trim_back_shrinks(trim_front(s));
    let t = trim_of(s);
    let q = strip_quotes(t);
    if uninstaller_suffix(q) {
        crate::paths::lemma_last_sep(q);
        reveal_strlit("uninstall.exe");
        reveal_strlit("unins000.exe");
        assert(fold(q).len() == q.len());
        assert(q.len() > 0);
    }
}

/// The fully cleaned install location: cleaning passes applied until
/// nothing changes any more.  (By [`lemma_clean_pass_shrinks`] a pass
/// that changes anything strictly shortens its input, so the recursion
/// reaches the fixed point.)
pub open spec fn clean_of(s: Seq<char>) -> Seq<char>
    decreases s.len(),
{
    let t = clean_pass(s);
    if t.len() < s.len() {
        clean_of(t)
    } else {
        t
    }
}

/// What cleaning produces is already clean.
pub proof fn lemma_clean_of_fixed(s: Seq<char>)
    ensures
        clean_pass(clean_of(s)) == clean_of(s),
    decreases s.len(),
{
    lemma_clean_pass_shrinks(s);
    let t = clean_pass(s);
    if t.len() < s.len() {
        lemma_clean_of_fixed(t);
    } else {
        assert(t == s);
    }
}

/// One cleaning pass is the whole cleaning whenever a second pass
/// would change nothing more — the common case of one quote pair
/// around one uninstaller path.
pub proof fn lemma_clean_of_one_pass(s: Seq<char>)
    requires
        clean_pass(clean_pass(s)) == clean_pass(s),
    ensures
        clean_of(s) == clean_pass(s),
{
    lemma_clean_pass_shrinks(s);
    let t = clean_pass(s);
    if t.len() < s.len() {
        lemma_clean_pass_shrinks(t);
        assert(clean_of(t) == t);
    }
}

/// Cleaning an install location is idempotent: a second application
/// changes nothing.
pub proof fn lemma_clean_idempotent(s: Seq<char>)
    ensures
        clean_of(clean_of(s)) == clean_of(s),
{
    lemma_clean_of_fixed(s);
    lemma_clean_pass_shrinks(clean_of(s));
}

/// `s` without leading and trailing whitespace, as [`trim_of`]
/// describes it.
pub fn trim(s: &str) -> (r: String)
    ensures
        r@ == trim_of(s@),
{
    let h = s.unicode_len();
    let mut lo: usize = 0;
    proof {
        assert(s@.skip(0) =~= s@);
    }
    while lo < h && char_is_space(s.get_char(lo))
        invariant
            h == s@.len(),
            lo <= h,
            trim_front(s@) == trim_front(s@.skip(lo as int)),
        decreases h - lo,
    {
        proof {
            assert(s@.skip(lo as int)[0] == s@[lo as int]);
            assert(s@.skip(lo as int).drop_first() =~= s@.skip(lo + 1));
        }
        lo += 1;
    }
    proof {
        if lo < h {
            assert(s@.skip(lo as int)[0] == s@[lo as int]);
        }
        assert(trim_front(s@) == s@.skip(lo as int));
    }
    let mut hi: usize = h;
    proof {
        assert(s@.skip(lo as int) =~= s@.subrange(lo as int, hi as int));
    }
    while hi > lo && char_is_space(s.get_char(hi - 1))
        invariant
            h == s@.len(),
            lo <= hi <= h,
            trim_front(s@) == s@.skip(lo as int),
            trim_back(s@.skip(lo as int)) == trim_back(s@.subrange(lo as int, hi as int)),
        decreases hi,
    {
        proof {
            assert(s@.subrange(lo as int, hi as int).last() == s@[hi - 1]);
            assert(s@.subrange(lo as int, hi as int).drop_last() =~= s@.subrange(
                lo as int,
                hi - 1,
            ));
        }
        hi -= 1;
    }
    proof {
        if hi > lo {
            assert(s@.subrange(lo as int, hi as int).last() == s@[hi - 1]);
        }
        assert(trim_back(s@.subrange(lo as int, hi as int)) == s@.subrange(lo as int, hi as int));
    }
    s.substring_char(lo, hi).to_owned()
}

/// One executable cleaning pass, as [`clean_pass`] describes it.
fn clean_pass_once(s: &str) -> (r: String)
    ensures
        r@ == clean_pass(s@),
{
    let t = trim(s);
    let h = t.as_str().unicode_len();
    let q: String = if h >= 2 && t.as_str().get_char(0) == '"' && t.as_str().get_char(h - 1)
        == '"' {
        t.as_str().substring_char(1, h - 1).to_owned()
    } else {
        t
    };
    if ends_with_folded(q.as_str(), "uninstall.exe") || ends_with_folded(
        q.as_str(),
        "unins000.exe",
    ) {
        parent_dir(q.as_str())
    } else {
        q
    }
}

/// Clean a raw install location: trim whitespace and surrounding quotes
/// and drop trailing uninstaller executable names, until nothing changes
/// any more.  The result is [`clean_of`] of the input, and cleaning is
/// idempotent ([`lemma_clean_idempotent`]).
pub fn clean_install_location(location: &str) -> (r: String)
    ensures
        r@ == clean_of(location@),
{
    let mut cur: String = location.to_owned();
    loop
        invariant
            clean_of(location@) == clean_of(cur@),
        decreases cur@.len(),
    {
        proof {
            lemma_clean_pass_shrinks(cur@);
        }
        let next = clean_pass_once(cur.as_str());
        if next == cur {
            proof {
                assert(clean_of(cur@) == cur@);
            }
            return cur;
        }
        proof {
            assert(clean_of(cur@) == clean_of(next@));
        }
        cur = next;
    }
}

/// The camel-case spacing of `s`: a space inserted at every
/// lowercase-to-uppercase transition.
pub open spec fn spaced(s: Seq<char>) -> Seq<char>
    decreases s.len(),
{
    if s.len() <= 1 {
        s
    } else if is_lower(s[s.len() - 2]) && is_upper(s.last()) {
        spaced(s.drop_last()) + seq![' ', s.last()]
    } else {
        spaced(s.drop_last()) + seq![s.last()]
    }
}

/// The display name derived from a file stem: camel-case spacing, except
/// that names shorter than three characters or already containing a
/// space pass through unchanged.
pub open spec fn camel_spaced(s: Seq<char>) -> Seq<char> {
    if s.len() < 3 || s.contains(' ') {
        s
    } else {
        spaced(s)
    }
}

/// Derive a display name from a file stem, as [`camel_spaced`]
/// describes it.
pub fn add_spaces_to_camel_case(input: &str) -> (r: String)
    ensures
        r@ == camel_spaced(input@),
{
    let h = input.unicode_len();
    if h < 3 {
        return input.to_owned();
    }
    let mut i: usize = 0;
    while i < h
        invariant
            h == input@.len(),
            i <= h,
            forall|k: int| 0 <= k < i ==> input@[k] != ' ',
        decreases h - i,
    {
        if input.get_char(i) == ' ' {
            return input.to_owned();
        }
        i += 1;
    }
    proof {
        assert(!input@.contains(' ')) by {
            if input@.contains(' ') {
                let k = choose|k: int| 0 <= k < input@.len() && input@[k] == ' ';
            }
        }
        reveal_strlit(" ");
    }
    let mut out = String::new();
    let mut j: usize = 0;
    while j < h
        invariant
            h == input@.len(),
            h >= 3,
            j <= h,
            " "@ =~= seq![' '],
            out@ == spaced(input@.take(j as int)),
        decreases h - j,
    {
        if j > 0 && char_is_lower(input.get_char(j - 1)) && char_is_upper(input.get_char(j)) {
            out.append(" ");
        }
        out.append(input.substring_char(j, j + 1));
        proof {
            assert(input@.take(j + 1).drop_last() =~= input@.take(j as int));
            assert(input@.take(j + 1).last() == input@[j as int]);
            if j > 0 {
                assert(input@.take(j + 1)[j - 1] == input@[j - 1]);
            }
            assert(input@.subrange(j as int, j + 1) =~= seq![input@[j as int]]);
            assert(out@ =~= spaced(input@.take(j + 1)));
        }
        j += 1;
    }
    proof {
        assert(input@.take(h as int) =~= input@);
    }
    out
}

} // verus!
