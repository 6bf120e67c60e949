//! Path components as plain string logic: parent directory, file name,
//! and file stem of Windows-style paths (`\` or `/` separated).

use vstd::prelude::*;
use vstd::string::StrSliceExecFns;

verus! {

/// A path separator.
pub open spec fn is_sep(c: char) -> bool {
    c == '\\' || c == '/'
}

/// Index of the last path separator, or -1 if there is none.
pub open spec fn last_sep(s: Seq<char>) -> int
    decreases s.len(),
{
    if s.len() == 0 {
        -1
    } else if is_sep(s.last()) {
        s.len() - 1
    } else {
        last_sep(s.drop_last())
    }
}

/// Index of the last `.`, or -1 if there is none.
pub open spec fn last_dot(s: Seq<char>) -> int
    decreases s.len(),
{
    if s.len() == 0 {
        -1
    } else if s.last() == '.' {
        s.len() - 1
    } else {
        last_dot(s.drop_last())
    }
}

pub proof fn lemma_last_sep(s: Seq<char>)
    ensures
        -1 <= last_sep(s) < s.len(),
        last_sep(s) >= 0 ==> is_sep(s[last_sep(s)]),
        forall|j: int| last_sep(s) < j < s.len() ==> !is_sep(s[j]),
    decreases s.len(),
{
    if s.len() > 0 && !is_sep(s.last()) {
        lemma_last_sep(s.drop_last());
        assert forall|j: int| last_sep(s) < j < s.len() implies !is_sep(s[j]) by {
            if j < s.len() - 1 {
                assert(s.drop_last()[j] == s[j]);
            }
        }
        if last_sep(s) >= 0 {
            assert(s.drop_last()[last_sep(s)] == s[last_sep(s)]);
        }
    }
}

pub proof fn lemma_last_dot(s: Seq<char>)
    ensures
        -1 <= last_dot(s) < s.len(),
    decreases s.len(),
{
    if s.len() > 0 && !(s.last() == '.') {
        lemma_last_dot(s.drop_last());
    }
}

/// Everything before the last path separator; empty when the path has
/// no separator at all.
pub open spec fn parent_of(s: Seq<char>) -> Seq<char> {
    if last_sep(s) >= 0 {
        s.take(last_sep(s))
    } else {
        Seq::<char>::empty()
    }
}

/// Everything after the last path separator; the whole path when it has
/// no separator.
pub open spec fn file_name_of(s: Seq<char>) -> Seq<char> {
    s.skip(last_sep(s) + 1)
}

/// The file name with its extension removed: everything before the last
/// `.`, unless that dot starts the name or is missing.
pub open spec fn stem_of(s: Seq<char>) -> Seq<char> {
    let f = file_name_of(s);
    if last_dot(f) > 0 {
        f.take(last_dot(f))
    } else {
        f
    }
}

/// Index one past the last path separator, as a `usize` (0: none).
fn scan_last_sep(s: &str) -> (r: usize)
    ensures
        r == last_sep(s@) + 1,
{
    let h = s.unicode_len();
    proof {
        assert(s@.take(h as int) =~= s@);
    }
    let mut i: usize = h;
    while i > 0
        invariant
            h == s@.len(),
            i <= h,
            last_sep(s@) == last_sep(s@.take(i as int)),
        decreases i,
    {
        let c = s.get_char(i - 1);
        proof {
            assert(s@.take(i as int).last() == s@[i - 1]);
        }
        if c == '\\' || c == '/' {
            return i;
        }
        proof {
            assert(s@.take(i as int).drop_last() =~= s@.take(i - 1));
        }
        i -= 1;
    }
    0
}

/// Index one past the last `.`, as a `usize` (0: none).
fn scan_last_dot(s: &str) -> (r: usize)
    ensures
        r == last_dot(s@) + 1,
{
    let h = s.unicode_len();
    proof {
        assert(s@.take(h as int) =~= s@);
    }
    let mut i: usize = h;
    while i > 0
        invariant
            h == s@.len(),
            i <= h,
            last_dot(s@) == last_dot(s@.take(i as int)),
        decreases i,
    {
        let c = s.get_char(i - 1);
        proof {
            assert(s@.take(i as int).last() == s@[i - 1]);
        }
        if c == '.' {
            return i;
        }
        proof {
            assert(s@.take(i as int).drop_last() =~= s@.take(i - 1));
        }
        i -= 1;
    }
    0
}

/// Parent directory of a path, as [`parent_of`] describes it.
pub fn parent_dir(s: &str) -> (r: String)
    ensures
        r@ == parent_of(s@),
{
    let e = scan_last_sep(s);
    proof {
        lemma_last_sep(s@);
    }
    if e == 0 {
        String::new()
    } else {
        s.substring_char(0, e - 1).to_owned()
    }
}

/// File name of a path, as [`file_name_of`] describes it.
pub fn file_name(s: &str) -> (r: String)
    ensures
        r@ == file_name_of(s@),
{
    let e = scan_last_sep(s);
    let h = s.unicode_len();
    proof {
        lemma_last_sep(s@);
    }
    s.substring_char(e, h).to_owned()
}

/// File stem of a path, as [`stem_of`] describes it.
pub fn file_stem(s: &str) -> (r: String)
    ensures
        r@ == stem_of(s@),
{
    let f = file_name(s);
    let e = scan_last_dot(f.as_str());
    proof {
        lemma_last_dot(f@);
    }
    if e >= 2 {
        f.as_str().substring_char(0, e - 1).to_owned()
    } else {
        f
    }
}

} // verus!
