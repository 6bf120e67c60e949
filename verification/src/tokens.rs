//! Whitespace tokenization of display names, used by the icon
//! resolver's matching rules.

use vstd::prelude::*;
use vstd::string::StrSliceExecFns;
use crate::text::is_space;
use crate::text::char_is_space;

verus! {

/// Index of the first whitespace character, or the length if there is
/// none.
pub open spec fn first_space(s: Seq<char>) -> int
    decreases s.len(),
{
    if s.len() == 0 {
        0
    } else if is_space(s[0]) {
        0
    } else {
        1 + first_space(s.drop_first())
    }
}

pub proof fn lemma_first_space(s: Seq<char>)
    ensures
        0 <= first_space(s) <= s.len(),
        forall|j: int| 0 <= j < first_space(s) ==> !is_space(s[j]),
        first_space(s) < s.len() ==> is_space(s[first_space(s)]),
    decreases s.len(),
{
    if s.len() > 0 && !is_space(s[0]) {
        lemma_first_space(s.drop_first());
        assert forall|j: int| 0 <= j < first_space(s) implies !is_space(s[j]) by {
            if j > 0 {
                assert(s.drop_first()[j - 1] == s[j]);
            }
        }
        if first_space(s) < s.len() {
            assert(s.drop_first()[first_space(s) - 1] == s[first_space(s)]);
        }
    }
}

/// The whitespace-delimited tokens of `s`, in order, without empties.
pub open spec fn tokens(s: Seq<char>) -> Seq<Seq<char>>
    decreases s.len(),
    via tokens_decreases
{
    if s.len() == 0 {
        Seq::<Seq<char>>::empty()
    } else if is_space(s[0]) {
        tokens(s.drop_first())
    } else {
        seq![s.take(first_space(s))] + tokens(s.skip(first_space(s)))
    }
}

#[via_fn]
proof fn tokens_decreases(s: Seq<char>) {
    if s.len() > 0 && !is_space(s[0]) {
        lemma_first_space(s);
    }
}

/// The views of a sequence of owned strings.
pub open spec fn text_views(v: Seq<String>) -> Seq<Seq<char>> {
    v.map_values(|t: String| t@)
}

/// Split a name into its whitespace-delimited tokens, as [`tokens`]
/// describes them.
pub fn tokenize(s: &str) -> (v: Vec<String>)
    ensures
        text_views(v@) == tokens(s@),
{
    let h = s.unicode_len();
    let mut out: Vec<String> = Vec::new();
    let mut i: usize = 0;
    proof {
        assert(s@.skip(0) =~= s@);
        assert(text_views(out@) =~= Seq::<Seq<char>>::empty());
    }
    while i < h
        invariant
            h == s@.len(),
            i <= h,
            text_views(out@) + tokens(s@.skip(i as int)) == tokens(s@),
        decreases h - i,
    {
        proof {
            assert(s@.skip(i as int)[0] == s@[i as int]);
            assert(s@.skip(i as int).drop_first() =~= s@.skip(i + 1));
        }
        if char_is_space(s.get_char(i)) {
            i += 1;
        } else {
            let start = i;
            let mut j = i + 1;
            proof {
                lemma_first_space(s@.skip(start as int));
            }
            while j < h && !char_is_space(s.get_char(j))
                invariant
                    h == s@.len(),
                    start < j <= h,
                    forall|k: int| start <= k < j ==> !is_space(s@[k]),
                decreases h - j,
            {
                j += 1;
            }
            proof {
                let rest = s@.skip(start as int);
                assert forall|k: int| 0 <= k < j - start implies !is_space(rest[k]) by {
                    assert(rest[k] == s@[start + k]);
                }
                if j < h {
                    assert(rest[j - start] == s@[j as int]);
                }
                assert(first_space(rest) == j - start) by {
                    lemma_first_space(rest);
                    if first_space(rest) < j - start {
                        assert(!is_space(rest[first_space(rest)]));
                    }
                    if first_space(rest) > j - start {
                        assert(j - start < rest.len());
                        assert(!is_space(rest[j - start as int]));
                    }
                }
                assert(rest.take(first_space(rest)) =~= s@.subrange(start as int, j as int));
                assert(rest.skip(first_space(rest)) =~= s@.skip(j as int));
            }
            let tok = s.substring_char(start, j).to_owned();
            out.push(tok);
            proof {
                assert(text_views(out@) =~= text_views(out@.drop_last()) + seq![
                    s@.subrange(start as int, j as int),
                ]);
            }
            i = j;
        }
    }
    proof {
        assert(s@.skip(h as int) =~= Seq::<char>::empty());
        assert(text_views(out@) + tokens(s@.skip(h as int)) =~= text_views(out@));
    }
    out
}

} // verus!
