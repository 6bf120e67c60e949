//! The dedup gate: the derived identity of a record, the decision
//! whether a candidate duplicates an accepted record, and the sieve that
//! folds a stream of candidates into a duplicate-free inventory.
//!
//! The laws at the end say what the sieve guarantees: members come from
//! the input and pass the filter, no two members share an identity, and
//! when candidates arrive in trust order the record that claims an
//! identity comes from the highest-trust source that produced it.

use vstd::prelude::*;
use crate::text::eq_fold;
use crate::matching::eq_folded;
use crate::record::{InstalledApp, AppView, views, trust_rank};
use crate::filter::record_accepted;

verus! {

/// Two records share their derived identity: their names are equal up
/// to case, or name and install location are both exactly equal.
pub open spec fn same_identity(a: AppView, b: AppView) -> bool {
    ||| eq_fold(a.name, b.name)
    ||| (a.name == b.name && a.install_location == b.install_location)
}

/// Some member of `s` shares its identity with `c`.
pub open spec fn has_identity(s: Seq<AppView>, c: AppView) -> bool {
    exists|i: int| 0 <= i < s.len() && same_identity(s[i], c)
}

/// Sharing an identity is reflexive, symmetric and transitive.
pub proof fn lemma_identity_equivalence(a: AppView, b: AppView, c: AppView)
    ensures
        same_identity(a, a),
        same_identity(a, b) == same_identity(b, a),
        same_identity(a, b) && same_identity(b, c) ==> same_identity(a, c),
{
}

/// The sieve: fold the candidates left to right, keeping each one that
/// passes the filter and shares no identity with a record already kept.
pub open spec fn sieve(cands: Seq<AppView>) -> Seq<AppView>
    decreases cands.len(),
{
    if cands.len() == 0 {
        Seq::<AppView>::empty()
    } else {
        let prev = sieve(cands.drop_last());
        let c = cands.last();
        if record_accepted(c) && !has_identity(prev, c) {
            prev.push(c)
        } else {
            prev
        }
    }
}

/// Does some accepted record share its identity with the candidate, as
/// [`has_identity`] describes it?
pub fn is_duplicate(c: &InstalledApp, accepted: &Vec<InstalledApp>) -> (r: bool)
    ensures
        r == has_identity(views(accepted@), c@),
{
    let n = accepted.len();
    let mut i: usize = 0;
    while i < n
        invariant
            n == accepted@.len(),
            i <= n,
            forall|k: int| 0 <= k < i ==> !same_identity(views(accepted@)[k], c@),
        decreases n - i,
    {
        let a = &accepted[i];
        let dup = eq_folded(a.name.as_str(), c.name.as_str()) || (a.name == c.name
            && a.install_location == c.install_location);
        proof {
            assert(views(accepted@)[i as int] == accepted@[i as int]@);
        }
        if dup {
            return true;
        }
        i += 1;
    }
    false
}

/// Every sieve member is one of the candidates.
pub proof fn lemma_sieve_members(cands: Seq<AppView>)
    ensures
        forall|i: int|
            0 <= i < sieve(cands).len() ==> exists|k: int|
                0 <= k < cands.len() && cands[k] == #[trigger] sieve(cands)[i],
    decreases cands.len(),
{
    if cands.len() > 0 {
        let s = cands.drop_last();
        lemma_sieve_members(s);
        let prev = sieve(s);
        assert forall|i: int| 0 <= i < sieve(cands).len() implies exists|k: int|
            0 <= k < cands.len() && cands[k] == #[trigger] sieve(cands)[i] by {
            if i < prev.len() {
                assert(sieve(cands)[i] == prev[i]);
                let k = choose|k: int| 0 <= k < s.len() && s[k] == prev[i];
                assert(cands[k] == sieve(cands)[i]);
            } else {
                assert(sieve(cands)[i] == cands.last());
                assert(cands[cands.len() - 1] == sieve(cands)[i]);
            }
        }
    }
}

/// Every sieve member passes the classification filter.
pub proof fn lemma_sieve_accepted(cands: Seq<AppView>)
    ensures
        forall|i: int| 0 <= i < sieve(cands).len() ==> record_accepted(#[trigger] sieve(cands)[i]),
    decreases cands.len(),
{
    if cands.len() > 0 {
        let s = cands.drop_last();
        lemma_sieve_accepted(s);
        let prev = sieve(s);
        assert forall|i: int| 0 <= i < sieve(cands).len() implies record_accepted(
            #[trigger] sieve(cands)[i],
        ) by {
            if i < prev.len() {
                assert(sieve(cands)[i] == prev[i]);
            }
        }
    }
}

/// No two sieve members share an identity.
pub proof fn lemma_sieve_distinct(cands: Seq<AppView>)
    ensures
        forall|i: int, j: int|
            0 <= i < j < sieve(cands).len() ==> !same_identity(
                #[trigger] sieve(cands)[i],
                #[trigger] sieve(cands)[j],
            ),
    decreases cands.len(),
{
    if cands.len() > 0 {
        let s = cands.drop_last();
        lemma_sieve_distinct(s);
        let prev = sieve(s);
        assert forall|i: int, j: int| 0 <= i < j < sieve(cands).len() implies !same_identity(
            #[trigger] sieve(cands)[i],
            #[trigger] sieve(cands)[j],
        ) by {
            if j < prev.len() {
                assert(sieve(cands)[i] == prev[i]);
                assert(sieve(cands)[j] == prev[j]);
            } else if j < sieve(cands).len() {
                assert(sieve(cands)[i] == prev[i]);
                assert(sieve(cands)[j] == cands.last());
            }
        }
    }
}

/// Every candidate that passes the filter has its identity claimed by
/// some sieve member.
pub proof fn lemma_sieve_covers(cands: Seq<AppView>)
    ensures
        forall|j: int|
            0 <= j < cands.len() && record_accepted(#[trigger] cands[j]) ==> has_identity(
                sieve(cands),
                cands[j],
            ),
    decreases cands.len(),
{
    if cands.len() > 0 {
        let s = cands.drop_last();
        lemma_sieve_covers(s);
        let prev = sieve(s);
        let c = cands.last();
        assert forall|j: int|
            0 <= j < cands.len() && record_accepted(#[trigger] cands[j]) implies has_identity(
            sieve(cands),
            cands[j],
        ) by {
            if j < cands.len() - 1 {
                assert(cands[j] == s[j]);
                let m = choose|m: int| 0 <= m < prev.len() && same_identity(prev[m], s[j]);
                assert(sieve(cands)[m] == prev[m]);
                assert(same_identity(sieve(cands)[m], cands[j]));
            } else {
                if record_accepted(c) && !has_identity(prev, c) {
                    let m = sieve(cands).len() - 1;
                    assert(same_identity(sieve(cands)[m], cands[j]));
                } else {
                    let m = choose|m: int| 0 <= m < prev.len() && same_identity(prev[m], c);
                    assert(sieve(cands)[m] == prev[m]);
                    assert(same_identity(sieve(cands)[m], cands[j]));
                }
            }
        }
    }
}

/// Candidates arrive in non-increasing trust order.
pub open spec fn trust_sorted(cands: Seq<AppView>) -> bool {
    forall|k: int, l: int|
        0 <= k <= l < cands.len() ==> trust_rank(#[trigger] cands[k].source) >= trust_rank(
            #[trigger] cands[l].source,
        )
}

/// Trust precedence: when the candidates arrive in trust order, the
/// sieve member that claims an identity outranks (or ties) every
/// filter-passing candidate that shares that identity.
pub proof fn lemma_trust_precedence(cands: Seq<AppView>)
    requires
        trust_sorted(cands),
    ensures
        forall|i: int, j: int|
            {
                &&& 0 <= i < sieve(cands).len()
                &&& 0 <= j < cands.len()
                &&& record_accepted(#[trigger] cands[j])
                &&& same_identity(#[trigger] sieve(cands)[i], cands[j])
            } ==> trust_rank(sieve(cands)[i].source) >= trust_rank(cands[j].source),
    decreases cands.len(),
{
    if cands.len() == 0 {
        return;
    }
    let s = cands.drop_last();
    let prev = sieve(s);
    let c = cands.last();
    assert(trust_sorted(s)) by {
        assert forall|k: int, l: int| 0 <= k <= l < s.len() implies trust_rank(
            #[trigger] s[k].source,
        ) >= trust_rank(#[trigger] s[l].source) by {
            assert(s[k] == cands[k]);
            assert(s[l] == cands[l]);
        }
    }
    lemma_trust_precedence(s);
    lemma_sieve_covers(s);
    lemma_sieve_members(cands);
    assert forall|i: int, j: int|
        {
            &&& 0 <= i < sieve(cands).len()
            &&& 0 <= j < cands.len()
            &&& record_accepted(#[trigger] cands[j])
            &&& same_identity(#[trigger] sieve(cands)[i], cands[j])
        } implies trust_rank(sieve(cands)[i].source) >= trust_rank(cands[j].source) by {
        let r = sieve(cands)[i];
        if j < cands.len() - 1 {
            assert(cands[j] == s[j]);
            if i < prev.len() {
                assert(r == prev[i]);
            } else {
                // r is the newly pushed last candidate; an earlier
                // filter-passing candidate with the same identity would
                // already have a claimant in the previous sieve, which
                // would have kept the last candidate out.
                assert(r == c);
                assert(!has_identity(prev, c));
                let m = choose|m: int| 0 <= m < prev.len() && same_identity(prev[m], s[j]);
                lemma_identity_equivalence(prev[m], s[j], r);
                lemma_identity_equivalence(r, cands[j], cands[j]);
                assert(same_identity(prev[m], r));
                lemma_identity_equivalence(prev[m], r, r);
                assert(false);
            }
        } else {
            // the candidate is the last one; every sieve member comes
            // from an earlier or equal position, so trust order decides.
            if i < prev.len() {
                assert(r == prev[i]);
                let k = choose|k: int| 0 <= k < cands.len() && cands[k] == sieve(cands)[i];
                assert(trust_rank(cands[k].source) >= trust_rank(cands[j].source));
            } else {
                assert(r == c);
            }
        }
    }
}

} // verus!
