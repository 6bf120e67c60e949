//! The final ordering of the inventory: a stable sort by
//! case-insensitive name, specified as a mathematical insertion sort
//! and implemented to match it exactly.

use vstd::prelude::*;
use crate::text::{fold, fold_char};
use crate::text::char_fold;
use crate::record::{InstalledApp, AppView, views};
use vstd::string::StrSliceExecFns;

verus! {

/// Lexicographic order on character sequences, by character code.
pub open spec fn lex_le(a: Seq<char>, b: Seq<char>) -> bool
    decreases a.len(),
{
    if a.len() == 0 {
        true
    } else if b.len() == 0 {
        false
    } else if (a[0] as u32) == (b[0] as u32) {
        lex_le(a.drop_first(), b.drop_first())
    } else {
        (a[0] as u32) < (b[0] as u32)
    }
}

/// One record sorts no later than another: its case-folded name is
/// lexicographically no greater.
pub open spec fn name_le(a: AppView, b: AppView) -> bool {
    lex_le(fold(a.name), fold(b.name))
}

/// The sequence is sorted by case-insensitive name, ascending.
pub open spec fn sorted_by_name(s: Seq<AppView>) -> bool {
    forall|i: int, j: int| 0 <= i <= j < s.len() ==> name_le(#[trigger] s[i], #[trigger] s[j])
}

/// The order is total.
pub proof fn lemma_lex_le_total(a: Seq<char>, b: Seq<char>)
    ensures
        lex_le(a, b) || lex_le(b, a),
    decreases a.len(),
{
    if a.len() > 0 && b.len() > 0 && (a[0] as u32) == (b[0] as u32) {
        lemma_lex_le_total(a.drop_first(), b.drop_first());
    }
}

/// The order is transitive.
pub proof fn lemma_lex_le_trans(a: Seq<char>, b: Seq<char>, c: Seq<char>)
    requires
        lex_le(a, b),
        lex_le(b, c),
    ensures
        lex_le(a, c),
    decreases a.len(),
{
    if a.len() > 0 && b.len() > 0 && c.len() > 0 && (a[0] as u32) == (b[0] as u32) && (b[0] as u32)
        == (c[0] as u32) {
        lemma_lex_le_trans(a.drop_first(), b.drop_first(), c.drop_first());
    }
}

/// Insert a record into a sorted sequence: after every record that
/// sorts no later, before the first that sorts strictly later.  Equal
/// names keep their arrival order, which makes the sort stable.
pub open spec fn sorted_insert(x: AppView, s: Seq<AppView>) -> Seq<AppView>
    decreases s.len(),
{
    if s.len() == 0 {
        seq![x]
    } else if name_le(s[0], x) {
        seq![s[0]] + sorted_insert(x, s.drop_first())
    } else {
        seq![x] + s
    }
}

/// The sorted inventory: every record inserted, in arrival order, into
/// its place.
pub open spec fn spec_sort(s: Seq<AppView>) -> Seq<AppView>
    decreases s.len(),
{
    if s.len() == 0 {
        Seq::<AppView>::empty()
    } else {
        sorted_insert(s.last(), spec_sort(s.drop_last()))
    }
}

proof fn lemma_sorted_insert_len(x: AppView, s: Seq<AppView>)
    ensures
        sorted_insert(x, s).len() == s.len() + 1,
    decreases s.len(),
{
    if s.len() > 0 && name_le(s[0], x) {
        lemma_sorted_insert_len(x, s.drop_first());
    }
}

/// Inserting adds the new record and keeps the old ones, nothing else.
pub proof fn lemma_sorted_insert_contains(x: AppView, s: Seq<AppView>)
    ensures
        sorted_insert(x, s).len() == s.len() + 1,
        forall|y: AppView|
            #[trigger] sorted_insert(x, s).contains(y) <==> s.contains(y) || y == x,
    decreases s.len(),
{
    lemma_sorted_insert_len(x, s);
    if s.len() == 0 {
        assert forall|y: AppView| #[trigger]
            sorted_insert(x, s).contains(y) <==> s.contains(y) || y == x by {
            if y == x {
                assert(sorted_insert(x, s)[0] == x);
            }
            if sorted_insert(x, s).contains(y) {
                let i = choose|i: int|
                    0 <= i < sorted_insert(x, s).len() && sorted_insert(x, s)[i] == y;
            }
        }
    } else if name_le(s[0], x) {
        lemma_sorted_insert_contains(x, s.drop_first());
        let t = sorted_insert(x, s);
        assert forall|y: AppView| #[trigger] t.contains(y) <==> s.contains(y) || y == x by {
            if t.contains(y) {
                let i = choose|i: int| 0 <= i < t.len() && t[i] == y;
                if i == 0 {
                    assert(s[0] == y);
                } else {
                    assert(sorted_insert(x, s.drop_first())[i - 1] == y);
                    assert(sorted_insert(x, s.drop_first()).contains(y));
                    if s.drop_first().contains(y) {
                        let k = choose|k: int|
                            0 <= k < s.drop_first().len() && s.drop_first()[k] == y;
                        assert(s[k + 1] == y);
                    }
                }
            }
            if s.contains(y) {
                let i = choose|i: int| 0 <= i < s.len() && s[i] == y;
                if i == 0 {
                    assert(t[0] == y);
                } else {
                    assert(s.drop_first()[i - 1] == y);
                    assert(s.drop_first().contains(y));
                    assert(sorted_insert(x, s.drop_first()).contains(y));
                    let k = choose|k: int|
                        0 <= k < sorted_insert(x, s.drop_first()).len() && sorted_insert(
                            x,
                            s.drop_first(),
                        )[k] == y;
                    assert(t[k + 1] == y);
                }
            }
            if y == x {
                assert(sorted_insert(x, s.drop_first()).contains(y));
                let k = choose|k: int|
                    0 <= k < sorted_insert(x, s.drop_first()).len() && sorted_insert(
                        x,
                        s.drop_first(),
                    )[k] == y;
                assert(t[k + 1] == y);
            }
        }
    } else {
        assert forall|y: AppView| #[trigger]
            sorted_insert(x, s).contains(y) <==> s.contains(y) || y == x by {
            let t = sorted_insert(x, s);
            if t.contains(y) {
                let i = choose|i: int| 0 <= i < t.len() && t[i] == y;
                if i > 0 {
                    assert(s[i - 1] == y);
                }
            }
            if s.contains(y) {
                let i = choose|i: int| 0 <= i < s.len() && s[i] == y;
                assert(t[i + 1] == y);
            }
            if y == x {
                assert(t[0] == y);
            }
        }
    }
}

/// Inserting into a sorted sequence keeps it sorted.
pub proof fn lemma_sorted_insert_sorted(x: AppView, s: Seq<AppView>)
    requires
        sorted_by_name(s),
    ensures
        sorted_by_name(sorted_insert(x, s)),
    decreases s.len(),
{
    lemma_sorted_insert_contains(x, s);
    let t = sorted_insert(x, s);
    if s.len() == 0 {
        assert(sorted_by_name(t)) by {
            lemma_lex_le_total(fold(x.name), fold(x.name));
        }
    } else if name_le(s[0], x) {
        assert(sorted_by_name(s.drop_first())) by {
            assert forall|i: int, j: int|
                0 <= i <= j < s.drop_first().len() implies name_le(
                #[trigger] s.drop_first()[i],
                #[trigger] s.drop_first()[j],
            ) by {
                assert(s.drop_first()[i] == s[i + 1]);
                assert(s.drop_first()[j] == s[j + 1]);
            }
        }
        lemma_sorted_insert_sorted(x, s.drop_first());
        lemma_sorted_insert_contains(x, s.drop_first());
        let u = sorted_insert(x, s.drop_first());
        assert forall|i: int, j: int| 0 <= i <= j < t.len() implies name_le(
            #[trigger] t[i],
            #[trigger] t[j],
        ) by {
            if i == 0 && j > 0 {
                assert(t[j] == u[j - 1]);
                assert(u.contains(u[j - 1]));
                if s.drop_first().contains(u[j - 1]) {
                    let k = choose|k: int|
                        0 <= k < s.drop_first().len() && s.drop_first()[k] == u[j - 1];
                    assert(s.drop_first()[k] == s[k + 1]);
                    assert(name_le(s[0], s[k + 1]));
                } else {
                    assert(u[j - 1] == x);
                }
            } else if i > 0 {
                assert(t[i] == u[i - 1]);
                assert(t[j] == u[j - 1]);
            } else {
                lemma_lex_le_total(fold(t[0].name), fold(t[0].name));
            }
        }
    } else {
        assert(name_le(x, s[0])) by {
            lemma_lex_le_total(fold(x.name), fold(s[0].name));
        }
        assert forall|i: int, j: int| 0 <= i <= j < t.len() implies name_le(
            #[trigger] t[i],
            #[trigger] t[j],
        ) by {
            if i == 0 && j > 0 {
                assert(t[j] == s[j - 1]);
                assert(name_le(s[0], s[j - 1]));
                lemma_lex_le_trans(fold(x.name), fold(s[0].name), fold(s[j - 1].name));
            } else if i > 0 {
                assert(t[i] == s[i - 1]);
                assert(t[j] == s[j - 1]);
            } else {
                lemma_lex_le_total(fold(t[0].name), fold(t[0].name));
            }
        }
    }
}

/// The sorted inventory is sorted, has the same length, and holds
/// exactly the records the unsorted one held.
pub proof fn lemma_spec_sort_ensures(s: Seq<AppView>)
    ensures
        sorted_by_name(spec_sort(s)),
        spec_sort(s).len() == s.len(),
        forall|y: AppView| #[trigger] spec_sort(s).contains(y) <==> s.contains(y),
    decreases s.len(),
{
    if s.len() > 0 {
        lemma_spec_sort_ensures(s.drop_last());
        lemma_sorted_insert_sorted(s.last(), spec_sort(s.drop_last()));
        lemma_sorted_insert_contains(s.last(), spec_sort(s.drop_last()));
        assert forall|y: AppView| #[trigger] spec_sort(s).contains(y) <==> s.contains(y) by {
            if spec_sort(s).contains(y) {
                if s.drop_last().contains(y) {
                    let k = choose|k: int| 0 <= k < s.drop_last().len() && s.drop_last()[k] == y;
                    assert(s[k] == y);
                } else {
                    assert(s[s.len() - 1] == y);
                }
            }
            if s.contains(y) {
                let k = choose|k: int| 0 <= k < s.len() && s[k] == y;
                if k < s.len() - 1 {
                    assert(s.drop_last()[k] == y);
                    assert(s.drop_last().contains(y));
                }
            }
        }
    }
}

/// No two members of the sequence share their derived identity.
pub open spec fn identity_distinct(s: Seq<AppView>) -> bool {
    forall|i: int, j: int|
        0 <= i < j < s.len() ==> !crate::dedup::same_identity(#[trigger] s[i], #[trigger] s[j])
}

proof fn lemma_sorted_insert_distinct(x: AppView, s: Seq<AppView>)
    requires
        identity_distinct(s),
        forall|k: int| 0 <= k < s.len() ==> !crate::dedup::same_identity(#[trigger] s[k], x),
    ensures
        identity_distinct(sorted_insert(x, s)),
    decreases s.len(),
{
    let t = sorted_insert(x, s);
    if s.len() == 0 {
    } else if name_le(s[0], x) {
        assert(identity_distinct(s.drop_first())) by {
            assert forall|i: int, j: int|
                0 <= i < j < s.drop_first().len() implies !crate::dedup::same_identity(
                #[trigger] s.drop_first()[i],
                #[trigger] s.drop_first()[j],
            ) by {
                assert(s.drop_first()[i] == s[i + 1]);
                assert(s.drop_first()[j] == s[j + 1]);
            }
        }
        assert forall|k: int| 0 <= k < s.drop_first().len() implies !crate::dedup::same_identity(
            #[trigger] s.drop_first()[k],
            x,
        ) by {
            assert(s.drop_first()[k] == s[k + 1]);
        }
        lemma_sorted_insert_distinct(x, s.drop_first());
        let u = sorted_insert(x, s.drop_first());
        lemma_sorted_insert_contains(x, s.drop_first());
        assert forall|i: int, j: int| 0 <= i < j < t.len() implies !crate::dedup::same_identity(
            #[trigger] t[i],
            #[trigger] t[j],
        ) by {
            if i == 0 {
                assert(t[0] == s[0]);
                assert(t[j] == u[j - 1]);
                assert(u.contains(u[j - 1]));
                if s.drop_first().contains(u[j - 1]) {
                    let m = choose|m: int|
                        0 <= m < s.drop_first().len() && s.drop_first()[m] == u[j - 1];
                    assert(s.drop_first()[m] == s[m + 1]);
                    assert(!crate::dedup::same_identity(s[0], s[m + 1]));
                } else {
                    assert(u[j - 1] == x);
                    assert(!crate::dedup::same_identity(s[0], x));
                }
            } else {
                assert(t[i] == u[i - 1]);
                assert(t[j] == u[j - 1]);
            }
        }
    } else {
        assert forall|i: int, j: int| 0 <= i < j < t.len() implies !crate::dedup::same_identity(
            #[trigger] t[i],
            #[trigger] t[j],
        ) by {
            if i == 0 {
                assert(t[j] == s[j - 1]);
                crate::dedup::lemma_identity_equivalence(s[j - 1], x, x);
            } else {
                assert(t[i] == s[i - 1]);
                assert(t[j] == s[j - 1]);
            }
        }
    }
}

/// Sorting keeps the no-duplicates invariant: an inventory in which no
/// two records share an identity stays that way.
pub proof fn lemma_spec_sort_distinct(s: Seq<AppView>)
    requires
        identity_distinct(s),
    ensures
        identity_distinct(spec_sort(s)),
    decreases s.len(),
{
    if s.len() > 0 {
        let x = s.last();
        let d = s.drop_last();
        assert(identity_distinct(d)) by {
            assert forall|i: int, j: int|
                0 <= i < j < d.len() implies !crate::dedup::same_identity(
                #[trigger] d[i],
                #[trigger] d[j],
            ) by {
                assert(d[i] == s[i]);
                assert(d[j] == s[j]);
            }
        }
        lemma_spec_sort_distinct(d);
        lemma_spec_sort_ensures(d);
        assert forall|k: int| 0 <= k < spec_sort(d).len() implies !crate::dedup::same_identity(
            #[trigger] spec_sort(d)[k],
            x,
        ) by {
            assert(spec_sort(d).contains(spec_sort(d)[k]));
            let m = choose|m: int| 0 <= m < d.len() && d[m] == spec_sort(d)[k];
            assert(d[m] == s[m]);
            assert(!crate::dedup::same_identity(s[m], s[s.len() - 1]));
        }
        lemma_sorted_insert_distinct(x, spec_sort(d));
    }
}

/// Positioning a record after every member that sorts no later and
/// before the first that sorts strictly later is exactly the sorted
/// insertion.
proof fn lemma_insert_at(s: Seq<AppView>, x: AppView, p: int)
    requires
        0 <= p <= s.len(),
        forall|k: int| 0 <= k < p ==> name_le(#[trigger] s[k], x),
        p < s.len() ==> !name_le(s[p], x),
    ensures
        s.insert(p, x) == sorted_insert(x, s),
    decreases s.len(),
{
    if s.len() == 0 {
        assert(s.insert(0, x) =~= seq![x]);
    } else if p == 0 {
        assert(s.insert(0, x) =~= seq![x] + s);
    } else {
        lemma_insert_at(s.drop_first(), x, p - 1);
        assert(s.insert(p, x) =~= seq![s[0]] + s.drop_first().insert(p - 1, x));
    }
}

/// Does `a` sort no later than `b`, as [`name_le`] describes it?
fn le_app(a: &InstalledApp, b: &InstalledApp) -> (r: bool)
    ensures
        r == name_le(a@, b@),
{
    let an = a.name.as_str();
    let bn = b.name.as_str();
    let al = an.unicode_len();
    let bl = bn.unicode_len();
    let mut i: usize = 0;
    proof {
        assert(fold(an@).skip(0) =~= fold(an@));
        assert(fold(bn@).skip(0) =~= fold(bn@));
    }
    loop
        invariant
            al == an@.len(),
            bl == bn@.len(),
            i <= al,
            i <= bl,
            name_le(a@, b@) == lex_le(fold(an@).skip(i as int), fold(bn@).skip(i as int)),
        decreases al - i,
    {
        if i == al {
            proof {
                assert(fold(an@).skip(i as int).len() == 0);
            }
            return true;
        }
        if i == bl {
            proof {
                assert(fold(bn@).skip(i as int).len() == 0);
                assert(fold(an@).skip(i as int).len() > 0);
            }
            return false;
        }
        let ca = char_fold(an.get_char(i)) as u32;
        let cb = char_fold(bn.get_char(i)) as u32;
        proof {
            assert(fold(an@).skip(i as int)[0] == fold_char(an@[i as int]));
            assert(fold(bn@).skip(i as int)[0] == fold_char(bn@[i as int]));
            assert(fold(an@).skip(i as int).drop_first() =~= fold(an@).skip(i + 1));
            assert(fold(bn@).skip(i as int).drop_first() =~= fold(bn@).skip(i + 1));
        }
        if ca != cb {
            return ca < cb;
        }
        i += 1;
    }
}

/// Sort the inventory by case-insensitive name, ascending and stable,
/// as [`spec_sort`] describes it.
pub fn sort_inventory(apps: Vec<InstalledApp>) -> (r: Vec<InstalledApp>)
    ensures
        views(r@) == spec_sort(views(apps@)),
{
    let ghost oseq = apps@;
    let ghost orig = views(apps@);
    let mut rest = apps;
    let mut out: Vec<InstalledApp> = Vec::new();
    proof {
        assert(views(out@) =~= spec_sort(orig.take(0)));
    }
    while rest.len() > 0
        invariant
            orig == views(oseq),
            rest@.len() + out@.len() == oseq.len(),
            forall|i: int| 0 <= i < rest@.len() ==> rest@[i] == oseq[out@.len() + i],
            views(out@) == spec_sort(orig.take(out@.len() as int)),
        decreases rest@.len(),
    {
        let ghost done = out@.len() as int;
        let a = rest.remove(0);
        proof {
            assert(a == oseq[done]);
            assert(orig[done] == oseq[done]@);
        }
        let n = out.len();
        let mut p: usize = 0;
        while p < n && le_app(&out[p], &a)
            invariant
                n == out@.len(),
                p <= n,
                forall|k: int| 0 <= k < p ==> name_le(#[trigger] views(out@)[k], a@),
            decreases n - p,
        {
            proof {
                assert(views(out@)[p as int] == out@[p as int]@);
            }
            p += 1;
        }
        let ghost pre = views(out@);
        proof {
            if p < n {
                assert(views(out@)[p as int] == out@[p as int]@);
            }
            lemma_insert_at(pre, a@, p as int);
        }
        out.insert(p, a);
        proof {
            assert(views(out@) =~= pre.insert(p as int, a@));
            assert(orig.take(done + 1).drop_last() =~= orig.take(done));
            assert(orig.take(done + 1).last() == orig[done]);
        }
    }
    proof {
        assert(orig.take(orig.len() as int) =~= orig);
    }
    out
}

} // verus!
