//! The icon resolver: a layered fallback search that finds a usable
//! icon location for accepted records that lack one.  The caller hands
//! in the resolved start-menu shortcuts and, per record, the plain file
//! names listed in its install location; every decision here is
//! verified against the strategy chain the specs below describe.

use vstd::prelude::*;
use vstd::string::StrSliceExecFns;
use vstd::string::StringExecFns;
use crate::text::{fold, fold_char};
use crate::text::char_fold;
use crate::matching::{has_sub, has_prefix, has_suffix};
use crate::matching::{contains_folded_term, starts_with_folded_term, ends_with_folded};
use crate::tokens::{tokens, text_views, tokenize};
use crate::record::{InstalledApp, AppView, missing_icon};
use crate::adapters::{ShortcutEntry, shortcut_icon_head, shortcut_icon_candidate, opt_text};

verus! {

/// `s` with every plain space removed.
pub open spec fn despace(s: Seq<char>) -> Seq<char>
    decreases s.len(),
{
    if s.len() == 0 {
        s
    } else if s.last() == ' ' {
        despace(s.drop_last())
    } else {
        despace(s.drop_last()).push(s.last())
    }
}

/// A directory entry joined to its directory with a path separator.
pub open spec fn joined(loc: Seq<char>, f: Seq<char>) -> Seq<char> {
    loc + seq!['\\'] + f
}

/// The first up-to-`k` tokens rule: some among the first `k` name
/// tokens occurs, case-insensitively, in the text.
pub open spec fn any_early_token(hay: Seq<char>, name: Seq<char>, k: int) -> bool {
    exists|i: int|
        0 <= i < tokens(name).len() && i < k && has_sub(fold(hay), fold(#[trigger] tokens(name)[i]))
}

/// The first five characters of the name, or all of it when shorter.
pub open spec fn name_head(name: Seq<char>) -> Seq<char> {
    if name.len() < 5 {
        name
    } else {
        name.take(5)
    }
}

/// Does a shortcut's file name match the app name: it contains one of
/// the first three name tokens, or starts with the name's first five
/// characters.  All comparisons are case-insensitive.
pub open spec fn shortcut_matches(stem: Seq<char>, name: Seq<char>) -> bool {
    ||| any_early_token(stem, name, 3)
    ||| has_prefix(fold(stem), fold(name_head(name)))
}

/// The icon a matching shortcut offers: its recorded icon location when
/// that exists, else its target when that exists.
pub open spec fn shortcut_offer(e: ShortcutEntry) -> Option<Seq<char>> {
    if shortcut_icon_head(e).len() > 0 && e.icon_exists {
        Some(shortcut_icon_head(e))
    } else if opt_text(e.target).len() > 0 && e.target_exists {
        Some(opt_text(e.target))
    } else {
        None
    }
}

/// The first shortcut that matches the name and offers an icon decides.
pub open spec fn find_shortcut_icon(sc: Seq<ShortcutEntry>, name: Seq<char>) -> Option<Seq<char>>
    decreases sc.len(),
{
    if sc.len() == 0 {
        None
    } else if shortcut_matches(sc[0].link_stem@, name) && shortcut_offer(sc[0]) is Some {
        shortcut_offer(sc[0])
    } else {
        find_shortcut_icon(sc.drop_first(), name)
    }
}

/// Does a directory entry name an executable that matches the app name:
/// it contains one of the first two name tokens, or equals the name
/// with spaces removed plus `.exe`.  All comparisons are
/// case-insensitive.
pub open spec fn dir_entry_matches(f: Seq<char>, name: Seq<char>) -> bool {
    &&& has_suffix(fold(f), ".exe"@)
    &&& (any_early_token(f, name, 2) || fold(f) == despace(fold(name)) + ".exe"@)
}

/// The first matching executable in the listing decides.
pub open spec fn find_named_exe(loc: Seq<char>, fs: Seq<Seq<char>>, name: Seq<char>) -> Option<
    Seq<char>,
>
    decreases fs.len(),
{
    if fs.len() == 0 {
        None
    } else if dir_entry_matches(fs[0], name) {
        Some(joined(loc, fs[0]))
    } else {
        find_named_exe(loc, fs.drop_first(), name)
    }
}

/// The first executable in the listing, whatever its name.
pub open spec fn find_any_exe(loc: Seq<char>, fs: Seq<Seq<char>>) -> Option<Seq<char>>
    decreases fs.len(),
{
    if fs.len() == 0 {
        None
    } else if has_suffix(fold(fs[0]), ".exe"@) {
        Some(joined(loc, fs[0]))
    } else {
        find_any_exe(loc, fs.drop_first())
    }
}

/// The whole strategy chain for one record that lacks an icon: a
/// matching shortcut's icon first, then a matching executable in the
/// install location, then any executable there.
pub open spec fn resolve_spec(a: AppView, sc: Seq<ShortcutEntry>, fs: Seq<Seq<char>>) -> Option<
    Seq<char>,
> {
    match find_shortcut_icon(sc, a.name) {
        Some(p) => Some(p),
        None => match find_named_exe(a.install_location, fs, a.name) {
            Some(p) => Some(p),
            None => find_any_exe(a.install_location, fs),
        },
    }
}

/// What the icon back-fill pass leaves of one record: a record that
/// already carries an icon is untouched; one that lacks an icon gets
/// what the strategy chain finds, or stays as it is when the chain
/// finds nothing.
pub open spec fn backfill_one(a: AppView, sc: Seq<ShortcutEntry>, fs: Seq<Seq<char>>) -> AppView {
    if missing_icon(a) {
        match resolve_spec(a, sc, fs) {
            Some(p) => AppView { icon_path: Some(p), ..a },
            None => a,
        }
    } else {
        a
    }
}

/// Two shortcut lists carry the same resolved data, entry for entry.
pub open spec fn shortcuts_similar(a: Seq<ShortcutEntry>, b: Seq<ShortcutEntry>) -> bool {
    &&& a.len() == b.len()
    &&& forall|i: int|
        0 <= i < a.len() ==> crate::adapters::shortcut_similar(#[trigger] a[i], #[trigger] b[i])
}

/// What a shortcut offers the resolver depends only on its data.
proof fn lemma_shortcut_offer_congruent(a: ShortcutEntry, b: ShortcutEntry)
    requires
        crate::adapters::shortcut_similar(a, b),
    ensures
        shortcut_offer(a) == shortcut_offer(b),
{
    assert(opt_text(a.icon_location) == opt_text(b.icon_location));
    assert(opt_text(a.target) == opt_text(b.target));
    assert(shortcut_icon_head(a) == shortcut_icon_head(b));
}

/// What the shortcut search finds depends only on the shortcuts' data.
pub proof fn lemma_find_shortcut_icon_congruent(
    a: Seq<ShortcutEntry>,
    b: Seq<ShortcutEntry>,
    name: Seq<char>,
)
    requires
        shortcuts_similar(a, b),
    ensures
        find_shortcut_icon(a, name) == find_shortcut_icon(b, name),
    decreases a.len(),
{
    if a.len() > 0 {
        lemma_shortcut_offer_congruent(a[0], b[0]);
        assert(shortcuts_similar(a.drop_first(), b.drop_first())) by {
            assert forall|i: int| 0 <= i < a.drop_first().len() implies crate::adapters::shortcut_similar(
                #[trigger] a.drop_first()[i],
                #[trigger] b.drop_first()[i],
            ) by {
                assert(a.drop_first()[i] == a[i + 1]);
                assert(b.drop_first()[i] == b[i + 1]);
            }
        }
        lemma_find_shortcut_icon_congruent(a.drop_first(), b.drop_first(), name);
    }
}

/// What the whole back-fill pass leaves of a record depends only on the
/// shortcuts' data and the listed file names.
pub proof fn lemma_backfill_one_congruent(
    r: AppView,
    a: Seq<ShortcutEntry>,
    b: Seq<ShortcutEntry>,
    fs: Seq<Seq<char>>,
)
    requires
        shortcuts_similar(a, b),
    ensures
        backfill_one(r, a, fs) == backfill_one(r, b, fs),
{
    lemma_find_shortcut_icon_congruent(a, b, r.name);
}

/// The back-fill pass touches nothing but the icon: name, install
/// location and source come through unchanged.
pub proof fn lemma_backfill_one_fields(a: AppView, sc: Seq<ShortcutEntry>, fs: Seq<Seq<char>>)
    ensures
        backfill_one(a, sc, fs).name == a.name,
        backfill_one(a, sc, fs).publisher == a.publisher,
        backfill_one(a, sc, fs).install_location == a.install_location,
        backfill_one(a, sc, fs).display_version == a.display_version,
        backfill_one(a, sc, fs).uninstall_string == a.uninstall_string,
        backfill_one(a, sc, fs).source == a.source,
{
}

/// The view of an optional owned string.
pub open spec fn opt_text_view(o: Option<String>) -> Option<Seq<char>> {
    match o {
        Some(s) => Some(s@),
        None => None,
    }
}

/// Join a directory entry to its directory, as [`joined`] describes it.
fn join_path(loc: &str, f: &str) -> (r: String)
    ensures
        r@ == joined(loc@, f@),
{
    proof {
        reveal_strlit("\\");
        assert("\\"@ =~= seq!['\\']);
    }
    let mut p = loc.to_owned();
    p.append("\\");
    p.append(f);
    p
}

/// Does the entry equal the despaced, case-folded name plus `.exe`, as
/// the second disjunct of [`dir_entry_matches`] states it?
fn despaced_exe_eq(f: &str, name: &str) -> (r: bool)
    ensures
        r == (fold(f@) == despace(fold(name@)) + ".exe"@),
{
    let nh = name.unicode_len();
    let mut target: Vec<char> = Vec::new();
    let mut j: usize = 0;
    proof {
        assert(fold(name@.take(0)) =~= Seq::<char>::empty());
        assert(despace(Seq::<char>::empty()) =~= Seq::<char>::empty());
    }
    while j < nh
        invariant
            nh == name@.len(),
            j <= nh,
            target@ == despace(fold(name@.take(j as int))),
        decreases nh - j,
    {
        let c = name.get_char(j);
        proof {
            assert(fold(name@.take(j + 1)).drop_last() =~= fold(name@.take(j as int)));
            assert(fold(name@.take(j + 1)).last() == fold_char(name@[j as int]));
            assert(fold_char(name@[j as int]) == ' ' <==> name@[j as int] == ' ');
        }
        if c != ' ' {
            target.push(char_fold(c));
        }
        j += 1;
    }
    proof {
        assert(name@.take(nh as int) =~= name@);
        reveal_strlit(".exe");
    }
    target.push('.');
    target.push('e');
    target.push('x');
    target.push('e');
    proof {
        assert(target@ =~= despace(fold(name@)) + ".exe"@);
    }
    let fh = f.unicode_len();
    if fh != target.len() {
        proof {
            assert(fold(f@).len() == f@.len());
        }
        return false;
    }
    let mut i: usize = 0;
    while i < fh
        invariant
            fh == f@.len(),
            fh == target@.len(),
            i <= fh,
            target@ == despace(fold(name@)) + ".exe"@,
            forall|k: int| 0 <= k < i ==> fold(f@)[k] == target@[k],
        decreases fh - i,
    {
        if char_fold(f.get_char(i)) != target[i] {
            proof {
                assert(fold(f@)[i as int] != target@[i as int]);
            }
            return false;
        }
        i += 1;
    }
    proof {
        assert(fold(f@) =~= target@);
    }
    true
}

/// Does the shortcut's file name match the app name, as
/// [`shortcut_matches`] describes it?  `toks` must hold the name's
/// tokens, as [`tokenize`] computes them.
fn shortcut_name_matches(stem: &str, name: &str, toks: &Vec<String>) -> (r: bool)
    requires
        text_views(toks@) == tokens(name@),
    ensures
        r == shortcut_matches(stem@, name@),
{
    let limit: usize = if toks.len() < 3 {
        toks.len()
    } else {
        3
    };
    let mut i: usize = 0;
    while i < limit
        invariant
            text_views(toks@) == tokens(name@),
            limit <= toks@.len(),
            limit == if toks@.len() < 3 {
                toks@.len() as int
            } else {
                3
            },
            i <= limit,
            forall|k: int| 0 <= k < i ==> !has_sub(fold(stem@), fold(#[trigger] tokens(name@)[k])),
        decreases limit - i,
    {
        proof {
            assert(tokens(name@)[i as int] == toks@[i as int]@);
        }
        if contains_folded_term(stem, toks[i].as_str()) {
            proof {
                assert(any_early_token(stem@, name@, 3));
            }
            return true;
        }
        i += 1;
    }
    let nh = name.unicode_len();
    let hl: usize = if nh < 5 {
        nh
    } else {
        5
    };
    let head = name.substring_char(0, hl);
    proof {
        assert(head@ =~= name_head(name@));
        assert(!any_early_token(stem@, name@, 3)) by {
            if any_early_token(stem@, name@, 3) {
                let k = choose|k: int|
                    0 <= k < tokens(name@).len() && k < 3 && has_sub(
                        fold(stem@),
                        fold(tokens(name@)[k]),
                    );
                assert(k < limit);
            }
        }
    }
    starts_with_folded_term(stem, head)
}

/// Does the directory entry match the app name, as
/// [`dir_entry_matches`] describes it?  `toks` must hold the name's
/// tokens, as [`tokenize`] computes them.
fn dir_name_matches(f: &str, name: &str, toks: &Vec<String>) -> (r: bool)
    requires
        text_views(toks@) == tokens(name@),
    ensures
        r == dir_entry_matches(f@, name@),
{
    if !ends_with_folded(f, ".exe") {
        return false;
    }
    let limit: usize = if toks.len() < 2 {
        toks.len()
    } else {
        2
    };
    let mut i: usize = 0;
    while i < limit
        invariant
            has_suffix(fold(f@), ".exe"@),
            text_views(toks@) == tokens(name@),
            limit <= toks@.len(),
            limit == if toks@.len() < 2 {
                toks@.len() as int
            } else {
                2
            },
            i <= limit,
            forall|k: int| 0 <= k < i ==> !has_sub(fold(f@), fold(#[trigger] tokens(name@)[k])),
        decreases limit - i,
    {
        proof {
            assert(tokens(name@)[i as int] == toks@[i as int]@);
        }
        if contains_folded_term(f, toks[i].as_str()) {
            proof {
                assert(any_early_token(f@, name@, 2));
            }
            return true;
        }
        i += 1;
    }
    proof {
        assert(!any_early_token(f@, name@, 2)) by {
            if any_early_token(f@, name@, 2) {
                let k = choose|k: int|
                    0 <= k < tokens(name@).len() && k < 2 && has_sub(
                        fold(f@),
                        fold(tokens(name@)[k]),
                    );
                assert(k < limit);
            }
        }
    }
    despaced_exe_eq(f, name)
}

/// Run the strategy chain for one record, as [`resolve_spec`] describes
/// it.
pub fn resolve_icon(a: &InstalledApp, shortcuts: &Vec<ShortcutEntry>, files: &Vec<String>) -> (r:
    Option<String>)
    ensures
        opt_text_view(r) == resolve_spec(a@, shortcuts@, text_views(files@)),
{
    let toks = tokenize(a.name.as_str());
    let n = shortcuts.len();
    let mut i: usize = 0;
    proof {
        assert(shortcuts@.skip(0) =~= shortcuts@);
    }
    while i < n
        invariant
            text_views(toks@) == tokens(a.name@),
            n == shortcuts@.len(),
            i <= n,
            find_shortcut_icon(shortcuts@, a.name@) == find_shortcut_icon(
                shortcuts@.skip(i as int),
                a.name@,
            ),
        decreases n - i,
    {
        let e = &shortcuts[i];
        proof {
            assert(shortcuts@.skip(i as int)[0] == shortcuts@[i as int]);
            assert(shortcuts@.skip(i as int).drop_first() =~= shortcuts@.skip(i + 1));
        }
        if shortcut_name_matches(e.link_stem.as_str(), a.name.as_str(), &toks) {
            let head = shortcut_icon_candidate(e);
            if !head.as_str().is_empty() && e.icon_exists {
                return Some(head);
            }
            let target: &str = match &e.target {
                Some(t) => t.as_str(),
                None => "",
            };
            proof {
                reveal_strlit("");
                assert(""@ =~= Seq::<char>::empty());
            }
            if !target.is_empty() && e.target_exists {
                return Some(target.to_owned());
            }
        }
        i += 1;
    }
    proof {
        assert(shortcuts@.skip(n as int) =~= Seq::<ShortcutEntry>::empty());
    }
    let loc = a.install_location.as_str();
    let m = files.len();
    let mut k: usize = 0;
    proof {
        assert(text_views(files@).skip(0) =~= text_views(files@));
    }
    while k < m
        invariant
            text_views(toks@) == tokens(a.name@),
            loc@ == a.install_location@,
            m == files@.len(),
            k <= m,
            find_named_exe(a.install_location@, text_views(files@), a.name@) == find_named_exe(
                a.install_location@,
                text_views(files@).skip(k as int),
                a.name@,
            ),
            find_shortcut_icon(shortcuts@, a.name@) is None,
        decreases m - k,
    {
        proof {
            assert(text_views(files@).skip(k as int)[0] == files@[k as int]@);
            assert(text_views(files@).skip(k as int).drop_first() =~= text_views(files@).skip(
                k + 1,
            ));
        }
        if dir_name_matches(files[k].as_str(), a.name.as_str(), &toks) {
            proof {
                assert(find_named_exe(a.install_location@, text_views(files@), a.name@) == Some(
                    joined(a.install_location@, files@[k as int]@),
                ));
            }
            return Some(join_path(loc, files[k].as_str()));
        }
        k += 1;
    }
    proof {
        assert(text_views(files@).skip(m as int) =~= Seq::<Seq<char>>::empty());
    }
    let mut k: usize = 0;
    while k < m
        invariant
            loc@ == a.install_location@,
            m == files@.len(),
            k <= m,
            find_any_exe(a.install_location@, text_views(files@)) == find_any_exe(
                a.install_location@,
                text_views(files@).skip(k as int),
            ),
            find_shortcut_icon(shortcuts@, a.name@) is None,
            find_named_exe(a.install_location@, text_views(files@), a.name@) is None,
        decreases m - k,
    {
        proof {
            assert(text_views(files@).skip(k as int)[0] == files@[k as int]@);
            assert(text_views(files@).skip(k as int).drop_first() =~= text_views(files@).skip(
                k + 1,
            ));
        }
        if ends_with_folded(files[k].as_str(), ".exe") {
            proof {
                assert(find_any_exe(a.install_location@, text_views(files@)) == Some(
                    joined(a.install_location@, files@[k as int]@),
                ));
            }
            return Some(join_path(loc, files[k].as_str()));
        }
        k += 1;
    }
    proof {
        assert(text_views(files@).skip(m as int) =~= Seq::<Seq<char>>::empty());
    }
    None
}

/// Run the back-fill pass over the whole inventory: `listings[i]` must
/// hold the file names listed in record `i`'s install location (empty
/// when the record needs no icon or the directory cannot be read).
/// Every record comes back as [`backfill_one`] describes it.
pub fn backfill_icons(
    apps: Vec<InstalledApp>,
    shortcuts: &Vec<ShortcutEntry>,
    listings: &Vec<Vec<String>>,
) -> (r: Vec<InstalledApp>)
    requires
        apps@.len() == listings@.len(),
    ensures
        r@.len() == apps@.len(),
        forall|i: int|
            0 <= i < r@.len() ==> #[trigger] r@[i]@ == backfill_one(
                apps@[i]@,
                shortcuts@,
                text_views(listings@[i]@),
            ),
{
    let ghost orig = apps@;
    let mut rest = apps;
    let mut out: Vec<InstalledApp> = Vec::new();
    while rest.len() > 0
        invariant
            orig.len() == listings@.len(),
            out@.len() + rest@.len() == orig.len(),
            forall|i: int| 0 <= i < rest@.len() ==> rest@[i] == orig[out@.len() + i],
            forall|i: int|
                0 <= i < out@.len() ==> #[trigger] out@[i]@ == backfill_one(
                    orig[i]@,
                    shortcuts@,
                    text_views(listings@[i]@),
                ),
        decreases rest@.len(),
    {
        let a = rest.remove(0);
        let idx = out.len();
        proof {
            assert(a == orig[idx as int]);
        }
        if a.needs_icon() {
            match resolve_icon(&a, shortcuts, &listings[idx]) {
                Some(p) => {
                    let InstalledApp {
                        name,
                        publisher,
                        install_location,
                        display_version,
                        icon_path: _,
                        uninstall_string,
                        source,
                    } = a;
                    out.push(
                        InstalledApp {
                            name,
                            publisher,
                            install_location,
                            display_version,
                            icon_path: Some(p),
                            uninstall_string,
                            source,
                        },
                    );
                },
                None => {
                    out.push(a);
                },
            }
        } else {
            out.push(a);
        }
    }
    out
}

} // verus!
