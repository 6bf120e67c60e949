//! The inventory aggregator: it drives the adapters in fixed trust
//! order, routes every candidate through the classification filter and
//! the dedup gate, and assembles the duplicate-free inventory.

use vstd::prelude::*;
use crate::record::{InstalledApp, AppView, AppsResponse, SourceKind, views, trust_rank};
use crate::adapters::{
    RegistryEntry, ShortcutEntry, ExecutableEntry, ScriptedEntry, registry_view, shortcut_view,
    executable_view, scripted_view, registry_candidate, shortcut_candidate, executable_candidate,
    scripted_candidate,
};
use crate::filter::{record_accepted, accepts};
use crate::dedup::{sieve, is_duplicate, trust_sorted};
use crate::icons::{backfill_one, backfill_icons};
use crate::tokens::text_views;
use crate::sort::{spec_sort, sort_inventory};

verus! {

/// A candidate as zero-or-one stream elements.
pub open spec fn opt_seq(o: Option<AppView>) -> Seq<AppView> {
    match o {
        Some(a) => seq![a],
        None => Seq::<AppView>::empty(),
    }
}

/// The candidates one registry uninstall root contributes, in entry
/// order.
pub open spec fn registry_stream(es: Seq<RegistryEntry>, kind: SourceKind) -> Seq<AppView>
    decreases es.len(),
{
    if es.len() == 0 {
        Seq::<AppView>::empty()
    } else {
        registry_stream(es.drop_last(), kind) + opt_seq(registry_view(es.last(), kind))
    }
}

/// The candidates the start-menu walk contributes, in shortcut order.
pub open spec fn shortcut_stream(es: Seq<ShortcutEntry>) -> Seq<AppView>
    decreases es.len(),
{
    if es.len() == 0 {
        Seq::<AppView>::empty()
    } else {
        shortcut_stream(es.drop_last()) + opt_seq(shortcut_view(es.last()))
    }
}

/// The candidates the executable walk contributes, in file order.
pub open spec fn executable_stream(es: Seq<ExecutableEntry>) -> Seq<AppView>
    decreases es.len(),
{
    if es.len() == 0 {
        Seq::<AppView>::empty()
    } else {
        executable_stream(es.drop_last()) + opt_seq(executable_view(es.last()))
    }
}

/// The candidates the scripted source contributes, in entry order.
pub open spec fn scripted_stream(es: Seq<ScriptedEntry>) -> Seq<AppView>
    decreases es.len(),
{
    if es.len() == 0 {
        Seq::<AppView>::empty()
    } else {
        scripted_stream(es.drop_last()).push(scripted_view(es.last()))
    }
}

/// All candidates of all sources, concatenated in trust order.
pub open spec fn candidate_stream(
    current_user: Seq<RegistryEntry>,
    machine64: Seq<RegistryEntry>,
    machine32: Seq<RegistryEntry>,
    shortcuts: Seq<ShortcutEntry>,
    executables: Seq<ExecutableEntry>,
    scripted: Seq<ScriptedEntry>,
) -> Seq<AppView> {
    registry_stream(current_user, SourceKind::CurrentUserRegistry) + registry_stream(
        machine64,
        SourceKind::MachineRegistry64,
    ) + registry_stream(machine32, SourceKind::MachineRegistry32) + shortcut_stream(shortcuts)
        + executable_stream(executables) + scripted_stream(scripted)
}

/// The inventory before the icon pass and the sort: the candidate
/// stream pushed through the sieve.
pub open spec fn inventory_spec(
    current_user: Seq<RegistryEntry>,
    machine64: Seq<RegistryEntry>,
    machine32: Seq<RegistryEntry>,
    shortcuts: Seq<ShortcutEntry>,
    executables: Seq<ExecutableEntry>,
    scripted: Seq<ScriptedEntry>,
) -> Seq<AppView> {
    sieve(
        candidate_stream(current_user, machine64, machine32, shortcuts, executables, scripted),
    )
}

proof fn lemma_registry_stream_source(es: Seq<RegistryEntry>, kind: SourceKind)
    ensures
        forall|i: int|
            0 <= i < registry_stream(es, kind).len() ==> (#[trigger] registry_stream(es, kind)[i]).source
                == kind,
    decreases es.len(),
{
    if es.len() > 0 {
        lemma_registry_stream_source(es.drop_last(), kind);
    }
}

proof fn lemma_shortcut_stream_source(es: Seq<ShortcutEntry>)
    ensures
        forall|i: int|
            0 <= i < shortcut_stream(es).len() ==> (#[trigger] shortcut_stream(es)[i]).source
                == SourceKind::StartMenuShortcut,
    decreases es.len(),
{
    if es.len() > 0 {
        lemma_shortcut_stream_source(es.drop_last());
    }
}

proof fn lemma_executable_stream_source(es: Seq<ExecutableEntry>)
    ensures
        forall|i: int|
            0 <= i < executable_stream(es).len() ==> (#[trigger] executable_stream(es)[i]).source
                == SourceKind::PortableExecutable,
    decreases es.len(),
{
    if es.len() > 0 {
        lemma_executable_stream_source(es.drop_last());
    }
}

proof fn lemma_scripted_stream_source(es: Seq<ScriptedEntry>)
    ensures
        forall|i: int|
            0 <= i < scripted_stream(es).len() ==> (#[trigger] scripted_stream(es)[i]).source
                == SourceKind::ScriptedSource,
    decreases es.len(),
{
    if es.len() > 0 {
        lemma_scripted_stream_source(es.drop_last());
    }
}

/// The candidate stream arrives in non-increasing trust order: the
/// aggregator concatenates the sources from the most trusted to the
/// least trusted.
pub proof fn lemma_candidate_stream_trust_sorted(
    current_user: Seq<RegistryEntry>,
    machine64: Seq<RegistryEntry>,
    machine32: Seq<RegistryEntry>,
    shortcuts: Seq<ShortcutEntry>,
    executables: Seq<ExecutableEntry>,
    scripted: Seq<ScriptedEntry>,
)
    ensures
        trust_sorted(
            candidate_stream(
                current_user,
                machine64,
                machine32,
                shortcuts,
                executables,
                scripted,
            ),
        ),
{
    lemma_registry_stream_source(current_user, SourceKind::CurrentUserRegistry);
    lemma_registry_stream_source(machine64, SourceKind::MachineRegistry64);
    lemma_registry_stream_source(machine32, SourceKind::MachineRegistry32);
    lemma_shortcut_stream_source(shortcuts);
    lemma_executable_stream_source(executables);
    lemma_scripted_stream_source(scripted);
    let s1 = registry_stream(current_user, SourceKind::CurrentUserRegistry);
    let s2 = registry_stream(machine64, SourceKind::MachineRegistry64);
    let s3 = registry_stream(machine32, SourceKind::MachineRegistry32);
    let s4 = shortcut_stream(shortcuts);
    let s5 = executable_stream(executables);
    let s6 = scripted_stream(scripted);
    let all = candidate_stream(
        current_user,
        machine64,
        machine32,
        shortcuts,
        executables,
        scripted,
    );
    assert forall|k: int, l: int| 0 <= k <= l < all.len() implies trust_rank(
        #[trigger] all[k].source,
    ) >= trust_rank(#[trigger] all[l].source) by {
        let n1 = s1.len() as int;
        let n2 = n1 + s2.len();
        let n3 = n2 + s3.len();
        let n4 = n3 + s4.len();
        let n5 = n4 + s5.len();
        assert(all[k] == if k < n1 {
            s1[k]
        } else if k < n2 {
            s2[k - n1]
        } else if k < n3 {
            s3[k - n2]
        } else if k < n4 {
            s4[k - n3]
        } else if k < n5 {
            s5[k - n4]
        } else {
            s6[k - n5]
        });
        assert(all[l] == if l < n1 {
            s1[l]
        } else if l < n2 {
            s2[l - n1]
        } else if l < n3 {
            s3[l - n2]
        } else if l < n4 {
            s4[l - n3]
        } else if l < n5 {
            s5[l - n4]
        } else {
            s6[l - n5]
        });
    }
}

/// Feed one registry root through the filter and the dedup gate.
fn merge_registry(
    out: &mut Vec<InstalledApp>,
    entries: &Vec<RegistryEntry>,
    kind: SourceKind,
    Ghost(prefix): Ghost<Seq<AppView>>,
)
    requires
        views(old(out)@) == sieve(prefix),
    ensures
        views(final(out)@) == sieve(prefix + registry_stream(entries@, kind)),
{
    let n = entries.len();
    let mut i: usize = 0;
    proof {
        assert(entries@.take(0) =~= Seq::<RegistryEntry>::empty());
        assert(prefix + registry_stream(entries@.take(0), kind) =~= prefix);
    }
    while i < n
        invariant
            n == entries@.len(),
            i <= n,
            views(out@) == sieve(prefix + registry_stream(entries@.take(i as int), kind)),
        decreases n - i,
    {
        let ghost stream = prefix + registry_stream(entries@.take(i as int), kind);
        proof {
            assert(entries@.take(i + 1).drop_last() =~= entries@.take(i as int));
            assert(entries@.take(i + 1).last() == entries@[i as int]);
        }
        match registry_candidate(&entries[i], kind) {
            Some(c) => {
                proof {
                    assert(prefix + registry_stream(entries@.take(i + 1), kind) =~= stream.push(
                        c@,
                    ));
                    assert(stream.push(c@).drop_last() =~= stream);
                    assert(stream.push(c@).last() == c@);
                }
                if accepts(&c) && !is_duplicate(&c, out) {
                    out.push(c);
                    proof {
                        assert(views(out@) =~= sieve(stream).push(c@));
                    }
                }
            },
            None => {
                proof {
                    assert(prefix + registry_stream(entries@.take(i + 1), kind) =~= stream);
                }
            },
        }
        i += 1;
    }
    proof {
        assert(entries@.take(n as int) =~= entries@);
    }
}

/// Feed the start-menu shortcuts through the filter and the dedup gate.
fn merge_shortcuts(
    out: &mut Vec<InstalledApp>,
    entries: &Vec<ShortcutEntry>,
    Ghost(prefix): Ghost<Seq<AppView>>,
)
    requires
        views(old(out)@) == sieve(prefix),
    ensures
        views(final(out)@) == sieve(prefix + shortcut_stream(entries@)),
{
    let n = entries.len();
    let mut i: usize = 0;
    proof {
        assert(entries@.take(0) =~= Seq::<ShortcutEntry>::empty());
        assert(prefix + shortcut_stream(entries@.take(0)) =~= prefix);
    }
    while i < n
        invariant
            n == entries@.len(),
            i <= n,
            views(out@) == sieve(prefix + shortcut_stream(entries@.take(i as int))),
        decreases n - i,
    {
        let ghost stream = prefix + shortcut_stream(entries@.take(i as int));
        proof {
            assert(entries@.take(i + 1).drop_last() =~= entries@.take(i as int));
            assert(entries@.take(i + 1).last() == entries@[i as int]);
        }
        match shortcut_candidate(&entries[i]) {
            Some(c) => {
                proof {
                    assert(prefix + shortcut_stream(entries@.take(i + 1)) =~= stream.push(c@));
                    assert(stream.push(c@).drop_last() =~= stream);
                    assert(stream.push(c@).last() == c@);
                }
                if accepts(&c) && !is_duplicate(&c, out) {
                    out.push(c);
                    proof {
                        assert(views(out@) =~= sieve(stream).push(c@));
                    }
                }
            },
            None => {
                proof {
                    assert(prefix + shortcut_stream(entries@.take(i + 1)) =~= stream);
                }
            },
        }
        i += 1;
    }
    proof {
        assert(entries@.take(n as int) =~= entries@);
    }
}

/// Feed the portable executables through the filter and the dedup gate.
fn merge_executables(
    out: &mut Vec<InstalledApp>,
    entries: &Vec<ExecutableEntry>,
    Ghost(prefix): Ghost<Seq<AppView>>,
)
    requires
        views(old(out)@) == sieve(prefix),
    ensures
        views(final(out)@) == sieve(prefix + executable_stream(entries@)),
{
    let n = entries.len();
    let mut i: usize = 0;
    proof {
        assert(entries@.take(0) =~= Seq::<ExecutableEntry>::empty());
        assert(prefix + executable_stream(entries@.take(0)) =~= prefix);
    }
    while i < n
        invariant
            n == entries@.len(),
            i <= n,
            views(out@) == sieve(prefix + executable_stream(entries@.take(i as int))),
        decreases n - i,
    {
        let ghost stream = prefix + executable_stream(entries@.take(i as int));
        proof {
            assert(entries@.take(i + 1).drop_last() =~= entries@.take(i as int));
            assert(entries@.take(i + 1).last() == entries@[i as int]);
        }
        match executable_candidate(&entries[i]) {
            Some(c) => {
                proof {
                    assert(prefix + executable_stream(entries@.take(i + 1)) =~= stream.push(c@));
                    assert(stream.push(c@).drop_last() =~= stream);
                    assert(stream.push(c@).last() == c@);
                }
                if accepts(&c) && !is_duplicate(&c, out) {
                    out.push(c);
                    proof {
                        assert(views(out@) =~= sieve(stream).push(c@));
                    }
                }
            },
            None => {
                proof {
                    assert(prefix + executable_stream(entries@.take(i + 1)) =~= stream);
                }
            },
        }
        i += 1;
    }
    proof {
        assert(entries@.take(n as int) =~= entries@);
    }
}

/// Feed the scripted source through the filter and the dedup gate.
fn merge_scripted(
    out: &mut Vec<InstalledApp>,
    entries: &Vec<ScriptedEntry>,
    Ghost(prefix): Ghost<Seq<AppView>>,
)
    requires
        views(old(out)@) == sieve(prefix),
    ensures
        views(final(out)@) == sieve(prefix + scripted_stream(entries@)),
{
    let n = entries.len();
    let mut i: usize = 0;
    proof {
        assert(entries@.take(0) =~= Seq::<ScriptedEntry>::empty());
        assert(prefix + scripted_stream(entries@.take(0)) =~= prefix);
    }
    while i < n
        invariant
            n == entries@.len(),
            i <= n,
            views(out@) == sieve(prefix + scripted_stream(entries@.take(i as int))),
        decreases n - i,
    {
        let ghost stream = prefix + scripted_stream(entries@.take(i as int));
        proof {
            assert(entries@.take(i + 1).drop_last() =~= entries@.take(i as int));
            assert(entries@.take(i + 1).last() == entries@[i as int]);
        }
        let c = scripted_candidate(&entries[i]);
        proof {
            assert(prefix + scripted_stream(entries@.take(i + 1)) =~= stream.push(c@));
            assert(stream.push(c@).drop_last() =~= stream);
            assert(stream.push(c@).last() == c@);
        }
        if accepts(&c) && !is_duplicate(&c, out) {
            out.push(c);
            proof {
                assert(views(out@) =~= sieve(stream).push(c@));
            }
        }
        i += 1;
    }
    proof {
        assert(entries@.take(n as int) =~= entries@);
    }
}

/// Build the deduplicated inventory from the raw data of all six
/// sources, in trust order: the result is exactly the sieve of the
/// candidate stream ([`inventory_spec`]).
pub fn build_inventory(
    current_user: &Vec<RegistryEntry>,
    machine64: &Vec<RegistryEntry>,
    machine32: &Vec<RegistryEntry>,
    shortcuts: &Vec<ShortcutEntry>,
    executables: &Vec<ExecutableEntry>,
    scripted: &Vec<ScriptedEntry>,
) -> (r: Vec<InstalledApp>)
    ensures
        views(r@) == inventory_spec(
            current_user@,
            machine64@,
            machine32@,
            shortcuts@,
            executables@,
            scripted@,
        ),
{
    let mut out: Vec<InstalledApp> = Vec::new();
    proof {
        assert(views(out@) =~= sieve(Seq::<AppView>::empty()));
    }
    let ghost s1 = registry_stream(current_user@, SourceKind::CurrentUserRegistry);
    let ghost s2 = registry_stream(machine64@, SourceKind::MachineRegistry64);
    let ghost s3 = registry_stream(machine32@, SourceKind::MachineRegistry32);
    let ghost s4 = shortcut_stream(shortcuts@);
    let ghost s5 = executable_stream(executables@);
    let ghost s6 = scripted_stream(scripted@);
    proof {
        assert(Seq::<AppView>::empty() + s1 =~= s1);
    }
    merge_registry(
        &mut out,
        current_user,
        SourceKind::CurrentUserRegistry,
        Ghost(Seq::<AppView>::empty()),
    );
    merge_registry(&mut out, machine64, SourceKind::MachineRegistry64, Ghost(s1));
    merge_registry(&mut out, machine32, SourceKind::MachineRegistry32, Ghost(s1 + s2));
    merge_shortcuts(&mut out, shortcuts, Ghost(s1 + s2 + s3));
    merge_executables(&mut out, executables, Ghost(s1 + s2 + s3 + s4));
    merge_scripted(&mut out, scripted, Ghost(s1 + s2 + s3 + s4 + s5));
    out
}

/// The views of the per-record directory listings.
pub open spec fn listing_views(l: Seq<Vec<String>>) -> Seq<Seq<Seq<char>>> {
    l.map_values(|x: Vec<String>| text_views(x@))
}

/// The finished inventory: the icon back-fill pass applied to every
/// record, then the stable sort by case-insensitive name.
pub open spec fn finalized(
    apps: Seq<AppView>,
    shortcuts: Seq<ShortcutEntry>,
    listings: Seq<Seq<Seq<char>>>,
) -> Seq<AppView> {
    spec_sort(Seq::new(apps.len(), |i: int| backfill_one(apps[i], shortcuts, listings[i])))
}

/// Run the icon back-fill pass and the final sort over a built
/// inventory: `listings[i]` must hold the file names listed in record
/// `i`'s install location (empty when the record needs no icon or the
/// directory cannot be read).
pub fn finalize_inventory(
    apps: Vec<InstalledApp>,
    shortcuts: &Vec<ShortcutEntry>,
    listings: &Vec<Vec<String>>,
) -> (r: AppsResponse)
    requires
        apps@.len() == listings@.len(),
    ensures
        views(r.apps@) == finalized(views(apps@), shortcuts@, listing_views(listings@)),
{
    let ghost before = views(apps@);
    let filled = backfill_icons(apps, shortcuts, listings);
    proof {
        assert(views(filled@) =~= Seq::new(
            before.len(),
            |i: int| backfill_one(before[i], shortcuts@, listing_views(listings@)[i]),
        ));
    }
    let sorted = sort_inventory(filled);
    AppsResponse { apps: sorted }
}

/// Two registry roots carry the same data, entry for entry.
pub open spec fn registry_batch_similar(a: Seq<RegistryEntry>, b: Seq<RegistryEntry>) -> bool {
    &&& a.len() == b.len()
    &&& forall|i: int|
        0 <= i < a.len() ==> crate::adapters::registry_similar(#[trigger] a[i], #[trigger] b[i])
}

/// Two executable walks found the same files, entry for entry.
pub open spec fn executable_batch_similar(a: Seq<ExecutableEntry>, b: Seq<ExecutableEntry>) -> bool {
    &&& a.len() == b.len()
    &&& forall|i: int|
        0 <= i < a.len() ==> crate::adapters::executable_similar(#[trigger] a[i], #[trigger] b[i])
}

/// Two scripted runs emitted the same entries, entry for entry.
pub open spec fn scripted_batch_similar(a: Seq<ScriptedEntry>, b: Seq<ScriptedEntry>) -> bool {
    &&& a.len() == b.len()
    &&& forall|i: int|
        0 <= i < a.len() ==> crate::adapters::scripted_similar(#[trigger] a[i], #[trigger] b[i])
}

proof fn lemma_registry_stream_congruent(
    a: Seq<RegistryEntry>,
    b: Seq<RegistryEntry>,
    kind: SourceKind,
)
    requires
        registry_batch_similar(a, b),
    ensures
        registry_stream(a, kind) == registry_stream(b, kind),
    decreases a.len(),
{
    if a.len() > 0 {
        crate::adapters::lemma_registry_view_congruent(a.last(), b.last(), kind);
        assert(registry_batch_similar(a.drop_last(), b.drop_last()));
        lemma_registry_stream_congruent(a.drop_last(), b.drop_last(), kind);
    }
}

proof fn lemma_shortcut_stream_congruent(a: Seq<ShortcutEntry>, b: Seq<ShortcutEntry>)
    requires
        crate::icons::shortcuts_similar(a, b),
    ensures
        shortcut_stream(a) == shortcut_stream(b),
    decreases a.len(),
{
    if a.len() > 0 {
        crate::adapters::lemma_shortcut_view_congruent(a.last(), b.last());
        assert(crate::icons::shortcuts_similar(a.drop_last(), b.drop_last()));
        lemma_shortcut_stream_congruent(a.drop_last(), b.drop_last());
    }
}

proof fn lemma_executable_stream_congruent(a: Seq<ExecutableEntry>, b: Seq<ExecutableEntry>)
    requires
        executable_batch_similar(a, b),
    ensures
        executable_stream(a) == executable_stream(b),
    decreases a.len(),
{
    if a.len() > 0 {
        crate::adapters::lemma_executable_view_congruent(a.last(), b.last());
        assert(executable_batch_similar(a.drop_last(), b.drop_last()));
        lemma_executable_stream_congruent(a.drop_last(), b.drop_last());
    }
}

proof fn lemma_scripted_stream_congruent(a: Seq<ScriptedEntry>, b: Seq<ScriptedEntry>)
    requires
        scripted_batch_similar(a, b),
    ensures
        scripted_stream(a) == scripted_stream(b),
    decreases a.len(),
{
    if a.len() > 0 {
        crate::adapters::lemma_scripted_view_congruent(a.last(), b.last());
        assert(scripted_batch_similar(a.drop_last(), b.drop_last()));
        lemma_scripted_stream_congruent(a.drop_last(), b.drop_last());
    }
}

/// What the merge guarantees of every inventory it builds: every
/// record comes from the candidate stream and passes the
/// classification filter — so no accepted record's name or location
/// matches an uninstaller or update heuristic — and no two records
/// share their derived identity.
pub proof fn lemma_inventory_sound(
    current_user: Seq<RegistryEntry>,
    machine64: Seq<RegistryEntry>,
    machine32: Seq<RegistryEntry>,
    shortcuts: Seq<ShortcutEntry>,
    executables: Seq<ExecutableEntry>,
    scripted: Seq<ScriptedEntry>,
)
    ensures
        ({
            let inv = inventory_spec(
                current_user,
                machine64,
                machine32,
                shortcuts,
                executables,
                scripted,
            );
            &&& forall|i: int| 0 <= i < inv.len() ==> record_accepted(#[trigger] inv[i])
            &&& forall|i: int, j: int|
                0 <= i < j < inv.len() ==> !crate::dedup::same_identity(
                    #[trigger] inv[i],
                    #[trigger] inv[j],
                )
        }),
{
    let stream = candidate_stream(
        current_user,
        machine64,
        machine32,
        shortcuts,
        executables,
        scripted,
    );
    crate::dedup::lemma_sieve_accepted(stream);
    crate::dedup::lemma_sieve_distinct(stream);
}

/// Trust precedence: when two sources yield candidates with the same
/// derived identity, the record the inventory keeps comes from a
/// source of trust rank at least that of every filter-passing claimant
/// in the stream.
pub proof fn lemma_inventory_trust_precedence(
    current_user: Seq<RegistryEntry>,
    machine64: Seq<RegistryEntry>,
    machine32: Seq<RegistryEntry>,
    shortcuts: Seq<ShortcutEntry>,
    executables: Seq<ExecutableEntry>,
    scripted: Seq<ScriptedEntry>,
)
    ensures
        ({
            let stream = candidate_stream(
                current_user,
                machine64,
                machine32,
                shortcuts,
                executables,
                scripted,
            );
            let inv = sieve(stream);
            forall|i: int, j: int|
                {
                    &&& 0 <= i < inv.len()
                    &&& 0 <= j < stream.len()
                    &&& record_accepted(#[trigger] stream[j])
                    &&& crate::dedup::same_identity(#[trigger] inv[i], stream[j])
                } ==> trust_rank(inv[i].source) >= trust_rank(stream[j].source)
        }),
{
    let stream = candidate_stream(
        current_user,
        machine64,
        machine32,
        shortcuts,
        executables,
        scripted,
    );
    lemma_candidate_stream_trust_sorted(
        current_user,
        machine64,
        machine32,
        shortcuts,
        executables,
        scripted,
    );
    crate::dedup::lemma_trust_precedence(stream);
}

/// What the finish guarantees: the back-fill pass and the sort keep
/// the filter and no-duplicates invariants, and the result is sorted
/// by case-insensitive name.
pub proof fn lemma_finalized_sound(
    apps: Seq<AppView>,
    shortcuts: Seq<ShortcutEntry>,
    listings: Seq<Seq<Seq<char>>>,
)
    requires
        forall|i: int| 0 <= i < apps.len() ==> record_accepted(#[trigger] apps[i]),
        forall|i: int, j: int|
            0 <= i < j < apps.len() ==> !crate::dedup::same_identity(
                #[trigger] apps[i],
                #[trigger] apps[j],
            ),
        apps.len() == listings.len(),
    ensures
        ({
            let fin = finalized(apps, shortcuts, listings);
            &&& fin.len() == apps.len()
            &&& crate::sort::sorted_by_name(fin)
            &&& forall|i: int| 0 <= i < fin.len() ==> record_accepted(#[trigger] fin[i])
            &&& forall|i: int, j: int|
                0 <= i < j < fin.len() ==> !crate::dedup::same_identity(
                    #[trigger] fin[i],
                    #[trigger] fin[j],
                )
        }),
{
    let filled = Seq::new(apps.len(), |i: int| backfill_one(apps[i], shortcuts, listings[i]));
    assert forall|i: int| 0 <= i < filled.len() implies record_accepted(#[trigger] filled[i]) by {
        crate::icons::lemma_backfill_one_fields(apps[i], shortcuts, listings[i]);
    }
    assert forall|i: int, j: int|
        0 <= i < j < filled.len() implies !crate::dedup::same_identity(
        #[trigger] filled[i],
        #[trigger] filled[j],
    ) by {
        crate::icons::lemma_backfill_one_fields(apps[i], shortcuts, listings[i]);
        crate::icons::lemma_backfill_one_fields(apps[j], shortcuts, listings[j]);
    }
    crate::sort::lemma_spec_sort_ensures(filled);
    assert(crate::sort::identity_distinct(filled));
    crate::sort::lemma_spec_sort_distinct(filled);
    let fin = finalized(apps, shortcuts, listings);
    assert forall|i: int| 0 <= i < fin.len() implies record_accepted(#[trigger] fin[i]) by {
        assert(fin.contains(fin[i]));
        let m = choose|m: int| 0 <= m < filled.len() && filled[m] == fin[i];
    }
}

/// Determinism of the merge: adapters that report the same raw data —
/// whatever strings carry it — always yield the same inventory, in the
/// same order.
pub proof fn lemma_inventory_deterministic(
    current_user_a: Seq<RegistryEntry>,
    machine64_a: Seq<RegistryEntry>,
    machine32_a: Seq<RegistryEntry>,
    shortcuts_a: Seq<ShortcutEntry>,
    executables_a: Seq<ExecutableEntry>,
    scripted_a: Seq<ScriptedEntry>,
    current_user_b: Seq<RegistryEntry>,
    machine64_b: Seq<RegistryEntry>,
    machine32_b: Seq<RegistryEntry>,
    shortcuts_b: Seq<ShortcutEntry>,
    executables_b: Seq<ExecutableEntry>,
    scripted_b: Seq<ScriptedEntry>,
)
    requires
        registry_batch_similar(current_user_a, current_user_b),
        registry_batch_similar(machine64_a, machine64_b),
        registry_batch_similar(machine32_a, machine32_b),
        crate::icons::shortcuts_similar(shortcuts_a, shortcuts_b),
        executable_batch_similar(executables_a, executables_b),
        scripted_batch_similar(scripted_a, scripted_b),
    ensures
        inventory_spec(
            current_user_a,
            machine64_a,
            machine32_a,
            shortcuts_a,
            executables_a,
            scripted_a,
        ) == inventory_spec(
            current_user_b,
            machine64_b,
            machine32_b,
            shortcuts_b,
            executables_b,
            scripted_b,
        ),
{
    lemma_registry_stream_congruent(current_user_a, current_user_b, SourceKind::CurrentUserRegistry);
    lemma_registry_stream_congruent(machine64_a, machine64_b, SourceKind::MachineRegistry64);
    lemma_registry_stream_congruent(machine32_a, machine32_b, SourceKind::MachineRegistry32);
    lemma_shortcut_stream_congruent(shortcuts_a, shortcuts_b);
    lemma_executable_stream_congruent(executables_a, executables_b);
    lemma_scripted_stream_congruent(scripted_a, scripted_b);
}

/// Determinism of the finish: the same built inventory, shortcut data
/// and directory listings always yield the same final inventory and
/// ordering.
pub proof fn lemma_finalize_deterministic(
    apps: Seq<AppView>,
    shortcuts_a: Seq<ShortcutEntry>,
    shortcuts_b: Seq<ShortcutEntry>,
    listings: Seq<Seq<Seq<char>>>,
)
    requires
        crate::icons::shortcuts_similar(shortcuts_a, shortcuts_b),
        apps.len() == listings.len(),
    ensures
        finalized(apps, shortcuts_a, listings) == finalized(apps, shortcuts_b, listings),
{
    assert(Seq::new(apps.len(), |i: int| backfill_one(apps[i], shortcuts_a, listings[i])) =~= Seq::new(
        apps.len(),
        |i: int| backfill_one(apps[i], shortcuts_b, listings[i]),
    )) by {
        assert forall|i: int| 0 <= i < apps.len() implies backfill_one(
            apps[i],
            shortcuts_a,
            listings[i],
        ) == backfill_one(apps[i], shortcuts_b, listings[i]) by {
            crate::icons::lemma_backfill_one_congruent(apps[i], shortcuts_a, shortcuts_b, listings[i]);
        }
    }
}

} // verus!
