//! The source adapters: each turns the raw data of one external source
//! into a candidate record.  All raw data arrives as plain values; the
//! few facts only the caller can know (does a computed path exist on
//! disk?) arrive as booleans answering exactly the questions the
//! contracts state.

use vstd::prelude::*;
use vstd::string::StrSliceExecFns;
use crate::text::fold;
use crate::matching::{has_sub, has_prefix, has_suffix};
use crate::matching::{contains_folded, eq_folded, eq_exact};
use crate::normalize::{trim_of, clean_of, camel_spaced};
use crate::normalize::{trim, clean_install_location, add_spaces_to_camel_case};
use crate::paths::{parent_of, stem_of, parent_dir, file_stem};
use crate::record::{InstalledApp, AppView, SourceKind};

verus! {

/// The text of an optional field; absent means empty.
pub open spec fn opt_text(o: Option<String>) -> Seq<char> {
    match o {
        Some(s) => s@,
        None => Seq::<char>::empty(),
    }
}

/// The view of an optional record.
pub open spec fn opt_view(o: Option<InstalledApp>) -> Option<AppView> {
    match o {
        Some(a) => Some(a@),
        None => None,
    }
}

/// Index of the first comma, or the length if there is none.
pub open spec fn first_comma(s: Seq<char>) -> int
    decreases s.len(),
{
    if s.len() == 0 {
        0
    } else if s[0] == ',' {
        0
    } else {
        1 + first_comma(s.drop_first())
    }
}

proof fn lemma_first_comma(s: Seq<char>)
    ensures
        0 <= first_comma(s) <= s.len(),
        forall|j: int| 0 <= j < first_comma(s) ==> s[j] != ',',
    decreases s.len(),
{
    if s.len() > 0 && s[0] != ',' {
        lemma_first_comma(s.drop_first());
        assert forall|j: int| 0 <= j < first_comma(s) implies s[j] != ',' by {
            if j > 0 {
                assert(s.drop_first()[j - 1] == s[j]);
            }
        }
    }
}

/// Everything before the first comma; the whole text when it has none.
pub open spec fn comma_head(s: Seq<char>) -> Seq<char> {
    s.take(first_comma(s))
}

/// The part of the text before the first comma, as [`comma_head`]
/// describes it.
pub fn before_comma(s: &str) -> (r: String)
    ensures
        r@ == comma_head(s@),
{
    let h = s.unicode_len();
    proof {
        lemma_first_comma(s@);
        assert(s@.skip(0) =~= s@);
    }
    let mut i: usize = 0;
    while i < h
        invariant
            h == s@.len(),
            i <= h,
            first_comma(s@) == i + first_comma(s@.skip(i as int)),
            forall|j: int| 0 <= j < i ==> s@[j] != ',',
        decreases h - i,
    {
        proof {
            assert(s@.skip(i as int)[0] == s@[i as int]);
            assert(s@.skip(i as int).drop_first() =~= s@.skip(i + 1));
        }
        if s.get_char(i) == ',' {
            return s.substring_char(0, i).to_owned();
        }
        i += 1;
    }
    proof {
        assert(s@.skip(h as int) =~= Seq::<char>::empty());
        assert(s@.take(h as int) =~= s@);
    }
    s.to_owned()
}

/// One raw entry of a registry uninstall root, together with the
/// existence answers the caller gathered for the paths the contracts
/// derive from it.
pub struct RegistryEntry {
    /// The display-name value, absent when the subkey has none.
    pub display_name: Option<String>,
    pub publisher: Option<String>,
    pub display_version: Option<String>,
    pub install_location: Option<String>,
    pub uninstall_string: Option<String>,
    /// The display-icon value, raw.
    pub display_icon: Option<String>,
    /// Does [`registry_primary`] of this entry name an existing path?
    pub primary_exists: bool,
    /// Does [`registry_fallback`] of this entry name an existing path?
    pub fallback_exists: bool,
    /// Does [`registry_icon_head`] of this entry name an existing file?
    pub icon_exists: bool,
}

/// The cleaned install location taken from the explicit field, or from
/// the uninstall command when the field is absent.
pub open spec fn registry_primary(e: RegistryEntry) -> Seq<char> {
    let raw = match e.install_location {
        Some(l) => l@,
        None => opt_text(e.uninstall_string),
    };
    clean_of(trim_of(raw))
}

/// The cleaned install location derived from the uninstall command
/// alone, the retry source when the primary does not exist.
pub open spec fn registry_fallback(e: RegistryEntry) -> Seq<char> {
    clean_of(trim_of(opt_text(e.uninstall_string)))
}

/// The icon path taken from the display-icon value: the part before the
/// first comma, trimmed.
pub open spec fn registry_icon_head(e: RegistryEntry) -> Seq<char> {
    trim_of(comma_head(opt_text(e.display_icon)))
}

/// The install location the candidate carries: the primary when it is
/// non-empty and exists, else the fallback when that is non-empty and
/// exists, else the primary as it is.
pub open spec fn registry_location(e: RegistryEntry) -> Seq<char> {
    let primary = registry_primary(e);
    let fallback = registry_fallback(e);
    if primary.len() > 0 && e.primary_exists {
        primary
    } else if fallback.len() > 0 && e.fallback_exists {
        fallback
    } else {
        primary
    }
}

/// The candidate a registry entry yields: none when the display name is
/// absent or blank; otherwise the trimmed fields, the install location
/// of [`registry_location`], and the display icon when it exists.
pub open spec fn registry_view(e: RegistryEntry, kind: SourceKind) -> Option<AppView> {
    let name = trim_of(opt_text(e.display_name));
    if e.display_name is None || name.len() == 0 {
        None
    } else {
        let icon = registry_icon_head(e);
        Some(
            AppView {
                name: name,
                publisher: trim_of(opt_text(e.publisher)),
                install_location: registry_location(e),
                display_version: trim_of(opt_text(e.display_version)),
                icon_path: if icon.len() > 0 && e.icon_exists {
                    Some(icon)
                } else {
                    None
                },
                uninstall_string: match e.uninstall_string {
                    Some(u) => Some(trim_of(u@)),
                    None => None,
                },
                source: kind,
            },
        )
    }
}

/// The cleaned primary install location of a registry entry, as
/// [`registry_primary`] describes it.  The caller tests whether this
/// path exists and records the answer in [`RegistryEntry::primary_exists`].
pub fn registry_primary_location(e: &RegistryEntry) -> (r: String)
    ensures
        r@ == registry_primary(*e),
{
    let raw: &str = match &e.install_location {
        Some(l) => l.as_str(),
        None => match &e.uninstall_string {
            Some(u) => u.as_str(),
            None => "",
        },
    };
    proof {
        reveal_strlit("");
        assert(""@ =~= Seq::<char>::empty());
    }
    let t = trim(raw);
    clean_install_location(t.as_str())
}

/// The cleaned fallback install location of a registry entry, as
/// [`registry_fallback`] describes it.  The caller tests whether this
/// path exists and records the answer in [`RegistryEntry::fallback_exists`].
pub fn registry_fallback_location(e: &RegistryEntry) -> (r: String)
    ensures
        r@ == registry_fallback(*e),
{
    let raw: &str = match &e.uninstall_string {
        Some(u) => u.as_str(),
        None => "",
    };
    proof {
        reveal_strlit("");
        assert(""@ =~= Seq::<char>::empty());
    }
    let t = trim(raw);
    clean_install_location(t.as_str())
}

/// The icon path named by the display-icon value, as
/// [`registry_icon_head`] describes it.  The caller tests whether this
/// file exists and records the answer in [`RegistryEntry::icon_exists`].
pub fn registry_icon_candidate(e: &RegistryEntry) -> (r: String)
    ensures
        r@ == registry_icon_head(*e),
{
    let raw: &str = match &e.display_icon {
        Some(d) => d.as_str(),
        None => "",
    };
    proof {
        reveal_strlit("");
        assert(""@ =~= Seq::<char>::empty());
    }
    let head = before_comma(raw);
    trim(head.as_str())
}

/// Build the candidate of one registry entry, as [`registry_view`]
/// describes it.
pub fn registry_candidate(e: &RegistryEntry, kind: SourceKind) -> (r: Option<InstalledApp>)
    ensures
        opt_view(r) == registry_view(*e, kind),
{
    let name: String = match &e.display_name {
        Some(n) => trim(n.as_str()),
        None => {
            return None;
        },
    };
    if name.as_str().is_empty() {
        return None;
    }
    let publisher: String = match &e.publisher {
        Some(p) => trim(p.as_str()),
        None => {
            proof {
                reveal_strlit("");
                assert(""@ =~= Seq::<char>::empty());
            }
            String::new()
        },
    };
    let display_version: String = match &e.display_version {
        Some(v) => trim(v.as_str()),
        None => String::new(),
    };
    let uninstall_string: Option<String> = match &e.uninstall_string {
        Some(u) => Some(trim(u.as_str())),
        None => None,
    };
    let primary = registry_primary_location(e);
    let fallback = registry_fallback_location(e);
    let install_location: String = if !primary.as_str().is_empty() && e.primary_exists {
        primary
    } else if !fallback.as_str().is_empty() && e.fallback_exists {
        fallback
    } else {
        primary
    };
    let icon = registry_icon_candidate(e);
    let icon_path: Option<String> = if !icon.as_str().is_empty() && e.icon_exists {
        Some(icon)
    } else {
        None
    };
    proof {
        assert(trim_of(Seq::<char>::empty()) =~= Seq::<char>::empty());
    }
    Some(
        InstalledApp {
            name,
            publisher,
            install_location,
            display_version,
            icon_path,
            uninstall_string,
            source: kind,
        },
    )
}

/// One resolved start-menu shortcut, together with the existence
/// answers the caller gathered while resolving it.
pub struct ShortcutEntry {
    /// The shortcut's file name without its extension.
    pub link_stem: String,
    /// The shortcut's embedded description, when it has one.
    pub description: Option<String>,
    /// The resolved target path, when the shortcut has one.
    pub target: Option<String>,
    /// Does the target path exist on disk?
    pub target_exists: bool,
    /// The recorded working directory, when the shortcut has one.
    pub working_dir: Option<String>,
    /// Does the working directory exist on disk?
    pub working_dir_exists: bool,
    /// The recorded icon location, raw.
    pub icon_location: Option<String>,
    /// Does [`shortcut_icon_head`] of this entry name an existing file?
    pub icon_exists: bool,
}

/// Does the shortcut's target mark it as an uninstaller or a system
/// binary?  All comparisons are case-insensitive.
pub open spec fn shortcut_target_flagged(target: Seq<char>) -> bool {
    ||| has_sub(fold(target), "uninstall"@)
    ||| has_sub(fold(target), "unins000"@)
    ||| has_sub(fold(target), "system32"@)
    ||| has_sub(fold(target), "syswow64"@)
}

/// The icon path named by the shortcut's icon location: the part before
/// the first comma, trimmed.
pub open spec fn shortcut_icon_head(e: ShortcutEntry) -> Seq<char> {
    trim_of(comma_head(opt_text(e.icon_location)))
}

/// The display name of a shortcut candidate: the description when it is
/// not blank, else the shortcut's file name when that is not blank,
/// else the target's file stem.
pub open spec fn shortcut_name(e: ShortcutEntry) -> Seq<char> {
    if trim_of(opt_text(e.description)).len() > 0 {
        opt_text(e.description)
    } else if trim_of(e.link_stem@).len() > 0 {
        e.link_stem@
    } else {
        stem_of(opt_text(e.target))
    }
}

/// The candidate a shortcut yields: none when it has no target, when
/// the target marks an uninstaller or system binary, or when no name
/// can be derived.  The install location is the target's directory when
/// the target exists, else the working directory when that exists; the
/// icon is the recorded icon location when it exists, else the target.
pub open spec fn shortcut_view(e: ShortcutEntry) -> Option<AppView> {
    let target = opt_text(e.target);
    if target.len() == 0 || shortcut_target_flagged(target) {
        None
    } else {
        let name = shortcut_name(e);
        if name.len() == 0 {
            None
        } else {
            let icon = shortcut_icon_head(e);
            Some(
                AppView {
                    name: name,
                    publisher: Seq::<char>::empty(),
                    install_location: if e.target_exists {
                        parent_of(target)
                    } else if opt_text(e.working_dir).len() > 0 && e.working_dir_exists {
                        opt_text(e.working_dir)
                    } else {
                        Seq::<char>::empty()
                    },
                    display_version: Seq::<char>::empty(),
                    icon_path: if icon.len() > 0 && e.icon_exists {
                        Some(icon)
                    } else if e.target_exists {
                        Some(target)
                    } else {
                        None
                    },
                    uninstall_string: None,
                    source: SourceKind::StartMenuShortcut,
                },
            )
        }
    }
}

/// The icon path named by the shortcut's icon location, as
/// [`shortcut_icon_head`] describes it.  The caller tests whether this
/// file exists and records the answer in [`ShortcutEntry::icon_exists`].
pub fn shortcut_icon_candidate(e: &ShortcutEntry) -> (r: String)
    ensures
        r@ == shortcut_icon_head(*e),
{
    let raw: &str = match &e.icon_location {
        Some(l) => l.as_str(),
        None => "",
    };
    proof {
        reveal_strlit("");
        assert(""@ =~= Seq::<char>::empty());
    }
    let head = before_comma(raw);
    trim(head.as_str())
}

/// Build the candidate of one resolved shortcut, as [`shortcut_view`]
/// describes it.
pub fn shortcut_candidate(e: &ShortcutEntry) -> (r: Option<InstalledApp>)
    ensures
        opt_view(r) == shortcut_view(*e),
{
    proof {
        reveal_strlit("");
        assert(""@ =~= Seq::<char>::empty());
    }
    let target: &str = match &e.target {
        Some(t) => t.as_str(),
        None => "",
    };
    if target.is_empty() {
        return None;
    }
    if contains_folded(target, "uninstall") || contains_folded(target, "unins000")
        || contains_folded(target, "system32") || contains_folded(target, "syswow64") {
        return None;
    }
    let name: String = {
        let desc: &str = match &e.description {
            Some(d) => d.as_str(),
            None => "",
        };
        let desc_trimmed = trim(desc);
        if !desc_trimmed.as_str().is_empty() {
            desc.to_owned()
        } else {
            let stem_trimmed = trim(e.link_stem.as_str());
            if !stem_trimmed.as_str().is_empty() {
                e.link_stem.as_str().to_owned()
            } else {
                file_stem(target)
            }
        }
    };
    proof {
        assert(trim_of(Seq::<char>::empty()) =~= Seq::<char>::empty());
    }
    if name.as_str().is_empty() {
        return None;
    }
    let install_location: String = if e.target_exists {
        parent_dir(target)
    } else {
        let wd: &str = match &e.working_dir {
            Some(w) => w.as_str(),
            None => "",
        };
        if !wd.is_empty() && e.working_dir_exists {
            wd.to_owned()
        } else {
            String::new()
        }
    };
    let icon = shortcut_icon_candidate(e);
    let icon_path: Option<String> = if !icon.as_str().is_empty() && e.icon_exists {
        Some(icon)
    } else if e.target_exists {
        Some(target.to_owned())
    } else {
        None
    };
    Some(
        InstalledApp {
            name,
            publisher: String::new(),
            install_location,
            display_version: String::new(),
            icon_path,
            uninstall_string: None,
            source: SourceKind::StartMenuShortcut,
        },
    )
}

/// One executable file found while walking the user data directories,
/// together with the external file description when one was available.
pub struct ExecutableEntry {
    /// The full path of the executable.
    pub path: String,
    /// The file-metadata description, trimmed, when it is not blank.
    pub description: Option<String>,
}

/// Does the executable's path place it under a system binaries or
/// scratch directory?  All comparisons are case-insensitive.
pub open spec fn executable_path_flagged(path: Seq<char>) -> bool {
    ||| has_sub(fold(path), "\\windows\\system32\\"@)
    ||| has_sub(fold(path), "\\windows\\syswow64\\"@)
    ||| has_sub(fold(path), "\\windows\\temp\\"@)
    ||| has_sub(fold(path), "\\windows\\cache\\"@)
}

/// Does the executable's file stem mark it as an uninstaller, or as a
/// setup binary sitting in a scratch directory?
pub open spec fn executable_stem_flagged(path: Seq<char>) -> bool {
    let stem = stem_of(path);
    ||| has_sub(fold(stem), "uninstall"@)
    ||| has_sub(fold(stem), "unins000"@)
    ||| (fold(stem) == fold("setup"@) && has_sub(fold(path), "temp"@))
}

/// The candidate an executable yields: none under a system or scratch
/// directory, none for an uninstaller or empty stem; otherwise the
/// description as its name, or the camel-case spacing of the stem, the
/// containing directory as install location, and the executable itself
/// as icon.
pub open spec fn executable_view(e: ExecutableEntry) -> Option<AppView> {
    if executable_path_flagged(e.path@) {
        None
    } else {
        let stem = stem_of(e.path@);
        if stem.len() == 0 || executable_stem_flagged(e.path@) {
            None
        } else {
            let name = match e.description {
                Some(d) => d@,
                None => camel_spaced(stem),
            };
            if name.len() == 0 {
                None
            } else {
                Some(
                    AppView {
                        name: name,
                        publisher: Seq::<char>::empty(),
                        install_location: parent_of(e.path@),
                        display_version: Seq::<char>::empty(),
                        icon_path: Some(e.path@),
                        uninstall_string: None,
                        source: SourceKind::PortableExecutable,
                    },
                )
            }
        }
    }
}

/// Build the candidate of one executable file, as [`executable_view`]
/// describes it.
pub fn executable_candidate(e: &ExecutableEntry) -> (r: Option<InstalledApp>)
    ensures
        opt_view(r) == executable_view(*e),
{
    let path = e.path.as_str();
    if contains_folded(path, "\\windows\\system32\\") || contains_folded(
        path,
        "\\windows\\syswow64\\",
    ) || contains_folded(path, "\\windows\\temp\\") || contains_folded(
        path,
        "\\windows\\cache\\",
    ) {
        return None;
    }
    let stem = file_stem(path);
    if stem.as_str().is_empty() {
        return None;
    }
    if contains_folded(stem.as_str(), "uninstall") || contains_folded(stem.as_str(), "unins000")
        || (eq_folded(stem.as_str(), "setup") && contains_folded(path, "temp")) {
        return None;
    }
    let name: String = match &e.description {
        Some(d) => d.as_str().to_owned(),
        None => add_spaces_to_camel_case(stem.as_str()),
    };
    if name.as_str().is_empty() {
        return None;
    }
    Some(
        InstalledApp {
            name,
            publisher: String::new(),
            install_location: parent_dir(path),
            display_version: String::new(),
            icon_path: Some(path.to_owned()),
            uninstall_string: None,
            source: SourceKind::PortableExecutable,
        },
    )
}

/// Should the walk of the user data directories skip this directory?
/// Near the roots it skips a fixed set of noisy names and every name
/// starting with a dot; at any depth it skips scratch directories.
pub open spec fn skip_dir(name: Seq<char>, depth: int) -> bool {
    let f = fold(name);
    ||| (depth <= 1 && (f == fold("microsoft"@) || f == fold("packages"@) || f == fold(
        "crashdumps"@,
    ) || (name.len() > 0 && name[0] == '.')))
    ||| f == fold("temp"@)
    ||| f == fold("cache"@)
    ||| f == fold("logs"@)
}

/// Should the walk skip this directory, as [`skip_dir`] describes it?
pub fn skip_directory(name: &str, depth: usize) -> (r: bool)
    ensures
        r == skip_dir(name@, depth as int),
{
    let dotted = name.unicode_len() > 0 && name.get_char(0) == '.';
    ||| (depth <= 1 && (eq_folded(name, "microsoft") || eq_folded(name, "packages") || eq_folded(
        name,
        "crashdumps",
    ) || dotted))
    ||| eq_folded(name, "temp")
    ||| eq_folded(name, "cache")
    ||| eq_folded(name, "logs")
}

/// One entry of the scripted source's output, together with the
/// existence answer for its icon field.
pub struct ScriptedEntry {
    /// The entry's display name.
    pub name: String,
    /// The entry's executable or package path.
    pub path: String,
    /// The recorded launch arguments, when the entry has any.
    pub args: Option<String>,
    /// The recorded icon field, raw.
    pub icon: Option<String>,
    /// Does the icon field, read as a path, name an existing file?
    pub icon_exists: bool,
    /// The sub-source tag the script assigned to the entry.
    pub source: String,
}

/// Does the icon field hold inline encoded image data rather than a
/// path: a data-URI prefix, or a very long value?
pub open spec fn scripted_icon_inline(icon: Seq<char>) -> bool {
    has_prefix(icon, "data:"@) || icon.len() > 200
}

/// The icon the scripted candidate carries: an inline icon field is
/// unusable, a path icon is used when it exists, and the entry's own
/// path stands in whenever it ends in an executable extension.
pub open spec fn scripted_icon(e: ScriptedEntry) -> Option<Seq<char>> {
    let exe = has_suffix(e.path@, ".exe"@);
    match e.icon {
        Some(ic) => {
            if scripted_icon_inline(ic@) {
                if exe {
                    Some(e.path@)
                } else {
                    None
                }
            } else if e.icon_exists {
                Some(ic@)
            } else if exe {
                Some(e.path@)
            } else {
                None
            }
        },
        None => if exe {
            Some(e.path@)
        } else {
            None
        },
    }
}

/// The candidate a scripted entry yields: a packaged app keeps its
/// launch arguments as install location, anything else the directory of
/// its path; the icon follows [`scripted_icon`].
pub open spec fn scripted_view(e: ScriptedEntry) -> AppView {
    AppView {
        name: e.name@,
        publisher: Seq::<char>::empty(),
        install_location: if e.source@ == "uwp"@ {
            opt_text(e.args)
        } else {
            parent_of(e.path@)
        },
        display_version: Seq::<char>::empty(),
        icon_path: scripted_icon(e),
        uninstall_string: None,
        source: SourceKind::ScriptedSource,
    }
}

/// Build the candidate of one scripted entry, as [`scripted_view`]
/// describes it.
pub fn scripted_candidate(e: &ScriptedEntry) -> (r: InstalledApp)
    ensures
        r@ == scripted_view(*e),
{
    proof {
        reveal_strlit("");
        assert(""@ =~= Seq::<char>::empty());
    }
    let install_location: String = if eq_exact(e.source.as_str(), "uwp") {
        match &e.args {
            Some(a) => a.as_str().to_owned(),
            None => String::new(),
        }
    } else {
        parent_dir(e.path.as_str())
    };
    let exe = {
        let p = e.path.as_str();
        let h = p.unicode_len();
        let n = ".exe".unicode_len();
        if n > h {
            false
        } else {
            let tail = p.substring_char(h - n, h);
            proof {
                assert(p@.subrange(p@.len() - ".exe"@.len(), p@.len() as int) == tail@);
            }
            eq_exact(tail, ".exe")
        }
    };
    let icon_path: Option<String> = match &e.icon {
        Some(ic) => {
            let inline = starts_with_exact(ic.as_str(), "data:") || ic.as_str().unicode_len()
                > 200;
            if inline {
                if exe {
                    Some(e.path.as_str().to_owned())
                } else {
                    None
                }
            } else if e.icon_exists {
                Some(ic.as_str().to_owned())
            } else if exe {
                Some(e.path.as_str().to_owned())
            } else {
                None
            }
        },
        None => if exe {
            Some(e.path.as_str().to_owned())
        } else {
            None
        },
    };
    InstalledApp {
        name: e.name.as_str().to_owned(),
        publisher: String::new(),
        install_location,
        display_version: String::new(),
        icon_path,
        uninstall_string: None,
        source: SourceKind::ScriptedSource,
    }
}

/// Two optional fields carry the same text: both absent, or both
/// present with equal views.
pub open spec fn opt_similar(a: Option<String>, b: Option<String>) -> bool {
    match (a, b) {
        (Some(x), Some(y)) => x@ == y@,
        (None, None) => true,
        _ => false,
    }
}

/// Two registry entries carry the same raw data and the same existence
/// answers.
pub open spec fn registry_similar(a: RegistryEntry, b: RegistryEntry) -> bool {
    &&& opt_similar(a.display_name, b.display_name)
    &&& opt_similar(a.publisher, b.publisher)
    &&& opt_similar(a.display_version, b.display_version)
    &&& opt_similar(a.install_location, b.install_location)
    &&& opt_similar(a.uninstall_string, b.uninstall_string)
    &&& opt_similar(a.display_icon, b.display_icon)
    &&& a.primary_exists == b.primary_exists
    &&& a.fallback_exists == b.fallback_exists
    &&& a.icon_exists == b.icon_exists
}

/// Two shortcut entries carry the same resolved data and the same
/// existence answers.
pub open spec fn shortcut_similar(a: ShortcutEntry, b: ShortcutEntry) -> bool {
    &&& a.link_stem@ == b.link_stem@
    &&& opt_similar(a.description, b.description)
    &&& opt_similar(a.target, b.target)
    &&& a.target_exists == b.target_exists
    &&& opt_similar(a.working_dir, b.working_dir)
    &&& a.working_dir_exists == b.working_dir_exists
    &&& opt_similar(a.icon_location, b.icon_location)
    &&& a.icon_exists == b.icon_exists
}

/// Two executable entries carry the same path and description.
pub open spec fn executable_similar(a: ExecutableEntry, b: ExecutableEntry) -> bool {
    &&& a.path@ == b.path@
    &&& opt_similar(a.description, b.description)
}

/// Two scripted entries carry the same fields and the same existence
/// answer.
pub open spec fn scripted_similar(a: ScriptedEntry, b: ScriptedEntry) -> bool {
    &&& a.name@ == b.name@
    &&& a.path@ == b.path@
    &&& opt_similar(a.args, b.args)
    &&& opt_similar(a.icon, b.icon)
    &&& a.icon_exists == b.icon_exists
    &&& a.source@ == b.source@
}

/// The registry candidate depends only on the entry's data, not on
/// which strings carry it.
pub proof fn lemma_registry_view_congruent(a: RegistryEntry, b: RegistryEntry, kind: SourceKind)
    requires
        registry_similar(a, b),
    ensures
        registry_view(a, kind) == registry_view(b, kind),
{
    assert(opt_text(a.display_name) == opt_text(b.display_name));
    assert(opt_text(a.uninstall_string) == opt_text(b.uninstall_string));
    assert(opt_text(a.display_icon) == opt_text(b.display_icon));
    assert(registry_primary(a) == registry_primary(b));
    assert(registry_fallback(a) == registry_fallback(b));
    assert(registry_icon_head(a) == registry_icon_head(b));
}

/// The shortcut candidate depends only on the entry's data.
pub proof fn lemma_shortcut_view_congruent(a: ShortcutEntry, b: ShortcutEntry)
    requires
        shortcut_similar(a, b),
    ensures
        shortcut_view(a) == shortcut_view(b),
{
    assert(opt_text(a.target) == opt_text(b.target));
    assert(opt_text(a.description) == opt_text(b.description));
    assert(opt_text(a.working_dir) == opt_text(b.working_dir));
    assert(opt_text(a.icon_location) == opt_text(b.icon_location));
    assert(shortcut_icon_head(a) == shortcut_icon_head(b));
    assert(shortcut_name(a) == shortcut_name(b));
}

/// The executable candidate depends only on the entry's data.
pub proof fn lemma_executable_view_congruent(a: ExecutableEntry, b: ExecutableEntry)
    requires
        executable_similar(a, b),
    ensures
        executable_view(a) == executable_view(b),
{
}

/// The scripted candidate depends only on the entry's data.
pub proof fn lemma_scripted_view_congruent(a: ScriptedEntry, b: ScriptedEntry)
    requires
        scripted_similar(a, b),
    ensures
        scripted_view(a) == scripted_view(b),
{
    assert(opt_text(a.args) == opt_text(b.args));
    assert(scripted_icon(a) == scripted_icon(b));
}

/// Exact prefix test.
fn starts_with_exact(hay: &str, pat: &str) -> (r: bool)
    ensures
        r == has_prefix(hay@, pat@),
{
    let h = hay.unicode_len();
    let n = pat.unicode_len();
    if n > h {
        return false;
    }
    let head = hay.substring_char(0, n);
    proof {
        assert(hay@.subrange(0, pat@.len() as int) == head@);
    }
    eq_exact(head, pat)
}

} // verus!

