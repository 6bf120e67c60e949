//! The classification filter: heuristic accept/reject rules that keep
//! uninstallers, updates and maintenance tools out of the inventory.

use vstd::prelude::*;
use crate::text::fold;
use crate::matching::{has_sub, has_prefix, has_suffix};
use crate::matching::{contains_folded, starts_with_folded, ends_with_folded};
use crate::record::{InstalledApp, AppView};

verus! {

/// Does the name look like an update, hotfix, uninstaller or
/// maintenance tool?  All comparisons are case-insensitive.
pub open spec fn name_flagged(name: Seq<char>) -> bool {
    ||| has_sub(fold(name), "update for"@)
    ||| has_sub(fold(name), "security update"@)
    ||| has_sub(fold(name), "hotfix"@)
    ||| (has_prefix(fold(name), "microsoft "@) && has_sub(fold(name), "update"@))
    ||| has_sub(fold(name), "uninstall"@)
    ||| has_sub(fold(name), "maintenance service"@)
    ||| has_suffix(fold(name), " uninstaller"@)
}

/// Does the install location point at an uninstaller or maintenance
/// tool?  All comparisons are case-insensitive.
pub open spec fn location_flagged(loc: Seq<char>) -> bool {
    ||| has_sub(fold(loc), "uninstall"@)
    ||| has_sub(fold(loc), "maintenance service"@)
    ||| has_suffix(fold(loc), "uninstall.exe"@)
    ||| has_suffix(fold(loc), "unins000.exe"@)
}

/// A record the filter lets through: a non-empty name that no name
/// heuristic flags, and an install location that no path heuristic
/// flags.
pub open spec fn record_accepted(a: AppView) -> bool {
    &&& a.name.len() > 0
    &&& !name_flagged(a.name)
    &&& !location_flagged(a.install_location)
}

/// Is the name flagged, as [`name_flagged`] describes it?
pub fn name_rejected(name: &str) -> (r: bool)
    ensures
        r == name_flagged(name@),
{
    ||| contains_folded(name, "update for")
    ||| contains_folded(name, "security update")
    ||| contains_folded(name, "hotfix")
    ||| (starts_with_folded(name, "microsoft ") && contains_folded(name, "update"))
    ||| contains_folded(name, "uninstall")
    ||| contains_folded(name, "maintenance service")
    ||| ends_with_folded(name, " uninstaller")
}

/// Is the install location flagged, as [`location_flagged`] describes
/// it?
pub fn location_rejected(loc: &str) -> (r: bool)
    ensures
        r == location_flagged(loc@),
{
    ||| contains_folded(loc, "uninstall")
    ||| contains_folded(loc, "maintenance service")
    ||| ends_with_folded(loc, "uninstall.exe")
    ||| ends_with_folded(loc, "unins000.exe")
}

/// Does the filter let the record through, as [`record_accepted`]
/// describes it?
pub fn accepts(a: &InstalledApp) -> (r: bool)
    ensures
        r == record_accepted(a@),
{
    !a.name.as_str().is_empty() && !name_rejected(a.name.as_str()) && !location_rejected(
        a.install_location.as_str(),
    )
}

} // verus!
