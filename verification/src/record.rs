//! The candidate record produced by the source adapters and kept in the
//! final inventory, with its mathematical view and the fixed trust order
//! of the sources.

use vstd::prelude::*;
use vstd::string::StringExecFns;

verus! {

/// Which raw source produced a record.
#[derive(Clone, Copy, PartialEq, Eq, Structural, Debug)]
pub enum SourceKind {
    CurrentUserRegistry,
    MachineRegistry64,
    MachineRegistry32,
    StartMenuShortcut,
    PortableExecutable,
    ScriptedSource,
}

/// The fixed trust rank of a source: conflicts between sources are
/// resolved in favour of the higher rank.
pub open spec fn trust_rank(k: SourceKind) -> nat {
    match k {
        SourceKind::CurrentUserRegistry => 5,
        SourceKind::MachineRegistry64 => 4,
        SourceKind::MachineRegistry32 => 3,
        SourceKind::StartMenuShortcut => 2,
        SourceKind::PortableExecutable => 1,
        SourceKind::ScriptedSource => 0,
    }
}

/// One application observation: a candidate before the dedup gate, an
/// inventory member after it.
pub struct InstalledApp {
    /// Display name; always non-empty once a record is accepted.
    pub name: String,
    /// Publisher, empty when unknown.
    pub publisher: String,
    /// Normalized install location, empty when unknown.
    pub install_location: String,
    /// Version string, empty when unknown.
    pub display_version: String,
    /// Path to an icon-bearing file, when one is known.
    pub icon_path: Option<String>,
    /// Raw uninstall invocation, kept only as provenance.
    pub uninstall_string: Option<String>,
    /// Which source produced the record.
    pub source: SourceKind,
}

/// The mathematical view of a record: every text field as a character
/// sequence.
pub struct AppView {
    pub name: Seq<char>,
    pub publisher: Seq<char>,
    pub install_location: Seq<char>,
    pub display_version: Seq<char>,
    pub icon_path: Option<Seq<char>>,
    pub uninstall_string: Option<Seq<char>>,
    pub source: SourceKind,
}

impl View for InstalledApp {
    type V = AppView;

    open spec fn view(&self) -> AppView {
        AppView {
            name: self.name@,
            publisher: self.publisher@,
            install_location: self.install_location@,
            display_version: self.display_version@,
            icon_path: match self.icon_path {
                Some(p) => Some(p@),
                None => None,
            },
            uninstall_string: match self.uninstall_string {
                Some(u) => Some(u@),
                None => None,
            },
            source: self.source,
        }
    }
}

/// The views of a whole sequence of records.
pub open spec fn views(s: Seq<InstalledApp>) -> Seq<AppView> {
    s.map_values(|a: InstalledApp| a@)
}

/// Does the record still need an icon: none recorded, or recorded as the
/// empty string.
pub open spec fn missing_icon(a: AppView) -> bool {
    match a.icon_path {
        None => true,
        Some(p) => p.len() == 0,
    }
}

impl InstalledApp {
    /// Does the record still need an icon?
    pub fn needs_icon(&self) -> (r: bool)
        ensures
            r == missing_icon(self@),
    {
        match &self.icon_path {
            None => true,
            Some(p) => p.as_str().is_empty(),
        }
    }
}

/// The complete inventory, as the consumer receives it.
pub struct AppsResponse {
    pub apps: Vec<InstalledApp>,
}

/// The one fatal failure a scan can report.  A source that merely
/// contributes nothing only reduces coverage, which is never an error:
/// an empty inventory is a valid result.
#[derive(Clone, Copy, PartialEq, Eq, Structural, Debug)]
pub enum ScanError {
    /// No baseline access capability (the registry reader) could be
    /// established at all.
    SourceUnavailable,
}

impl ScanError {
    /// The failure, described in words.
    pub fn describe(&self) -> (r: String)
        ensures
            self is SourceUnavailable ==> r@ == "no baseline source capability is available"@,
    {
        match self {
            ScanError::SourceUnavailable => String::from_str(
                "no baseline source capability is available",
            ),
        }
    }
}

} // verus!
