use app_inventory::adapters::{ExecutableEntry, RegistryEntry, ScriptedEntry, ShortcutEntry};
use app_inventory::aggregate::{build_inventory, finalize_inventory};
use app_inventory::dedup::is_duplicate;
use app_inventory::icons::{backfill_icons, resolve_icon};
use app_inventory::record::{InstalledApp, ScanError, SourceKind};
use app_inventory::sort::sort_inventory;

fn registry_entry(name: &str, install: &str) -> RegistryEntry {
    RegistryEntry {
        display_name: Some(name.to_string()),
        publisher: None,
        display_version: None,
        install_location: Some(install.to_string()),
        uninstall_string: None,
        display_icon: None,
        primary_exists: true,
        fallback_exists: false,
        icon_exists: false,
    }
}

fn app(name: &str, install: &str, source: SourceKind) -> InstalledApp {
    InstalledApp {
        name: name.to_string(),
        publisher: String::new(),
        install_location: install.to_string(),
        display_version: String::new(),
        icon_path: None,
        uninstall_string: None,
        source,
    }
}

fn no_reg() -> Vec<RegistryEntry> {
    Vec::new()
}

fn no_shortcuts() -> Vec<ShortcutEntry> {
    Vec::new()
}

fn no_exes() -> Vec<ExecutableEntry> {
    Vec::new()
}

fn no_scripted() -> Vec<ScriptedEntry> {
    Vec::new()
}

#[test]
fn higher_trust_source_wins_identity_conflicts() {
    let current_user = vec![registry_entry("Widget", "C:\\Prog\\Widget")];
    let machine64 = vec![registry_entry("widget", "C:\\Prog\\Widget")];
    let inv = build_inventory(
        &current_user,
        &machine64,
        &no_reg(),
        &no_shortcuts(),
        &no_exes(),
        &no_scripted(),
    );
    assert_eq!(inv.len(), 1);
    assert_eq!(inv[0].name, "Widget");
    assert_eq!(inv[0].source, SourceKind::CurrentUserRegistry);
}

#[test]
fn uninstall_shortcut_never_reaches_the_inventory() {
    let shortcuts = vec![ShortcutEntry {
        link_stem: "Uninstall Foo".to_string(),
        description: Some("Uninstall Foo".to_string()),
        target: Some("C:\\Apps\\Foo\\helper.exe".to_string()),
        target_exists: true,
        working_dir: None,
        working_dir_exists: false,
        icon_location: None,
        icon_exists: false,
    }];
    let inv = build_inventory(
        &no_reg(),
        &no_reg(),
        &no_reg(),
        &shortcuts,
        &no_exes(),
        &no_scripted(),
    );
    assert!(inv.is_empty());
}

#[test]
fn empty_sources_yield_an_empty_inventory() {
    let inv = build_inventory(
        &no_reg(),
        &no_reg(),
        &no_reg(),
        &no_shortcuts(),
        &no_exes(),
        &no_scripted(),
    );
    assert!(inv.is_empty());
}

#[test]
fn update_records_are_filtered_out() {
    let current_user = vec![
        registry_entry("Security Update KB5", "C:\\W"),
        registry_entry("Widget", "C:\\Prog\\Widget"),
        registry_entry("Microsoft Edge Update", "C:\\E"),
    ];
    let inv = build_inventory(
        &current_user,
        &no_reg(),
        &no_reg(),
        &no_shortcuts(),
        &no_exes(),
        &no_scripted(),
    );
    assert_eq!(inv.len(), 1);
    assert_eq!(inv[0].name, "Widget");
}

#[test]
fn duplicate_gate_checks_case_insensitive_names() {
    let accepted = vec![app("Widget", "C:\\A", SourceKind::CurrentUserRegistry)];
    assert!(is_duplicate(&app("WIDGET", "D:\\Other", SourceKind::ScriptedSource), &accepted));
    assert!(is_duplicate(&app("Widget", "C:\\A", SourceKind::ScriptedSource), &accepted));
    assert!(!is_duplicate(&app("Gadget", "C:\\A", SourceKind::ScriptedSource), &accepted));
}

#[test]
fn inventory_keeps_distinct_names_from_all_sources() {
    let current_user = vec![registry_entry("Alpha", "C:\\A")];
    let scripted = vec![ScriptedEntry {
        name: "Beta".to_string(),
        path: "C:\\B\\beta.exe".to_string(),
        args: None,
        icon: None,
        icon_exists: false,
        source: "chocolatey".to_string(),
    }];
    let inv = build_inventory(
        &current_user,
        &no_reg(),
        &no_reg(),
        &no_shortcuts(),
        &no_exes(),
        &scripted,
    );
    assert_eq!(inv.len(), 2);
    assert_eq!(inv[0].name, "Alpha");
    assert_eq!(inv[1].name, "Beta");
    assert_eq!(inv[1].source, SourceKind::ScriptedSource);
}

#[test]
fn bare_exe_in_install_location_becomes_the_icon() {
    let record = app("Bar", "C:\\Apps\\Bar", SourceKind::CurrentUserRegistry);
    let found = resolve_icon(&record, &no_shortcuts(), &vec!["Bar.exe".to_string()]);
    assert_eq!(found.as_deref(), Some("C:\\Apps\\Bar\\Bar.exe"));
}

#[test]
fn icon_resolution_prefers_matching_shortcut() {
    let shortcuts = vec![
        ShortcutEntry {
            link_stem: "Other Tool".to_string(),
            description: None,
            target: Some("C:\\O\\o.exe".to_string()),
            target_exists: true,
            working_dir: None,
            working_dir_exists: false,
            icon_location: None,
            icon_exists: false,
        },
        ShortcutEntry {
            link_stem: "Bar Editor".to_string(),
            description: None,
            target: Some("C:\\Apps\\Bar\\bar.exe".to_string()),
            target_exists: true,
            working_dir: None,
            working_dir_exists: false,
            icon_location: Some("C:\\Apps\\Bar\\bar.ico,0".to_string()),
            icon_exists: true,
        },
    ];
    let record = app("Bar", "C:\\Apps\\Bar", SourceKind::CurrentUserRegistry);
    let found = resolve_icon(&record, &shortcuts, &Vec::new());
    assert_eq!(found.as_deref(), Some("C:\\Apps\\Bar\\bar.ico"));
}

#[test]
fn icon_resolution_falls_back_to_shortcut_target() {
    let shortcuts = vec![ShortcutEntry {
        link_stem: "barapp".to_string(),
        description: None,
        target: Some("C:\\Apps\\Bar\\bar.exe".to_string()),
        target_exists: true,
        working_dir: None,
        working_dir_exists: false,
        icon_location: None,
        icon_exists: false,
    }];
    let record = app("Bar", "C:\\Apps\\Bar", SourceKind::CurrentUserRegistry);
    let found = resolve_icon(&record, &shortcuts, &Vec::new());
    assert_eq!(found.as_deref(), Some("C:\\Apps\\Bar\\bar.exe"));
}

#[test]
fn icon_resolution_matches_shortcut_by_name_prefix() {
    let shortcuts = vec![ShortcutEntry {
        link_stem: "widge launcher".to_string(),
        description: None,
        target: Some("C:\\W\\w.exe".to_string()),
        target_exists: true,
        working_dir: None,
        working_dir_exists: false,
        icon_location: None,
        icon_exists: false,
    }];
    let record = app("WidgetPro", "C:\\W", SourceKind::CurrentUserRegistry);
    let found = resolve_icon(&record, &shortcuts, &Vec::new());
    assert_eq!(found.as_deref(), Some("C:\\W\\w.exe"));
}

#[test]
fn icon_resolution_matches_despaced_name_exe() {
    let record = app("My Cool App", "C:\\M", SourceKind::CurrentUserRegistry);
    let files = vec!["readme.txt".to_string(), "MyCoolApp.exe".to_string()];
    let found = resolve_icon(&record, &no_shortcuts(), &files);
    assert_eq!(found.as_deref(), Some("C:\\M\\MyCoolApp.exe"));
}

#[test]
fn icon_resolution_takes_first_exe_as_last_resort() {
    let record = app("Zeta", "C:\\Z", SourceKind::CurrentUserRegistry);
    let files = vec!["data.bin".to_string(), "runner.exe".to_string(), "other.exe".to_string()];
    let found = resolve_icon(&record, &no_shortcuts(), &files);
    assert_eq!(found.as_deref(), Some("C:\\Z\\runner.exe"));
}

#[test]
fn icon_resolution_can_fail_quietly() {
    let record = app("Zeta", "C:\\Z", SourceKind::CurrentUserRegistry);
    let found = resolve_icon(&record, &no_shortcuts(), &vec!["data.bin".to_string()]);
    assert!(found.is_none());
}

#[test]
fn backfill_leaves_records_with_icons_alone() {
    let mut record = app("Keep", "C:\\K", SourceKind::CurrentUserRegistry);
    record.icon_path = Some("C:\\K\\keep.ico".to_string());
    let out = backfill_icons(
        vec![record],
        &no_shortcuts(),
        &vec![vec!["other.exe".to_string()]],
    );
    assert_eq!(out[0].icon_path.as_deref(), Some("C:\\K\\keep.ico"));
}

#[test]
fn backfill_treats_empty_icon_as_missing() {
    let mut record = app("Bar", "C:\\Apps\\Bar", SourceKind::CurrentUserRegistry);
    record.icon_path = Some(String::new());
    let out = backfill_icons(vec![record], &no_shortcuts(), &vec![vec!["Bar.exe".to_string()]]);
    assert_eq!(out[0].icon_path.as_deref(), Some("C:\\Apps\\Bar\\Bar.exe"));
}

#[test]
fn sort_orders_by_name_ignoring_case() {
    let apps = vec![
        app("beta", "", SourceKind::ScriptedSource),
        app("Alpha", "", SourceKind::ScriptedSource),
        app("gamma", "", SourceKind::ScriptedSource),
        app("Delta", "", SourceKind::ScriptedSource),
    ];
    let sorted = sort_inventory(apps);
    let names: Vec<&str> = sorted.iter().map(|a| a.name.as_str()).collect();
    assert_eq!(names, vec!["Alpha", "beta", "Delta", "gamma"]);
}

#[test]
fn sort_is_stable_for_case_equal_names() {
    let apps = vec![
        app("Same", "C:\\First", SourceKind::CurrentUserRegistry),
        app("same", "C:\\Second", SourceKind::ScriptedSource),
        app("Apple", "", SourceKind::ScriptedSource),
    ];
    let sorted = sort_inventory(apps);
    assert_eq!(sorted[0].name, "Apple");
    assert_eq!(sorted[1].name, "Same");
    assert_eq!(sorted[1].install_location, "C:\\First");
    assert_eq!(sorted[2].name, "same");
    assert_eq!(sorted[2].install_location, "C:\\Second");
}

#[test]
fn finalize_backfills_and_sorts() {
    let apps = vec![
        app("Zeta", "C:\\Z", SourceKind::CurrentUserRegistry),
        app("Bar", "C:\\Apps\\Bar", SourceKind::MachineRegistry64),
    ];
    let listings = vec![Vec::new(), vec!["Bar.exe".to_string()]];
    let response = finalize_inventory(apps, &no_shortcuts(), &listings);
    assert_eq!(response.apps.len(), 2);
    assert_eq!(response.apps[0].name, "Bar");
    assert_eq!(response.apps[0].icon_path.as_deref(), Some("C:\\Apps\\Bar\\Bar.exe"));
    assert_eq!(response.apps[1].name, "Zeta");
    assert!(response.apps[1].icon_path.is_none());
}

#[test]
fn registry_beats_shortcut_for_the_same_name() {
    let current_user = vec![registry_entry("Nice App", "C:\\N")];
    let shortcuts = vec![ShortcutEntry {
        link_stem: "nice app".to_string(),
        description: Some("nice app".to_string()),
        target: Some("C:\\Other\\nice.exe".to_string()),
        target_exists: true,
        working_dir: None,
        working_dir_exists: false,
        icon_location: None,
        icon_exists: false,
    }];
    let inv = build_inventory(
        &current_user,
        &no_reg(),
        &no_reg(),
        &shortcuts,
        &no_exes(),
        &no_scripted(),
    );
    assert_eq!(inv.len(), 1);
    assert_eq!(inv[0].name, "Nice App");
    assert_eq!(inv[0].source, SourceKind::CurrentUserRegistry);
    assert_eq!(inv[0].install_location, "C:\\N");
}

#[test]
fn scripted_entry_with_empty_name_is_dropped() {
    let scripted = vec![ScriptedEntry {
        name: String::new(),
        path: "C:\\B\\tool.exe".to_string(),
        args: None,
        icon: None,
        icon_exists: false,
        source: "scoop".to_string(),
    }];
    let inv = build_inventory(
        &no_reg(),
        &no_reg(),
        &no_reg(),
        &no_shortcuts(),
        &no_exes(),
        &scripted,
    );
    assert!(inv.is_empty());
}

#[test]
fn flagged_install_location_drops_the_record() {
    let current_user = vec![registry_entry("Fine Name", "C:\\Apps\\Uninstall Information")];
    let inv = build_inventory(
        &current_user,
        &no_reg(),
        &no_reg(),
        &no_shortcuts(),
        &no_exes(),
        &no_scripted(),
    );
    assert!(inv.is_empty());
}

#[test]
fn source_unavailable_is_the_one_fatal_error() {
    let e = ScanError::SourceUnavailable;
    assert_eq!(e.describe(), "no baseline source capability is available");
}

#[test]
fn needs_icon_reports_missing_and_empty() {
    let mut record = app("A", "", SourceKind::ScriptedSource);
    assert!(record.needs_icon());
    record.icon_path = Some(String::new());
    assert!(record.needs_icon());
    record.icon_path = Some("C:\\a.ico".to_string());
    assert!(!record.needs_icon());
}
