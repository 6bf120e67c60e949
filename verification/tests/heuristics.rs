use app_inventory::adapters::{
    executable_candidate, registry_candidate, scripted_candidate, shortcut_candidate,
    skip_directory, before_comma, ExecutableEntry, RegistryEntry, ScriptedEntry, ShortcutEntry,
};
use app_inventory::filter::{location_rejected, name_rejected};
use app_inventory::normalize::{add_spaces_to_camel_case, clean_install_location, trim};
use app_inventory::paths::{file_name, file_stem, parent_dir};
use app_inventory::record::SourceKind;
use app_inventory::tokens::tokenize;

fn registry_entry(
    name: Option<&str>,
    install: Option<&str>,
    uninstall: Option<&str>,
) -> RegistryEntry {
    RegistryEntry {
        display_name: name.map(|s| s.to_string()),
        publisher: None,
        display_version: None,
        install_location: install.map(|s| s.to_string()),
        uninstall_string: uninstall.map(|s| s.to_string()),
        display_icon: None,
        primary_exists: true,
        fallback_exists: false,
        icon_exists: false,
    }
}

#[test]
fn clean_strips_quotes_and_uninstaller() {
    let cleaned = clean_install_location("\"C:\\Apps\\Foo\\uninstall.exe\"");
    assert_eq!(cleaned, "C:\\Apps\\Foo");
}

#[test]
fn clean_is_idempotent_on_examples() {
    for raw in [
        "  C:\\Program Files\\Widget  ",
        "\"C:\\Apps\\Foo\\uninstall.exe\"",
        "C:\\X\\Unins000.exe",
        "\"\"doubly quoted\"\"",
        "uninstall.exe",
        "",
    ] {
        let once = clean_install_location(raw);
        let twice = clean_install_location(&once);
        assert_eq!(once, twice);
    }
}

#[test]
fn clean_keeps_plain_paths() {
    assert_eq!(clean_install_location("C:\\Tools\\App"), "C:\\Tools\\App");
    assert_eq!(clean_install_location("  spaced  "), "spaced");
}

#[test]
fn clean_handles_case_insensitive_uninstaller_names() {
    assert_eq!(clean_install_location("C:\\A\\UNINSTALL.EXE"), "C:\\A");
    assert_eq!(clean_install_location("C:\\A\\Unins000.exe"), "C:\\A");
}

#[test]
fn camel_case_spacing_derives_display_name() {
    assert_eq!(add_spaces_to_camel_case("MyCoolApp"), "My Cool App");
}

#[test]
fn camel_case_spacing_leaves_short_and_spaced_names() {
    assert_eq!(add_spaces_to_camel_case("ab"), "ab");
    assert_eq!(add_spaces_to_camel_case("Has Space"), "Has Space");
    assert_eq!(add_spaces_to_camel_case(""), "");
    assert_eq!(add_spaces_to_camel_case("lowercase"), "lowercase");
}

#[test]
fn trim_removes_surrounding_whitespace() {
    assert_eq!(trim("  a b \t"), "a b");
    assert_eq!(trim("\r\n"), "");
}

#[test]
fn name_filter_flags_updates_and_uninstallers() {
    assert!(name_rejected("Update for Windows"));
    assert!(name_rejected("security update KB123"));
    assert!(name_rejected("Some Hotfix"));
    assert!(name_rejected("Microsoft Edge Update Helper"));
    assert!(name_rejected("Uninstall Foo"));
    assert!(name_rejected("Mozilla Maintenance Service"));
    assert!(name_rejected("Foo Uninstaller"));
    assert!(!name_rejected("Widget"));
    assert!(!name_rejected("Microsoft Word"));
}

#[test]
fn location_filter_flags_uninstaller_paths() {
    assert!(location_rejected("C:\\Apps\\Uninstall Information"));
    assert!(location_rejected("C:\\A\\unins000.exe"));
    assert!(location_rejected("C:\\Mozilla Maintenance Service"));
    assert!(!location_rejected("C:\\Program Files\\Widget"));
    assert!(!location_rejected(""));
}

#[test]
fn path_components_follow_windows_rules() {
    assert_eq!(parent_dir("C:\\Apps\\Foo\\bar.exe"), "C:\\Apps\\Foo");
    assert_eq!(parent_dir("bar.exe"), "");
    assert_eq!(file_name("C:\\Apps\\Foo\\bar.exe"), "bar.exe");
    assert_eq!(file_stem("C:\\Apps\\Foo\\bar.exe"), "bar");
    assert_eq!(file_stem("archive.tar.gz"), "archive.tar");
    assert_eq!(file_stem(".hidden"), ".hidden");
    assert_eq!(file_stem("noext"), "noext");
}

#[test]
fn before_comma_takes_the_icon_path() {
    assert_eq!(before_comma("C:\\app.exe,0"), "C:\\app.exe");
    assert_eq!(before_comma("no comma"), "no comma");
}

#[test]
fn tokenize_splits_on_whitespace() {
    assert_eq!(tokenize("My Cool App"), vec!["My", "Cool", "App"]);
    assert_eq!(tokenize("  one  "), vec!["one"]);
    assert_eq!(tokenize(""), Vec::<String>::new());
}

#[test]
fn directory_skip_rules_depend_on_depth() {
    assert!(skip_directory("Microsoft", 0));
    assert!(skip_directory("Packages", 1));
    assert!(skip_directory(".config", 1));
    assert!(!skip_directory("Microsoft", 2));
    assert!(!skip_directory(".config", 2));
    assert!(skip_directory("Temp", 5));
    assert!(skip_directory("cache", 3));
    assert!(skip_directory("LOGS", 2));
    assert!(!skip_directory("MyApp", 0));
}

#[test]
fn registry_entry_without_display_name_is_skipped() {
    assert!(registry_candidate(&registry_entry(None, Some("C:\\X"), None), SourceKind::CurrentUserRegistry).is_none());
    assert!(registry_candidate(&registry_entry(Some("   "), Some("C:\\X"), None), SourceKind::CurrentUserRegistry).is_none());
}

#[test]
fn registry_entry_cleans_and_keeps_fields() {
    let mut e = registry_entry(
        Some("  Widget  "),
        Some("\"C:\\Prog\\Widget\""),
        Some("\"C:\\Prog\\Widget\\uninstall.exe\" /S"),
    );
    e.publisher = Some(" Acme ".to_string());
    e.display_version = Some("1.2".to_string());
    let app = registry_candidate(&e, SourceKind::MachineRegistry64).unwrap();
    assert_eq!(app.name, "Widget");
    assert_eq!(app.publisher, "Acme");
    assert_eq!(app.display_version, "1.2");
    assert_eq!(app.install_location, "C:\\Prog\\Widget");
    assert_eq!(app.source, SourceKind::MachineRegistry64);
    assert!(app.icon_path.is_none());
}

#[test]
fn registry_entry_falls_back_to_uninstall_command() {
    let mut e = registry_entry(Some("Foo"), None, Some("\"C:\\Apps\\Foo\\unins000.exe\""));
    e.primary_exists = true;
    let app = registry_candidate(&e, SourceKind::CurrentUserRegistry).unwrap();
    assert_eq!(app.install_location, "C:\\Apps\\Foo");
}

#[test]
fn registry_entry_retries_when_primary_does_not_exist() {
    let mut e = registry_entry(Some("Foo"), Some("D:\\Gone"), Some("C:\\Apps\\Foo\\uninstall.exe"));
    e.primary_exists = false;
    e.fallback_exists = true;
    let app = registry_candidate(&e, SourceKind::CurrentUserRegistry).unwrap();
    assert_eq!(app.install_location, "C:\\Apps\\Foo");
}

#[test]
fn registry_display_icon_needs_existence() {
    let mut e = registry_entry(Some("Foo"), Some("C:\\Apps\\Foo"), None);
    e.display_icon = Some("C:\\Apps\\Foo\\foo.exe,0".to_string());
    e.icon_exists = true;
    let app = registry_candidate(&e, SourceKind::CurrentUserRegistry).unwrap();
    assert_eq!(app.icon_path.as_deref(), Some("C:\\Apps\\Foo\\foo.exe"));

    e.icon_exists = false;
    let app = registry_candidate(&e, SourceKind::CurrentUserRegistry).unwrap();
    assert!(app.icon_path.is_none());
}

fn shortcut(desc: Option<&str>, stem: &str, target: Option<&str>) -> ShortcutEntry {
    ShortcutEntry {
        link_stem: stem.to_string(),
        description: desc.map(|s| s.to_string()),
        target: target.map(|s| s.to_string()),
        target_exists: true,
        working_dir: None,
        working_dir_exists: false,
        icon_location: None,
        icon_exists: false,
    }
}

#[test]
fn shortcut_discards_uninstaller_targets() {
    assert!(shortcut_candidate(&shortcut(None, "Foo", Some("C:\\A\\uninstall.exe"))).is_none());
    assert!(shortcut_candidate(&shortcut(None, "Foo", Some("C:\\A\\Unins000Setup.exe"))).is_none());
    assert!(shortcut_candidate(&shortcut(None, "Foo", Some("C:\\Windows\\System32\\x.exe"))).is_none());
    assert!(shortcut_candidate(&shortcut(None, "Foo", None)).is_none());
}

#[test]
fn shortcut_name_prefers_description_then_stem_then_target() {
    let a = shortcut_candidate(&shortcut(Some("Nice App"), "nice", Some("C:\\N\\n.exe"))).unwrap();
    assert_eq!(a.name, "Nice App");
    let b = shortcut_candidate(&shortcut(None, "nice", Some("C:\\N\\n.exe"))).unwrap();
    assert_eq!(b.name, "nice");
    let c = shortcut_candidate(&shortcut(None, "  ", Some("C:\\N\\napp.exe"))).unwrap();
    assert_eq!(c.name, "napp");
}

#[test]
fn shortcut_location_and_icon_follow_target() {
    let a = shortcut_candidate(&shortcut(None, "nice", Some("C:\\N\\n.exe"))).unwrap();
    assert_eq!(a.install_location, "C:\\N");
    assert_eq!(a.icon_path.as_deref(), Some("C:\\N\\n.exe"));
    assert_eq!(a.source, SourceKind::StartMenuShortcut);

    let mut e = shortcut(None, "nice", Some("C:\\N\\n.exe"));
    e.target_exists = false;
    e.working_dir = Some("C:\\W".to_string());
    e.working_dir_exists = true;
    let b = shortcut_candidate(&e).unwrap();
    assert_eq!(b.install_location, "C:\\W");
    assert!(b.icon_path.is_none());
}

#[test]
fn executable_under_system_directories_is_skipped() {
    let e = ExecutableEntry {
        path: "C:\\Windows\\System32\\calc.exe".to_string(),
        description: None,
    };
    assert!(executable_candidate(&e).is_none());
    let t = ExecutableEntry {
        path: "C:\\Users\\u\\AppData\\Local\\Temp\\Uninstall.exe".to_string(),
        description: None,
    };
    assert!(executable_candidate(&t).is_none());
}

#[test]
fn executable_derives_camel_case_name() {
    let e = ExecutableEntry {
        path: "C:\\Users\\u\\AppData\\Local\\Cool\\MyCoolApp.exe".to_string(),
        description: None,
    };
    let app = executable_candidate(&e).unwrap();
    assert_eq!(app.name, "My Cool App");
    assert_eq!(app.install_location, "C:\\Users\\u\\AppData\\Local\\Cool");
    assert_eq!(app.icon_path.as_deref(), Some("C:\\Users\\u\\AppData\\Local\\Cool\\MyCoolApp.exe"));
    assert_eq!(app.source, SourceKind::PortableExecutable);
}

#[test]
fn executable_prefers_file_description() {
    let e = ExecutableEntry {
        path: "C:\\U\\MyCoolApp.exe".to_string(),
        description: Some("Branded Name".to_string()),
    };
    assert_eq!(executable_candidate(&e).unwrap().name, "Branded Name");
}

fn scripted(icon: Option<&str>, path: &str, source: &str) -> ScriptedEntry {
    ScriptedEntry {
        name: "Tool".to_string(),
        path: path.to_string(),
        args: None,
        icon: icon.map(|s| s.to_string()),
        icon_exists: false,
        source: source.to_string(),
    }
}

#[test]
fn scripted_uwp_takes_args_as_location() {
    let mut e = scripted(None, "C:\\WindowsApps\\pkg", "uwp");
    e.args = Some("shell:AppsFolder\\pkg!App".to_string());
    let app = scripted_candidate(&e);
    assert_eq!(app.install_location, "shell:AppsFolder\\pkg!App");
    assert_eq!(app.source, SourceKind::ScriptedSource);
}

#[test]
fn scripted_other_sources_use_path_directory() {
    let app = scripted_candidate(&scripted(None, "C:\\Choco\\bin\\tool.exe", "chocolatey"));
    assert_eq!(app.install_location, "C:\\Choco\\bin");
    assert_eq!(app.icon_path.as_deref(), Some("C:\\Choco\\bin\\tool.exe"));
}

#[test]
fn scripted_inline_icon_data_is_unusable() {
    let app = scripted_candidate(&scripted(Some("data:image/png;base64,AAAA"), "C:\\B\\t.exe", "scoop"));
    assert_eq!(app.icon_path.as_deref(), Some("C:\\B\\t.exe"));
    let long_icon = "x".repeat(201);
    let app2 = scripted_candidate(&scripted(Some(&long_icon), "C:\\B\\t", "scoop"));
    assert!(app2.icon_path.is_none());
}

#[test]
fn scripted_icon_path_needs_existence() {
    let mut e = scripted(Some("C:\\B\\icon.ico"), "C:\\B\\t.exe", "scoop");
    e.icon_exists = true;
    assert_eq!(scripted_candidate(&e).icon_path.as_deref(), Some("C:\\B\\icon.ico"));
    e.icon_exists = false;
    assert_eq!(scripted_candidate(&e).icon_path.as_deref(), Some("C:\\B\\t.exe"));
}
