use depends::{classify_name, classify_path, find_location, pick_first, Classification,
    SkipReason};
use depends::text::{base_name, dir_name};

#[test]
fn name_filter_matches_stub_prefixes() {
    assert!(matches!(
        classify_name("api-ms-win-core-util-l1-1-0.dll", false),
        Classification::Skip(SkipReason::NamePattern)
    ));
    assert!(matches!(
        classify_name("ext-ms-win-something.dll", false),
        Classification::Skip(SkipReason::NamePattern)
    ));
    assert!(matches!(classify_name("kernel32.dll", false), Classification::Accept));
}

#[test]
fn name_filter_ignores_ascii_case() {
    assert!(matches!(
        classify_name("API-MS-WIN-CORE-UTIL-L1-1-0.DLL", false),
        Classification::Skip(SkipReason::NamePattern)
    ));
}

#[test]
fn name_filter_disabled_by_show_system() {
    assert!(matches!(
        classify_name("api-ms-win-core-util-l1-1-0.dll", true),
        Classification::Accept
    ));
}

#[test]
fn path_filter_matches_system_directories() {
    assert!(matches!(
        classify_path("C:\\Windows\\System32\\user32.dll", false),
        Classification::Skip(SkipReason::PathPattern)
    ));
    assert!(matches!(
        classify_path("C:\\Program Files (x86)\\Windows Kits\\10\\bin\\x.dll", false),
        Classification::Skip(SkipReason::PathPattern)
    ));
    assert!(matches!(classify_path("C:\\proj\\mylib.dll", false), Classification::Accept));
}

#[test]
fn path_filter_disabled_by_show_system() {
    assert!(matches!(
        classify_path("C:\\Windows\\System32\\user32.dll", true),
        Classification::Accept
    ));
}

#[test]
fn preferred_directory_wins_search_order() {
    // The preferred-directory result is returned even when a fallback
    // exists elsewhere on the search path.
    let preferred = Some("C:/proj/dup.dll".to_string());
    let fallback = Some("C:/elsewhere/dup.dll".to_string());
    assert_eq!(pick_first(preferred, fallback).as_deref(), Some("C:/proj/dup.dll"));
}

#[test]
fn fallback_used_only_when_preferred_missing() {
    let fallback = Some("C:/elsewhere/only.dll".to_string());
    assert_eq!(pick_first(None, fallback).as_deref(), Some("C:/elsewhere/only.dll"));
    assert_eq!(pick_first(None, None), None);
}

#[test]
fn unresolvable_name_reports_not_found() {
    // Nothing plausibly named this exists in the search directory or on
    // the executable search path.
    let r = find_location("no-such-module-anywhere-0f3b.dll", ".");
    assert_eq!(r, None);
}

#[test]
fn path_helpers_split_on_either_separator() {
    assert_eq!(base_name("C:/proj/app.exe"), "app.exe");
    assert_eq!(dir_name("C:/proj/app.exe"), "C:/proj");
    assert_eq!(base_name("C:\\proj\\app.exe"), "app.exe");
    assert_eq!(dir_name("C:\\proj\\app.exe"), "C:\\proj");
    assert_eq!(base_name("app.exe"), "app.exe");
    assert_eq!(dir_name("app.exe"), "");
}
