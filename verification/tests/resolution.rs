//! Identifier resolution, selectors, paths and profile listings.

use chromium_bookmarks::browsers::{
    file_base_name, profile_for_selector, resolve_identifier, supported_browsers, BrowserConfig,
    DirEntryInfo, Os, Selector,
};
use chromium_bookmarks::error::BookmarksError;
use chromium_bookmarks::utils::profile::map_numeric_profile_to_name;

fn res_entry(name: &str, is_dir: bool, has_bookmarks_file: bool) -> DirEntryInfo {
    DirEntryInfo { name: name.to_string(), is_dir, has_bookmarks_file }
}

fn res_config(name: &str) -> BrowserConfig {
    supported_browsers()
        .into_iter()
        .find(|b| b.name == name)
        .expect("browser in table")
}

#[test]
fn numeric_selector_resolves_to_brave_index_two() {
    let (browser, selector) = resolve_identifier("brave://bookmarks/2").unwrap();
    assert_eq!(browser.name(), "brave");
    assert_eq!(selector, Selector::Index(2));
}

#[test]
fn named_selector_resolves_to_edge_profile_three() {
    let (browser, selector) = resolve_identifier("edge://bookmarks/Profile 3").unwrap();
    assert_eq!(browser.name(), "edge");
    assert_eq!(selector, Selector::Name("Profile 3".to_string()));
}

#[test]
fn escaped_spaces_in_selectors_are_restored() {
    let (_, s1) = resolve_identifier("edge://bookmarks/Profile%203").unwrap();
    assert_eq!(s1, Selector::Name("Profile 3".to_string()));
    let (_, s2) = resolve_identifier("edge://bookmarks/Profile+3").unwrap();
    assert_eq!(s2, Selector::Name("Profile 3".to_string()));
}

#[test]
fn bare_and_trailing_slash_identifiers_select_all_profiles() {
    let (browser, selector) = resolve_identifier("chrome://bookmarks").unwrap();
    assert_eq!(browser.name(), "chrome");
    assert_eq!(selector, Selector::All);
    let (_, s2) = resolve_identifier("chrome://bookmarks/").unwrap();
    assert_eq!(s2, Selector::All);
}

#[test]
fn unknown_identifiers_list_every_prefix() {
    let err = resolve_identifier("firefox://bookmarks").unwrap_err();
    match &err {
        BookmarksError::UnsupportedIdentifier { url, prefixes } => {
            assert_eq!(url, "firefox://bookmarks");
            assert_eq!(prefixes.len(), 6);
            assert!(prefixes.contains(&"arc://bookmarks".to_string()));
        }
        other => panic!("unexpected error: {:?}", other),
    }
    let msg = err.message();
    assert!(msg.starts_with("Unsupported URL: firefox://bookmarks. Supported prefixes: "));
    assert!(msg.contains("opera://bookmarks"));
}

#[test]
fn platform_paths_join_the_environment_root() {
    let chrome = res_config("chrome");
    let root = chrome
        .platform_user_data_path(Os::Linux, Some("/home/u"))
        .unwrap();
    assert_eq!(root, "/home/u/.config/google-chrome");
    let mac = chrome
        .platform_user_data_path(Os::MacOs, Some("/Users/u"))
        .unwrap();
    assert_eq!(mac, "/Users/u/Library/Application Support/Google/Chrome");
    let win = chrome
        .platform_user_data_path(Os::Windows, Some("C:\\Users\\u\\AppData\\Local"))
        .unwrap();
    assert_eq!(win, "C:\\Users\\u\\AppData\\Local\\Google/Chrome/User Data");
    let err = chrome.platform_user_data_path(Os::Linux, None).unwrap_err();
    assert_eq!(err.message(), "HOME environment variable must be set");
    let err_win = chrome.platform_user_data_path(Os::Windows, None).unwrap_err();
    assert_eq!(err_win.message(), "LOCALAPPDATA environment variable must be set");
}

#[test]
fn bookmarks_paths_differ_between_arc_and_the_rest() {
    let chrome = res_config("chrome");
    let p = chrome
        .bookmarks_path(Os::Linux, "/home/u", Some("Profile 2"), true)
        .unwrap();
    assert_eq!(p, "/home/u/.config/google-chrome/Profile 2/Bookmarks");
    let arc = res_config("arc");
    let q = arc.bookmarks_path(Os::Linux, "/home/u", None, true).unwrap();
    assert_eq!(q, "/home/u/.config/Arc/StorableSidebar.json");
    let missing = chrome
        .bookmarks_path(Os::Linux, "/home/u", Some("Profile 9"), false)
        .unwrap_err();
    assert!(matches!(missing, BookmarksError::ProfileNotFound { .. }));
}

#[test]
fn per_browser_modules_agree_with_the_table() {
    assert_eq!(
        chromium_bookmarks::chrome::find_bookmarks_path(Os::Linux, "/h", None),
        "/h/.config/google-chrome/Default/Bookmarks"
    );
    assert_eq!(
        chromium_bookmarks::brave::find_profile_path(Os::Linux, "/h", Some("Profile 2")),
        "/h/.config/BraveSoftware/Brave-Browser/Profile 2"
    );
    assert_eq!(
        chromium_bookmarks::chromium::find_bookmarks_path(Os::MacOs, "/u", None),
        "/u/Library/Application Support/Chromium/Default/Bookmarks"
    );
    assert_eq!(
        chromium_bookmarks::edge::find_bookmarks_path(Os::Linux, "/h", Some("Profile 1")),
        "/h/.config/microsoft-edge/Profile 1/Bookmarks"
    );
}

#[test]
fn profile_listings_keep_profiles_and_fall_back_to_default() {
    let chrome = res_config("chrome");
    let entries = vec![
        res_entry("Default", true, true),
        res_entry("Profile 1", true, false),
        res_entry("Extensions", true, false),
        res_entry("Custom", true, true),
        res_entry("Bookmarks", false, false),
    ];
    let got = chrome.select_profiles(&entries);
    assert_eq!(
        got,
        vec!["Default".to_string(), "Profile 1".to_string(), "Custom".to_string()]
    );
    let empty: Vec<DirEntryInfo> = Vec::new();
    assert_eq!(chrome.select_profiles(&empty), vec!["Default".to_string()]);
    let arc = res_config("arc");
    let arc_entries = vec![res_entry("Custom", true, true), res_entry("Profile 1", true, false)];
    assert_eq!(arc.select_profiles(&arc_entries), vec!["Profile 1".to_string()]);
}

#[test]
fn index_mapping_uses_sorted_names() {
    let profiles = vec![
        "Profile 2".to_string(),
        "Default".to_string(),
        "Profile 1".to_string(),
    ];
    assert_eq!(map_numeric_profile_to_name(&profiles, 1), Some("Default".to_string()));
    assert_eq!(map_numeric_profile_to_name(&profiles, 2), Some("Profile 1".to_string()));
    assert_eq!(map_numeric_profile_to_name(&profiles, 3), Some("Profile 2".to_string()));
    assert_eq!(map_numeric_profile_to_name(&profiles, 0), None);
    assert_eq!(map_numeric_profile_to_name(&profiles, 4), None);
    let none: Vec<String> = Vec::new();
    assert_eq!(map_numeric_profile_to_name(&none, 1), None);
}

#[test]
fn selectors_resolve_against_the_profile_list() {
    let profiles = vec!["Profile 1".to_string(), "Default".to_string()];
    assert_eq!(profile_for_selector(&profiles, &Selector::All).unwrap(), None);
    assert_eq!(profile_for_selector(&profiles, &Selector::Index(0)).unwrap(), None);
    assert_eq!(
        profile_for_selector(&profiles, &Selector::Index(2)).unwrap(),
        Some("Profile 1".to_string())
    );
    assert_eq!(
        profile_for_selector(&profiles, &Selector::Name("Work".to_string())).unwrap(),
        Some("Work".to_string())
    );
    let err = profile_for_selector(&profiles, &Selector::Index(9)).unwrap_err();
    assert_eq!(
        err.message(),
        "Profile index 9 not found. Available profiles: Profile 1, Default"
    );
}

#[test]
fn base_names_ignore_directories() {
    assert_eq!(file_base_name("/a/b/StorableSidebar.json"), "StorableSidebar.json");
    assert_eq!(file_base_name("C:\\Users\\u\\Bookmarks"), "Bookmarks");
    assert_eq!(file_base_name("Bookmarks"), "Bookmarks");
    assert_eq!(file_base_name("/a/b/"), "");
}
