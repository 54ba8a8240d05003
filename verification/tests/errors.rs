//! Error messages for the variants the boundary constructs.

use chromium_bookmarks::error::BookmarksError;

#[test]
fn file_not_found_names_the_path() {
    let e = BookmarksError::FileNotFound { path: "/tmp/x/Bookmarks".to_string() };
    assert_eq!(e.message(), "Bookmarks file not found at /tmp/x/Bookmarks");
}

#[test]
fn malformed_json_names_the_path() {
    let e = BookmarksError::MalformedJson { path: "/tmp/x/Bookmarks".to_string() };
    assert_eq!(e.message(), "Failed to parse bookmarks JSON from /tmp/x/Bookmarks");
}

#[test]
fn no_profiles_found_names_the_browser() {
    let e = BookmarksError::NoProfilesFound { browser: "chrome".to_string() };
    assert_eq!(e.message(), "No profiles found for browser: chrome");
}

#[test]
fn unsupported_platform_has_a_fixed_message() {
    let e = BookmarksError::UnsupportedPlatform;
    assert_eq!(e.message(), "Unsupported operating system");
}

#[test]
fn profile_not_found_joins_the_alternatives() {
    let e = BookmarksError::ProfileNotFound {
        profile: "Work".to_string(),
        available: vec!["Default".to_string(), "Profile 1".to_string()],
    };
    assert_eq!(e.message(), "Profile 'Work' not found. Available profiles: Default, Profile 1");
}
