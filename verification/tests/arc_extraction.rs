//! Extraction from Arc sidebar documents.

use chromium_bookmarks::error::BookmarksError;
use chromium_bookmarks::json::JsonValue;
use chromium_bookmarks::specialized::arc::{
    convert_cf_absolute_time, discover_pinned_container_id, discover_profile_containers,
    extract_arc_bookmarks, extract_arc_bookmarks_for_numeric_profile,
    extract_arc_bookmarks_for_profile,
};

fn arc_obj(fields: Vec<(&str, JsonValue)>) -> JsonValue {
    JsonValue::Obj(fields.into_iter().map(|(k, v)| (k.to_string(), v)).collect())
}

fn arc_str(x: &str) -> JsonValue {
    JsonValue::Str(x.to_string())
}

fn arc_tab_item(parent: &str, url: &str, title: &str) -> JsonValue {
    arc_obj(vec![
        ("parentID", arc_str(parent)),
        (
            "data",
            arc_obj(vec![(
                "tab",
                arc_obj(vec![("savedURL", arc_str(url)), ("savedTitle", arc_str(title))]),
            )]),
        ),
    ])
}

fn arc_default_profile_item(id: &str) -> JsonValue {
    arc_obj(vec![
        ("id", arc_str(id)),
        (
            "data",
            arc_obj(vec![(
                "itemContainer",
                arc_obj(vec![(
                    "containerType",
                    arc_obj(vec![(
                        "topApps",
                        arc_obj(vec![("_0", arc_obj(vec![("default", arc_obj(vec![]))]))]),
                    )]),
                )]),
            )]),
        ),
    ])
}

fn arc_sidebar(items: Vec<JsonValue>) -> JsonValue {
    arc_obj(vec![(
        "sidebar",
        arc_obj(vec![(
            "containers",
            JsonValue::Arr(vec![arc_obj(vec![("items", JsonValue::Arr(items))])]),
        )]),
    )])
}

#[test]
fn default_profile_extraction_returns_its_three_bookmarks() {
    let doc = arc_sidebar(vec![
        arc_default_profile_item("C1"),
        arc_tab_item("C1", "https://a.example/", "A"),
        arc_tab_item("C1", "https://b.example/", "B"),
        arc_tab_item("C1", "https://c.example/", "C"),
        arc_tab_item("elsewhere", "https://d.example/", "D"),
    ]);
    let map = discover_profile_containers(&doc);
    assert_eq!(map.len(), 1);
    assert_eq!(map[0].0, "Default");
    assert_eq!(map[0].1, "C1");
    let got = extract_arc_bookmarks_for_profile(&doc, Some("Default")).unwrap();
    assert_eq!(got.len(), 3);
    assert_eq!(got[0].title, "A");
    assert_eq!(got[0].url, "https://a.example/");
    assert_eq!(got[1].title, "B");
    assert_eq!(got[2].title, "C");
}

#[test]
fn unknown_profile_is_reported_with_the_known_names() {
    let doc = arc_sidebar(vec![
        arc_default_profile_item("C1"),
        arc_tab_item("C1", "https://a.example/", "A"),
    ]);
    let err = extract_arc_bookmarks_for_profile(&doc, Some("Work")).unwrap_err();
    match err {
        BookmarksError::ProfileNotFound { profile, available } => {
            assert_eq!(profile, "Work");
            assert_eq!(available, vec!["Default".to_string()]);
        }
        other => panic!("unexpected error: {:?}", other),
    }
    let doc2 = arc_sidebar(vec![
        arc_default_profile_item("C1"),
        arc_tab_item("C1", "https://a.example/", "A"),
    ]);
    let msg = extract_arc_bookmarks_for_profile(&doc2, Some("Work"))
        .unwrap_err()
        .message();
    assert_eq!(msg, "Profile 'Work' not found. Available profiles: Default");
}

#[test]
fn pinned_fallback_picks_the_most_voted_parent() {
    let mut items = Vec::new();
    for k in 0..5 {
        items.push(arc_tab_item("P1", &format!("https://p1-{}.example/", k), "t"));
    }
    for k in 0..2 {
        items.push(arc_tab_item("P2", &format!("https://p2-{}.example/", k), "t"));
    }
    let doc = arc_sidebar(items);
    assert_eq!(discover_pinned_container_id(&doc), Some("P1".to_string()));
    let got = extract_arc_bookmarks(&doc).unwrap();
    assert_eq!(got.len(), 5);
}

#[test]
fn pinned_fallback_breaks_ties_toward_the_smaller_id() {
    let doc = arc_sidebar(vec![
        arc_tab_item("Z", "https://z.example/", "t"),
        arc_tab_item("A", "https://a.example/", "t"),
    ]);
    assert_eq!(discover_pinned_container_id(&doc), Some("A".to_string()));
}

#[test]
fn items_without_saved_fields_never_vote() {
    let doc = arc_sidebar(vec![
        arc_tab_item("P1", "", "t"),
        arc_tab_item("P2", "https://ok.example/", "null"),
        arc_tab_item("null", "https://ok.example/", "t"),
    ]);
    assert_eq!(discover_pinned_container_id(&doc), None);
    let err = extract_arc_bookmarks(&doc).unwrap_err();
    assert!(matches!(err, BookmarksError::NoContainerDiscoverable));
    assert_eq!(
        err.message(),
        "Could not find any profile containers or pinned bookmarks in Arc data"
    );
}

#[test]
fn linked_data_documents_are_accepted_directly() {
    let doc = arc_obj(vec![(
        "items",
        JsonValue::Arr(vec![
            arc_obj(vec![
                ("@type", arc_str("know:Bookmark")),
                ("title", arc_str("A")),
                ("link", arc_str("https://a.example/")),
            ]),
            arc_obj(vec![("@type", arc_str("something:else"))]),
        ]),
    )]);
    let got = extract_arc_bookmarks(&doc).unwrap();
    assert_eq!(got.len(), 1);
    assert_eq!(got[0].title, "A");
    assert_eq!(got[0].url, "https://a.example/");
    assert_eq!(got[0].created_at, None);
}

#[test]
fn numeric_index_selects_over_sorted_profile_names() {
    let custom = |name: &str, id: &str| {
        arc_obj(vec![
            ("id", arc_str(id)),
            (
                "data",
                arc_obj(vec![(
                    "itemContainer",
                    arc_obj(vec![(
                        "containerType",
                        arc_obj(vec![(
                            "topApps",
                            arc_obj(vec![(
                                "_0",
                                arc_obj(vec![(
                                    "custom",
                                    arc_obj(vec![(
                                        "_0",
                                        arc_obj(vec![("directoryBasename", arc_str(name))]),
                                    )]),
                                )]),
                            )]),
                        )]),
                    )]),
                )]),
            ),
        ])
    };
    let doc = arc_sidebar(vec![
        custom("Work", "W1"),
        custom("Home", "H1"),
        arc_tab_item("W1", "https://w.example/", "W"),
        arc_tab_item("H1", "https://h.example/", "H"),
    ]);
    // sorted names: Home, Work
    let first = extract_arc_bookmarks_for_numeric_profile(&doc, Some(1)).unwrap();
    assert_eq!(first.len(), 1);
    assert_eq!(first[0].title, "H");
    let second = extract_arc_bookmarks_for_numeric_profile(&doc, Some(2)).unwrap();
    assert_eq!(second[0].title, "W");
    let err = extract_arc_bookmarks_for_numeric_profile(&doc, Some(3)).unwrap_err();
    match err {
        BookmarksError::ProfileIndexOutOfRange { index, available } => {
            assert_eq!(index, 3);
            assert_eq!(available, vec!["Work".to_string(), "Home".to_string()]);
        }
        other => panic!("unexpected error: {:?}", other),
    }
}

#[test]
fn created_at_is_read_from_integers_and_decimal_text() {
    let mut item = arc_tab_item("C1", "https://a.example/", "A");
    if let JsonValue::Obj(ref mut fields) = item {
        fields.push(("createdAt".to_string(), JsonValue::Int(700000000)));
    }
    let mut item2 = arc_tab_item("C1", "https://b.example/", "B");
    if let JsonValue::Obj(ref mut fields) = item2 {
        fields.push(("createdAt".to_string(), JsonValue::Frac("700000000.25".to_string())));
    }
    let doc = arc_sidebar(vec![arc_default_profile_item("C1"), item, item2]);
    let got = extract_arc_bookmarks_for_profile(&doc, Some("Default")).unwrap();
    assert_eq!(got[0].created_at, Some(700_000_000_000_000));
    assert_eq!(got[1].created_at, Some(700_000_000_250_000));
}

#[test]
fn cf_time_zero_is_the_chromium_epoch_offset() {
    assert_eq!(convert_cf_absolute_time(0), (978_307_200 + 11_644_473_600) * 1_000_000);
}
