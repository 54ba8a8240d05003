//! Merging transformed per-profile outputs, and file dispatch.

use chromium_bookmarks::bookmarks::BookmarksTransform;
use chromium_bookmarks::browsers::convert_bookmarks_doc;
use chromium_bookmarks::json::JsonValue;

fn mrg_obj(fields: Vec<(&str, JsonValue)>) -> JsonValue {
    JsonValue::Obj(fields.into_iter().map(|(k, v)| (k.to_string(), v)).collect())
}

fn mrg_item(title: &str) -> JsonValue {
    mrg_obj(vec![("title", JsonValue::Str(title.to_string()))])
}

fn mrg_doc(titles: &[&str]) -> JsonValue {
    mrg_obj(vec![(
        "items",
        JsonValue::Arr(titles.iter().map(|t| mrg_item(t)).collect()),
    )])
}

#[test]
fn merging_two_profiles_concatenates_their_items_in_order() {
    let transform = BookmarksTransform::new();
    let merged = transform.execute_multiple(vec![mrg_doc(&["a1", "a2"]), mrg_doc(&["b1", "b2"])]);
    let items = merged.get("items").expect("items").as_arr().expect("array");
    assert_eq!(items.len(), 4);
    assert_eq!(items[0].get_str("title"), Some("a1"));
    assert_eq!(items[1].get_str("title"), Some("a2"));
    assert_eq!(items[2].get_str("title"), Some("b1"));
    assert_eq!(items[3].get_str("title"), Some("b2"));
    let ctx = merged.get("@context").expect("context");
    assert_eq!(ctx.get_str("know"), Some("https://know.dev/"));
    assert_eq!(ctx.get_str("rdfs"), Some("http://www.w3.org/2000/01/rdf-schema#"));
    assert_eq!(ctx.get_str("xsd"), Some("http://www.w3.org/2001/XMLSchema#"));
    let items_term = ctx.get("items").expect("items term");
    assert_eq!(items_term.get_str("@id"), Some("rdfs:member"));
    assert_eq!(items_term.get_str("@type"), Some("know:UserAccount"));
    assert_eq!(items_term.get_str("@container"), Some("@set"));
    let created = ctx.get("created").expect("created term");
    assert_eq!(created.get_str("@id"), Some("know:created"));
    assert_eq!(created.get_str("@type"), Some("xsd:dateTime"));
    let title = ctx.get("title").expect("title term");
    assert_eq!(title.get_str("@id"), Some("know:title"));
    assert_eq!(title.get_str("@language"), Some("en"));
    let link = ctx.get("link").expect("link term");
    assert_eq!(link.get_str("@id"), Some("know:link"));
    assert_eq!(link.get_str("@type"), Some("xsd:anyURI"));
}

#[test]
fn merging_zero_profiles_yields_the_empty_object() {
    let transform = BookmarksTransform::new();
    let merged = transform.execute_multiple(vec![]);
    assert_eq!(merged, JsonValue::Obj(vec![]));
}

#[test]
fn a_single_profile_passes_through_unchanged() {
    let transform = BookmarksTransform::new();
    let merged = transform.execute_multiple(vec![mrg_doc(&["only"])]);
    assert_eq!(merged, mrg_doc(&["only"]));
}

#[test]
fn documents_without_items_contribute_nothing() {
    let transform = BookmarksTransform::new();
    let merged = transform.execute_multiple(vec![
        mrg_doc(&["a"]),
        mrg_obj(vec![("unrelated", JsonValue::Int(1))]),
        mrg_doc(&["b"]),
    ]);
    let items = merged.get("items").unwrap().as_arr().unwrap();
    assert_eq!(items.len(), 2);
}

#[test]
fn non_sidebar_files_pass_through_unchanged() {
    let doc = mrg_obj(vec![("roots", JsonValue::Null)]);
    let out = convert_bookmarks_doc("/p/Default/Bookmarks", doc, None).unwrap();
    assert_eq!(out, mrg_obj(vec![("roots", JsonValue::Null)]));
}

#[test]
fn sidebar_files_honor_numeric_profile_selection() {
    let profile_marker = mrg_obj(vec![
        ("id", JsonValue::Str("C1".to_string())),
        (
            "data",
            mrg_obj(vec![(
                "itemContainer",
                mrg_obj(vec![(
                    "containerType",
                    mrg_obj(vec![(
                        "topApps",
                        mrg_obj(vec![("_0", mrg_obj(vec![("default", mrg_obj(vec![]))]))]),
                    )]),
                )]),
            )]),
        ),
    ]);
    let item = mrg_obj(vec![
        ("parentID", JsonValue::Str("C1".to_string())),
        (
            "data",
            mrg_obj(vec![(
                "tab",
                mrg_obj(vec![
                    ("savedURL", JsonValue::Str("https://n.example/".to_string())),
                    ("savedTitle", JsonValue::Str("N".to_string())),
                ]),
            )]),
        ),
    ]);
    let doc = mrg_obj(vec![(
        "sidebar",
        mrg_obj(vec![(
            "containers",
            JsonValue::Arr(vec![mrg_obj(vec![(
                "items",
                JsonValue::Arr(vec![profile_marker, item]),
            )])]),
        )]),
    )]);
    let tree = chromium_bookmarks::browsers::convert_bookmarks_doc_numeric(
        "/u/.config/Arc/StorableSidebar.json",
        doc,
        Some(1),
    )
    .unwrap();
    let children = tree
        .get("roots")
        .unwrap()
        .get("bookmark_bar")
        .unwrap()
        .get("children")
        .unwrap()
        .as_arr()
        .unwrap();
    assert_eq!(children.len(), 1);
    assert_eq!(children[0].get_str("url"), Some("https://n.example/"));
}

#[test]
fn sidebar_files_are_rebuilt_as_chromium_trees() {
    let item = mrg_obj(vec![
        ("parentID", JsonValue::Str("P1".to_string())),
        (
            "data",
            mrg_obj(vec![(
                "tab",
                mrg_obj(vec![
                    ("savedURL", JsonValue::Str("https://a.example/".to_string())),
                    ("savedTitle", JsonValue::Str("A".to_string())),
                ]),
            )]),
        ),
    ]);
    let doc = mrg_obj(vec![(
        "sidebar",
        mrg_obj(vec![(
            "containers",
            JsonValue::Arr(vec![mrg_obj(vec![("items", JsonValue::Arr(vec![item]))])]),
        )]),
    )]);
    let tree = convert_bookmarks_doc("/u/.config/Arc/StorableSidebar.json", doc, None).unwrap();
    let roots = tree.get("roots").expect("roots");
    let bar = roots.get("bookmark_bar").expect("bar");
    let children = bar.get("children").unwrap().as_arr().unwrap();
    assert_eq!(children.len(), 1);
    assert_eq!(children[0].get_str("name"), Some("A"));
}
