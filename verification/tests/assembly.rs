//! Assembly of the canonical Chromium tree.

use chromium_bookmarks::json::JsonValue;
use chromium_bookmarks::specialized::arc::{assemble_chromium_tree, ArcBookmark};

fn asm_bookmark(title: &str, url: &str, created_at: Option<i64>) -> ArcBookmark {
    ArcBookmark { title: title.to_string(), url: url.to_string(), created_at }
}

fn asm_children(tree: &JsonValue) -> Vec<&JsonValue> {
    let roots = tree.get("roots").expect("roots");
    let bar = roots.get("bookmark_bar").expect("bookmark_bar");
    let children = bar.get("children").expect("children");
    children.as_arr().expect("array").iter().collect()
}

#[test]
fn assembly_keeps_order_dates_and_distinct_guids() {
    let bookmarks = vec![
        asm_bookmark("A", "https://a.example/", Some(3_000_000)),
        asm_bookmark("B", "https://b.example/", Some(1_000_000)),
        asm_bookmark("C", "https://c.example/", Some(2_000_000)),
    ];
    let tree = assemble_chromium_tree(&bookmarks, 1_700_000_000);
    let children = asm_children(&tree);
    assert_eq!(children.len(), 3);
    let shift: i64 = 12_622_780_800_000_000;
    let expected_dates = [3_000_000 + shift, 1_000_000 + shift, 2_000_000 + shift];
    let mut guids: Vec<String> = Vec::new();
    for (k, node) in children.iter().enumerate() {
        assert_eq!(node.get_str("type"), Some("url"));
        assert_eq!(node.get("date_added"), Some(&JsonValue::Int(expected_dates[k])));
        let guid = node.get_str("guid").expect("guid").to_string();
        assert_eq!(guid, format!("arc-{}-{}", expected_dates[k], k + 1));
        guids.push(guid);
    }
    assert_ne!(guids[0], guids[1]);
    assert_ne!(guids[0], guids[2]);
    assert_ne!(guids[1], guids[2]);
    assert_eq!(children[0].get_str("name"), Some("A"));
    assert_eq!(children[1].get_str("url"), Some("https://b.example/"));
    let roots = tree.get("roots").unwrap();
    let other = roots.get("other").unwrap();
    assert_eq!(other.get_str("type"), Some("folder"));
    assert_eq!(other.get("children"), Some(&JsonValue::Arr(vec![])));
}

#[test]
fn undated_bookmarks_take_the_clock_reading() {
    let bookmarks = vec![asm_bookmark("A", "https://a.example/", None)];
    let now: u64 = 1_700_000_000;
    let tree = assemble_chromium_tree(&bookmarks, now);
    let children = asm_children(&tree);
    let date = (now as i64 + 11_644_473_600) * 1_000_000;
    assert_eq!(children[0].get("date_added"), Some(&JsonValue::Int(date)));
}
