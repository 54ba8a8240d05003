//! Extraction of bookmarks from Arc's sidebar data.
//!
//! Arc has no bookmark store of its own; its sidebar file holds a graph
//! of containers and items linked by `parentID`. Bookmarks are
//! recovered heuristically: profile containers are discovered from
//! top-apps markers, and failing that, the container holding the most
//! saved tabs is taken as the pinned-bookmarks container.

use vstd::prelude::*;

use crate::json::{spec_arr, spec_get, spec_get_str, spec_int, spec_frac, spec_obj_keys, JsonValue};
use crate::num::spec_dec_micros;

verus! {

/// Bookmark extracted from Arc's sidebar data.
///
/// `created_at` is Core Foundation absolute time — seconds since
/// 2001-01-01 — held as whole microseconds.
#[derive(Debug, PartialEq)]
pub struct ArcBookmark {
    pub title: String,
    pub url: String,
    pub created_at: Option<i64>,
}

/// The plain values an [`ArcBookmark`] carries.
pub struct BookmarkSpec {
    pub title: Seq<char>,
    pub url: Seq<char>,
    pub created_at: Option<i64>,
}

impl View for ArcBookmark {
    type V = BookmarkSpec;

    open spec fn view(&self) -> BookmarkSpec {
        BookmarkSpec { title: self.title@, url: self.url@, created_at: self.created_at }
    }
}

/// The elements of an optional value: none, or exactly the one.
pub open spec fn opt_seq<T>(o: Option<T>) -> Seq<T> {
    match o {
        Some(x) => seq![x],
        None => Seq::empty(),
    }
}

/// The `sidebar.containers` array of the document.
pub open spec fn spec_containers(doc: JsonValue) -> Seq<JsonValue> {
    match spec_get(doc, "sidebar"@) {
        Some(sb) => match spec_get(sb, "containers"@) {
            Some(cs) => match spec_arr(cs) {
                Some(a) => a,
                None => Seq::empty(),
            },
            None => Seq::empty(),
        },
        None => Seq::empty(),
    }
}

/// The `items` array of one container.
pub open spec fn spec_container_items(c: JsonValue) -> Seq<JsonValue> {
    match spec_get(c, "items"@) {
        Some(it) => match spec_arr(it) {
            Some(a) => a,
            None => Seq::empty(),
        },
        None => Seq::empty(),
    }
}

/// All items of a sequence of containers, in document order.
pub open spec fn spec_items_of(cs: Seq<JsonValue>) -> Seq<JsonValue>
    decreases cs.len(),
{
    if cs.len() == 0 {
        Seq::empty()
    } else {
        spec_items_of(cs.drop_last()) + spec_container_items(cs.last())
    }
}

/// All items of the sidebar document, in document order.
pub open spec fn spec_sidebar_items(doc: JsonValue) -> Seq<JsonValue> {
    spec_items_of(spec_containers(doc))
}

/// The `data.tab` member of an item.
pub open spec fn spec_tab(item: JsonValue) -> Option<JsonValue> {
    match spec_get(item, "data"@) {
        Some(d) => spec_get(d, "tab"@),
        None => None,
    }
}

/// The creation time of an item in microseconds of Core Foundation
/// absolute time, from its `createdAt` number.
pub open spec fn spec_created(item: JsonValue) -> Option<i64> {
    match spec_get(item, "createdAt"@) {
        Some(v) => match spec_int(v) {
            Some(i) => if -9223372036854 <= i <= 9223372036854 {
                Some((i * 1000000) as i64)
            } else {
                None
            },
            None => match spec_frac(v) {
                Some(t) => spec_dec_micros(t),
                None => None,
            },
        },
        None => None,
    }
}

/// The saved tab of an item as `(parentID, bookmark)`: the item must
/// link to a parent and its tab must carry a non-empty saved URL and a
/// non-empty saved title.
pub open spec fn spec_tab_entry(item: JsonValue) -> Option<(Seq<char>, BookmarkSpec)> {
    match (spec_get_str(item, "parentID"@), spec_tab(item)) {
        (Some(pid), Some(tab)) => match (
            spec_get_str(tab, "savedURL"@),
            spec_get_str(tab, "savedTitle"@),
        ) {
            (Some(url), Some(title)) => if url.len() > 0 && title.len() > 0 {
                Some((pid, BookmarkSpec { title, url, created_at: spec_created(item) }))
            } else {
                None
            },
            _ => None,
        },
        _ => None,
    }
}

/// An item counts towards pinned-container discovery when its tab has a
/// non-empty saved URL and a saved title that is non-empty and not the
/// text `null`.
pub open spec fn spec_has_saved_tab(item: JsonValue) -> bool {
    match spec_tab(item) {
        Some(tab) => match (spec_get_str(tab, "savedURL"@), spec_get_str(tab, "savedTitle"@)) {
            (Some(url), Some(title)) => url.len() > 0 && title.len() > 0 && title != "null"@,
            _ => false,
        },
        None => false,
    }
}

/// The parent a saved tab votes for in pinned-container discovery: its
/// `parentID`, unless that is the literal text `null`.
pub open spec fn spec_candidate_parent(item: JsonValue) -> Option<Seq<char>> {
    match spec_get_str(item, "parentID"@) {
        Some(pid) => if pid != "null"@ && spec_has_saved_tab(item) {
            Some(pid)
        } else {
            None
        },
        None => None,
    }
}

/// The `data.itemContainer.containerType.topApps._0` member of an item.
pub open spec fn spec_top_apps(item: JsonValue) -> Option<JsonValue> {
    match spec_get(item, "data"@) {
        Some(d) => match spec_get(d, "itemContainer"@) {
            Some(ic) => match spec_get(ic, "containerType"@) {
                Some(ct) => match spec_get(ct, "topApps"@) {
                    Some(ta) => spec_get(ta, "_0"@),
                    None => None,
                },
                None => None,
            },
            None => None,
        },
        None => None,
    }
}

/// The profile-container registrations one item contributes, in order:
/// `(directoryBasename, id)` for a custom top-apps container, then
/// `("Default", id)` for a default marker. One item may contribute
/// both.
pub open spec fn spec_profile_entries(item: JsonValue) -> Seq<(Seq<char>, Seq<char>)> {
    match (spec_top_apps(item), spec_get_str(item, "id"@)) {
        (Some(ta), Some(id)) => {
            let custom_part = match spec_get(ta, "custom"@) {
                Some(c) => match spec_get(c, "_0"@) {
                    Some(cd) => match spec_get_str(cd, "directoryBasename"@) {
                        Some(name) => seq![(name, id)],
                        None => Seq::empty(),
                    },
                    None => Seq::empty(),
                },
                None => Seq::empty(),
            };
            let default_part = if spec_get(ta, "default"@) is Some {
                seq![("Default"@, id)]
            } else {
                Seq::empty()
            };
            custom_part + default_part
        },
        _ => Seq::empty(),
    }
}

/// Saved tabs of a sequence of items, each with its parent id.
pub open spec fn spec_tab_entries(items: Seq<JsonValue>) -> Seq<(Seq<char>, BookmarkSpec)>
    decreases items.len(),
{
    if items.len() == 0 {
        Seq::empty()
    } else {
        spec_tab_entries(items.drop_last()) + opt_seq(spec_tab_entry(items.last()))
    }
}

/// Pinned-container votes of a sequence of items.
pub open spec fn spec_candidates(items: Seq<JsonValue>) -> Seq<Seq<char>>
    decreases items.len(),
{
    if items.len() == 0 {
        Seq::empty()
    } else {
        spec_candidates(items.drop_last()) + opt_seq(spec_candidate_parent(items.last()))
    }
}

/// Profile-container registrations of a sequence of items, in order.
pub open spec fn spec_profile_entry_list(items: Seq<JsonValue>) -> Seq<(Seq<char>, Seq<char>)>
    decreases items.len(),
{
    if items.len() == 0 {
        Seq::empty()
    } else {
        spec_profile_entry_list(items.drop_last()) + spec_profile_entries(items.last())
    }
}

/// The views of a sequence of `(parent id, bookmark)` pairs.
pub open spec fn tab_entry_views(s: Seq<(String, ArcBookmark)>) -> Seq<(Seq<char>, BookmarkSpec)> {
    Seq::new(s.len(), |i: int| (s[i].0@, s[i].1@))
}

/// The views of a sequence of string pairs.
pub open spec fn pair_views(s: Seq<(String, String)>) -> Seq<(Seq<char>, Seq<char>)> {
    Seq::new(s.len(), |i: int| (s[i].0@, s[i].1@))
}

/// The containers array of the document, when present.
fn containers_of<'a>(doc: &'a JsonValue) -> (r: Option<&'a Vec<JsonValue>>)
    ensures
        match r {
            Some(cs) => spec_containers(*doc) == cs@,
            None => spec_containers(*doc) =~= Seq::<JsonValue>::empty(),
        },
{
    match doc.get("sidebar") {
        Some(sb) => match sb.get("containers") {
            Some(cs) => cs.as_arr(),
            None => None,
        },
        None => None,
    }
}

/// The items array of one container, when present.
fn items_arr_of<'a>(c: &'a JsonValue) -> (r: Option<&'a Vec<JsonValue>>)
    ensures
        match r {
            Some(items) => spec_container_items(*c) == items@,
            None => spec_container_items(*c) =~= Seq::<JsonValue>::empty(),
        },
{
    match c.get("items") {
        Some(it) => it.as_arr(),
        None => None,
    }
}

/// The creation time of an item, in microseconds of Core Foundation
/// absolute time.
fn created_of(item: &JsonValue) -> (r: Option<i64>)
    ensures
        r == spec_created(*item),
{
    match item.get("createdAt") {
        Some(v) => match v.as_int() {
            Some(i) => if -9223372036854i64 <= i && i <= 9223372036854i64 {
                Some(i * 1000000)
            } else {
                None
            },
            None => match v.as_frac() {
                Some(t) => crate::num::parse_dec_micros(t),
                None => None,
            },
        },
        None => None,
    }
}

/// The saved tab of one item, as owned values.
fn tab_entry_of(item: &JsonValue) -> (r: Option<(String, ArcBookmark)>)
    ensures
        match r {
            Some(p) => spec_tab_entry(*item) == Some((p.0@, p.1@)),
            None => spec_tab_entry(*item) is None,
        },
{
    let pid = match item.get_str("parentID") {
        Some(p) => p,
        None => {
            return None;
        },
    };
    let tab = match item.get("data") {
        Some(d) => match d.get("tab") {
            Some(t) => t,
            None => {
                return None;
            },
        },
        None => {
            return None;
        },
    };
    let url = match tab.get_str("savedURL") {
        Some(u) => u,
        None => {
            return None;
        },
    };
    let title = match tab.get_str("savedTitle") {
        Some(t) => t,
        None => {
            return None;
        },
    };
    if url.unicode_len() == 0 || title.unicode_len() == 0 {
        return None;
    }
    let created_at = created_of(item);
    Some(
        (
            String::from_str(pid),
            ArcBookmark { title: String::from_str(title), url: String::from_str(url), created_at },
        ),
    )
}

/// The pinned-container vote of one item, as an owned id.
fn candidate_parent_of(item: &JsonValue) -> (r: Option<String>)
    ensures
        match r {
            Some(p) => spec_candidate_parent(*item) == Some(p@),
            None => spec_candidate_parent(*item) is None,
        },
{
    let pid = match item.get_str("parentID") {
        Some(p) => p,
        None => {
            return None;
        },
    };
    if crate::text::str_eq(pid, "null") {
        return None;
    }
    let tab = match item.get("data") {
        Some(d) => match d.get("tab") {
            Some(t) => t,
            None => {
                return None;
            },
        },
        None => {
            return None;
        },
    };
    let url = match tab.get_str("savedURL") {
        Some(u) => u,
        None => {
            return None;
        },
    };
    let title = match tab.get_str("savedTitle") {
        Some(t) => t,
        None => {
            return None;
        },
    };
    if url.unicode_len() == 0 || title.unicode_len() == 0 {
        return None;
    }
    if crate::text::str_eq(title, "null") {
        return None;
    }
    Some(String::from_str(pid))
}

/// The profile-container registrations of one item, as owned pairs.
fn item_profile_entries(item: &JsonValue) -> (r: Vec<(String, String)>)
    ensures
        pair_views(r@) == spec_profile_entries(*item),
{
    let mut out: Vec<(String, String)> = Vec::new();
    let id = match item.get_str("id") {
        Some(i) => i,
        None => {
            proof {
                assert(pair_views(out@) =~= spec_profile_entries(*item));
            }
            return out;
        },
    };
    let ta = match item.get("data") {
        Some(d) => match d.get("itemContainer") {
            Some(ic) => match ic.get("containerType") {
                Some(ct) => match ct.get("topApps") {
                    Some(t) => match t.get("_0") {
                        Some(ta) => ta,
                        None => {
                            proof {
                                assert(pair_views(out@) =~= spec_profile_entries(*item));
                            }
                            return out;
                        },
                    },
                    None => {
                        proof {
                            assert(pair_views(out@) =~= spec_profile_entries(*item));
                        }
                        return out;
                    },
                },
                None => {
                    proof {
                        assert(pair_views(out@) =~= spec_profile_entries(*item));
                    }
                    return out;
                },
            },
            None => {
                proof {
                    assert(pair_views(out@) =~= spec_profile_entries(*item));
                }
                return out;
            },
        },
        None => {
            proof {
                assert(pair_views(out@) =~= spec_profile_entries(*item));
            }
            return out;
        },
    };
    match ta.get("custom") {
        Some(c) => match c.get("_0") {
            Some(cd) => match cd.get_str("directoryBasename") {
                Some(name) => {
                    out.push((String::from_str(name), String::from_str(id)));
                },
                None => {},
            },
            None => {},
        },
        None => {},
    }
    let has_default = match ta.get("default") {
        Some(_) => true,
        None => false,
    };
    if has_default {
        out.push((String::from_str("Default"), String::from_str(id)));
    }
    proof {
        assert(pair_views(out@) =~= spec_profile_entries(*item));
    }
    out
}

/// All saved tabs of the sidebar, each with its parent id, in document
/// order.
fn collect_tab_entries(arc_data: &JsonValue) -> (r: Vec<(String, ArcBookmark)>)
    ensures
        tab_entry_views(r@) == spec_tab_entries(spec_sidebar_items(*arc_data)),
{
    let mut out: Vec<(String, ArcBookmark)> = Vec::new();
    let cs = match containers_of(arc_data) {
        Some(cs) => cs,
        None => {
            proof {
                assert(tab_entry_views(out@) =~= spec_tab_entries(spec_sidebar_items(*arc_data)));
            }
            return out;
        },
    };
    let mut ci: usize = 0;
    proof {
        assert(cs@.take(0) =~= Seq::<JsonValue>::empty());
        assert(tab_entry_views(out@) =~= spec_tab_entries(spec_items_of(cs@.take(0))));
    }
    while ci < cs.len()
        invariant
            ci <= cs@.len(),
            cs@ == spec_containers(*arc_data),
            tab_entry_views(out@) == spec_tab_entries(spec_items_of(cs@.take(ci as int))),
        decreases cs@.len() - ci,
    {
        let ghost done: Seq<JsonValue> = spec_items_of(cs@.take(ci as int));
        match items_arr_of(&cs[ci]) {
            Some(items) => {
                let mut ij: usize = 0;
                proof {
                    assert(items@.take(0) =~= Seq::<JsonValue>::empty());
                    assert(done + items@.take(0) =~= done);
                }
                while ij < items.len()
                    invariant
                        ij <= items@.len(),
                        ci < cs@.len(),
                        cs@ == spec_containers(*arc_data),
                        items@ == spec_container_items(cs@[ci as int]),
                        done == spec_items_of(cs@.take(ci as int)),
                        tab_entry_views(out@) == spec_tab_entries(done + items@.take(ij as int)),
                    decreases items@.len() - ij,
                {
                    let ghost pre: Seq<JsonValue> = done + items@.take(ij as int);
                    match tab_entry_of(&items[ij]) {
                        Some(entry) => {
                            out.push(entry);
                        },
                        None => {},
                    }
                    proof {
                        let step = pre.push(items@[ij as int]);
                        assert(step.drop_last() =~= pre);
                        assert(step.last() == items@[ij as int]);
                        assert(spec_tab_entries(step) == spec_tab_entries(pre) + opt_seq(
                            spec_tab_entry(items@[ij as int]),
                        ));
                        assert(done + items@.take(ij + 1) =~= step);
                        assert(tab_entry_views(out@) =~= spec_tab_entries(step));
                    }
                    ij = ij + 1;
                }
                proof {
                    assert(items@.take(items@.len() as int) =~= items@);
                }
            },
            None => {
                proof {
                    assert(done + spec_container_items(cs@[ci as int]) =~= done);
                }
            },
        }
        proof {
            assert(cs@.take(ci + 1).drop_last() =~= cs@.take(ci as int));
            assert(cs@.take(ci + 1).last() == cs@[ci as int]);
            assert(spec_items_of(cs@.take(ci + 1)) == done + spec_container_items(
                cs@[ci as int],
            ));
        }
        ci = ci + 1;
    }
    proof {
        assert(cs@.take(cs@.len() as int) =~= cs@);
    }
    out
}

/// All pinned-container votes of the sidebar, in document order.
fn collect_candidates(arc_data: &JsonValue) -> (r: Vec<String>)
    ensures
        crate::text::names_of(r@) == spec_candidates(spec_sidebar_items(*arc_data)),
{
    let mut out: Vec<String> = Vec::new();
    let cs = match containers_of(arc_data) {
        Some(cs) => cs,
        None => {
            proof {
                assert(crate::text::names_of(out@) =~= spec_candidates(
                    spec_sidebar_items(*arc_data),
                ));
            }
            return out;
        },
    };
    let mut ci: usize = 0;
    proof {
        assert(cs@.take(0) =~= Seq::<JsonValue>::empty());
        assert(crate::text::names_of(out@) =~= spec_candidates(spec_items_of(cs@.take(0))));
    }
    while ci < cs.len()
        invariant
            ci <= cs@.len(),
            cs@ == spec_containers(*arc_data),
            crate::text::names_of(out@) == spec_candidates(spec_items_of(cs@.take(ci as int))),
        decreases cs@.len() - ci,
    {
        let ghost done: Seq<JsonValue> = spec_items_of(cs@.take(ci as int));
        match items_arr_of(&cs[ci]) {
            Some(items) => {
                let mut ij: usize = 0;
                proof {
                    assert(items@.take(0) =~= Seq::<JsonValue>::empty());
                    assert(done + items@.take(0) =~= done);
                }
                while ij < items.len()
                    invariant
                        ij <= items@.len(),
                        ci < cs@.len(),
                        cs@ == spec_containers(*arc_data),
                        items@ == spec_container_items(cs@[ci as int]),
                        done == spec_items_of(cs@.take(ci as int)),
                        crate::text::names_of(out@) == spec_candidates(
                            done + items@.take(ij as int),
                        ),
                    decreases items@.len() - ij,
                {
                    let ghost pre: Seq<JsonValue> = done + items@.take(ij as int);
                    match candidate_parent_of(&items[ij]) {
                        Some(pid) => {
                            out.push(pid);
                        },
                        None => {},
                    }
                    proof {
                        let step = pre.push(items@[ij as int]);
                        assert(step.drop_last() =~= pre);
                        assert(step.last() == items@[ij as int]);
                        assert(spec_candidates(step) == spec_candidates(pre) + opt_seq(
                            spec_candidate_parent(items@[ij as int]),
                        ));
                        assert(done + items@.take(ij + 1) =~= step);
                        assert(crate::text::names_of(out@) =~= spec_candidates(step));
                    }
                    ij = ij + 1;
                }
                proof {
                    assert(items@.take(items@.len() as int) =~= items@);
                }
            },
            None => {
                proof {
                    assert(done + spec_container_items(cs@[ci as int]) =~= done);
                }
            },
        }
        proof {
            assert(cs@.take(ci + 1).drop_last() =~= cs@.take(ci as int));
            assert(cs@.take(ci + 1).last() == cs@[ci as int]);
            assert(spec_items_of(cs@.take(ci + 1)) == done + spec_container_items(
                cs@[ci as int],
            ));
        }
        ci = ci + 1;
    }
    proof {
        assert(cs@.take(cs@.len() as int) =~= cs@);
    }
    out
}

/// All profile-container registrations of the sidebar, in document
/// order.
fn collect_profile_entries(arc_data: &JsonValue) -> (r: Vec<(String, String)>)
    ensures
        pair_views(r@) == spec_profile_entry_list(spec_sidebar_items(*arc_data)),
{
    let mut out: Vec<(String, String)> = Vec::new();
    let cs = match containers_of(arc_data) {
        Some(cs) => cs,
        None => {
            proof {
                assert(pair_views(out@) =~= spec_profile_entry_list(
                    spec_sidebar_items(*arc_data),
                ));
            }
            return out;
        },
    };
    let mut ci: usize = 0;
    proof {
        assert(cs@.take(0) =~= Seq::<JsonValue>::empty());
        assert(pair_views(out@) =~= spec_profile_entry_list(spec_items_of(cs@.take(0))));
    }
    while ci < cs.len()
        invariant
            ci <= cs@.len(),
            cs@ == spec_containers(*arc_data),
            pair_views(out@) == spec_profile_entry_list(spec_items_of(cs@.take(ci as int))),
        decreases cs@.len() - ci,
    {
        let ghost done: Seq<JsonValue> = spec_items_of(cs@.take(ci as int));
        match items_arr_of(&cs[ci]) {
            Some(items) => {
                let mut ij: usize = 0;
                proof {
                    assert(items@.take(0) =~= Seq::<JsonValue>::empty());
                    assert(done + items@.take(0) =~= done);
                }
                while ij < items.len()
                    invariant
                        ij <= items@.len(),
                        ci < cs@.len(),
                        cs@ == spec_containers(*arc_data),
                        items@ == spec_container_items(cs@[ci as int]),
                        done == spec_items_of(cs@.take(ci as int)),
                        pair_views(out@) == spec_profile_entry_list(done + items@.take(ij as int)),
                    decreases items@.len() - ij,
                {
                    let ghost pre: Seq<JsonValue> = done + items@.take(ij as int);
                    let ghost out_pre: Seq<(String, String)> = out@;
                    let mut entries = item_profile_entries(&items[ij]);
                    let ghost entries_view: Seq<(Seq<char>, Seq<char>)> = pair_views(entries@);
                    let mut e: usize = 0;
                    while e < entries.len()
                        invariant
                            e <= entries@.len(),
                            pair_views(entries@) == entries_view,
                            pair_views(out@) == pair_views(out_pre) + entries_view.take(e as int),
                        decreases entries@.len() - e,
                    {
                        let ghost out_mid: Seq<(String, String)> = out@;
                        let pair = (entries[e].0.clone(), entries[e].1.clone());
                        out.push(pair);
                        proof {
                            assert(pair_views(out@) =~= pair_views(out_mid).push(
                                (entries@[e as int].0@, entries@[e as int].1@),
                            ));
                            assert(entries_view.take(e + 1) =~= entries_view.take(e as int).push(
                                entries_view[e as int],
                            ));
                        }
                        e = e + 1;
                    }
                    proof {
                        let step = pre.push(items@[ij as int]);
                        assert(step.drop_last() =~= pre);
                        assert(step.last() == items@[ij as int]);
                        assert(spec_profile_entry_list(step) == spec_profile_entry_list(pre)
                            + spec_profile_entries(items@[ij as int]));
                        assert(done + items@.take(ij + 1) =~= step);
                        assert(entries_view.take(entries_view.len() as int) =~= entries_view);
                        assert(pair_views(out@) =~= spec_profile_entry_list(step));
                    }
                    ij = ij + 1;
                }
                proof {
                    assert(items@.take(items@.len() as int) =~= items@);
                }
            },
            None => {
                proof {
                    assert(done + spec_container_items(cs@[ci as int]) =~= done);
                }
            },
        }
        proof {
            assert(cs@.take(ci + 1).drop_last() =~= cs@.take(ci as int));
            assert(cs@.take(ci + 1).last() == cs@[ci as int]);
            assert(spec_items_of(cs@.take(ci + 1)) == done + spec_container_items(
                cs@[ci as int],
            ));
        }
        ci = ci + 1;
    }
    proof {
        assert(cs@.take(cs@.len() as int) =~= cs@);
    }
    out
}

/// Registration of `(name, id)` into an association list: an existing
/// entry for `name` keeps its place but takes the new id; a new name is
/// appended.
pub open spec fn spec_register(
    m: Seq<(Seq<char>, Seq<char>)>,
    name: Seq<char>,
    id: Seq<char>,
) -> Seq<(Seq<char>, Seq<char>)>
    decreases m.len(),
{
    if m.len() == 0 {
        seq![(name, id)]
    } else if m[0].0 == name {
        seq![(name, id)] + m.drop_first()
    } else {
        seq![m[0]] + spec_register(m.drop_first(), name, id)
    }
}

/// All of `entries` registered in order.
pub open spec fn spec_register_all(
    m: Seq<(Seq<char>, Seq<char>)>,
    entries: Seq<(Seq<char>, Seq<char>)>,
) -> Seq<(Seq<char>, Seq<char>)>
    decreases entries.len(),
{
    if entries.len() == 0 {
        m
    } else {
        spec_register(
            spec_register_all(m, entries.drop_last()),
            entries.last().0,
            entries.last().1,
        )
    }
}

/// The profile container map of the document: every registration of the
/// sidebar applied in document order.
pub open spec fn spec_profile_map(doc: JsonValue) -> Seq<(Seq<char>, Seq<char>)> {
    spec_register_all(Seq::empty(), spec_profile_entry_list(spec_sidebar_items(doc)))
}

/// The id registered under `name`, if any.
pub open spec fn spec_assoc(m: Seq<(Seq<char>, Seq<char>)>, name: Seq<char>) -> Option<Seq<char>>
    decreases m.len(),
{
    if m.len() == 0 {
        None
    } else if m[0].0 == name {
        Some(m[0].1)
    } else {
        spec_assoc(m.drop_first(), name)
    }
}

/// The names of an association list, in order.
pub open spec fn spec_map_names(m: Seq<(Seq<char>, Seq<char>)>) -> Seq<Seq<char>> {
    Seq::new(m.len(), |i: int| m[i].0)
}

/// Registering a name present at first position `i` replaces the entry
/// there.
proof fn lemma_register_found(m: Seq<(Seq<char>, Seq<char>)>, name: Seq<char>, id: Seq<char>, i: int)
    requires
        0 <= i < m.len(),
        forall|j: int| 0 <= j < i ==> #[trigger] m[j].0 != name,
        m[i].0 == name,
    ensures
        spec_register(m, name, id) =~= m.update(i, (name, id)),
    decreases i,
{
    if i == 0 {
        assert(seq![(name, id)] + m.drop_first() =~= m.update(0, (name, id)));
    } else {
        assert(m[0].0 != name);
        assert forall|j: int| 0 <= j < i - 1 implies #[trigger] m.drop_first()[j].0 != name by {
            assert(m.drop_first()[j] == m[j + 1]);
        }
        assert(m.drop_first()[i - 1] == m[i]);
        lemma_register_found(m.drop_first(), name, id, i - 1);
        assert(seq![m[0]] + m.drop_first().update(i - 1, (name, id)) =~= m.update(i, (name, id)));
    }
}

/// Registering an absent name appends it.
proof fn lemma_register_missing(m: Seq<(Seq<char>, Seq<char>)>, name: Seq<char>, id: Seq<char>)
    requires
        forall|j: int| 0 <= j < m.len() ==> #[trigger] m[j].0 != name,
    ensures
        spec_register(m, name, id) =~= m.push((name, id)),
    decreases m.len(),
{
    if m.len() == 0 {
        assert(seq![(name, id)] =~= m.push((name, id)));
    } else {
        assert(m[0].0 != name);
        assert forall|j: int| 0 <= j < m.drop_first().len() implies #[trigger] m.drop_first()[j].0
            != name by {
            assert(m.drop_first()[j] == m[j + 1]);
        }
        lemma_register_missing(m.drop_first(), name, id);
        assert(seq![m[0]] + m.drop_first().push((name, id)) =~= m.push((name, id)));
    }
}

/// Registers one `(name, id)` pair into the map.
fn register(map: &mut Vec<(String, String)>, name: String, id: String)
    ensures
        pair_views(final(map)@) == spec_register(pair_views(old(map)@), name@, id@),
{
    let ghost orig: Seq<(Seq<char>, Seq<char>)> = pair_views(map@);
    let n = map.len();
    let mut i: usize = 0;
    while i < n
        invariant
            i <= n,
            n == map@.len(),
            pair_views(map@) == orig,
            pair_views(old(map)@) == orig,
            forall|j: int| 0 <= j < i ==> #[trigger] orig[j].0 != name@,
        decreases n - i,
    {
        if crate::text::str_eq(map[i].0.as_str(), name.as_str()) {
            proof {
                assert(orig[i as int].0 == name@);
                lemma_register_found(orig, name@, id@, i as int);
            }
            let ghost pre: Seq<(String, String)> = map@;
            let ghost nv: Seq<char> = name@;
            let ghost iv: Seq<char> = id@;
            let _ = map.remove(i);
            map.insert(i, (name, id));
            proof {
                assert(map@ == pre.remove(i as int).insert(i as int, map@[i as int]));
                assert(map@[i as int].0@ == nv && map@[i as int].1@ == iv);
                pre.remove_ensures(i as int);
                pre.remove(i as int).insert_ensures(i as int, map@[i as int]);
                assert(map@.len() == pre.len());
                assert forall|j: int| 0 <= j < map@.len() implies pair_views(map@)[j] == orig.update(
                    i as int,
                    (nv, iv),
                )[j] by {
                    if j < i {
                        assert(map@[j] == pre.remove(i as int)[j]);
                        assert(pre.remove(i as int)[j] == pre[j]);
                    } else if j > i {
                        assert(map@[j] == pre.remove(i as int)[j - 1]);
                        assert(pre.remove(i as int)[j - 1] == pre[j]);
                    }
                }
                assert(pair_views(map@) =~= orig.update(i as int, (nv, iv)));
            }
            return ;
        }
        proof {
            assert(orig[i as int].0 == map@[i as int].0@);
        }
        i = i + 1;
    }
    proof {
        lemma_register_missing(orig, name@, id@);
    }
    map.push((name, id));
    proof {
        assert(pair_views(map@) =~= orig.push((name@, id@)));
    }
}

/// Discovers the profile containers of the sidebar: a custom top-apps
/// container registers its directory name, a default marker registers
/// `Default`; a later registration of a name replaces the earlier id.
pub fn discover_profile_containers(arc_data: &JsonValue) -> (r: Vec<(String, String)>)
    ensures
        pair_views(r@) == spec_profile_map(*arc_data),
{
    let entries = collect_profile_entries(arc_data);
    let ghost entry_views: Seq<(Seq<char>, Seq<char>)> = pair_views(entries@);
    let mut map: Vec<(String, String)> = Vec::new();
    let n = entries.len();
    let mut i: usize = 0;
    proof {
        assert(entry_views.take(0) =~= Seq::<(Seq<char>, Seq<char>)>::empty());
        assert(pair_views(map@) =~= spec_register_all(Seq::empty(), entry_views.take(0)));
    }
    while i < n
        invariant
            i <= n,
            n == entries@.len(),
            pair_views(entries@) == entry_views,
            pair_views(map@) == spec_register_all(Seq::empty(), entry_views.take(i as int)),
        decreases n - i,
    {
        let name = entries[i].0.clone();
        let id = entries[i].1.clone();
        register(&mut map, name, id);
        proof {
            assert(entry_views.take(i + 1).drop_last() =~= entry_views.take(i as int));
            assert(entry_views.take(i + 1).last() == entry_views[i as int]);
            assert(entry_views[i as int] == (entries@[i as int].0@, entries@[i as int].1@));
        }
        i = i + 1;
    }
    proof {
        assert(entry_views.take(n as int) =~= entry_views);
    }
    map
}

/// How many of the `votes` name `pid`.
pub open spec fn count_matches(s: Seq<Seq<char>>, pid: Seq<char>) -> int
    decreases s.len(),
{
    if s.len() == 0 {
        0
    } else {
        count_matches(s.drop_last(), pid) + if s.last() == pid {
            1int
        } else {
            0int
        }
    }
}

/// Counts the votes naming `pid`.
fn count_votes(votes: &Vec<String>, pid: &str) -> (c: usize)
    ensures
        c as int == count_matches(crate::text::names_of(votes@), pid@),
{
    let ghost vn: Seq<Seq<char>> = crate::text::names_of(votes@);
    let mut c: usize = 0;
    let n = votes.len();
    let mut i: usize = 0;
    proof {
        assert(vn.take(0) =~= Seq::<Seq<char>>::empty());
    }
    while i < n
        invariant
            i <= n,
            n == votes@.len(),
            crate::text::names_of(votes@) == vn,
            c <= i,
            c as int == count_matches(vn.take(i as int), pid@),
        decreases n - i,
    {
        proof {
            assert(vn.take(i + 1).drop_last() =~= vn.take(i as int));
            assert(vn.take(i + 1).last() == vn[i as int]);
            assert(vn[i as int] == votes@[i as int]@);
        }
        if crate::text::str_eq(votes[i].as_str(), pid) {
            c = c + 1;
        }
        i = i + 1;
    }
    proof {
        assert(vn.take(n as int) =~= vn);
    }
    c
}

/// The pinned-container choice over a list of votes, scanned in order:
/// a later vote displaces the current choice only when its parent has
/// strictly more votes in the whole list, or the same number and a
/// smaller id.
pub open spec fn spec_best_upto(votes: Seq<Seq<char>>, k: int) -> Option<(Seq<char>, int)>
    decreases k,
{
    if k <= 0 {
        None
    } else {
        let prev = spec_best_upto(votes, k - 1);
        let q = votes[k - 1];
        let c = count_matches(votes, q);
        match prev {
            None => Some((q, c)),
            Some(pc) => if c > pc.1 || (c == pc.1 && crate::text::lex_lt(q, pc.0)) {
                Some((q, c))
            } else {
                Some(pc)
            },
        }
    }
}

/// The pinned container chosen by the votes, if there are any.
pub open spec fn spec_best_pinned(votes: Seq<Seq<char>>) -> Option<Seq<char>> {
    match spec_best_upto(votes, votes.len() as int) {
        Some(pc) => Some(pc.0),
        None => None,
    }
}

/// Discovers the single pinned-bookmarks container: the parent that the
/// most saved tabs point at, ties broken toward the lexicographically
/// smaller id. Nothing is discovered when no saved tab points anywhere.
pub fn discover_pinned_container_id(arc_data: &JsonValue) -> (r: Option<String>)
    ensures
        match r {
            Some(p) => spec_best_pinned(spec_candidates(spec_sidebar_items(*arc_data))) == Some(
                p@,
            ),
            None => spec_candidates(spec_sidebar_items(*arc_data)).len() == 0,
        },
{
    let votes = collect_candidates(arc_data);
    let ghost vn: Seq<Seq<char>> = crate::text::names_of(votes@);
    let mut best: Option<(String, usize)> = None;
    let n = votes.len();
    let mut k: usize = 0;
    while k < n
        invariant
            k <= n,
            n == votes@.len(),
            crate::text::names_of(votes@) == vn,
            match best {
                Some(pc) => spec_best_upto(vn, k as int) == Some((pc.0@, pc.1 as int)),
                None => k == 0,
            },
        decreases n - k,
    {
        proof {
            assert(vn[k as int] == votes@[k as int]@);
        }
        let c = count_votes(&votes, votes[k].as_str());
        let take_it = match &best {
            None => true,
            Some(pc) => c > pc.1 || (c == pc.1 && crate::text::str_lt(
                votes[k].as_str(),
                pc.0.as_str(),
            )),
        };
        if take_it {
            best = Some((votes[k].clone(), c));
        }
        k = k + 1;
    }
    match best {
        Some(pc) => Some(pc.0),
        None => {
            proof {
                if vn.len() > 0 {
                    assert(spec_best_upto(vn, 0) is None);
                }
            }
            None
        },
    }
}

/// The views of extracted bookmarks.
pub open spec fn views_of(s: Seq<ArcBookmark>) -> Seq<BookmarkSpec> {
    Seq::new(s.len(), |i: int| s[i]@)
}

/// The view of an optional borrowed string.
pub open spec fn opt_view(o: Option<&str>) -> Option<Seq<char>> {
    match o {
        Some(t) => Some(t@),
        None => None,
    }
}

/// Bookmarks among `entries` whose parent is `cid`, in order.
pub open spec fn spec_entries_for(
    entries: Seq<(Seq<char>, BookmarkSpec)>,
    cid: Seq<char>,
) -> Seq<BookmarkSpec>
    decreases entries.len(),
{
    if entries.len() == 0 {
        Seq::empty()
    } else {
        spec_entries_for(entries.drop_last(), cid) + if entries.last().0 == cid {
            seq![entries.last().1]
        } else {
            Seq::empty()
        }
    }
}

/// Bookmarks of the saved tabs parented to `cid`.
pub open spec fn spec_container_bookmarks(doc: JsonValue, cid: Seq<char>) -> Seq<BookmarkSpec> {
    spec_entries_for(spec_tab_entries(spec_sidebar_items(doc)), cid)
}

/// Bookmarks of every container of the map, concatenated in map order.
pub open spec fn spec_profiles_bookmarks(
    doc: JsonValue,
    pm: Seq<(Seq<char>, Seq<char>)>,
) -> Seq<BookmarkSpec>
    decreases pm.len(),
{
    if pm.len() == 0 {
        Seq::empty()
    } else {
        spec_profiles_bookmarks(doc, pm.drop_last()) + spec_container_bookmarks(doc, pm.last().1)
    }
}

/// A bookmark read from an already-linked-data item: `@type` must be
/// `know:Bookmark`, and `title` and `link` must be strings.
pub open spec fn spec_jsonld_bookmark(item: JsonValue) -> Option<BookmarkSpec> {
    match (
        spec_get_str(item, "@type"@),
        spec_get_str(item, "title"@),
        spec_get_str(item, "link"@),
    ) {
        (Some(t), Some(title), Some(link)) => if t == "know:Bookmark"@ {
            Some(BookmarkSpec { title, url: link, created_at: None })
        } else {
            None
        },
        _ => None,
    }
}

/// Bookmarks of a linked-data `items` array, in order.
pub open spec fn spec_jsonld_list(items: Seq<JsonValue>) -> Seq<BookmarkSpec>
    decreases items.len(),
{
    if items.len() == 0 {
        Seq::empty()
    } else {
        spec_jsonld_list(items.drop_last()) + opt_seq(spec_jsonld_bookmark(items.last()))
    }
}

/// The `items` member of the document, when it is an array.
pub open spec fn spec_jsonld_items(doc: JsonValue) -> Option<Seq<JsonValue>> {
    match spec_get(doc, "items"@) {
        Some(v) => spec_arr(v),
        None => None,
    }
}

/// A copy of a bookmark.
fn clone_bookmark(b: &ArcBookmark) -> (r: ArcBookmark)
    ensures
        r@ == b@,
{
    ArcBookmark { title: b.title.clone(), url: b.url.clone(), created_at: b.created_at }
}

/// The bookmarks among `entries` whose parent is `cid`.
fn entries_for(entries: &Vec<(String, ArcBookmark)>, cid: &str) -> (r: Vec<ArcBookmark>)
    ensures
        views_of(r@) == spec_entries_for(tab_entry_views(entries@), cid@),
{
    let ghost ev: Seq<(Seq<char>, BookmarkSpec)> = tab_entry_views(entries@);
    let mut out: Vec<ArcBookmark> = Vec::new();
    let n = entries.len();
    let mut i: usize = 0;
    proof {
        assert(ev.take(0) =~= Seq::<(Seq<char>, BookmarkSpec)>::empty());
        assert(views_of(out@) =~= spec_entries_for(ev.take(0), cid@));
    }
    while i < n
        invariant
            i <= n,
            n == entries@.len(),
            tab_entry_views(entries@) == ev,
            views_of(out@) == spec_entries_for(ev.take(i as int), cid@),
        decreases n - i,
    {
        proof {
            assert(ev.take(i + 1).drop_last() =~= ev.take(i as int));
            assert(ev.take(i + 1).last() == ev[i as int]);
            assert(ev[i as int] == (entries@[i as int].0@, entries@[i as int].1@));
        }
        let ghost out_pre: Seq<ArcBookmark> = out@;
        if crate::text::str_eq(entries[i].0.as_str(), cid) {
            let b = clone_bookmark(&entries[i].1);
            out.push(b);
            proof {
                assert(views_of(out@) =~= views_of(out_pre).push(entries@[i as int].1@));
            }
        }
        proof {
            assert(views_of(out@) =~= spec_entries_for(ev.take(i + 1), cid@));
        }
        i = i + 1;
    }
    proof {
        assert(ev.take(n as int) =~= ev);
    }
    out
}

/// The id registered under `name` in the map, as an owned copy.
fn assoc_get(map: &Vec<(String, String)>, name: &str) -> (r: Option<String>)
    ensures
        match r {
            Some(id) => spec_assoc(pair_views(map@), name@) == Some(id@),
            None => spec_assoc(pair_views(map@), name@) is None,
        },
{
    let ghost mv: Seq<(Seq<char>, Seq<char>)> = pair_views(map@);
    let n = map.len();
    let mut i: usize = 0;
    while i < n
        invariant
            i <= n,
            n == map@.len(),
            pair_views(map@) == mv,
            forall|j: int| 0 <= j < i ==> #[trigger] mv[j].0 != name@,
        decreases n - i,
    {
        proof {
            assert(mv[i as int] == (map@[i as int].0@, map@[i as int].1@));
        }
        if crate::text::str_eq(map[i].0.as_str(), name) {
            proof {
                lemma_assoc_skip(mv, name@, i as int);
                assert(mv.skip(i as int)[0] == mv[i as int]);
            }
            return Some(map[i].1.clone());
        }
        i = i + 1;
    }
    proof {
        lemma_assoc_skip(mv, name@, n as int);
        assert(mv.skip(n as int) =~= Seq::<(Seq<char>, Seq<char>)>::empty());
    }
    None
}

/// When the first `i` names differ from `name`, the lookup continues in
/// the rest.
proof fn lemma_assoc_skip(m: Seq<(Seq<char>, Seq<char>)>, name: Seq<char>, i: int)
    requires
        0 <= i <= m.len(),
        forall|j: int| 0 <= j < i ==> #[trigger] m[j].0 != name,
    ensures
        spec_assoc(m, name) == spec_assoc(m.skip(i), name),
    decreases i,
{
    if i == 0 {
        assert(m.skip(0) =~= m);
    } else {
        assert(m[0].0 != name);
        assert forall|j: int| 0 <= j < i - 1 implies #[trigger] m.drop_first()[j].0 != name by {
            assert(m.drop_first()[j] == m[j + 1]);
        }
        lemma_assoc_skip(m.drop_first(), name, i - 1);
        assert(m.drop_first().skip(i - 1) =~= m.skip(i));
    }
}

/// Every name in the map is registered: looking it up finds an id.
proof fn lemma_assoc_present(m: Seq<(Seq<char>, Seq<char>)>, j: int)
    requires
        0 <= j < m.len(),
    ensures
        spec_assoc(m, m[j].0) is Some,
    decreases m.len(),
{
    if m[0].0 == m[j].0 {
    } else {
        assert(j != 0);
        assert(m.drop_first()[j - 1] == m[j]);
        lemma_assoc_present(m.drop_first(), j - 1);
    }
}

/// The names of the map, as owned copies.
fn map_names(map: &Vec<(String, String)>) -> (r: Vec<String>)
    ensures
        crate::text::names_of(r@) == spec_map_names(pair_views(map@)),
{
    let mut out: Vec<String> = Vec::new();
    let n = map.len();
    let mut i: usize = 0;
    while i < n
        invariant
            i <= n,
            n == map@.len(),
            out@.len() == i,
            forall|j: int| 0 <= j < i ==> #[trigger] out@[j]@ == map@[j].0@,
        decreases n - i,
    {
        out.push(map[i].0.clone());
        i = i + 1;
    }
    proof {
        assert(crate::text::names_of(out@) =~= spec_map_names(pair_views(map@)));
    }
    out
}

/// A bookmark of one linked-data item, as owned values.
fn jsonld_bookmark_of(item: &JsonValue) -> (r: Option<ArcBookmark>)
    ensures
        match r {
            Some(b) => spec_jsonld_bookmark(*item) == Some(b@),
            None => spec_jsonld_bookmark(*item) is None,
        },
{
    let t = match item.get_str("@type") {
        Some(t) => t,
        None => {
            return None;
        },
    };
    let title = match item.get_str("title") {
        Some(t) => t,
        None => {
            return None;
        },
    };
    let link = match item.get_str("link") {
        Some(l) => l,
        None => {
            return None;
        },
    };
    if !crate::text::str_eq(t, "know:Bookmark") {
        return None;
    }
    Some(
        ArcBookmark {
            title: String::from_str(title),
            url: String::from_str(link),
            created_at: None,
        },
    )
}

/// What a successful sidebar extraction returns: the bookmarks of the
/// pinned container when no profile containers exist, of the one
/// requested container, or of every discovered container in map order.
pub open spec fn sidebar_outcome_ok(
    doc: JsonValue,
    target: Option<Seq<char>>,
    bks: Seq<BookmarkSpec>,
) -> bool {
    let pm = spec_profile_map(doc);
    if pm.len() == 0 {
        match spec_best_pinned(spec_candidates(spec_sidebar_items(doc))) {
            Some(p) => bks == spec_container_bookmarks(doc, p),
            None => false,
        }
    } else {
        match target {
            Some(t) => match spec_assoc(pm, t) {
                Some(cid) => bks == spec_container_bookmarks(doc, cid),
                None => false,
            },
            None => bks == spec_profiles_bookmarks(doc, pm),
        }
    }
}

/// When a sidebar extraction fails: nothing is discoverable at all, or
/// the requested profile is not among the discovered ones.
pub open spec fn sidebar_outcome_err(
    doc: JsonValue,
    target: Option<Seq<char>>,
    e: crate::error::BookmarksError,
) -> bool {
    let pm = spec_profile_map(doc);
    if pm.len() == 0 {
        &&& spec_candidates(spec_sidebar_items(doc)).len() == 0
        &&& e is NoContainerDiscoverable
    } else {
        match target {
            Some(t) => {
                &&& spec_assoc(pm, t) is None
                &&& e matches crate::error::BookmarksError::ProfileNotFound { profile, available }
                    && profile@ == t && crate::text::names_of(available@) == spec_map_names(pm)
            },
            None => false,
        }
    }
}

/// Extracts bookmarks from the sidebar structure, for one target
/// profile or for all discovered profiles.
pub fn extract_arc_bookmarks_from_sidebar(
    arc_data: &JsonValue,
    target_profile: Option<&str>,
) -> (r: Result<Vec<ArcBookmark>, crate::error::BookmarksError>)
    ensures
        match r {
            Ok(bks) => sidebar_outcome_ok(*arc_data, opt_view(target_profile), views_of(bks@)),
            Err(e) => sidebar_outcome_err(*arc_data, opt_view(target_profile), e),
        },
{
    let pm_vec = discover_profile_containers(arc_data);
    if pm_vec.len() == 0 {
        match discover_pinned_container_id(arc_data) {
            None => Err(crate::error::BookmarksError::NoContainerDiscoverable),
            Some(pid) => {
                let entries = collect_tab_entries(arc_data);
                Ok(entries_for(&entries, pid.as_str()))
            },
        }
    } else {
        match target_profile {
            Some(t) => {
                match assoc_get(&pm_vec, t) {
                    Some(cid) => {
                        let entries = collect_tab_entries(arc_data);
                        Ok(entries_for(&entries, cid.as_str()))
                    },
                    None => Err(
                        crate::error::BookmarksError::ProfileNotFound {
                            profile: String::from_str(t),
                            available: map_names(&pm_vec),
                        },
                    ),
                }
            },
            None => {
                let entries = collect_tab_entries(arc_data);
                let ghost pmv: Seq<(Seq<char>, Seq<char>)> = pair_views(pm_vec@);
                let mut out: Vec<ArcBookmark> = Vec::new();
                let n = pm_vec.len();
                let mut k: usize = 0;
                proof {
                    assert(pmv.take(0) =~= Seq::<(Seq<char>, Seq<char>)>::empty());
                    assert(views_of(out@) =~= spec_profiles_bookmarks(*arc_data, pmv.take(0)));
                }
                while k < n
                    invariant
                        k <= n,
                        n == pm_vec@.len(),
                        pair_views(pm_vec@) == pmv,
                        tab_entry_views(entries@) == spec_tab_entries(
                            spec_sidebar_items(*arc_data),
                        ),
                        views_of(out@) == spec_profiles_bookmarks(*arc_data, pmv.take(k as int)),
                    decreases n - k,
                {
                    proof {
                        assert(pmv[k as int] == (pm_vec@[k as int].0@, pm_vec@[k as int].1@));
                    }
                    let mut part = entries_for(&entries, pm_vec[k].1.as_str());
                    let ghost out_pre: Seq<ArcBookmark> = out@;
                    let ghost part_v: Seq<ArcBookmark> = part@;
                    out.append(&mut part);
                    proof {
                        assert(pmv.take(k + 1).drop_last() =~= pmv.take(k as int));
                        assert(pmv.take(k + 1).last() == pmv[k as int]);
                        assert(views_of(out@) =~= views_of(out_pre) + views_of(part_v));
                        assert(views_of(out@) =~= spec_profiles_bookmarks(
                            *arc_data,
                            pmv.take(k + 1),
                        ));
                    }
                    k = k + 1;
                }
                proof {
                    assert(pmv.take(n as int) =~= pmv);
                }
                Ok(out)
            },
        }
    }
}

/// Extracts bookmarks for one profile, or — when none is requested —
/// accepts an already-linked-data document before falling back to the
/// sidebar structure.
pub fn extract_arc_bookmarks_for_profile(
    arc_data: &JsonValue,
    target_profile: Option<&str>,
) -> (r: Result<Vec<ArcBookmark>, crate::error::BookmarksError>)
    ensures
        match target_profile {
            Some(_) => match r {
                Ok(bks) => sidebar_outcome_ok(
                    *arc_data,
                    opt_view(target_profile),
                    views_of(bks@),
                ),
                Err(e) => sidebar_outcome_err(*arc_data, opt_view(target_profile), e),
            },
            None => match spec_jsonld_items(*arc_data) {
                Some(items) => r matches Ok(bks) && views_of(bks@) == spec_jsonld_list(items),
                None => match r {
                    Ok(bks) => sidebar_outcome_ok(*arc_data, None, views_of(bks@)),
                    Err(e) => sidebar_outcome_err(*arc_data, None, e),
                },
            },
        },
{
    if target_profile.is_some() {
        return extract_arc_bookmarks_from_sidebar(arc_data, target_profile);
    }
    let items_arr = match arc_data.get("items") {
        Some(v) => v.as_arr(),
        None => None,
    };
    match items_arr {
        Some(items) => {
            let ghost iv: Seq<JsonValue> = items@;
            let mut out: Vec<ArcBookmark> = Vec::new();
            let n = items.len();
            let mut i: usize = 0;
            proof {
                assert(iv.take(0) =~= Seq::<JsonValue>::empty());
                assert(views_of(out@) =~= spec_jsonld_list(iv.take(0)));
            }
            while i < n
                invariant
                    i <= n,
                    n == items@.len(),
                    items@ == iv,
                    views_of(out@) == spec_jsonld_list(iv.take(i as int)),
                decreases n - i,
            {
                match jsonld_bookmark_of(&items[i]) {
                    Some(b) => {
                        out.push(b);
                    },
                    None => {},
                }
                proof {
                    assert(iv.take(i + 1).drop_last() =~= iv.take(i as int));
                    assert(iv.take(i + 1).last() == iv[i as int]);
                    assert(views_of(out@) =~= spec_jsonld_list(iv.take(i + 1)));
                }
                i = i + 1;
            }
            proof {
                assert(iv.take(n as int) =~= iv);
            }
            Ok(out)
        },
        None => extract_arc_bookmarks_from_sidebar(arc_data, None),
    }
}

/// Extracts all bookmarks of the document.
pub fn extract_arc_bookmarks(arc_data: &JsonValue) -> (r: Result<
    Vec<ArcBookmark>,
    crate::error::BookmarksError,
>)
    ensures
        match spec_jsonld_items(*arc_data) {
            Some(items) => r matches Ok(bks) && views_of(bks@) == spec_jsonld_list(items),
            None => match r {
                Ok(bks) => sidebar_outcome_ok(*arc_data, None, views_of(bks@)),
                Err(e) => sidebar_outcome_err(*arc_data, None, e),
            },
        },
{
    extract_arc_bookmarks_for_profile(arc_data, None)
}

/// Extracts bookmarks for a 1-based profile index over the sorted
/// discovered profile names; index 0 or none selects all profiles.
pub fn extract_arc_bookmarks_for_numeric_profile(
    arc_data: &JsonValue,
    profile_index: Option<u32>,
) -> (r: Result<Vec<ArcBookmark>, crate::error::BookmarksError>)
    ensures
        ({
            let pm = spec_profile_map(*arc_data);
            let names = spec_map_names(pm);
            match profile_index {
                Some(i) => if i == 0 {
                    match spec_jsonld_items(*arc_data) {
                        Some(items) => r matches Ok(bks) && views_of(bks@) == spec_jsonld_list(
                            items,
                        ),
                        None => match r {
                            Ok(bks) => sidebar_outcome_ok(*arc_data, None, views_of(bks@)),
                            Err(e) => sidebar_outcome_err(*arc_data, None, e),
                        },
                    }
                } else {
                    match r {
                        Ok(bks) => 1 <= i <= names.len() && sidebar_outcome_ok(
                            *arc_data,
                            Some(crate::text::sorted_names(names)[i - 1]),
                            views_of(bks@),
                        ),
                        Err(e) => i > names.len() && (e
                            matches crate::error::BookmarksError::ProfileIndexOutOfRange {
                                index,
                                available,
                            } && index == i && crate::text::names_of(available@) == names),
                    }
                },
                None => match spec_jsonld_items(*arc_data) {
                    Some(items) => r matches Ok(bks) && views_of(bks@) == spec_jsonld_list(items),
                    None => match r {
                        Ok(bks) => sidebar_outcome_ok(*arc_data, None, views_of(bks@)),
                        Err(e) => sidebar_outcome_err(*arc_data, None, e),
                    },
                },
            }
        }),
{
    let index = match profile_index {
        Some(i) => i,
        None => {
            return extract_arc_bookmarks_for_profile(arc_data, None);
        },
    };
    if index == 0 {
        return extract_arc_bookmarks_for_profile(arc_data, None);
    }
    let pm_vec = discover_profile_containers(arc_data);
    let names = map_names(&pm_vec);
    match crate::utils::profile::map_numeric_profile_to_name(&names, index) {
        Some(name) => {
            proof {
                let pm = spec_profile_map(*arc_data);
                let nv = crate::text::names_of(names@);
                crate::text::lemma_name_leq_total_ordering();
                nv.lemma_sort_by_ensures(crate::text::name_leq());
                let sorted = crate::text::sorted_names(nv);
                assert(name@ == sorted[index - 1]);
                assert(sorted.to_multiset() =~= nv.to_multiset());
                sorted.to_multiset_ensures();
                nv.to_multiset_ensures();
                assert(sorted.contains(name@));
                assert(nv.contains(name@));
                let j = choose|j: int| 0 <= j < nv.len() && nv[j] == name@;
                assert(spec_map_names(pm)[j] == name@);
                assert(pm[j].0 == name@);
                lemma_assoc_present(pm, j);
            }
            let res = extract_arc_bookmarks_from_sidebar(arc_data, Some(name.as_str()));
            proof {
                match res {
                    Ok(_) => {},
                    Err(ref e) => {
                        assert(spec_profile_map(*arc_data).len() > 0);
                        assert(false);
                    },
                }
            }
            res
        },
        None => Err(
            crate::error::BookmarksError::ProfileIndexOutOfRange { index, available: names },
        ),
    }
}

/// Microseconds from the Core Foundation epoch (2001-01-01) back to the
/// Chromium epoch (1601-01-01): the 978307200-second offset to the Unix
/// epoch plus the 11644473600-second offset from there, scaled by one
/// million.
pub const CF_TO_CHROMIUM_MICROS: i64 = 12_622_780_800_000_000;

/// A Core Foundation timestamp in microseconds, shifted to the Chromium
/// epoch; out-of-range values saturate.
pub open spec fn spec_cf_to_chromium(cf_micros: i64) -> i64 {
    if cf_micros > i64::MAX - CF_TO_CHROMIUM_MICROS {
        i64::MAX
    } else if cf_micros + CF_TO_CHROMIUM_MICROS < 0 {
        0
    } else {
        (cf_micros + CF_TO_CHROMIUM_MICROS) as i64
    }
}

/// A wall-clock reading in Unix seconds as Chromium-epoch microseconds;
/// a reading too large to represent saturates.
pub open spec fn spec_now_chromium(now_unix_secs: u64) -> i64 {
    if (now_unix_secs + 11644473600) * 1000000 > i64::MAX {
        i64::MAX
    } else {
        ((now_unix_secs + 11644473600) * 1000000) as i64
    }
}

/// The `date_added` a bookmark gets: its creation time shifted to the
/// Chromium epoch, or the current time when it has none.
pub open spec fn spec_date_added(created_at: Option<i64>, now_unix_secs: u64) -> i64 {
    match created_at {
        Some(c) => spec_cf_to_chromium(c),
        None => spec_now_chromium(now_unix_secs),
    }
}

/// Shifts a Core Foundation timestamp, in microseconds, to Chromium
/// microseconds since 1601-01-01.
pub fn convert_cf_absolute_time(cf_micros: i64) -> (r: i64)
    ensures
        r == spec_cf_to_chromium(cf_micros),
        r >= 0,
{
    if cf_micros > i64::MAX - CF_TO_CHROMIUM_MICROS {
        i64::MAX
    } else if cf_micros < -CF_TO_CHROMIUM_MICROS {
        0
    } else {
        cf_micros + CF_TO_CHROMIUM_MICROS
    }
}

/// The synthesized identifier of the `counter`-th assembled bookmark.
pub open spec fn spec_guid(date_added: i64, counter: int) -> Seq<char> {
    seq!['a', 'r', 'c', '-'] + crate::num::dec_rep(date_added as int) + seq!['-']
        + crate::num::dec_rep(counter)
}

/// Builds the `arc-{date}-{counter}` identifier.
fn make_guid(date_added: i64, counter: u64) -> (r: String)
    requires
        date_added >= 0,
    ensures
        r@ == spec_guid(date_added, counter as int),
{
    let mut g = String::from_str("arc-");
    proof {
        reveal_strlit("arc-");
        assert("arc-"@ =~= seq!['a', 'r', 'c', '-']);
    }
    let date_text = crate::num::u64_to_dec(date_added as u64);
    g.append(date_text.as_str());
    g.append("-");
    proof {
        reveal_strlit("-");
        assert("-"@ =~= seq!['-']);
    }
    let counter_text = crate::num::u64_to_dec(counter);
    g.append(counter_text.as_str());
    proof {
        assert(g@ =~= spec_guid(date_added, counter as int));
    }
    g
}

/// One assembled Chromium bookmark node: a url-typed object carrying
/// the synthesized guid, the bookmark's title and url, and its
/// `date_added`.
pub open spec fn spec_is_node(n: JsonValue, bk: BookmarkSpec, date_added: i64, counter: int) -> bool {
    &&& spec_obj_keys(n) == Some(seq!["guid"@, "name"@, "url"@, "type"@, "date_added"@])
    &&& spec_get_str(n, "guid"@) == Some(spec_guid(date_added, counter))
    &&& spec_get_str(n, "name"@) == Some(bk.title)
    &&& spec_get_str(n, "url"@) == Some(bk.url)
    &&& spec_get_str(n, "type"@) == Some("url"@)
    &&& spec_get(n, "date_added"@) == Some(JsonValue::Int(date_added))
}

/// The `date_added` for a bookmark, from its creation time or the
/// clock.
fn date_added_of(created_at: Option<i64>, now_unix_secs: u64) -> (r: i64)
    ensures
        r == spec_date_added(created_at, now_unix_secs),
        r >= 0,
{
    match created_at {
        Some(c) => convert_cf_absolute_time(c),
        None => {
            match now_unix_secs.checked_add(11644473600) {
                Some(sh) => {
                    if sh <= 9_223_372_036_854u64 {
                        proof {
                            assert(sh * 1000000 <= 9_223_372_036_854i64 * 1000000)
                                by (nonlinear_arith)
                                requires
                                    0 <= sh <= 9_223_372_036_854u64,
                            ;
                        }
                        (sh * 1000000) as i64
                    } else {
                        proof {
                            assert(sh * 1000000 >= 9_223_372_036_855i64 * 1000000)
                                by (nonlinear_arith)
                                requires
                                    sh >= 9_223_372_036_855u64,
                            ;
                        }
                        i64::MAX
                    }
                },
                None => {
                    proof {
                        let sum = now_unix_secs + 11644473600;
                        assert(sum * 1000000 >= sum) by (nonlinear_arith)
                            requires
                                sum >= 0,
                        ;
                    }
                    i64::MAX
                },
            }
        },
    }
}

/// Builds one Chromium bookmark node.
fn make_node(bk: &ArcBookmark, now_unix_secs: u64, counter: u64) -> (r: JsonValue)
    ensures
        spec_is_node(r, bk@, spec_date_added(bk@.created_at, now_unix_secs), counter as int),
{
    let date_added = date_added_of(bk.created_at, now_unix_secs);
    let guid = make_guid(date_added, counter);
    proof {
        reveal_strlit("guid");
        reveal_strlit("name");
        reveal_strlit("url");
        reveal_strlit("type");
        reveal_strlit("date_added");
        assert("guid"@ != "name"@) by {
            assert("guid"@[0] != "name"@[0]);
        }
        assert("guid"@ != "url"@) by {
            assert("guid"@.len() != "url"@.len());
        }
        assert("guid"@ != "date_added"@) by {
            assert("guid"@.len() != "date_added"@.len());
        }
        assert("guid"@ != "type"@) by {
            assert("guid"@[0] != "type"@[0]);
        }
        assert("name"@ != "url"@) by {
            assert("name"@.len() != "url"@.len());
        }
        assert("name"@ != "type"@) by {
            assert("name"@[0] != "type"@[0]);
        }
        assert("name"@ != "date_added"@) by {
            assert("name"@.len() != "date_added"@.len());
        }
        assert("url"@ != "type"@) by {
            assert("url"@.len() != "type"@.len());
        }
        assert("url"@ != "date_added"@) by {
            assert("url"@.len() != "date_added"@.len());
        }
        assert("type"@ != "date_added"@) by {
            assert("type"@.len() != "date_added"@.len());
        }
    }
    crate::json::obj5(
        "guid",
        JsonValue::Str(guid),
        "name",
        JsonValue::Str(bk.title.clone()),
        "url",
        JsonValue::Str(bk.url.clone()),
        "type",
        JsonValue::Str(String::from_str("url")),
        "date_added",
        JsonValue::Int(date_added),
    )
}

/// The assembled tree: `roots.bookmark_bar` holds one node per
/// bookmark, in order, each dated and numbered; `roots.other` is an
/// empty folder.
pub open spec fn spec_is_chromium_tree(tree: JsonValue, bks: Seq<BookmarkSpec>, now_unix_secs: u64) -> bool {
    &&& spec_obj_keys(tree) == Some(seq!["roots"@])
    &&& spec_get(tree, "roots"@) matches Some(roots) && {
        &&& spec_obj_keys(roots) == Some(seq!["bookmark_bar"@, "other"@])
        &&& spec_get(roots, "bookmark_bar"@) matches Some(bar) && {
            &&& spec_obj_keys(bar) == Some(seq!["children"@, "type"@])
            &&& spec_get_str(bar, "type"@) == Some("folder"@)
            &&& spec_get(bar, "children"@) matches Some(ch) && spec_arr(ch) matches Some(nodes)
                && nodes.len() == bks.len() && (forall|i: int|
                0 <= i < bks.len() ==> spec_is_node(
                    #[trigger] nodes[i],
                    bks[i],
                    spec_date_added(bks[i].created_at, now_unix_secs),
                    i + 1,
                ))
        }
        &&& spec_get(roots, "other"@) matches Some(other) && {
            &&& spec_obj_keys(other) == Some(seq!["children"@, "type"@])
            &&& spec_get_str(other, "type"@) == Some("folder"@)
            &&& spec_get(other, "children"@) matches Some(ch) && spec_arr(ch) matches Some(none)
                && none.len() == 0
        }
    }
}

/// Assembles the canonical Chromium tree from a list of bookmarks,
/// dating undated entries with the given wall-clock reading.
pub fn assemble_chromium_tree(bookmarks: &Vec<ArcBookmark>, now_unix_secs: u64) -> (r: JsonValue)
    ensures
        spec_is_chromium_tree(r, views_of(bookmarks@), now_unix_secs),
{
    let mut nodes: Vec<JsonValue> = Vec::new();
    let n = bookmarks.len();
    let mut i: usize = 0;
    while i < n
        invariant
            i <= n,
            n == bookmarks@.len(),
            nodes@.len() == i,
            forall|j: int|
                0 <= j < i ==> spec_is_node(
                    #[trigger] nodes@[j],
                    bookmarks@[j]@,
                    spec_date_added(bookmarks@[j]@.created_at, now_unix_secs),
                    j + 1,
                ),
        decreases n - i,
    {
        let node = make_node(&bookmarks[i], now_unix_secs, (i as u64) + 1);
        nodes.push(node);
        i = i + 1;
    }
    proof {
        reveal_strlit("children");
        reveal_strlit("type");
        assert("children"@ != "type"@) by {
            assert("children"@.len() != "type"@.len());
        }
        reveal_strlit("bookmark_bar");
        reveal_strlit("other");
        assert("bookmark_bar"@ != "other"@) by {
            assert("bookmark_bar"@.len() != "other"@.len());
        }
    }
    let bar = crate::json::obj2(
        "children",
        JsonValue::Arr(nodes),
        "type",
        JsonValue::Str(String::from_str("folder")),
    );
    let empty_children: Vec<JsonValue> = Vec::new();
    let other = crate::json::obj2(
        "children",
        JsonValue::Arr(empty_children),
        "type",
        JsonValue::Str(String::from_str("folder")),
    );
    let roots = crate::json::obj2("bookmark_bar", bar, "other", other);
    let tree = crate::json::obj1("roots", roots);
    proof {
        assert forall|j: int| 0 <= j < views_of(bookmarks@).len() implies spec_is_node(
            #[trigger] spec_arr(spec_get(bar, "children"@).unwrap()).unwrap()[j],
            views_of(bookmarks@)[j],
            spec_date_added(views_of(bookmarks@)[j].created_at, now_unix_secs),
            j + 1,
        ) by {
            assert(views_of(bookmarks@)[j] == bookmarks@[j]@);
        }
    }
    tree
}

/// Relies on `std::time::SystemTime::now` for the wall clock: seconds
/// since the Unix epoch, or zero for a clock reading before it. Nothing
/// is promised of the value.
#[verifier::external_body]
fn unix_now_secs() -> u64 {
    match std::time::SystemTime::now().duration_since(std::time::UNIX_EPOCH) {
        Ok(d) => d.as_secs(),
        Err(_) => 0,
    }
}

/// What a profile-targeted extraction returns on success: the linked-
/// data acceptance path when no profile is requested and the document
/// already carries `items`, else the sidebar outcome.
pub open spec fn profile_outcome_ok(
    doc: JsonValue,
    target: Option<Seq<char>>,
    bks: Seq<BookmarkSpec>,
) -> bool {
    match target {
        Some(_) => sidebar_outcome_ok(doc, target, bks),
        None => match spec_jsonld_items(doc) {
            Some(items) => bks == spec_jsonld_list(items),
            None => sidebar_outcome_ok(doc, None, bks),
        },
    }
}

/// When a profile-targeted extraction fails.
pub open spec fn profile_outcome_err(
    doc: JsonValue,
    target: Option<Seq<char>>,
    e: crate::error::BookmarksError,
) -> bool {
    match target {
        Some(_) => sidebar_outcome_err(doc, target, e),
        None => spec_jsonld_items(doc) is None && sidebar_outcome_err(doc, None, e),
    }
}

/// Converts the document's bookmarks for one profile into the canonical
/// Chromium tree. Entries without a creation time are dated with the
/// wall clock, so two runs over the same data may differ in dates and
/// guids alone.
pub fn convert_arc_bookmarks_to_chromium(arc_data: &JsonValue, profile: Option<&str>) -> (r: Result<
    JsonValue,
    crate::error::BookmarksError,
>)
    ensures
        match r {
            Ok(tree) => exists|now: u64, bks: Seq<BookmarkSpec>|
                profile_outcome_ok(*arc_data, opt_view(profile), bks) && spec_is_chromium_tree(
                    tree,
                    bks,
                    now,
                ),
            Err(e) => profile_outcome_err(*arc_data, opt_view(profile), e),
        },
{
    let bookmarks = match extract_arc_bookmarks_for_profile(arc_data, profile) {
        Ok(b) => b,
        Err(e) => {
            return Err(e);
        },
    };
    let now = unix_now_secs();
    let tree = assemble_chromium_tree(&bookmarks, now);
    proof {
        assert(profile_outcome_ok(*arc_data, opt_view(profile), views_of(bookmarks@))
            && spec_is_chromium_tree(tree, views_of(bookmarks@), now));
    }
    Ok(tree)
}

/// What a numerically-selected extraction returns on success.
pub open spec fn numeric_outcome_ok(doc: JsonValue, index: Option<u32>, bks: Seq<BookmarkSpec>) -> bool {
    match index {
        Some(i) => if i == 0 {
            profile_outcome_ok(doc, None, bks)
        } else {
            let names = spec_map_names(spec_profile_map(doc));
            1 <= i <= names.len() && sidebar_outcome_ok(
                doc,
                Some(crate::text::sorted_names(names)[i - 1]),
                bks,
            )
        },
        None => profile_outcome_ok(doc, None, bks),
    }
}

/// When a numerically-selected extraction fails.
pub open spec fn numeric_outcome_err(
    doc: JsonValue,
    index: Option<u32>,
    e: crate::error::BookmarksError,
) -> bool {
    match index {
        Some(i) => if i == 0 {
            profile_outcome_err(doc, None, e)
        } else {
            let names = spec_map_names(spec_profile_map(doc));
            i > names.len() && (e
                matches crate::error::BookmarksError::ProfileIndexOutOfRange { index, available }
                && index == i && crate::text::names_of(available@) == names)
        },
        None => profile_outcome_err(doc, None, e),
    }
}

/// Converts the document's bookmarks for a 1-based profile index into
/// the canonical Chromium tree; index 0 or none converts all profiles.
pub fn convert_arc_bookmarks_to_chromium_numeric(
    arc_data: &JsonValue,
    profile_index: Option<u32>,
) -> (r: Result<JsonValue, crate::error::BookmarksError>)
    ensures
        match r {
            Ok(tree) => exists|now: u64, bks: Seq<BookmarkSpec>|
                numeric_outcome_ok(*arc_data, profile_index, bks) && spec_is_chromium_tree(
                    tree,
                    bks,
                    now,
                ),
            Err(e) => numeric_outcome_err(*arc_data, profile_index, e),
        },
{
    let bookmarks = match extract_arc_bookmarks_for_numeric_profile(arc_data, profile_index) {
        Ok(b) => b,
        Err(e) => {
            return Err(e);
        },
    };
    let now = unix_now_secs();
    let tree = assemble_chromium_tree(&bookmarks, now);
    proof {
        assert(numeric_outcome_ok(*arc_data, profile_index, views_of(bookmarks@))
            && spec_is_chromium_tree(tree, views_of(bookmarks@), now));
    }
    Ok(tree)
}

/// Every `date_added` is non-negative: saturation clamps both ends.
pub proof fn lemma_date_added_nonneg(created_at: Option<i64>, now_unix_secs: u64)
    ensures
        spec_date_added(created_at, now_unix_secs) >= 0,
{
    match created_at {
        Some(_) => {},
        None => {
            let sum = now_unix_secs + 11644473600;
            assert(sum * 1000000 >= 0) by (nonlinear_arith)
                requires
                    sum >= 0,
            ;
        },
    }
}

/// Law: within one assembly pass the synthesized guids are pairwise
/// distinct — the 1-based counter alone tells any two nodes apart,
/// whatever their dates.
pub proof fn lemma_assembled_guids_distinct(
    tree: JsonValue,
    bks: Seq<BookmarkSpec>,
    now_unix_secs: u64,
    i: int,
    j: int,
)
    requires
        spec_is_chromium_tree(tree, bks, now_unix_secs),
        0 <= i < j < bks.len(),
    ensures
        ({
            let nodes = spec_arr(
                spec_get(
                    spec_get(spec_get(tree, "roots"@).unwrap(), "bookmark_bar"@).unwrap(),
                    "children"@,
                ).unwrap(),
            ).unwrap();
            spec_get_str(nodes[i], "guid"@) != spec_get_str(nodes[j], "guid"@)
        }),
{
    let nodes = spec_arr(
        spec_get(
            spec_get(spec_get(tree, "roots"@).unwrap(), "bookmark_bar"@).unwrap(),
            "children"@,
        ).unwrap(),
    ).unwrap();
    let di = spec_date_added(bks[i].created_at, now_unix_secs);
    let dj = spec_date_added(bks[j].created_at, now_unix_secs);
    lemma_date_added_nonneg(bks[i].created_at, now_unix_secs);
    lemma_date_added_nonneg(bks[j].created_at, now_unix_secs);
    assert(spec_is_node(nodes[i], bks[i], di, i + 1));
    assert(spec_is_node(nodes[j], bks[j], dj, j + 1));
    let gi = spec_guid(di, i + 1);
    let gj = spec_guid(dj, j + 1);
    if gi == gj {
        let ti = crate::num::dec_rep(di as int) + seq!['-'] + crate::num::dec_rep(i + 1);
        let tj = crate::num::dec_rep(dj as int) + seq!['-'] + crate::num::dec_rep(j + 1);
        assert(gi.skip(4) =~= ti);
        assert(gj.skip(4) =~= tj);
        crate::num::lemma_dec_rep_digits(di as int);
        crate::num::lemma_dec_rep_digits(dj as int);
        crate::num::lemma_dash_join_unique(
            crate::num::dec_rep(di as int),
            crate::num::dec_rep(i + 1),
            crate::num::dec_rep(dj as int),
            crate::num::dec_rep(j + 1),
        );
        crate::num::lemma_dec_rep_injective(i + 1, j + 1);
        assert(false);
    }
}

/// Law: assembled dates follow the creation times. For two bookmarks
/// whose creation times lie in the representable range, `date_added`
/// orders exactly as `created_at`; outside that range both ends
/// saturate.
pub proof fn lemma_assembled_dates_ordered(
    bks: Seq<BookmarkSpec>,
    now_unix_secs: u64,
    i: int,
    j: int,
)
    requires
        0 <= i < bks.len(),
        0 <= j < bks.len(),
        bks[i].created_at is Some,
        bks[j].created_at is Some,
        -CF_TO_CHROMIUM_MICROS <= bks[i].created_at.unwrap() <= i64::MAX - CF_TO_CHROMIUM_MICROS,
        -CF_TO_CHROMIUM_MICROS <= bks[j].created_at.unwrap() <= i64::MAX - CF_TO_CHROMIUM_MICROS,
    ensures
        (spec_date_added(bks[i].created_at, now_unix_secs) < spec_date_added(
            bks[j].created_at,
            now_unix_secs,
        )) == (bks[i].created_at.unwrap() < bks[j].created_at.unwrap()),
{
}

/// Law: the pinned-container choice really is the majority vote. When
/// any votes exist, the chosen parent is one of them, and every voted
/// parent either has strictly fewer votes or ties and does not come
/// earlier in lexicographic order.
pub proof fn lemma_best_pinned_is_max(votes: Seq<Seq<char>>)
    ensures
        match spec_best_pinned(votes) {
            None => votes.len() == 0,
            Some(p) => votes.contains(p) && forall|q: Seq<char>|
                votes.contains(q) ==> (count_matches(votes, q) < count_matches(votes, p) || (
                count_matches(votes, q) == count_matches(votes, p) && crate::text::lex_leq(p, q))),
        },
{
    lemma_best_upto_props(votes, votes.len() as int);
    match spec_best_pinned(votes) {
        None => {},
        Some(p) => {
            let pc = spec_best_upto(votes, votes.len() as int).unwrap();
            assert(votes.contains(p)) by {
                let x = choose|x: int| 0 <= x < votes.len() && votes[x] == pc.0;
                assert(votes[x] == p);
            }
            assert forall|q: Seq<char>| votes.contains(q) implies (count_matches(votes, q)
                < count_matches(votes, p) || (count_matches(votes, q) == count_matches(votes, p)
                && crate::text::lex_leq(p, q))) by {
                let x = choose|x: int| 0 <= x < votes.len() && votes[x] == q;
                assert(count_matches(votes, votes[x]) < pc.1 || (count_matches(votes, votes[x])
                    == pc.1 && crate::text::lex_leq(pc.0, votes[x])));
            }
        },
    }
}

/// The running choice over a prefix of the votes is one of them, knows
/// its own count, and beats every vote seen so far.
proof fn lemma_best_upto_props(votes: Seq<Seq<char>>, k: int)
    requires
        0 <= k <= votes.len(),
    ensures
        match spec_best_upto(votes, k) {
            None => k == 0,
            Some(pc) => {
                &&& exists|x: int| 0 <= x < k && votes[x] == pc.0
                &&& pc.1 == count_matches(votes, pc.0)
                &&& forall|x: int|
                    0 <= x < k ==> (count_matches(votes, #[trigger] votes[x]) < pc.1 || (
                    count_matches(votes, votes[x]) == pc.1 && crate::text::lex_leq(pc.0, votes[x])))
            },
        },
    decreases k,
{
    if k > 0 {
        lemma_best_upto_props(votes, k - 1);
        let q = votes[k - 1];
        let c = count_matches(votes, q);
        match spec_best_upto(votes, k - 1) {
            None => {
                assert(spec_best_upto(votes, k) == Some((q, c)));
                assert(votes[k - 1] == q);
            },
            Some(pc) => {
                if c > pc.1 || (c == pc.1 && crate::text::lex_lt(q, pc.0)) {
                    assert(spec_best_upto(votes, k) == Some((q, c)));
                    assert(votes[k - 1] == q);
                    assert forall|x: int| 0 <= x < k implies (count_matches(
                        votes,
                        #[trigger] votes[x],
                    ) < c || (count_matches(votes, votes[x]) == c && crate::text::lex_leq(
                        q,
                        votes[x],
                    ))) by {
                        if x < k - 1 {
                            if count_matches(votes, votes[x]) == pc.1 && crate::text::lex_leq(
                                pc.0,
                                votes[x],
                            ) {
                                if c == pc.1 {
                                    if crate::text::lex_lt(pc.0, votes[x]) {
                                        crate::text::lemma_lex_lt_trans(q, pc.0, votes[x]);
                                    }
                                }
                            }
                        }
                    }
                } else {
                    assert(spec_best_upto(votes, k) == Some(pc));
                    assert forall|x: int| 0 <= x < k implies (count_matches(
                        votes,
                        #[trigger] votes[x],
                    ) < pc.1 || (count_matches(votes, votes[x]) == pc.1 && crate::text::lex_leq(
                        pc.0,
                        votes[x],
                    ))) by {
                        if x == k - 1 {
                            if c == pc.1 {
                                crate::text::lemma_lex_trichotomy(q, pc.0);
                            }
                        }
                    }
                }
            },
        }
    }
}

} // verus!
