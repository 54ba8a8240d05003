//! Merging the per-profile outputs of the external linked-data
//! transform into one document.
//!
//! The transform itself — from one standard-schema bookmark tree to one
//! JSON-LD document — is an external collaborator; this crate never
//! inspects its internals. When several profiles are read, each tree is
//! transformed on its own, and this module concatenates the resulting
//! `items` and wraps them in the fixed linked-data envelope.

use vstd::prelude::*;

use crate::json::{spec_arr, spec_get, spec_get_str, spec_obj_keys, JsonValue};

verus! {

/// Assembles merged linked-data documents out of transformed
/// per-profile outputs.
pub struct BookmarksTransform {}

/// The `items` array of a transformed document; a document without one
/// contributes nothing.
pub open spec fn spec_items_of_doc(doc: JsonValue) -> Seq<JsonValue> {
    match spec_get(doc, "items"@) {
        Some(v) => match spec_arr(v) {
            Some(a) => a,
            None => Seq::empty(),
        },
        None => Seq::empty(),
    }
}

/// The items of all documents, concatenated in document order.
pub open spec fn spec_merged_items(docs: Seq<JsonValue>) -> Seq<JsonValue>
    decreases docs.len(),
{
    if docs.len() == 0 {
        Seq::empty()
    } else {
        spec_merged_items(docs.drop_last()) + spec_items_of_doc(docs.last())
    }
}

/// The fixed `@context` block of the merged envelope: the `know:`,
/// `rdfs:` and `xsd:` vocabularies, with `items` a set of members and
/// `created`, `title` and `link` typed.
pub open spec fn spec_is_envelope_context(ctx: JsonValue) -> bool {
    &&& spec_obj_keys(ctx) == Some(
        seq!["know"@, "rdfs"@, "xsd"@, "items"@, "created"@, "title"@, "link"@],
    )
    &&& spec_get_str(ctx, "know"@) == Some("https://know.dev/"@)
    &&& spec_get_str(ctx, "rdfs"@) == Some("http://www.w3.org/2000/01/rdf-schema#"@)
    &&& spec_get_str(ctx, "xsd"@) == Some("http://www.w3.org/2001/XMLSchema#"@)
    &&& spec_get(ctx, "items"@) matches Some(items) && {
        &&& spec_obj_keys(items) == Some(seq!["@id"@, "@type"@, "@container"@])
        &&& spec_get_str(items, "@id"@) == Some("rdfs:member"@)
        &&& spec_get_str(items, "@type"@) == Some("know:UserAccount"@)
        &&& spec_get_str(items, "@container"@) == Some("@set"@)
    }
    &&& spec_get(ctx, "created"@) matches Some(created) && {
        &&& spec_obj_keys(created) == Some(seq!["@id"@, "@type"@])
        &&& spec_get_str(created, "@id"@) == Some("know:created"@)
        &&& spec_get_str(created, "@type"@) == Some("xsd:dateTime"@)
    }
    &&& spec_get(ctx, "title"@) matches Some(title) && {
        &&& spec_obj_keys(title) == Some(seq!["@id"@, "@language"@])
        &&& spec_get_str(title, "@id"@) == Some("know:title"@)
        &&& spec_get_str(title, "@language"@) == Some("en"@)
    }
    &&& spec_get(ctx, "link"@) matches Some(link) && {
        &&& spec_obj_keys(link) == Some(seq!["@id"@, "@type"@])
        &&& spec_get_str(link, "@id"@) == Some("know:link"@)
        &&& spec_get_str(link, "@type"@) == Some("xsd:anyURI"@)
    }
}

/// A merged document: the fixed context beside the concatenated items.
pub open spec fn spec_is_merged(r: JsonValue, docs: Seq<JsonValue>) -> bool {
    &&& spec_obj_keys(r) == Some(seq!["@context"@, "items"@])
    &&& spec_get(r, "@context"@) matches Some(ctx) && spec_is_envelope_context(ctx)
    &&& spec_get(r, "items"@) matches Some(iv) && spec_arr(iv) == Some(spec_merged_items(docs))
}

/// Builds the fixed `@context` block.
fn make_envelope_context() -> (r: JsonValue)
    ensures
        spec_is_envelope_context(r),
{
    proof {
        reveal_strlit("@id");
        reveal_strlit("@type");
        reveal_strlit("@language");
        reveal_strlit("@container");
        assert("@id"@ != "@type"@) by {
            assert("@id"@.len() != "@type"@.len());
        }
        assert("@id"@ != "@language"@) by {
            assert("@id"@.len() != "@language"@.len());
        }
        assert("@id"@ != "@container"@) by {
            assert("@id"@.len() != "@container"@.len());
        }
        assert("@type"@ != "@container"@) by {
            assert("@type"@.len() != "@container"@.len());
        }
    }
    let items_term = crate::json::obj3(
        "@id",
        JsonValue::Str(String::from_str("rdfs:member")),
        "@type",
        JsonValue::Str(String::from_str("know:UserAccount")),
        "@container",
        JsonValue::Str(String::from_str("@set")),
    );
    let created_term = crate::json::obj2(
        "@id",
        JsonValue::Str(String::from_str("know:created")),
        "@type",
        JsonValue::Str(String::from_str("xsd:dateTime")),
    );
    let title_term = crate::json::obj2(
        "@id",
        JsonValue::Str(String::from_str("know:title")),
        "@language",
        JsonValue::Str(String::from_str("en")),
    );
    let link_term = crate::json::obj2(
        "@id",
        JsonValue::Str(String::from_str("know:link")),
        "@type",
        JsonValue::Str(String::from_str("xsd:anyURI")),
    );
    proof {
        reveal_strlit("know");
        reveal_strlit("rdfs");
        reveal_strlit("xsd");
        reveal_strlit("items");
        reveal_strlit("created");
        reveal_strlit("title");
        reveal_strlit("link");
        assert("know"@ != "rdfs"@) by {
            assert("know"@[0] != "rdfs"@[0]);
        }
        assert("know"@ != "xsd"@) by {
            assert("know"@.len() != "xsd"@.len());
        }
        assert("know"@ != "items"@) by {
            assert("know"@.len() != "items"@.len());
        }
        assert("know"@ != "created"@) by {
            assert("know"@.len() != "created"@.len());
        }
        assert("know"@ != "title"@) by {
            assert("know"@.len() != "title"@.len());
        }
        assert("know"@ != "link"@) by {
            assert("know"@[0] != "link"@[0]);
        }
        assert("rdfs"@ != "xsd"@) by {
            assert("rdfs"@.len() != "xsd"@.len());
        }
        assert("rdfs"@ != "items"@) by {
            assert("rdfs"@.len() != "items"@.len());
        }
        assert("rdfs"@ != "created"@) by {
            assert("rdfs"@.len() != "created"@.len());
        }
        assert("rdfs"@ != "title"@) by {
            assert("rdfs"@.len() != "title"@.len());
        }
        assert("rdfs"@ != "link"@) by {
            assert("rdfs"@[0] != "link"@[0]);
        }
        assert("xsd"@ != "items"@) by {
            assert("xsd"@.len() != "items"@.len());
        }
        assert("xsd"@ != "created"@) by {
            assert("xsd"@.len() != "created"@.len());
        }
        assert("xsd"@ != "title"@) by {
            assert("xsd"@.len() != "title"@.len());
        }
        assert("xsd"@ != "link"@) by {
            assert("xsd"@.len() != "link"@.len());
        }
        assert("items"@ != "created"@) by {
            assert("items"@.len() != "created"@.len());
        }
        assert("items"@ != "title"@) by {
            assert("items"@[0] != "title"@[0]);
        }
        assert("items"@ != "link"@) by {
            assert("items"@.len() != "link"@.len());
        }
        assert("created"@ != "title"@) by {
            assert("created"@.len() != "title"@.len());
        }
        assert("created"@ != "link"@) by {
            assert("created"@.len() != "link"@.len());
        }
        assert("title"@ != "link"@) by {
            assert("title"@.len() != "link"@.len());
        }
    }
    crate::json::obj7(
        "know",
        JsonValue::Str(String::from_str("https://know.dev/")),
        "rdfs",
        JsonValue::Str(String::from_str("http://www.w3.org/2000/01/rdf-schema#")),
        "xsd",
        JsonValue::Str(String::from_str("http://www.w3.org/2001/XMLSchema#")),
        "items",
        items_term,
        "created",
        created_term,
        "title",
        title_term,
        "link",
        link_term,
    )
}

impl BookmarksTransform {
    /// A merge engine for transformed outputs.
    pub fn new() -> (r: BookmarksTransform)
        ensures
            r == (BookmarksTransform {  }),
    {
        BookmarksTransform {  }
    }

    /// Merges the transformed outputs of several profiles into one
    /// document: no output yields the empty object, a single output
    /// passes through unchanged, and more are merged by concatenating
    /// their `items` under the fixed envelope.
    pub fn execute_multiple(&self, inputs: Vec<JsonValue>) -> (r: JsonValue)
        ensures
            inputs@.len() == 0 ==> spec_obj_keys(r) == Some(Seq::<Seq<char>>::empty()),
            inputs@.len() == 1 ==> r == inputs@[0],
            inputs@.len() >= 2 ==> spec_is_merged(r, inputs@),
    {
        let ghost orig: Seq<JsonValue> = inputs@;
        let mut inputs = inputs;
        if inputs.len() == 0 {
            let fields: Vec<(String, JsonValue)> = Vec::new();
            proof {
                assert(spec_obj_keys(JsonValue::Obj(fields)) matches Some(ks) && ks =~= Seq::<
                    Seq<char>,
                >::empty());
            }
            return JsonValue::Obj(fields);
        }
        if inputs.len() == 1 {
            let doc = inputs.remove(0);
            return doc;
        }
        let mut all_items: Vec<JsonValue> = Vec::new();
        let mut k: usize = 0;
        let ghost n: int = orig.len() as int;
        proof {
            assert(orig.take(0) =~= Seq::<JsonValue>::empty());
        }
        while inputs.len() > 0
            invariant
                n == orig.len(),
                n <= usize::MAX,
                k <= n,
                inputs@ == orig.skip(k as int),
                all_items@ == spec_merged_items(orig.take(k as int)),
            decreases inputs@.len(),
        {
            proof {
                assert(orig.skip(k as int).len() == n - k);
            }
            let doc = inputs.remove(0);
            proof {
                assert(orig.skip(k as int)[0] == orig[k as int]);
                assert(inputs@ =~= orig.skip(k + 1));
            }
            match doc.take_field("items") {
                Some(v) => {
                    match v {
                        JsonValue::Arr(mut a) => {
                            let ghost pre: Seq<JsonValue> = all_items@;
                            let ghost av: Seq<JsonValue> = a@;
                            all_items.append(&mut a);
                            proof {
                                assert(all_items@ == pre + av);
                            }
                        },
                        _ => {},
                    }
                },
                None => {},
            }
            proof {
                assert(orig.take(k + 1).drop_last() =~= orig.take(k as int));
                assert(orig.take(k + 1).last() == orig[k as int]);
                assert(all_items@ =~= spec_merged_items(orig.take(k + 1)));
                assert(k < n);
            }
            k = k + 1;
        }
        proof {
            assert(orig.take(k as int) =~= orig);
        }
        let context = make_envelope_context();
        proof {
            reveal_strlit("@context");
            reveal_strlit("items");
            assert("@context"@ != "items"@) by {
                assert("@context"@.len() != "items"@.len());
            }
        }
        let merged = crate::json::obj2("@context", context, "items", JsonValue::Arr(all_items));
        merged
    }
}

} // verus!
