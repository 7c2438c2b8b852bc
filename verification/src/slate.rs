//! The Slate node tree that the web editor renders, built from a document.

use vstd::prelude::*;
use crate::json::{
    Json, JsonV, lemma_assoc_get_at, lemma_assoc_get_none, first_key_index, is_first_key, assoc_get, clone_entries, entry_keys, entry_views, find_key, json_view, json_views,
    lemma_entry_views_push, lemma_json_views, lemma_json_views_push, string_keys,
};
use crate::delta::{delta_ops, delta_to_slate_leaves, opt_string_view, slate_leaves};
use crate::document::{Block, BlockV, DocumentData, DocumentV};

verus! {

/// The text child of a block whose external type is `text` and that has an
/// external id: a `text` node with that id and the leaves of the delta that
/// the text map holds under it. Nothing for any other block.
pub open spec fn text_children(doc: DocumentV, b: BlockV) -> Seq<JsonV> {
    if b.external_type == Some("text"@) && b.external_id is Some {
        let id = b.external_id.unwrap();
        let delta = match doc.text_map {
            Some(tm) => assoc_get(tm, id),
            None => None,
        };
        seq![
            JsonV::Object(
                seq![
                    ("type"@, JsonV::Str("text"@)),
                    ("textId"@, JsonV::Str(id)),
                    ("children"@, JsonV::Array(slate_leaves(delta_ops(delta)))),
                ],
            ),
        ]
    } else {
        Seq::empty()
    }
}

/// The Slate element of a block with the given children.
pub open spec fn element_json(b: BlockV, children: Seq<JsonV>) -> JsonV {
    JsonV::Object(
        seq![
            ("type"@, JsonV::Str(b.ty)),
            ("blockId"@, JsonV::Str(b.id)),
            ("relationId"@, JsonV::Str(b.children)),
            ("data"@, JsonV::Object(b.data)),
            ("children"@, JsonV::Array(children)),
        ],
    )
}

/// The Slate nodes of the blocks listed under `key` in the children map, when
/// no chain of nested blocks below them is `fuel` blocks long or longer;
/// nothing otherwise. A missing key lists no blocks; an id with no block is skipped.
pub open spec fn slate_children(doc: DocumentV, key: Seq<char>, fuel: nat) -> Option<Seq<JsonV>>
    decreases fuel, 2nat, 0nat,
{
    match assoc_get(doc.children_map, key) {
        Some(ids) => slate_of_ids(doc, ids, fuel),
        None => Some(Seq::empty()),
    }
}

/// The Slate elements of the blocks with the given ids, in order.
pub open spec fn slate_of_ids(doc: DocumentV, ids: Seq<Seq<char>>, fuel: nat) -> Option<Seq<JsonV>>
    decreases fuel, 1nat, ids.len(),
{
    if ids.len() == 0 {
        Some(Seq::empty())
    } else {
        match slate_of_ids(doc, ids.subrange(0, ids.len() - 1), fuel) {
            Some(prev) => match assoc_get(doc.blocks, ids[ids.len() - 1]) {
                Some(b) => match slate_element(doc, b, fuel) {
                    Some(e) => Some(prev.push(e)),
                    None => None,
                },
                None => Some(prev),
            },
            None => None,
        }
    }
}

/// The Slate element of a block: its text child, if any, then its nested
/// blocks' elements.
pub open spec fn slate_element(doc: DocumentV, b: BlockV, fuel: nat) -> Option<JsonV>
    decreases fuel, 0nat, 0nat,
{
    if fuel == 0 {
        None
    } else {
        match slate_children(doc, b.children, (fuel - 1) as nat) {
            Some(nested) => Some(element_json(b, text_children(doc, b) + nested)),
            None => None,
        }
    }
}

/// The Slate nodes of a document's page, with the given depth bound: the
/// children of the page block, or none where there is no page block.
pub open spec fn document_slate(doc: DocumentV, fuel: nat) -> Option<Seq<JsonV>> {
    match assoc_get(doc.blocks, doc.page_id) {
        Some(page) => slate_children(doc, page.children, fuel),
        None => Some(Seq::empty()),
    }
}

/// The depth bound that a document's own size gives: its number of block
/// entries. A chain of nested blocks below the page that is longer holds some
/// block twice, and then never ends.
pub open spec fn depth_bound(doc: DocumentV) -> nat {
    doc.blocks.len()
}

/// The blocks listed under `key` have no chain of nested blocks `fuel` long.
pub open spec fn children_end(doc: DocumentV, key: Seq<char>, fuel: nat) -> bool
    decreases fuel, 2nat, 0nat,
{
    match assoc_get(doc.children_map, key) {
        Some(ids) => ids_end(doc, ids, fuel),
        None => true,
    }
}

/// The blocks with the given ids have no chain of nested blocks `fuel` long.
pub open spec fn ids_end(doc: DocumentV, ids: Seq<Seq<char>>, fuel: nat) -> bool
    decreases fuel, 1nat, ids.len(),
{
    if ids.len() == 0 {
        true
    } else {
        &&& ids_end(doc, ids.subrange(0, ids.len() - 1), fuel)
        &&& match assoc_get(doc.blocks, ids[ids.len() - 1]) {
            Some(b) => element_ends(doc, b, fuel),
            None => true,
        }
    }
}

/// The block has no chain of nested blocks `fuel` long below and including it.
pub open spec fn element_ends(doc: DocumentV, b: BlockV, fuel: nat) -> bool
    decreases fuel, 0nat, 0nat,
{
    fuel > 0 && children_end(doc, b.children, (fuel - 1) as nat)
}

/// Every chain of nested blocks below the page of a document is shorter than
/// the document's number of block entries; there is nothing to nest where the
/// page has no block.
pub open spec fn nesting_ends(doc: DocumentV) -> bool {
    match assoc_get(doc.blocks, doc.page_id) {
        Some(page) => children_end(doc, page.children, depth_bound(doc)),
        None => true,
    }
}

proof fn lemma_children_end(doc: DocumentV, key: Seq<char>, fuel: nat)
    ensures
        slate_children(doc, key, fuel) is Some <==> children_end(doc, key, fuel),
    decreases fuel, 2nat, 0nat,
{
    match assoc_get(doc.children_map, key) {
        Some(ids) => lemma_ids_end(doc, ids, fuel),
        None => {},
    }
}

proof fn lemma_ids_end(doc: DocumentV, ids: Seq<Seq<char>>, fuel: nat)
    ensures
        slate_of_ids(doc, ids, fuel) is Some <==> ids_end(doc, ids, fuel),
    decreases fuel, 1nat, ids.len(),
{
    if ids.len() > 0 {
        lemma_ids_end(doc, ids.subrange(0, ids.len() - 1), fuel);
        match assoc_get(doc.blocks, ids[ids.len() - 1]) {
            Some(b) => lemma_element_end(doc, b, fuel),
            None => {},
        }
    }
}

proof fn lemma_element_end(doc: DocumentV, b: BlockV, fuel: nat)
    ensures
        slate_element(doc, b, fuel) is Some <==> element_ends(doc, b, fuel),
    decreases fuel, 0nat, 0nat,
{
    if fuel > 0 {
        lemma_children_end(doc, b.children, (fuel - 1) as nat);
    }
}

/// The Slate nodes of a page exist within the document's own size exactly
/// when its nesting ends there.
pub proof fn lemma_nesting_ends(doc: DocumentV)
    ensures
        document_slate(doc, depth_bound(doc)) is Some <==> nesting_ends(doc),
{
    match assoc_get(doc.blocks, doc.page_id) {
        Some(page) => lemma_children_end(doc, page.children, depth_bound(doc)),
        None => {},
    }
}

/// The view of an optional vector of JSON values.
pub open spec fn opt_json_views(r: Option<Vec<Json>>) -> Option<Seq<JsonV>> {
    match r {
        Some(v) => Some(json_views(v@)),
        None => None,
    }
}

/// The view of an optional JSON value.
pub open spec fn opt_json_view(r: Option<Json>) -> Option<JsonV> {
    match r {
        Some(v) => Some(v@),
        None => None,
    }
}

proof fn lemma_children_fuel(doc: DocumentV, key: Seq<char>, f1: nat, f2: nat)
    requires
        f1 <= f2,
        slate_children(doc, key, f1) is Some,
    ensures
        slate_children(doc, key, f2) == slate_children(doc, key, f1),
    decreases f1, 2nat, 0nat,
{
    match assoc_get(doc.children_map, key) {
        Some(ids) => lemma_ids_fuel(doc, ids, f1, f2),
        None => {},
    }
}

proof fn lemma_ids_fuel(doc: DocumentV, ids: Seq<Seq<char>>, f1: nat, f2: nat)
    requires
        f1 <= f2,
        slate_of_ids(doc, ids, f1) is Some,
    ensures
        slate_of_ids(doc, ids, f2) == slate_of_ids(doc, ids, f1),
    decreases f1, 1nat, ids.len(),
{
    if ids.len() > 0 {
        lemma_ids_fuel(doc, ids.subrange(0, ids.len() - 1), f1, f2);
        match assoc_get(doc.blocks, ids[ids.len() - 1]) {
            Some(b) => lemma_element_fuel(doc, b, f1, f2),
            None => {},
        }
    }
}

proof fn lemma_element_fuel(doc: DocumentV, b: BlockV, f1: nat, f2: nat)
    requires
        f1 <= f2,
        slate_element(doc, b, f1) is Some,
    ensures
        slate_element(doc, b, f2) == slate_element(doc, b, f1),
    decreases f1, 0nat, 0nat,
{
    if f1 > 0 {
        lemma_children_fuel(doc, b.children, (f1 - 1) as nat, (f2 - 1) as nat);
    }
}

/// The Slate nodes of a page do not depend on the depth bound: once the
/// nesting below the page ends within a bound, every larger bound gives the
/// same nodes.
pub proof fn lemma_document_slate_bound(doc: DocumentV, f1: nat, f2: nat)
    requires
        f1 <= f2,
        document_slate(doc, f1) is Some,
    ensures
        document_slate(doc, f2) == document_slate(doc, f1),
{
    match assoc_get(doc.blocks, doc.page_id) {
        Some(page) => lemma_children_fuel(doc, page.children, f1, f2),
        None => {},
    }
}

/// Once a prefix of the ids has no elements within the bound, no longer run of them has.
proof fn lemma_slate_of_ids_none(doc: DocumentV, ids: Seq<Seq<char>>, k: int, fuel: nat)
    requires
        0 <= k <= ids.len(),
        slate_of_ids(doc, ids.subrange(0, k), fuel) is None,
    ensures
        slate_of_ids(doc, ids, fuel) is None,
    decreases ids.len(),
{
    if k == ids.len() {
        assert(ids.subrange(0, k) =~= ids);
    } else {
        let shorter = ids.subrange(0, ids.len() - 1);
        assert(shorter.subrange(0, k) =~= ids.subrange(0, k));
        lemma_slate_of_ids_none(doc, shorter, k, fuel);
    }
}

proof fn lemma_doc_keys(doc: &DocumentData)
    ensures
        entry_keys(doc@.blocks) == string_keys(doc.blocks@),
        entry_keys(doc@.children_map) == string_keys(doc.meta.children_map@),
        doc.meta.text_map matches Some(tm) ==> doc@.text_map == Some(tm@.map_values(|e: (String, String)| (e.0@, e.1@)))
            && entry_keys(doc@.text_map.unwrap()) == string_keys(tm@),
{
    assert(entry_keys(doc@.blocks) =~= string_keys(doc.blocks@));
    assert(entry_keys(doc@.children_map) =~= string_keys(doc.meta.children_map@));
    if let Some(tm) = &doc.meta.text_map {
        assert(entry_keys(doc@.text_map.unwrap()) =~= string_keys(tm@));
    }
}

/// Builds the text child of a block, as `text_children` states.
fn text_child(doc: &DocumentData, block: &Block) -> (r: Option<Json>)
    ensures
        match r {
            Some(j) => text_children(doc@, block@) == seq![j@],
            None => text_children(doc@, block@) == Seq::<JsonV>::empty(),
        },
{
    let is_text = match &block.external_type {
        Some(t) => *t == String::from_str("text"),
        None => false,
    };
    if !is_text {
        return None;
    }
    let external_id = match &block.external_id {
        Some(id) => id,
        None => {
            return None;
        },
    };
    let delta: Option<&String> = match &doc.meta.text_map {
        Some(tm) => {
            proof {
                lemma_doc_keys(doc);
            }
            match find_key(tm, external_id) {
                Some(i) => Some(&tm[i].1),
                None => None,
            }
        },
        None => None,
    };
    let ghost dv = doc@;
    assert(opt_string_view(delta) == match dv.text_map {
        Some(tm) => assoc_get(tm, external_id@),
        None => None,
    });
    let leaves = delta_to_slate_leaves(delta);
    let mut entries: Vec<(String, Json)> = Vec::new();
    let e1 = (String::from_str("type"), Json::Str(String::from_str("text")));
    let e2 = (String::from_str("textId"), Json::Str(external_id.clone()));
    let e3 = (String::from_str("children"), Json::Array(leaves));
    proof {
        lemma_entry_views_push(entries@, e1);
        lemma_entry_views_push(entries@.push(e1), e2);
        lemma_entry_views_push(entries@.push(e1).push(e2), e3);
    }
    entries.push(e1);
    entries.push(e2);
    entries.push(e3);
    let r = Json::Object(entries);
    assert(entry_views(entries@) =~= seq![
        ("type"@, JsonV::Str("text"@)),
        ("textId"@, JsonV::Str(external_id@)),
        ("children"@, JsonV::Array(json_views(leaves@))),
    ]);
    Some(r)
}

/// Builds the Slate element of one block, as `slate_element` states.
fn block_to_slate_element(doc: &DocumentData, block: &Block, fuel: usize) -> (r: Option<Json>)
    ensures
        opt_json_view(r) == slate_element(doc@, block@, fuel as nat),
    decreases fuel, 0nat,
{
    if fuel == 0 {
        return None;
    }
    let mut children: Vec<Json> = Vec::new();
    match text_child(doc, block) {
        Some(t) => {
            proof {
                lemma_json_views_push(children@, t);
            }
            children.push(t);
        },
        None => {},
    }
    assert(json_views(children@) =~= text_children(doc@, block@));
    let nested = match build_slate_children(doc, &block.children, fuel - 1) {
        Some(n) => n,
        None => {
            return None;
        },
    };
    let ghost before = children@;
    let mut i: usize = 0;
    proof {
        lemma_json_views(nested@);
    }
    while i < nested.len()
        invariant
            i <= nested.len(),
            json_views(children@) == json_views(before) + json_views(nested@).subrange(0, i as int),
            json_views(nested@).len() == nested.len(),
            forall|j: int| 0 <= j < nested.len() ==> #[trigger] json_views(nested@)[j] == json_view(nested@[j]),
        decreases nested.len() - i,
    {
        let c = nested[i].deep_clone();
        proof {
            lemma_json_views_push(children@, c);
            assert(json_views(nested@).subrange(0, i + 1) =~= json_views(nested@).subrange(0, i as int).push(json_view(nested@[i as int])));
        }
        children.push(c);
        i = i + 1;
    }
    assert(json_views(nested@).subrange(0, nested.len() as int) =~= json_views(nested@));
    let mut entries: Vec<(String, Json)> = Vec::new();
    let e1 = (String::from_str("type"), Json::Str(block.ty.clone()));
    let e2 = (String::from_str("blockId"), Json::Str(block.id.clone()));
    let e3 = (String::from_str("relationId"), Json::Str(block.children.clone()));
    let e4 = (String::from_str("data"), Json::Object(clone_entries(&block.data)));
    let e5 = (String::from_str("children"), Json::Array(children));
    proof {
        lemma_entry_views_push(entries@, e1);
        lemma_entry_views_push(entries@.push(e1), e2);
        lemma_entry_views_push(entries@.push(e1).push(e2), e3);
        lemma_entry_views_push(entries@.push(e1).push(e2).push(e3), e4);
        lemma_entry_views_push(entries@.push(e1).push(e2).push(e3).push(e4), e5);
    }
    entries.push(e1);
    entries.push(e2);
    entries.push(e3);
    entries.push(e4);
    entries.push(e5);
    let r = Json::Object(entries);
    assert(entry_views(entries@) =~= seq![
        ("type"@, JsonV::Str(block@.ty)),
        ("blockId"@, JsonV::Str(block@.id)),
        ("relationId"@, JsonV::Str(block@.children)),
        ("data"@, JsonV::Object(block@.data)),
        ("children"@, JsonV::Array(json_views(children@))),
    ]);
    Some(r)
}

/// Builds the Slate nodes of the blocks listed under `key`, as
/// `slate_children` states.
fn build_slate_children(doc: &DocumentData, key: &String, fuel: usize) -> (r: Option<Vec<Json>>)
    ensures
        opt_json_views(r) == slate_children(doc@, key@, fuel as nat),
    decreases fuel, 1nat,
{
    proof {
        lemma_doc_keys(doc);
    }
    let ids: &Vec<String> = match find_key(&doc.meta.children_map, key) {
        Some(i) => &doc.meta.children_map[i].1,
        None => {
            let r: Vec<Json> = Vec::new();
            assert(json_views(r@) =~= Seq::<JsonV>::empty());
            return Some(r);
        },
    };
    let ghost idv = ids@.map_values(|x: String| x@);
    assert(assoc_get(doc@.children_map, key@) == Some(idv));
    let mut out: Vec<Json> = Vec::new();
    let mut i: usize = 0;
    assert(json_views(out@) =~= Seq::<JsonV>::empty());
    while i < ids.len()
        invariant
            i <= ids.len(),
            idv == ids@.map_values(|x: String| x@),
            assoc_get(doc@.children_map, key@) == Some(idv),
            entry_keys(doc@.blocks) == string_keys(doc.blocks@),
            slate_of_ids(doc@, idv.subrange(0, i as int), fuel as nat) == Some(json_views(out@)),
        decreases ids.len() - i,
    {
        assert(idv.subrange(0, i + 1).subrange(0, i as int) =~= idv.subrange(0, i as int));
        match find_key(&doc.blocks, &ids[i]) {
            Some(bi) => {
                let ghost dv = doc@;
                assert(assoc_get(dv.blocks, idv[i as int]) == Some(doc.blocks@[bi as int].1@));
                match block_to_slate_element(doc, &doc.blocks[bi].1, fuel) {
                    Some(e) => {
                        proof {
                            lemma_json_views_push(out@, e);
                        }
                        out.push(e);
                    },
                    None => {
                        proof {
                            let sub = idv.subrange(0, i + 1);
                            assert(sub.subrange(0, sub.len() - 1) =~= idv.subrange(0, i as int));
                            assert(sub[sub.len() - 1] == idv[i as int]);
                            assert(slate_of_ids(doc@, sub, fuel as nat) is None);
                            lemma_slate_of_ids_none(doc@, idv, i + 1, fuel as nat);
                        }
                        return None;
                    },
                }
            },
            None => {},
        }
        i = i + 1;
    }
    assert(idv.subrange(0, ids.len() as int) =~= idv);
    Some(out)
}

/// The Slate nodes of a document's page when every chain of nested blocks
/// below the page is shorter than `depth_bound`; nothing otherwise.
pub fn try_document_data_to_slate_children(document: &DocumentData) -> (r: Option<Vec<Json>>)
    ensures
        opt_json_views(r) == document_slate(document@, depth_bound(document@)),
{
    proof {
        lemma_doc_keys(document);
    }
    let fuel: usize = document.blocks.len();
    match find_key(&document.blocks, &document.page_id) {
        Some(i) => build_slate_children(document, &document.blocks[i].1.children, fuel),
        None => {
            let r: Vec<Json> = Vec::new();
            assert(json_views(r@) =~= Seq::<JsonV>::empty());
            Some(r)
        },
    }
}

/// Converts a document's block tree into the Slate nodes the web editor
/// renders: the elements of the page block's children, each with its text
/// leaves first and its nested blocks after. Requires that every chain of
/// nested blocks below the page ends, within the document's own size.
pub fn document_data_to_slate_children(document: &DocumentData) -> (r: Vec<Json>)
    requires
        nesting_ends(document@),
    ensures
        Some(json_views(r@)) == document_slate(document@, depth_bound(document@)),
{
    proof {
        lemma_nesting_ends(document@);
    }
    match try_document_data_to_slate_children(document) {
        Some(r) => r,
        None => Vec::new(),
    }
}

/// The block at position `j` is listed under `key` in the children map.
pub open spec fn child_at(doc: DocumentV, key: Seq<char>, j: int) -> bool {
    &&& assoc_get(doc.children_map, key) is Some
    &&& exists|p: int|
        0 <= p < assoc_get(doc.children_map, key).unwrap().len()
            && #[trigger] first_key_index(
            entry_keys(doc.blocks),
            assoc_get(doc.children_map, key).unwrap()[p],
        ) == Some(j)
}

/// The block at position `j` of a document.
pub open spec fn block_at(doc: DocumentV, j: int) -> BlockV {
    doc.blocks[j].1
}

/// Where the ids end without nodes within the bound, one listed block has no element within it.
proof fn lemma_ids_none_child(doc: DocumentV, ids: Seq<Seq<char>>, f: nat) -> (r: (int, int))
    requires
        slate_of_ids(doc, ids, f) is None,
    ensures
        0 <= r.0 < ids.len(),
        first_key_index(entry_keys(doc.blocks), ids[r.0]) == Some(r.1),
        0 <= r.1 < doc.blocks.len(),
        slate_element(doc, block_at(doc, r.1), f) is None,
    decreases ids.len(),
{
    let prefix = ids.subrange(0, ids.len() - 1);
    if slate_of_ids(doc, prefix, f) is None {
        let (p, j) = lemma_ids_none_child(doc, prefix, f);
        assert(prefix[p] == ids[p]);
        (p, j)
    } else {
        let last = ids[ids.len() - 1];
        let keys = entry_keys(doc.blocks);
        let j = first_key_index(keys, last).unwrap();
        assert(is_first_key(keys, last, j));
        ((ids.len() - 1) as int, j)
    }
}

/// Where the children under `key` end without nodes within the bound, one
/// listed block has no element within it.
proof fn lemma_children_none_child(doc: DocumentV, key: Seq<char>, f: nat) -> (j: int)
    requires
        slate_children(doc, key, f) is None,
    ensures
        child_at(doc, key, j),
        0 <= j < doc.blocks.len(),
        slate_element(doc, block_at(doc, j), f) is None,
{
    let ids = assoc_get(doc.children_map, key).unwrap();
    let (p, j) = lemma_ids_none_child(doc, ids, f);
    assert(first_key_index(entry_keys(doc.blocks), ids[p]) == Some(j));
    j
}

/// A listed block without an element within the bound leaves its siblings
/// without nodes within it.
proof fn lemma_child_none(doc: DocumentV, key: Seq<char>, j: int, f: nat)
    requires
        child_at(doc, key, j),
        0 <= j < doc.blocks.len(),
        slate_element(doc, block_at(doc, j), f) is None,
    ensures
        slate_children(doc, key, f) is None,
{
    let ids = assoc_get(doc.children_map, key).unwrap();
    let keys = entry_keys(doc.blocks);
    let p = choose|p: int|
        0 <= p < ids.len() && #[trigger] first_key_index(keys, ids[p]) == Some(j);
    let sub = ids.subrange(0, p + 1);
    assert(sub.subrange(0, sub.len() - 1) =~= ids.subrange(0, p));
    assert(sub[sub.len() - 1] == ids[p]);
    assert(is_first_key(keys, ids[p], j));
    assert(assoc_get(doc.blocks, ids[p]) == Some(block_at(doc, j)));
    assert(slate_of_ids(doc, sub, f) is None);
    lemma_slate_of_ids_none(doc, ids, p + 1, f);
}

/// A chain of nested blocks, `f + 1` long, that has no element within the
/// bound `f` at its head.
proof fn lemma_none_chain(doc: DocumentV, key: Seq<char>, f: nat) -> (chain: Seq<int>)
    requires
        slate_children(doc, key, f) is None,
    ensures
        chain.len() == f + 1,
        child_at(doc, key, chain[0]),
        forall|i: int| 0 <= i < chain.len() ==> 0 <= #[trigger] chain[i] < doc.blocks.len(),
        forall|i: int| 0 <= i < chain.len() - 1 ==> child_at(doc, block_at(doc, #[trigger] chain[i]).children, chain[i + 1]),
    decreases f,
{
    let j = lemma_children_none_child(doc, key, f);
    if f == 0 {
        seq![j]
    } else {
        let rest = lemma_none_chain(doc, block_at(doc, j).children, (f - 1) as nat);
        let chain = seq![j] + rest;
        assert forall|i: int| 0 <= i < chain.len() - 1 implies child_at(doc, block_at(doc, #[trigger] chain[i]).children, chain[i + 1]) by {
            if i > 0 {
                assert(chain[i] == rest[i - 1]);
                assert(chain[i + 1] == rest[i]);
            }
        }
        assert forall|i: int| 0 <= i < chain.len() implies 0 <= #[trigger] chain[i] < doc.blocks.len() by {
            if i > 0 {
                assert(chain[i] == rest[i - 1]);
            }
        }
        chain
    }
}

/// More positions than values: some value is held twice.
proof fn lemma_pigeonhole(s: Seq<int>, n: nat) -> (r: (int, int))
    requires
        s.len() > n,
        forall|i: int| 0 <= i < s.len() ==> 0 <= #[trigger] s[i] < n,
    ensures
        0 <= r.0 < r.1 < s.len(),
        s[r.0] == s[r.1],
    decreases n,
{
    if exists|a: int, b: int| 0 <= a < b < s.len() && s[a] == s[b] {
        choose|a: int, b: int| 0 <= a < b < s.len() && s[a] == s[b]
    } else {
        if n == 0 {
            assert(0 <= s[0] < n);
            assert(false);
            (0, 0)
        } else if exists|p: int| 0 <= p < s.len() && s[p] == n - 1 {
            let p = choose|p: int| 0 <= p < s.len() && s[p] == n - 1;
            let t = s.remove(p);
            assert forall|i: int| 0 <= i < t.len() implies 0 <= #[trigger] t[i] < n - 1 by {
                if i < p {
                    assert(t[i] == s[i]);
                } else {
                    assert(t[i] == s[i + 1]);
                }
            }
            let (a, b) = lemma_pigeonhole(t, (n - 1) as nat);
            let a2 = if a < p { a } else { a + 1 };
            let b2 = if b < p { b } else { b + 1 };
            assert(s[a2] == s[b2]);
            (a2, b2)
        } else {
            lemma_pigeonhole(s, (n - 1) as nat)
        }
    }
}

/// In a chain that comes back to a block it passed, no block of the chain
/// before the return has an element within any bound.
proof fn lemma_cycle_none(doc: DocumentV, chain: Seq<int>, a: int, b: int, k: int, g: nat)
    requires
        0 <= a < b < chain.len(),
        chain[a] == chain[b],
        0 <= k < b,
        forall|i: int| 0 <= i < chain.len() ==> 0 <= #[trigger] chain[i] < doc.blocks.len(),
        forall|i: int| 0 <= i < chain.len() - 1 ==> child_at(doc, block_at(doc, #[trigger] chain[i]).children, chain[i + 1]),
    ensures
        slate_element(doc, block_at(doc, chain[k]), g) is None,
    decreases g,
{
    if g > 0 {
        let next = if k + 1 < b { k + 1 } else { a };
        assert(child_at(doc, block_at(doc, chain[k]).children, chain[k + 1]));
        lemma_cycle_none(doc, chain, a, b, next, (g - 1) as nat);
        lemma_child_none(doc, block_at(doc, chain[k]).children, chain[next], (g - 1) as nat);
    }
}

/// The depth bound loses nothing: where the nesting below a page ends within
/// some bound, it ends within the document's own size, with the same nodes.
/// So `nesting_ends`, which `document_data_to_slate_children` requires, holds
/// of every document whose nesting ends at all.
pub proof fn lemma_depth_bound_suffices(doc: DocumentV, f: nat)
    requires
        document_slate(doc, f) is Some,
    ensures
        document_slate(doc, depth_bound(doc)) == document_slate(doc, f),
        nesting_ends(doc),
{
    lemma_nesting_ends(doc);
    let n = depth_bound(doc);
    if document_slate(doc, n) is None {
        let page = assoc_get(doc.blocks, doc.page_id).unwrap();
        let chain = lemma_none_chain(doc, page.children, n);
        let (a, b) = lemma_pigeonhole(chain, n);
        lemma_cycle_none(doc, chain, a, b, 0, f);
        lemma_child_none(doc, page.children, chain[0], f);
        assert(false);
    }
    if n <= f {
        lemma_document_slate_bound(doc, n, f);
    } else {
        lemma_document_slate_bound(doc, f, n);
    }
}

/// `chain` is a chain of nested blocks below the blocks listed under `key`,
/// given by block positions: its first block is listed under `key`, and each
/// next block is listed under the children of the block before it.
pub open spec fn is_chain(doc: DocumentV, key: Seq<char>, chain: Seq<int>) -> bool {
    &&& chain.len() >= 1
    &&& child_at(doc, key, chain[0])
    &&& forall|i: int| 0 <= i < chain.len() ==> 0 <= #[trigger] chain[i] < doc.blocks.len()
    &&& forall|i: int| 0 <= i < chain.len() - 1 ==> child_at(doc, block_at(doc, #[trigger] chain[i]).children, chain[i + 1])
}

/// No chain of nested blocks below the page passes the same block twice.
pub open spec fn page_acyclic(doc: DocumentV) -> bool {
    match assoc_get(doc.blocks, doc.page_id) {
        Some(page) => forall|chain: Seq<int>| #[trigger] is_chain(doc, page.children, chain) ==> chain.no_duplicates(),
        None => true,
    }
}

/// A document whose blocks nest without a cycle below the page meets the
/// precondition of `document_data_to_slate_children`: its nesting ends within
/// its own size, and every chain of nested blocks is shorter than that size.
pub proof fn lemma_acyclic_nesting_ends(doc: DocumentV)
    requires
        page_acyclic(doc),
    ensures
        nesting_ends(doc),
        document_slate(doc, depth_bound(doc)) is Some,
{
    lemma_nesting_ends(doc);
    let n = depth_bound(doc);
    if document_slate(doc, n) is None {
        let page = assoc_get(doc.blocks, doc.page_id).unwrap();
        let chain = lemma_none_chain(doc, page.children, n);
        assert(is_chain(doc, page.children, chain));
        let (a, b) = lemma_pigeonhole(chain, n);
        assert(!chain.no_duplicates());
    }
}

/// The Slate nodes of a document are the nodes of its page block's children;
/// the page block itself gives no node, and a document without a page block
/// has none.
pub proof fn lemma_document_slate_is_page_children(doc: DocumentV, f: nat)
    ensures
        document_slate(doc, f) == match assoc_get(doc.blocks, doc.page_id) {
            Some(page) => slate_children(doc, page.children, f),
            None => Some(Seq::<JsonV>::empty()),
        },
{
}

/// The Slate element of a block, where its nested blocks have nodes: the
/// block's type, id, children key and data, and as children its text node,
/// if it is a text block with an external id, followed by its nested blocks'
/// nodes in order.
pub proof fn lemma_slate_element_shape(doc: DocumentV, b: BlockV, fuel: nat)
    requires
        fuel > 0,
        slate_children(doc, b.children, (fuel - 1) as nat) is Some,
    ensures
        slate_element(doc, b, fuel) == Some(element_json(
            b,
            text_children(doc, b) + slate_children(doc, b.children, (fuel - 1) as nat).unwrap(),
        )),
        text_children(doc, b).len() == (if b.external_type == Some("text"@) && b.external_id is Some { 1int } else { 0int }),
{
}

/// The blocks that a list of ids names, in the list's order; an id without a
/// block is skipped.
pub open spec fn present_blocks(doc: DocumentV, ids: Seq<Seq<char>>) -> Seq<BlockV>
    decreases ids.len(),
{
    if ids.len() == 0 {
        Seq::empty()
    } else {
        let prev = present_blocks(doc, ids.subrange(0, ids.len() - 1));
        match assoc_get(doc.blocks, ids[ids.len() - 1]) {
            Some(b) => prev.push(b),
            None => prev,
        }
    }
}

/// The Slate nodes of a list of ids are the elements of the blocks it names,
/// one for each, in the list's order; ids without a block give nothing.
pub proof fn lemma_slate_of_ids_shape(doc: DocumentV, ids: Seq<Seq<char>>, fuel: nat)
    requires
        slate_of_ids(doc, ids, fuel) is Some,
    ensures
        slate_of_ids(doc, ids, fuel).unwrap().len() == present_blocks(doc, ids).len(),
        forall|i: int| 0 <= i < present_blocks(doc, ids).len() ==>
            slate_element(doc, #[trigger] present_blocks(doc, ids)[i], fuel) == Some(slate_of_ids(doc, ids, fuel).unwrap()[i]),
    decreases ids.len(),
{
    if ids.len() > 0 {
        lemma_slate_of_ids_shape(doc, ids.subrange(0, ids.len() - 1), fuel);
    }
}

/// The Slate nodes of the blocks listed under a children key: none where the
/// key is not in the children map, else those of the listed ids.
pub proof fn lemma_slate_children_shape(doc: DocumentV, key: Seq<char>, fuel: nat)
    ensures
        slate_children(doc, key, fuel) == match assoc_get(doc.children_map, key) {
            Some(ids) => slate_of_ids(doc, ids, fuel),
            None => Some(Seq::<JsonV>::empty()),
        },
{
}

/// The member names of Slate nodes differ from one another.
proof fn lemma_node_keys_distinct()
    ensures
        "textId"@ != "type"@,
        "textId"@ != "blockId"@,
        "textId"@ != "relationId"@,
        "textId"@ != "data"@,
        "textId"@ != "children"@,
        "children"@ != "type"@,
        "children"@ != "blockId"@,
        "children"@ != "relationId"@,
        "children"@ != "data"@,
        "blockId"@ != "type"@,
{
    reveal_strlit("textId");
    reveal_strlit("type");
    reveal_strlit("blockId");
    reveal_strlit("relationId");
    reveal_strlit("data");
    reveal_strlit("children");
    assert("textId"@.len() == 6);
    assert("type"@.len() == 4);
    assert("blockId"@.len() == 7);
    assert("relationId"@.len() == 10);
    assert("data"@.len() == 4);
    assert("children"@.len() == 8);
}

/// The children of a Slate node; none where it has no array of them.
pub open spec fn node_children(node: JsonV) -> Seq<JsonV> {
    match node.get("children"@) {
        Some(JsonV::Array(c)) => c,
        _ => Seq::empty(),
    }
}

/// A block's element has its children under `children` and no `textId`.
proof fn lemma_element_members(b: BlockV, children: Seq<JsonV>)
    ensures
        element_json(b, children).get("children"@) == Some(JsonV::Array(children)),
        element_json(b, children).get("textId"@) is None,
        element_json(b, children).get("blockId"@) == Some(JsonV::Str(b.id)),
{
    lemma_node_keys_distinct();
    let es = seq![
        ("type"@, JsonV::Str(b.ty)),
        ("blockId"@, JsonV::Str(b.id)),
        ("relationId"@, JsonV::Str(b.children)),
        ("data"@, JsonV::Object(b.data)),
        ("children"@, JsonV::Array(children)),
    ];
    lemma_assoc_get_at(es, "children"@, 4);
    lemma_assoc_get_at(es, "blockId"@, 1);
    lemma_assoc_get_none(es, "textId"@);
}

/// The element of a block has no `textId`.
proof fn lemma_element_no_text_id(doc: DocumentV, b: BlockV, fuel: nat)
    requires
        slate_element(doc, b, fuel) is Some,
    ensures
        slate_element(doc, b, fuel).unwrap().get("textId"@) is None,
{
    let nested = slate_children(doc, b.children, (fuel - 1) as nat).unwrap();
    lemma_element_members(b, text_children(doc, b) + nested);
}

/// The nodes of the blocks listed under a key have no `textId`.
proof fn lemma_children_no_text_id(doc: DocumentV, key: Seq<char>, fuel: nat)
    requires
        slate_children(doc, key, fuel) is Some,
    ensures
        forall|k: int| 0 <= k < slate_children(doc, key, fuel).unwrap().len()
            ==> (#[trigger] slate_children(doc, key, fuel).unwrap()[k]).get("textId"@) is None,
{
    match assoc_get(doc.children_map, key) {
        Some(ids) => {
            lemma_slate_of_ids_shape(doc, ids, fuel);
            let nodes = slate_of_ids(doc, ids, fuel).unwrap();
            let present = present_blocks(doc, ids);
            assert forall|k: int| 0 <= k < nodes.len() implies (#[trigger] nodes[k]).get("textId"@) is None by {
                assert(slate_element(doc, present[k], fuel) == Some(nodes[k]));
                lemma_element_no_text_id(doc, present[k], fuel);
            }
        },
        None => {},
    }
}

/// The children of a block's element hold a node with a `textId` exactly when
/// the block is a text block with an external id; that node is the first
/// child, the only one with a `textId`, and its `textId` is the external id.
/// The children after it are the nodes of the nested blocks, in order.
pub proof fn lemma_text_node_first(doc: DocumentV, b: BlockV, fuel: nat)
    requires
        slate_element(doc, b, fuel) is Some,
    ensures
        ({
            let c = node_children(slate_element(doc, b, fuel).unwrap());
            let is_text = b.external_type == Some("text"@) && b.external_id is Some;
            &&& (exists|k: int| 0 <= k < c.len() && (#[trigger] c[k]).get("textId"@) is Some) <==> is_text
            &&& is_text ==> c[0].get("textId"@) == Some(JsonV::Str(b.external_id.unwrap()))
            &&& forall|k: int| (if is_text { 1int } else { 0int }) <= k < c.len()
                ==> (#[trigger] c[k]).get("textId"@) is None
            &&& c.subrange(if is_text { 1int } else { 0int }, c.len() as int)
                == slate_children(doc, b.children, (fuel - 1) as nat).unwrap()
        }),
{
    lemma_node_keys_distinct();
    let nested = slate_children(doc, b.children, (fuel - 1) as nat).unwrap();
    let t = text_children(doc, b);
    lemma_element_members(b, t + nested);
    let c = t + nested;
    assert(node_children(slate_element(doc, b, fuel).unwrap()) == c);
    lemma_children_no_text_id(doc, b.children, (fuel - 1) as nat);
    let is_text = b.external_type == Some("text"@) && b.external_id is Some;
    let start: int = if is_text { 1 } else { 0 };
    assert(t.len() == start);
    assert forall|k: int| start <= k < c.len() implies (#[trigger] c[k]).get("textId"@) is None by {
        assert(c[k] == nested[k - start]);
    }
    assert(c.subrange(start, c.len() as int) =~= nested);
    if is_text {
        let id = b.external_id.unwrap();
        let delta = match doc.text_map {
            Some(tm) => assoc_get(tm, id),
            None => None,
        };
        let es = seq![
            ("type"@, JsonV::Str("text"@)),
            ("textId"@, JsonV::Str(id)),
            ("children"@, JsonV::Array(slate_leaves(delta_ops(delta)))),
        ];
        lemma_assoc_get_at(es, "textId"@, 1);
        assert(c[0] == JsonV::Object(es));
    }
}

/// The children of a Slate node are smaller than the node.
pub proof fn lemma_node_children_smaller(node: JsonV)
    ensures
        node_children(node).len() > 0 ==> decreases_to!(node => node_children(node)),
{
    if let JsonV::Object(es) = node {
        let keys = entry_keys(es);
        if let Some(i) = first_key_index(keys, "children"@) {
            assert(is_first_key(keys, "children"@, i));
            if let JsonV::Array(c) = es[i].1 {
                assert(decreases_to!(node => es));
                assert(decreases_to!(es => es[i]));
                assert(decreases_to!(es[i] => es[i].1));
                assert(decreases_to!(es[i].1 => c));
            }
        }
    }
}

/// The `blockId`s of a Slate node and, below it, of its children, in order; a
/// node without a `blockId`, such as a text node, gives none.
pub open spec fn node_block_ids(node: JsonV) -> Seq<Seq<char>>
    decreases node, 0nat,
{
    match node.get("blockId"@) {
        Some(JsonV::Str(id)) => {
            if node_children(node).len() == 0 {
                seq![id]
            } else {
                proof {
                    lemma_node_children_smaller(node);
                }
                seq![id] + nodes_block_ids(node_children(node))
            }
        },
        _ => Seq::empty(),
    }
}

/// The `blockId`s of Slate nodes and of their children, in order.
pub open spec fn nodes_block_ids(nodes: Seq<JsonV>) -> Seq<Seq<char>>
    decreases nodes, 1nat,
{
    if nodes.len() == 0 {
        Seq::empty()
    } else {
        nodes_block_ids(nodes.subrange(0, nodes.len() - 1)) + node_block_ids(nodes[nodes.len() - 1])
    }
}

/// The ids of the blocks listed under `key` and of the blocks nested below
/// them, each block before its nested blocks, in children-map order; ids
/// without a block are skipped. Only the first `fuel` levels are entered.
pub open spec fn children_preorder(doc: DocumentV, key: Seq<char>, fuel: nat) -> Seq<Seq<char>>
    decreases fuel, 2nat, 0nat,
{
    match assoc_get(doc.children_map, key) {
        Some(ids) => ids_preorder(doc, ids, fuel),
        None => Seq::empty(),
    }
}

/// The ids of the blocks with the given ids and of the blocks nested below them.
pub open spec fn ids_preorder(doc: DocumentV, ids: Seq<Seq<char>>, fuel: nat) -> Seq<Seq<char>>
    decreases fuel, 1nat, ids.len(),
{
    if ids.len() == 0 {
        Seq::empty()
    } else {
        ids_preorder(doc, ids.subrange(0, ids.len() - 1), fuel) + match assoc_get(doc.blocks, ids[ids.len() - 1]) {
            Some(b) => block_preorder(doc, b, fuel),
            None => Seq::empty(),
        }
    }
}

/// The id of a block, then the ids of the blocks nested below it.
pub open spec fn block_preorder(doc: DocumentV, b: BlockV, fuel: nat) -> Seq<Seq<char>>
    decreases fuel, 0nat, 0nat,
{
    if fuel == 0 {
        Seq::empty()
    } else {
        seq![b.id] + children_preorder(doc, b.children, (fuel - 1) as nat)
    }
}

/// The ids of the blocks below a document's page, each before its nested
/// blocks, in children-map order.
pub open spec fn document_preorder(doc: DocumentV) -> Seq<Seq<char>> {
    match assoc_get(doc.blocks, doc.page_id) {
        Some(page) => children_preorder(doc, page.children, depth_bound(doc)),
        None => Seq::empty(),
    }
}

proof fn lemma_nodes_block_ids_append(a: Seq<JsonV>, b: Seq<JsonV>)
    ensures
        nodes_block_ids(a + b) == nodes_block_ids(a) + nodes_block_ids(b),
    decreases b.len(),
{
    if b.len() == 0 {
        assert(a + b =~= a);
        assert(nodes_block_ids(a) + nodes_block_ids(b) =~= nodes_block_ids(a));
    } else {
        let b2 = b.subrange(0, b.len() - 1);
        lemma_nodes_block_ids_append(a, b2);
        assert((a + b).subrange(0, (a + b).len() - 1) =~= a + b2);
        assert((a + b)[(a + b).len() - 1] == b[b.len() - 1]);
        assert(nodes_block_ids(a + b) =~= nodes_block_ids(a) + nodes_block_ids(b));
    }
}

proof fn lemma_element_block_ids(b: BlockV, children: Seq<JsonV>)
    ensures
        node_block_ids(element_json(b, children)) == seq![b.id] + nodes_block_ids(children),
{
    lemma_element_members(b, children);
    assert(node_children(element_json(b, children)) == children);
    if children.len() == 0 {
        assert(seq![b.id] + nodes_block_ids(children) =~= seq![b.id]);
    }
}

proof fn lemma_text_children_no_ids(doc: DocumentV, b: BlockV)
    ensures
        nodes_block_ids(text_children(doc, b)) == Seq::<Seq<char>>::empty(),
{
    lemma_node_keys_distinct();
    let t = text_children(doc, b);
    if t.len() > 0 {
        let id = b.external_id.unwrap();
        let delta = match doc.text_map {
            Some(tm) => assoc_get(tm, id),
            None => None,
        };
        let es = seq![
            ("type"@, JsonV::Str("text"@)),
            ("textId"@, JsonV::Str(id)),
            ("children"@, JsonV::Array(slate_leaves(delta_ops(delta)))),
        ];
        lemma_assoc_get_none(es, "blockId"@);
        assert(t[0] == JsonV::Object(es));
        assert(node_block_ids(t[0]) == Seq::<Seq<char>>::empty());
        assert(t.subrange(0, 0) =~= Seq::<JsonV>::empty());
        assert(nodes_block_ids(t.subrange(0, 0)) == Seq::<Seq<char>>::empty());
        assert(nodes_block_ids(t) =~= Seq::<Seq<char>>::empty());
    }
}

proof fn lemma_children_block_ids(doc: DocumentV, key: Seq<char>, f: nat)
    requires
        slate_children(doc, key, f) is Some,
    ensures
        nodes_block_ids(slate_children(doc, key, f).unwrap()) == children_preorder(doc, key, f),
    decreases f, 2nat, 0nat,
{
    match assoc_get(doc.children_map, key) {
        Some(ids) => lemma_ids_block_ids(doc, ids, f),
        None => {},
    }
}

proof fn lemma_ids_block_ids(doc: DocumentV, ids: Seq<Seq<char>>, f: nat)
    requires
        slate_of_ids(doc, ids, f) is Some,
    ensures
        nodes_block_ids(slate_of_ids(doc, ids, f).unwrap()) == ids_preorder(doc, ids, f),
    decreases f, 1nat, ids.len(),
{
    if ids.len() > 0 {
        let prefix = ids.subrange(0, ids.len() - 1);
        lemma_ids_block_ids(doc, prefix, f);
        let prev = slate_of_ids(doc, prefix, f).unwrap();
        match assoc_get(doc.blocks, ids[ids.len() - 1]) {
            Some(b) => {
                lemma_element_block_ids_rec(doc, b, f);
                let e = slate_element(doc, b, f).unwrap();
                assert(prev.push(e).subrange(0, prev.len() as int) =~= prev);
                assert(prev.push(e)[prev.len() as int] == e);
            },
            None => {
                assert(ids_preorder(doc, ids, f) =~= ids_preorder(doc, prefix, f));
            },
        }
    }
}

proof fn lemma_element_block_ids_rec(doc: DocumentV, b: BlockV, f: nat)
    requires
        slate_element(doc, b, f) is Some,
    ensures
        node_block_ids(slate_element(doc, b, f).unwrap()) == block_preorder(doc, b, f),
    decreases f, 0nat, 0nat,
{
    let g = (f - 1) as nat;
    lemma_children_block_ids(doc, b.children, g);
    let nested = slate_children(doc, b.children, g).unwrap();
    let t = text_children(doc, b);
    lemma_element_block_ids(b, t + nested);
    lemma_nodes_block_ids_append(t, nested);
    lemma_text_children_no_ids(doc, b);
    assert(nodes_block_ids(t) + nodes_block_ids(nested) =~= nodes_block_ids(nested));
}

/// The Slate tree of a document holds one element node for each block below
/// the page, reached through the children map: the `blockId`s of its nodes,
/// read node by node with each node before its children, are the ids of those
/// blocks, each block listed under its parent in children-map order. Text
/// nodes have no `blockId`. So where the blocks below the page form a tree,
/// each appears exactly once.
pub proof fn lemma_slate_block_ids(doc: DocumentV)
    requires
        nesting_ends(doc),
    ensures
        nodes_block_ids(document_slate(doc, depth_bound(doc)).unwrap()) == document_preorder(doc),
{
    lemma_nesting_ends(doc);
    match assoc_get(doc.blocks, doc.page_id) {
        Some(page) => lemma_children_block_ids(doc, page.children, depth_bound(doc)),
        None => {
            assert(nodes_block_ids(Seq::<JsonV>::empty()) == Seq::<Seq<char>>::empty());
        },
    }
}

} // verus!
