//! The leaves of a text: its delta, parsed and turned into Slate leaves.

use vstd::prelude::*;
use crate::json::{
    Json, JsonV, lemma_assoc_get_at, lemma_with_entries_get, lemma_with_entries_get_absent, lemma_assoc_get_none, entry_keys, first_key_index, is_first_key, entry_views, json_view, json_views, lemma_entry_views, lemma_entry_views_push,
    lemma_json_views, lemma_json_views_push, object_insert, with_entries,
};
use crate::parse::{parse_json_array, parsed_json_array};

verus! {

/// The leaf that a delta operation gives: its `insert` text under `text`,
/// then each of its attributes set in turn; nothing when `insert` is not a string.
pub open spec fn op_leaf(op: JsonV) -> Option<JsonV> {
    match op.get("insert"@) {
        Some(JsonV::Str(text)) => Some(
            JsonV::Object(
                with_entries(seq![("text"@, JsonV::Str(text))], op_attributes(op)),
            ),
        ),
        _ => None,
    }
}

/// The leaves of the operations whose `insert` is a string, in order.
pub open spec fn leaves_of(ops: Seq<JsonV>) -> Seq<JsonV>
    decreases ops.len(),
{
    if ops.len() == 0 {
        Seq::empty()
    } else {
        let prev = leaves_of(ops.subrange(0, ops.len() - 1));
        match op_leaf(ops[ops.len() - 1]) {
            Some(leaf) => prev.push(leaf),
            None => prev,
        }
    }
}

/// The leaf with empty text.
pub open spec fn empty_leaf() -> JsonV {
    JsonV::Object(seq![("text"@, JsonV::Str(Seq::empty()))])
}

/// The Slate leaves of a sequence of delta operations: the leaves of its
/// string inserts, or one empty leaf where there are none.
pub open spec fn slate_leaves(ops: Seq<JsonV>) -> Seq<JsonV> {
    if leaves_of(ops).len() == 0 {
        seq![empty_leaf()]
    } else {
        leaves_of(ops)
    }
}

/// The delta operations held by an optional delta text: the parsed array,
/// or none where there is no text or it is not a JSON array.
pub open spec fn delta_ops(delta: Option<Seq<char>>) -> Seq<JsonV> {
    match delta {
        Some(text) => match parsed_json_array(text) {
            Some(ops) => ops,
            None => Seq::empty(),
        },
        None => Seq::empty(),
    }
}

/// The view of an optional borrowed string.
pub open spec fn opt_string_view(s: Option<&String>) -> Option<Seq<char>> {
    match s {
        Some(s) => Some(s@),
        None => None,
    }
}

/// Builds the leaf of one delta operation.
fn op_to_leaf(op: &Json) -> (r: Option<Json>)
    ensures
        match r {
            Some(leaf) => op_leaf(op@) == Some(leaf@),
            None => op_leaf(op@) is None,
        },
{
    let insert_key = String::from_str("insert");
    let insert = match op.get(&insert_key) {
        Some(v) => match v.as_str() {
            Some(s) => s.clone(),
            None => {
                return None;
            },
        },
        None => {
            return None;
        },
    };
    let mut leaf: Vec<(String, Json)> = Vec::new();
    let ghost text = insert@;
    let first = (String::from_str("text"), Json::Str(insert));
    proof {
        lemma_entry_views_push(leaf@, first);
    }
    leaf.push(first);
    assert(entry_views(leaf@) =~= seq![("text"@, JsonV::Str(text))]);
    let attributes_key = String::from_str("attributes");
    let empty: Vec<(String, Json)> = Vec::new();
    let attrs: &Vec<(String, Json)> = match op.get(&attributes_key) {
        Some(a) => match a.as_object() {
            Some(es) => es,
            None => &empty,
        },
        None => &empty,
    };
    let ghost attr_views = entry_views(attrs@);
    proof {
        lemma_entry_views(attrs@);
        assert(attr_views == op_attributes(op@));
    }
    let mut i: usize = 0;
    while i < attrs.len()
        invariant
            i <= attrs.len(),
            attr_views == entry_views(attrs@),
            attr_views.len() == attrs.len(),
            entry_views(leaf@) == with_entries(
                seq![("text"@, JsonV::Str(text))],
                attr_views.subrange(0, i as int),
            ),
        decreases attrs.len() - i,
    {
        let k = attrs[i].0.clone();
        let v = attrs[i].1.deep_clone();
        proof {
            lemma_entry_views(attrs@);
            assert(attr_views.subrange(0, i + 1).subrange(0, i as int) =~= attr_views.subrange(0, i as int));
        }
        object_insert(&mut leaf, k, v);
        i = i + 1;
    }
    assert(attr_views.subrange(0, attrs.len() as int) =~= attr_views);
    Some(Json::Object(leaf))
}

/// The Slate leaves of parsed delta operations: one leaf for each operation
/// whose `insert` is a string, holding that text under `text` and the
/// operation's attributes beside it; one empty leaf where there is none.
pub fn leaves_from_ops(ops: Vec<Json>) -> (r: Vec<Json>)
    ensures
        json_views(r@) == slate_leaves(json_views(ops@)),
{
    let ghost op_views = json_views(ops@);
    proof {
        lemma_json_views(ops@);
    }
    let mut leaves: Vec<Json> = Vec::new();
    let mut i: usize = 0;
    while i < ops.len()
        invariant
            i <= ops.len(),
            op_views == json_views(ops@),
            op_views.len() == ops.len(),
            forall|j: int| 0 <= j < ops.len() ==> #[trigger] op_views[j] == json_view(ops@[j]),
            json_views(leaves@) == leaves_of(op_views.subrange(0, i as int)),
        decreases ops.len() - i,
    {
        let leaf = op_to_leaf(&ops[i]);
        proof {
            assert(op_views.subrange(0, i + 1).subrange(0, i as int) =~= op_views.subrange(0, i as int));
        }
        match leaf {
            Some(l) => {
                proof {
                    lemma_json_views_push(leaves@, l);
                }
                leaves.push(l);
            },
            None => {},
        }
        i = i + 1;
    }
    assert(op_views.subrange(0, ops.len() as int) =~= op_views);
    if leaves.len() == 0 {
        let mut entries: Vec<(String, Json)> = Vec::new();
        let only = (String::from_str("text"), Json::Str(String::new()));
        proof {
            lemma_entry_views_push(entries@, only);
        }
        entries.push(only);
        let e = Json::Object(entries);
        proof {
            lemma_json_views_push(leaves@, e);
            assert(json_views(leaves@) =~= Seq::<JsonV>::empty());
        }
        leaves.push(e);
        assert(json_views(leaves@) =~= seq![empty_leaf()]);
    }
    leaves
}

/// Converts an optional delta text into Slate leaves. The text is parsed as a
/// JSON array of operations; where it is missing or is no such array there
/// are no operations. Operations whose `insert` is not a string are dropped.
pub fn delta_to_slate_leaves(delta: Option<&String>) -> (r: Vec<Json>)
    ensures
        json_views(r@) == slate_leaves(delta_ops(opt_string_view(delta))),
{
    let ops: Vec<Json> = match delta {
        Some(text) => match parse_json_array(text) {
            Some(ops) => ops,
            None => Vec::new(),
        },
        None => Vec::new(),
    };
    assert(json_views(ops@) == delta_ops(opt_string_view(delta)));
    leaves_from_ops(ops)
}

/// A delta operation whose `insert` is not a string adds no leaf.
pub proof fn lemma_non_string_insert_dropped(ops: Seq<JsonV>, op: JsonV)
    requires
        !(op.get("insert"@) matches Some(JsonV::Str(_))),
    ensures
        leaves_of(ops.push(op)) == leaves_of(ops),
{
    assert(ops.push(op).subrange(0, ops.len() as int) =~= ops);
}

/// The attributes of a delta operation, or none.
pub open spec fn op_attributes(op: JsonV) -> Seq<(Seq<char>, JsonV)> {
    match op.get("attributes"@) {
        Some(JsonV::Object(a)) => a,
        _ => Seq::empty(),
    }
}

/// A delta operation whose `insert` is a string adds exactly one leaf, whose
/// first member is `text`; it holds the inserted text unless an attribute is
/// itself named `text`.
pub proof fn lemma_string_insert_kept(ops: Seq<JsonV>, op: JsonV)
    requires
        op.get("insert"@) matches Some(JsonV::Str(_)),
    ensures
        leaves_of(ops.push(op)) == leaves_of(ops).push(op_leaf(op).unwrap()),
        op_leaf(op).unwrap() matches JsonV::Object(es) && es.len() >= 1 && es[0].0 == "text"@,
        (forall|i: int| 0 <= i < op_attributes(op).len() ==> #[trigger] op_attributes(op)[i].0 != "text"@)
            ==> (op_leaf(op).unwrap() matches JsonV::Object(es) && es[0].1 == op.get("insert"@).unwrap()),
{
    assert(ops.push(op).subrange(0, ops.len() as int) =~= ops);
    let attrs = op_attributes(op);
    lemma_with_entries_keeps_first(seq![("text"@, JsonV::Str(op.get("insert"@).unwrap()->Str_0))], attrs);
}

/// The leaf of an operation whose `insert` is a string holds every attribute
/// of the operation, whatever kind of value it is: a key reads as the value of
/// its last attribute; `text` reads as the inserted text where no attribute
/// has that name; any other key reads as nothing. An operation without an
/// attributes object gives the leaf that holds only its text.
pub proof fn lemma_leaf_members(op: JsonV, text: Seq<char>, key: Seq<char>)
    requires
        op.get("insert"@) == Some(JsonV::Str(text)),
    ensures
        op_leaf(op) is Some,
        op_leaf(op).unwrap() is Object,
        forall|attrs: Seq<(Seq<char>, JsonV)>, i: int|
            op.get("attributes"@) == Some(JsonV::Object(attrs)) && 0 <= i < attrs.len() && attrs[i].0 == key
                && (forall|j: int| i < j < attrs.len() ==> attrs[j].0 != key)
                ==> #[trigger] op_leaf(op).unwrap().get(attrs[i].0) == Some(attrs[i].1),
        forall|attrs: Seq<(Seq<char>, JsonV)>|
            op.get("attributes"@) == Some(JsonV::Object(attrs)) && (forall|j: int|
                0 <= j < attrs.len() ==> (#[trigger] attrs[j]).0 != key)
                ==> op_leaf(op).unwrap().get(key) == (if key == "text"@ {
                Some(JsonV::Str(text))
            } else {
                None::<JsonV>
            }),
        !(op.get("attributes"@) matches Some(JsonV::Object(_))) ==> op_leaf(op) == Some(
            JsonV::Object(seq![("text"@, JsonV::Str(text))]),
        ),
{
    let base = seq![("text"@, JsonV::Str(text))];
    let extra = op_attributes(op);
    assert forall|attrs: Seq<(Seq<char>, JsonV)>, i: int|
        op.get("attributes"@) == Some(JsonV::Object(attrs)) && 0 <= i < attrs.len() && attrs[i].0 == key
            && (forall|j: int| i < j < attrs.len() ==> attrs[j].0 != key)
        implies #[trigger] op_leaf(op).unwrap().get(attrs[i].0) == Some(attrs[i].1) by {
        assert(extra == attrs);
        lemma_with_entries_get(base, attrs, key, i);
    }
    assert forall|attrs: Seq<(Seq<char>, JsonV)>|
        op.get("attributes"@) == Some(JsonV::Object(attrs)) && (forall|j: int|
            0 <= j < attrs.len() ==> (#[trigger] attrs[j]).0 != key)
        implies op_leaf(op).unwrap().get(key) == (if key == "text"@ {
            Some(JsonV::Str(text))
        } else {
            None::<JsonV>
        }) by {
        assert(extra == attrs);
        lemma_with_entries_get_absent(base, attrs, key);
        if key == "text"@ {
            lemma_assoc_get_at(base, key, 0);
        } else {
            lemma_assoc_get_none(base, key);
        }
    }
}

/// Setting entries never removes an entry nor moves the first key, and keeps
/// the first entry where no entry set has its key.
proof fn lemma_with_entries_keeps_first(base: Seq<(Seq<char>, JsonV)>, extra: Seq<(Seq<char>, JsonV)>)
    requires
        base.len() >= 1,
    ensures
        with_entries(base, extra).len() >= 1,
        with_entries(base, extra)[0].0 == base[0].0,
        (forall|i: int| 0 <= i < extra.len() ==> #[trigger] extra[i].0 != base[0].0)
            ==> with_entries(base, extra)[0] == base[0],
    decreases extra.len(),
{
    if extra.len() > 0 {
        let shorter = extra.subrange(0, extra.len() - 1);
        let prev = with_entries(base, shorter);
        lemma_with_entries_keeps_first(base, shorter);
        let last = extra[extra.len() - 1];
        match first_key_index(entry_keys(prev), last.0) {
            Some(i) => {
                assert(is_first_key(entry_keys(prev), last.0, i));
            },
            None => {},
        }
        if forall|i: int| 0 <= i < extra.len() ==> #[trigger] extra[i].0 != base[0].0 {
            assert forall|i: int| 0 <= i < shorter.len() implies #[trigger] shorter[i].0 != base[0].0 by {
                assert(shorter[i] == extra[i]);
            }
        }
    }
}

/// There is always at least one leaf: with no string insert, the single
/// leaf with empty text.
pub proof fn lemma_slate_leaves_nonempty(ops: Seq<JsonV>)
    ensures
        slate_leaves(ops).len() >= 1,
        leaves_of(ops).len() == 0 ==> slate_leaves(ops) == seq![empty_leaf()],
{
}

/// The number of delta operations whose `insert` is a string.
pub open spec fn string_insert_count(ops: Seq<JsonV>) -> nat
    decreases ops.len(),
{
    if ops.len() == 0 {
        0
    } else {
        string_insert_count(ops.subrange(0, ops.len() - 1)) + (if ops[ops.len() - 1].get("insert"@) matches Some(
            JsonV::Str(_),
        ) {
            1nat
        } else {
            0nat
        })
    }
}

/// The string inserts of delta operations, joined in order.
pub open spec fn inserted_text(ops: Seq<JsonV>) -> Seq<char>
    decreases ops.len(),
{
    if ops.len() == 0 {
        Seq::empty()
    } else {
        inserted_text(ops.subrange(0, ops.len() - 1)) + match ops[ops.len() - 1].get("insert"@) {
            Some(JsonV::Str(t)) => t,
            _ => Seq::empty(),
        }
    }
}

/// The `text` of a leaf where it is a string; empty otherwise.
pub open spec fn leaf_text(leaf: JsonV) -> Seq<char> {
    match leaf.get("text"@) {
        Some(JsonV::Str(t)) => t,
        _ => Seq::empty(),
    }
}

/// The texts of leaves, joined in order.
pub open spec fn leaves_text(leaves: Seq<JsonV>) -> Seq<char>
    decreases leaves.len(),
{
    if leaves.len() == 0 {
        Seq::empty()
    } else {
        leaves_text(leaves.subrange(0, leaves.len() - 1)) + leaf_text(leaves[leaves.len() - 1])
    }
}

/// No delta operation has an attribute named `text`.
pub open spec fn no_text_attribute(ops: Seq<JsonV>) -> bool {
    forall|i: int, j: int|
        0 <= i < ops.len() && 0 <= j < op_attributes(ops[i]).len() ==> (#[trigger] op_attributes(ops[i])[j]).0 != "text"@
}

proof fn lemma_leaves_of_count_text(ops: Seq<JsonV>)
    ensures
        leaves_of(ops).len() == string_insert_count(ops),
        no_text_attribute(ops) ==> leaves_text(leaves_of(ops)) == inserted_text(ops),
    decreases ops.len(),
{
    if ops.len() > 0 {
        let prefix = ops.subrange(0, ops.len() - 1);
        let op = ops[ops.len() - 1];
        lemma_leaves_of_count_text(prefix);
        if no_text_attribute(ops) {
            assert forall|i: int, j: int|
                0 <= i < prefix.len() && 0 <= j < op_attributes(prefix[i]).len() implies (#[trigger] op_attributes(prefix[i])[j]).0 != "text"@ by {
                assert(prefix[i] == ops[i]);
                assert(op_attributes(ops[i])[j].0 != "text"@);
            }
        }
        if let Some(JsonV::Str(t)) = op.get("insert"@) {
            let attrs = op_attributes(op);
            let base = seq![("text"@, JsonV::Str(t))];
            lemma_with_entries_keeps_first(base, attrs);
            let prev = leaves_of(prefix);
            let leaf = op_leaf(op).unwrap();
            assert(leaves_of(ops) == prev.push(leaf));
            assert(prev.push(leaf).subrange(0, prev.len() as int) =~= prev);
            if no_text_attribute(ops) {
                assert forall|j: int| 0 <= j < attrs.len() implies #[trigger] attrs[j].0 != base[0].0 by {
                    assert(op_attributes(ops[ops.len() - 1])[j].0 != "text"@);
                }
                let es = with_entries(base, attrs);
                assert(es[0] == base[0]);
                lemma_assoc_get_at(es, "text"@, 0);
                assert(leaf_text(leaf) == t);
            }
        }
    }
}

/// There are as many leaves as string inserts, and one where there is none;
/// where no attribute is named `text`, the leaves' texts joined in order are
/// the string inserts joined in order.
pub proof fn lemma_leaves_count_and_text(ops: Seq<JsonV>)
    ensures
        slate_leaves(ops).len() == (if string_insert_count(ops) == 0 { 1 } else { string_insert_count(ops) }),
        no_text_attribute(ops) ==> leaves_text(slate_leaves(ops)) == inserted_text(ops),
{
    lemma_leaves_of_count_text(ops);
    if leaves_of(ops).len() == 0 {
        let e = empty_leaf();
        lemma_assoc_get_at(seq![("text"@, JsonV::Str(Seq::<char>::empty()))], "text"@, 0);
        assert(leaf_text(e) == Seq::<char>::empty());
        let one = seq![e];
        assert(one.subrange(0, 0) =~= Seq::<JsonV>::empty());
        assert(leaves_text(one.subrange(0, 0)) == Seq::<char>::empty());
        assert(one[0] == e);
        assert(leaves_text(one) == leaves_text(one.subrange(0, 0)) + leaf_text(e));
        assert(leaves_text(one) =~= Seq::<char>::empty());
    }
}

} // verus!
