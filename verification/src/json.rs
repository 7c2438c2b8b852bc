//! A JSON value held as plain data, with its mathematical view.

use vstd::prelude::*;

verus! {

/// A JSON value. A number is held in its textual form; an object is a
/// sequence of entries, looked up by the first entry with a given key.
#[derive(Debug, PartialEq)]
pub enum Json {
    Null,
    Bool(bool),
    Number(String),
    Str(String),
    Array(Vec<Json>),
    Object(Vec<(String, Json)>),
}

/// The mathematical view of a JSON value.
pub enum JsonV {
    Null,
    Bool(bool),
    Number(Seq<char>),
    Str(Seq<char>),
    Array(Seq<JsonV>),
    Object(Seq<(Seq<char>, JsonV)>),
}

/// The view of a JSON value.
pub open spec fn json_view(j: Json) -> JsonV
    decreases j, 0nat,
{
    match j {
        Json::Null => JsonV::Null,
        Json::Bool(b) => JsonV::Bool(b),
        Json::Number(n) => JsonV::Number(n@),
        Json::Str(s) => JsonV::Str(s@),
        Json::Array(items) => JsonV::Array(json_views(items@)),
        Json::Object(entries) => JsonV::Object(entry_views(entries@)),
    }
}

/// The views of a sequence of JSON values, element by element.
pub open spec fn json_views(items: Seq<Json>) -> Seq<JsonV>
    decreases items, 1nat,
{
    if items.len() == 0 {
        Seq::empty()
    } else {
        json_views(items.subrange(0, items.len() - 1)).push(json_view(items[items.len() - 1]))
    }
}

/// The views of a sequence of object entries, entry by entry.
pub open spec fn entry_views(entries: Seq<(String, Json)>) -> Seq<(Seq<char>, JsonV)>
    decreases entries, 1nat,
{
    if entries.len() == 0 {
        Seq::empty()
    } else {
        let last = entries[entries.len() - 1];
        entry_views(entries.subrange(0, entries.len() - 1)).push((last.0@, json_view(last.1)))
    }
}

impl View for Json {
    type V = JsonV;

    open spec fn view(&self) -> JsonV {
        json_view(*self)
    }
}

/// The views of a sequence keep its length and are taken element by element.
pub proof fn lemma_json_views(items: Seq<Json>)
    ensures
        json_views(items).len() == items.len(),
        forall|i: int| 0 <= i < items.len() ==> #[trigger] json_views(items)[i] == json_view(items[i]),
    decreases items.len(),
{
    if items.len() > 0 {
        lemma_json_views(items.subrange(0, items.len() - 1));
    }
}

/// The views of a sequence of entries keep its length and are taken entry by entry.
pub proof fn lemma_entry_views(entries: Seq<(String, Json)>)
    ensures
        entry_views(entries).len() == entries.len(),
        forall|i: int|
            0 <= i < entries.len() ==> #[trigger] entry_views(entries)[i] == (
            entries[i].0@,
            json_view(entries[i].1),
        ),
    decreases entries.len(),
{
    if entries.len() > 0 {
        lemma_entry_views(entries.subrange(0, entries.len() - 1));
    }
}

/// Pushing a value pushes its view.
pub proof fn lemma_json_views_push(items: Seq<Json>, j: Json)
    ensures
        json_views(items.push(j)) == json_views(items).push(json_view(j)),
{
    assert(items.push(j).subrange(0, items.len() as int) =~= items);
}

/// Pushing an entry pushes its view.
pub proof fn lemma_entry_views_push(entries: Seq<(String, Json)>, e: (String, Json))
    ensures
        entry_views(entries.push(e)) == entry_views(entries).push((e.0@, json_view(e.1))),
{
    assert(entries.push(e).subrange(0, entries.len() as int) =~= entries);
}

impl Json {
    /// A copy of this value, with the same view.
    #[verifier::loop_isolation(false)]
    pub fn deep_clone(&self) -> (r: Json)
        ensures
            r@ == self@,
        decreases self,
    {
        match self {
            Json::Null => Json::Null,
            Json::Bool(b) => Json::Bool(*b),
            Json::Number(n) => Json::Number(n.clone()),
            Json::Str(s) => Json::Str(s.clone()),
            Json::Array(items) => {
                let mut out: Vec<Json> = Vec::new();
                let mut i: usize = 0;
                while i < items.len()
                    invariant
                        i <= items.len(),
                        json_views(out@) == json_views(items@.subrange(0, i as int)),
                    decreases items.len() - i,
                {
                    let c = items[i].deep_clone();
                    proof {
                        lemma_json_views_push(out@, c);
                        lemma_json_views_push(items@.subrange(0, i as int), items@[i as int]);
                        assert(items@.subrange(0, i as int).push(items@[i as int]) =~= items@.subrange(0, i + 1));
                    }
                    out.push(c);
                    i = i + 1;
                }
                assert(items@.subrange(0, items.len() as int) =~= items@);
                Json::Array(out)
            },
            Json::Object(entries) => {
                let mut out: Vec<(String, Json)> = Vec::new();
                let mut i: usize = 0;
                while i < entries.len()
                    invariant
                        i <= entries.len(),
                        entry_views(out@) == entry_views(entries@.subrange(0, i as int)),
                    decreases entries.len() - i,
                {
                    proof {
                        assert(decreases_to!(entries => entries[i as int]));
                        assert(decreases_to!(entries[i as int] => entries[i as int].1));
                    }
                    let c = entries[i].1.deep_clone();
                    let k = entries[i].0.clone();
                    proof {
                        lemma_entry_views_push(out@, (k, c));
                        lemma_entry_views_push(entries@.subrange(0, i as int), entries@[i as int]);
                        assert(entries@.subrange(0, i as int).push(entries@[i as int]) =~= entries@.subrange(0, i + 1));
                    }
                    out.push((k, c));
                    i = i + 1;
                }
                assert(entries@.subrange(0, entries.len() as int) =~= entries@);
                Json::Object(out)
            },
        }
    }
}

/// `i` is the first position in `keys` that holds `key`.
pub open spec fn is_first_key(keys: Seq<Seq<char>>, key: Seq<char>, i: int) -> bool {
    &&& 0 <= i < keys.len()
    &&& keys[i] == key
    &&& forall|j: int| 0 <= j < i ==> keys[j] != key
}

/// The first position in `keys` that holds `key`, if there is one.
pub open spec fn first_key_index(keys: Seq<Seq<char>>, key: Seq<char>) -> Option<int> {
    if exists|i: int| is_first_key(keys, key, i) {
        Some(choose|i: int| is_first_key(keys, key, i))
    } else {
        None
    }
}

/// The keys of a sequence of entries, in order.
pub open spec fn entry_keys<V>(entries: Seq<(Seq<char>, V)>) -> Seq<Seq<char>> {
    entries.map_values(|e: (Seq<char>, V)| e.0)
}

/// The keys of a sequence of entries keyed by strings, in order.
pub open spec fn string_keys<T>(entries: Seq<(String, T)>) -> Seq<Seq<char>> {
    entries.map_values(|e: (String, T)| e.0@)
}

/// The value of the first entry with the given key.
pub open spec fn assoc_get<V>(entries: Seq<(Seq<char>, V)>, key: Seq<char>) -> Option<V> {
    match first_key_index(entry_keys(entries), key) {
        Some(i) => Some(entries[i].1),
        None => None,
    }
}

/// The entries with `key` set to `value`: the first entry with that key is
/// replaced in place, or the entry is added at the end.
pub open spec fn assoc_set<V>(entries: Seq<(Seq<char>, V)>, key: Seq<char>, value: V) -> Seq<(Seq<char>, V)> {
    match first_key_index(entry_keys(entries), key) {
        Some(i) => entries.update(i, (key, value)),
        None => entries.push((key, value)),
    }
}

/// The entries `base` with each of `extra` set in turn.
pub open spec fn with_entries(
    base: Seq<(Seq<char>, JsonV)>,
    extra: Seq<(Seq<char>, JsonV)>,
) -> Seq<(Seq<char>, JsonV)>
    decreases extra.len(),
{
    if extra.len() == 0 {
        base
    } else {
        let last = extra[extra.len() - 1];
        assoc_set(with_entries(base, extra.subrange(0, extra.len() - 1)), last.0, last.1)
    }
}

/// At most one position is the first to hold a key.
pub proof fn lemma_first_key_unique(keys: Seq<Seq<char>>, key: Seq<char>, a: int, b: int)
    requires
        is_first_key(keys, key, a),
        is_first_key(keys, key, b),
    ensures
        a == b,
{
    if a < b {
        assert(keys[a] == key);
    } else if b < a {
        assert(keys[b] == key);
    }
}

/// Two key sequences with the same first positions for a key find it at the same place.
proof fn lemma_same_first(keys1: Seq<Seq<char>>, keys2: Seq<Seq<char>>, key: Seq<char>)
    requires
        forall|c: int| is_first_key(keys1, key, c) <==> is_first_key(keys2, key, c),
    ensures
        first_key_index(keys1, key) == first_key_index(keys2, key),
{
    if exists|c: int| is_first_key(keys1, key, c) {
        let a = choose|c: int| is_first_key(keys1, key, c);
        let b = choose|c: int| is_first_key(keys2, key, c);
        assert(is_first_key(keys2, key, a));
        lemma_first_key_unique(keys2, key, a, b);
    }
}

/// Reading a key just set gives the value set; every other key reads as before.
pub proof fn lemma_assoc_set_get<V>(entries: Seq<(Seq<char>, V)>, key: Seq<char>, value: V, other: Seq<char>)
    ensures
        assoc_get(assoc_set(entries, key, value), key) == Some(value),
        other != key ==> assoc_get(assoc_set(entries, key, value), other) == assoc_get(entries, other),
{
    let keys = entry_keys(entries);
    let after = assoc_set(entries, key, value);
    let keys2 = entry_keys(after);
    match first_key_index(keys, key) {
        Some(i) => {
            assert(is_first_key(keys, key, i));
            assert(keys2 =~= keys);
            assert(is_first_key(keys2, key, i));
            lemma_same_first(keys2, keys, key);
            if other != key {
                lemma_same_first(keys2, keys, other);
                match first_key_index(keys, other) {
                    Some(j) => {
                        assert(is_first_key(keys, other, j));
                        assert(j != i);
                    },
                    None => {},
                }
            }
        },
        None => {
            assert(keys2 =~= keys.push(key));
            assert forall|c: int| 0 <= c < keys.len() implies keys[c] != key by {
                if keys[c] == key {
                    lemma_first_key_exists(keys, key, c);
                }
            }
            assert(is_first_key(keys2, key, keys.len() as int));
            let a = choose|c: int| is_first_key(keys2, key, c);
            lemma_first_key_unique(keys2, key, a, keys.len() as int);
            if other != key {
                assert forall|c: int| is_first_key(keys2, other, c) <==> is_first_key(keys, other, c) by {
                    if is_first_key(keys, other, c) {
                        assert forall|j: int| 0 <= j < c implies keys2[j] != other by {
                            assert(keys2[j] == keys[j]);
                        }
                    }
                    if is_first_key(keys2, other, c) {
                        assert(c < keys.len());
                        assert forall|j: int| 0 <= j < c implies keys[j] != other by {
                            assert(keys2[j] == keys[j]);
                        }
                    }
                }
                lemma_same_first(keys2, keys, other);
                match first_key_index(keys, other) {
                    Some(j) => {
                        assert(is_first_key(keys, other, j));
                    },
                    None => {},
                }
            }
        },
    }
}

/// The member at position `i` is what a key reads where no earlier member has that key.
pub proof fn lemma_assoc_get_at<V>(entries: Seq<(Seq<char>, V)>, key: Seq<char>, i: int)
    requires
        0 <= i < entries.len(),
        entries[i].0 == key,
        forall|j: int| 0 <= j < i ==> entries[j].0 != key,
    ensures
        assoc_get(entries, key) == Some(entries[i].1),
{
    let keys = entry_keys(entries);
    assert(is_first_key(keys, key, i));
    let c = choose|c: int| is_first_key(keys, key, c);
    lemma_first_key_unique(keys, key, c, i);
}

/// After setting entries in turn, a key reads as the value of the last entry
/// set with that key.
pub proof fn lemma_with_entries_get(
    base: Seq<(Seq<char>, JsonV)>,
    extra: Seq<(Seq<char>, JsonV)>,
    key: Seq<char>,
    i: int,
)
    requires
        0 <= i < extra.len(),
        extra[i].0 == key,
        forall|j: int| i < j < extra.len() ==> extra[j].0 != key,
    ensures
        assoc_get(with_entries(base, extra), key) == Some(extra[i].1),
    decreases extra.len(),
{
    let n = extra.len();
    let shorter = extra.subrange(0, n - 1);
    let last = extra[n - 1];
    let prev = with_entries(base, shorter);
    lemma_assoc_set_get(prev, last.0, last.1, key);
    if i < n - 1 {
        lemma_with_entries_get(base, shorter, key, i);
    }
}

/// After setting entries in turn, a key that none of them has reads as before.
pub proof fn lemma_with_entries_get_absent(
    base: Seq<(Seq<char>, JsonV)>,
    extra: Seq<(Seq<char>, JsonV)>,
    key: Seq<char>,
)
    requires
        forall|j: int| 0 <= j < extra.len() ==> extra[j].0 != key,
    ensures
        assoc_get(with_entries(base, extra), key) == assoc_get(base, key),
    decreases extra.len(),
{
    if extra.len() > 0 {
        let n = extra.len();
        let shorter = extra.subrange(0, n - 1);
        let last = extra[n - 1];
        lemma_assoc_set_get(with_entries(base, shorter), last.0, last.1, key);
        lemma_with_entries_get_absent(base, shorter, key);
    }
}

/// A key that no member has reads as nothing.
pub proof fn lemma_assoc_get_none<V>(entries: Seq<(Seq<char>, V)>, key: Seq<char>)
    requires
        forall|j: int| 0 <= j < entries.len() ==> entries[j].0 != key,
    ensures
        assoc_get(entries, key) is None,
{
    let keys = entry_keys(entries);
    assert(forall|c: int| !#[trigger] is_first_key(keys, key, c));
}

/// Where some position holds a key, a first position holds it.
pub proof fn lemma_first_key_exists(keys: Seq<Seq<char>>, key: Seq<char>, k: int)
    requires
        0 <= k < keys.len(),
        keys[k] == key,
    ensures
        exists|i: int| is_first_key(keys, key, i),
    decreases k,
{
    if forall|j: int| 0 <= j < k ==> keys[j] != key {
        assert(is_first_key(keys, key, k));
    } else {
        let j = choose|j: int| 0 <= j < k && keys[j] == key;
        lemma_first_key_exists(keys, key, j);
    }
}

impl JsonV {
    /// The member `key` of an object; nothing for any other value.
    pub open spec fn get(self, key: Seq<char>) -> Option<JsonV> {
        match self {
            JsonV::Object(entries) => assoc_get(entries, key),
            _ => None,
        }
    }
}

/// The view of an optional borrowed JSON value.
pub open spec fn opt_view(r: Option<&Json>) -> Option<JsonV> {
    match r {
        Some(j) => Some(j@),
        None => None,
    }
}

/// The keys of the entry views are the keys of the entries.
pub proof fn lemma_entry_view_keys(entries: Seq<(String, Json)>)
    ensures
        entry_keys(entry_views(entries)) == string_keys(entries),
{
    lemma_entry_views(entries);
    assert(entry_keys(entry_views(entries)) =~= string_keys(entries));
}

/// Replacing an entry replaces its view.
pub proof fn lemma_entry_views_update(entries: Seq<(String, Json)>, i: int, e: (String, Json))
    requires
        0 <= i < entries.len(),
    ensures
        entry_views(entries.update(i, e)) == entry_views(entries).update(i, (e.0@, json_view(e.1))),
{
    lemma_entry_views(entries);
    lemma_entry_views(entries.update(i, e));
    assert(entry_views(entries.update(i, e)) =~= entry_views(entries).update(i, (e.0@, json_view(e.1))));
}

/// The position of the first entry whose key is `key`.
pub fn find_key<T>(entries: &Vec<(String, T)>, key: &String) -> (r: Option<usize>)
    ensures
        match r {
            Some(i) => first_key_index(string_keys(entries@), key@) == Some(i as int),
            None => first_key_index(string_keys(entries@), key@) is None,
        },
{
    let ghost keys = string_keys(entries@);
    let mut i: usize = 0;
    while i < entries.len()
        invariant
            i <= entries.len(),
            keys == string_keys(entries@),
            forall|j: int| 0 <= j < i ==> keys[j] != key@,
        decreases entries.len() - i,
    {
        if entries[i].0 == *key {
            assert(is_first_key(keys, key@, i as int));
            assert(forall|c: int| #[trigger] is_first_key(keys, key@, c) ==> c == i);
            return Some(i);
        }
        i = i + 1;
    }
    assert(forall|c: int| !#[trigger] is_first_key(keys, key@, c));
    None
}

impl Json {
    /// The member `key` of an object; nothing for any other value.
    pub fn get(&self, key: &String) -> (r: Option<&Json>)
        ensures
            opt_view(r) == self@.get(key@),
    {
        match self {
            Json::Object(entries) => {
                proof {
                    lemma_entry_view_keys(entries@);
                    lemma_entry_views(entries@);
                }
                match find_key(entries, key) {
                    Some(i) => Some(&entries[i].1),
                    None => None,
                }
            },
            _ => None,
        }
    }

    /// The text of a string value; nothing for any other value.
    pub fn as_str(&self) -> (r: Option<&String>)
        ensures
            match r {
                Some(s) => self@ == JsonV::Str(s@),
                None => !(self@ is Str),
            },
    {
        match self {
            Json::Str(s) => Some(s),
            _ => None,
        }
    }

    /// The entries of an object; nothing for any other value.
    pub fn as_object(&self) -> (r: Option<&Vec<(String, Json)>>)
        ensures
            match r {
                Some(es) => self@ == JsonV::Object(entry_views(es@)),
                None => !(self@ is Object),
            },
    {
        match self {
            Json::Object(es) => Some(es),
            _ => None,
        }
    }

    /// The items of an array; nothing for any other value.
    pub fn as_array(&self) -> (r: Option<&Vec<Json>>)
        ensures
            match r {
                Some(items) => self@ == JsonV::Array(json_views(items@)),
                None => !(self@ is Array),
            },
    {
        match self {
            Json::Array(items) => Some(items),
            _ => None,
        }
    }
}

/// Sets `key` to `value` among the entries of an object.
pub fn object_insert(entries: &mut Vec<(String, Json)>, key: String, value: Json)
    ensures
        entry_views(final(entries)@) == assoc_set(entry_views(old(entries)@), key@, value@),
{
    proof {
        lemma_entry_view_keys(entries@);
    }
    match find_key(entries, &key) {
        Some(i) => {
            proof {
                lemma_entry_views_update(entries@, i as int, (key, value));
            }
            entries.set(i, (key, value));
        },
        None => {
            proof {
                lemma_entry_views_push(entries@, (key, value));
            }
            entries.push((key, value));
        },
    }
}

/// A copy of a sequence of object entries, with the same views.
pub fn clone_entries(entries: &Vec<(String, Json)>) -> (r: Vec<(String, Json)>)
    ensures
        entry_views(r@) == entry_views(entries@),
{
    let mut out: Vec<(String, Json)> = Vec::new();
    let mut i: usize = 0;
    while i < entries.len()
        invariant
            i <= entries.len(),
            entry_views(out@) == entry_views(entries@.subrange(0, i as int)),
        decreases entries.len() - i,
    {
        let e = (entries[i].0.clone(), entries[i].1.deep_clone());
        proof {
            lemma_entry_views_push(out@, e);
            lemma_entry_views_push(entries@.subrange(0, i as int), entries@[i as int]);
            assert(entries@.subrange(0, i as int).push(entries@[i as int]) =~= entries@.subrange(0, i + 1));
        }
        out.push(e);
        i = i + 1;
    }
    assert(entries@.subrange(0, entries.len() as int) =~= entries@);
    out
}

} // verus!
