//! The database part of a published page: summaries of its fields, views and
//! rows, taken from the JSON dumps of its collaborative documents.

use vstd::prelude::*;
use crate::json::{
    Json, JsonV, entry_views, json_view, json_views, lemma_assoc_get_at, lemma_entry_views, lemma_with_entries_get, assoc_get,
    lemma_json_views, opt_view, lemma_json_views_push, object_insert, with_entries,
};
use crate::dto::{PublishedDatabaseDto, PublishedDatabaseDtoV, PublishedDatabaseRawDto, PublishedDatabaseRawDtoV};
use crate::document::strings_view;
use crate::ids::{parsed_uuid, uuid_text, uuid_to_string};

verus! {

/// A member of a JSON value, or `default` where it has none.
pub open spec fn member_or(v: JsonV, key: Seq<char>, default: JsonV) -> JsonV {
    match v.get(key) {
        Some(x) => x,
        None => default,
    }
}

/// The summary of one field of a database.
pub open spec fn field_summary(field_id: Seq<char>, field: JsonV) -> JsonV {
    JsonV::Object(
        seq![
            ("fieldId"@, JsonV::Str(field_id)),
            ("name"@, member_or(field, "name"@, JsonV::Str(Seq::empty()))),
            ("fieldType"@, member_or(field, "ty"@, JsonV::Number("0"@))),
            ("isPrimary"@, member_or(field, "is_primary"@, JsonV::Bool(false))),
        ],
    )
}

/// The member names of the summaries differ from one another.
proof fn lemma_summary_keys_distinct()
    ensures
        "fieldId"@ != "name"@,
        "fieldType"@ != "fieldId"@,
        "fieldType"@ != "name"@,
        "isPrimary"@ != "fieldId"@,
        "isPrimary"@ != "name"@,
        "isPrimary"@ != "fieldType"@,
        "viewId"@ != "name"@,
        "layout"@ != "viewId"@,
        "layout"@ != "name"@,
        "fieldIds"@ != "viewId"@,
        "fieldIds"@ != "name"@,
        "fieldIds"@ != "layout"@,
        "rowIds"@ != "viewId"@,
        "rowIds"@ != "name"@,
        "rowIds"@ != "layout"@,
        "rowIds"@ != "fieldIds"@,
        "cells"@ != "rowId"@,
{
    reveal_strlit("fieldId");
    reveal_strlit("name");
    reveal_strlit("fieldType");
    reveal_strlit("isPrimary");
    reveal_strlit("viewId");
    reveal_strlit("layout");
    reveal_strlit("fieldIds");
    reveal_strlit("rowIds");
    reveal_strlit("rowId");
    reveal_strlit("cells");
    assert("fieldId"@.len() == 7);
    assert("name"@.len() == 4);
    assert("fieldType"@.len() == 9);
    assert("isPrimary"@.len() == 9);
    assert("fieldType"@[0] != "isPrimary"@[0]);
    assert("viewId"@.len() == 6);
    assert("layout"@.len() == 6);
    assert("viewId"@[0] != "layout"@[0]);
    assert("fieldIds"@.len() == 8);
    assert("rowIds"@.len() == 6);
    assert("rowIds"@[0] != "viewId"@[0]);
    assert("rowIds"@[0] != "layout"@[0]);
    assert("rowId"@.len() == 5);
    assert("cells"@.len() == 5);
    assert("rowId"@[0] != "cells"@[0]);
}

/// A field's summary has four members: its id as `fieldId`, and its own
/// `name`, `ty` and `is_primary` as `name`, `fieldType` and `isPrimary`,
/// with `""`, `0` and `false` where the field has none.
pub proof fn lemma_field_summary_members(field_id: Seq<char>, field: JsonV)
    ensures
        field_summary(field_id, field) matches JsonV::Object(es) && es.len() == 4,
        field_summary(field_id, field).get("fieldId"@) == Some(JsonV::Str(field_id)),
        field_summary(field_id, field).get("name"@) == Some(match field.get("name"@) {
            Some(x) => x,
            None => JsonV::Str(Seq::empty()),
        }),
        field_summary(field_id, field).get("fieldType"@) == Some(match field.get("ty"@) {
            Some(x) => x,
            None => JsonV::Number("0"@),
        }),
        field_summary(field_id, field).get("isPrimary"@) == Some(match field.get("is_primary"@) {
            Some(x) => x,
            None => JsonV::Bool(false),
        }),
{
    lemma_summary_keys_distinct();
    let es = field_summary(field_id, field)->Object_0;
    lemma_assoc_get_at(es, "fieldId"@, 0);
    lemma_assoc_get_at(es, "name"@, 1);
    lemma_assoc_get_at(es, "fieldType"@, 2);
    lemma_assoc_get_at(es, "isPrimary"@, 3);
}

/// The summaries of the fields of a database, in the fields' order.
pub open spec fn fields_summary(fields: Seq<(Seq<char>, JsonV)>) -> Seq<JsonV> {
    fields.map_values(|e: (Seq<char>, JsonV)| field_summary(e.0, e.1))
}

/// The `id` members of the entries of an order list, in order; entries
/// without one are skipped.
pub open spec fn ids_of(entries: Seq<JsonV>) -> Seq<JsonV>
    decreases entries.len(),
{
    if entries.len() == 0 {
        Seq::empty()
    } else {
        let prev = ids_of(entries.subrange(0, entries.len() - 1));
        match entries[entries.len() - 1].get("id"@) {
            Some(id) => prev.push(id),
            None => prev,
        }
    }
}

/// The ids that an optional order list holds; none where it is missing or
/// is no array.
pub open spec fn order_ids_of(orders: Option<JsonV>) -> Seq<JsonV> {
    match orders {
        Some(JsonV::Array(entries)) => ids_of(entries),
        _ => Seq::empty(),
    }
}

/// The summary of one view of a database.
pub open spec fn view_summary(view_id: Seq<char>, view: JsonV) -> JsonV {
    JsonV::Object(
        seq![
            ("viewId"@, JsonV::Str(view_id)),
            ("name"@, member_or(view, "name"@, JsonV::Str(Seq::empty()))),
            ("layout"@, member_or(view, "layout"@, JsonV::Number("0"@))),
            ("fieldIds"@, JsonV::Array(order_ids_of(view.get("field_orders"@)))),
            ("rowIds"@, JsonV::Array(order_ids_of(view.get("row_orders"@)))),
        ],
    )
}

/// A view's summary has five members: its id as `viewId`, its own `name`
/// and `layout`, with `""` and `0` where it has none, and the ids of its
/// `field_orders` and `row_orders` as `fieldIds` and `rowIds`.
pub proof fn lemma_view_summary_members(view_id: Seq<char>, view: JsonV)
    ensures
        view_summary(view_id, view) matches JsonV::Object(es) && es.len() == 5,
        view_summary(view_id, view).get("viewId"@) == Some(JsonV::Str(view_id)),
        view_summary(view_id, view).get("name"@) == Some(match view.get("name"@) {
            Some(x) => x,
            None => JsonV::Str(Seq::empty()),
        }),
        view_summary(view_id, view).get("layout"@) == Some(match view.get("layout"@) {
            Some(x) => x,
            None => JsonV::Number("0"@),
        }),
        view_summary(view_id, view).get("fieldIds"@) == Some(JsonV::Array(order_ids_of(view.get("field_orders"@)))),
        view_summary(view_id, view).get("rowIds"@) == Some(JsonV::Array(order_ids_of(view.get("row_orders"@)))),
{
    lemma_summary_keys_distinct();
    let es = view_summary(view_id, view)->Object_0;
    lemma_assoc_get_at(es, "viewId"@, 0);
    lemma_assoc_get_at(es, "name"@, 1);
    lemma_assoc_get_at(es, "layout"@, 2);
    lemma_assoc_get_at(es, "fieldIds"@, 3);
    lemma_assoc_get_at(es, "rowIds"@, 4);
}

/// The summaries of the views of a database, in the views' order.
pub open spec fn views_summary(views: Seq<(Seq<char>, JsonV)>) -> Seq<JsonV> {
    views.map_values(|e: (Seq<char>, JsonV)| view_summary(e.0, e.1))
}

/// The `cells` of a row's `data`, or an empty object where there are none.
pub open spec fn row_cells(row: JsonV) -> JsonV {
    match row.get("data"@) {
        Some(d) => member_or(d, "cells"@, JsonV::Object(Seq::empty())),
        None => JsonV::Object(Seq::empty()),
    }
}

/// The summary of one row: its id and its cells.
pub open spec fn row_summary_of(row_id: Seq<char>, row: JsonV) -> JsonV {
    JsonV::Object(seq![("rowId"@, JsonV::Str(row_id)), ("cells"@, row_cells(row))])
}

/// A copy of the member `key` of `v`, or `default` where it has none.
fn member_or_default(v: &Json, key: &str, default: Json) -> (r: Json)
    ensures
        r@ == member_or(v@, key@, default@),
{
    let k = String::from_str(key);
    match v.get(&k) {
        Some(x) => x.deep_clone(),
        None => default,
    }
}

/// Summarises the fields of a database: for each, its id, `name`, `ty` as
/// `fieldType` and `is_primary` as `isPrimary`, with defaults `""`, `0` and
/// `false`.
pub fn fields_to_summary(fields: &Vec<(String, Json)>) -> (r: Vec<Json>)
    ensures
        json_views(r@) == fields_summary(entry_views(fields@)),
        r.len() == fields.len(),
        forall|i: int|
            0 <= i < r.len() ==> {
                let s = (#[trigger] r@[i])@;
                let field = fields@[i].1@;
                &&& s matches JsonV::Object(es) && es.len() == 4
                &&& s.get("fieldId"@) == Some(JsonV::Str(fields@[i].0@))
                &&& s.get("name"@) == Some(member_or(field, "name"@, JsonV::Str(Seq::empty())))
                &&& s.get("fieldType"@) == Some(member_or(field, "ty"@, JsonV::Number("0"@)))
                &&& s.get("isPrimary"@) == Some(member_or(field, "is_primary"@, JsonV::Bool(false)))
            },
{
    let ghost fv = entry_views(fields@);
    proof {
        lemma_entry_views(fields@);
    }
    let mut out: Vec<Json> = Vec::new();
    let mut i: usize = 0;
    while i < fields.len()
        invariant
            i <= fields.len(),
            fv == entry_views(fields@),
            fv.len() == fields.len(),
            forall|j: int| 0 <= j < fields.len() ==> #[trigger] fv[j] == (fields@[j].0@, json_view(fields@[j].1)),
            json_views(out@) == fields_summary(fv.subrange(0, i as int)),
        decreases fields.len() - i,
    {
        let field = &fields[i].1;
        let items = vec![
            (String::from_str("fieldId"), Json::Str(fields[i].0.clone())),
            (String::from_str("name"), member_or_default(field, "name", Json::Str(String::new()))),
            (String::from_str("fieldType"), member_or_default(field, "ty", Json::Number(String::from_str("0")))),
            (String::from_str("isPrimary"), member_or_default(field, "is_primary", Json::Bool(false))),
        ];
        proof {
            lemma_entry_views(items@);
        }
        let s = Json::Object(items);
        assert(s@ == field_summary(fv[i as int].0, fv[i as int].1)) by {
            assert(entry_views(items@) =~= seq![
                ("fieldId"@, JsonV::Str(fv[i as int].0)),
                ("name"@, member_or(fv[i as int].1, "name"@, JsonV::Str(Seq::empty()))),
                ("fieldType"@, member_or(fv[i as int].1, "ty"@, JsonV::Number("0"@))),
                ("isPrimary"@, member_or(fv[i as int].1, "is_primary"@, JsonV::Bool(false))),
            ]);
        }
        proof {
            lemma_json_views_push(out@, s);
            assert(fields_summary(fv.subrange(0, i + 1)) =~= fields_summary(fv.subrange(0, i as int)).push(
                field_summary(fv[i as int].0, fv[i as int].1)));
        }
        out.push(s);
        i = i + 1;
    }
    assert(fv.subrange(0, fields.len() as int) =~= fv);
    proof {
        lemma_json_views(out@);
        assert forall|i: int| 0 <= i < out.len() implies {
            let s = (#[trigger] out@[i])@;
            let field = fields@[i].1@;
            &&& s matches JsonV::Object(es) && es.len() == 4
            &&& s.get("fieldId"@) == Some(JsonV::Str(fields@[i].0@))
            &&& s.get("name"@) == Some(member_or(field, "name"@, JsonV::Str(Seq::empty())))
            &&& s.get("fieldType"@) == Some(member_or(field, "ty"@, JsonV::Number("0"@)))
            &&& s.get("isPrimary"@) == Some(member_or(field, "is_primary"@, JsonV::Bool(false)))
        } by {
            assert(json_views(out@)[i] == fields_summary(fv)[i]);
            assert(fv[i] == (fields@[i].0@, json_view(fields@[i].1)));
            assert(out@[i]@ == field_summary(fields@[i].0@, fields@[i].1@));
            lemma_field_summary_members(fields@[i].0@, fields@[i].1@);
        }
    }
    out
}

/// The `id` members of an optional order list, in order.
pub fn order_ids(orders: Option<&Json>) -> (r: Vec<Json>)
    ensures
        json_views(r@) == order_ids_of(opt_view(orders)),
{
    let mut out: Vec<Json> = Vec::new();
    let entries = match orders {
        Some(o) => match o.as_array() {
            Some(entries) => entries,
            None => {
                assert(json_views(out@) =~= Seq::<JsonV>::empty());
                return out;
            },
        },
        None => {
            assert(json_views(out@) =~= Seq::<JsonV>::empty());
            return out;
        },
    };
    let ghost ev = json_views(entries@);
    proof {
        lemma_json_views(entries@);
    }
    let id_key = String::from_str("id");
    let mut i: usize = 0;
    assert(json_views(out@) =~= Seq::<JsonV>::empty());
    while i < entries.len()
        invariant
            i <= entries.len(),
            ev == json_views(entries@),
            ev.len() == entries.len(),
            forall|j: int| 0 <= j < entries.len() ==> #[trigger] ev[j] == json_view(entries@[j]),
            id_key@ == "id"@,
            json_views(out@) == ids_of(ev.subrange(0, i as int)),
        decreases entries.len() - i,
    {
        assert(ev.subrange(0, i + 1).subrange(0, i as int) =~= ev.subrange(0, i as int));
        match entries[i].get(&id_key) {
            Some(id) => {
                let c = id.deep_clone();
                proof {
                    lemma_json_views_push(out@, c);
                }
                out.push(c);
            },
            None => {},
        }
        i = i + 1;
    }
    assert(ev.subrange(0, entries.len() as int) =~= ev);
    out
}

/// Summarises the views of a database: for each, its id, `name`, `layout`,
/// and the ids of its field and row orders, with defaults `""` and `0`.
pub fn views_to_summary(views: &Vec<(String, Json)>) -> (r: Vec<Json>)
    ensures
        json_views(r@) == views_summary(entry_views(views@)),
        r.len() == views.len(),
        forall|i: int|
            0 <= i < r.len() ==> {
                let s = (#[trigger] r@[i])@;
                let view = views@[i].1@;
                &&& s matches JsonV::Object(es) && es.len() == 5
                &&& s.get("viewId"@) == Some(JsonV::Str(views@[i].0@))
                &&& s.get("name"@) == Some(member_or(view, "name"@, JsonV::Str(Seq::empty())))
                &&& s.get("layout"@) == Some(member_or(view, "layout"@, JsonV::Number("0"@)))
                &&& s.get("fieldIds"@) == Some(JsonV::Array(order_ids_of(view.get("field_orders"@))))
                &&& s.get("rowIds"@) == Some(JsonV::Array(order_ids_of(view.get("row_orders"@))))
            },
{
    let ghost vv = entry_views(views@);
    proof {
        lemma_entry_views(views@);
    }
    let mut out: Vec<Json> = Vec::new();
    let mut i: usize = 0;
    while i < views.len()
        invariant
            i <= views.len(),
            vv == entry_views(views@),
            vv.len() == views.len(),
            forall|j: int| 0 <= j < views.len() ==> #[trigger] vv[j] == (views@[j].0@, json_view(views@[j].1)),
            json_views(out@) == views_summary(vv.subrange(0, i as int)),
        decreases views.len() - i,
    {
        let view = &views[i].1;
        let fk = String::from_str("field_orders");
        let rk = String::from_str("row_orders");
        let field_ids = order_ids(view.get(&fk));
        let row_ids = order_ids(view.get(&rk));
        let items = vec![
            (String::from_str("viewId"), Json::Str(views[i].0.clone())),
            (String::from_str("name"), member_or_default(view, "name", Json::Str(String::new()))),
            (String::from_str("layout"), member_or_default(view, "layout", Json::Number(String::from_str("0")))),
            (String::from_str("fieldIds"), Json::Array(field_ids)),
            (String::from_str("rowIds"), Json::Array(row_ids)),
        ];
        proof {
            lemma_entry_views(items@);
        }
        let s = Json::Object(items);
        assert(s@ == view_summary(vv[i as int].0, vv[i as int].1)) by {
            assert(entry_views(items@) =~= seq![
                ("viewId"@, JsonV::Str(vv[i as int].0)),
                ("name"@, member_or(vv[i as int].1, "name"@, JsonV::Str(Seq::empty()))),
                ("layout"@, member_or(vv[i as int].1, "layout"@, JsonV::Number("0"@))),
                ("fieldIds"@, JsonV::Array(order_ids_of(vv[i as int].1.get("field_orders"@)))),
                ("rowIds"@, JsonV::Array(order_ids_of(vv[i as int].1.get("row_orders"@)))),
            ]);
        }
        proof {
            lemma_json_views_push(out@, s);
            assert(views_summary(vv.subrange(0, i + 1)) =~= views_summary(vv.subrange(0, i as int)).push(
                view_summary(vv[i as int].0, vv[i as int].1)));
        }
        out.push(s);
        i = i + 1;
    }
    assert(vv.subrange(0, views.len() as int) =~= vv);
    proof {
        lemma_json_views(out@);
        assert forall|i: int| 0 <= i < out.len() implies {
            let s = (#[trigger] out@[i])@;
            let view = views@[i].1@;
            &&& s matches JsonV::Object(es) && es.len() == 5
            &&& s.get("viewId"@) == Some(JsonV::Str(views@[i].0@))
            &&& s.get("name"@) == Some(member_or(view, "name"@, JsonV::Str(Seq::empty())))
            &&& s.get("layout"@) == Some(member_or(view, "layout"@, JsonV::Number("0"@)))
            &&& s.get("fieldIds"@) == Some(JsonV::Array(order_ids_of(view.get("field_orders"@))))
            &&& s.get("rowIds"@) == Some(JsonV::Array(order_ids_of(view.get("row_orders"@))))
        } by {
            assert(json_views(out@)[i] == views_summary(vv)[i]);
            assert(vv[i] == (views@[i].0@, json_view(views@[i].1)));
            assert(out@[i]@ == view_summary(views@[i].0@, views@[i].1@));
            lemma_view_summary_members(views@[i].0@, views@[i].1@);
        }
    }
    out
}

/// Summarises one row: its id and the `cells` of its `data`, or `{}`.
pub fn row_summary(row_id: &String, row_json: &Json) -> (r: Json)
    ensures
        r@ == row_summary_of(row_id@, row_json@),
        r@ matches JsonV::Object(es) && es.len() == 2,
        r@.get("rowId"@) == Some(JsonV::Str(row_id@)),
        r@.get("cells"@) == Some(match row_json@.get("data"@) {
            Some(d) => member_or(d, "cells"@, JsonV::Object(Seq::empty())),
            None => JsonV::Object(Seq::empty()),
        }),
{
    let dk = String::from_str("data");
    let e1: Vec<(String, Json)> = Vec::new();
    let e2: Vec<(String, Json)> = Vec::new();
    assert(entry_views(e1@) =~= Seq::empty());
    assert(entry_views(e2@) =~= Seq::empty());
    let cells = match row_json.get(&dk) {
        Some(data) => member_or_default(data, "cells", Json::Object(e1)),
        None => Json::Object(e2),
    };
    assert(cells@ == row_cells(row_json@));
    let items = vec![
        (String::from_str("rowId"), Json::Str(row_id.clone())),
        (String::from_str("cells"), cells),
    ];
    proof {
        lemma_entry_views(items@);
    }
    let r = Json::Object(items);
    assert(entry_views(items@) =~= seq![("rowId"@, JsonV::Str(row_id@)), ("cells"@, cells@)]);
    proof {
        lemma_summary_keys_distinct();
        lemma_assoc_get_at(entry_views(items@), "rowId"@, 0);
        lemma_assoc_get_at(entry_views(items@), "cells"@, 1);
    }
    r
}

/// A published database as its collaborative documents decode: the JSON
/// dump of the database, the JSON dump of each row and the document data of
/// each row document, by row id, the ids of the visible views, and the
/// related databases' views by database id.
#[derive(Debug, PartialEq)]
pub struct DecodedDatabase {
    pub database: Json,
    pub rows: Vec<(u128, Json)>,
    pub row_documents: Vec<(u128, Json)>,
    pub visible_database_view_ids: Vec<u128>,
    pub database_relations: Vec<(u128, u128)>,
}

/// The view of a decoded database.
pub struct DecodedDatabaseV {
    pub database: JsonV,
    pub rows: Seq<(u128, JsonV)>,
    pub row_documents: Seq<(u128, JsonV)>,
    pub visible_database_view_ids: Seq<u128>,
    pub database_relations: Seq<(u128, u128)>,
}

/// The views of JSON values keyed by ids.
pub open spec fn keyed_views(s: Seq<(u128, Json)>) -> Seq<(u128, JsonV)> {
    s.map_values(|e: (u128, Json)| (e.0, e.1@))
}

impl View for DecodedDatabase {
    type V = DecodedDatabaseV;

    open spec fn view(&self) -> DecodedDatabaseV {
        DecodedDatabaseV {
            database: self.database@,
            rows: keyed_views(self.rows@),
            row_documents: keyed_views(self.row_documents@),
            visible_database_view_ids: self.visible_database_view_ids@,
            database_relations: self.database_relations@,
        }
    }
}

/// The `database` member of a database dump, or an empty object.
pub open spec fn database_value_of(db: JsonV) -> JsonV {
    member_or(db, "database"@, JsonV::Object(Seq::empty()))
}

/// The `id` of a database value where it is a string; empty otherwise.
pub open spec fn database_id_of(dv: JsonV) -> Seq<char> {
    match dv.get("id"@) {
        Some(JsonV::Str(s)) => s,
        _ => Seq::empty(),
    }
}

/// The members of an optional object; none for anything else.
pub open spec fn members_of(v: Option<JsonV>) -> Seq<(Seq<char>, JsonV)> {
    match v {
        Some(JsonV::Object(es)) => es,
        _ => Seq::empty(),
    }
}

/// The JSON dumps keyed by the text of their ids; with `wrap`, each dump is
/// put under `data`.
pub open spec fn text_keyed(s: Seq<(u128, JsonV)>, wrap: bool) -> Seq<(Seq<char>, JsonV)> {
    s.map_values(|e: (u128, JsonV)| (uuid_text(e.0), if wrap { wrapped_data(e.1) } else { e.1 }))
}

/// The JSON dumps keyed by the text of their ids, each set in turn.
pub open spec fn keyed_by_text(s: Seq<(u128, JsonV)>) -> Seq<(Seq<char>, JsonV)> {
    with_entries(Seq::empty(), text_keyed(s, false))
}

/// A row document's data wrapped under `data`.
pub open spec fn wrapped_data(d: JsonV) -> JsonV {
    JsonV::Object(seq![("data"@, d)])
}

/// The row summaries of the raw rows, in their order.
pub open spec fn rows_summary(rows: Seq<(Seq<char>, JsonV)>) -> Seq<JsonV> {
    rows.map_values(|e: (Seq<char>, JsonV)| row_summary_of(e.0, e.1))
}

/// The database of a published page, for the view `view_id`.
pub open spec fn database_dto(view_id: u128, db: DecodedDatabaseV) -> PublishedDatabaseDtoV {
    let dv = database_value_of(db.database);
    let rows = keyed_by_text(db.rows);
    PublishedDatabaseDtoV {
        database_id: database_id_of(dv),
        active_view_id: uuid_text(view_id),
        visible_view_ids: db.visible_database_view_ids.map_values(|u: u128| uuid_text(u)),
        fields: fields_summary(members_of(dv.get("fields"@))),
        views: views_summary(members_of(dv.get("views"@))),
        rows: rows_summary(rows),
        raw: PublishedDatabaseRawDtoV {
            database: dv,
            rows,
            row_documents: with_entries(Seq::empty(), text_keyed(db.row_documents, true)),
        },
    }
}

/// The texts of a sequence of ids.
fn ids_to_strings(ids: &Vec<u128>) -> (r: Vec<String>)
    ensures
        strings_view(r@) == ids@.map_values(|u: u128| uuid_text(u)),
        r.len() == ids.len(),
        forall|i: int|
            0 <= i < r.len() ==> (#[trigger] r@[i])@ == uuid_text(ids@[i]) && parsed_uuid(r@[i]@) == Some(ids@[i]),
{
    let mut out: Vec<String> = Vec::new();
    let mut i: usize = 0;
    while i < ids.len()
        invariant
            i <= ids.len(),
            out.len() == i,
            strings_view(out@) == ids@.subrange(0, i as int).map_values(|u: u128| uuid_text(u)),
            forall|j: int|
                0 <= j < i ==> (#[trigger] out@[j])@ == uuid_text(ids@[j]) && parsed_uuid(out@[j]@) == Some(ids@[j]),
        decreases ids.len() - i,
    {
        let s = uuid_to_string(ids[i]);
        let ghost prev = out@;
        out.push(s);
        proof {
            assert(strings_view(out@) =~= strings_view(prev).push(s@));
            assert(ids@.subrange(0, i + 1).map_values(|u: u128| uuid_text(u))
                =~= ids@.subrange(0, i as int).map_values(|u: u128| uuid_text(u)).push(uuid_text(ids@[i as int])));
        }
        i = i + 1;
    }
    assert(ids@.subrange(0, ids.len() as int) =~= ids@);
    out
}

/// Keys JSON dumps by the text of their ids, each set in turn; with `wrap`,
/// each dump is put under `data`.
fn key_by_text(items: &Vec<(u128, Json)>, wrap: bool) -> (r: Vec<(String, Json)>)
    ensures
        entry_views(r@) == with_entries(Seq::empty(), text_keyed(keyed_views(items@), wrap)),
{
    let ghost src = text_keyed(keyed_views(items@), wrap);
    let mut out: Vec<(String, Json)> = Vec::new();
    let mut i: usize = 0;
    assert(entry_views(out@) =~= Seq::empty());
    assert(src.subrange(0, 0) =~= Seq::empty());
    while i < items.len()
        invariant
            i <= items.len(),
            src.len() == items.len(),
            src == text_keyed(keyed_views(items@), wrap),
            entry_views(out@) == with_entries(Seq::empty(), src.subrange(0, i as int)),
        decreases items.len() - i,
    {
        let k = uuid_to_string(items[i].0);
        let body = items[i].1.deep_clone();
        let v = if wrap {
            let inner = vec![(String::from_str("data"), body)];
            proof {
                lemma_entry_views(inner@);
                assert(entry_views(inner@) =~= seq![("data"@, json_view(items@[i as int].1))]);
            }
            Json::Object(inner)
        } else {
            body
        };
        assert(src.subrange(0, i + 1).subrange(0, i as int) =~= src.subrange(0, i as int));
        assert((k@, v@) == src[i as int]);
        object_insert(&mut out, k, v);
        i = i + 1;
    }
    assert(src.subrange(0, items.len() as int) =~= src);
    out
}

/// Builds the database of a published page for the view `view_id` from its
/// decoded collaborative documents: the database's id, the active and visible
/// view ids as text, summaries of the fields, views and rows, and the raw
/// dumps, with each row document under `data`.
pub fn build_database_dto(view_id: u128, db: &DecodedDatabase) -> (r: PublishedDatabaseDto)
    ensures
        r@ == database_dto(view_id, db@),
        r.active_view_id@ == uuid_text(view_id),
        parsed_uuid(r.active_view_id@) == Some(view_id),
        r.visible_view_ids.len() == db.visible_database_view_ids.len(),
        forall|i: int|
            0 <= i < r.visible_view_ids.len() ==> (#[trigger] r.visible_view_ids@[i])@ == uuid_text(
                db.visible_database_view_ids@[i],
            ) && parsed_uuid(r.visible_view_ids@[i]@) == Some(db.visible_database_view_ids@[i]),
{
    let database_key = String::from_str("database");
    let e0: Vec<(String, Json)> = Vec::new();
    assert(entry_views(e0@) =~= Seq::empty());
    let database_value = match db.database.get(&database_key) {
        Some(v) => v.deep_clone(),
        None => Json::Object(e0),
    };
    let ghost dv = database_value@;
    assert(dv == database_value_of(db@.database));
    let id_key = String::from_str("id");
    let database_id = match database_value.get(&id_key) {
        Some(v) => match v.as_str() {
            Some(s) => s.clone(),
            None => String::new(),
        },
        None => String::new(),
    };
    assert(database_id@ == database_id_of(dv));
    let rows_raw = key_by_text(&db.rows, false);
    let row_documents = key_by_text(&db.row_documents, true);
    let fields_key = String::from_str("fields");
    let fields = match database_value.get(&fields_key) {
        Some(f) => match f.as_object() {
            Some(es) => fields_to_summary(es),
            None => Vec::new(),
        },
        None => Vec::new(),
    };
    assert(json_views(fields@) == fields_summary(members_of(dv.get("fields"@)))) by {
        assert(json_views(Seq::<Json>::empty()) =~= Seq::empty());
        assert(fields_summary(Seq::empty()) =~= Seq::empty());
    }
    let views_key = String::from_str("views");
    let views = match database_value.get(&views_key) {
        Some(f) => match f.as_object() {
            Some(es) => views_to_summary(es),
            None => Vec::new(),
        },
        None => Vec::new(),
    };
    assert(json_views(views@) == views_summary(members_of(dv.get("views"@)))) by {
        assert(json_views(Seq::<Json>::empty()) =~= Seq::empty());
        assert(views_summary(Seq::empty()) =~= Seq::empty());
    }
    let ghost rv = entry_views(rows_raw@);
    proof {
        lemma_entry_views(rows_raw@);
    }
    let mut rows: Vec<Json> = Vec::new();
    let mut i: usize = 0;
    while i < rows_raw.len()
        invariant
            i <= rows_raw.len(),
            rv == entry_views(rows_raw@),
            rv.len() == rows_raw.len(),
            forall|j: int| 0 <= j < rows_raw.len() ==> #[trigger] rv[j] == (rows_raw@[j].0@, json_view(rows_raw@[j].1)),
            json_views(rows@) == rows_summary(rv.subrange(0, i as int)),
        decreases rows_raw.len() - i,
    {
        let s = row_summary(&rows_raw[i].0, &rows_raw[i].1);
        proof {
            lemma_json_views_push(rows@, s);
            assert(rows_summary(rv.subrange(0, i + 1)) =~= rows_summary(rv.subrange(0, i as int)).push(
                row_summary_of(rv[i as int].0, rv[i as int].1)));
        }
        rows.push(s);
        i = i + 1;
    }
    assert(rv.subrange(0, rows_raw.len() as int) =~= rv);
    let visible_view_ids = ids_to_strings(&db.visible_database_view_ids);
    let active_view_id = uuid_to_string(view_id);
    assert(rv == keyed_by_text(db@.rows));
    assert(entry_views(row_documents@) == database_dto(view_id, db@).raw.row_documents);
    assert(json_views(rows@) == database_dto(view_id, db@).rows);
    assert(strings_view(visible_view_ids@) == database_dto(view_id, db@).visible_view_ids);
    PublishedDatabaseDto {
        database_id,
        active_view_id,
        visible_view_ids,
        fields,
        views,
        rows,
        raw: PublishedDatabaseRawDto { database: database_value, rows: rows_raw, row_documents },
    }
}

/// A published database names the view it was built for as its active view,
/// and lists every visible view of the decoded database, as text, in order:
/// the active view's is not the only one.
pub proof fn lemma_database_view_ids(view_id: u128, db: DecodedDatabaseV)
    ensures
        database_dto(view_id, db).active_view_id == uuid_text(view_id),
        database_dto(view_id, db).visible_view_ids.len() == db.visible_database_view_ids.len(),
        forall|i: int|
            0 <= i < db.visible_database_view_ids.len() ==> #[trigger] database_dto(view_id, db).visible_view_ids[i]
                == uuid_text(db.visible_database_view_ids[i]),
{
}

/// A published database summarises each field and each view of the
/// database's dump, in order, and each row it holds; the raw rows and row
/// documents are read back by the text of their ids, each as the last dump
/// given for it, a row document under `data`.
pub proof fn lemma_database_contents(view_id: u128, db: DecodedDatabaseV)
    ensures
        ({
            let d = database_dto(view_id, db);
            let dv = database_value_of(db.database);
            let fields = members_of(dv.get("fields"@));
            let views = members_of(dv.get("views"@));
            &&& d.fields.len() == fields.len()
            &&& forall|i: int| 0 <= i < fields.len() ==> #[trigger] d.fields[i] == field_summary(fields[i].0, fields[i].1)
            &&& d.views.len() == views.len()
            &&& forall|i: int| 0 <= i < views.len() ==> #[trigger] d.views[i] == view_summary(views[i].0, views[i].1)
            &&& d.rows.len() == d.raw.rows.len()
            &&& forall|i: int| 0 <= i < d.rows.len() ==> #[trigger] d.rows[i] == row_summary_of(d.raw.rows[i].0, d.raw.rows[i].1)
        }),
        forall|i: int|
            0 <= i < db.rows.len() && (forall|j: int| i < j < db.rows.len() ==> uuid_text(db.rows[j].0) != uuid_text(db.rows[i].0))
                ==> assoc_get(database_dto(view_id, db).raw.rows, uuid_text(#[trigger] db.rows[i].0)) == Some(db.rows[i].1),
        forall|i: int|
            0 <= i < db.row_documents.len() && (forall|j: int|
                i < j < db.row_documents.len() ==> uuid_text(db.row_documents[j].0) != uuid_text(db.row_documents[i].0))
                ==> assoc_get(database_dto(view_id, db).raw.row_documents, uuid_text(#[trigger] db.row_documents[i].0))
                == Some(wrapped_data(db.row_documents[i].1)),
{
    assert forall|i: int|
        0 <= i < db.rows.len() && (forall|j: int| i < j < db.rows.len() ==> uuid_text(db.rows[j].0) != uuid_text(db.rows[i].0))
        implies assoc_get(database_dto(view_id, db).raw.rows, uuid_text(#[trigger] db.rows[i].0)) == Some(db.rows[i].1) by {
        let keyed = text_keyed(db.rows, false);
        assert(keyed[i] == (uuid_text(db.rows[i].0), db.rows[i].1));
        assert forall|j: int| i < j < keyed.len() implies keyed[j].0 != uuid_text(db.rows[i].0) by {
            assert(keyed[j].0 == uuid_text(db.rows[j].0));
        }
        lemma_with_entries_get(Seq::empty(), keyed, uuid_text(db.rows[i].0), i);
    }
    assert forall|i: int|
        0 <= i < db.row_documents.len() && (forall|j: int|
            i < j < db.row_documents.len() ==> uuid_text(db.row_documents[j].0) != uuid_text(db.row_documents[i].0))
        implies assoc_get(database_dto(view_id, db).raw.row_documents, uuid_text(#[trigger] db.row_documents[i].0))
            == Some(wrapped_data(db.row_documents[i].1)) by {
        let keyed = text_keyed(db.row_documents, true);
        assert(keyed[i] == (uuid_text(db.row_documents[i].0), wrapped_data(db.row_documents[i].1)));
        assert forall|j: int| i < j < keyed.len() implies keyed[j].0 != uuid_text(db.row_documents[i].0) by {
            assert(keyed[j].0 == uuid_text(db.row_documents[j].0));
        }
        lemma_with_entries_get(Seq::empty(), keyed, uuid_text(db.row_documents[i].0), i);
    }
}

/// The ids of an order list never outnumber its entries; where every entry
/// has an `id`, they are those ids, entry by entry.
pub proof fn lemma_ids_of(entries: Seq<JsonV>)
    ensures
        ids_of(entries).len() <= entries.len(),
        (forall|i: int| 0 <= i < entries.len() ==> (#[trigger] entries[i]).get("id"@) is Some) ==> {
            &&& ids_of(entries).len() == entries.len()
            &&& forall|i: int| 0 <= i < entries.len() ==> Some(#[trigger] ids_of(entries)[i]) == entries[i].get("id"@)
        },
    decreases entries.len(),
{
    if entries.len() > 0 {
        let prefix = entries.subrange(0, entries.len() - 1);
        lemma_ids_of(prefix);
        if forall|i: int| 0 <= i < entries.len() ==> (#[trigger] entries[i]).get("id"@) is Some {
            assert forall|i: int| 0 <= i < prefix.len() implies (#[trigger] prefix[i]).get("id"@) is Some by {
                assert(prefix[i] == entries[i]);
            }
            assert(entries[entries.len() - 1].get("id"@) is Some);
            assert forall|i: int| 0 <= i < entries.len() implies Some(#[trigger] ids_of(entries)[i]) == entries[i].get("id"@) by {
                if i < entries.len() - 1 {
                    assert(prefix[i] == entries[i]);
                    assert(Some(ids_of(prefix)[i]) == prefix[i].get("id"@));
                }
            }
        }
    }
}

} // verus!
