use appflowy_cloud::database::{
    build_database_dto, fields_to_summary, order_ids, row_summary, views_to_summary, DecodedDatabase,
};
use appflowy_cloud::json::{object_insert, Json};

fn s(x: &str) -> String {
    x.to_string()
}

fn text(x: &str) -> Json {
    Json::Str(x.to_string())
}

fn obj(entries: Vec<(&str, Json)>) -> Json {
    Json::Object(entries.into_iter().map(|(k, v)| (k.to_string(), v)).collect())
}

const VIEW: u128 = 0xa1a2a3a4_b1b2_c1c2_d1d2_d3d4d5d6d7d8;
const ROW: u128 = 0x0000_0001_0000_0000_0000_0000_0000_00ff;

#[test]
fn field_summary_takes_defaults() {
    let fields = vec![
        (s("f1"), obj(vec![("name", text("Title")), ("ty", Json::Number(s("3"))), ("is_primary", Json::Bool(true))])),
        (s("f2"), obj(vec![])),
    ];
    assert_eq!(
        fields_to_summary(&fields),
        vec![
            obj(vec![
                ("fieldId", text("f1")),
                ("name", text("Title")),
                ("fieldType", Json::Number(s("3"))),
                ("isPrimary", Json::Bool(true)),
            ]),
            obj(vec![
                ("fieldId", text("f2")),
                ("name", text("")),
                ("fieldType", Json::Number(s("0"))),
                ("isPrimary", Json::Bool(false)),
            ]),
        ]
    );
}

#[test]
fn order_ids_keep_entries_with_an_id() {
    let orders = Json::Array(vec![obj(vec![("id", text("a"))]), obj(vec![("x", text("b"))]), obj(vec![("id", text("c"))])]);
    assert_eq!(order_ids(Some(&orders)), vec![text("a"), text("c")]);
    assert_eq!(order_ids(Some(&text("no array"))), vec![]);
    assert_eq!(order_ids(None), vec![]);
}

#[test]
fn view_summary_lists_field_and_row_ids() {
    let views = vec![(
        s("v1"),
        obj(vec![
            ("name", text("Grid")),
            ("field_orders", Json::Array(vec![obj(vec![("id", text("f1"))])])),
            ("row_orders", Json::Array(vec![obj(vec![("id", text("r1"))]), obj(vec![("id", text("r2"))])])),
        ]),
    )];
    assert_eq!(
        views_to_summary(&views),
        vec![obj(vec![
            ("viewId", text("v1")),
            ("name", text("Grid")),
            ("layout", Json::Number(s("0"))),
            ("fieldIds", Json::Array(vec![text("f1")])),
            ("rowIds", Json::Array(vec![text("r1"), text("r2")])),
        ])]
    );
}

#[test]
fn row_summary_takes_cells_of_data() {
    let row = obj(vec![("data", obj(vec![("cells", obj(vec![("f1", text("x"))]))]))]);
    assert_eq!(
        row_summary(&s("r1"), &row),
        obj(vec![("rowId", text("r1")), ("cells", obj(vec![("f1", text("x"))]))])
    );
    assert_eq!(row_summary(&s("r2"), &Json::Null), obj(vec![("rowId", text("r2")), ("cells", obj(vec![]))]));
}

#[test]
fn database_dto_from_decoded_documents() {
    let db = DecodedDatabase {
        database: obj(vec![(
            "database",
            obj(vec![
                ("id", text("db-1")),
                ("fields", obj(vec![("f1", obj(vec![("name", text("Name"))]))])),
                ("views", text("not an object")),
            ]),
        )]),
        rows: vec![(ROW, obj(vec![("data", obj(vec![("cells", obj(vec![]))]))]))],
        row_documents: vec![(ROW, obj(vec![("page_id", text("p"))]))],
        visible_database_view_ids: vec![VIEW],
        database_relations: vec![],
    };
    let dto = build_database_dto(VIEW, &db);
    assert_eq!(dto.database_id, s("db-1"));
    assert_eq!(dto.active_view_id, s("a1a2a3a4-b1b2-c1c2-d1d2-d3d4d5d6d7d8"));
    assert_eq!(dto.visible_view_ids, vec![s("a1a2a3a4-b1b2-c1c2-d1d2-d3d4d5d6d7d8")]);
    assert_eq!(dto.fields.len(), 1);
    assert_eq!(dto.views, vec![]);
    let row_id = s("00000001-0000-0000-0000-0000000000ff");
    assert_eq!(dto.rows, vec![obj(vec![("rowId", Json::Str(row_id.clone())), ("cells", obj(vec![]))])]);
    assert_eq!(dto.raw.rows.len(), 1);
    assert_eq!(dto.raw.rows[0].0, row_id);
    assert_eq!(
        dto.raw.row_documents,
        vec![(row_id, obj(vec![("data", obj(vec![("page_id", text("p"))]))]))]
    );
    assert_eq!(dto.raw.database.get(&s("id")), Some(&text("db-1")));
}

#[test]
fn database_dto_without_database_member_is_empty() {
    let db = DecodedDatabase {
        database: Json::Null,
        rows: vec![],
        row_documents: vec![],
        visible_database_view_ids: vec![],
        database_relations: vec![],
    };
    let dto = build_database_dto(0, &db);
    assert_eq!(dto.database_id, s(""));
    assert_eq!(dto.active_view_id, s("00000000-0000-0000-0000-000000000000"));
    assert_eq!(dto.raw.database, obj(vec![]));
    assert_eq!(dto.fields, vec![]);
    assert_eq!(dto.rows, vec![]);
}

#[test]
fn a_row_listed_twice_keeps_one_entry_with_the_later_dump() {
    let db = DecodedDatabase {
        database: Json::Null,
        rows: vec![(ROW, text("first")), (ROW, text("second"))],
        row_documents: vec![],
        visible_database_view_ids: vec![],
        database_relations: vec![],
    };
    let dto = build_database_dto(VIEW, &db);
    assert_eq!(dto.raw.rows, vec![(s("00000001-0000-0000-0000-0000000000ff"), text("second"))]);
    assert_eq!(dto.rows.len(), 1);
}

#[test]
fn setting_a_member_then_reading_it_gives_the_value() {
    let mut entries = vec![(s("a"), text("1")), (s("b"), text("2"))];
    object_insert(&mut entries, s("a"), text("3"));
    object_insert(&mut entries, s("c"), text("4"));
    let o = Json::Object(entries);
    assert_eq!(o.get(&s("a")), Some(&text("3")));
    assert_eq!(o.get(&s("b")), Some(&text("2")));
    assert_eq!(o.get(&s("c")), Some(&text("4")));
    assert_eq!(o.get(&s("d")), None);
    assert_eq!(o.as_object().unwrap().len(), 3);
}

#[test]
fn written_view_ids_read_back() {
    let dto = build_database_dto(VIEW, &DecodedDatabase {
        database: Json::Null,
        rows: vec![],
        row_documents: vec![],
        visible_database_view_ids: vec![],
        database_relations: vec![],
    });
    assert_eq!(uuid::Uuid::parse_str(&dto.active_view_id).unwrap().as_u128(), VIEW);
}
