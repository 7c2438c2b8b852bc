use appflowy_cloud::document::{Block, DocumentData, DocumentMeta};
use appflowy_cloud::json::Json;
use appflowy_cloud::delta::{delta_to_slate_leaves, leaves_from_ops};
use appflowy_cloud::slate::{document_data_to_slate_children, try_document_data_to_slate_children};

fn s(x: &str) -> String {
    x.to_string()
}

fn at<'a>(j: &'a Json, key: &str) -> &'a Json {
    j.get(&key.to_string()).unwrap()
}

fn items(j: &Json) -> &Vec<Json> {
    j.as_array().unwrap()
}

fn text(x: &str) -> Json {
    Json::Str(x.to_string())
}

fn block(id: &str, ty: &str, parent: &str, children: &str, external_id: Option<&str>) -> Block {
    Block {
        id: s(id),
        ty: s(ty),
        parent: s(parent),
        children: s(children),
        external_id: external_id.map(|x| x.to_string()),
        external_type: external_id.map(|_| "text".to_string()),
        data: Vec::new(),
    }
}

fn delta_text(ops: Vec<serde_json::Value>) -> String {
    serde_json::to_string(&serde_json::Value::Array(ops)).unwrap()
}

fn op(insert: serde_json::Value, attributes: Option<Vec<(&str, serde_json::Value)>>) -> serde_json::Value {
    let mut m = serde_json::Map::new();
    m.insert("insert".to_string(), insert);
    if let Some(attrs) = attributes {
        let mut a = serde_json::Map::new();
        for (k, v) in attrs {
            a.insert(k.to_string(), v);
        }
        m.insert("attributes".to_string(), serde_json::Value::Object(a));
    }
    serde_json::Value::Object(m)
}

#[test]
fn converts_nested_paragraph_with_formatted_text_to_slate_children() {
    let blocks = vec![
        (s("page"), block("page", "page", "", "page-children", None)),
        (s("p1"), block("p1", "paragraph", "page", "p1-children", Some("p1-text"))),
        (s("p2"), block("p2", "paragraph", "p1", "p2-children", Some("p2-text"))),
    ];
    let children_map = vec![
        (s("page-children"), vec![s("p1")]),
        (s("p1-children"), vec![s("p2")]),
        (s("p2-children"), vec![]),
    ];
    let text_map = vec![
        (
            s("p1-text"),
            delta_text(vec![
                op(serde_json::Value::String(s("Hello ")), Some(vec![("bold", serde_json::Value::Bool(true))])),
                op(serde_json::Value::String(s("world")), None),
            ]),
        ),
        (s("p2-text"), delta_text(vec![])),
    ];
    let document = DocumentData {
        page_id: s("page"),
        blocks,
        meta: DocumentMeta { children_map, text_map: Some(text_map) },
    };

    let slate = document_data_to_slate_children(&document);

    assert_eq!(slate.len(), 1);
    let p1 = &slate[0];
    assert_eq!(at(p1, "type"), &text("paragraph"));
    assert_eq!(at(p1, "blockId"), &text("p1"));

    let p1_children = items(at(p1, "children"));
    // first child is the text node, second is the nested paragraph
    assert_eq!(at(&p1_children[0], "type"), &text("text"));
    let leaves = items(at(&p1_children[0], "children"));
    assert_eq!(at(&leaves[0], "text"), &text("Hello "));
    assert_eq!(at(&leaves[0], "bold"), &Json::Bool(true));
    assert_eq!(at(&leaves[1], "text"), &text("world"));

    let p2 = &p1_children[1];
    assert_eq!(at(p2, "type"), &text("paragraph"));
    assert_eq!(at(p2, "blockId"), &text("p2"));
    let p2_text_leaves = items(at(&items(at(p2, "children"))[0], "children"));
    // an empty delta falls back to a single empty leaf
    assert_eq!(p2_text_leaves.len(), 1);
    assert_eq!(at(&p2_text_leaves[0], "text"), &text(""));
}

#[test]
fn drops_non_string_insert_ops_in_delta() {
    let mut mention = serde_json::Map::new();
    mention.insert(s("mention"), serde_json::Value::String(s("user-1")));
    let delta = delta_text(vec![
        op(serde_json::Value::String(s("before ")), None),
        op(serde_json::Value::Object(mention), None),
        op(serde_json::Value::String(s("after")), None),
    ]);

    let leaves = delta_to_slate_leaves(Some(&delta));

    assert_eq!(leaves.len(), 2);
    assert_eq!(at(&leaves[0], "text"), &text("before "));
    assert_eq!(at(&leaves[1], "text"), &text("after"));
}

#[test]
fn missing_or_invalid_delta_gives_one_empty_leaf() {
    let empty_leaf = Json::Object(vec![(s("text"), text(""))]);
    assert_eq!(delta_to_slate_leaves(None), vec![empty_leaf.deep_clone()]);
    let not_json = s("not json");
    assert_eq!(delta_to_slate_leaves(Some(&not_json)), vec![empty_leaf.deep_clone()]);
    let not_array = s("{\"insert\": \"x\"}");
    assert_eq!(delta_to_slate_leaves(Some(&not_array)), vec![empty_leaf]);
}

#[test]
fn attributes_sit_beside_text_and_a_text_attribute_replaces_it() {
    let ops = vec![
        Json::Object(vec![
            (s("insert"), text("a")),
            (
                s("attributes"),
                Json::Object(vec![(s("text"), Json::Number(s("5"))), (s("italic"), Json::Bool(true))]),
            ),
        ]),
        Json::Object(vec![(s("insert"), Json::Null)]),
        Json::Str(s("not an op")),
        Json::Object(vec![(s("insert"), text("b")), (s("attributes"), Json::Bool(true))]),
    ];
    let leaves = leaves_from_ops(ops);
    assert_eq!(
        leaves,
        vec![
            Json::Object(vec![(s("text"), Json::Number(s("5"))), (s("italic"), Json::Bool(true))]),
            Json::Object(vec![(s("text"), text("b"))]),
        ]
    );
}

#[test]
fn numbers_in_a_delta_keep_their_text() {
    let delta = s("[{\"insert\":\"x\",\"attributes\":{\"size\":12.5,\"count\":-3}}]");
    let leaves = delta_to_slate_leaves(Some(&delta));
    assert_eq!(leaves.len(), 1);
    assert_eq!(at(&leaves[0], "size"), &Json::Number(s("12.5")));
    assert_eq!(at(&leaves[0], "count"), &Json::Number(s("-3")));
}

#[test]
fn element_carries_block_fields_and_skips_unknown_children() {
    let mut para = block("p1", "paragraph", "page", "p1-children", None);
    para.data = vec![(s("align"), text("center"))];
    let document = DocumentData {
        page_id: s("page"),
        blocks: vec![(s("page"), block("page", "page", "", "page-children", None)), (s("p1"), para)],
        meta: DocumentMeta {
            children_map: vec![(s("page-children"), vec![s("ghost"), s("p1")])],
            text_map: None,
        },
    };
    let slate = document_data_to_slate_children(&document);
    assert_eq!(
        slate,
        vec![Json::Object(vec![
            (s("type"), text("paragraph")),
            (s("blockId"), text("p1")),
            (s("relationId"), text("p1-children")),
            (s("data"), Json::Object(vec![(s("align"), text("center"))])),
            (s("children"), Json::Array(vec![])),
        ])]
    );
}

#[test]
fn document_without_page_block_has_no_children() {
    let document = DocumentData {
        page_id: s("page"),
        blocks: vec![],
        meta: DocumentMeta { children_map: vec![], text_map: None },
    };
    assert_eq!(document_data_to_slate_children(&document), vec![]);
}

#[test]
fn nesting_that_never_ends_is_reported() {
    let document = DocumentData {
        page_id: s("page"),
        blocks: vec![
            (s("page"), block("page", "page", "", "page-children", None)),
            (s("loop"), block("loop", "paragraph", "page", "page-children", None)),
        ],
        meta: DocumentMeta { children_map: vec![(s("page-children"), vec![s("loop")])], text_map: None },
    };
    assert_eq!(try_document_data_to_slate_children(&document), None);
}

#[test]
fn nesting_as_deep_as_the_document_is_built() {
    let document = DocumentData {
        page_id: s("page"),
        blocks: vec![
            (s("page"), block("page", "page", "", "c0", None)),
            (s("a"), block("a", "paragraph", "page", "c1", None)),
            (s("b"), block("b", "paragraph", "a", "c2", None)),
        ],
        meta: DocumentMeta {
            children_map: vec![(s("c0"), vec![s("a")]), (s("c1"), vec![s("b")])],
            text_map: None,
        },
    };
    let slate = try_document_data_to_slate_children(&document).unwrap();
    assert_eq!(slate.len(), 1);
    let a = &slate[0];
    assert_eq!(at(a, "blockId"), &text("a"));
    let b = &items(at(a, "children"))[0];
    assert_eq!(at(b, "blockId"), &text("b"));
    assert_eq!(items(at(b, "children")).len(), 0);
}

fn collect_block_ids(nodes: &[Json], out: &mut Vec<String>) {
    for n in nodes {
        if let Some(Json::Str(id)) = n.get(&s("blockId")) {
            out.push(id.clone());
            if let Some(c) = n.get(&s("children")) {
                collect_block_ids(c.as_array().unwrap(), out);
            }
        }
    }
}

#[test]
fn every_block_below_the_page_appears_once_in_order() {
    let document = DocumentData {
        page_id: s("page"),
        blocks: vec![
            (s("page"), block("page", "page", "", "c-page", None)),
            (s("a"), block("a", "paragraph", "page", "c-a", Some("t-a"))),
            (s("b"), block("b", "paragraph", "page", "c-b", None)),
            (s("c"), block("c", "paragraph", "a", "c-c", None)),
        ],
        meta: DocumentMeta {
            children_map: vec![(s("c-page"), vec![s("a"), s("b")]), (s("c-a"), vec![s("c")])],
            text_map: Some(vec![]),
        },
    };
    let slate = document_data_to_slate_children(&document);
    let mut ids = Vec::new();
    collect_block_ids(&slate, &mut ids);
    assert_eq!(ids, vec![s("a"), s("c"), s("b")]);
    let a_children = items(at(&slate[0], "children"));
    assert_eq!(at(&a_children[0], "textId"), &text("t-a"));
    assert!(a_children[1].get(&s("textId")).is_none());
    assert!(items(at(&slate[1], "children")).iter().all(|c| c.get(&s("textId")).is_none()));
}

#[test]
fn leaf_texts_join_to_the_inserted_text() {
    let delta = s("[{\"insert\":\"ab\"},{\"insert\":7},{\"insert\":\"cd\",\"attributes\":{\"bold\":true}}]");
    let leaves = delta_to_slate_leaves(Some(&delta));
    assert_eq!(leaves.len(), 2);
    let joined: String = leaves
        .iter()
        .map(|l| match l.get(&s("text")) {
            Some(Json::Str(t)) => t.clone(),
            _ => String::new(),
        })
        .collect();
    assert_eq!(joined, s("abcd"));
}
