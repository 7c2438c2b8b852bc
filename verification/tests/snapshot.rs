use appflowy_cloud::database::DecodedDatabase;
use appflowy_cloud::document::{Block, DocumentData, DocumentMeta};
use appflowy_cloud::dto::{IconType, PublishedPageSnapshotDto, ViewIcon, ViewLayout};
use appflowy_cloud::json::Json;
use appflowy_cloud::snapshot::{
    collab_not_found, content_kind, get_published_page_snapshot, ContentKind, DecodedContent, SnapshotError,
    ViewMetadata, SCHEMA_VERSION,
};

fn s(x: &str) -> String {
    x.to_string()
}

fn meta(layout: ViewLayout) -> ViewMetadata {
    ViewMetadata {
        view_id: s("view-1"),
        name: s("My page"),
        icon: Some(ViewIcon { ty: IconType::Emoji, value: s(":)") }),
        extra: None,
        layout,
    }
}

fn empty_db() -> DecodedDatabase {
    DecodedDatabase {
        database: Json::Null,
        rows: vec![],
        row_documents: vec![],
        visible_database_view_ids: vec![0x10],
        database_relations: vec![(0x20, 0x30)],
    }
}

#[test]
fn layouts_decide_the_content() {
    assert_eq!(content_kind(ViewLayout::Document), Ok(ContentKind::Document));
    assert_eq!(content_kind(ViewLayout::Grid), Ok(ContentKind::Database));
    assert_eq!(content_kind(ViewLayout::Board), Ok(ContentKind::Database));
    assert_eq!(content_kind(ViewLayout::Calendar), Ok(ContentKind::Database));
    assert_eq!(content_kind(ViewLayout::Chat), Err(SnapshotError::InvalidRequest(s("AI Chat cannot be published"))));
}

#[test]
fn chat_pages_are_refused() {
    let r = get_published_page_snapshot(&s("ns"), &s("name"), 1, &meta(ViewLayout::Chat), DecodedContent::Database(empty_db()));
    assert_eq!(r, Err(SnapshotError::InvalidRequest(s("AI Chat cannot be published"))));
}

#[test]
fn missing_collab_names_the_record() {
    assert_eq!(
        collab_not_found(&s("acme"), &s("roadmap")),
        SnapshotError::RecordNotFound(s("Published collab not found for namespace: acme, publish_name: roadmap"))
    );
}

#[test]
fn document_snapshot_wraps_data_and_renders_children() {
    let page = Block {
        id: s("page"),
        ty: s("page"),
        parent: s(""),
        children: s("page-children"),
        external_id: None,
        external_type: None,
        data: vec![],
    };
    let document = DocumentData {
        page_id: s("page"),
        blocks: vec![(s("page"), page)],
        meta: DocumentMeta { children_map: vec![], text_map: None },
    };
    let raw = Json::Object(vec![(s("page_id"), Json::Str(s("page")))]);
    let r = get_published_page_snapshot(
        &s("ns"),
        &s("name"),
        1,
        &meta(ViewLayout::Document),
        DecodedContent::Document { document, raw_data: raw.deep_clone() },
    )
    .unwrap();
    match r {
        PublishedPageSnapshotDto::Document { schema_version, namespace, publish_name, view, document } => {
            assert_eq!(schema_version, SCHEMA_VERSION);
            assert_eq!(schema_version, 1);
            assert_eq!(namespace, s("ns"));
            assert_eq!(publish_name, s("name"));
            assert_eq!(view.view_id, s("view-1"));
            assert_eq!(view.name, s("My page"));
            assert_eq!(view.icon, Some(ViewIcon { ty: IconType::Emoji, value: s(":)") }));
            assert_eq!(view.layout, ViewLayout::Document);
            assert!(view.child_views.is_empty() && view.ancestor_views.is_empty());
            assert!(view.visible_view_ids.is_empty() && view.database_relations.is_empty());
            assert_eq!(document.children, vec![]);
            assert_eq!(document.raw, Json::Object(vec![(s("data"), raw)]));
        },
        _ => panic!("expected a document snapshot"),
    }
}

#[test]
fn database_snapshot_shows_visible_views_and_relations() {
    let r = get_published_page_snapshot(&s("ns"), &s("name"), 0x10, &meta(ViewLayout::Board), DecodedContent::Database(empty_db()))
        .unwrap();
    match r {
        PublishedPageSnapshotDto::Database { schema_version, view, database, .. } => {
            assert_eq!(schema_version, 1);
            assert_eq!(view.layout, ViewLayout::Board);
            assert_eq!(view.visible_view_ids, vec![s("00000000-0000-0000-0000-000000000010")]);
            assert_eq!(view.visible_view_ids, database.visible_view_ids);
            assert_eq!(
                view.database_relations,
                vec![(s("00000000-0000-0000-0000-000000000020"), s("00000000-0000-0000-0000-000000000030"))]
            );
            assert_eq!(database.active_view_id, s("00000000-0000-0000-0000-000000000010"));
        },
        _ => panic!("expected a database snapshot"),
    }
}
