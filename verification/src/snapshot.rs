//! The snapshot of a published page: what the public link of a page renders.

use vstd::prelude::*;
use crate::json::{Json, JsonV, entry_views, json_views, lemma_assoc_get_at, lemma_entry_views};
use crate::document::{DocumentData, opt_str_view, strings_view};
use crate::dto::{
    PublishedDocumentDto, PublishedDocumentDtoV, PublishedPageSnapshotDto, PublishedPageSnapshotDtoV, PublishedViewDto,
    PublishedViewDtoV, ViewIcon, ViewIconV, ViewLayout, opt_icon_view, string_pairs_view,
};
use crate::database::{DecodedDatabase, DecodedDatabaseV, build_database_dto, database_dto, wrapped_data};
use crate::slate::{
    depth_bound, document_data_to_slate_children, document_preorder, document_slate, lemma_nesting_ends,
    lemma_slate_block_ids, nesting_ends, nodes_block_ids,
};
use crate::ids::{uuid_text, uuid_to_string};

verus! {

/// The version of the snapshot's schema.
pub const SCHEMA_VERSION: u8 = 1;

/// Why a snapshot cannot be had.
#[derive(Debug, PartialEq)]
pub enum SnapshotError {
    /// The published record has no collaborative document.
    RecordNotFound(String),
    /// The page cannot be published.
    InvalidRequest(String),
}

/// The view of a snapshot error.
pub enum SnapshotErrorV {
    RecordNotFound(Seq<char>),
    InvalidRequest(Seq<char>),
}

impl View for SnapshotError {
    type V = SnapshotErrorV;

    open spec fn view(&self) -> SnapshotErrorV {
        match self {
            SnapshotError::RecordNotFound(m) => SnapshotErrorV::RecordNotFound(m@),
            SnapshotError::InvalidRequest(m) => SnapshotErrorV::InvalidRequest(m@),
        }
    }
}

/// What the published collaborative document says of the view it belongs to.
#[derive(Debug, PartialEq)]
pub struct ViewMetadata {
    pub view_id: String,
    pub name: String,
    pub icon: Option<ViewIcon>,
    pub extra: Option<String>,
    pub layout: ViewLayout,
}

/// The view of a view's metadata.
pub struct ViewMetadataV {
    pub view_id: Seq<char>,
    pub name: Seq<char>,
    pub icon: Option<ViewIconV>,
    pub extra: Option<Seq<char>>,
    pub layout: ViewLayout,
}

impl View for ViewMetadata {
    type V = ViewMetadataV;

    open spec fn view(&self) -> ViewMetadataV {
        ViewMetadataV {
            view_id: self.view_id@,
            name: self.name@,
            icon: opt_icon_view(self.icon),
            extra: opt_str_view(self.extra),
            layout: self.layout,
        }
    }
}

/// What a page's collaborative document holds, decoded as its layout asks:
/// a document with its data as JSON, or a database.
#[derive(Debug, PartialEq)]
pub enum DecodedContent {
    Document { document: DocumentData, raw_data: Json },
    Database(DecodedDatabase),
}

/// The kind of content that a layout publishes.
#[derive(PartialEq, Eq, Structural, Clone, Copy, Debug)]
pub enum ContentKind {
    Document,
    Database,
}

/// The message for a page whose layout cannot be published.
pub open spec fn chat_message() -> Seq<char> {
    "AI Chat cannot be published"@
}

/// The message for a published record without a collaborative document.
pub open spec fn not_found_message(namespace: Seq<char>, publish_name: Seq<char>) -> Seq<char> {
    "Published collab not found for namespace: "@ + namespace + ", publish_name: "@ + publish_name
}

/// The kind of content a layout publishes: a document, a database for the
/// grid, board and calendar layouts; an AI chat cannot be published.
pub open spec fn content_kind_of(layout: ViewLayout) -> Result<ContentKind, SnapshotErrorV> {
    match layout {
        ViewLayout::Document => Ok(ContentKind::Document),
        ViewLayout::Grid | ViewLayout::Board | ViewLayout::Calendar => Ok(ContentKind::Database),
        ViewLayout::Chat => Err(SnapshotErrorV::InvalidRequest(chat_message())),
    }
}

/// The published view of a page's metadata, with the given visible views and
/// database relations; child and ancestor views are empty.
pub open spec fn view_dto(
    meta: ViewMetadataV,
    visible_view_ids: Seq<Seq<char>>,
    database_relations: Seq<(Seq<char>, Seq<char>)>,
) -> PublishedViewDtoV {
    PublishedViewDtoV {
        view_id: meta.view_id,
        name: meta.name,
        icon: meta.icon,
        extra: meta.extra,
        layout: meta.layout,
        child_views: Seq::empty(),
        ancestor_views: Seq::empty(),
        visible_view_ids,
        database_relations,
    }
}

/// The texts of related databases' views, pair by pair.
pub open spec fn relations_text(relations: Seq<(u128, u128)>) -> Seq<(Seq<char>, Seq<char>)> {
    relations.map_values(|p: (u128, u128)| (uuid_text(p.0), uuid_text(p.1)))
}

/// The snapshot of a published document page.
pub open spec fn document_snapshot(
    namespace: Seq<char>,
    publish_name: Seq<char>,
    meta: ViewMetadataV,
    children: Seq<JsonV>,
    raw_data: JsonV,
) -> PublishedPageSnapshotDtoV {
    PublishedPageSnapshotDtoV::Document {
        schema_version: 1,
        namespace,
        publish_name,
        view: view_dto(meta, Seq::empty(), Seq::empty()),
        document: PublishedDocumentDtoV { children, raw: wrapped_data(raw_data) },
    }
}

/// The snapshot of a published database page for the view `view_id`; the
/// view's visible views are the database's.
pub open spec fn database_snapshot(
    namespace: Seq<char>,
    publish_name: Seq<char>,
    view_id: u128,
    meta: ViewMetadataV,
    db: DecodedDatabaseV,
) -> PublishedPageSnapshotDtoV {
    let database = database_dto(view_id, db);
    PublishedPageSnapshotDtoV::Database {
        schema_version: 1,
        namespace,
        publish_name,
        view: view_dto(meta, database.visible_view_ids, relations_text(db.database_relations)),
        database,
    }
}

/// The content decoded for a page matches what its layout publishes.
pub open spec fn content_fits(layout: ViewLayout, content: DecodedContent) -> bool {
    match content_kind_of(layout) {
        Ok(ContentKind::Document) => content is Document,
        Ok(ContentKind::Database) => content is Database,
        Err(_) => true,
    }
}

/// The document of decoded content ends within its own size, where it is one.
pub open spec fn content_ends(content: DecodedContent) -> bool {
    match content {
        DecodedContent::Document { document, raw_data } => nesting_ends(document@),
        DecodedContent::Database(_) => true,
    }
}

/// The snapshot of a page, as its layout and decoded content give it.
pub open spec fn page_snapshot(
    namespace: Seq<char>,
    publish_name: Seq<char>,
    view_id: u128,
    meta: ViewMetadataV,
    content: DecodedContent,
) -> Result<PublishedPageSnapshotDtoV, SnapshotErrorV> {
    match content_kind_of(meta.layout) {
        Err(e) => Err(e),
        Ok(_) => match content {
            DecodedContent::Document { document, raw_data } => Ok(
                document_snapshot(
                    namespace,
                    publish_name,
                    meta,
                    document_slate(document@, depth_bound(document@)).unwrap(),
                    raw_data@,
                ),
            ),
            DecodedContent::Database(db) => Ok(
                database_snapshot(namespace, publish_name, view_id, meta, db@),
            ),
        },
    }
}

/// The view of a snapshot result.
pub open spec fn snapshot_result_view(
    r: Result<PublishedPageSnapshotDto, SnapshotError>,
) -> Result<PublishedPageSnapshotDtoV, SnapshotErrorV> {
    match r {
        Ok(s) => Ok(s@),
        Err(e) => Err(e@),
    }
}

/// The view of a content-kind result.
pub open spec fn kind_result_view(r: Result<ContentKind, SnapshotError>) -> Result<ContentKind, SnapshotErrorV> {
    match r {
        Ok(k) => Ok(k),
        Err(e) => Err(e@),
    }
}

/// Decides what content a layout publishes: a document, or a database for
/// the grid, board and calendar layouts. An AI chat is refused.
pub fn content_kind(layout: ViewLayout) -> (r: Result<ContentKind, SnapshotError>)
    ensures
        kind_result_view(r) == content_kind_of(layout),
{
    match layout {
        ViewLayout::Document => Ok(ContentKind::Document),
        ViewLayout::Grid | ViewLayout::Board | ViewLayout::Calendar => Ok(ContentKind::Database),
        ViewLayout::Chat => Err(SnapshotError::InvalidRequest(String::from_str("AI Chat cannot be published"))),
    }
}

/// The error for a published record that has no collaborative document,
/// naming the namespace and the publish name.
pub fn collab_not_found(namespace: &String, publish_name: &String) -> (r: SnapshotError)
    ensures
        r@ == SnapshotErrorV::RecordNotFound(not_found_message(namespace@, publish_name@)),
{
    let mut m = String::from_str("Published collab not found for namespace: ");
    m.append(namespace.as_str());
    m.append(", publish_name: ");
    m.append(publish_name.as_str());
    SnapshotError::RecordNotFound(m)
}

/// A copy of an optional icon.
fn clone_icon(icon: &Option<ViewIcon>) -> (r: Option<ViewIcon>)
    ensures
        opt_icon_view(r) == opt_icon_view(*icon),
{
    match icon {
        Some(i) => Some(ViewIcon { ty: i.ty, value: i.value.clone() }),
        None => None,
    }
}

/// A copy of an optional string.
fn clone_opt_string(s: &Option<String>) -> (r: Option<String>)
    ensures
        opt_str_view(r) == opt_str_view(*s),
{
    match s {
        Some(x) => Some(x.clone()),
        None => None,
    }
}

/// The published view of a page's metadata.
fn make_view_dto(
    meta: &ViewMetadata,
    visible_view_ids: Vec<String>,
    database_relations: Vec<(String, String)>,
) -> (r: PublishedViewDto)
    ensures
        r@ == view_dto(meta@, strings_view(visible_view_ids@), string_pairs_view(database_relations@)),
{
    let child_views: Vec<Json> = Vec::new();
    let ancestor_views: Vec<Json> = Vec::new();
    assert(json_views(child_views@) =~= Seq::empty());
    assert(json_views(ancestor_views@) =~= Seq::empty());
    PublishedViewDto {
        view_id: meta.view_id.clone(),
        name: meta.name.clone(),
        icon: clone_icon(&meta.icon),
        extra: clone_opt_string(&meta.extra),
        layout: meta.layout,
        child_views,
        ancestor_views,
        visible_view_ids,
        database_relations,
    }
}

/// The texts of related databases' views.
fn relations_to_strings(relations: &Vec<(u128, u128)>) -> (r: Vec<(String, String)>)
    ensures
        string_pairs_view(r@) == relations_text(relations@),
{
    let mut out: Vec<(String, String)> = Vec::new();
    let mut i: usize = 0;
    while i < relations.len()
        invariant
            i <= relations.len(),
            string_pairs_view(out@) == relations_text(relations@.subrange(0, i as int)),
        decreases relations.len() - i,
    {
        let p = (uuid_to_string(relations[i].0), uuid_to_string(relations[i].1));
        let ghost prev = out@;
        out.push(p);
        proof {
            assert(string_pairs_view(out@) =~= string_pairs_view(prev).push((p.0@, p.1@)));
            assert(relations_text(relations@.subrange(0, i + 1)) =~= relations_text(
                relations@.subrange(0, i as int),
            ).push((uuid_text(relations@[i as int].0), uuid_text(relations@[i as int].1))));
        }
        i = i + 1;
    }
    assert(relations@.subrange(0, relations.len() as int) =~= relations@);
    out
}

/// Builds the snapshot of a published page from its metadata and its content,
/// decoded as its layout asks: for a document, the Slate nodes of its page and
/// its data under `data`; for a grid, board or calendar, the database of the
/// view `view_id`, whose visible views and relations the view also shows. An AI
/// chat is refused with an invalid-request error.
pub fn get_published_page_snapshot(
    namespace: &String,
    publish_name: &String,
    view_id: u128,
    meta: &ViewMetadata,
    content: DecodedContent,
) -> (r: Result<PublishedPageSnapshotDto, SnapshotError>)
    requires
        content_fits(meta.layout, content),
        content_ends(content),
    ensures
        snapshot_result_view(r) == page_snapshot(namespace@, publish_name@, view_id, meta@, content),
        meta.layout != ViewLayout::Chat ==> match content {
            DecodedContent::Document { document: doc, raw_data } => r matches Ok(
                PublishedPageSnapshotDto::Document { document: out, .. },
            ) && Some(json_views(out.children@)) == document_slate(doc@, depth_bound(doc@)) && out.raw@.get("data"@)
                == Some(raw_data@),
            DecodedContent::Database(_) => r matches Ok(PublishedPageSnapshotDto::Database { .. }),
        },
{
    match content_kind(meta.layout) {
        Err(e) => {
            return Err(e);
        },
        Ok(_) => {},
    }
    match content {
        DecodedContent::Document { document, raw_data } => {
            let children = document_data_to_slate_children(&document);
            let raw_entries = vec![(String::from_str("data"), raw_data)];
            proof {
                lemma_entry_views(raw_entries@);
                assert(entry_views(raw_entries@) =~= seq![("data"@, raw_data@)]);
            }
            proof {
                lemma_assoc_get_at(seq![("data"@, raw_data@)], "data"@, 0);
            }
            let view = make_view_dto(meta, Vec::new(), Vec::new());
            assert(strings_view(Seq::<String>::empty()) =~= Seq::empty());
            assert(string_pairs_view(Seq::<(String, String)>::empty()) =~= Seq::empty());
            Ok(
                PublishedPageSnapshotDto::Document {
                    schema_version: SCHEMA_VERSION,
                    namespace: namespace.clone(),
                    publish_name: publish_name.clone(),
                    view,
                    document: PublishedDocumentDto { children, raw: Json::Object(raw_entries) },
                },
            )
        },
        DecodedContent::Database(db) => {
            let database = build_database_dto(view_id, &db);
            let visible = database.visible_view_ids.clone();
            let relations = relations_to_strings(&db.database_relations);
            let view = make_view_dto(meta, visible, relations);
            Ok(
                PublishedPageSnapshotDto::Database {
                    schema_version: SCHEMA_VERSION,
                    namespace: namespace.clone(),
                    publish_name: publish_name.clone(),
                    view,
                    database,
                },
            )
        },
    }
}

/// An AI chat page is never published, whatever its content.
pub proof fn lemma_chat_refused(
    namespace: Seq<char>,
    publish_name: Seq<char>,
    view_id: u128,
    meta: ViewMetadataV,
    content: DecodedContent,
)
    requires
        meta.layout == ViewLayout::Chat,
    ensures
        page_snapshot(namespace, publish_name, view_id, meta, content) == Err::<PublishedPageSnapshotDtoV, SnapshotErrorV>(
            SnapshotErrorV::InvalidRequest(chat_message()),
        ),
{
}

/// Every other layout is published, under schema version 1, with the
/// namespace, publish name and the view's id, name, icon, extra and layout it
/// was asked for, and without child or ancestor views.
pub proof fn lemma_snapshot_echoes_request(
    namespace: Seq<char>,
    publish_name: Seq<char>,
    view_id: u128,
    meta: ViewMetadataV,
    content: DecodedContent,
)
    requires
        meta.layout != ViewLayout::Chat,
    ensures
        page_snapshot(namespace, publish_name, view_id, meta, content) matches Ok(snap) && match snap {
            PublishedPageSnapshotDtoV::Document { schema_version, namespace: ns, publish_name: pn, view, document } =>
                schema_version == 1 && ns == namespace && pn == publish_name && view.view_id == meta.view_id
                && view.name == meta.name && view.icon == meta.icon && view.extra == meta.extra
                && view.layout == meta.layout && view.child_views.len() == 0 && view.ancestor_views.len() == 0,
            PublishedPageSnapshotDtoV::Database { schema_version, namespace: ns, publish_name: pn, view, database } =>
                schema_version == 1 && ns == namespace && pn == publish_name && view.view_id == meta.view_id
                && view.name == meta.name && view.icon == meta.icon && view.extra == meta.extra
                && view.layout == meta.layout && view.child_views.len() == 0 && view.ancestor_views.len() == 0
                && view.visible_view_ids == database.visible_view_ids,
        },
{
}

/// A document page publishes the Slate nodes of its decoded document, one
/// element for each block below the page in document order, and the
/// document's data under `data`.
pub proof fn lemma_document_page_published(
    namespace: Seq<char>,
    publish_name: Seq<char>,
    view_id: u128,
    meta: ViewMetadataV,
    document: DocumentData,
    raw_data: Json,
)
    requires
        meta.layout != ViewLayout::Chat,
        nesting_ends(document@),
    ensures
        page_snapshot(namespace, publish_name, view_id, meta, DecodedContent::Document { document, raw_data }) matches Ok(
            PublishedPageSnapshotDtoV::Document { document: out, .. },
        ) && Some(out.children) == document_slate(document@, depth_bound(document@))
            && nodes_block_ids(out.children) == document_preorder(document@)
            && out.raw.get("data"@) == Some(raw_data@),
{
    lemma_nesting_ends(document@);
    lemma_slate_block_ids(document@);
    lemma_assoc_get_at(seq![("data"@, raw_data@)], "data"@, 0);
}

} // verus!
