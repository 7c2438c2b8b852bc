//! The snapshot of a published page that the web client renders.

use vstd::prelude::*;
use crate::json::{Json, JsonV, entry_views, json_views};
use crate::document::{opt_str_view, strings_view};

verus! {

/// The layout of a view.
#[derive(PartialEq, Eq, Structural, Clone, Copy, Debug)]
pub enum ViewLayout {
    Document,
    Grid,
    Board,
    Calendar,
    Chat,
}

/// The kind of a view's icon.
#[derive(PartialEq, Eq, Structural, Clone, Copy, Debug)]
pub enum IconType {
    Emoji,
    Url,
    Icon,
}

/// The icon of a view.
#[derive(Debug, PartialEq)]
pub struct ViewIcon {
    pub ty: IconType,
    pub value: String,
}

/// The view of an icon.
pub struct ViewIconV {
    pub ty: IconType,
    pub value: Seq<char>,
}

impl View for ViewIcon {
    type V = ViewIconV;

    open spec fn view(&self) -> ViewIconV {
        ViewIconV { ty: self.ty, value: self.value@ }
    }
}

/// The view of an optional icon.
pub open spec fn opt_icon_view(i: Option<ViewIcon>) -> Option<ViewIconV> {
    match i {
        Some(i) => Some(i@),
        None => None,
    }
}

/// The views of a sequence of string pairs.
pub open spec fn string_pairs_view(s: Seq<(String, String)>) -> Seq<(Seq<char>, Seq<char>)> {
    s.map_values(|e: (String, String)| (e.0@, e.1@))
}

/// The published view: what the page shows of the view it publishes.
/// `child_views` and `ancestor_views` are left empty: the client reads the
/// outline from elsewhere and falls back to these only when that fails.
#[derive(Debug, PartialEq)]
pub struct PublishedViewDto {
    pub view_id: String,
    pub name: String,
    pub icon: Option<ViewIcon>,
    pub extra: Option<String>,
    pub layout: ViewLayout,
    pub child_views: Vec<Json>,
    pub ancestor_views: Vec<Json>,
    pub visible_view_ids: Vec<String>,
    pub database_relations: Vec<(String, String)>,
}

/// The view of a published view.
pub struct PublishedViewDtoV {
    pub view_id: Seq<char>,
    pub name: Seq<char>,
    pub icon: Option<ViewIconV>,
    pub extra: Option<Seq<char>>,
    pub layout: ViewLayout,
    pub child_views: Seq<JsonV>,
    pub ancestor_views: Seq<JsonV>,
    pub visible_view_ids: Seq<Seq<char>>,
    pub database_relations: Seq<(Seq<char>, Seq<char>)>,
}

impl View for PublishedViewDto {
    type V = PublishedViewDtoV;

    open spec fn view(&self) -> PublishedViewDtoV {
        PublishedViewDtoV {
            view_id: self.view_id@,
            name: self.name@,
            icon: opt_icon_view(self.icon),
            extra: opt_str_view(self.extra),
            layout: self.layout,
            child_views: json_views(self.child_views@),
            ancestor_views: json_views(self.ancestor_views@),
            visible_view_ids: strings_view(self.visible_view_ids@),
            database_relations: string_pairs_view(self.database_relations@),
        }
    }
}

/// The document of a published page: the Slate nodes the editor renders, and
/// the document's data as JSON.
#[derive(Debug, PartialEq)]
pub struct PublishedDocumentDto {
    pub children: Vec<Json>,
    pub raw: Json,
}

/// The view of a published document.
pub struct PublishedDocumentDtoV {
    pub children: Seq<JsonV>,
    pub raw: JsonV,
}

impl View for PublishedDocumentDto {
    type V = PublishedDocumentDtoV;

    open spec fn view(&self) -> PublishedDocumentDtoV {
        PublishedDocumentDtoV { children: json_views(self.children@), raw: self.raw@ }
    }
}

/// The JSON dumps of a published database: the database itself, and each
/// row and row document by row id.
#[derive(Debug, PartialEq)]
pub struct PublishedDatabaseRawDto {
    pub database: Json,
    pub rows: Vec<(String, Json)>,
    pub row_documents: Vec<(String, Json)>,
}

/// The view of the JSON dumps of a published database.
pub struct PublishedDatabaseRawDtoV {
    pub database: JsonV,
    pub rows: Seq<(Seq<char>, JsonV)>,
    pub row_documents: Seq<(Seq<char>, JsonV)>,
}

impl View for PublishedDatabaseRawDto {
    type V = PublishedDatabaseRawDtoV;

    open spec fn view(&self) -> PublishedDatabaseRawDtoV {
        PublishedDatabaseRawDtoV {
            database: self.database@,
            rows: entry_views(self.rows@),
            row_documents: entry_views(self.row_documents@),
        }
    }
}

/// The database of a published page: its id, the active and visible views,
/// summaries of its fields, views and rows, and the raw dumps.
#[derive(Debug, PartialEq)]
pub struct PublishedDatabaseDto {
    pub database_id: String,
    pub active_view_id: String,
    pub visible_view_ids: Vec<String>,
    pub fields: Vec<Json>,
    pub views: Vec<Json>,
    pub rows: Vec<Json>,
    pub raw: PublishedDatabaseRawDto,
}

/// The view of a published database.
pub struct PublishedDatabaseDtoV {
    pub database_id: Seq<char>,
    pub active_view_id: Seq<char>,
    pub visible_view_ids: Seq<Seq<char>>,
    pub fields: Seq<JsonV>,
    pub views: Seq<JsonV>,
    pub rows: Seq<JsonV>,
    pub raw: PublishedDatabaseRawDtoV,
}

impl View for PublishedDatabaseDto {
    type V = PublishedDatabaseDtoV;

    open spec fn view(&self) -> PublishedDatabaseDtoV {
        PublishedDatabaseDtoV {
            database_id: self.database_id@,
            active_view_id: self.active_view_id@,
            visible_view_ids: strings_view(self.visible_view_ids@),
            fields: json_views(self.fields@),
            views: json_views(self.views@),
            rows: json_views(self.rows@),
            raw: self.raw@,
        }
    }
}

/// The snapshot of a published page: a document or a database.
#[derive(Debug, PartialEq)]
pub enum PublishedPageSnapshotDto {
    Document {
        schema_version: u8,
        namespace: String,
        publish_name: String,
        view: PublishedViewDto,
        document: PublishedDocumentDto,
    },
    Database {
        schema_version: u8,
        namespace: String,
        publish_name: String,
        view: PublishedViewDto,
        database: PublishedDatabaseDto,
    },
}

/// The view of a page snapshot.
pub enum PublishedPageSnapshotDtoV {
    Document {
        schema_version: u8,
        namespace: Seq<char>,
        publish_name: Seq<char>,
        view: PublishedViewDtoV,
        document: PublishedDocumentDtoV,
    },
    Database {
        schema_version: u8,
        namespace: Seq<char>,
        publish_name: Seq<char>,
        view: PublishedViewDtoV,
        database: PublishedDatabaseDtoV,
    },
}

impl View for PublishedPageSnapshotDto {
    type V = PublishedPageSnapshotDtoV;

    open spec fn view(&self) -> PublishedPageSnapshotDtoV {
        match self {
            PublishedPageSnapshotDto::Document { schema_version, namespace, publish_name, view, document } =>
                PublishedPageSnapshotDtoV::Document {
                schema_version: *schema_version,
                namespace: namespace@,
                publish_name: publish_name@,
                view: view@,
                document: document@,
            },
            PublishedPageSnapshotDto::Database { schema_version, namespace, publish_name, view, database } =>
                PublishedPageSnapshotDtoV::Database {
                schema_version: *schema_version,
                namespace: namespace@,
                publish_name: publish_name@,
                view: view@,
                database: database@,
            },
        }
    }
}

} // verus!
