//! A document's block tree, held as plain values.

use vstd::prelude::*;
use crate::json::{Json, JsonV, entry_views};

verus! {

/// One block of a document.
#[derive(Debug, PartialEq)]
pub struct Block {
    pub id: String,
    pub ty: String,
    pub parent: String,
    /// The key, in the children map, of this block's children.
    pub children: String,
    /// The key, in the text map, of this block's text.
    pub external_id: Option<String>,
    pub external_type: Option<String>,
    pub data: Vec<(String, Json)>,
}

/// The maps beside a document's blocks.
#[derive(Debug, PartialEq)]
pub struct DocumentMeta {
    /// For each children key, the ids of the child blocks in order.
    pub children_map: Vec<(String, Vec<String>)>,
    /// For each text id, the text's delta as JSON text.
    pub text_map: Option<Vec<(String, String)>>,
}

/// A document: its page block, its blocks by id, and its maps.
/// Each collection is keyed by strings; a lookup takes the first entry
/// with the key.
#[derive(Debug, PartialEq)]
pub struct DocumentData {
    pub page_id: String,
    pub blocks: Vec<(String, Block)>,
    pub meta: DocumentMeta,
}

/// The view of a block.
pub struct BlockV {
    pub id: Seq<char>,
    pub ty: Seq<char>,
    pub parent: Seq<char>,
    pub children: Seq<char>,
    pub external_id: Option<Seq<char>>,
    pub external_type: Option<Seq<char>>,
    pub data: Seq<(Seq<char>, JsonV)>,
}

/// The view of a document.
pub struct DocumentV {
    pub page_id: Seq<char>,
    pub blocks: Seq<(Seq<char>, BlockV)>,
    pub children_map: Seq<(Seq<char>, Seq<Seq<char>>)>,
    pub text_map: Option<Seq<(Seq<char>, Seq<char>)>>,
}

/// The view of an optional string.
pub open spec fn opt_str_view(s: Option<String>) -> Option<Seq<char>> {
    match s {
        Some(s) => Some(s@),
        None => None,
    }
}

/// The views of a sequence of strings.
pub open spec fn strings_view(s: Seq<String>) -> Seq<Seq<char>> {
    s.map_values(|x: String| x@)
}

impl View for Block {
    type V = BlockV;

    open spec fn view(&self) -> BlockV {
        BlockV {
            id: self.id@,
            ty: self.ty@,
            parent: self.parent@,
            children: self.children@,
            external_id: opt_str_view(self.external_id),
            external_type: opt_str_view(self.external_type),
            data: entry_views(self.data@),
        }
    }
}

impl View for DocumentData {
    type V = DocumentV;

    open spec fn view(&self) -> DocumentV {
        DocumentV {
            page_id: self.page_id@,
            blocks: self.blocks@.map_values(|e: (String, Block)| (e.0@, e.1@)),
            children_map: self.meta.children_map@.map_values(
                |e: (String, Vec<String>)| (e.0@, strings_view(e.1@)),
            ),
            text_map: match self.meta.text_map {
                Some(tm) => Some(tm@.map_values(|e: (String, String)| (e.0@, e.1@))),
                None => None,
            },
        }
    }
}

} // verus!
