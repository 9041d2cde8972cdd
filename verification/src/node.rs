//! The rows of the bookmark tree and the shapes in which they are handed out.

use vstd::prelude::*;

verus! {

/// Folder or bookmark.
#[derive(Debug, Clone, Copy, PartialEq, Eq, Structural)]
pub enum NodeKind {
    Folder,
    Bookmark,
}

/// A flat node row: the unit in which a hidden vault is stored. Unlike [`Node`],
/// it carries every column with no omissions.
#[derive(Debug)]
pub struct NodeRow {
    pub id: i64,
    pub parent_id: Option<i64>,
    pub kind: NodeKind,
    pub title: String,
    pub url: Option<String>,
    pub position: i64,
    pub created: i64,
    pub modified: i64,
}

/// What a [`NodeRow`] holds, with text as sequences of characters.
#[verifier::ext_equal]
pub struct RowView {
    pub id: i64,
    pub parent_id: Option<i64>,
    pub kind: NodeKind,
    pub title: Seq<char>,
    pub url: Option<Seq<char>>,
    pub position: i64,
    pub created: i64,
    pub modified: i64,
}

/// The characters of an optional string.
pub open spec fn opt_text(s: Option<String>) -> Option<Seq<char>> {
    match s {
        Some(s) => Some(s@),
        None => None,
    }
}

impl View for NodeRow {
    type V = RowView;

    open spec fn view(&self) -> RowView {
        RowView {
            id: self.id,
            parent_id: self.parent_id,
            kind: self.kind,
            title: self.title@,
            url: opt_text(self.url),
            position: self.position,
            created: self.created,
            modified: self.modified,
        }
    }
}

/// A copy of an optional string.
pub fn clone_opt_text(s: &Option<String>) -> (r: Option<String>)
    ensures
        opt_text(r) == opt_text(*s),
{
    match s {
        Some(s) => Some(s.clone()),
        None => None,
    }
}

impl Clone for NodeRow {
    fn clone(&self) -> (r: Self)
        ensures
            r@ == self@,
    {
        NodeRow {
            id: self.id,
            parent_id: self.parent_id,
            kind: self.kind,
            title: self.title.clone(),
            url: clone_opt_text(&self.url),
            position: self.position,
            created: self.created,
            modified: self.modified,
        }
    }
}

/// One tree node, as returned to callers. `children` is filled only by
/// `Store::tree`; flat reads leave it empty.
#[derive(Debug)]
pub struct Node {
    pub id: i64,
    pub parent_id: Option<i64>,
    pub kind: NodeKind,
    pub title: String,
    pub url: Option<String>,
    pub position: i64,
    pub created: i64,
    pub modified: i64,
    pub children: Vec<Node>,
}

/// One row of the `nodes` table: the node and its `hidden` mark.
#[derive(Debug)]
pub struct TableRow {
    pub row: NodeRow,
    pub hidden: bool,
}

impl Clone for TableRow {
    fn clone(&self) -> (r: Self)
        ensures
            r.row@ == self.row@,
            r.hidden == self.hidden,
    {
        TableRow { row: self.row.clone(), hidden: self.hidden }
    }
}

} // verus!
