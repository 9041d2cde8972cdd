//! Errors of the store, and their texts.

use vstd::prelude::*;

verus! {

/// Errors from store operations.
#[derive(Debug)]
pub enum StoreError {
    /// No data directory could be resolved (e.g. HOME unset).
    NoDataDir,
    /// The data directory could not be created.
    Io(String),
    /// The database failed.
    Sqlite(String),
    /// No node with this id exists.
    NotFound(i64),
    /// Expected a folder but the node is a bookmark.
    NotAFolder(i64),
    /// A move would make a folder its own ancestor.
    CycleDetected,
    /// A required argument was missing or invalid.
    InvalidArg(String),
    /// Attempted to rename, move or delete the root folder.
    CannotModifyRoot,
    /// The operation would nest folders beyond the maximum allowed depth.
    MaxDepthExceeded,
    /// The store is structurally invalid (e.g. the root is missing).
    CorruptStore(&'static str),
    /// A decrypted vault is structurally invalid; it is never written back.
    CorruptVault(&'static str),
}

/// What a [`StoreError`] holds, with text as sequences of characters.
#[verifier::ext_equal]
pub enum StoreErrorView {
    NoDataDir,
    Io(Seq<char>),
    Sqlite(Seq<char>),
    NotFound(i64),
    NotAFolder(i64),
    CycleDetected,
    InvalidArg(Seq<char>),
    CannotModifyRoot,
    MaxDepthExceeded,
    CorruptStore(Seq<char>),
    CorruptVault(Seq<char>),
}

impl View for StoreError {
    type V = StoreErrorView;

    open spec fn view(&self) -> StoreErrorView {
        match self {
            StoreError::NoDataDir => StoreErrorView::NoDataDir,
            StoreError::Io(m) => StoreErrorView::Io(m@),
            StoreError::Sqlite(m) => StoreErrorView::Sqlite(m@),
            StoreError::NotFound(id) => StoreErrorView::NotFound(*id),
            StoreError::NotAFolder(id) => StoreErrorView::NotAFolder(*id),
            StoreError::CycleDetected => StoreErrorView::CycleDetected,
            StoreError::InvalidArg(m) => StoreErrorView::InvalidArg(m@),
            StoreError::CannotModifyRoot => StoreErrorView::CannotModifyRoot,
            StoreError::MaxDepthExceeded => StoreErrorView::MaxDepthExceeded,
            StoreError::CorruptStore(m) => StoreErrorView::CorruptStore(m@),
            StoreError::CorruptVault(m) => StoreErrorView::CorruptVault(m@),
        }
    }
}

/// The text of an error.
pub open spec fn error_text(e: StoreErrorView) -> Seq<char> {
    match e {
        StoreErrorView::NoDataDir
            => "could not resolve a data directory (is HOME/XDG_DATA_HOME set?)"@,
        StoreErrorView::Io(m) => "creating data directory: "@ + m,
        StoreErrorView::Sqlite(m) => "database error: "@ + m,
        StoreErrorView::NotFound(id) => "no node with id "@ + crate::text::decimal(id as int),
        StoreErrorView::NotAFolder(id) => "node "@ + crate::text::decimal(id as int)
            + " is not a folder"@,
        StoreErrorView::CycleDetected => "cannot move a folder into itself or its own descendant"@,
        StoreErrorView::InvalidArg(m) => m,
        StoreErrorView::CannotModifyRoot => "the root folder cannot be modified"@,
        StoreErrorView::MaxDepthExceeded => "maximum folder nesting depth ("@ + crate::text::decimal(
            crate::table::MAX_DEPTH as int,
        ) + ") exceeded"@,
        StoreErrorView::CorruptStore(m) => "corrupt store: "@ + m,
        StoreErrorView::CorruptVault(m) => "corrupt vault: "@ + m,
    }
}

/// `a` followed by `b`.
pub fn joined(a: &str, b: &str) -> (r: String)
    ensures
        r@ == a@ + b@,
{
    let mut r = a.to_owned();
    r.append(b);
    r
}

impl StoreError {
    /// The text of the error.
    pub fn to_text(&self) -> (r: String)
        ensures
            r@ == error_text(self@),
    {
        match self {
            StoreError::NoDataDir =>
                "could not resolve a data directory (is HOME/XDG_DATA_HOME set?)".to_owned(),
            StoreError::Io(m) => joined("creating data directory: ", m.as_str()),
            StoreError::Sqlite(m) => joined("database error: ", m.as_str()),
            StoreError::NotFound(id) => {
                let mut r = "no node with id ".to_owned();
                crate::text::push_decimal(&mut r, *id);
                r
            },
            StoreError::NotAFolder(id) => {
                let mut r = "node ".to_owned();
                crate::text::push_decimal(&mut r, *id);
                r.append(" is not a folder");
                r
            },
            StoreError::CycleDetected =>
                "cannot move a folder into itself or its own descendant".to_owned(),
            StoreError::InvalidArg(m) => m.clone(),
            StoreError::CannotModifyRoot => "the root folder cannot be modified".to_owned(),
            StoreError::MaxDepthExceeded => {
                let mut r = "maximum folder nesting depth (".to_owned();
                crate::text::push_decimal(&mut r, crate::table::MAX_DEPTH);
                r.append(") exceeded");
                r
            },
            StoreError::CorruptStore(m) => joined("corrupt store: ", m),
            StoreError::CorruptVault(m) => joined("corrupt vault: ", m),
        }
    }
}

} // verus!
