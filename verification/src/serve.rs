//! Requests of the extension and their replies.

use vstd::prelude::*;
use crate::error::{StoreError, StoreErrorView};
use crate::node::{Node, NodeKind};
use crate::nm::MAX_OUTGOING;
use crate::store::Store;
use crate::table::Table;
use crate::vault::{SlotView, VaultError, VaultErrorView, VaultPlaintext, VaultRowView, VaultSlot};

verus! {

/// Page size of a request that names none.
pub const DEFAULT_LIMIT: i64 = 200;

/// A request.
#[derive(Debug)]
pub enum Request {
    Tree { include_hidden: bool },
    List,
    Add { title: String, url: String, parent_id: Option<i64> },
    CreateFolder { parent_id: Option<i64>, title: String },
    CreateBookmark { parent_id: Option<i64>, title: String, url: String },
    Rename { id: i64, title: String },
    Move { id: i64, new_parent_id: i64, position: Option<i64> },
    Delete { id: i64 },
    /// One page of the direct children of a folder (default root).
    Children { parent_id: Option<i64>, limit: i64, offset: i64 },
    /// Substring search over the visible tree.
    Search { query: String, limit: i64 },
    /// Does a hidden vault exist?
    VaultStatus,
    /// Create a new vault.
    VaultCreate { phrase: String },
    /// Unlock with a phrase, and show the vault's top-level page.
    VaultUnlock { phrase: String, limit: i64, offset: i64 },
    /// One page of children inside the unlocked vault.
    VaultChildren { key: String, parent_id: Option<i64>, limit: i64, offset: i64 },
    VaultCreateFolder { key: String, parent_id: Option<i64>, title: String },
    VaultCreateBookmark { key: String, parent_id: Option<i64>, title: String, url: String },
    VaultRename { key: String, id: i64, title: String },
    VaultMove { key: String, id: i64, new_parent_id: i64, position: Option<i64> },
    VaultDelete { key: String, id: i64 },
    /// Give the vault a new phrase.
    VaultChangePhrase { key: String, new_phrase: String },
}

/// A reply.
#[derive(Debug)]
pub enum Reply {
    Root(Node),
    Bookmarks(Vec<Node>),
    Id(i64),
    Done,
    Deleted(u64),
    Page(Vec<Node>, i64),
    Results(Vec<Node>),
    Exists(bool),
    Key(String),
    UnlockedPage(String, Vec<Node>, i64),
    Error(String),
}

/// The reply reports this error of the store.
pub open spec fn reports(r: Reply, e: StoreErrorView) -> bool {
    r matches Reply::Error(m) && m@ == crate::error::error_text(e)
}

/// The reply reports this error of the vault.
pub open spec fn vault_reports(r: Reply, e: VaultErrorView) -> bool {
    r matches Reply::Error(m) && m@ == crate::vault::vault_error_text(e)
}

/// The error of a store as a reply.
fn err(e: StoreError) -> (r: Reply)
    ensures
        reports(r, e@),
{
    Reply::Error(e.to_text())
}

/// The error of a vault as a reply.
fn verr(e: VaultError) -> (r: Reply)
    ensures
        vault_reports(r, e@),
{
    Reply::Error(e.to_text())
}

/// A result with the view of its error.
pub open spec fn seen<T>(r: Result<T, StoreError>) -> Result<T, StoreErrorView> {
    match r {
        Ok(v) => Ok(v),
        Err(e) => Err(e@),
    }
}

/// A result with the view of its error.
pub open spec fn vault_seen<T>(r: Result<T, VaultError>) -> Result<T, VaultErrorView> {
    match r {
        Ok(v) => Ok(v),
        Err(e) => Err(e@),
    }
}

/// What creating a node comes to.
pub open spec fn node_created(
    t: Table,
    error: Option<StoreErrorView>,
    parent: Option<i64>,
    kind: NodeKind,
    title: Seq<char>,
    url: Option<Seq<char>>,
    now: i64,
    u: Table,
    r: Result<i64, StoreErrorView>,
) -> bool {
    match r {
        Ok(id) => {
            &&& error is None
            &&& crate::ops::is_new_id(t, id)
            &&& u == crate::ops::with_new(t, parent, id, kind, title, url, now)
        },
        Err(e) => error == Some(e) && u == t,
    }
}

/// What creating a folder comes to.
pub open spec fn folder_created(
    t: Table,
    parent: Option<i64>,
    title: Seq<char>,
    now: i64,
    u: Table,
    r: Result<i64, StoreErrorView>,
) -> bool {
    node_created(
        t,
        crate::ops::create_folder_error(t, parent, title),
        parent,
        NodeKind::Folder,
        title,
        None,
        now,
        u,
        r,
    )
}

/// What creating a bookmark comes to.
pub open spec fn bookmark_created(
    t: Table,
    parent: Option<i64>,
    title: Seq<char>,
    url: Seq<char>,
    now: i64,
    u: Table,
    r: Result<i64, StoreErrorView>,
) -> bool {
    node_created(
        t,
        crate::ops::create_bookmark_error(t, parent, title, url),
        parent,
        NodeKind::Bookmark,
        title,
        Some(url),
        now,
        u,
        r,
    )
}

/// What an operation that gives nothing back comes to: its error, or the table `done`.
pub open spec fn changed_to(
    t: Table,
    error: Option<StoreErrorView>,
    done: Table,
    u: Table,
    r: Result<(), StoreErrorView>,
) -> bool {
    match r {
        Ok(_) => error is None && u == done,
        Err(e) => error == Some(e) && u == t,
    }
}

/// What deleting a node comes to.
pub open spec fn node_deleted(t: Table, id: i64, u: Table, r: Result<u64, StoreErrorView>) -> bool {
    match r {
        Ok(n) => {
            &&& crate::ops::node_error(t, id) is None
            &&& n == crate::table::subtree(t, id).len()
            &&& u == crate::ops::deleted(t, id)
        },
        Err(e) => crate::ops::node_error(t, id) == Some(e) && u == t,
    }
}

/// The page and the total are those of a folder's children.
pub open spec fn page_shows(
    t: Table,
    parent: Option<i64>,
    limit: i64,
    offset: i64,
    page: Seq<Node>,
    total: i64,
) -> bool {
    let p = crate::ops::target(t, parent)->0;
    &&& crate::ops::target_error(t, parent) is None
    &&& total == crate::table::kids(t, Some(p)).len()
    &&& exists|s: Seq<i64>| #[trigger]
        crate::table::in_order(t, Some(p), s) && crate::ops::is_page(
            t,
            crate::ops::window(s, limit, offset),
            page,
        )
}

/// The nodes are what a search finds.
pub open spec fn search_shows(t: Table, query: Seq<char>, limit: i64, ns: Seq<Node>) -> bool {
    let q = crate::text::trimmed(query);
    if q.len() == 0 {
        ns.len() == 0
    } else {
        exists|s: Seq<i64>| #[trigger]
            crate::ops::newest_first(t, crate::ops::found(t, q), s) && crate::ops::is_page(
                t,
                crate::ops::window(s, limit, 0),
                ns,
            )
    }
}

/// What a change inside the vault comes to, where `p` says what the change does to the
/// nodes: the error, or the changed nodes are sealed in the vault's place.
pub open spec fn vault_changed<T, D: Fn(&[u8]) -> Option<VaultPlaintext>>(
    decode: D,
    slot: SlotView,
    key_b64: Seq<char>,
    p: spec_fn(Table, Table, Result<T, StoreErrorView>) -> bool,
    after: SlotView,
    r: Result<T, VaultErrorView>,
) -> bool {
    match crate::vault::opened_by(slot, key_b64) {
        Err(e) => r == Err::<T, _>(e) && after == slot,
        Ok((key, plaintext)) => {
            ||| (r matches Err(e) && crate::vault::loads(decode, plaintext, Err(e)) && after == slot)
            ||| exists|before: Store, u: Table, t: Result<T, StoreErrorView>|
                {
                    &&& crate::vault::loads(decode, plaintext, Ok(before))
                    &&& #[trigger] p(before@, u, t)
                    &&& vault_rewritten(key, crate::vault::row_in(slot)->0, u, t, slot, after, r)
                }
        },
    }
}

/// What the vault holds after a change that gave `t` and left the nodes `u`.
pub open spec fn vault_rewritten<T>(
    key: Seq<u8>,
    row: VaultRowView,
    u: Table,
    t: Result<T, StoreErrorView>,
    slot: SlotView,
    after: SlotView,
    r: Result<T, VaultErrorView>,
) -> bool {
    match t {
        Err(e) => r == Err::<T, _>(crate::vault::store_error(e)) && after == slot,
        Ok(v) => if crate::vault::plaintext_of(u).len() > crate::cipher::MAX_MESSAGE {
            r == Err::<T, _>(VaultErrorView::Crypto("encryption failed"@)) && after == slot
        } else {
            &&& r == Ok::<T, VaultErrorView>(v)
            &&& exists|nonce: Seq<u8>|
                {
                    &&& nonce.len() == 24
                    &&& after == SlotView::Row(
                        #[trigger] crate::vault::rewritten(key, row, nonce, u),
                    )
                }
            &&& after is Row
            &&& crate::vault::plaintext_in(key, crate::vault::row_in(after)->0) == Some(
                crate::vault::plaintext_of(u),
            )
        },
    }
}

/// What unlocking the vault and showing its first page comes to.
pub open spec fn unlock_shows<D: Fn(&[u8]) -> Option<VaultPlaintext>>(
    decode: D,
    slot: SlotView,
    phrase: Seq<char>,
    limit: i64,
    offset: i64,
    r: Reply,
) -> bool {
    match crate::vault::unlocked_by(slot, phrase) {
        Err(e) => vault_reports(r, e),
        Ok((key, plaintext)) => {
            ||| exists|e: VaultErrorView| #[trigger]
                crate::vault::loads(decode, plaintext, Err(e)) && vault_reports(r, e)
            ||| exists|s: Store|
                {
                    &&& #[trigger] crate::vault::loads(decode, plaintext, Ok(s))
                    &&& match crate::ops::target_error(s@, None) {
                        Some(e) => reports(r, e),
                        None => r matches Reply::UnlockedPage(k, page, total) && k@
                            == crate::codec::base64_text(key) && page_shows(
                            s@,
                            None,
                            limit,
                            offset,
                            page@,
                            total,
                        ),
                    }
                }
        },
    }
}

/// What showing a page of the unlocked vault comes to.
pub open spec fn vault_page_shows<D: Fn(&[u8]) -> Option<VaultPlaintext>>(
    decode: D,
    slot: SlotView,
    key_b64: Seq<char>,
    parent: Option<i64>,
    limit: i64,
    offset: i64,
    r: Reply,
) -> bool {
    match crate::vault::opened_by(slot, key_b64) {
        Err(e) => vault_reports(r, e),
        Ok((_, plaintext)) => {
            ||| exists|e: VaultErrorView| #[trigger]
                crate::vault::loads(decode, plaintext, Err(e)) && vault_reports(r, e)
            ||| exists|s: Store|
                {
                    &&& #[trigger] crate::vault::loads(decode, plaintext, Ok(s))
                    &&& match crate::ops::target_error(s@, parent) {
                        Some(e) => reports(r, e),
                        None => r matches Reply::Page(page, total) && page_shows(
                            s@,
                            parent,
                            limit,
                            offset,
                            page@,
                            total,
                        ),
                    }
                }
        },
    }
}

/// The reply to a result that is an id.
pub open spec fn id_reply(r: Reply, x: Result<i64, StoreErrorView>) -> bool {
    match x {
        Ok(id) => r == Reply::Id(id),
        Err(e) => reports(r, e),
    }
}

/// The reply to a result that is nothing.
pub open spec fn ok_reply(r: Reply, x: Result<(), StoreErrorView>) -> bool {
    match x {
        Ok(_) => r == Reply::Done,
        Err(e) => reports(r, e),
    }
}

/// The reply to a vault result that is an id.
pub open spec fn vid_reply(r: Reply, x: Result<i64, VaultErrorView>) -> bool {
    match x {
        Ok(id) => r == Reply::Id(id),
        Err(e) => vault_reports(r, e),
    }
}

/// The reply to a vault result that is nothing.
pub open spec fn vok_reply(r: Reply, x: Result<(), VaultErrorView>) -> bool {
    match x {
        Ok(_) => r == Reply::Done,
        Err(e) => vault_reports(r, e),
    }
}

/// The reply to a vault result that is a count.
pub open spec fn vcount_reply(r: Reply, x: Result<u64, VaultErrorView>) -> bool {
    match x {
        Ok(n) => r == Reply::Deleted(n),
        Err(e) => vault_reports(r, e),
    }
}

/// The reply to a vault result that is a key.
pub open spec fn key_reply(r: Reply, x: Result<Seq<char>, VaultErrorView>) -> bool {
    match x {
        Ok(k) => r matches Reply::Key(s) && s@ == k,
        Err(e) => vault_reports(r, e),
    }
}

/// What a request on the visible tree comes to: the table `u` and the reply.
pub open spec fn tree_answer(t: Table, req: Request, now: i64, u: Table, r: Reply) -> bool {
    match req {
        Request::Tree { include_hidden } => {
            let v = crate::ops::visible(t, include_hidden);
            &&& u == t
            &&& match crate::ops::tree_error(v) {
                Some(e) => reports(r, e),
                None => r matches Reply::Root(n) && crate::ops::root_of(v) == Some(n.id)
                    && crate::walk::shows_tree(v, n),
            }
        },
        Request::List => {
            &&& u == t
            &&& r matches Reply::Bookmarks(v) && exists|s: Seq<i64>| #[trigger]
                crate::ops::newest_first(t, crate::ops::bookmarks(t), s) && crate::ops::shows_list(
                    t,
                    v@,
                    s,
                )
        },
        Request::Add { title, url, parent_id } => exists|x: Result<i64, StoreErrorView>|
            bookmark_created(t, parent_id, title@, url@, now, u, x) && #[trigger] id_reply(r, x),
        Request::CreateFolder { parent_id, title } => exists|x: Result<i64, StoreErrorView>|
            folder_created(t, parent_id, title@, now, u, x) && #[trigger] id_reply(r, x),
        Request::CreateBookmark { parent_id, title, url } => exists|x: Result<i64, StoreErrorView>|
            bookmark_created(t, parent_id, title@, url@, now, u, x) && #[trigger] id_reply(r, x),
        Request::Rename { id, title } => exists|x: Result<(), StoreErrorView>|
            changed_to(
                t,
                crate::ops::rename_error(t, id, title@),
                crate::ops::renamed(t, id, title@, now),
                u,
                x,
            ) && #[trigger] ok_reply(r, x),
        Request::Move { id, new_parent_id, position } => exists|x: Result<(), StoreErrorView>|
            changed_to(
                t,
                crate::ops::move_error(t, id, new_parent_id),
                crate::ops::moved(t, id, new_parent_id, position, now),
                u,
                x,
            ) && #[trigger] ok_reply(r, x),
        Request::Delete { id } => match r {
            Reply::Deleted(n) => node_deleted(t, id, u, Ok(n)),
            _ => crate::ops::node_error(t, id) matches Some(e) && reports(r, e) && u == t,
        },
        Request::Children { parent_id, limit, offset } => {
            &&& u == t
            &&& match crate::ops::target_error(t, parent_id) {
                Some(e) => reports(r, e),
                None => r matches Reply::Page(page, total) && page_shows(
                    t,
                    parent_id,
                    limit,
                    offset,
                    page@,
                    total,
                ),
            }
        },
        Request::Search { query, limit } => {
            &&& u == t
            &&& r matches Reply::Results(v) && search_shows(t, query@, limit, v@)
        },
        _ => false,
    }
}

/// What a request to the vault comes to: the row `after` and the reply.
pub open spec fn vault_answer<D: Fn(&[u8]) -> Option<VaultPlaintext>>(
    decode: D,
    slot: SlotView,
    req: Request,
    now: i64,
    after: SlotView,
    r: Reply,
) -> bool {
    match req {
        Request::VaultStatus => after == slot && r == Reply::Exists(!(slot is Empty)),
        Request::VaultCreate { phrase } => exists|x: Result<Seq<char>, VaultErrorView>|
            crate::vault::created(slot, phrase@, now, after, x) && #[trigger] key_reply(r, x),
        Request::VaultUnlock { phrase, limit, offset } => after == slot && unlock_shows(
            decode,
            slot,
            phrase@,
            limit,
            offset,
            r,
        ),
        Request::VaultChildren { key, parent_id, limit, offset } => after == slot
            && vault_page_shows(decode, slot, key@, parent_id, limit, offset, r),
        Request::VaultCreateFolder { key, parent_id, title } => exists|
            x: Result<i64, VaultErrorView>,
        |
            vault_changed(
                decode,
                slot,
                key@,
                |t: Table, u: Table, y: Result<i64, StoreErrorView>|
                    folder_created(t, parent_id, title@, now, u, y),
                after,
                x,
            ) && #[trigger] vid_reply(r, x),
        Request::VaultCreateBookmark { key, parent_id, title, url } => exists|
            x: Result<i64, VaultErrorView>,
        |
            vault_changed(
                decode,
                slot,
                key@,
                |t: Table, u: Table, y: Result<i64, StoreErrorView>|
                    bookmark_created(t, parent_id, title@, url@, now, u, y),
                after,
                x,
            ) && #[trigger] vid_reply(r, x),
        Request::VaultRename { key, id, title } => exists|x: Result<(), VaultErrorView>|
            vault_changed(
                decode,
                slot,
                key@,
                |t: Table, u: Table, y: Result<(), StoreErrorView>|
                    changed_to(
                        t,
                        crate::ops::rename_error(t, id, title@),
                        crate::ops::renamed(t, id, title@, now),
                        u,
                        y,
                    ),
                after,
                x,
            ) && #[trigger] vok_reply(r, x),
        Request::VaultMove { key, id, new_parent_id, position } => exists|
            x: Result<(), VaultErrorView>,
        |
            vault_changed(
                decode,
                slot,
                key@,
                |t: Table, u: Table, y: Result<(), StoreErrorView>|
                    changed_to(
                        t,
                        crate::ops::move_error(t, id, new_parent_id),
                        crate::ops::moved(t, id, new_parent_id, position, now),
                        u,
                        y,
                    ),
                after,
                x,
            ) && #[trigger] vok_reply(r, x),
        Request::VaultDelete { key, id } => exists|x: Result<u64, VaultErrorView>|
            vault_changed(
                decode,
                slot,
                key@,
                |t: Table, u: Table, y: Result<u64, StoreErrorView>| node_deleted(t, id, u, y),
                after,
                x,
            ) && #[trigger] vcount_reply(r, x),
        Request::VaultChangePhrase { key, new_phrase } => exists|
            x: Result<Seq<char>, VaultErrorView>,
        |
            crate::vault::rephrased(decode, slot, key@, new_phrase@, after, x) && #[trigger] key_reply(
                r,
                x,
            ),
        _ => false,
    }
}

/// The request is one to the vault.
pub open spec fn to_vault(req: Request) -> bool {
    match req {
        Request::Tree { .. } => false,
        Request::List => false,
        Request::Add { .. } => false,
        Request::CreateFolder { .. } => false,
        Request::CreateBookmark { .. } => false,
        Request::Rename { .. } => false,
        Request::Move { .. } => false,
        Request::Delete { .. } => false,
        Request::Children { .. } => false,
        Request::Search { .. } => false,
        _ => true,
    }
}

/// The reply to a result that is an id.
fn id_result(x: Result<i64, StoreError>) -> (r: Reply)
    ensures
        id_reply(r, seen(x)),
{
    match x {
        Ok(id) => Reply::Id(id),
        Err(e) => err(e),
    }
}

/// The reply to a result that is nothing.
fn ok_result(x: Result<(), StoreError>) -> (r: Reply)
    ensures
        ok_reply(r, seen(x)),
{
    match x {
        Ok(_) => Reply::Done,
        Err(e) => err(e),
    }
}

/// The reply to a vault result that is an id.
fn vid_result(x: Result<i64, VaultError>) -> (r: Reply)
    ensures
        vid_reply(r, vault_seen(x)),
{
    match x {
        Ok(id) => Reply::Id(id),
        Err(e) => verr(e),
    }
}

/// The reply to a vault result that is nothing.
fn vok_result(x: Result<(), VaultError>) -> (r: Reply)
    ensures
        vok_reply(r, vault_seen(x)),
{
    match x {
        Ok(_) => Reply::Done,
        Err(e) => verr(e),
    }
}

/// The reply to a vault result that is a key.
fn key_result(x: Result<String, VaultError>) -> (r: Reply)
    ensures
        key_reply(r, crate::vault::key_outcome(x)),
{
    match x {
        Ok(k) => Reply::Key(k),
        Err(e) => verr(e),
    }
}

/// Answers a request on the visible tree.
pub fn handle_tree(store: &mut Store, req: &Request, now: i64) -> (r: Reply)
    requires
        old(store).wf(),
        !to_vault(*req),
    ensures
        final(store).wf(),
        tree_answer(old(store)@, *req, now, final(store)@, r),
{
    match req {
        Request::Tree { include_hidden } => match store.tree(*include_hidden) {
            Ok(root) => Reply::Root(root),
            Err(e) => err(e),
        },
        Request::List => match store.list() {
            Ok(v) => Reply::Bookmarks(v),
            Err(e) => err(e),
        },
        Request::Add { title, url, parent_id } => {
            let x = store.create_bookmark(*parent_id, title.as_str(), url.as_str(), now);
            assert(bookmark_created(
                old(store)@,
                *parent_id,
                title@,
                url@,
                now,
                store@,
                seen(x),
            ));
            id_result(x)
        },
        Request::CreateFolder { parent_id, title } => {
            let x = store.create_folder(*parent_id, title.as_str(), now);
            assert(folder_created(old(store)@, *parent_id, title@, now, store@, seen(x)));
            id_result(x)
        },
        Request::CreateBookmark { parent_id, title, url } => {
            let x = store.create_bookmark(*parent_id, title.as_str(), url.as_str(), now);
            assert(bookmark_created(
                old(store)@,
                *parent_id,
                title@,
                url@,
                now,
                store@,
                seen(x),
            ));
            id_result(x)
        },
        Request::Rename { id, title } => ok_result(store.rename(*id, title.as_str(), now)),
        Request::Move { id, new_parent_id, position } => ok_result(
            store.move_node(*id, *new_parent_id, *position, now),
        ),
        Request::Delete { id } => match store.delete(*id) {
            Ok(n) => Reply::Deleted(n),
            Err(e) => err(e),
        },
        Request::Children { parent_id, limit, offset } => match store.children(
            *parent_id,
            *limit,
            *offset,
        ) {
            Ok((children, total)) => Reply::Page(children, total),
            Err(e) => err(e),
        },
        Request::Search { query, limit } => match store.search(query.as_str(), *limit) {
            Ok(results) => Reply::Results(results),
            Err(e) => err(e),
        },
        _ => Reply::Done,
    }
}

/// Runs a change inside the vault, given what it does to the nodes.
pub(crate) fn change_vault<T, D, F>(
    slot: &mut VaultSlot,
    key_b64: &str,
    decode: &D,
    f: F,
    now: i64,
    Ghost(does): Ghost<spec_fn(Table, Table, Result<T, StoreErrorView>) -> bool>,
) -> (r: Result<T, VaultError>) where
    D: Fn(&[u8]) -> Option<VaultPlaintext>,
    F: FnOnce(&mut Store) -> Result<T, StoreError>,

    requires
        forall|b: &[u8]| #[trigger] call_requires(*decode, (b,)),
        forall|p: &mut Store| (*p).wf() ==> #[trigger] call_requires(f, (p,)),
        forall|p: &mut Store, t: Result<T, StoreError>|
            (*p).wf() && #[trigger] call_ensures(f, (p,), t) ==> (*final(p)).wf() && does(
                (*p)@,
                (*final(p))@,
                seen(t),
            ),
    ensures
        vault_changed(*decode, old(slot)@, key_b64@, does, final(slot)@, vault_seen(r)),
{
    let ghost before = slot@;
    let r = crate::vault::with_vault_mut(slot, key_b64, decode, f, now);
    proof {
        let failed = r is Err && crate::vault::opened_by(before, key_b64@) is Ok
            && crate::vault::loads(
            *decode,
            crate::vault::opened_by(before, key_b64@)->Ok_0.1,
            Err(r->Err_0@),
        );
        if let Ok((key, plaintext)) = crate::vault::opened_by(before, key_b64@) {
            if !failed {
                let (p, t, nonce) = choose|p: &mut Store, t: Result<T, StoreError>, nonce: Seq<u8>|
                    {
                        &&& nonce.len() == 24
                        &&& crate::vault::loads(*decode, plaintext, Ok(*p))
                        &&& #[trigger] call_ensures(f, (p,), t)
                        &&& #[trigger] crate::vault::resealed(
                            key,
                            crate::vault::row_in(before)->0,
                            nonce,
                            (*final(p))@,
                            t,
                            crate::vault::slot_outcome(r, slot@),
                        )
                    };
                let u = (*final(p))@;
                assert(does((*p)@, u, seen(t)));
                assert(vault_rewritten(
                    key,
                    crate::vault::row_in(before)->0,
                    u,
                    seen(t),
                    before,
                    slot@,
                    vault_seen(r),
                ));
            }
        }
    }
    r
}

/// Answers a request to the vault.
pub fn handle_vault<D: Fn(&[u8]) -> Option<VaultPlaintext>>(
    slot: &mut VaultSlot,
    req: &Request,
    now: i64,
    decode: &D,
) -> (r: Reply)
    requires
        to_vault(*req),
        forall|b: &[u8]| #[trigger] call_requires(*decode, (b,)),
    ensures
        vault_answer(*decode, old(slot)@, *req, now, final(slot)@, r),
{
    match req {
        Request::VaultStatus => Reply::Exists(crate::vault::vault_exists(slot)),
        Request::VaultCreate { phrase } => key_result(
            crate::vault::create(slot, phrase.as_str(), now),
        ),
        Request::VaultUnlock { phrase, limit, offset } => match crate::vault::unlock(
            slot,
            phrase.as_str(),
            decode,
        ) {
            Err(e) => verr(e),
            Ok(u) => {
                let store = u.store;
                match store.children(None, *limit, *offset) {
                    Ok((children, total)) => Reply::UnlockedPage(u.key_b64, children, total),
                    Err(e) => err(e),
                }
            },
        },
        Request::VaultChildren { key, parent_id, limit, offset } => {
            match crate::vault::open_with_key(slot, key.as_str(), decode) {
                Err(e) => verr(e),
                Ok(store) => match store.children(*parent_id, *limit, *offset) {
                    Ok((children, total)) => Reply::Page(children, total),
                    Err(e) => err(e),
                },
            }
        },
        Request::VaultCreateFolder { key, parent_id, title } => {
            let parent: Option<i64> = *parent_id;
            let f = |s: &mut Store| -> (x: Result<i64, StoreError>)
                requires
                    old(s).wf(),
                ensures
                    final(s).wf(),
                    folder_created(old(s)@, parent, title@, now, final(s)@, seen(x)),
                { s.create_folder(parent, title.as_str(), now) };
            vid_result(
                change_vault(
                    slot,
                    key.as_str(),
                    decode,
                    f,
                    now,
                    Ghost(
                        |t: Table, u: Table, y: Result<i64, StoreErrorView>|
                            folder_created(t, parent, title@, now, u, y),
                    ),
                ),
            )
        },
        Request::VaultCreateBookmark { key, parent_id, title, url } => {
            let parent: Option<i64> = *parent_id;
            let f = |s: &mut Store| -> (x: Result<i64, StoreError>)
                requires
                    old(s).wf(),
                ensures
                    final(s).wf(),
                    bookmark_created(old(s)@, parent, title@, url@, now, final(s)@, seen(x)),
                { s.create_bookmark(parent, title.as_str(), url.as_str(), now) };
            vid_result(
                change_vault(
                    slot,
                    key.as_str(),
                    decode,
                    f,
                    now,
                    Ghost(
                        |t: Table, u: Table, y: Result<i64, StoreErrorView>|
                            bookmark_created(t, parent, title@, url@, now, u, y),
                    ),
                ),
            )
        },
        Request::VaultRename { key, id, title } => {
            let node: i64 = *id;
            let f = |s: &mut Store| -> (x: Result<(), StoreError>)
                requires
                    old(s).wf(),
                ensures
                    final(s).wf(),
                    changed_to(
                        old(s)@,
                        crate::ops::rename_error(old(s)@, node, title@),
                        crate::ops::renamed(old(s)@, node, title@, now),
                        final(s)@,
                        seen(x),
                    ),
                { s.rename(node, title.as_str(), now) };
            vok_result(
                change_vault(
                    slot,
                    key.as_str(),
                    decode,
                    f,
                    now,
                    Ghost(
                        |t: Table, u: Table, y: Result<(), StoreErrorView>|
                            changed_to(
                                t,
                                crate::ops::rename_error(t, node, title@),
                                crate::ops::renamed(t, node, title@, now),
                                u,
                                y,
                            ),
                    ),
                ),
            )
        },
        Request::VaultMove { key, id, new_parent_id, position } => {
            let node: i64 = *id;
            let under: i64 = *new_parent_id;
            let at: Option<i64> = *position;
            let f = |s: &mut Store| -> (x: Result<(), StoreError>)
                requires
                    old(s).wf(),
                ensures
                    final(s).wf(),
                    changed_to(
                        old(s)@,
                        crate::ops::move_error(old(s)@, node, under),
                        crate::ops::moved(old(s)@, node, under, at, now),
                        final(s)@,
                        seen(x),
                    ),
                { s.move_node(node, under, at, now) };
            vok_result(
                change_vault(
                    slot,
                    key.as_str(),
                    decode,
                    f,
                    now,
                    Ghost(
                        |t: Table, u: Table, y: Result<(), StoreErrorView>|
                            changed_to(
                                t,
                                crate::ops::move_error(t, node, under),
                                crate::ops::moved(t, node, under, at, now),
                                u,
                                y,
                            ),
                    ),
                ),
            )
        },
        Request::VaultDelete { key, id } => {
            let node: i64 = *id;
            let f = |s: &mut Store| -> (x: Result<u64, StoreError>)
                requires
                    old(s).wf(),
                ensures
                    final(s).wf(),
                    node_deleted(old(s)@, node, final(s)@, seen(x)),
                { s.delete(node) };
            match change_vault(
                slot,
                key.as_str(),
                decode,
                f,
                now,
                Ghost(
                    |t: Table, u: Table, y: Result<u64, StoreErrorView>| node_deleted(t, node, u, y),
                ),
            ) {
                Ok(n) => {
                    assert(vcount_reply(Reply::Deleted(n), Ok(n)));
                    Reply::Deleted(n)
                },
                Err(e) => {
                    let r = verr(e);
                    assert(vcount_reply(r, Err(e@)));
                    r
                },
            }
        },
        Request::VaultChangePhrase { key, new_phrase } => key_result(
            crate::vault::change_phrase(slot, key.as_str(), new_phrase.as_str(), decode, now),
        ),
        _ => Reply::Done,
    }
}

/// Whether a request is one to the vault.
pub fn is_to_vault(req: &Request) -> (r: bool)
    ensures
        r == to_vault(*req),
{
    match req {
        Request::Tree { .. } => false,
        Request::List => false,
        Request::Add { .. } => false,
        Request::CreateFolder { .. } => false,
        Request::CreateBookmark { .. } => false,
        Request::Rename { .. } => false,
        Request::Move { .. } => false,
        Request::Delete { .. } => false,
        Request::Children { .. } => false,
        Request::Search { .. } => false,
        _ => true,
    }
}

/// The request only reads.
pub open spec fn reads(req: Request) -> bool {
    match req {
        Request::Tree { .. } => true,
        Request::List => true,
        Request::Children { .. } => true,
        Request::Search { .. } => true,
        Request::VaultStatus => true,
        Request::VaultUnlock { .. } => true,
        Request::VaultChildren { .. } => true,
        _ => false,
    }
}

/// Whether the request only reads, so that no write lock is needed for it.
pub fn is_read(req: &Request) -> (r: bool)
    ensures
        r == reads(*req),
{
    match req {
        Request::Tree { .. } => true,
        Request::List => true,
        Request::Children { .. } => true,
        Request::Search { .. } => true,
        Request::VaultStatus => true,
        Request::VaultUnlock { .. } => true,
        Request::VaultChildren { .. } => true,
        _ => false,
    }
}

/// A request that only reads changes neither the tree nor the vault.
pub proof fn lemma_reads_change_nothing<D: Fn(&[u8]) -> Option<VaultPlaintext>>(
    decode: D,
    req: Request,
    now: i64,
    t: Table,
    u: Table,
    slot: SlotView,
    after: SlotView,
    r: Reply,
)
    requires
        reads(req),
    ensures
        tree_answer(t, req, now, u, r) ==> u == t,
        vault_answer(decode, slot, req, now, after, r) ==> after == slot,
{
}

/// A request that is answered with an error has changed nothing.
pub proof fn lemma_errors_change_nothing<D: Fn(&[u8]) -> Option<VaultPlaintext>>(
    decode: D,
    req: Request,
    now: i64,
    t: Table,
    u: Table,
    slot: SlotView,
    after: SlotView,
    r: Reply,
)
    requires
        r is Error,
    ensures
        tree_answer(t, req, now, u, r) ==> u == t,
        vault_answer(decode, slot, req, now, after, r) ==> after == slot,
{
}

/// Whatever a request does to the vault, it leaves the row as it was or puts one with the
/// next version in its place.
pub proof fn lemma_requests_move_the_version<D: Fn(&[u8]) -> Option<VaultPlaintext>>(
    decode: D,
    req: Request,
    now: i64,
    slot: SlotView,
    after: SlotView,
    r: Reply,
)
    requires
        vault_answer(decode, slot, req, now, after, r),
    ensures
        after == slot || crate::vault::next_row(slot, after),
{
}

/// The number of the first try of a request.
pub open spec fn begins_with(req: Request) -> u32 {
    if req is VaultChangePhrase {
        crate::vault::MAX_WRITE_RETRIES
    } else {
        1
    }
}

/// The try with which the write of a request begins: a change of the phrase is tried once,
/// any other change as often as writes are tried at all.
pub fn first_try(req: &Request) -> (r: u32)
    ensures
        r == begins_with(*req),
        r == (if req is VaultChangePhrase {
            crate::vault::MAX_WRITE_RETRIES
        } else {
            1
        }),
{
    match req {
        Request::VaultChangePhrase { .. } => crate::vault::MAX_WRITE_RETRIES,
        _ => 1,
    }
}

/// Answers one request. A request on the visible tree does not touch the vault, and one
/// to the vault does not touch the visible tree.
pub fn handle<D: Fn(&[u8]) -> Option<VaultPlaintext>>(
    store: &mut Store,
    slot: &mut VaultSlot,
    req: &Request,
    now: i64,
    decode: &D,
) -> (r: Reply)
    requires
        old(store).wf(),
        forall|b: &[u8]| #[trigger] call_requires(*decode, (b,)),
    ensures
        final(store).wf(),
        if to_vault(*req) {
            &&& final(store)@ == old(store)@
            &&& vault_answer(*decode, old(slot)@, *req, now, final(slot)@, r)
        } else {
            &&& final(slot)@ == old(slot)@
            &&& tree_answer(old(store)@, *req, now, final(store)@, r)
        },
{
    if is_to_vault(req) {
        handle_vault(slot, req, now, decode)
    } else {
        handle_tree(store, req, now)
    }
}

/// The JSON array of a list of nodes.
pub open spec fn list_json(s: Seq<Node>) -> Seq<char> {
    "["@ + crate::json::nodes_json(s, s.len()) + "]"@
}

/// A truth value as JSON.
pub open spec fn bool_json(b: bool) -> Seq<char> {
    if b {
        "true"@
    } else {
        "false"@
    }
}

/// A reply as JSON, its members in alphabetical order.
pub open spec fn reply_json(r: Reply) -> Seq<char> {
    match r {
        Reply::Root(n) => "{\"ok\":true,\"root\":"@ + crate::json::node_json(n) + "}"@,
        Reply::Bookmarks(v) => "{\"bookmarks\":"@ + list_json(v@) + ",\"ok\":true}"@,
        Reply::Id(id) => "{\"id\":"@ + crate::text::decimal(id as int) + ",\"ok\":true}"@,
        Reply::Done => "{\"ok\":true}"@,
        Reply::Deleted(n) => "{\"deleted\":"@ + crate::text::decimal(n as int) + ",\"ok\":true}"@,
        Reply::Page(v, total) => "{\"children\":"@ + list_json(v@) + ",\"ok\":true,\"total\":"@
            + crate::text::decimal(total as int) + "}"@,
        Reply::Results(v) => "{\"ok\":true,\"results\":"@ + list_json(v@) + "}"@,
        Reply::Exists(b) => "{\"exists\":"@ + bool_json(b) + ",\"ok\":true}"@,
        Reply::Key(k) => "{\"key\":"@ + crate::json::json_string(k@) + ",\"ok\":true}"@,
        Reply::UnlockedPage(k, v, total) => "{\"children\":"@ + list_json(v@) + ",\"key\":"@
            + crate::json::json_string(k@) + ",\"ok\":true,\"total\":"@ + crate::text::decimal(
            total as int,
        ) + "}"@,
        Reply::Error(m) => "{\"error\":"@ + crate::json::json_string(m@) + ",\"ok\":false}"@,
    }
}

fn list_text(v: &Vec<Node>) -> (r: String)
    ensures
        r@ == list_json(v@),
{
    let mut r = "[".to_owned();
    crate::json::push_nodes(&mut r, v);
    r.append("]");
    r
}

/// The JSON text of a reply.
pub fn reply_text(reply: &Reply) -> (r: String)
    ensures
        r@ == reply_json(*reply),
{
    match reply {
        Reply::Root(n) => {
            let mut r = "{\"ok\":true,\"root\":".to_owned();
            r.append(crate::json::node_text(n).as_str());
            r.append("}");
            r
        },
        Reply::Bookmarks(v) => {
            let mut r = "{\"bookmarks\":".to_owned();
            r.append(list_text(v).as_str());
            r.append(",\"ok\":true}");
            r
        },
        Reply::Id(id) => {
            let mut r = "{\"id\":".to_owned();
            crate::text::push_decimal(&mut r, *id);
            r.append(",\"ok\":true}");
            r
        },
        Reply::Done => "{\"ok\":true}".to_owned(),
        Reply::Deleted(n) => {
            let mut r = "{\"deleted\":".to_owned();
            crate::text::push_digits(&mut r, *n);
            r.append(",\"ok\":true}");
            r
        },
        Reply::Page(v, total) => {
            let mut r = "{\"children\":".to_owned();
            r.append(list_text(v).as_str());
            r.append(",\"ok\":true,\"total\":");
            crate::text::push_decimal(&mut r, *total);
            r.append("}");
            r
        },
        Reply::Results(v) => {
            let mut r = "{\"ok\":true,\"results\":".to_owned();
            r.append(list_text(v).as_str());
            r.append("}");
            r
        },
        Reply::Exists(b) => {
            let mut r = "{\"exists\":".to_owned();
            if *b {
                r.append("true");
            } else {
                r.append("false");
            }
            r.append(",\"ok\":true}");
            r
        },
        Reply::Key(k) => {
            let mut r = "{\"key\":".to_owned();
            crate::json::push_string(&mut r, k.as_str());
            r.append(",\"ok\":true}");
            r
        },
        Reply::UnlockedPage(k, v, total) => {
            let mut r = "{\"children\":".to_owned();
            r.append(list_text(v).as_str());
            r.append(",\"key\":");
            crate::json::push_string(&mut r, k.as_str());
            r.append(",\"ok\":true,\"total\":");
            crate::text::push_decimal(&mut r, *total);
            r.append("}");
            r
        },
        Reply::Error(m) => {
            let mut r = "{\"error\":".to_owned();
            crate::json::push_string(&mut r, m.as_str());
            r.append(",\"ok\":false}");
            r
        },
    }
}

/// The bytes that are sent for a reply: its JSON text, or an error in its place where
/// that would be over the cap of one message.
pub open spec fn sent(reply: Reply) -> Seq<u8> {
    let full = vstd::utf8::encode_utf8(reply_json(reply));
    if full.len() > MAX_OUTGOING {
        vstd::utf8::encode_utf8("{\"error\":\"reply too large for one message\",\"ok\":false}"@)
    } else {
        full
    }
}

/// The message body for a reply. It is never over the cap, so that it can be written.
pub fn respond(reply: &Reply) -> (r: Vec<u8>)
    ensures
        r@ == sent(*reply),
        r@.len() <= MAX_OUTGOING,
{
    let text = reply_text(reply);
    let bytes = text.as_str().as_bytes();
    if bytes.len() > MAX_OUTGOING {
        let small = "{\"error\":\"reply too large for one message\",\"ok\":false}";
        proof {
            reveal_strlit("{\"error\":\"reply too large for one message\",\"ok\":false}");
            vstd::utf8::is_ascii_chars_encode_utf8(small@);
        }
        vstd::slice::slice_to_vec(small.as_bytes())
    } else {
        vstd::slice::slice_to_vec(bytes)
    }
}

/// The reply to bytes that are no request.
pub fn bad_request(why: &str) -> (r: Reply)
    ensures
        r matches Reply::Error(m) && m@ == "bad request: "@ + why@,
{
    Reply::Error(crate::error::joined("bad request: ", why))
}

/// A power of ten.
spec fn ten_to(k: nat) -> nat
    decreases k,
{
    if k == 0 {
        1
    } else {
        10 * ten_to((k - 1) as nat)
    }
}

proof fn lemma_digits_bytes(n: nat, k: nat)
    requires
        k > 0,
        n < ten_to(k),
    ensures
        crate::page::byte_len(crate::text::digits(n)) <= k,
    decreases k,
{
    let s = crate::text::digits(n);
    if n < 10 {
        assert(s =~= seq![crate::text::digit(n)]);
        vstd::utf8::is_ascii_chars_encode_utf8(s);
    } else {
        assert(k > 1) by {
            assert(ten_to(0) == 1);
        }
        lemma_digits_bytes(n / 10, (k - 1) as nat);
        let last = seq![crate::text::digit(n % 10)];
        assert(s =~= crate::text::digits(n / 10) + last);
        crate::page::lemma_byte_len_add(crate::text::digits(n / 10), last);
        vstd::utf8::is_ascii_chars_encode_utf8(last);
    }
}

proof fn lemma_decimal_bytes(n: i64)
    ensures
        crate::page::byte_len(crate::text::decimal(n as int)) <= 20,
{
    let m = if n < 0 {
        (-n) as nat
    } else {
        n as nat
    };
    reveal_with_fuel(ten_to, 20);
    assert(ten_to(19) == 10_000_000_000_000_000_000);
    lemma_digits_bytes(m, 19);
    if n < 0 {
        let sign = seq!['-'];
        crate::page::lemma_byte_len_add(sign, crate::text::digits(m));
        vstd::utf8::is_ascii_chars_encode_utf8(sign);
    }
}

/// A page of more than one node is always sent in full: its reply is never over the cap
/// of one message.
pub proof fn lemma_page_is_sent(t: Table, ids: Seq<i64>, v: Vec<Node>, total: i64)
    requires
        crate::ops::is_page(t, ids, v@),
        v@.len() > 1,
    ensures
        sent(Reply::Page(v, total)) == vstd::utf8::encode_utf8(reply_json(Reply::Page(v, total))),
        sent(Reply::Results(v)) == vstd::utf8::encode_utf8(reply_json(Reply::Results(v))),
{
    crate::page::lemma_page_front(t, ids, v@);
    lemma_decimal_bytes(total);
    let body = crate::json::nodes_json(v@, v@.len());
    let list = list_json(v@);
    reveal_strlit("[");
    reveal_strlit("]");
    vstd::utf8::is_ascii_chars_encode_utf8("["@);
    vstd::utf8::is_ascii_chars_encode_utf8("]"@);
    crate::page::lemma_byte_len_add("["@ + body, "]"@);
    crate::page::lemma_byte_len_add("["@, body);
    assert(crate::page::byte_len(list) == crate::page::byte_len(body) + 2);
    reveal_strlit("{\"children\":");
    reveal_strlit(",\"ok\":true,\"total\":");
    reveal_strlit("}");
    reveal_strlit("{\"ok\":true,\"results\":");
    let a = "{\"children\":"@;
    let b = ",\"ok\":true,\"total\":"@;
    let c = crate::text::decimal(total as int);
    let d = "}"@;
    let e = "{\"ok\":true,\"results\":"@;
    vstd::utf8::is_ascii_chars_encode_utf8(a);
    vstd::utf8::is_ascii_chars_encode_utf8(b);
    vstd::utf8::is_ascii_chars_encode_utf8(d);
    vstd::utf8::is_ascii_chars_encode_utf8(e);
    crate::page::lemma_byte_len_add(a, list);
    crate::page::lemma_byte_len_add(a + list, b);
    crate::page::lemma_byte_len_add(a + list + b, c);
    crate::page::lemma_byte_len_add(a + list + b + c, d);
    crate::page::lemma_byte_len_add(e, list);
    crate::page::lemma_byte_len_add(e + list, d);
}

proof fn lemma_plain_chars(s: Seq<char>)
    requires
        forall|i: int| 0 <= i < s.len() ==> ' ' <= #[trigger] s[i] <= '~',
        !s.contains('"'),
        !s.contains('\\'),
    ensures
        crate::json::json_chars(s) == s,
    decreases s.len(),
{
    if s.len() > 0 {
        let r = s.drop_last();
        assert forall|i: int| 0 <= i < r.len() implies ' ' <= #[trigger] r[i] <= '~' by {
            assert(r[i] == s[i]);
        }
        assert forall|c: char| r.contains(c) implies s.contains(c) by {
            let i = choose|i: int| 0 <= i < r.len() && r[i] == c;
            assert(s[i] == c);
        }
        lemma_plain_chars(r);
        assert(s.contains(s.last()));
        assert(s =~= r + seq![s.last()]);
    }
}

/// The first page of an unlocked vault, too, is sent in full where it holds more than
/// one node.
pub proof fn lemma_unlocked_page_is_sent(
    t: Table,
    ids: Seq<i64>,
    key: Seq<u8>,
    k: String,
    v: Vec<Node>,
    total: i64,
)
    requires
        crate::ops::is_page(t, ids, v@),
        v@.len() > 1,
        key.len() == 32,
        k@ == crate::codec::base64_text(key),
    ensures
        sent(Reply::UnlockedPage(k, v, total)) == vstd::utf8::encode_utf8(
            reply_json(Reply::UnlockedPage(k, v, total)),
        ),
{
    crate::page::lemma_page_front(t, ids, v@);
    lemma_decimal_bytes(total);
    crate::codec::lemma_text_plain(key);
    lemma_plain_chars(k@);
    let body = crate::json::nodes_json(v@, v@.len());
    let list = list_json(v@);
    reveal_strlit("[");
    reveal_strlit("]");
    vstd::utf8::is_ascii_chars_encode_utf8("["@);
    vstd::utf8::is_ascii_chars_encode_utf8("]"@);
    crate::page::lemma_byte_len_add("["@ + body, "]"@);
    crate::page::lemma_byte_len_add("["@, body);
    let quoted = crate::json::json_string(k@);
    assert(quoted =~= seq!['"'] + k@ + seq!['"']);
    vstd::utf8::is_ascii_chars_encode_utf8(quoted);
    reveal_strlit("{\"children\":");
    reveal_strlit(",\"key\":");
    reveal_strlit(",\"ok\":true,\"total\":");
    reveal_strlit("}");
    let a = "{\"children\":"@;
    let b = ",\"key\":"@;
    let c = ",\"ok\":true,\"total\":"@;
    let d = crate::text::decimal(total as int);
    let e = "}"@;
    vstd::utf8::is_ascii_chars_encode_utf8(a);
    vstd::utf8::is_ascii_chars_encode_utf8(b);
    vstd::utf8::is_ascii_chars_encode_utf8(c);
    vstd::utf8::is_ascii_chars_encode_utf8(e);
    crate::page::lemma_byte_len_add(a, list);
    crate::page::lemma_byte_len_add(a + list, b);
    crate::page::lemma_byte_len_add(a + list + b, quoted);
    crate::page::lemma_byte_len_add(a + list + b + quoted, c);
    crate::page::lemma_byte_len_add(a + list + b + quoted + c, d);
    crate::page::lemma_byte_len_add(a + list + b + quoted + c + d, e);
}

/// Every answer can be written as one message.
pub proof fn lemma_answer_fits(reply: Reply)
    ensures
        sent(reply).len() <= MAX_OUTGOING,
{
    reveal_strlit("{\"error\":\"reply too large for one message\",\"ok\":false}");
    vstd::utf8::is_ascii_chars_encode_utf8(
        "{\"error\":\"reply too large for one message\",\"ok\":false}"@,
    );
}

} // verus!
