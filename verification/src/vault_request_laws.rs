//! What the requests on the vault are for: whoever has the key or the phrase works on the
//! hidden tree as on the open one, and nobody else gets in.

use vstd::prelude::*;
use crate::error::StoreErrorView;
use crate::node::{NodeKind, NodeRow, RowView};
use crate::serve::{Reply, Request};
use crate::store::Store;
use crate::table::Table;
use crate::vault::{SlotView, VaultErrorView, VaultPlaintext};

verus! {

/// The key finds this plaintext in the row: it authenticates with it, with the row's nonce,
/// and with the format version and the parameter string as associated data.
pub open spec fn reveals(slot: SlotView, key: Seq<u8>, plain: Seq<u8>) -> bool {
    slot matches SlotView::Row(row) && {
        &&& row.nonce.len() == 24
        &&& row.ciphertext.len() <= crate::cipher::MAX_MESSAGE + 16
        &&& crate::cipher::unsealed(
            key,
            row.nonce,
            seq![1u8] + vstd::utf8::encode_utf8(row.kdf),
            row.ciphertext,
        ) == Some(plain)
    }
}

/// The text is that of a key of 32 bytes.
pub open spec fn is_key_text(text: Seq<char>, key: Seq<u8>) -> bool {
    key.len() == 32 && crate::codec::base64_text(key) == text
}

/// The request on the open tree that a request with a vault key is like.
pub open spec fn open_twin(req: Request) -> Request {
    match req {
        Request::VaultChildren { key, parent_id, limit, offset } => Request::Children {
            parent_id,
            limit,
            offset,
        },
        Request::VaultCreateFolder { key, parent_id, title } => Request::CreateFolder {
            parent_id,
            title,
        },
        Request::VaultCreateBookmark { key, parent_id, title, url } => Request::CreateBookmark {
            parent_id,
            title,
            url,
        },
        Request::VaultRename { key, id, title } => Request::Rename { id, title },
        Request::VaultMove { key, id, new_parent_id, position } => Request::Move {
            id,
            new_parent_id,
            position,
        },
        Request::VaultDelete { key, id } => Request::Delete { id },
        other => other,
    }
}

/// The key that a request carries, where it works on the nodes of the vault.
pub open spec fn key_of(req: Request) -> Option<Seq<char>> {
    match req {
        Request::VaultChildren { key, .. } => Some(key@),
        Request::VaultCreateFolder { key, .. } => Some(key@),
        Request::VaultCreateBookmark { key, .. } => Some(key@),
        Request::VaultRename { key, .. } => Some(key@),
        Request::VaultMove { key, .. } => Some(key@),
        Request::VaultDelete { key, .. } => Some(key@),
        _ => None,
    }
}

/// The row was written anew: under the same key it holds this table, and its version has
/// moved on.
pub open spec fn rewrote(slot: SlotView, after: SlotView, key: Seq<u8>, u: Table) -> bool {
    match (slot, after) {
        (SlotView::Row(old_row), SlotView::Row(new_row)) => {
            &&& new_row.kdf == old_row.kdf
            &&& new_row.version == old_row.version.wrapping_add(1)
            &&& reveals(after, key, crate::vault::plaintext_of(u))
        },
        _ => false,
    }
}

/// What the vault answers once the nodes of it are read: what the open tree would answer
/// if it held them; a change of them is written back.
pub open spec fn works_like_the_tree(
    slot: SlotView,
    key: Seq<u8>,
    req: Request,
    now: i64,
    s: Store,
    u: Table,
    after: SlotView,
    r: Reply,
) -> bool {
    ||| {
        &&& crate::serve::tree_answer(s@, open_twin(req), now, u, r)
        &&& if r is Error || req is VaultChildren {
            after == slot
        } else {
            rewrote(slot, after, key, u)
        }
    }
    ||| {
        &&& !(req is VaultChildren)
        &&& crate::vault::plaintext_of(u).len() > crate::cipher::MAX_MESSAGE
        &&& exists|r2: Reply|
            !(r2 is Error) && #[trigger] crate::serve::tree_answer(
                s@,
                open_twin(req),
                now,
                u,
                r2,
            )
        &&& crate::tree_laws::says(r, "crypto error: "@ + "encryption failed"@)
        &&& after == slot
    }
}

/// The answer to a request once the key has opened the vault: an error where the plaintext
/// is no tree, else what the tree in it gives.
pub open spec fn served<D: Fn(&[u8]) -> Option<VaultPlaintext>>(
    decode: D,
    slot: SlotView,
    key: Seq<u8>,
    plain: Seq<u8>,
    req: Request,
    now: i64,
    after: SlotView,
    r: Reply,
) -> bool {
    ||| exists|e: VaultErrorView| #[trigger]
        crate::vault::loads(decode, plain, Err(e)) && after == slot && crate::serve::vault_reports(
            r,
            e,
        )
    ||| exists|s: Store, u: Table|
        crate::vault::loads(decode, plain, Ok(s)) && #[trigger] works_like_the_tree(
            slot,
            key,
            req,
            now,
            s,
            u,
            after,
            r,
        )
}

pub proof fn lemma_change<T, D: Fn(&[u8]) -> Option<VaultPlaintext>>(
    decode: D,
    slot: SlotView,
    text: Seq<char>,
    p: spec_fn(Table, Table, Result<T, StoreErrorView>) -> bool,
    after: SlotView,
    x: Result<T, VaultErrorView>,
    k: Seq<u8>,
    plain: Seq<u8>,
) -> (o: Option<(Store, Table, Result<T, StoreErrorView>)>)
    requires
        crate::serve::vault_changed(decode, slot, text, p, after, x),
        crate::vault::opened_by(slot, text) == Ok::<_, VaultErrorView>((k, plain)),
    ensures
        match o {
            None => x is Err && crate::vault::loads(decode, plain, Err(x->Err_0)) && after == slot,
            Some((s, u, t)) => {
                &&& crate::vault::loads(decode, plain, Ok(s))
                &&& p(s@, u, t)
                &&& match t {
                    Err(e) => x == Err::<T, _>(crate::vault::store_error(e)) && after == slot,
                    Ok(v) => if crate::vault::plaintext_of(u).len() > crate::cipher::MAX_MESSAGE {
                        x == Err::<T, _>(VaultErrorView::Crypto("encryption failed"@)) && after
                            == slot
                    } else {
                        x == Ok::<T, VaultErrorView>(v) && rewrote(slot, after, k, u)
                    },
                }
            },
        },
{
    if x is Err && crate::vault::loads(decode, plain, Err(x->Err_0)) && after == slot {
        None
    } else {
        let row = crate::vault::row_in(slot)->0;
        let (s, u, t) = choose|s: Store, u: Table, t: Result<T, StoreErrorView>|
            {
                &&& crate::vault::loads(decode, plain, Ok(s))
                &&& #[trigger] p(s@, u, t)
                &&& crate::serve::vault_rewritten(k, row, u, t, slot, after, x)
            };
        Some((s, u, t))
    }
}

proof fn lemma_key_text(text: Seq<char>)
    ensures
        crate::vault::key_in(text) matches Some(k) ==> is_key_text(text, k),
        crate::vault::key_in(text) is None ==> forall|k: Seq<u8>| !#[trigger] is_key_text(text, k),
        forall|k: Seq<u8>| #[trigger] is_key_text(text, k) ==> crate::vault::key_in(text) == Some(k),
{
    assert forall|k: Seq<u8>| #[trigger]
        is_key_text(text, k) implies crate::vault::key_in(text) == Some(k) by {
        crate::codec::lemma_decodes(k);
    }
    if let Some(k) = crate::vault::key_in(text) {
        assert(crate::codec::base64_text(k) == text);
    }
}

/// A request with a key works on the nodes of the vault just as its twin does on the open
/// tree: it is answered as that is, for the nodes that the vault holds, and after a change
/// the vault holds the nodes that the change leaves. A text that is no key, or a key that
/// does not open the vault, gets nothing and changes nothing.
pub proof fn lemma_vault_works_like_the_tree<D: Fn(&[u8]) -> Option<VaultPlaintext>>(
    decode: D,
    slot: SlotView,
    req: Request,
    now: i64,
    after: SlotView,
    r: Reply,
)
    requires
        key_of(req) is Some,
        crate::serve::vault_answer(decode, slot, req, now, after, r),
    ensures
        (forall|k: Seq<u8>| !#[trigger] is_key_text(key_of(req)->0, k)) ==> after == slot
            && crate::tree_laws::says(r, "invalid vault key"@),
        forall|k: Seq<u8>|
            #![trigger is_key_text(key_of(req)->0, k)]
            is_key_text(key_of(req)->0, k) && (forall|p: Seq<u8>| !#[trigger] reveals(slot, k, p))
                ==> after == slot && crate::tree_laws::says(r, "could not unlock the vault"@),
        forall|k: Seq<u8>, p: Seq<u8>|
            is_key_text(key_of(req)->0, k) && #[trigger] reveals(slot, k, p) ==> served(
                decode,
                slot,
                k,
                p,
                req,
                now,
                after,
                r,
            ),
{
    let text = key_of(req)->0;
    lemma_key_text(text);
    if let Some(k) = crate::vault::key_in(text) {
        match crate::vault::opened_by(slot, text) {
            Err(_) => {
                assert forall|p: Seq<u8>| !#[trigger] reveals(slot, k, p) by {}
            },
            Ok((key, plain)) => {
                assert(key == k);
                assert(reveals(slot, k, plain));
                lemma_opened(decode, slot, req, now, after, r, k, plain);
            },
        }
    }
}

#[verifier::spinoff_prover]
#[verifier::rlimit(60)]
proof fn lemma_children_opened<D: Fn(&[u8]) -> Option<VaultPlaintext>>(
    decode: D,
    slot: SlotView,
    key: String,
    parent_id: Option<i64>,
    limit: i64,
    offset: i64,
    now: i64,
    after: SlotView,
    r: Reply,
    k: Seq<u8>,
    plain: Seq<u8>,
)
    requires
        crate::serve::vault_answer(
            decode,
            slot,
            Request::VaultChildren { key, parent_id, limit, offset },
            now,
            after,
            r,
        ),
        crate::vault::opened_by(slot, key@) == Ok::<_, VaultErrorView>((k, plain)),
    ensures
        served(
            decode,
            slot,
            k,
            plain,
            Request::VaultChildren { key, parent_id, limit, offset },
            now,
            after,
            r,
        ),
{
    let req = Request::VaultChildren { key, parent_id, limit, offset };
    if exists|s: Store|
        {
            &&& #[trigger] crate::vault::loads(decode, plain, Ok(s))
            &&& match crate::ops::target_error(s@, parent_id) {
                Some(e) => crate::serve::reports(r, e),
                None => r matches Reply::Page(page, total) && crate::serve::page_shows(
                    s@,
                    parent_id,
                    limit,
                    offset,
                    page@,
                    total,
                ),
            }
        } {
        let s = choose|s: Store|
            {
                &&& #[trigger] crate::vault::loads(decode, plain, Ok(s))
                &&& match crate::ops::target_error(s@, parent_id) {
                    Some(e) => crate::serve::reports(r, e),
                    None => r matches Reply::Page(page, total) && crate::serve::page_shows(
                        s@,
                        parent_id,
                        limit,
                        offset,
                        page@,
                        total,
                    ),
                }
            };
        assert(works_like_the_tree(slot, k, req, now, s, s@, after, r));
    }
}

/// The answer of the vault, as one thing.
#[verifier::opaque]
spec fn answered<D: Fn(&[u8]) -> Option<VaultPlaintext>>(
    decode: D,
    slot: SlotView,
    req: Request,
    now: i64,
    after: SlotView,
    r: Reply,
) -> bool {
    crate::serve::vault_answer(decode, slot, req, now, after, r)
}

/// The reply of the vault is that of the tree, and the row is written where the tree changed.
proof fn lemma_like(
    slot: SlotView,
    k: Seq<u8>,
    req: Request,
    now: i64,
    s: Store,
    u: Table,
    after: SlotView,
    r: Reply,
    r2: Reply,
)
    requires
        !(req is VaultChildren),
        crate::serve::tree_answer(s@, open_twin(req), now, u, r2),
        ({
            ||| r2 is Error && r == r2 && after == slot
            ||| !(r2 is Error) && r == r2 && rewrote(slot, after, k, u)
            ||| {
                &&& !(r2 is Error)
                &&& crate::vault::plaintext_of(u).len() > crate::cipher::MAX_MESSAGE
                &&& crate::tree_laws::says(r, "crypto error: "@ + "encryption failed"@)
                &&& after == slot
            }
        }),
    ensures
        works_like_the_tree(slot, k, req, now, s, u, after, r),
{
}

/// What the change does to the nodes.
#[verifier::opaque]
spec fn create_folder_step(
    parent_id: Option<i64>,
    title: String,
    now: i64,
) -> spec_fn(Table, Table, Result<i64, StoreErrorView>) -> bool {
    |t: Table, u: Table, y: Result<i64, StoreErrorView>|
        crate::serve::folder_created(t, parent_id, title@, now, u, y)
}

proof fn lemma_create_folder_told<D: Fn(&[u8]) -> Option<VaultPlaintext>>(
    decode: D,
    slot: SlotView,
    key: String,
    parent_id: Option<i64>,
    title: String,
    now: i64,
    after: SlotView,
    r: Reply,
) -> (x: Result<i64, VaultErrorView>)
    requires
        answered(
            decode,
            slot,
            Request::VaultCreateFolder { key, parent_id, title },
            now,
            after,
            r,
        ),
    ensures
        crate::serve::vault_changed(decode, slot, key@, create_folder_step(parent_id, title, now), after, x),
        crate::serve::vid_reply(r, x),
{
    reveal(answered);
    reveal(create_folder_step);
    let p = create_folder_step(parent_id, title, now);
    choose|x: Result<i64, VaultErrorView>|
        crate::serve::vault_changed(decode, slot, key@, p, after, x) && #[trigger]
        crate::serve::vid_reply(r, x)
}

proof fn lemma_create_folder_twin(
    t: Table,
    parent_id: Option<i64>,
    title: String,
    now: i64,
    u: Table,
    y: Result<i64, StoreErrorView>,
    r: Reply,
)
    requires
        create_folder_step(parent_id, title, now)(t, u, y),
        match y {
            Ok(v) => r == Reply::Id(v),
            Err(e) => crate::serve::vault_reports(r, crate::vault::store_error(e)),
        },
    ensures
        crate::serve::tree_answer(t, Request::CreateFolder { parent_id, title }, now, u, r),
        r is Error <==> y is Err,
{
    reveal(create_folder_step);
    assert(crate::serve::id_reply(r, y));
}

proof fn lemma_create_folder_opened<D: Fn(&[u8]) -> Option<VaultPlaintext>>(
    decode: D,
    slot: SlotView,
    key: String,
    parent_id: Option<i64>,
    title: String,
    now: i64,
    after: SlotView,
    r: Reply,
    k: Seq<u8>,
    plain: Seq<u8>,
)
    requires
        answered(
            decode,
            slot,
            Request::VaultCreateFolder { key, parent_id, title },
            now,
            after,
            r,
        ),
        crate::vault::opened_by(slot, key@) == Ok::<_, VaultErrorView>((k, plain)),
    ensures
        served(
            decode,
            slot,
            k,
            plain,
            Request::VaultCreateFolder { key, parent_id, title },
            now,
            after,
            r,
        ),
{
    let req = Request::VaultCreateFolder { key, parent_id, title };
    let p = create_folder_step(parent_id, title, now);
    let x = lemma_create_folder_told(decode, slot, key, parent_id, title, now, after, r);
    if let Some((s, u, y)) = lemma_change(decode, slot, key@, p, after, x, k, plain) {
        let r2 = match y {
            Ok(v) => Reply::Id(v),
            Err(_) => r,
        };
        lemma_create_folder_twin(s@, parent_id, title, now, u, y, r2);
        lemma_like(slot, k, req, now, s, u, after, r, r2);
    }
}

/// What the change does to the nodes.
#[verifier::opaque]
spec fn create_bookmark_step(
    parent_id: Option<i64>,
    title: String,
    url: String,
    now: i64,
) -> spec_fn(Table, Table, Result<i64, StoreErrorView>) -> bool {
    |t: Table, u: Table, y: Result<i64, StoreErrorView>|
        crate::serve::bookmark_created(t, parent_id, title@, url@, now, u, y)
}

proof fn lemma_create_bookmark_told<D: Fn(&[u8]) -> Option<VaultPlaintext>>(
    decode: D,
    slot: SlotView,
    key: String,
    parent_id: Option<i64>,
    title: String,
    url: String,
    now: i64,
    after: SlotView,
    r: Reply,
) -> (x: Result<i64, VaultErrorView>)
    requires
        answered(
            decode,
            slot,
            Request::VaultCreateBookmark { key, parent_id, title, url },
            now,
            after,
            r,
        ),
    ensures
        crate::serve::vault_changed(decode, slot, key@, create_bookmark_step(parent_id, title, url, now), after, x),
        crate::serve::vid_reply(r, x),
{
    reveal(answered);
    reveal(create_bookmark_step);
    let p = create_bookmark_step(parent_id, title, url, now);
    choose|x: Result<i64, VaultErrorView>|
        crate::serve::vault_changed(decode, slot, key@, p, after, x) && #[trigger]
        crate::serve::vid_reply(r, x)
}

proof fn lemma_create_bookmark_twin(
    t: Table,
    parent_id: Option<i64>,
    title: String,
    url: String,
    now: i64,
    u: Table,
    y: Result<i64, StoreErrorView>,
    r: Reply,
)
    requires
        create_bookmark_step(parent_id, title, url, now)(t, u, y),
        match y {
            Ok(v) => r == Reply::Id(v),
            Err(e) => crate::serve::vault_reports(r, crate::vault::store_error(e)),
        },
    ensures
        crate::serve::tree_answer(t, Request::CreateBookmark { parent_id, title, url }, now, u, r),
        r is Error <==> y is Err,
{
    reveal(create_bookmark_step);
    assert(crate::serve::id_reply(r, y));
}

proof fn lemma_create_bookmark_opened<D: Fn(&[u8]) -> Option<VaultPlaintext>>(
    decode: D,
    slot: SlotView,
    key: String,
    parent_id: Option<i64>,
    title: String,
    url: String,
    now: i64,
    after: SlotView,
    r: Reply,
    k: Seq<u8>,
    plain: Seq<u8>,
)
    requires
        answered(
            decode,
            slot,
            Request::VaultCreateBookmark { key, parent_id, title, url },
            now,
            after,
            r,
        ),
        crate::vault::opened_by(slot, key@) == Ok::<_, VaultErrorView>((k, plain)),
    ensures
        served(
            decode,
            slot,
            k,
            plain,
            Request::VaultCreateBookmark { key, parent_id, title, url },
            now,
            after,
            r,
        ),
{
    let req = Request::VaultCreateBookmark { key, parent_id, title, url };
    let p = create_bookmark_step(parent_id, title, url, now);
    let x = lemma_create_bookmark_told(decode, slot, key, parent_id, title, url, now, after, r);
    if let Some((s, u, y)) = lemma_change(decode, slot, key@, p, after, x, k, plain) {
        let r2 = match y {
            Ok(v) => Reply::Id(v),
            Err(_) => r,
        };
        lemma_create_bookmark_twin(s@, parent_id, title, url, now, u, y, r2);
        lemma_like(slot, k, req, now, s, u, after, r, r2);
    }
}

/// What the change does to the nodes.
#[verifier::opaque]
spec fn rename_step(
    id: i64,
    title: String,
    now: i64,
) -> spec_fn(Table, Table, Result<(), StoreErrorView>) -> bool {
    |t: Table, u: Table, y: Result<(), StoreErrorView>|
        crate::serve::changed_to(
            t,
            crate::ops::rename_error(t, id, title@),
            crate::ops::renamed(t, id, title@, now),
            u,
            y,
        )
}

proof fn lemma_rename_told<D: Fn(&[u8]) -> Option<VaultPlaintext>>(
    decode: D,
    slot: SlotView,
    key: String,
    id: i64,
    title: String,
    now: i64,
    after: SlotView,
    r: Reply,
) -> (x: Result<(), VaultErrorView>)
    requires
        answered(
            decode,
            slot,
            Request::VaultRename { key, id, title },
            now,
            after,
            r,
        ),
    ensures
        crate::serve::vault_changed(decode, slot, key@, rename_step(id, title, now), after, x),
        crate::serve::vok_reply(r, x),
{
    reveal(answered);
    reveal(rename_step);
    let p = rename_step(id, title, now);
    choose|x: Result<(), VaultErrorView>|
        crate::serve::vault_changed(decode, slot, key@, p, after, x) && #[trigger]
        crate::serve::vok_reply(r, x)
}

proof fn lemma_rename_twin(
    t: Table,
    id: i64,
    title: String,
    now: i64,
    u: Table,
    y: Result<(), StoreErrorView>,
    r: Reply,
)
    requires
        rename_step(id, title, now)(t, u, y),
        match y {
            Ok(_) => r == Reply::Done,
            Err(e) => crate::serve::vault_reports(r, crate::vault::store_error(e)),
        },
    ensures
        crate::serve::tree_answer(t, Request::Rename { id, title }, now, u, r),
        r is Error <==> y is Err,
{
    reveal(rename_step);
    assert(crate::serve::ok_reply(r, y));
}

proof fn lemma_rename_opened<D: Fn(&[u8]) -> Option<VaultPlaintext>>(
    decode: D,
    slot: SlotView,
    key: String,
    id: i64,
    title: String,
    now: i64,
    after: SlotView,
    r: Reply,
    k: Seq<u8>,
    plain: Seq<u8>,
)
    requires
        answered(
            decode,
            slot,
            Request::VaultRename { key, id, title },
            now,
            after,
            r,
        ),
        crate::vault::opened_by(slot, key@) == Ok::<_, VaultErrorView>((k, plain)),
    ensures
        served(
            decode,
            slot,
            k,
            plain,
            Request::VaultRename { key, id, title },
            now,
            after,
            r,
        ),
{
    let req = Request::VaultRename { key, id, title };
    let p = rename_step(id, title, now);
    let x = lemma_rename_told(decode, slot, key, id, title, now, after, r);
    if let Some((s, u, y)) = lemma_change(decode, slot, key@, p, after, x, k, plain) {
        let r2 = match y {
            Ok(_) => Reply::Done,
            Err(_) => r,
        };
        lemma_rename_twin(s@, id, title, now, u, y, r2);
        lemma_like(slot, k, req, now, s, u, after, r, r2);
    }
}

/// What the change does to the nodes.
#[verifier::opaque]
spec fn move_step(
    id: i64,
    new_parent_id: i64,
    position: Option<i64>,
    now: i64,
) -> spec_fn(Table, Table, Result<(), StoreErrorView>) -> bool {
    |t: Table, u: Table, y: Result<(), StoreErrorView>|
        crate::serve::changed_to(
            t,
            crate::ops::move_error(t, id, new_parent_id),
            crate::ops::moved(t, id, new_parent_id, position, now),
            u,
            y,
        )
}

proof fn lemma_move_told<D: Fn(&[u8]) -> Option<VaultPlaintext>>(
    decode: D,
    slot: SlotView,
    key: String,
    id: i64,
    new_parent_id: i64,
    position: Option<i64>,
    now: i64,
    after: SlotView,
    r: Reply,
) -> (x: Result<(), VaultErrorView>)
    requires
        answered(
            decode,
            slot,
            Request::VaultMove { key, id, new_parent_id, position },
            now,
            after,
            r,
        ),
    ensures
        crate::serve::vault_changed(decode, slot, key@, move_step(id, new_parent_id, position, now), after, x),
        crate::serve::vok_reply(r, x),
{
    reveal(answered);
    reveal(move_step);
    let p = move_step(id, new_parent_id, position, now);
    choose|x: Result<(), VaultErrorView>|
        crate::serve::vault_changed(decode, slot, key@, p, after, x) && #[trigger]
        crate::serve::vok_reply(r, x)
}

proof fn lemma_move_twin(
    t: Table,
    id: i64,
    new_parent_id: i64,
    position: Option<i64>,
    now: i64,
    u: Table,
    y: Result<(), StoreErrorView>,
    r: Reply,
)
    requires
        move_step(id, new_parent_id, position, now)(t, u, y),
        match y {
            Ok(_) => r == Reply::Done,
            Err(e) => crate::serve::vault_reports(r, crate::vault::store_error(e)),
        },
    ensures
        crate::serve::tree_answer(t, Request::Move { id, new_parent_id, position }, now, u, r),
        r is Error <==> y is Err,
{
    reveal(move_step);
    assert(crate::serve::ok_reply(r, y));
}

proof fn lemma_move_opened<D: Fn(&[u8]) -> Option<VaultPlaintext>>(
    decode: D,
    slot: SlotView,
    key: String,
    id: i64,
    new_parent_id: i64,
    position: Option<i64>,
    now: i64,
    after: SlotView,
    r: Reply,
    k: Seq<u8>,
    plain: Seq<u8>,
)
    requires
        answered(
            decode,
            slot,
            Request::VaultMove { key, id, new_parent_id, position },
            now,
            after,
            r,
        ),
        crate::vault::opened_by(slot, key@) == Ok::<_, VaultErrorView>((k, plain)),
    ensures
        served(
            decode,
            slot,
            k,
            plain,
            Request::VaultMove { key, id, new_parent_id, position },
            now,
            after,
            r,
        ),
{
    let req = Request::VaultMove { key, id, new_parent_id, position };
    let p = move_step(id, new_parent_id, position, now);
    let x = lemma_move_told(decode, slot, key, id, new_parent_id, position, now, after, r);
    if let Some((s, u, y)) = lemma_change(decode, slot, key@, p, after, x, k, plain) {
        let r2 = match y {
            Ok(_) => Reply::Done,
            Err(_) => r,
        };
        lemma_move_twin(s@, id, new_parent_id, position, now, u, y, r2);
        lemma_like(slot, k, req, now, s, u, after, r, r2);
    }
}

/// What the change does to the nodes.
#[verifier::opaque]
spec fn delete_step(
    id: i64,
    now: i64,
) -> spec_fn(Table, Table, Result<u64, StoreErrorView>) -> bool {
    |t: Table, u: Table, y: Result<u64, StoreErrorView>|
        crate::serve::node_deleted(t, id, u, y)
}

proof fn lemma_delete_told<D: Fn(&[u8]) -> Option<VaultPlaintext>>(
    decode: D,
    slot: SlotView,
    key: String,
    id: i64,
    now: i64,
    after: SlotView,
    r: Reply,
) -> (x: Result<u64, VaultErrorView>)
    requires
        answered(
            decode,
            slot,
            Request::VaultDelete { key, id },
            now,
            after,
            r,
        ),
    ensures
        crate::serve::vault_changed(decode, slot, key@, delete_step(id, now), after, x),
        crate::serve::vcount_reply(r, x),
{
    reveal(answered);
    reveal(delete_step);
    let p = delete_step(id, now);
    choose|x: Result<u64, VaultErrorView>|
        crate::serve::vault_changed(decode, slot, key@, p, after, x) && #[trigger]
        crate::serve::vcount_reply(r, x)
}

proof fn lemma_delete_twin(
    t: Table,
    id: i64,
    now: i64,
    u: Table,
    y: Result<u64, StoreErrorView>,
    r: Reply,
)
    requires
        delete_step(id, now)(t, u, y),
        match y {
            Ok(v) => r == Reply::Deleted(v),
            Err(e) => crate::serve::vault_reports(r, crate::vault::store_error(e)),
        },
    ensures
        crate::serve::tree_answer(t, Request::Delete { id }, now, u, r),
        r is Error <==> y is Err,
{
    reveal(delete_step);
}

proof fn lemma_delete_opened<D: Fn(&[u8]) -> Option<VaultPlaintext>>(
    decode: D,
    slot: SlotView,
    key: String,
    id: i64,
    now: i64,
    after: SlotView,
    r: Reply,
    k: Seq<u8>,
    plain: Seq<u8>,
)
    requires
        answered(
            decode,
            slot,
            Request::VaultDelete { key, id },
            now,
            after,
            r,
        ),
        crate::vault::opened_by(slot, key@) == Ok::<_, VaultErrorView>((k, plain)),
    ensures
        served(
            decode,
            slot,
            k,
            plain,
            Request::VaultDelete { key, id },
            now,
            after,
            r,
        ),
{
    let req = Request::VaultDelete { key, id };
    let p = delete_step(id, now);
    let x = lemma_delete_told(decode, slot, key, id, now, after, r);
    if let Some((s, u, y)) = lemma_change(decode, slot, key@, p, after, x, k, plain) {
        let r2 = match y {
            Ok(v) => Reply::Deleted(v),
            Err(_) => r,
        };
        lemma_delete_twin(s@, id, now, u, y, r2);
        lemma_like(slot, k, req, now, s, u, after, r, r2);
    }
}

proof fn lemma_opened<D: Fn(&[u8]) -> Option<VaultPlaintext>>(
    decode: D,
    slot: SlotView,
    req: Request,
    now: i64,
    after: SlotView,
    r: Reply,
    k: Seq<u8>,
    plain: Seq<u8>,
)
    requires
        key_of(req) is Some,
        crate::serve::vault_answer(decode, slot, req, now, after, r),
        crate::vault::opened_by(slot, key_of(req)->0) == Ok::<_, VaultErrorView>((k, plain)),
    ensures
        served(decode, slot, k, plain, req, now, after, r),
{
    assert(answered(decode, slot, req, now, after, r)) by {
        reveal(answered);
    }
    match req {
        Request::VaultChildren { key, parent_id, limit, offset } => {
            lemma_children_opened(decode, slot, key, parent_id, limit, offset, now, after, r, k, plain);
        },
        Request::VaultCreateFolder { key, parent_id, title } => {
            lemma_create_folder_opened(decode, slot, key, parent_id, title, now, after, r, k, plain);
        },
        Request::VaultCreateBookmark { key, parent_id, title, url } => {
            lemma_create_bookmark_opened(decode, slot, key, parent_id, title, url, now, after, r, k, plain);
        },
        Request::VaultRename { key, id, title } => {
            lemma_rename_opened(decode, slot, key, id, title, now, after, r, k, plain);
        },
        Request::VaultMove { key, id, new_parent_id, position } => {
            lemma_move_opened(decode, slot, key, id, new_parent_id, position, now, after, r, k, plain);
        },
        Request::VaultDelete { key, id } => {
            lemma_delete_opened(decode, slot, key, id, now, after, r, k, plain);
        },
        _ => {},
    }
}

/// The table is that of the rows: one entry for each, with its columns, none hidden.
pub open spec fn rows_make(rows: Seq<NodeRow>, t: Table) -> bool {
    &&& forall|i: int, j: int|
        0 <= i < j < rows.len() ==> (#[trigger] rows[i]).id != (#[trigger] rows[j]).id
    &&& forall|i: int|
        0 <= i < rows.len() ==> {
            let n = #[trigger] rows[i];
            &&& t.dom().contains(n.id)
            &&& t[n.id].parent == n.parent_id
            &&& t[n.id].kind == n.kind
            &&& t[n.id].title == n.title@
            &&& match n.url {
                Some(u) => t[n.id].url == Some(u@),
                None => t[n.id].url is None,
            }
            &&& t[n.id].position == n.position
            &&& t[n.id].created == n.created
            &&& t[n.id].modified == n.modified
            &&& !t[n.id].hidden
        }
    &&& forall|x: i64| #[trigger]
        t.dom().contains(x) ==> exists|i: int|
            0 <= i < rows.len() && (#[trigger] rows[i]).id == x
}

/// One folder has no parent, and every row is below it, at most 200 steps.
pub open spec fn one_tree(t: Table, root: i64) -> bool {
    &&& t.dom().contains(root)
    &&& t[root].parent is None
    &&& t[root].kind == NodeKind::Folder
    &&& forall|x: i64| #[trigger]
        t.dom().contains(x) ==> exists|k: nat|
            k <= 200 && #[trigger] crate::change_laws::steps(t, x, root, k)
}

/// The plaintext is one of this format, and its rows are one tree, this table.
pub open spec fn is_vault(d: Option<VaultPlaintext>, t: Table) -> bool {
    d matches Some(p) && {
        &&& p.v == 1
        &&& p.nodes@.len() <= 0x7fff_ffff_ffff_ffff
        &&& rows_make(p.nodes@, t)
        &&& exists|root: i64| one_tree(t, root)
    }
}

proof fn lemma_rows_make(rows: Seq<NodeRow>)
    requires
        crate::load::rows_defect(crate::load::row_views(rows), rows.len()) is None,
    ensures
        rows_make(rows, crate::load::vault_table(crate::load::row_views(rows))),
{
    let s = crate::load::row_views(rows);
    let t = crate::load::vault_table(s);
    crate::load::lemma_entries(s);
    assert forall|i: int, j: int| 0 <= i < j < rows.len() implies (#[trigger] rows[i]).id != (
    #[trigger] rows[j]).id by {
        assert(s[i].id != s[j].id);
    }
    assert forall|i: int| 0 <= i < rows.len() implies {
        let n = #[trigger] rows[i];
        &&& t.dom().contains(n.id)
        &&& t[n.id] == crate::load::row_entry(n@)
    } by {
        assert(s[i] == rows[i]@);
    }
    assert forall|x: i64| #[trigger] t.dom().contains(x) implies exists|i: int|
        0 <= i < rows.len() && (#[trigger] rows[i]).id == x by {
        let i = crate::load::id_index(s, x);
        assert(crate::load::has_id(s, x));
        assert(s[i].id == x);
        assert(rows[i].id == x);
    }
}

proof fn lemma_no_defects(s: Seq<RowView>, n: nat)
    requires
        n <= s.len(),
        forall|i: int| 0 <= i < n ==> crate::load::row_defect(s, i) is None,
    ensures
        crate::load::rows_defect(s, n) is None,
    decreases n,
{
    if n > 0 {
        lemma_no_defects(s, (n - 1) as nat);
    }
}

proof fn lemma_root_count(s: Seq<RowView>, n: nat, at: int)
    requires
        n <= s.len(),
        0 <= at < s.len(),
        forall|i: int| 0 <= i < s.len() ==> ((#[trigger] s[i]).parent_id is None <==> i == at),
    ensures
        crate::load::root_count(s, n) == if at < n {
            1nat
        } else {
            0nat
        },
    decreases n,
{
    if n > 0 {
        lemma_root_count(s, (n - 1) as nat, at);
        assert(s[n - 1].parent_id is None <==> n - 1 == at);
    }
}

proof fn lemma_only_root(t: Table, root: i64, x: i64)
    requires
        one_tree(t, root),
        t.dom().contains(x),
        t[x].parent is None,
    ensures
        x == root,
{
    let k = choose|k: nat| k <= 200 && #[trigger] crate::change_laws::steps(t, x, root, k);
    crate::change_laws::lemma_steps_up(t, x, root, k);
    if k > 0 {
        assert(crate::table::up(t, x, 1) == crate::table::parent_in(t, x)) by {
            crate::table::lemma_up_front(t, x, 0);
        }
        crate::table::lemma_up_ends(t, x, 1, k);
    }
}

/// Rows that make one tree can be loaded.
proof fn lemma_tree_loads(rows: Seq<NodeRow>, t: Table, root: i64)
    requires
        rows.len() <= 0x7fff_ffff_ffff_ffff,
        rows_make(rows, t),
        one_tree(t, root),
    ensures
        crate::load::load_error(crate::load::row_views(rows)) is None,
{
    let s = crate::load::row_views(rows);
    assert forall|i: int| 0 <= i < s.len() implies crate::load::row_defect(s, i) is None by {
        assert(s[i] == rows[i]@);
        if s[i].parent_id is None {
            lemma_only_root(t, root, rows[i].id);
        }
        if crate::load::has_id(s.take(i), s[i].id) {
            let j = crate::load::id_index(s.take(i), s[i].id);
            assert(s.take(i)[j].id == s[i].id);
            assert(rows[j].id == rows[i].id);
        }
    }
    lemma_no_defects(s, s.len());
    lemma_rows_make(rows);
    let v = crate::load::vault_table(s);
    assert(v =~= t) by {
        assert forall|x: i64| v.dom().contains(x) <==> t.dom().contains(x) by {
            if v.dom().contains(x) {
                let i = choose|i: int| 0 <= i < rows.len() && (#[trigger] rows[i]).id == x;
                assert(rows[i].id == x);
            }
            if t.dom().contains(x) {
                let i = choose|i: int| 0 <= i < rows.len() && (#[trigger] rows[i]).id == x;
                assert(rows[i].id == x);
            }
        }
        assert forall|x: i64| v.dom().contains(x) implies v[x] == t[x] by {
            let i = choose|i: int| 0 <= i < rows.len() && (#[trigger] rows[i]).id == x;
            assert(rows[i].id == x);
            assert(v[x] =~= t[x]);
        }
    }
    let at = choose|i: int| 0 <= i < rows.len() && (#[trigger] rows[i]).id == root;
    assert(rows[at].id == root);
    assert forall|i: int| 0 <= i < s.len() implies ((#[trigger] s[i]).parent_id is None <==> i
        == at) by {
        assert(s[i] == rows[i]@);
        if s[i].parent_id is None {
            lemma_only_root(t, root, rows[i].id);
            if i < at {
                assert(rows[i].id != rows[at].id);
            } else if at < i {
                assert(rows[at].id != rows[i].id);
            }
        }
    }
    lemma_root_count(s, s.len(), at);
    crate::load::lemma_one_root(s);
    assert(crate::ops::root_of(v) == Some(root));
    if crate::walk::level_used(v, root, 201) {
        let x = choose|x: i64| #[trigger] crate::table::up(v, x, 201) == Some(root);
        assert(t.dom().contains(x)) by {
            crate::table::lemma_up_front(t, x, 200);
        }
        let k = choose|k: nat| k <= 200 && #[trigger] crate::change_laws::steps(t, x, root, k);
        crate::change_laws::lemma_steps_up(t, x, root, k);
        assert(crate::table::up(t, x, k + 1) is None);
        crate::table::lemma_up_ends(t, x, k + 1, 201);
    }
    if crate::load::has_unreachable(v, root) {
        let x = choose|x: i64| #[trigger]
            v.dom().contains(x) && !crate::table::subtree(v, root).contains(x);
        let k = choose|k: nat| k <= 200 && #[trigger] crate::change_laws::steps(t, x, root, k);
        crate::change_laws::lemma_steps_up(t, x, root, k);
    }
}

/// A plaintext is taken for a vault if and only if it decodes to rows of the format that
/// make one tree, and the store then holds that tree.
pub proof fn lemma_what_loads<D: Fn(&[u8]) -> Option<VaultPlaintext>>(
    decode: D,
    plain: Seq<u8>,
    r: Result<Store, VaultErrorView>,
)
    requires
        crate::vault::loads(decode, plain, r),
    ensures
        exists|d: Option<VaultPlaintext>| #[trigger]
            crate::vault::decoded(decode, plain, d) && match r {
                Ok(s) => is_vault(d, s@),
                Err(_) => forall|t: Table| !is_vault(d, t),
            },
{
    let d = choose|d: Option<VaultPlaintext>|
        {
            &&& #[trigger] crate::vault::decoded(decode, plain, d)
            &&& match r {
                Ok(s) => {
                    &&& crate::vault::plaintext_error(d) is None
                    &&& s.wf()
                    &&& s@ == crate::vault::plaintext_table(d)
                },
                Err(e) => crate::vault::plaintext_error(d) == Some(e),
            }
        };
    if let Ok(s) = r {
        let rows = d->0.nodes@;
        let views = crate::load::row_views(rows);
        let t = s@;
        lemma_rows_make(rows);
        crate::laws::lemma_loaded_reaches(views);
        crate::load::lemma_one_root(views);
        let root = crate::ops::root_of(t)->0;
        assert forall|x: i64| #[trigger] t.dom().contains(x) implies exists|k: nat|
            k <= 200 && #[trigger] crate::change_laws::steps(t, x, root, k) by {
            let k = choose|k: nat|
                k <= crate::table::MAX_DEPTH && #[trigger] crate::table::up(t, x, k) == Some(root);
            crate::change_laws::lemma_steps_up(t, x, root, k);
        }
        assert(one_tree(t, root));
    } else {
        assert forall|t: Table| !is_vault(d, t) by {
            if is_vault(d, t) {
                let root = choose|root: i64| one_tree(t, root);
                lemma_tree_loads(d->0.nodes@, t, root);
            }
        }
    }
}

/// Why a plaintext is not taken for a vault is told in part: one that does not decode looks
/// like a wrong phrase, one of another format or whose rows make no tree is called corrupt.
pub proof fn lemma_why_not_loaded<D: Fn(&[u8]) -> Option<VaultPlaintext>>(
    decode: D,
    plain: Seq<u8>,
    e: VaultErrorView,
)
    requires
        crate::vault::loads(decode, plain, Err(e)),
    ensures
        exists|d: Option<VaultPlaintext>| #[trigger]
            crate::vault::decoded(decode, plain, d) && match d {
                None => crate::vault::vault_error_text(e) == "could not unlock the vault"@,
                Some(p) => if p.v != 1 {
                    crate::vault::vault_error_text(e) == "vault corrupt: "@
                        + "unknown vault format version"@
                } else {
                    p.nodes@.len() <= 0x7fff_ffff_ffff_ffff ==> "vault corrupt: "@.is_prefix_of(
                        crate::vault::vault_error_text(e),
                    )
                },
            },
{
    let d = choose|d: Option<VaultPlaintext>| #[trigger]
        crate::vault::decoded(decode, plain, d) && crate::vault::plaintext_error(d) == Some(e);
    assert(crate::vault::decoded(decode, plain, d));
    if let VaultErrorView::Corrupt(m) = e {
        assert(("vault corrupt: "@ + m).take("vault corrupt: "@.len() as int)
            =~= "vault corrupt: "@);
    }
}

/// A request for the children of a folder of the vault shows that folder and no other: the
/// nodes of the page name it as their parent, and the total is how many of the vault's
/// nodes do. A folder that is not in the vault is told as not found.
pub proof fn lemma_vault_children_are_shown<D: Fn(&[u8]) -> Option<VaultPlaintext>>(
    decode: D,
    slot: SlotView,
    key: String,
    k: Seq<u8>,
    plain: Seq<u8>,
    parent: Option<i64>,
    limit: i64,
    offset: i64,
    now: i64,
    after: SlotView,
    r: Reply,
)
    requires
        is_key_text(key@, k),
        reveals(slot, k, plain),
        crate::serve::vault_answer(
            decode,
            slot,
            Request::VaultChildren { key, parent_id: parent, limit, offset },
            now,
            after,
            r,
        ),
    ensures
        after == slot,
        r is Page || (forall|e: VaultErrorView| !#[trigger] crate::vault::loads(decode, plain, Err(e)))
            ==> exists|s: Store| #[trigger]
            crate::vault::loads(decode, plain, Ok(s)) && crate::tree_laws::shows_children(
                s@,
                parent,
                limit,
                offset,
                r,
            ),
{
    let req = Request::VaultChildren { key, parent_id: parent, limit, offset };
    lemma_vault_works_like_the_tree(decode, slot, req, now, after, r);
    assert(served(decode, slot, k, plain, req, now, after, r));
    if r is Page || (forall|e: VaultErrorView|
        !#[trigger] crate::vault::loads(decode, plain, Err(e))) {
        let (s, u) = choose|s: Store, u: Table|
            crate::vault::loads(decode, plain, Ok(s)) && #[trigger] works_like_the_tree(
                slot,
                k,
                req,
                now,
                s,
                u,
                after,
                r,
            );
        s.lemma_finite();
        crate::tree_laws::lemma_children_are_shown(s@, parent, limit, offset, now, u, r);
    }
}

/// The key that the phrase gives with the costs and the salt of the parameter string.
pub open spec fn phrase_gives(phrase: Seq<char>, kdf: Seq<char>, key: Seq<u8>) -> bool {
    crate::kdf::parsed_kdf(kdf) matches Some(p) && {
        &&& vstd::utf8::encode_utf8(phrase).len() <= 0xffff_ffff
        &&& p.salt.len() <= 0xffff_ffff
        &&& key == crate::kdf::argon2id(
            vstd::utf8::encode_utf8(phrase),
            p.salt,
            p.m_cost,
            p.t_cost,
            p.p_cost,
        )
    }
}

/// The parameter string of a row that was made new: the costs of this version and a salt of
/// 16 bytes.
pub open spec fn fresh_costs(kdf: Seq<char>) -> bool {
    crate::kdf::parsed_kdf(kdf) matches Some(p) && p.m_cost == 65536 && p.t_cost == 3 && p.p_cost
        == 1 && p.salt.len() == 16
}

/// The phrase that gives the key of the vault unlocks it: the reply holds that key, and the
/// page of the root of the hidden tree that was asked for. No other phrase gets anything.
pub proof fn lemma_unlock_shows_the_root<D: Fn(&[u8]) -> Option<VaultPlaintext>>(
    decode: D,
    slot: SlotView,
    phrase: String,
    limit: i64,
    offset: i64,
    now: i64,
    after: SlotView,
    r: Reply,
)
    requires
        crate::serve::vault_answer(
            decode,
            slot,
            Request::VaultUnlock { phrase, limit, offset },
            now,
            after,
            r,
        ),
    ensures
        after == slot,
        !(slot is Row) ==> crate::tree_laws::says(r, "could not unlock the vault"@),
        slot matches SlotView::Row(row) ==> {
            &&& crate::kdf::parsed_kdf(row.kdf) is None ==> crate::tree_laws::says(
                r,
                "could not unlock the vault"@,
            )
            &&& forall|k: Seq<u8>| #[trigger]
                phrase_gives(phrase@, row.kdf, k) && (forall|p: Seq<u8>|
                    !#[trigger] reveals(slot, k, p)) ==> crate::tree_laws::says(
                    r,
                    "could not unlock the vault"@,
                )
            &&& forall|k: Seq<u8>, p: Seq<u8>| #[trigger]
                phrase_gives(phrase@, row.kdf, k) && #[trigger] reveals(slot, k, p)
                    ==> unlock_served(decode, k, p, limit, offset, r)
        },
        r is UnlockedPage || r is Error,
        r matches Reply::UnlockedPage(key, page, total) ==> slot is Row && exists|
            k: Seq<u8>,
            p: Seq<u8>,
        |
            {
                &&& #[trigger] phrase_gives(phrase@, slot->Row_0.kdf, k)
                &&& #[trigger] reveals(slot, k, p)
                &&& key@ == crate::codec::base64_text(k)
            },
{
    if let SlotView::Row(row) = slot {
        match crate::vault::unlocked_by(slot, phrase@) {
            Err(_) => {
                assert forall|k: Seq<u8>, p: Seq<u8>| #[trigger]
                    phrase_gives(phrase@, row.kdf, k) && #[trigger] reveals(
                        slot,
                        k,
                        p,
                    ) implies false by {}
            },
            Ok((key, plain)) => {
                assert(phrase_gives(phrase@, row.kdf, key));
                assert(reveals(slot, key, plain));
                lemma_unlock_served(decode, slot, phrase@, limit, offset, r, key, plain);
            },
        }
    }
}

/// The reply to a phrase that unlocks the vault.
pub open spec fn unlock_served<D: Fn(&[u8]) -> Option<VaultPlaintext>>(
    decode: D,
    key: Seq<u8>,
    plain: Seq<u8>,
    limit: i64,
    offset: i64,
    r: Reply,
) -> bool {
    ||| exists|e: VaultErrorView| #[trigger]
        crate::vault::loads(decode, plain, Err(e)) && crate::serve::vault_reports(r, e)
    ||| exists|s: Store| #[trigger]
        crate::vault::loads(decode, plain, Ok(s)) && match r {
            Reply::UnlockedPage(text, page, total) => text@ == crate::codec::base64_text(key)
                && crate::tree_laws::shows_children(
                s@,
                None,
                limit,
                offset,
                Reply::Page(page, total),
            ),
            _ => false,
        }
}

proof fn lemma_unlock_served<D: Fn(&[u8]) -> Option<VaultPlaintext>>(
    decode: D,
    slot: SlotView,
    phrase: Seq<char>,
    limit: i64,
    offset: i64,
    r: Reply,
    key: Seq<u8>,
    plain: Seq<u8>,
)
    requires
        crate::vault::unlocked_by(slot, phrase) == Ok::<_, VaultErrorView>((key, plain)),
        crate::serve::unlock_shows(decode, slot, phrase, limit, offset, r),
    ensures
        unlock_served(decode, key, plain, limit, offset, r),
{
    if !exists|e: VaultErrorView| #[trigger]
        crate::vault::loads(decode, plain, Err(e)) && crate::serve::vault_reports(r, e) {
        let s = choose|s: Store|
            {
                &&& #[trigger] crate::vault::loads(decode, plain, Ok(s))
                &&& match crate::ops::target_error(s@, None) {
                    Some(e) => crate::serve::reports(r, e),
                    None => r matches Reply::UnlockedPage(k, page, total) && k@
                        == crate::codec::base64_text(key) && crate::serve::page_shows(
                        s@,
                        None,
                        limit,
                        offset,
                        page@,
                        total,
                    ),
                }
            };
        lemma_loaded_root(decode, plain, s);
        s.lemma_finite();
        if let Reply::UnlockedPage(k, page, total) = r {
            crate::tree_laws::lemma_children_are_shown(
                s@,
                None,
                limit,
                offset,
                0,
                s@,
                Reply::Page(page, total),
            );
        }
    }
}

/// A store that was loaded has a root folder.
proof fn lemma_loaded_root<D: Fn(&[u8]) -> Option<VaultPlaintext>>(
    decode: D,
    plain: Seq<u8>,
    s: Store,
)
    requires
        crate::vault::loads(decode, plain, Ok(s)),
    ensures
        crate::ops::target_error(s@, None) is None,
{
    let d = choose|d: Option<VaultPlaintext>|
        {
            &&& #[trigger] crate::vault::decoded(decode, plain, d)
            &&& crate::vault::plaintext_error(d) is None
            &&& s.wf()
            &&& s@ == crate::vault::plaintext_table(d)
        };
    crate::load::lemma_one_root(crate::load::row_views(d->0.nodes@));
}

/// The status says whether there is a vault.
pub proof fn lemma_status_tells<D: Fn(&[u8]) -> Option<VaultPlaintext>>(
    decode: D,
    slot: SlotView,
    now: i64,
    after: SlotView,
    r: Reply,
)
    requires
        crate::serve::vault_answer(decode, slot, Request::VaultStatus, now, after, r),
    ensures
        after == slot,
        r matches Reply::Exists(b) && (b <==> slot != SlotView::Empty),
{
}

/// A vault is made only where there is none, and with a phrase that says something. The
/// phrase then gives its key, which is handed out; the vault holds one folder.
pub proof fn lemma_vault_is_made<D: Fn(&[u8]) -> Option<VaultPlaintext>>(
    decode: D,
    slot: SlotView,
    phrase: String,
    now: i64,
    after: SlotView,
    r: Reply,
)
    requires
        crate::serve::vault_answer(decode, slot, Request::VaultCreate { phrase }, now, after, r),
    ensures
        r is Key || r is Error,
        r is Error ==> after == slot,
        !crate::change_laws::says_something(phrase@) ==> crate::tree_laws::says(
            r,
            "phrase must not be empty"@,
        ),
        crate::change_laws::says_something(phrase@) && slot != SlotView::Empty
            ==> crate::tree_laws::says(r, "a hidden vault already exists"@),
        r is Error && crate::change_laws::says_something(phrase@) && slot == SlotView::Empty ==> {
            ||| vstd::utf8::encode_utf8(phrase@).len() > 0xffff_ffff
            ||| crate::vault::new_plaintext(now).len() > crate::cipher::MAX_MESSAGE
        },
        r matches Reply::Key(text) ==> after is Row && after->Row_0.version == 0 && fresh_costs(
            after->Row_0.kdf,
        ) && exists|k: Seq<u8>, root: RowView|
            {
                &&& #[trigger] phrase_gives(phrase@, after->Row_0.kdf, k)
                &&& text@ == crate::codec::base64_text(k)
                &&& reveals(
                    after,
                    k,
                    vstd::utf8::encode_utf8(#[trigger] crate::json::plaintext_json(1, seq![root])),
                )
                &&& root.id == 1
                &&& root.parent_id is None
                &&& root.kind == NodeKind::Folder
                &&& root.position == 0
                &&& root.title == "Hidden"@
                &&& root.url is None
                &&& root.created == now
                &&& root.modified == now
            },
{
    crate::change_laws::lemma_says_something(phrase@);
    let x = choose|x: Result<Seq<char>, VaultErrorView>|
        crate::vault::created(slot, phrase@, now, after, x) && #[trigger] crate::serve::key_reply(
            r,
            x,
        );
    if let Ok(text) = x {
        let (salt, nonce) = choose|salt: Seq<u8>, nonce: Seq<u8>|
            {
                &&& salt.len() == 16
                &&& nonce.len() == 24
                &&& after == SlotView::Row(
                    #[trigger] crate::vault::sealed_row(
                        phrase@,
                        salt,
                        nonce,
                        crate::vault::new_plaintext(now),
                        0,
                    ),
                )
                &&& text == crate::codec::base64_text(crate::vault::new_key(phrase@, salt))
            };
        crate::kdf::lemma_kdf_reads_back(salt);
        let k = crate::vault::new_key(phrase@, salt);
        let root = crate::vault::new_rows(now)[0];
        assert(crate::vault::new_rows(now) =~= seq![root]);
        assert(phrase_gives(phrase@, after->Row_0.kdf, k));
        assert(reveals(after, k, crate::vault::new_plaintext(now)));
        assert(crate::vault::new_plaintext(now) == vstd::utf8::encode_utf8(
            crate::json::plaintext_json(1, seq![root]),
        ));
    }
}

/// A change of the phrase keeps what the vault holds: the new phrase gives a new key, which
/// is handed out, and that key finds what the old one found. It takes a key that opens the
/// vault and a phrase that says something.
pub proof fn lemma_phrase_is_changed<D: Fn(&[u8]) -> Option<VaultPlaintext>>(
    decode: D,
    slot: SlotView,
    key: String,
    new_phrase: String,
    now: i64,
    after: SlotView,
    r: Reply,
)
    requires
        crate::serve::vault_answer(
            decode,
            slot,
            Request::VaultChangePhrase { key, new_phrase },
            now,
            after,
            r,
        ),
    ensures
        r is Key || r is Error,
        r is Error ==> after == slot,
        !crate::change_laws::says_something(new_phrase@) ==> crate::tree_laws::says(
            r,
            "phrase must not be empty"@,
        ),
        crate::change_laws::says_something(new_phrase@) && (forall|k: Seq<u8>|
            !#[trigger] is_key_text(key@, k)) ==> crate::tree_laws::says(r, "invalid vault key"@),
        crate::change_laws::says_something(new_phrase@) ==> forall|k: Seq<u8>| #[trigger]
            is_key_text(key@, k) && (forall|p: Seq<u8>| !#[trigger] reveals(slot, k, p))
                ==> crate::tree_laws::says(r, "could not unlock the vault"@),
        r is Error && crate::change_laws::says_something(new_phrase@) ==> forall|
            k: Seq<u8>,
            p: Seq<u8>,
        |
            is_key_text(key@, k) && #[trigger] reveals(slot, k, p) ==> {
                ||| exists|e: VaultErrorView| #[trigger] crate::vault::loads(decode, p, Err(e))
                ||| vstd::utf8::encode_utf8(new_phrase@).len() > 0xffff_ffff
                ||| p.len() > crate::cipher::MAX_MESSAGE
            },
        r matches Reply::Key(text) ==> slot is Row && after is Row && after->Row_0.version
            == slot->Row_0.version.wrapping_add(1) && fresh_costs(after->Row_0.kdf) && exists|
            old_key: Seq<u8>,
            new_key: Seq<u8>,
            p: Seq<u8>,
        |
            {
                &&& is_key_text(key@, old_key)
                &&& #[trigger] reveals(slot, old_key, p)
                &&& phrase_gives(new_phrase@, after->Row_0.kdf, new_key)
                &&& #[trigger] reveals(after, new_key, p)
                &&& text@ == crate::codec::base64_text(new_key)
            },
{
    crate::change_laws::lemma_says_something(new_phrase@);
    lemma_key_text(key@);
    let x = choose|x: Result<Seq<char>, VaultErrorView>|
        crate::vault::rephrased(decode, slot, key@, new_phrase@, after, x) && #[trigger]
        crate::serve::key_reply(r, x);
    if crate::change_laws::says_something(new_phrase@) {
        assert forall|k: Seq<u8>| #[trigger]
            is_key_text(key@, k) && (forall|p: Seq<u8>|
                !#[trigger] reveals(slot, k, p)) implies crate::tree_laws::says(
            r,
            "could not unlock the vault"@,
        ) by {
            if let Ok((old_key, plain)) = crate::vault::opened_by(slot, key@) {
                assert(reveals(slot, old_key, plain));
            }
        }
    }
    if let Ok(text) = x {
        let (old_key, plain) = crate::vault::opened_by(slot, key@)->Ok_0;
        let version = crate::vault::row_in(slot)->0.version.wrapping_add(1);
        let (salt, nonce) = choose|salt: Seq<u8>, nonce: Seq<u8>|
            {
                &&& salt.len() == 16
                &&& nonce.len() == 24
                &&& after == SlotView::Row(
                    #[trigger] crate::vault::sealed_row(
                        new_phrase@,
                        salt,
                        nonce,
                        plain,
                        version,
                    ),
                )
            };
        crate::kdf::lemma_kdf_reads_back(salt);
        let new_key = crate::vault::unlocked_by(after, new_phrase@)->Ok_0.0;
        assert(is_key_text(key@, old_key));
        assert(reveals(slot, old_key, plain));
        assert(phrase_gives(new_phrase@, after->Row_0.kdf, new_key));
        assert(reveals(after, new_key, plain));
    }
}

/// The rows tell the table: each of its rows once, by rising ids, with all columns.
pub open spec fn tell_table(s: Seq<RowView>, t: Table) -> bool {
    &&& forall|i: int, j: int|
        0 <= i < j < s.len() ==> (#[trigger] s[i]).id < (#[trigger] s[j]).id
    &&& forall|i: int|
        0 <= i < s.len() ==> {
            let n = #[trigger] s[i];
            &&& t.dom().contains(n.id)
            &&& n.parent_id == t[n.id].parent
            &&& n.kind == t[n.id].kind
            &&& n.title == t[n.id].title
            &&& n.url == t[n.id].url
            &&& n.position == t[n.id].position
            &&& n.created == t[n.id].created
            &&& n.modified == t[n.id].modified
        }
    &&& forall|x: i64| #[trigger]
        t.dom().contains(x) ==> exists|i: int| 0 <= i < s.len() && (#[trigger] s[i]).id == x
}

/// What is sealed of a table are its rows, all of them, as text of the format's version.
pub proof fn lemma_plaintext_tells_the_table(t: Table) -> (s: Seq<RowView>)
    requires
        t.dom().finite(),
    ensures
        tell_table(s, t),
        crate::vault::plaintext_of(t) == vstd::utf8::encode_utf8(crate::json::plaintext_json(1, s)),
{
    let any = crate::load::lemma_dump_exists(t);
    let s = crate::vault::dumped(t);
    assert(crate::load::is_dump(t, s));
    lemma_tells(t, s);
    s
}

/// What is read out of a store are its rows, all of them.
pub proof fn lemma_tells(t: Table, s: Seq<RowView>)
    requires
        crate::load::is_dump(t, s),
    ensures
        tell_table(s, t),
{
    assert forall|i: int| 0 <= i < s.len() implies {
        let n = #[trigger] s[i];
        &&& t.dom().contains(n.id)
        &&& crate::load::row_entry(n) == (crate::table::Entry { hidden: false, ..t[n.id] })
    } by {
        assert(crate::load::has_id(s, s[i].id));
    }
    assert forall|x: i64| #[trigger] t.dom().contains(x) implies exists|i: int|
        0 <= i < s.len() && (#[trigger] s[i]).id == x by {
        assert(crate::load::has_id(s, x));
    }
}

} // verus!
