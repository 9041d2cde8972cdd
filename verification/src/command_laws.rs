//! What the commands are for: each does to the tree, or to the vault, what its words say,
//! and prints what came of it.

use vstd::prelude::*;
use crate::cli::CommandView;
use crate::error::StoreErrorView;
use crate::node::{Node, NodeKind};
use crate::store::Store;
use crate::table::Table;
use crate::vault::{SlotView, VaultErrorView, VaultPlaintext};

verus! {

/// A word and a number on a line.
pub open spec fn line(word: Seq<char>, n: int) -> Result<Seq<char>, Seq<char>> {
    Ok(word + crate::text::decimal(n) + "\n"@)
}

/// The text for a row that is not there.
pub open spec fn no_node(id: i64) -> Result<Seq<char>, Seq<char>> {
    Err("no node with id "@ + crate::text::decimal(id as int))
}

/// `mkdir` and `add` make a node in the folder that was named, or in the root, where the
/// texts say something and there is room; they print its id.
pub open spec fn made(
    t: Table,
    parent: Option<i64>,
    texts_ok: bool,
    kind: NodeKind,
    title: Seq<char>,
    url: Option<Seq<char>>,
    now: i64,
    u: Table,
    word: Seq<char>,
    r: Result<Seq<char>, Seq<char>>,
) -> bool {
    &&& r is Ok <==> texts_ok && exists|p: i64| #[trigger]
        crate::tree_laws::meant(t, parent, p) && crate::change_laws::has_room(t, p)
    &&& r is Err ==> u == t
    &&& r is Ok ==> exists|p: i64, id: i64|
        {
            &&& #[trigger] crate::tree_laws::meant(t, parent, p)
            &&& #[trigger] crate::change_laws::has_new(t, p, id, kind, title, url, now, u)
            &&& r == line(word, id as int)
        }
    &&& texts_ok ==> (parent matches Some(p) ==> !t.dom().contains(p) ==> r == no_node(p))
}

proof fn lemma_made(
    t: Table,
    parent: Option<i64>,
    error: Option<StoreErrorView>,
    texts_ok: bool,
    kind: NodeKind,
    title: Seq<char>,
    url: Option<Seq<char>>,
    now: i64,
    u: Table,
    word: Seq<char>,
    r: Result<Seq<char>, Seq<char>>,
    x: Result<i64, StoreErrorView>,
)
    requires
        t.dom().finite(),
        crate::serve::node_created(t, error, parent, kind, title, url, now, u, x),
        r == crate::run::id_told(word, x),
        texts_ok ==> error == crate::ops::place_error(t, parent),
        !texts_ok ==> error is Some,
    ensures
        made(t, parent, texts_ok, kind, title, url, now, u, word, r),
{
    crate::tree_laws::lemma_meant(t, parent);
    if let Some(p) = crate::ops::target(t, parent) {
        crate::change_laws::lemma_has_room(t, p);
        assert(crate::ops::place_error(t, parent) == crate::ops::place_error(t, Some(p)));
        if let Ok(id) = x {
            crate::change_laws::lemma_has_new(t, p, id, kind, title, url, now, u);
            assert(crate::tree_laws::meant(t, parent, p));
        }
    }
    if texts_ok && exists|p: i64| #[trigger]
        crate::tree_laws::meant(t, parent, p) && crate::change_laws::has_room(t, p) {
        let p = choose|p: i64| #[trigger]
            crate::tree_laws::meant(t, parent, p) && crate::change_laws::has_room(t, p);
        assert(t.dom().contains(p));
        assert(crate::ops::target(t, parent) == Some(p));
    }
}

/// `mkdir` makes a folder with the title that was given.
pub proof fn lemma_mkdir_makes_a_folder(
    t: Table,
    parent: Option<i64>,
    title: Seq<char>,
    now: i64,
    u: Table,
    r: Result<Seq<char>, Seq<char>>,
)
    requires
        t.dom().finite(),
        crate::run::tree_ran(t, CommandView::Mkdir(parent, title), now, u, r),
    ensures
        made(
            t,
            parent,
            crate::change_laws::says_something(title),
            NodeKind::Folder,
            title,
            None,
            now,
            u,
            "created folder "@,
            r,
        ),
{
    crate::change_laws::lemma_says_something(title);
    let x = choose|x: Result<i64, StoreErrorView>|
        crate::serve::folder_created(t, parent, title, now, u, x) && r
            == #[trigger] crate::run::id_told("created folder "@, x);
    lemma_made(
        t,
        parent,
        crate::ops::create_folder_error(t, parent, title),
        crate::change_laws::says_something(title),
        NodeKind::Folder,
        title,
        None,
        now,
        u,
        "created folder "@,
        r,
        x,
    );
}

/// `add` makes a bookmark with the title and the URL that were given.
pub proof fn lemma_add_makes_a_bookmark(
    t: Table,
    parent: Option<i64>,
    title: Seq<char>,
    url: Seq<char>,
    now: i64,
    u: Table,
    r: Result<Seq<char>, Seq<char>>,
)
    requires
        t.dom().finite(),
        crate::run::tree_ran(t, CommandView::Add(parent, title, url), now, u, r),
    ensures
        made(
            t,
            parent,
            crate::change_laws::says_something(title) && crate::change_laws::says_something(url),
            NodeKind::Bookmark,
            title,
            Some(url),
            now,
            u,
            "added "@,
            r,
        ),
{
    crate::change_laws::lemma_says_something(title);
    crate::change_laws::lemma_says_something(url);
    let x = choose|x: Result<i64, StoreErrorView>|
        crate::serve::bookmark_created(t, parent, title, url, now, u, x) && r
            == #[trigger] crate::run::id_told("added "@, x);
    lemma_made(
        t,
        parent,
        crate::ops::create_bookmark_error(t, parent, title, url),
        crate::change_laws::says_something(title) && crate::change_laws::says_something(url),
        NodeKind::Bookmark,
        title,
        Some(url),
        now,
        u,
        "added "@,
        r,
        x,
    );
}

/// `rename` gives the node the title and the time, and changes nothing else.
pub proof fn lemma_rename_command(
    t: Table,
    id: i64,
    title: Seq<char>,
    now: i64,
    u: Table,
    r: Result<Seq<char>, Seq<char>>,
)
    requires
        crate::run::tree_ran(t, CommandView::Rename(id, title), now, u, r),
    ensures
        ({
            let may = crate::change_laws::says_something(title) && t.dom().contains(id)
                && t[id].parent is Some;
            &&& may ==> r == line("renamed "@, id as int) && u.dom() == t.dom() && u[id].title
                == title && u[id].modified == now && u[id].parent == t[id].parent && u[id].kind
                == t[id].kind && u[id].url == t[id].url && u[id].position == t[id].position
                && u[id].created == t[id].created && u[id].hidden == t[id].hidden
            &&& !may ==> r is Err && u == t
        }),
        forall|y: i64| #[trigger] t.dom().contains(y) && y != id ==> u[y] == t[y],
        crate::change_laws::says_something(title) && !t.dom().contains(id) ==> r == no_node(id),
{
    crate::change_laws::lemma_says_something(title);
    if r is Ok {
        assert(u.dom() =~= t.dom());
    }
}

/// `move` puts the node where it was asked for, last where no position was given.
pub proof fn lemma_move_command(
    t: Table,
    id: i64,
    under: i64,
    position: Option<i64>,
    now: i64,
    u: Table,
    r: Result<Seq<char>, Seq<char>>,
)
    requires
        t.dom().finite(),
        t.dom().len() <= 0x7fff_ffff_ffff_ffff,
        crate::run::tree_ran(t, CommandView::Move(id, under, position), now, u, r),
    ensures
        crate::change_laws::may_move(t, id, under) ==> r == line("moved "@, id as int)
            && crate::change_laws::has_moved(t, id, under, position, now, u),
        !crate::change_laws::may_move(t, id, under) ==> r is Err && u == t,
        !t.dom().contains(id) ==> r == no_node(id),
{
    crate::change_laws::lemma_may_move(t, id, under);
    if crate::change_laws::may_move(t, id, under) {
        crate::change_laws::lemma_has_moved(t, id, under, position, now);
    }
}

/// `rm` takes the node and all that is below it, and prints how many rows that were.
pub proof fn lemma_rm_command(
    t: Table,
    id: i64,
    now: i64,
    u: Table,
    r: Result<Seq<char>, Seq<char>>,
)
    requires
        t.dom().finite(),
        t.dom().len() <= 0x7fff_ffff_ffff_ffff,
        crate::run::tree_ran(t, CommandView::Rm(id), now, u, r),
    ensures
        t.dom().contains(id) && t[id].parent is Some ==> {
            &&& r == line("deleted "@, crate::change_laws::goes(t, id).len() as int)
            &&& crate::change_laws::has_gone(t, id, u)
        },
        !(t.dom().contains(id) && t[id].parent is Some) ==> r is Err && u == t,
        !t.dom().contains(id) ==> r == no_node(id),
{
    if t.dom().contains(id) && t[id].parent is Some {
        crate::change_laws::lemma_has_gone(t, id);
    }
}

/// `children` prints the page of the folder that was named, or of the root.
pub proof fn lemma_children_command(
    t: Table,
    parent: Option<i64>,
    limit: i64,
    offset: i64,
    now: i64,
    u: Table,
    r: Result<Seq<char>, Seq<char>>,
)
    requires
        t.dom().finite(),
        crate::run::tree_ran(t, CommandView::Children(parent, limit, offset), now, u, r),
    ensures
        u == t,
        r is Ok <==> exists|p: i64| #[trigger]
            crate::tree_laws::meant(t, parent, p) && t.dom().contains(p) && t[p].kind
                == NodeKind::Folder,
        r is Ok ==> exists|p: i64, v: Seq<Node>, total: i64|
            {
                &&& #[trigger] crate::tree_laws::meant(t, parent, p)
                &&& #[trigger] crate::tree_laws::is_page_of(t, p, limit, offset, v, total)
                &&& r == Ok::<Seq<char>, Seq<char>>(
                    "total "@ + crate::text::decimal(total as int) + "\n"@ + crate::run::page_lines(
                        v,
                        v.len(),
                    ),
                )
            },
        parent matches Some(p) ==> !t.dom().contains(p) ==> r == no_node(p),
{
    crate::tree_laws::lemma_meant(t, parent);
    if r is Ok {
        let (v, total) = choose|v: Seq<Node>, total: i64|
            crate::serve::page_shows(t, parent, limit, offset, v, total) && r == Ok::<
                Seq<char>,
                Seq<char>,
            >(#[trigger] crate::run::page_printed(v, total));
        let p = crate::ops::target(t, parent)->0;
        crate::tree_laws::lemma_page_shows(t, parent, limit, offset, v, total);
        assert(crate::tree_laws::meant(t, parent, p));
        assert(crate::tree_laws::is_page_of(t, p, limit, offset, v, total));
    }
    if exists|p: i64| #[trigger]
        crate::tree_laws::meant(t, parent, p) && t.dom().contains(p) && t[p].kind
            == NodeKind::Folder {
        let p = choose|p: i64| #[trigger]
            crate::tree_laws::meant(t, parent, p) && t.dom().contains(p) && t[p].kind
                == NodeKind::Folder;
        assert(crate::ops::target(t, parent) == Some(p));
    }
}

/// `list` prints the bookmarks, the newest first, or says that there are none.
pub proof fn lemma_list_command(t: Table, now: i64, u: Table, r: Result<Seq<char>, Seq<char>>)
    requires
        crate::run::tree_ran(t, CommandView::List, now, u, r),
    ensures
        u == t,
        exists|v: Seq<Node>| #[trigger]
            crate::search_laws::lists_bookmarks(t, v) && r == Ok::<Seq<char>, Seq<char>>(
                if v.len() == 0 {
                    "(no bookmarks)\n"@
                } else {
                    crate::run::bookmark_lines(v, v.len())
                },
            ),
{
    let (v, s) = choose|v: Seq<Node>, s: Seq<i64>|
        {
            &&& #[trigger] crate::ops::newest_first(t, crate::ops::bookmarks(t), s)
            &&& crate::ops::shows_list(t, v, s)
            &&& r == Ok::<Seq<char>, Seq<char>>(#[trigger] crate::run::list_printed(v))
        };
    crate::search_laws::lemma_lists_bookmarks(t, v);
}

/// `init` opens the store and says so.
pub proof fn lemma_init_command(t: Table, now: i64, u: Table, r: Result<Seq<char>, Seq<char>>)
    requires
        crate::run::tree_ran(t, CommandView::Init, now, u, r),
    ensures
        u == t,
        r == Ok::<Seq<char>, Seq<char>>("store ready\n"@),
{
}

/// `tree` prints the tree without its hidden rows.
pub proof fn lemma_tree_command(t: Table, now: i64, u: Table, r: Result<Seq<char>, Seq<char>>)
    requires
        crate::run::tree_ran(t, CommandView::Tree, now, u, r),
    ensures
        u == t,
        prints_tree(t, false, r),
{
    lemma_prints_tree(t, false, r);
}

/// The tree is printed from its root down, or an error where there is none or it is too
/// deep.
pub open spec fn prints_tree(t: Table, hidden_too: bool, r: Result<Seq<char>, Seq<char>>) -> bool {
    &&& r is Ok ==> exists|n: Node|
        {
            &&& crate::tree_laws::shown_root(t, hidden_too, n.id)
            &&& #[trigger] crate::tree_laws::tells_tree(t, hidden_too, n)
            &&& r == Ok::<Seq<char>, Seq<char>>(crate::run::tree_lines(n, 0))
        }
    &&& r is Ok <==> exists|root: i64| #[trigger]
        crate::tree_laws::shown_root(t, hidden_too, root) && !exists|x: i64| #[trigger]
            crate::change_laws::steps(
                crate::tree_laws::shown_rows(t, hidden_too),
                x,
                root,
                201,
            )
}

proof fn lemma_prints_tree(t: Table, hidden_too: bool, r: Result<Seq<char>, Seq<char>>)
    requires
        crate::run::tree_told(crate::ops::visible(t, hidden_too), r),
    ensures
        prints_tree(t, hidden_too, r),
{
    let v = crate::ops::visible(t, hidden_too);
    crate::tree_laws::lemma_tree_owed(t, hidden_too);
    if r is Ok {
        let n = choose|n: Node|
            {
                &&& crate::ops::root_of(v) == Some(n.id)
                &&& crate::walk::shows_tree(v, n)
                &&& r == Ok::<Seq<char>, Seq<char>>(#[trigger] crate::run::tree_lines(n, 0))
            };
        crate::tree_laws::lemma_tells_tree(t, hidden_too, n);
    }
}

/// The phrase does not unlock the vault: there is none, its parameter string is no good, or
/// the key that the phrase gives does not fit.
pub open spec fn locked_out(slot: SlotView, phrase: Seq<char>) -> bool {
    slot matches SlotView::Row(row) ==> {
        ||| crate::kdf::parsed_kdf(row.kdf) is None
        ||| exists|k: Seq<u8>| #[trigger]
            crate::vault_request_laws::phrase_gives(phrase, row.kdf, k) && forall|p: Seq<u8>|
                !#[trigger] crate::vault_request_laws::reveals(slot, k, p)
    }
}

/// The phrase unlocks the vault with this key, and this is what it finds.
pub open spec fn let_in(slot: SlotView, phrase: Seq<char>, key: Seq<u8>, plain: Seq<u8>) -> bool {
    slot matches SlotView::Row(row) && crate::vault_request_laws::phrase_gives(phrase, row.kdf, key)
        && crate::vault_request_laws::reveals(slot, key, plain)
}

proof fn lemma_unlocking(slot: SlotView, phrase: Seq<char>)
    ensures
        locked_out(slot, phrase) ==> crate::vault::unlocked_by(slot, phrase) == Err::<
            (Seq<u8>, Seq<u8>),
            _,
        >(VaultErrorView::WrongPhraseOrCorrupt),
        forall|k: Seq<u8>, p: Seq<u8>| #[trigger]
            let_in(slot, phrase, k, p) ==> crate::vault::unlocked_by(slot, phrase) == Ok::<
                _,
                VaultErrorView,
            >((k, p)),
{
    if locked_out(slot, phrase) {
        if let Ok((k, p)) = crate::vault::unlocked_by(slot, phrase) {
            assert(crate::vault_request_laws::phrase_gives(phrase, slot->Row_0.kdf, k));
            assert(crate::vault_request_laws::reveals(slot, k, p));
        }
    }
}

/// The text for a phrase that does not unlock the vault.
pub open spec fn not_unlocked() -> Result<Seq<char>, Seq<char>> {
    Err("could not unlock the vault"@)
}

/// `vault-tree` prints the whole hidden tree for the phrase that unlocks it, and for no
/// other.
pub proof fn lemma_vault_tree_command<D: Fn(&[u8]) -> Option<VaultPlaintext>>(
    decode: D,
    slot: SlotView,
    phrase: Seq<char>,
    now: i64,
    after: SlotView,
    r: Result<Seq<char>, Seq<char>>,
)
    requires
        crate::run::vault_ran(decode, slot, CommandView::VaultTree, phrase, now, after, r),
    ensures
        after == slot,
        locked_out(slot, phrase) ==> r == not_unlocked(),
        forall|k: Seq<u8>, p: Seq<u8>| #[trigger]
            let_in(slot, phrase, k, p) ==> {
                ||| r is Err && exists|e: VaultErrorView| #[trigger]
                    crate::vault::loads(decode, p, Err(e))
                ||| exists|s: Store| #[trigger]
                    crate::vault::loads(decode, p, Ok(s)) && prints_tree(s@, true, r)
            },
{
    lemma_unlocking(slot, phrase);
    if let Ok((k, p)) = crate::vault::unlocked_by(slot, phrase) {
        if exists|s: Store| #[trigger]
            crate::vault::loads(decode, p, Ok(s)) && crate::run::tree_told(
                crate::ops::visible(s@, true),
                r,
            ) {
            let s = choose|s: Store| #[trigger]
                crate::vault::loads(decode, p, Ok(s)) && crate::run::tree_told(
                    crate::ops::visible(s@, true),
                    r,
                );
            lemma_prints_tree(s@, true, r);
        }
    }
}

/// What `vault-mkdir` and `vault-add` do once the phrase has unlocked the vault: they make
/// the node in the hidden tree and write the vault anew, or they change nothing.
pub open spec fn made_in_vault(
    s: Store,
    u: Table,
    slot: SlotView,
    after: SlotView,
    key: Seq<u8>,
    parent: Option<i64>,
    texts_ok: bool,
    kind: NodeKind,
    title: Seq<char>,
    url: Option<Seq<char>>,
    now: i64,
    word: Seq<char>,
    r: Result<Seq<char>, Seq<char>>,
) -> bool {
    ||| {
        &&& made(s@, parent, texts_ok, kind, title, url, now, u, word, r)
        &&& r is Ok ==> crate::vault_request_laws::rewrote(slot, after, key, u)
        &&& r is Err ==> after == slot
    }
    ||| {
        &&& crate::vault::plaintext_of(u).len() > crate::cipher::MAX_MESSAGE
        &&& r is Err
        &&& after == slot
        &&& exists|r2: Result<Seq<char>, Seq<char>>|
            r2 is Ok && #[trigger] made(s@, parent, texts_ok, kind, title, url, now, u, word, r2)
    }
}

/// The outcome of `vault-mkdir` and `vault-add` once the phrase has unlocked the vault: an
/// error where the plaintext is no tree, else what the hidden tree gives.
pub open spec fn vault_served<D: Fn(&[u8]) -> Option<VaultPlaintext>>(
    decode: D,
    plain: Seq<u8>,
    slot: SlotView,
    after: SlotView,
    key: Seq<u8>,
    parent: Option<i64>,
    texts_ok: bool,
    kind: NodeKind,
    title: Seq<char>,
    url: Option<Seq<char>>,
    now: i64,
    word: Seq<char>,
    r: Result<Seq<char>, Seq<char>>,
) -> bool {
    ||| r is Err && after == slot && exists|e: VaultErrorView| #[trigger]
        crate::vault::loads(decode, plain, Err(e))
    ||| exists|s: Store, u: Table|
        crate::vault::loads(decode, plain, Ok(s)) && #[trigger] made_in_vault(
            s,
            u,
            slot,
            after,
            key,
            parent,
            texts_ok,
            kind,
            title,
            url,
            now,
            word,
            r,
        )
}

proof fn lemma_made_in_vault<D: Fn(&[u8]) -> Option<VaultPlaintext>>(
    decode: D,
    slot: SlotView,
    phrase: Seq<char>,
    p: spec_fn(Table, Table, Result<i64, StoreErrorView>) -> bool,
    error: spec_fn(Table) -> Option<StoreErrorView>,
    parent: Option<i64>,
    texts_ok: bool,
    kind: NodeKind,
    title: Seq<char>,
    url: Option<Seq<char>>,
    now: i64,
    word: Seq<char>,
    after: SlotView,
    r: Result<Seq<char>, Seq<char>>,
    k: Seq<u8>,
    plain: Seq<u8>,
)
    requires
        crate::run::vault_told(decode, slot, phrase, word, p, after, r),
        forall|t: Table, u: Table, y: Result<i64, StoreErrorView>| #[trigger]
            p(t, u, y) ==> crate::serve::node_created(
                t,
                error(t),
                parent,
                kind,
                title,
                url,
                now,
                u,
                y,
            ),
        forall|t: Table| texts_ok ==> #[trigger] error(t) == crate::ops::place_error(t, parent),
        forall|t: Table|
            !texts_ok ==> (#[trigger] error(t) matches Some(e) && !(e is CorruptVault)),
        let_in(slot, phrase, k, plain),
        k.len() == 32,
    ensures
        vault_served(
            decode,
            plain,
            slot,
            after,
            k,
            parent,
            texts_ok,
            kind,
            title,
            url,
            now,
            word,
            r,
        ),
{
    lemma_unlocking(slot, phrase);
    let text = crate::codec::base64_text(k);
    crate::codec::lemma_decodes(k);
    if !(r is Err && after == slot && exists|e: VaultErrorView| #[trigger]
        crate::vault::loads(decode, plain, Err(e))) {
        let x = choose|x: Result<i64, VaultErrorView>|
            crate::serve::vault_changed(decode, slot, text, p, after, x) && r
                == #[trigger] crate::run::vault_id_told(word, x);
        let o = crate::vault_request_laws::lemma_change(
            decode,
            slot,
            text,
            p,
            after,
            x,
            k,
            plain,
        );
        if let Some((s, u, y)) = o {
            s.lemma_finite();
            let r2 = crate::run::id_told(word, y);
            assert(p(s@, u, y));
            lemma_made(
                s@,
                parent,
                error(s@),
                texts_ok,
                kind,
                title,
                url,
                now,
                u,
                word,
                r2,
                y,
            );
            assert(made_in_vault(
                s,
                u,
                slot,
                after,
                k,
                parent,
                texts_ok,
                kind,
                title,
                url,
                now,
                word,
                r,
            ));
        }
    }
}

/// `vault-mkdir` makes a folder in the hidden tree, for the phrase that unlocks it.
pub proof fn lemma_vault_mkdir_command<D: Fn(&[u8]) -> Option<VaultPlaintext>>(
    decode: D,
    slot: SlotView,
    phrase: Seq<char>,
    parent: Option<i64>,
    title: Seq<char>,
    now: i64,
    after: SlotView,
    r: Result<Seq<char>, Seq<char>>,
    k: Seq<u8>,
    plain: Seq<u8>,
)
    requires
        crate::run::vault_ran(
            decode,
            slot,
            CommandView::VaultMkdir(parent, title),
            phrase,
            now,
            after,
            r,
        ),
    ensures
        locked_out(slot, phrase) ==> r == not_unlocked() && after == slot,
        let_in(slot, phrase, k, plain) && k.len() == 32 ==> vault_served(
                decode,
                plain,
                slot,
                after,
                k,
                parent,
                crate::change_laws::says_something(title),
                NodeKind::Folder,
                title,
                None,
                now,
                "created folder "@,
                r,
            ),
{
    lemma_unlocking(slot, phrase);
    crate::change_laws::lemma_says_something(title);
    if let_in(slot, phrase, k, plain) && k.len() == 32 {
        lemma_made_in_vault(
            decode,
            slot,
            phrase,
            |t: Table, u: Table, y: Result<i64, StoreErrorView>|
                crate::serve::folder_created(t, parent, title, now, u, y),
            |t: Table| crate::ops::create_folder_error(t, parent, title),
            parent,
            crate::change_laws::says_something(title),
            NodeKind::Folder,
            title,
            None,
            now,
            "created folder "@,
            after,
            r,
            k,
            plain,
        );
    }
}

/// `vault-add` makes a bookmark in the hidden tree, for the phrase that unlocks it.
pub proof fn lemma_vault_add_command<D: Fn(&[u8]) -> Option<VaultPlaintext>>(
    decode: D,
    slot: SlotView,
    phrase: Seq<char>,
    parent: Option<i64>,
    title: Seq<char>,
    url: Seq<char>,
    now: i64,
    after: SlotView,
    r: Result<Seq<char>, Seq<char>>,
    k: Seq<u8>,
    plain: Seq<u8>,
)
    requires
        crate::run::vault_ran(
            decode,
            slot,
            CommandView::VaultAdd(parent, title, url),
            phrase,
            now,
            after,
            r,
        ),
    ensures
        locked_out(slot, phrase) ==> r == not_unlocked() && after == slot,
        let_in(slot, phrase, k, plain) && k.len() == 32 ==> vault_served(
                decode,
                plain,
                slot,
                after,
                k,
                parent,
                crate::change_laws::says_something(title) && crate::change_laws::says_something(
                    url,
                ),
                NodeKind::Bookmark,
                title,
                Some(url),
                now,
                "added "@,
                r,
            ),
{
    lemma_unlocking(slot, phrase);
    crate::change_laws::lemma_says_something(title);
    crate::change_laws::lemma_says_something(url);
    if let_in(slot, phrase, k, plain) && k.len() == 32 {
        lemma_made_in_vault(
            decode,
            slot,
            phrase,
            |t: Table, u: Table, y: Result<i64, StoreErrorView>|
                crate::serve::bookmark_created(t, parent, title, url, now, u, y),
            |t: Table| crate::ops::create_bookmark_error(t, parent, title, url),
            parent,
            crate::change_laws::says_something(title) && crate::change_laws::says_something(url),
            NodeKind::Bookmark,
            title,
            Some(url),
            now,
            "added "@,
            after,
            r,
            k,
            plain,
        );
    }
}

/// `vault-create` makes a vault where there is none, for a phrase that says something; the
/// phrase then unlocks it. `vault-status` tells the one state from the other.
pub proof fn lemma_vault_create_command<D: Fn(&[u8]) -> Option<VaultPlaintext>>(
    decode: D,
    slot: SlotView,
    phrase: Seq<char>,
    now: i64,
    after: SlotView,
    r: Result<Seq<char>, Seq<char>>,
    later: SlotView,
    status: Result<Seq<char>, Seq<char>>,
)
    requires
        crate::run::vault_ran(decode, slot, CommandView::VaultCreate, phrase, now, after, r),
        crate::run::vault_ran(
            decode,
            after,
            CommandView::VaultStatus,
            phrase,
            now,
            later,
            status,
        ),
    ensures
        r is Ok ==> slot == SlotView::Empty && crate::change_laws::says_something(phrase) && r
            == Ok::<Seq<char>, Seq<char>>("vault created\n"@),
        r is Err ==> after == slot,
        !crate::change_laws::says_something(phrase) ==> r == Err::<Seq<char>, _>(
            "phrase must not be empty"@,
        ),
        crate::change_laws::says_something(phrase) && slot != SlotView::Empty ==> r == Err::<
            Seq<char>,
            _,
        >("a hidden vault already exists"@),
        r is Ok ==> exists|k: Seq<u8>| #[trigger]
            let_in(after, phrase, k, crate::vault::new_plaintext(now)),
        later == after,
        status == Ok::<Seq<char>, Seq<char>>(
            if after == SlotView::Empty {
                "none\n"@
            } else {
                "exists\n"@
            },
        ),
        r is Ok ==> after != SlotView::Empty,
{
    crate::change_laws::lemma_says_something(phrase);
    let x = choose|x: Result<Seq<char>, VaultErrorView>|
        {
            &&& #[trigger] crate::vault::created(slot, phrase, now, after, x)
            &&& match x {
                Ok(_) => r == Ok::<Seq<char>, Seq<char>>("vault created\n"@),
                Err(e) => r == crate::run::vault_failed(e),
            }
        };
    if x is Ok {
        let k = crate::vault::unlocked_by(after, phrase)->Ok_0.0;
        assert(let_in(after, phrase, k, crate::vault::new_plaintext(now)));
    }
}

/// What is printed of a list is printed of its parts, one after the other: for a page each
/// node gives a line with its id, its position and its title, a folder with a slash, a
/// bookmark with its URL.
pub proof fn lemma_page_prints_each(a: Seq<Node>, n: Node)
    ensures
        crate::run::page_lines(a.push(n), a.len() + 1) == crate::run::page_lines(a, a.len())
            + crate::text::decimal(n.id as int) + " ["@ + crate::text::decimal(n.position as int)
            + "] "@ + n.title@ + (match (n.kind, n.url) {
            (NodeKind::Folder, _) => "/"@,
            (NodeKind::Bookmark, Some(u)) => " -> "@ + u@,
            (NodeKind::Bookmark, None) => " -> "@,
        }) + "\n"@,
        crate::run::page_lines(a, 0).len() == 0,
{
    let s = a.push(n);
    lemma_page_lines_same(s, a, a.len());
    assert(s[a.len() as int] == n);
    assert(crate::run::page_lines(s, a.len() + 1) =~= crate::run::page_lines(a, a.len())
        + crate::text::decimal(n.id as int) + " ["@ + crate::text::decimal(n.position as int)
        + "] "@ + n.title@ + (match (n.kind, n.url) {
        (NodeKind::Folder, _) => "/"@,
        (NodeKind::Bookmark, Some(u)) => " -> "@ + u@,
        (NodeKind::Bookmark, None) => " -> "@,
    }) + "\n"@);
}

proof fn lemma_page_lines_same(s: Seq<Node>, a: Seq<Node>, k: nat)
    requires
        k <= a.len() <= s.len(),
        forall|i: int| 0 <= i < a.len() ==> s[i] == a[i],
    ensures
        crate::run::page_lines(s, k) == crate::run::page_lines(a, k),
    decreases k,
{
    if k > 0 {
        lemma_page_lines_same(s, a, (k - 1) as nat);
    }
}

/// The same for the list of bookmarks: a line for each, with its id, its title and its URL.
pub proof fn lemma_list_prints_each(a: Seq<Node>, n: Node)
    ensures
        crate::run::bookmark_lines(a.push(n), a.len() + 1) == crate::run::bookmark_lines(a, a.len())
            + crate::text::decimal(n.id as int) + "\t"@ + n.title@ + "\t"@ + (match n.url {
            Some(u) => u@,
            None => seq![],
        }) + "\n"@,
        crate::run::bookmark_lines(a, 0).len() == 0,
{
    let s = a.push(n);
    lemma_bookmark_lines_same(s, a, a.len());
    assert(s[a.len() as int] == n);
}

proof fn lemma_bookmark_lines_same(s: Seq<Node>, a: Seq<Node>, k: nat)
    requires
        k <= a.len() <= s.len(),
        forall|i: int| 0 <= i < a.len() ==> s[i] == a[i],
    ensures
        crate::run::bookmark_lines(s, k) == crate::run::bookmark_lines(a, k),
    decreases k,
{
    if k > 0 {
        lemma_bookmark_lines_same(s, a, (k - 1) as nat);
    }
}

/// A tree is printed as the line of its root, with its id, its position, its kind, its
/// title and its URL, and then its children one after the other, two spaces further in.
pub proof fn lemma_tree_prints_each(n: Node, depth: nat)
    ensures
        crate::run::tree_lines(n, depth) == spaces(2 * depth) + crate::text::decimal(n.id as int)
            + " ["@ + crate::text::decimal(n.position as int) + "] "@ + (match n.kind {
            NodeKind::Folder => "folder"@,
            NodeKind::Bookmark => "bookmark"@,
        }) + " "@ + n.title@ + (match n.url {
            Some(u) => " ("@ + u@ + ")"@,
            None => seq![],
        }) + "\n"@ + crate::run::list_lines(n.children@, depth + 1, n.children@.len()),
        crate::run::list_lines(n.children@, depth, 0).len() == 0,
        forall|k: nat|
            #![trigger crate::run::list_lines(n.children@, depth, k)]
            0 < k <= n.children@.len() ==> crate::run::list_lines(n.children@, depth, k)
                == crate::run::list_lines(n.children@, depth, (k - 1) as nat)
                + crate::run::tree_lines(n.children@[k - 1], depth),
{
    lemma_indent(depth);
    assert(crate::run::tree_lines(n, depth) =~= spaces(2 * depth) + crate::text::decimal(
        n.id as int,
    ) + " ["@ + crate::text::decimal(n.position as int) + "] "@ + (match n.kind {
        NodeKind::Folder => "folder"@,
        NodeKind::Bookmark => "bookmark"@,
    }) + " "@ + n.title@ + (match n.url {
        Some(u) => " ("@ + u@ + ")"@,
        None => seq![],
    }) + "\n"@ + crate::run::list_lines(n.children@, depth + 1, n.children@.len()));
}

/// So many spaces.
pub open spec fn spaces(n: nat) -> Seq<char> {
    Seq::new(n, |i: int| ' ')
}

proof fn lemma_indent(depth: nat)
    ensures
        crate::run::indent(depth) == spaces(2 * depth),
    decreases depth,
{
    reveal_strlit("  ");
    if depth > 0 {
        lemma_indent((depth - 1) as nat);
    }
    assert(crate::run::indent(depth) =~= spaces(2 * depth));
}

/// A phrase is what was typed but for the ends of line behind it; one that is nothing else
/// is refused.
pub proof fn lemma_phrase_is_typed(s: Seq<char>, r: Result<Seq<char>, Seq<char>>) -> (n: int)
    requires
        crate::run::phrase_read(s, r),
    ensures
        0 <= n <= s.len(),
        n > 0 ==> s[n - 1] != '\n' && s[n - 1] != '\r',
        forall|i: int| n <= i < s.len() ==> #[trigger] s[i] == '\n' || s[i] == '\r',
        n > 0 ==> r == Ok::<Seq<char>, Seq<char>>(s.take(n)),
        n == 0 ==> r == Err::<Seq<char>, Seq<char>>("empty phrase on stdin"@),
{
    lemma_line_end(s)
}

proof fn lemma_line_end(s: Seq<char>) -> (n: int)
    ensures
        0 <= n <= s.len(),
        crate::run::without_line_end(s) == s.take(n),
        n > 0 ==> s[n - 1] != '\n' && s[n - 1] != '\r',
        forall|i: int| n <= i < s.len() ==> #[trigger] s[i] == '\n' || s[i] == '\r',
    decreases s.len(),
{
    if s.len() > 0 && (s.last() == '\n' || s.last() == '\r') {
        let q = s.drop_last();
        let n = lemma_line_end(q);
        assert(q.take(n) =~= s.take(n));
        assert forall|i: int| n <= i < s.len() implies #[trigger] s[i] == '\n' || s[i] == '\r' by {
            if i < q.len() {
                assert(q[i] == s[i]);
            }
        }
        n
    } else {
        assert(s.take(s.len() as int) =~= s);
        s.len() as int
    }
}

} // verus!
