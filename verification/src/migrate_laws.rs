//! What a migration is for: every bookmark of the flat table is in the tree afterwards,
//! with all that was known of it, and nothing that was in the tree is lost.

use vstd::prelude::*;
use crate::migrate::{Database, LegacyView};
use crate::node::NodeKind;
use crate::table::{Entry, Table};

verus! {

/// The row is the bookmark, under `root`: with its URL, or no text where it had none; with
/// its title, or a stand-in where it had none or an empty one; with its time, or 0.
pub open spec fn took_over(b: LegacyView, root: i64, e: Entry) -> bool {
    &&& e.parent == Some(root)
    &&& e.kind == NodeKind::Bookmark
    &&& !e.hidden
    &&& b.url matches Some(url) ==> e.url == Some(url)
    &&& b.url is None ==> (e.url matches Some(url) && url.len() == 0)
    &&& b.title matches Some(title) ==> title.len() > 0 ==> e.title == title
    &&& (b.title is None || b.title->0.len() == 0) ==> e.title == "(untitled)"@
    &&& b.created matches Some(c) ==> e.created == c && e.modified == c
    &&& b.created is None ==> e.created == 0 && e.modified == 0
}

/// `a` was made no later than `b`: one without a time comes first, and of two with the same
/// time the one with the smaller id.
pub open spec fn in_turn(a: LegacyView, b: LegacyView) -> bool {
    match (a.created, b.created) {
        (Some(x), Some(y)) => x < y || (x == y && a.id <= b.id),
        (Some(_), None) => false,
        (None, Some(_)) => true,
        (None, None) => a.id <= b.id,
    }
}

/// `root` is the root that the table had, or else a new folder without a parent.
pub open spec fn rooted(t: Table, root: i64, now: i64, u: Table) -> bool {
    ||| crate::tree_laws::meant(t, None, root) && u[root] == t[root]
    ||| {
        &&& forall|x: i64| #[trigger] t.dom().contains(x) ==> t[x].parent is Some
        &&& !t.dom().contains(root)
        &&& u[root].parent is None
        &&& u[root].kind == NodeKind::Folder
        &&& u[root].title == "hecate"@
        &&& u[root].url is None
        &&& u[root].position == 0
        &&& u[root].created == now
        &&& u[root].modified == now
        &&& !u[root].hidden
    }
}

/// The rows `ids` are the bookmarks `s`, one each, behind all that the root held, and with
/// the root they are all that is new.
pub open spec fn appended(
    t: Table,
    root: i64,
    s: Seq<LegacyView>,
    ids: Seq<i64>,
    u: Table,
) -> bool {
    &&& ids.len() == s.len()
    &&& ids.no_duplicates()
    &&& forall|x: i64| #[trigger]
        u.dom().contains(x) <==> t.dom().contains(x) || x == root || ids.contains(x)
    &&& forall|x: i64| #[trigger] t.dom().contains(x) ==> u[x] == t[x]
    &&& forall|i: int|
        0 <= i < ids.len() ==> {
            &&& !t.dom().contains(#[trigger] ids[i])
            &&& ids[i] != root
            &&& took_over(s[i], root, u[ids[i]])
            &&& u[ids[i]].position == u[ids[0]].position + i
            &&& forall|y: i64| #[trigger]
                crate::tree_laws::child_of(t, root, y) ==> t[y].position < u[ids[i]].position
        }
    &&& ids.len() > 0 && (forall|y: i64| !#[trigger] crate::tree_laws::child_of(t, root, y))
        ==> u[ids[0]].position == 0
}

proof fn lemma_took_over(root: i64, position: int, b: LegacyView)
    requires
        i64::MIN <= position <= i64::MAX,
    ensures
        took_over(b, root, crate::migrate::legacy_entry(root, position, b)),
        crate::migrate::legacy_entry(root, position, b).position == position,
{
}

proof fn lemma_new_at(t: Table, root: i64, s: Seq<LegacyView>, ids: Seq<i64>, k: nat)
    requires
        crate::migrate::ids_new(t, root, s, ids),
        k < ids.len(),
    ensures
        !crate::migrate::copied(t, root, s, ids, k).dom().contains(ids[k as int]),
{
    reveal(crate::migrate::ids_new);
    assert(crate::ops::is_new_id(
        crate::migrate::copied(t, root, s, ids, k as int as nat),
        ids[k as int],
    ));
}

proof fn lemma_copied(
    t: Table,
    root: i64,
    s: Seq<LegacyView>,
    ids: Seq<i64>,
    k: nat,
)
    requires
        t.dom().contains(root),
        crate::migrate::ids_new(t, root, s, ids),
        ids.len() == s.len(),
        k <= s.len(),
        crate::ops::next_position(t, root) + s.len() <= i64::MAX,
    ensures
        forall|x: i64| #[trigger]
            crate::migrate::copied(t, root, s, ids, k).dom().contains(x) <==> t.dom().contains(x)
                || exists|i: int| 0 <= i < k && ids[i] == x,
        forall|x: i64| #[trigger]
            t.dom().contains(x) ==> crate::migrate::copied(t, root, s, ids, k)[x] == t[x],
        forall|i: int|
            0 <= i < k ==> {
                &&& !t.dom().contains(#[trigger] ids[i])
                &&& took_over(s[i], root, crate::migrate::copied(t, root, s, ids, k)[ids[i]])
                &&& crate::migrate::copied(t, root, s, ids, k)[ids[i]].position
                    == crate::ops::next_position(t, root) + i
            },
        forall|i: int, j: int| 0 <= i < j < k ==> #[trigger] ids[i] != #[trigger] ids[j],
    decreases k,
{
    if k > 0 {
        let j = (k - 1) as nat;
        lemma_copied(t, root, s, ids, j);
        let before = crate::migrate::copied(t, root, s, ids, j);
        let after = crate::migrate::copied(t, root, s, ids, k);
        let id = ids[j as int];
        let position = crate::ops::next_position(t, root) + k - 1;
        let e = crate::migrate::legacy_entry(root, position, s[j as int]);
        assert(after == before.insert(id, e));
        lemma_new_at(t, root, s, ids, j);
        lemma_took_over(root, position, s[j as int]);
        assert forall|x: i64| #[trigger] after.dom().contains(x) <==> t.dom().contains(x)
            || exists|i: int| 0 <= i < k && ids[i] == x by {
            assert(after.dom().contains(x) <==> before.dom().contains(x) || x == id);
            if x == id {
                assert(ids[j as int] == x);
            }
        }
        assert forall|i: int| 0 <= i < j implies #[trigger] ids[i] != id by {
            assert(before.dom().contains(ids[i]));
        }
        assert forall|i: int| 0 <= i < k implies {
            &&& !t.dom().contains(#[trigger] ids[i])
            &&& took_over(s[i], root, after[ids[i]])
            &&& after[ids[i]].position == crate::ops::next_position(t, root) + i
        } by {
            if i < j {
                assert(after[ids[i]] == before[ids[i]]);
            }
        }
    }
}

/// A migration of a flat table: each of its bookmarks becomes a bookmark under the root,
/// the oldest first, behind what the root held; the rest of the tree stays as it was.
pub proof fn lemma_migration_keeps_all(
    t: Table,
    b: Seq<LegacyView>,
    now: i64,
    u: Table,
) -> (r: (i64, Seq<LegacyView>, Seq<i64>))
    requires
        t.dom().finite(),
        crate::migrate::migrated(t, Some(b), now, u),
    ensures
        rooted(t, r.0, now, u),
        r.1.to_multiset() == b.to_multiset(),
        forall|i: int, j: int|
            0 <= i < j < r.1.len() ==> in_turn(#[trigger] r.1[i], #[trigger] r.1[j]),
        appended(t, r.0, r.1, r.2, u),
{
    let (t1, root) = choose|t1: Table, root: i64|
        {
            &&& #[trigger] crate::migrate::rooted_by(t, t1, root, now)
            &&& crate::migrate::copy_error(t1, root, Some(b)) is None
            &&& exists|s: Seq<LegacyView>| #[trigger]
                crate::migrate::taken_in_order(b, s) && crate::migrate::copies(t1, root, s, u)
        };
    let s = choose|s: Seq<LegacyView>| #[trigger]
        crate::migrate::taken_in_order(b, s) && crate::migrate::copies(t1, root, s, u);
    let ids = choose|ids: Seq<i64>|
        {
            &&& ids.len() == s.len()
            &&& crate::migrate::ids_new(t1, root, s, ids)
            &&& u == #[trigger] crate::migrate::copied(t1, root, s, ids, s.len())
        };
    crate::tree_laws::lemma_meant(t, None);
    lemma_root_found(t);
    s.to_multiset_ensures();
    b.to_multiset_ensures();
    assert(s.len() == b.len());
    if crate::ops::root_of(t) is Some {
        assert(crate::ops::is_first_root(t, root));
        assert(crate::table::sits_under(t, None, root));
    }
    assert(t1.dom().contains(root));
    assert(t1.dom().finite());
    lemma_copied(t1, root, s, ids, s.len());
    crate::change_laws::lemma_next_found(t1, root);
    let next = crate::ops::next_position(t1, root);
    assert forall|i: int| 0 <= i < ids.len() implies {
        &&& !t.dom().contains(#[trigger] ids[i])
        &&& ids[i] != root
        &&& took_over(s[i], root, u[ids[i]])
        &&& u[ids[i]].position == u[ids[0]].position + i
        &&& forall|y: i64| #[trigger]
            crate::tree_laws::child_of(t, root, y) ==> t[y].position < u[ids[i]].position
    } by {
        assert(u[ids[0]].position == next);
        assert forall|y: i64| #[trigger] crate::tree_laws::child_of(t, root, y) implies t[y].position
            < u[ids[i]].position by {
            assert(t1[y] == t[y]);
            assert(crate::table::sits_under(t1, Some(root), y));
        }
    }
    if ids.len() > 0 && (forall|y: i64| !#[trigger] crate::tree_laws::child_of(t, root, y)) {
        assert forall|y: i64| !crate::table::sits_under(t1, Some(root), y) by {
            assert(!crate::tree_laws::child_of(t, root, y));
        }
        assert(u[ids[0]].position == next);
    }
    assert forall|x: i64| #[trigger] u.dom().contains(x) <==> t.dom().contains(x) || x == root
        || ids.contains(x) by {
        if ids.contains(x) {
            let i = choose|i: int| 0 <= i < ids.len() && ids[i] == x;
        }
    }
    assert forall|i: int, j: int| 0 <= i < j < s.len() implies in_turn(
        #[trigger] s[i],
        #[trigger] s[j],
    ) by {
        assert(!crate::migrate::legacy_before(s[j], s[i]));
    }
    assert forall|x: i64| #[trigger] t.dom().contains(x) implies u[x] == t[x] by {
        assert(t1.dom().contains(x));
    }
    (root, s, ids)
}

/// For every bookmark of the flat table the migrated tree holds a row under its root that
/// was not there before, with that bookmark's URL, title and time.
pub proof fn lemma_no_bookmark_is_lost(
    t: Table,
    b: Seq<LegacyView>,
    now: i64,
    u: Table,
    j: int,
) -> (r: (i64, i64))
    requires
        t.dom().finite(),
        crate::migrate::migrated(t, Some(b), now, u),
        0 <= j < b.len(),
    ensures
        rooted(t, r.0, now, u),
        !t.dom().contains(r.1),
        u.dom().contains(r.1),
        took_over(b[j], r.0, u[r.1]),
{
    let (root, s, ids) = lemma_migration_keeps_all(t, b, now, u);
    s.to_multiset_ensures();
    b.to_multiset_ensures();
    assert(b.contains(b[j]));
    assert(b.to_multiset().count(b[j]) > 0);
    assert(s.contains(b[j]));
    let i = choose|i: int| 0 <= i < s.len() && s[i] == b[j];
    assert(ids.contains(ids[i]));
    (root, ids[i])
}

/// A table without flat bookmarks gets a root where it had none, and nothing else.
pub proof fn lemma_migration_of_a_tree(t: Table, now: i64, u: Table) -> (root: i64)
    requires
        t.dom().finite(),
        crate::migrate::migrated(t, None, now, u),
    ensures
        rooted(t, root, now, u),
        forall|x: i64| #[trigger] u.dom().contains(x) <==> t.dom().contains(x) || x == root,
        forall|x: i64| #[trigger] t.dom().contains(x) ==> u[x] == t[x],
{
    let (t1, root) = choose|t1: Table, root: i64|
        #[trigger] crate::migrate::rooted_by(t, t1, root, now) && u == t1;
    crate::tree_laws::lemma_meant(t, None);
    lemma_root_found(t);
    if crate::ops::root_of(t) is Some {
        assert(crate::ops::is_first_root(t, root));
        assert(crate::table::sits_under(t, None, root));
    }
    root
}

/// A table with a row that has no parent has a root.
proof fn lemma_root_found(t: Table)
    requires
        t.dom().finite(),
    ensures
        crate::ops::root_of(t) is None ==> forall|x: i64| #[trigger]
            t.dom().contains(x) ==> t[x].parent is Some,
{
    if exists|x: i64| #[trigger] t.dom().contains(x) && t[x].parent is None {
        let x = choose|x: i64| #[trigger] t.dom().contains(x) && t[x].parent is None;
        let s = crate::table::lemma_order_exists(t, None);
        assert(crate::table::sits_under(t, None, x));
        assert(s.contains(x));
        assert(s.contains(s[0]));
        assert forall|y: i64| #[trigger] crate::table::sits_under(t, None, y) && y
            != s[0] implies crate::table::before(t, s[0], y) by {
            assert(s.contains(y));
            let i = choose|i: int| 0 <= i < s.len() && s[i] == y;
            assert(crate::table::before(t, s[0], s[i]));
        }
        assert(crate::ops::is_first_root(t, s[0]));
    }
}

/// A migration fails only where the rows or the positions run out.
pub proof fn lemma_migration_is_done(
    t: Table,
    b: Option<Seq<LegacyView>>,
    now: i64,
    e: crate::error::StoreErrorView,
)
    requires
        t.dom().finite(),
        crate::migrate::migration_fails(t, b, now, e),
    ensures
        ({
            let n: int = match b {
                Some(s) => s.len() as int,
                None => 0,
            };
            ||| t.dom().len() + n + 1 > 0x7fff_ffff_ffff_ffff
            ||| exists|x: i64| #[trigger]
                t.dom().contains(x) && t[x].position + 1 + n > 0x7fff_ffff_ffff_ffff
        }),
{
    let n: int = match b {
        Some(s) => s.len() as int,
        None => 0,
    };
    if t.dom().len() + n + 1 <= 0x7fff_ffff_ffff_ffff {
        let (t1, root) = choose|t1: Table, root: i64|
            #[trigger] crate::migrate::rooted_by(t, t1, root, now) && crate::migrate::copy_error(
                t1,
                root,
                b,
            ) == Some(e);
        assert(t1.dom().len() <= t.dom().len() + 1);
        assert(t1.dom().finite());
        if crate::ops::positions_exhausted(t1, root) {
            let x = choose|x: i64| #[trigger]
                crate::table::sits_under(t1, Some(root), x) && t1[x].position == i64::MAX;
            assert(t.dom().contains(x));
        } else {
            crate::change_laws::lemma_next_found(t1, root);
            let next = crate::ops::next_position(t1, root);
            if exists|x: i64| #[trigger]
                crate::table::sits_under(t1, Some(root), x) && t1[x].position == next - 1 {
                let x = choose|x: i64| #[trigger]
                    crate::table::sits_under(t1, Some(root), x) && t1[x].position == next - 1;
                assert(t.dom().contains(x));
            }
        }
    }
}

/// The tree has a new row that is the bookmark, under its root.
pub open spec fn is_kept(b: LegacyView, t: Table, now: i64, u: Table) -> bool {
    exists|root: i64, id: i64|
        {
            &&& #[trigger] rooted(t, root, now, u)
            &&& !t.dom().contains(id)
            &&& #[trigger] u.dom().contains(id)
            &&& took_over(b, root, u[id])
        }
}

/// A migration brings a database to version 3 and does away with the flat table: each of
/// its bookmarks is then in the tree, and every row of the tree is still what it was. A
/// database of that version is left alone, and so is one for which there is no room.
pub proof fn lemma_upgrade_keeps_all(
    before: Database,
    now: i64,
    r: Result<(), crate::error::StoreErrorView>,
    after: Database,
)
    requires
        before.nodes.wf(),
        crate::migrate::upgraded(before, now, r, after),
    ensures
        before.user_version >= 3 ==> r is Ok && after == before,
        r is Err ==> after == before,
        before.user_version < 3 && r is Ok ==> {
            &&& after.user_version == 3
            &&& after.bookmarks is None
            &&& forall|x: i64| #[trigger]
                before.nodes@.dom().contains(x) ==> after.nodes@.dom().contains(x)
                    && after.nodes@[x] == before.nodes@[x]
            &&& before.bookmarks matches Some(b) ==> forall|j: int|
                0 <= j < b@.len() ==> is_kept(
                    (#[trigger] b@[j])@,
                    before.nodes@,
                    now,
                    after.nodes@,
                )
        },
{
    before.nodes.lemma_finite();
    let t = before.nodes@;
    let u = after.nodes@;
    if before.user_version < 3 && r is Ok {
        match before.bookmarks {
            Some(b) => {
                let views = crate::migrate::legacy_views(b@);
                let (root, s, ids) = lemma_migration_keeps_all(t, views, now, u);
                assert forall|j: int| 0 <= j < b@.len() implies is_kept(
                    (#[trigger] b@[j])@,
                    t,
                    now,
                    u,
                ) by {
                    let (root, id) = lemma_no_bookmark_is_lost(t, views, now, u, j);
                    assert(views[j] == b@[j]@);
                    assert(rooted(t, root, now, u));
                    assert(took_over(b@[j]@, root, u[id]));
                }
            },
            None => {
                let root = lemma_migration_of_a_tree(t, now, u);
            },
        }
    }
}

} // verus!
