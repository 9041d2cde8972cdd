//! Bringing a database up to the current schema version.

use vstd::prelude::*;
use crate::error::{StoreError, StoreErrorView};
use crate::node::NodeKind;
use crate::store::{Store, MAX_ROWS};
use crate::table::{Entry, Table};

verus! {

/// Current schema version. Version 3 has the `vault` table besides the `nodes`
/// tree, version 2 the tree alone, version 1 a flat `bookmarks` table.
pub const SCHEMA_VERSION: i64 = 3;

/// A row of the flat `bookmarks` table. Its columns were never null in a sound
/// database; a damaged one is taken over as far as it can be read.
#[derive(Debug)]
pub struct LegacyBookmark {
    pub id: i64,
    pub title: Option<String>,
    pub url: Option<String>,
    pub created: Option<i64>,
}

/// What a [`LegacyBookmark`] holds.
#[verifier::ext_equal]
pub struct LegacyView {
    pub id: i64,
    pub title: Option<Seq<char>>,
    pub url: Option<Seq<char>>,
    pub created: Option<i64>,
}

impl View for LegacyBookmark {
    type V = LegacyView;

    open spec fn view(&self) -> LegacyView {
        LegacyView {
            id: self.id,
            title: crate::node::opt_text(self.title),
            url: crate::node::opt_text(self.url),
            created: self.created,
        }
    }
}

/// The tables of a database file that a migration reads and writes.
#[derive(Debug)]
pub struct Database {
    /// The schema version that is stamped on the file.
    pub user_version: i64,
    /// The `nodes` table; empty where there is none yet.
    pub nodes: Store,
    /// The `bookmarks` table, where there is one.
    pub bookmarks: Option<Vec<LegacyBookmark>>,
}

/// The views of a list of bookmarks.
pub open spec fn legacy_views(s: Seq<LegacyBookmark>) -> Seq<LegacyView> {
    Seq::new(s.len(), |i: int| s[i]@)
}

/// The order in which bookmarks are taken over: by creation time, unknown ones
/// first, then by id.
pub open spec fn legacy_before(a: LegacyView, b: LegacyView) -> bool {
    match (a.created, b.created) {
        (None, Some(_)) => true,
        (Some(_), None) => false,
        (None, None) => a.id < b.id,
        (Some(x), Some(y)) => x < y || (x == y && a.id < b.id),
    }
}

/// `s` lists the bookmarks `b` in the order in which they are taken over.
pub open spec fn taken_in_order(b: Seq<LegacyView>, s: Seq<LegacyView>) -> bool {
    &&& s.to_multiset() == b.to_multiset()
    &&& forall|i: int, j: int|
        #![trigger s[i], s[j]]
        0 <= i < j < s.len() ==> !legacy_before(s[j], s[i])
}

/// The node that a bookmark becomes.
pub open spec fn legacy_entry(root: i64, position: int, b: LegacyView) -> Entry {
    let created = match b.created {
        Some(c) => c,
        None => 0,
    };
    Entry {
        parent: Some(root),
        kind: NodeKind::Bookmark,
        title: match b.title {
            Some(t) => if t.len() == 0 {
                "(untitled)"@
            } else {
                t
            },
            None => "(untitled)"@,
        },
        url: Some(
            match b.url {
                Some(u) => u,
                None => seq![],
            },
        ),
        position: position as i64,
        created,
        modified: created,
        hidden: false,
    }
}

/// The root folder of a new tree.
pub open spec fn new_root(now: i64) -> Entry {
    Entry {
        parent: None,
        kind: NodeKind::Folder,
        title: "hecate"@,
        url: None,
        position: 0,
        created: now,
        modified: now,
        hidden: false,
    }
}

/// `u` is `t` with a root `root`: the one it has, else a new one.
pub open spec fn rooted_by(t: Table, u: Table, root: i64, now: i64) -> bool {
    match crate::ops::root_of(t) {
        Some(r) => u == t && root == r,
        None => crate::ops::is_new_id(t, root) && u == t.insert(root, new_root(now)),
    }
}

/// The table with the first `k` of the bookmarks appended under `root`.
pub open spec fn copied(t: Table, root: i64, s: Seq<LegacyView>, ids: Seq<i64>, k: nat) -> Table
    decreases k,
{
    if k == 0 {
        t
    } else {
        copied(t, root, s, ids, (k - 1) as nat).insert(
            ids[k - 1],
            legacy_entry(root, crate::ops::next_position(t, root) + k - 1, s[k - 1]),
        )
    }
}

/// Each of the ids is new when its bookmark is appended.
#[verifier::opaque]
pub open spec fn ids_new(t: Table, root: i64, s: Seq<LegacyView>, ids: Seq<i64>) -> bool {
    forall|k: int|
        0 <= k < ids.len() ==> crate::ops::is_new_id(
            copied(t, root, s, ids, k as nat),
            #[trigger] ids[k],
        )
}

/// `u` is `t` with the bookmarks appended under `root`, in order, each under a new id.
pub open spec fn copies(t: Table, root: i64, s: Seq<LegacyView>, u: Table) -> bool {
    exists|ids: Seq<i64>|
        {
            &&& ids.len() == s.len()
            &&& ids_new(t, root, s, ids)
            &&& u == #[trigger] copied(t, root, s, ids, s.len())
        }
}

/// Why the bookmarks cannot be appended under `root`: no position or no row is left.
pub open spec fn copy_error(t: Table, root: i64, bookmarks: Option<Seq<LegacyView>>) -> Option<
    StoreErrorView,
> {
    match bookmarks {
        None => None,
        Some(b) => if crate::ops::positions_exhausted(t, root) {
            Some(crate::ops::position_error())
        } else if crate::ops::next_position(t, root) + b.len() > i64::MAX {
            Some(StoreErrorView::Sqlite("Invalid column type Real at index: 5, name: position"@))
        } else if t.dom().len() + b.len() > MAX_ROWS {
            Some(StoreErrorView::Sqlite("database or disk is full"@))
        } else {
            None
        },
    }
}

/// Why the tables cannot be migrated.
pub open spec fn migration_fails(
    t: Table,
    bookmarks: Option<Seq<LegacyView>>,
    now: i64,
    e: StoreErrorView,
) -> bool {
    if crate::ops::root_of(t) is None && t.dom().len() >= MAX_ROWS {
        e == StoreErrorView::Sqlite("database or disk is full"@)
    } else {
        exists|t1: Table, root: i64| #[trigger]
            rooted_by(t, t1, root, now) && copy_error(t1, root, bookmarks) == Some(e)
    }
}

/// `u` is the `nodes` table of a migrated database.
pub open spec fn migrated(t: Table, bookmarks: Option<Seq<LegacyView>>, now: i64, u: Table) -> bool {
    &&& crate::ops::root_of(t) is None ==> t.dom().len() < MAX_ROWS
    &&& exists|t1: Table, root: i64|
        {
            &&& #[trigger] rooted_by(t, t1, root, now)
            &&& copy_error(t1, root, bookmarks) is None
            &&& match bookmarks {
                Some(b) => exists|s: Seq<LegacyView>| #[trigger]
                    taken_in_order(b, s) && copies(t1, root, s, u),
                None => u == t1,
            }
        }
}

impl Database {
    /// The bookmarks as views.
    pub open spec fn legacy(&self) -> Option<Seq<LegacyView>> {
        match self.bookmarks {
            Some(b) => Some(legacy_views(b@)),
            None => None,
        }
    }
}

/// Whether `a` is taken over before `b`.
fn is_before(a: &LegacyBookmark, b: &LegacyBookmark) -> (r: bool)
    ensures
        r == legacy_before(a@, b@),
{
    match (a.created, b.created) {
        (None, Some(_)) => true,
        (Some(_), None) => false,
        (None, None) => a.id < b.id,
        (Some(x), Some(y)) => x < y || (x == y && a.id < b.id),
    }
}

/// The indices of the bookmarks in the order in which they are taken over.
fn taking_order(b: &Vec<LegacyBookmark>) -> (r: Vec<usize>)
    ensures
        r@.len() == b@.len(),
        forall|k: int| 0 <= k < r@.len() ==> 0 <= #[trigger] r@[k] < b@.len(),
        taken_in_order(
            legacy_views(b@),
            Seq::new(r@.len(), |k: int| b@[r@[k] as int]@),
        ),
{
    let ghost v = legacy_views(b@);
    let mut r: Vec<usize> = Vec::new();
    let mut i: usize = 0;
    assert(v.take(0) =~= Seq::empty());
    assert(listed(v, r@) =~= Seq::empty());
    while i < b.len()
        invariant
            v == legacy_views(b@),
            i <= b@.len(),
            r@.len() == i,
            forall|k: int| 0 <= k < i ==> 0 <= #[trigger] r@[k] < i,
            taken_in_order(v.take(i as int), listed(v, r@)),
        decreases b@.len() - i,
    {
        let ghost s = listed(v, r@);
        let ghost x = v[i as int];
        let mut at: usize = 0;
        while at < r.len() && !is_before(&b[i], &b[r[at]])
            invariant
                v == legacy_views(b@),
                i < b@.len(),
                x == v[i as int],
                r@.len() == i,
                forall|k: int| 0 <= k < i ==> 0 <= #[trigger] r@[k] < i,
                s == listed(v, r@),
                at <= r@.len(),
                forall|k: int| 0 <= k < at ==> !legacy_before(x, #[trigger] s[k]),
            decreases r@.len() - at,
        {
            assert(s[at as int] == b@[r@[at as int] as int]@);
            at = at + 1;
        }
        proof {
            if at < r@.len() {
                assert(s[at as int] == b@[r@[at as int] as int]@);
            }
            lemma_insert_taken(v.take(i as int), s, x, at as int);
            assert(v.take(i + 1) =~= v.take(i as int).push(x));
            assert(listed(v, r@.insert(at as int, i)) =~= s.insert(at as int, x));
        }
        let ghost before = r@;
        r.insert(at, i);
        proof {
            assert forall|k: int| 0 <= k < r@.len() implies 0 <= #[trigger] r@[k] < i + 1 by {
                let m = if k < at { k } else { k - 1 };
                if k != at {
                    assert(r@[k] == before[m]);
                }
            }
        }
        i = i + 1;
    }
    proof {
        assert(v.take(v.len() as int) =~= v);
        assert(listed(v, r@) =~= Seq::new(r@.len(), |k: int| b@[r@[k] as int]@));
    }
    r
}

spec fn listed(v: Seq<LegacyView>, r: Seq<usize>) -> Seq<LegacyView> {
    Seq::new(r.len(), |k: int| v[r[k] as int])
}

/// Inserting a bookmark before the first later one keeps the order.
proof fn lemma_insert_taken(b: Seq<LegacyView>, s: Seq<LegacyView>, x: LegacyView, at: int)
    requires
        taken_in_order(b, s),
        0 <= at <= s.len(),
        forall|k: int| 0 <= k < at ==> !legacy_before(x, #[trigger] s[k]),
        at < s.len() ==> legacy_before(x, s[at]),
    ensures
        taken_in_order(b.push(x), s.insert(at, x)),
{
    broadcast use vstd::seq_lib::group_to_multiset_ensures;

    let q = s.insert(at, x);
    assert(q.to_multiset() =~= b.push(x).to_multiset());
    assert forall|i: int, j: int|
        #![trigger q[i], q[j]]
        0 <= i < j < q.len() implies !legacy_before(q[j], q[i]) by {
        let k = if i < at { i } else { i - 1 };
        let m = if j < at { j } else { j - 1 };
        if i != at && j != at {
            assert(q[i] == s[k] && q[j] == s[m]);
        } else if j == at {
            assert(q[i] == s[k]);
        } else {
            assert(q[j] == s[m]);
            if m > at {
                assert(!legacy_before(s[m], s[at]));
            }
        }
    }
}

/// The title of the node that a bookmark becomes.
fn legacy_title(b: &LegacyBookmark) -> (r: String)
    ensures
        r@ == legacy_entry(0, 0, b@).title,
{
    match &b.title {
        Some(t) => if t.as_str().as_bytes().len() == 0 {
            proof {
                crate::text::lemma_no_bytes(t@);
            }
            "(untitled)".to_owned()
        } else {
            proof {
                crate::text::lemma_no_bytes(t@);
            }
            t.clone()
        },
        None => "(untitled)".to_owned(),
    }
}

/// Appends one bookmark under `root`.
fn copy_one(nodes: &mut Store, root: i64, position: i64, one: &LegacyBookmark) -> (id: i64)
    requires
        old(nodes).wf(),
        old(nodes)@.dom().len() < MAX_ROWS,
    ensures
        final(nodes).wf(),
        crate::ops::is_new_id(old(nodes)@, id),
        final(nodes)@ == old(nodes)@.insert(id, legacy_entry(root, position as int, one@)),
        final(nodes)@.dom().len() == old(nodes)@.dom().len() + 1,
{
    proof {
        nodes.lemma_finite();
    }
    let created: i64 = match one.created {
        Some(c) => c,
        None => 0,
    };
    let url: String = match &one.url {
        Some(u) => u.clone(),
        None => String::new(),
    };
    let title = legacy_title(one);
    let ghost e = Entry {
        parent: Some(root),
        kind: NodeKind::Bookmark,
        title: title@,
        url: Some(url@),
        position,
        created,
        modified: created,
        hidden: false,
    };
    proof {
        let want = legacy_entry(root, position as int, one@);
        assert(want.url->0 =~= url@);
        assert(want =~= e);
    }
    nodes.insert(Some(root), NodeKind::Bookmark, title, Some(url), position, created)
}

/// Appends the bookmarks under `root`.
#[verifier::rlimit(40)]
fn copy_bookmarks(nodes: &mut Store, root: i64, base: i64, b: &Vec<LegacyBookmark>)
    requires
        old(nodes).wf(),
        base == crate::ops::next_position(old(nodes)@, root),
        base + b@.len() <= i64::MAX,
        old(nodes)@.dom().len() + b@.len() <= MAX_ROWS,
    ensures
        final(nodes).wf(),
        exists|s: Seq<LegacyView>| #[trigger]
            taken_in_order(legacy_views(b@), s) && copies(old(nodes)@, root, s, final(nodes)@),
{
    let order = taking_order(b);
    let ghost t = nodes@;
    let ghost s: Seq<LegacyView> = Seq::new(order@.len(), |k: int| b@[order@[k] as int]@);
    let ghost mut ids: Seq<i64> = Seq::empty();
    let mut i: usize = 0;
    assert(ids_new(t, root, s, ids)) by {
        reveal(ids_new);
    }
    while i < order.len()
        invariant
            nodes.wf(),
            base == crate::ops::next_position(t, root),
            base + b@.len() <= i64::MAX,
            t.dom().len() + b@.len() <= MAX_ROWS,
            order@.len() == b@.len(),
            forall|k: int| 0 <= k < order@.len() ==> 0 <= #[trigger] order@[k] < b@.len(),
            s == Seq::new(order@.len(), |k: int| b@[order@[k] as int]@),
            i <= order@.len(),
            ids.len() == i,
            nodes@ == copied(t, root, s, ids, i as nat),
            nodes@.dom().len() == t.dom().len() + i,
            ids_new(t, root, s, ids),
        decreases order@.len() - i,
    {
        let ghost before = nodes@;
        let position: i64 = (base as i128 + i as i128) as i64;
        let id: i64 = copy_one(nodes, root, position, &b[order[i]]);
        proof {
            let more = ids.push(id);
            assert(s[i as int] == b@[order@[i as int] as int]@);
            lemma_one_more(t, root, s, ids, id);
            ids = more;
        }
        i = i + 1;
    }
    proof {
        assert(copied(t, root, s, ids, s.len()) == nodes@);
        assert(copies(t, root, s, nodes@));
    }
}

proof fn lemma_one_more(t: Table, root: i64, s: Seq<LegacyView>, ids: Seq<i64>, id: i64)
    requires
        ids_new(t, root, s, ids),
        crate::ops::is_new_id(copied(t, root, s, ids, ids.len()), id),
    ensures
        ids_new(t, root, s, ids.push(id)),
        copied(t, root, s, ids.push(id), ids.len()) == copied(t, root, s, ids, ids.len()),
{
    reveal(ids_new);
    let more = ids.push(id);
    lemma_copied_prefix(t, root, s, ids, more, ids.len());
    assert forall|k: int| 0 <= k < more.len() implies crate::ops::is_new_id(
        copied(t, root, s, more, k as nat),
        #[trigger] more[k],
    ) by {
        lemma_copied_prefix(t, root, s, ids, more, k as nat);
        if k < ids.len() {
            assert(ids[k] == more[k]);
        }
    }
}

proof fn lemma_copied_prefix(
    t: Table,
    root: i64,
    s: Seq<LegacyView>,
    a: Seq<i64>,
    b: Seq<i64>,
    k: nat,
)
    requires
        k <= a.len() <= b.len(),
        forall|i: int| 0 <= i < a.len() ==> a[i] == b[i],
    ensures
        copied(t, root, s, a, k) == copied(t, root, s, b, k),
    decreases k,
{
    if k > 0 {
        lemma_copied_prefix(t, root, s, a, b, (k - 1) as nat);
    }
}

/// `after` is what a migration makes of the database `before`.
pub open spec fn upgraded(
    before: Database,
    now: i64,
    r: Result<(), StoreErrorView>,
    after: Database,
) -> bool {
    if before.user_version >= SCHEMA_VERSION {
        r is Ok && after == before
    } else {
        match r {
            Ok(_) => {
                &&& after.user_version == SCHEMA_VERSION
                &&& after.bookmarks is None
                &&& migrated(before.nodes@, before.legacy(), now, after.nodes@)
            },
            Err(e) => migration_fails(before.nodes@, before.legacy(), now, e) && after == before,
        }
    }
}

/// What a migration came to.
pub open spec fn migration_outcome(r: Result<(), StoreError>) -> Result<(), StoreErrorView> {
    match r {
        Ok(_) => Ok(()),
        Err(e) => Err(e@),
    }
}

/// Brings the tables up to the current version: a root folder is made where there
/// is none, and the bookmarks of a flat table are appended to the root's children.
/// A database of the current version is left as it is; so is one for which the
/// migration fails.
pub fn migrate(db: &mut Database, now: i64) -> (r: Result<(), StoreError>)
    requires
        old(db).nodes.wf(),
    ensures
        final(db).nodes.wf(),
        upgraded(*old(db), now, migration_outcome(r), *final(db)),
        old(db).user_version >= SCHEMA_VERSION ==> r is Ok && *final(db) == *old(db),
        old(db).user_version < SCHEMA_VERSION ==> match r {
            Ok(_) => {
                &&& final(db).user_version == SCHEMA_VERSION
                &&& final(db).bookmarks is None
                &&& migrated(old(db).nodes@, old(db).legacy(), now, final(db).nodes@)
            },
            Err(e) => {
                &&& migration_fails(old(db).nodes@, old(db).legacy(), now, e@)
                &&& *final(db) == *old(db)
            },
        },
{
    if db.user_version >= SCHEMA_VERSION {
        return Ok(());
    }
    let ghost t = db.nodes@;
    let ghost legacy = db.legacy();
    let mut nodes = db.nodes.clone();
    proof {
        nodes.lemma_finite();
    }
    let root: i64 = match nodes.root_id() {
        Ok(id) => id,
        Err(_) => {
            if nodes.count() >= MAX_ROWS {
                return Err(StoreError::Sqlite("database or disk is full".to_owned()));
            }
            nodes.insert(None, NodeKind::Folder, "hecate".to_owned(), None, 0, now)
        },
    };
    let ghost t1 = nodes@;
    assert(rooted_by(t, t1, root, now));
    match &db.bookmarks {
        Some(b) => {
            let base: i64 = match nodes.next_position(root) {
                Err(e) => {
                    return Err(e);
                },
                Ok(n) => n,
            };
            let more: u64 = b.len() as u64;
            if base as i128 + more as i128 > i64::MAX as i128 {
                return Err(
                    StoreError::Sqlite(
                        "Invalid column type Real at index: 5, name: position".to_owned(),
                    ),
                );
            }
            if more > MAX_ROWS - nodes.count() {
                return Err(StoreError::Sqlite("database or disk is full".to_owned()));
            }
            copy_bookmarks(&mut nodes, root, base, b);
        },
        None => {},
    }
    assert(migrated(t, legacy, now, nodes@));
    db.nodes = nodes;
    db.bookmarks = None;
    db.user_version = SCHEMA_VERSION;
    Ok(())
}

impl Store {
    /// The store of a database, migrated to the current version if need be.
    pub fn from_conn(db: Database, now: i64) -> (r: Result<Store, StoreError>)
        requires
            db.nodes.wf(),
        ensures
            match r {
                Ok(s) => {
                    &&& s.wf()
                    &&& exists|after: Database| #[trigger]
                        upgraded(db, now, Ok(()), after) && s == after.nodes
                    &&& db.user_version >= SCHEMA_VERSION ==> s@ == db.nodes@
                    &&& db.user_version < SCHEMA_VERSION ==> migrated(
                        db.nodes@,
                        db.legacy(),
                        now,
                        s@,
                    )
                },
                Err(e) => {
                    &&& db.user_version < SCHEMA_VERSION
                    &&& migration_fails(db.nodes@, db.legacy(), now, e@)
                },
            },
    {
        let ghost before = db;
        let mut db = db;
        match migrate(&mut db, now) {
            Ok(_) => {
                assert(upgraded(before, now, Ok(()), db));
                Ok(db.nodes)
            },
            Err(e) => Err(e),
        }
    }
}

} // verus!
