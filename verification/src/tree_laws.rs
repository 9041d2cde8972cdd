//! What the requests on the tree are for: each answer, told by the columns of the rows and
//! by counting them.

use vstd::prelude::*;
use crate::node::{Node, NodeKind};
use crate::serve::{Reply, Request};
use crate::table::{Entry, Table};

verus! {

/// The row `x` names the row `p` as its parent.
pub open spec fn child_of(t: Table, p: i64, x: i64) -> bool {
    t.dom().contains(x) && t[x].parent == Some(p)
}

/// Of two siblings, `a` is shown before `b`.
pub open spec fn ahead(t: Table, a: i64, b: i64) -> bool {
    t[a].position < t[b].position || (t[a].position == t[b].position && a < b)
}

/// The children of `p`.
pub open spec fn children_of(t: Table, p: i64) -> Set<i64> {
    Set::new(|x: i64| child_of(t, p, x))
}

/// The children of `p` that are shown before `x`.
pub open spec fn elders(t: Table, p: i64, x: i64) -> Set<i64> {
    Set::new(|y: i64| child_of(t, p, y) && ahead(t, y, x))
}

/// The node tells the columns of the row.
pub open spec fn tells(e: Entry, n: Node) -> bool {
    &&& n.parent_id == e.parent
    &&& n.kind == e.kind
    &&& n.title@ == e.title
    &&& match n.url {
        Some(u) => e.url == Some(u@),
        None => e.url is None,
    }
    &&& n.position == e.position
    &&& n.created == e.created
    &&& n.modified == e.modified
}

/// The node tells a row of the table, and has no children with it.
pub open spec fn tells_row(t: Table, n: Node) -> bool {
    t.dom().contains(n.id) && tells(t[n.id], n) && n.children@.len() == 0
}

/// The bytes that a list of nodes takes between the brackets of a reply.
pub open spec fn wire_bytes(s: Seq<Node>) -> nat {
    vstd::utf8::encode_utf8(crate::json::nodes_json(s, s.len())).len()
}

/// How many nodes a request may ask for at most, when it asks for `limit`.
pub open spec fn at_most(limit: i64) -> int {
    if limit < 1 {
        1
    } else if limit > 1000 {
        1000
    } else {
        limit as int
    }
}

/// Where a page begins, when `offset` is asked for.
pub open spec fn beginning(offset: i64) -> int {
    if offset < 0 {
        0
    } else {
        offset as int
    }
}

/// The page of the children of `p`: the first node has `offset` siblings before it, the
/// next one more, and so on; a page is cut short only by the bytes that it takes.
pub open spec fn is_page_of(
    t: Table,
    p: i64,
    limit: i64,
    offset: i64,
    page: Seq<Node>,
    total: i64,
) -> bool {
    &&& total == children_of(t, p).len()
    &&& page.len() <= at_most(limit)
    &&& beginning(offset) < total ==> page.len() > 0
    &&& beginning(offset) >= total ==> page.len() == 0
    &&& beginning(offset) < total ==> beginning(offset) + page.len() <= total
    &&& forall|i: int|
        0 <= i < page.len() ==> {
            &&& tells_row(t, #[trigger] page[i])
            &&& page[i].parent_id == Some(p)
            &&& elders(t, p, page[i].id).len() == beginning(offset) + i
        }
    &&& page.len() > 1 ==> wire_bytes(page) < 786432
    &&& page.len() < at_most(limit) && beginning(offset) + page.len() < total ==> exists|
        next: Node,
    |
        {
            &&& tells_row(t, next)
            &&& next.parent_id == Some(p)
            &&& elders(t, p, next.id).len() == beginning(offset) + page.len()
            &&& #[trigger] wire_bytes(page.push(next)) >= 786432
        }
}

proof fn lemma_elders_rank(t: Table, p: i64, x: i64)
    ensures
        elders(t, p, x).len() == crate::table::rank(t, Some(p), x),
        children_of(t, p) == crate::table::kids(t, Some(p)),
{
    assert(elders(t, p, x) =~= Set::new(
        |y: i64| crate::table::sits_under(t, Some(p), y) && crate::table::before(t, y, x),
    ));
    assert(children_of(t, p) =~= crate::table::kids(t, Some(p)));
}

/// A list cut to a page: what is kept is the front, and what follows did not fit.
pub proof fn lemma_page_is_front(t: Table, ids: Seq<i64>, ns: Seq<Node>)
    requires
        crate::ops::is_page(t, ids, ns),
    ensures
        ns.len() <= ids.len(),
        ids.len() > 0 ==> ns.len() > 0,
        forall|i: int|
            0 <= i < ns.len() ==> (#[trigger] ns[i]).id == ids[i] && tells_row(t, ns[i]),
        ns.len() > 1 ==> wire_bytes(ns) < 786432,
        ns.len() < ids.len() ==> exists|next: Node|
            {
                &&& next.id == ids[ns.len() as int]
                &&& tells_row(t, next)
                &&& #[trigger] wire_bytes(ns.push(next)) >= 786432
            },
{
    crate::page::lemma_page_front(t, ids, ns);
    let (all, m) = choose|all: Seq<Node>, m: nat|
        {
            &&& #[trigger] crate::ops::shows_list(t, all, ids)
            &&& #[trigger] crate::page::page_cut(all, m)
            &&& ns == all.take(m as int)
        };
    assert forall|i: int| 0 <= i < ns.len() implies (#[trigger] ns[i]).id == ids[i] && tells_row(
        t,
        ns[i],
    ) by {
        assert(ns[i] == all[i]);
    }
    if ns.len() < ids.len() {
        let next = all[m as int];
        assert(ns.push(next) =~= all.take(m as int + 1));
        crate::page::lemma_page_overflows(all, m);
        assert(wire_bytes(ns.push(next)) >= 786432);
    }
}

pub proof fn lemma_page_shows(
    t: Table,
    parent: Option<i64>,
    limit: i64,
    offset: i64,
    page: Seq<Node>,
    total: i64,
)
    requires
        t.dom().finite(),
        crate::serve::page_shows(t, parent, limit, offset, page, total),
    ensures
        is_page_of(t, crate::ops::target(t, parent)->0, limit, offset, page, total),
{
    let p = crate::ops::target(t, parent)->0;
    let s = choose|s: Seq<i64>| #[trigger]
        crate::table::in_order(t, Some(p), s) && crate::ops::is_page(
            t,
            crate::ops::window(s, limit, offset),
            page,
        );
    let w = crate::ops::window(s, limit, offset);
    lemma_elders_rank(t, p, 0);
    crate::table::lemma_order_len(t, Some(p), s);
    lemma_page_is_front(t, w, page);
    let from = beginning(offset);
    assert forall|i: int| 0 <= i < w.len() implies child_of(t, p, #[trigger] w[i]) && elders(
        t,
        p,
        w[i],
    ).len() == from + i by {
        assert(w[i] == s[from + i]);
        assert(s.contains(s[from + i]));
        crate::table::lemma_rank_is_index(t, Some(p), s, from + i);
        lemma_elders_rank(t, p, w[i]);
    }
    assert forall|i: int| 0 <= i < page.len() implies {
        &&& tells_row(t, #[trigger] page[i])
        &&& page[i].parent_id == Some(p)
        &&& elders(t, p, page[i].id).len() == from + i
    } by {
        assert(page[i].id == w[i]);
    }
    if page.len() < w.len() {
        let next = choose|next: Node|
            {
                &&& next.id == w[page.len() as int]
                &&& tells_row(t, next)
                &&& #[trigger] wire_bytes(page.push(next)) >= 786432
            };
        assert(next.id == w[page.len() as int]);
        assert(wire_bytes(page.push(next)) >= 786432);
    }
}

/// The named folder, or else the root: the one that has no parent, the first where there
/// are several.
pub open spec fn meant(t: Table, parent: Option<i64>, p: i64) -> bool {
    match parent {
        Some(q) => p == q,
        None => {
            &&& t.dom().contains(p)
            &&& t[p].parent is None
            &&& forall|q: i64| #[trigger]
                t.dom().contains(q) && t[q].parent is None && q != p ==> ahead(t, p, q)
        },
    }
}

pub proof fn lemma_meant(t: Table, parent: Option<i64>)
    ensures
        forall|p: i64|
            meant(t, parent, p) && #[trigger] t.dom().contains(p) ==> crate::ops::target(t, parent)
                == Some(p),
        crate::ops::target(t, parent) matches Some(p) ==> meant(t, parent, p),
{
    assert forall|p: i64| meant(t, parent, p) && #[trigger] t.dom().contains(p) implies crate::ops::target(
        t,
        parent,
    ) == Some(p) by {
        if parent is None {
            assert forall|y: i64| #[trigger]
                crate::table::sits_under(t, None, y) && y != p implies crate::table::before(
                t,
                p,
                y,
            ) by {
                assert(t.dom().contains(y));
            }
            assert(crate::ops::is_first_root(t, p));
            let q = choose|r: i64| crate::ops::is_first_root(t, r);
            assert(crate::table::sits_under(t, None, q));
            assert(crate::table::sits_under(t, None, p));
        }
    }
    if let Some(p) = crate::ops::target(t, parent) {
        if parent is None {
            assert(crate::ops::is_first_root(t, p));
            assert forall|q: i64| #[trigger]
                t.dom().contains(q) && t[q].parent is None && q != p implies ahead(t, p, q) by {
                assert(crate::table::sits_under(t, None, q));
            }
        }
    }
}

/// A request for children shows the folder that it names and no other, from the offset
/// that it names on. A folder that is not there is told as not found, a bookmark as no
/// folder; any other is shown.
pub proof fn lemma_children_are_shown(
    t: Table,
    parent: Option<i64>,
    limit: i64,
    offset: i64,
    now: i64,
    u: Table,
    r: Reply,
)
    requires
        t.dom().finite(),
        crate::serve::tree_answer(
            t,
            Request::Children { parent_id: parent, limit, offset },
            now,
            u,
            r,
        ),
    ensures
        u == t,
        shows_children(t, parent, limit, offset, r),
{
    lemma_meant(t, parent);
    if let Reply::Page(page, total) = r {
        let p = crate::ops::target(t, parent)->0;
        lemma_page_shows(t, parent, limit, offset, page@, total);
        assert(meant(t, parent, p));
    }
}

/// The reply shows the children of a folder, or says why it cannot.
pub open spec fn shows_children(
    t: Table,
    parent: Option<i64>,
    limit: i64,
    offset: i64,
    r: Reply,
) -> bool {
    &&& r is Page || r is Error
    &&& r matches Reply::Page(page, total) ==> exists|p: i64| #[trigger]
        meant(t, parent, p) && is_page_of(t, p, limit, offset, page@, total)
    &&& forall|p: i64| #[trigger]
        meant(t, parent, p) && t.dom().contains(p) && t[p].kind == NodeKind::Folder ==> r is Page
    &&& parent matches Some(p) ==> {
        &&& !t.dom().contains(p) ==> says(r, "no node with id "@ + crate::text::decimal(p as int))
        &&& t.dom().contains(p) && t[p].kind == NodeKind::Bookmark ==> says(
            r,
            "node "@ + crate::text::decimal(p as int) + " is not a folder"@,
        )
    }
}

/// What the pages show, one after the other.
pub open spec fn pages_shown(pages: Seq<Reply>, k: nat) -> Seq<Node>
    decreases k,
{
    if k == 0 {
        seq![]
    } else {
        pages_shown(pages, (k - 1) as nat) + (match pages[k - 1] {
            Reply::Page(v, _) => v@,
            _ => seq![],
        })
    }
}

/// The pages answer requests for the children of `p`, each of which begins where the last
/// page ended.
pub open spec fn paged(t: Table, p: i64, limits: Seq<i64>, now: i64, pages: Seq<Reply>) -> bool {
    forall|k: nat|
        k < pages.len() ==> exists|offset: i64|
            {
                &&& offset == (#[trigger] pages_shown(pages, k)).len()
                &&& #[trigger] crate::serve::tree_answer(
                    t,
                    Request::Children { parent_id: Some(p), limit: limits[k as int], offset },
                    now,
                    t,
                    pages[k as int],
                )
            }
}

proof fn lemma_pages_step(
    t: Table,
    p: i64,
    limits: Seq<i64>,
    now: i64,
    pages: Seq<Reply>,
    k: nat,
)
    requires
        t.dom().finite(),
        t.dom().contains(p),
        t[p].kind == NodeKind::Folder,
        paged(t, p, limits, now, pages),
        k <= pages.len(),
    ensures
        pages_shown(pages, k).len() <= children_of(t, p).len(),
        forall|i: int|
            0 <= i < pages_shown(pages, k).len() ==> {
                &&& child_of(t, p, (#[trigger] pages_shown(pages, k)[i]).id)
                &&& elders(t, p, pages_shown(pages, k)[i].id).len() == i
            },
        pages_shown(pages, k).len() >= k || pages_shown(pages, k).len() == children_of(t, p).len(),
    decreases k,
{
    if k > 0 {
        let j = (k - 1) as nat;
        lemma_pages_step(t, p, limits, now, pages, j);
        let done = pages_shown(pages, j);
        let offset = choose|offset: i64|
            {
                &&& offset == done.len()
                &&& #[trigger] crate::serve::tree_answer(
                    t,
                    Request::Children { parent_id: Some(p), limit: limits[j as int], offset },
                    now,
                    t,
                    pages[j as int],
                )
            };
        lemma_children_are_shown(t, Some(p), limits[j as int], offset, now, t, pages[j as int]);
        assert(meant(t, Some(p), p));
        if let Reply::Page(v, total) = pages[j as int] {
            let all = pages_shown(pages, k);
            assert(all == done + v@);
            assert forall|i: int| 0 <= i < all.len() implies {
                &&& child_of(t, p, (#[trigger] all[i]).id)
                &&& elders(t, p, all[i].id).len() == i
            } by {
                if i < done.len() {
                    assert(all[i] == done[i]);
                } else {
                    assert(all[i] == v@[i - done.len()]);
                }
            }
        }
    }
}

/// Pages that are asked for one after the other, each from where the last one ended, list
/// the children of a folder in order and none twice; and all of them, once as many pages
/// were asked for as there are children.
pub proof fn lemma_pages_list_all(
    t: Table,
    p: i64,
    limits: Seq<i64>,
    now: i64,
    pages: Seq<Reply>,
)
    requires
        t.dom().finite(),
        t.dom().contains(p),
        t[p].kind == NodeKind::Folder,
        paged(t, p, limits, now, pages),
    ensures
        forall|i: int, j: int|
            0 <= i < j < pages_shown(pages, pages.len()).len() ==> (#[trigger] pages_shown(
                pages,
                pages.len(),
            )[i]).id != (#[trigger] pages_shown(pages, pages.len())[j]).id,
        forall|i: int|
            0 <= i < pages_shown(pages, pages.len()).len() ==> {
                &&& child_of(t, p, (#[trigger] pages_shown(pages, pages.len())[i]).id)
                &&& elders(t, p, pages_shown(pages, pages.len())[i].id).len() == i
            },
        pages.len() >= children_of(t, p).len() ==> forall|x: i64| #[trigger]
            child_of(t, p, x) ==> exists|i: int|
                0 <= i < pages_shown(pages, pages.len()).len() && (#[trigger] pages_shown(
                    pages,
                    pages.len(),
                )[i]).id == x,
{
    let all = pages_shown(pages, pages.len());
    lemma_pages_step(t, p, limits, now, pages, pages.len());
    if pages.len() >= children_of(t, p).len() {
        let ids = crate::walk::node_ids(all);
        assert(ids.no_duplicates()) by {
            assert forall|i: int, j: int| 0 <= i < j < ids.len() implies ids[i] != ids[j] by {
                assert(ids[i] == all[i].id && ids[j] == all[j].id);
            }
        }
        ids.unique_seq_to_set();
        let s = crate::table::lemma_order_exists(t, Some(p));
        lemma_elders_rank(t, p, 0);
        assert forall|x: i64| ids.to_set().contains(x) implies children_of(t, p).contains(x) by {
            let i = choose|i: int| 0 <= i < ids.len() && ids[i] == x;
            assert(all[i].id == x);
        }
        vstd::set_lib::lemma_subset_equality(ids.to_set(), children_of(t, p));
        assert forall|x: i64| #[trigger] child_of(t, p, x) implies exists|i: int|
            0 <= i < all.len() && (#[trigger] all[i]).id == x by {
            assert(children_of(t, p).contains(x));
            assert(ids.contains(x));
            let i = choose|i: int| 0 <= i < ids.len() && ids[i] == x;
            assert(all[i].id == x);
        }
    }
}

/// The reply is an error with this text.
pub open spec fn says(r: Reply, text: Seq<char>) -> bool {
    r matches Reply::Error(m) && m@ == text
}

/// The row may be shown.
pub open spec fn shown(t: Table, hidden_too: bool, x: i64) -> bool {
    t.dom().contains(x) && (hidden_too || !t[x].hidden)
}

/// The node tells its row, and holds a node for each of its children that may be shown, in
/// order, and so on down.
pub open spec fn tells_tree(t: Table, hidden_too: bool, n: Node) -> bool
    decreases n,
{
    &&& shown(t, hidden_too, n.id)
    &&& tells(t[n.id], n)
    &&& forall|i: int|
        0 <= i < n.children@.len() ==> tells_tree(t, hidden_too, #[trigger] n.children@[i])
    &&& forall|i: int|
        0 <= i < n.children@.len() ==> (#[trigger] n.children@[i]).parent_id == Some(n.id)
    &&& forall|i: int, j: int|
        0 <= i < j < n.children@.len() ==> ahead(
            t,
            (#[trigger] n.children@[i]).id,
            (#[trigger] n.children@[j]).id,
        )
    &&& forall|x: i64|
        shown(t, hidden_too, x) && #[trigger] child_of(t, n.id, x) ==> exists|i: int|
            0 <= i < n.children@.len() && (#[trigger] n.children@[i]).id == x
}

/// The first of the rows without a parent that may be shown.
pub open spec fn shown_root(t: Table, hidden_too: bool, x: i64) -> bool {
    &&& shown(t, hidden_too, x)
    &&& t[x].parent is None
    &&& forall|q: i64| #[trigger]
        shown(t, hidden_too, q) && t[q].parent is None && q != x ==> ahead(t, x, q)
}

pub proof fn lemma_tells_tree(t: Table, hidden_too: bool, n: Node)
    requires
        crate::walk::shows_tree(crate::ops::visible(t, hidden_too), n),
    ensures
        tells_tree(t, hidden_too, n),
    decreases n,
{
    let v = crate::ops::visible(t, hidden_too);
    let ids = crate::walk::node_ids(n.children@);
    assert forall|i: int| 0 <= i < n.children@.len() implies tells_tree(
        t,
        hidden_too,
        #[trigger] n.children@[i],
    ) && n.children@[i].parent_id == Some(n.id) by {
        lemma_tells_tree(t, hidden_too, n.children@[i]);
        assert(ids[i] == n.children@[i].id);
        assert(ids.contains(ids[i]));
        assert(crate::table::sits_under(v, Some(n.id), ids[i]));
    }
    assert forall|i: int, j: int| 0 <= i < j < n.children@.len() implies ahead(
        t,
        (#[trigger] n.children@[i]).id,
        (#[trigger] n.children@[j]).id,
    ) by {
        assert(ids[i] == n.children@[i].id && ids[j] == n.children@[j].id);
        assert(crate::table::before(v, ids[i], ids[j]));
        assert(ids.contains(ids[i]) && ids.contains(ids[j]));
        assert(crate::table::sits_under(v, Some(n.id), ids[i]));
        assert(crate::table::sits_under(v, Some(n.id), ids[j]));
    }
    assert forall|x: i64|
        shown(t, hidden_too, x) && #[trigger] child_of(t, n.id, x) implies exists|i: int|
        0 <= i < n.children@.len() && (#[trigger] n.children@[i]).id == x by {
        assert(crate::table::sits_under(v, Some(n.id), x));
        assert(ids.contains(x));
        let i = choose|i: int| 0 <= i < ids.len() && ids[i] == x;
        assert(n.children@[i].id == x);
    }
}

/// The rows that may be shown, as a table of their own.
pub open spec fn shown_rows(t: Table, hidden_too: bool) -> Table {
    t.restrict(Set::new(|x: i64| shown(t, hidden_too, x)))
}

/// When the tree can be shown.
pub proof fn lemma_tree_owed(t: Table, hidden_too: bool)
    ensures
        crate::ops::tree_error(crate::ops::visible(t, hidden_too)) is None <==> exists|root: i64|
         #[trigger]
            shown_root(t, hidden_too, root) && !exists|x: i64| #[trigger]
                crate::change_laws::steps(shown_rows(t, hidden_too), x, root, 201),
        crate::ops::root_of(crate::ops::visible(t, hidden_too)) matches Some(root) ==> shown_root(
            t,
            hidden_too,
            root,
        ),
        crate::ops::root_of(crate::ops::visible(t, hidden_too)) is None ==> forall|x: i64|
            !#[trigger] shown_root(t, hidden_too, x),
{
    let v = crate::ops::visible(t, hidden_too);
    assert(v =~= shown_rows(t, hidden_too));
    assert forall|x: i64| #[trigger] shown_root(t, hidden_too, x) <==> crate::ops::is_first_root(
        v,
        x,
    ) by {
        if shown_root(t, hidden_too, x) {
            assert forall|y: i64| #[trigger]
                crate::table::sits_under(v, None, y) && y != x implies crate::table::before(
                v,
                x,
                y,
            ) by {
                assert(shown(t, hidden_too, y));
            }
        }
        if crate::ops::is_first_root(v, x) {
            assert forall|q: i64| #[trigger]
                shown(t, hidden_too, q) && t[q].parent is None && q != x implies ahead(t, x, q) by {
                assert(crate::table::sits_under(v, None, q));
            }
        }
    }
    if let Some(root) = crate::ops::root_of(v) {
        assert(crate::ops::is_first_root(v, root));
        assert(shown_root(t, hidden_too, root));
        assert forall|x: i64| #[trigger] shown_root(t, hidden_too, x) implies x == root by {
            assert(shown(t, hidden_too, x) && shown(t, hidden_too, root));
        }
        assert forall|x: i64|
            #![trigger crate::change_laws::steps(v, x, root, 201)]
            #![trigger crate::table::up(v, x, 201)]
            crate::change_laws::steps(v, x, root, 201) <==> crate::table::up(v, x, 201) == Some(
                root,
            ) by {
            crate::change_laws::lemma_steps_up(v, x, root, 201);
        }
    }
}

/// A request for the tree shows the root and everything below it that is not hidden, or
/// all of it where hidden rows are asked for too. It fails only where there is no root, or
/// a row stands more than 200 steps below it.
pub proof fn lemma_tree_is_shown(
    t: Table,
    hidden_too: bool,
    now: i64,
    u: Table,
    r: Reply,
)
    requires
        crate::serve::tree_answer(t, Request::Tree { include_hidden: hidden_too }, now, u, r),
    ensures
        u == t,
        r is Root || r is Error,
        r matches Reply::Root(n) ==> shown_root(t, hidden_too, n.id) && tells_tree(t, hidden_too, n),
        r is Root <==> exists|root: i64| #[trigger]
            shown_root(t, hidden_too, root) && !exists|x: i64| #[trigger]
                crate::change_laws::steps(shown_rows(t, hidden_too), x, root, 201),
        (forall|x: i64| !#[trigger] shown_root(t, hidden_too, x)) ==> says(
            r,
            "corrupt store: "@ + "root folder is missing"@,
        ),
        r is Error && (exists|x: i64| #[trigger] shown_root(t, hidden_too, x)) ==> says(
            r,
            crate::change_laws::too_deep_text(),
        ),
{
    lemma_tree_owed(t, hidden_too);
    crate::change_laws::lemma_too_deep_text();
    if let Reply::Root(n) = r {
        lemma_tells_tree(t, hidden_too, n);
    }
}

} // verus!
