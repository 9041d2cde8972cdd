//! What the requests that change the tree are for, told by the columns of the rows and by
//! counting them.

use vstd::prelude::*;
use crate::node::NodeKind;
use crate::serve::{Reply, Request};
use crate::table::{Entry, Table};

verus! {

/// The row at `i` of the list names the next one as its parent.
pub open spec fn linked(t: Table, s: Seq<i64>, i: int) -> bool {
    crate::tree_laws::child_of(t, s[i + 1], s[i])
}

/// The list goes from `x` up to `y`, from each row to its parent.
pub open spec fn is_path(t: Table, s: Seq<i64>, x: i64, y: i64) -> bool {
    &&& s.len() > 0
    &&& s[0] == x
    &&& s.last() == y
    &&& forall|i: int| 0 <= i < s.len() - 1 ==> #[trigger] linked(t, s, i)
}

/// `y` is `k` steps above `x`.
pub open spec fn steps(t: Table, x: i64, y: i64, k: nat) -> bool {
    exists|s: Seq<i64>| #[trigger] is_path(t, s, x, y) && s.len() == k + 1
}

/// `x` is `id` or below it.
pub open spec fn below(t: Table, x: i64, id: i64) -> bool {
    exists|k: nat| steps(t, x, id, k)
}

/// The text has a character that is no white space.
pub open spec fn says_something(s: Seq<char>) -> bool {
    exists|i: int| 0 <= i < s.len() && !crate::search_laws::spacing(#[trigger] s[i])
}

proof fn lemma_path_up(t: Table, s: Seq<i64>, x: i64, y: i64)
    requires
        is_path(t, s, x, y),
    ensures
        crate::table::up(t, x, (s.len() - 1) as nat) == Some(y),
    decreases s.len(),
{
    if s.len() > 1 {
        let q = s.drop_last();
        assert forall|i: int| 0 <= i < q.len() - 1 implies #[trigger] linked(t, q, i) by {
            assert(linked(t, s, i));
        }
        assert(linked(t, s, s.len() - 2));
        lemma_path_up(t, q, x, q.last());
    }
}

proof fn lemma_up_path(t: Table, x: i64, k: nat) -> (s: Seq<i64>)
    requires
        crate::table::up(t, x, k) is Some,
    ensures
        is_path(t, s, x, crate::table::up(t, x, k)->0),
        s.len() == k + 1,
    decreases k,
{
    if k == 0 {
        seq![x]
    } else {
        let q = lemma_up_path(t, x, (k - 1) as nat);
        let y = crate::table::up(t, x, k)->0;
        let s = q.push(y);
        assert forall|i: int| 0 <= i < s.len() - 1 implies #[trigger] linked(t, s, i) by {
            if i < q.len() - 1 {
                assert(linked(t, q, i));
            }
        }
        s
    }
}

pub proof fn lemma_steps_up(t: Table, x: i64, y: i64, k: nat)
    ensures
        steps(t, x, y, k) == (crate::table::up(t, x, k) == Some(y)),
{
    if steps(t, x, y, k) {
        let s = choose|s: Seq<i64>| #[trigger] is_path(t, s, x, y) && s.len() == k + 1;
        lemma_path_up(t, s, x, y);
    }
    if crate::table::up(t, x, k) == Some(y) {
        let s = lemma_up_path(t, x, k);
        assert(is_path(t, s, x, y));
    }
}

proof fn lemma_below(t: Table, x: i64, id: i64)
    requires
        t.dom().contains(x),
    ensures
        below(t, x, id) == crate::table::subtree(t, id).contains(x),
{
    if below(t, x, id) {
        let k = choose|k: nat| steps(t, x, id, k);
        lemma_steps_up(t, x, id, k);
    }
    if crate::table::subtree(t, id).contains(x) {
        let k = choose|k: nat| crate::table::up(t, x, k) == Some(id);
        lemma_steps_up(t, x, id, k);
    }
}

pub proof fn lemma_says_something(s: Seq<char>)
    ensures
        says_something(s) == !crate::text::blank(s),
{
    if says_something(s) {
        let i = choose|i: int| 0 <= i < s.len() && !crate::search_laws::spacing(#[trigger] s[i]);
        crate::search_laws::lemma_spacing(s[i]);
        assert(!crate::text::white_space(s[i]));
    } else {
        assert forall|i: int| 0 <= i < s.len() implies crate::text::white_space(
            #[trigger] s[i],
        ) by {
            crate::search_laws::lemma_spacing(s[i]);
        }
    }
}

/// Nothing but the named columns differs.
pub open spec fn same_but_position(a: Entry, b: Entry) -> bool {
    &&& a.parent == b.parent
    &&& a.kind == b.kind
    &&& a.title == b.title
    &&& a.url == b.url
    &&& a.created == b.created
    &&& a.modified == b.modified
    &&& a.hidden == b.hidden
}

/// The children of `p` but for `id`.
pub open spec fn others(t: Table, p: i64, id: i64) -> Set<i64> {
    Set::new(|y: i64| crate::tree_laws::child_of(t, p, y) && y != id)
}

/// Of those, the ones shown before `x`.
pub open spec fn others_ahead(t: Table, p: i64, id: i64, x: i64) -> Set<i64> {
    Set::new(
        |y: i64|
            crate::tree_laws::child_of(t, p, y) && y != id && crate::tree_laws::ahead(t, y, x),
    )
}

/// A node can be moved: it is there and no root, it goes to a folder that is not itself
/// nor below it, and no row of it would come to stand more than 200 steps below the top.
pub open spec fn may_move(t: Table, id: i64, under: i64) -> bool {
    &&& t.dom().contains(id)
    &&& t[id].parent is Some
    &&& t.dom().contains(under)
    &&& t[under].kind == NodeKind::Folder
    &&& !below(t, under, id)
    &&& forall|x: i64, y: i64, d: nat, h: nat| #[trigger]
        steps(t, under, y, d) && #[trigger] steps(t, x, id, h) ==> d + 1 + h <= 200
}

/// The node stands in the new folder: last where no position was asked for, else where it
/// was asked for as far as the other children reach; they keep their order round it. The
/// folder that it left closes up.
pub open spec fn has_moved(
    t: Table,
    id: i64,
    under: i64,
    position: Option<i64>,
    now: i64,
    u: Table,
) -> bool {
    let n = others(t, under, id).len();
    &&& u.dom() == t.dom()
    &&& u[id].parent == Some(under)
    &&& u[id].modified == now
    &&& u[id].kind == t[id].kind
    &&& u[id].title == t[id].title
    &&& u[id].url == t[id].url
    &&& u[id].created == t[id].created
    &&& u[id].hidden == t[id].hidden
    &&& u[id].position == (match position {
        None => n as int,
        Some(i) => if i < 0 {
            0
        } else if i <= n {
            i as int
        } else {
            n as int
        },
    })
    &&& forall|y: i64| #[trigger]
        crate::tree_laws::child_of(t, under, y) && y != id ==> {
            let e = others_ahead(t, under, id, y).len() as int;
            &&& same_but_position(u[y], t[y])
            &&& u[y].position == if e < u[id].position {
                e
            } else {
                e + 1
            }
        }
    &&& forall|from: i64, y: i64| #[trigger]
        crate::tree_laws::child_of(t, from, y) && y != id && from != under && t[id].parent == Some(
            from,
        ) ==> {
            &&& same_but_position(u[y], t[y])
            &&& u[y].position == others_ahead(t, from, id, y).len()
        }
    &&& forall|y: i64| #[trigger]
        t.dom().contains(y) && y != id && t[y].parent != Some(under) && t[y].parent != t[id].parent
            ==> u[y] == t[y]
}

proof fn lemma_ranks_fit(t: Table, p: Option<i64>, x: i64)
    requires
        t.dom().finite(),
        t.dom().len() <= 0x7fff_ffff_ffff_ffff,
    ensures
        crate::table::rank(t, p, x) <= t.dom().len(),
        crate::table::kids(t, p).len() <= t.dom().len(),
        crate::table::sits_under(t, p, x) ==> crate::table::rank(t, p, x) < t.dom().len(),
{
    let before = Set::new(
        |y: i64| crate::table::sits_under(t, p, y) && crate::table::before(t, y, x),
    );
    assert(before.subset_of(t.dom()));
    assert(crate::table::kids(t, p).subset_of(t.dom()));
    vstd::set_lib::lemma_len_subset(before, t.dom());
    vstd::set_lib::lemma_len_subset(crate::table::kids(t, p), t.dom());
    if crate::table::sits_under(t, p, x) {
        assert(!before.contains(x));
        assert(before.insert(x).subset_of(t.dom()));
        vstd::set_lib::lemma_len_subset(before.insert(x), t.dom());
    }
}

pub proof fn lemma_may_move(t: Table, id: i64, under: i64)
    ensures
        may_move(t, id, under) <==> crate::ops::move_error(t, id, under) is None,
{
    if crate::ops::move_error(t, id, under) is None {
        if below(t, under, id) {
            let k = choose|k: nat| steps(t, under, id, k);
            lemma_steps_up(t, under, id, k);
        }
        assert forall|x: i64, y: i64, d: nat, h: nat| #[trigger]
            steps(t, under, y, d) && #[trigger] steps(t, x, id, h) implies d + 1 + h <= 200 by {
            lemma_steps_up(t, under, y, d);
            lemma_steps_up(t, x, id, h);
            assert(crate::table::up(t, under, d) is Some);
            assert(crate::walk::level_used(t, id, h));
        }
    }
    if may_move(t, id, under) {
        lemma_steps_up(t, id, id, 0);
        if exists|k: nat| #[trigger] crate::table::up(t, under, k) == Some(id) {
            let k = choose|k: nat| #[trigger] crate::table::up(t, under, k) == Some(id);
            lemma_steps_up(t, under, id, k);
            assert(below(t, under, id));
        }
        if crate::table::up(t, under, crate::walk::CYCLE_GUARD as nat) is Some {
            let y = crate::table::up(t, under, crate::walk::CYCLE_GUARD as nat)->0;
            lemma_steps_up(t, under, y, crate::walk::CYCLE_GUARD as nat);
            assert(steps(t, id, id, 0));
            assert(false);
        }
        if crate::ops::too_deep(t, id, under) {
            let (d, h) = choose|d: nat, h: nat|
                {
                    &&& #[trigger] crate::table::up(t, under, d) is Some
                    &&& #[trigger] crate::walk::level_used(t, id, h)
                    &&& d + 1 + h > crate::table::MAX_DEPTH
                };
            let y = crate::table::up(t, under, d)->0;
            let x = choose|x: i64| #[trigger] crate::table::up(t, x, h) == Some(id);
            lemma_steps_up(t, under, y, d);
            lemma_steps_up(t, x, id, h);
            assert(false);
        }
    }
}

pub proof fn lemma_has_moved(
    t: Table,
    id: i64,
    under: i64,
    position: Option<i64>,
    now: i64,
)
    requires
        t.dom().finite(),
        t.dom().len() <= 0x7fff_ffff_ffff_ffff,
        may_move(t, id, under),
    ensures
        has_moved(t, id, under, position, now, crate::ops::moved(t, id, under, position, now)),
{
    let rest = t.remove(id);
    let u = crate::ops::moved(t, id, under, position, now);
    let n = others(t, under, id).len();
    assert(others(t, under, id) =~= crate::table::kids(rest, Some(under)));
    lemma_ranks_fit(rest, Some(under), id);
    let index = crate::ops::insert_index(position, n);
    let p = crate::ops::placed(t, id, under, index, now);
    assert(p.dom() =~= t.dom());
    assert forall|y: i64| #[trigger] crate::tree_laws::child_of(t, under, y) && y != id implies {
        let e = others_ahead(t, under, id, y).len() as int;
        &&& same_but_position(p[y], t[y])
        &&& p[y].position == if e < p[id].position {
            e
        } else {
            e + 1
        }
    } by {
        lemma_ranks_fit(rest, Some(under), y);
        assert(others_ahead(t, under, id, y) =~= Set::new(
            |z: i64|
                crate::table::sits_under(rest, Some(under), z) && crate::table::before(rest, z, y),
        ));
    }
    let from = t[id].parent->0;
    if from != under {
        assert forall|y: i64| #[trigger] crate::tree_laws::child_of(t, from, y) && y != id implies {
            &&& same_but_position(u[y], t[y])
            &&& u[y].position == others_ahead(t, from, id, y).len()
        } by {
            assert(p[y] == t[y]);
            lemma_ranks_fit(p, Some(from), y);
            assert(others_ahead(t, from, id, y) =~= Set::new(
                |z: i64| crate::table::sits_under(p, Some(from), z) && crate::table::before(p, z, y),
            ));
        }
    }
}

/// A move puts the node where it was asked for: without a position behind all other
/// children of the new folder, with a position that many children before it. Where it
/// cannot be moved, nothing changes.
pub proof fn lemma_move_puts_it_there(
    t: Table,
    id: i64,
    under: i64,
    position: Option<i64>,
    now: i64,
    u: Table,
    r: Reply,
)
    requires
        t.dom().finite(),
        t.dom().len() <= 0x7fff_ffff_ffff_ffff,
        crate::serve::tree_answer(
            t,
            Request::Move { id, new_parent_id: under, position },
            now,
            u,
            r,
        ),
    ensures
        may_move(t, id, under) ==> r is Done && has_moved(t, id, under, position, now, u),
        !may_move(t, id, under) ==> r is Error && u == t,
        !t.dom().contains(id) ==> crate::tree_laws::says(
            r,
            "no node with id "@ + crate::text::decimal(id as int),
        ),
        t.dom().contains(id) && t[id].parent is Some && !t.dom().contains(under)
            ==> crate::tree_laws::says(r, "no node with id "@ + crate::text::decimal(under as int)),
{
    lemma_may_move(t, id, under);
    if may_move(t, id, under) {
        lemma_has_moved(t, id, under, position, now);
    }
}

/// A rename gives the node the title and the time, and changes nothing else. It is done
/// for every node that is there and no root, with every title that says something.
pub proof fn lemma_rename_gives_the_title(
    t: Table,
    id: i64,
    title: String,
    now: i64,
    u: Table,
    r: Reply,
)
    requires
        crate::serve::tree_answer(t, Request::Rename { id, title }, now, u, r),
    ensures
        r is Done <==> says_something(title@) && t.dom().contains(id) && t[id].parent is Some,
        !(r is Done) ==> r is Error && u == t,
        r is Done ==> {
            &&& u.dom() == t.dom()
            &&& forall|y: i64| #[trigger] t.dom().contains(y) && y != id ==> u[y] == t[y]
            &&& u[id].title == title@
            &&& u[id].modified == now
            &&& u[id].parent == t[id].parent
            &&& u[id].kind == t[id].kind
            &&& u[id].url == t[id].url
            &&& u[id].position == t[id].position
            &&& u[id].created == t[id].created
            &&& u[id].hidden == t[id].hidden
        },
        !says_something(title@) ==> crate::tree_laws::says(r, "title"@ + " must not be empty"@),
        says_something(title@) && !t.dom().contains(id) ==> crate::tree_laws::says(
            r,
            "no node with id "@ + crate::text::decimal(id as int),
        ),
{
    lemma_says_something(title@);
    if r is Done {
        assert(u.dom() =~= t.dom());
    }
}

/// What a deletion takes away: the node and everything below it.
pub open spec fn goes(t: Table, id: i64) -> Set<i64> {
    Set::new(|x: i64| t.dom().contains(x) && below(t, x, id))
}

/// The children of `p` that stay, and are shown before `x`.
pub open spec fn stay_ahead(t: Table, p: i64, id: i64, x: i64) -> Set<i64> {
    Set::new(
        |y: i64|
            crate::tree_laws::child_of(t, p, y) && !below(t, y, id) && crate::tree_laws::ahead(
                t,
                y,
                x,
            ),
    )
}

/// The node and all that is below it is gone, the folder that held it is closed up, and
/// nothing else has changed.
pub open spec fn has_gone(t: Table, id: i64, u: Table) -> bool {
    &&& forall|x: i64| #[trigger]
        u.dom().contains(x) <==> t.dom().contains(x) && !below(t, x, id)
    &&& forall|x: i64| #[trigger]
        u.dom().contains(x) && t[x].parent != t[id].parent ==> u[x] == t[x]
    &&& forall|x: i64| #[trigger]
        u.dom().contains(x) && t[x].parent == t[id].parent ==> {
            &&& same_but_position(u[x], t[x])
            &&& u[x].position == stay_ahead(t, t[id].parent->0, id, x).len()
        }
}

pub proof fn lemma_has_gone(t: Table, id: i64)
    requires
        t.dom().finite(),
        t.dom().len() <= 0x7fff_ffff_ffff_ffff,
        t.dom().contains(id),
        t[id].parent is Some,
    ensures
        has_gone(t, id, crate::ops::deleted(t, id)),
        goes(t, id) == crate::table::subtree(t, id),
{
    let u = crate::ops::deleted(t, id);
    let gone = crate::table::subtree(t, id);
    let rest = t.remove_keys(gone);
    let p = t[id].parent->0;
    assert forall|x: i64| #[trigger] t.dom().contains(x) implies (below(t, x, id) <==> gone.contains(
        x,
    )) by {
        lemma_below(t, x, id);
    }
    assert(goes(t, id) =~= gone);
    assert(rest.dom() =~= t.dom().difference(gone));
    assert(rest.dom().subset_of(t.dom()));
    vstd::set_lib::lemma_len_subset(rest.dom(), t.dom());
    assert forall|x: i64| #[trigger] u.dom().contains(x) && t[x].parent == t[id].parent implies {
        &&& same_but_position(u[x], t[x])
        &&& u[x].position == stay_ahead(t, p, id, x).len()
    } by {
        lemma_ranks_fit(rest, Some(p), x);
        let a = Set::new(
            |z: i64| crate::table::sits_under(rest, Some(p), z) && crate::table::before(rest, z, x),
        );
        assert forall|z: i64| a.contains(z) <==> stay_ahead(t, p, id, x).contains(z) by {
            if t.dom().contains(z) {
                lemma_below(t, z, id);
            }
        }
        assert(stay_ahead(t, p, id, x) =~= a);
    }
}

/// A deletion takes the node and all that is below it, says how many rows that were, and
/// closes up the folder that held it. Nothing else changes. Every node but a root can be
/// deleted.
pub proof fn lemma_delete_takes_the_subtree(t: Table, id: i64, now: i64, u: Table, r: Reply)
    requires
        t.dom().finite(),
        t.dom().len() <= 0x7fff_ffff_ffff_ffff,
        crate::serve::tree_answer(t, Request::Delete { id }, now, u, r),
    ensures
        r is Deleted <==> t.dom().contains(id) && t[id].parent is Some,
        !(r is Deleted) ==> r is Error && u == t,
        r matches Reply::Deleted(n) ==> n == goes(t, id).len() && has_gone(t, id, u),
        !t.dom().contains(id) ==> crate::tree_laws::says(
            r,
            "no node with id "@ + crate::text::decimal(id as int),
        ),
{
    if r is Deleted {
        lemma_has_gone(t, id);
    }
}

/// A place for a new node under `p`: a folder that is there, at most 199 steps below the
/// top, with a position and an id left.
pub open spec fn has_room(t: Table, p: i64) -> bool {
    &&& t.dom().contains(p)
    &&& t[p].kind == NodeKind::Folder
    &&& forall|y: i64, d: nat| #[trigger] steps(t, p, y, d) ==> d < 200
    &&& forall|y: i64| #[trigger]
        crate::tree_laws::child_of(t, p, y) ==> t[y].position < 0x7fff_ffff_ffff_ffff
    &&& t.dom().len() < 0x7fff_ffff_ffff_ffff
}

/// The table has one row more: the new node, behind all other children of `p`, with an id
/// that is one more than the largest so far.
pub open spec fn has_new(
    t: Table,
    p: i64,
    id: i64,
    kind: NodeKind,
    title: Seq<char>,
    url: Option<Seq<char>>,
    now: i64,
    u: Table,
) -> bool {
    &&& !t.dom().contains(id)
    &&& (forall|x: i64| #[trigger] t.dom().contains(x) ==> x < 0x7fff_ffff_ffff_ffff) ==> {
        &&& forall|x: i64| #[trigger] t.dom().contains(x) ==> x < id
        &&& t.dom().contains((id - 1) as i64) || (t.dom().len() == 0 && id == 1)
    }
    &&& t.dom().contains(0x7fff_ffff_ffff_ffff) ==> id >= 1
    &&& u.dom() == t.dom().insert(id)
    &&& forall|x: i64| #[trigger] t.dom().contains(x) ==> u[x] == t[x]
    &&& u[id].parent == Some(p)
    &&& u[id].kind == kind
    &&& u[id].title == title
    &&& u[id].url == url
    &&& u[id].created == now
    &&& u[id].modified == now
    &&& !u[id].hidden
    &&& forall|y: i64| #[trigger]
        crate::tree_laws::child_of(t, p, y) ==> t[y].position < u[id].position
    &&& (exists|y: i64| #[trigger]
        crate::tree_laws::child_of(t, p, y) && t[y].position == u[id].position - 1) || (u[id].position
        == 0 && forall|y: i64| !#[trigger] crate::tree_laws::child_of(t, p, y))
}

/// The reply to a request for a new node: its id where there is room for it, else an error
/// and nothing changed.
pub open spec fn creates(
    t: Table,
    parent: Option<i64>,
    texts_ok: bool,
    kind: NodeKind,
    title: Seq<char>,
    url: Option<Seq<char>>,
    now: i64,
    u: Table,
    r: Reply,
) -> bool {
    &&& r is Id <==> texts_ok && exists|p: i64| #[trigger]
        crate::tree_laws::meant(t, parent, p) && has_room(t, p)
    &&& !(r is Id) ==> r is Error && u == t
    &&& r matches Reply::Id(id) ==> exists|p: i64| #[trigger]
        crate::tree_laws::meant(t, parent, p) && has_room(t, p) && has_new(
            t,
            p,
            id,
            kind,
            title,
            url,
            now,
            u,
        )
    &&& texts_ok ==> (parent matches Some(p) ==> {
        &&& !t.dom().contains(p) ==> crate::tree_laws::says(
            r,
            "no node with id "@ + crate::text::decimal(p as int),
        )
        &&& t.dom().contains(p) && t[p].kind == NodeKind::Bookmark ==> crate::tree_laws::says(
            r,
            "node "@ + crate::text::decimal(p as int) + " is not a folder"@,
        )
    })
}

pub proof fn lemma_has_room(t: Table, p: i64)
    ensures
        has_room(t, p) <==> crate::ops::place_error(t, Some(p)) is None,
{
    if has_room(t, p) {
        if crate::table::up(t, p, 200) is Some {
            lemma_steps_up(t, p, crate::table::up(t, p, 200)->0, 200);
        }
        if crate::ops::positions_exhausted(t, p) {
            let x = choose|x: i64| #[trigger]
                crate::table::sits_under(t, Some(p), x) && t[x].position == i64::MAX;
            assert(crate::tree_laws::child_of(t, p, x));
        }
    }
    if crate::ops::place_error(t, Some(p)) is None {
        assert forall|y: i64, d: nat| #[trigger] steps(t, p, y, d) implies d < 200 by {
            lemma_steps_up(t, p, y, d);
            if d >= 200 {
                crate::table::lemma_up_ends(t, p, 200, d);
            }
        }
        assert forall|y: i64| #[trigger] crate::tree_laws::child_of(t, p, y) implies t[y].position
            < 0x7fff_ffff_ffff_ffff by {
            assert(crate::table::sits_under(t, Some(p), y));
        }
    }
}

pub proof fn lemma_next_found(t: Table, p: i64)
    requires
        t.dom().finite(),
        !crate::ops::positions_exhausted(t, p),
    ensures
        crate::ops::is_next_position(t, p, crate::ops::next_position(t, p)),
{
    let s = crate::table::lemma_order_exists(t, Some(p));
    if s.len() == 0 {
        assert forall|x: i64| !crate::table::sits_under(t, Some(p), x) by {
            assert(!s.contains(x));
        }
        assert(crate::ops::is_next_position(t, p, 0));
    } else {
        let z = s.last();
        assert(s.contains(z));
        assert(crate::table::sits_under(t, Some(p), z));
        let n = (t[z].position + 1) as i64;
        assert forall|x: i64| #[trigger] crate::table::sits_under(t, Some(p), x) implies t[x].position
            < n by {
            assert(s.contains(x));
            let i = choose|i: int| 0 <= i < s.len() && s[i] == x;
            if i < s.len() - 1 {
                assert(crate::table::before(t, s[i], s[s.len() - 1]));
            }
        }
        assert(crate::ops::is_next_position(t, p, n));
    }
}

pub proof fn lemma_has_new(
    t: Table,
    p: i64,
    id: i64,
    kind: NodeKind,
    title: Seq<char>,
    url: Option<Seq<char>>,
    now: i64,
    u: Table,
)
    requires
        t.dom().finite(),
        has_room(t, p),
        crate::ops::is_new_id(t, id),
        u == crate::ops::with_new(t, Some(p), id, kind, title, url, now),
    ensures
        has_new(t, p, id, kind, title, url, now, u),
{
    lemma_has_room(t, p);
    lemma_next_found(t, p);
    let n = u[id].position;
    assert(crate::ops::is_next_position(t, p, n));
    assert forall|y: i64| #[trigger] crate::tree_laws::child_of(t, p, y) implies t[y].position
        < n by {
        assert(crate::table::sits_under(t, Some(p), y));
    }
    if exists|x: i64| #[trigger] crate::table::sits_under(t, Some(p), x) && t[x].position == n - 1 {
        let x = choose|x: i64| #[trigger]
            crate::table::sits_under(t, Some(p), x) && t[x].position == n - 1;
        assert(crate::tree_laws::child_of(t, p, x));
    } else {
        assert forall|y: i64| !#[trigger] crate::tree_laws::child_of(t, p, y) by {
            assert(!crate::table::sits_under(t, Some(p), y));
        }
    }
    if t.dom().len() > 0 {
        let m = crate::load::lemma_top(t.dom());
        assert(t.dom().contains(m));
    } else {
        assert(t.dom() =~= Set::empty());
    }
}

proof fn lemma_creates(
    t: Table,
    parent: Option<i64>,
    error: Option<crate::error::StoreErrorView>,
    kind: NodeKind,
    title: Seq<char>,
    url: Option<Seq<char>>,
    now: i64,
    u: Table,
    r: Reply,
    x: Result<i64, crate::error::StoreErrorView>,
)
    requires
        t.dom().finite(),
        crate::serve::node_created(t, error, parent, kind, title, url, now, u, x),
        crate::serve::id_reply(r, x),
        error is None ==> crate::ops::place_error(t, parent) is None,
    ensures
        creates(
            t,
            parent,
            error is None || error == crate::ops::place_error(t, parent),
            kind,
            title,
            url,
            now,
            u,
            r,
        ),
{
    crate::tree_laws::lemma_meant(t, parent);
    let texts_ok = error is None || error == crate::ops::place_error(t, parent);
    if let Some(p) = crate::ops::target(t, parent) {
        lemma_has_room(t, p);
        assert(crate::ops::place_error(t, parent) == crate::ops::place_error(t, Some(p)));
        if let Reply::Id(id) = r {
            lemma_has_new(t, p, id, kind, title, url, now, u);
            assert(crate::tree_laws::meant(t, parent, p));
        }
    }
    if texts_ok && exists|p: i64| #[trigger]
        crate::tree_laws::meant(t, parent, p) && has_room(t, p) {
        let p = choose|p: i64| #[trigger] crate::tree_laws::meant(t, parent, p) && has_room(t, p);
        assert(t.dom().contains(p));
        assert(crate::ops::target(t, parent) == Some(p));
    }
}

/// A request for a new folder makes one with the title that was given, behind all that is
/// in the folder that was named, wherever the title says something and there is room.
pub proof fn lemma_folder_is_made(
    t: Table,
    parent: Option<i64>,
    title: String,
    now: i64,
    u: Table,
    r: Reply,
)
    requires
        t.dom().finite(),
        crate::serve::tree_answer(
            t,
            Request::CreateFolder { parent_id: parent, title },
            now,
            u,
            r,
        ),
    ensures
        creates(
            t,
            parent,
            says_something(title@),
            NodeKind::Folder,
            title@,
            None,
            now,
            u,
            r,
        ),
        !says_something(title@) ==> crate::tree_laws::says(r, "title"@ + " must not be empty"@),
{
    lemma_says_something(title@);
    let x = choose|x: Result<i64, crate::error::StoreErrorView>|
        crate::serve::folder_created(t, parent, title@, now, u, x) && #[trigger]
        crate::serve::id_reply(r, x);
    let error = crate::ops::create_folder_error(t, parent, title@);
    lemma_creates(t, parent, error, NodeKind::Folder, title@, None, now, u, r, x);
}

/// The same for a bookmark, by either of the two requests for one: it has the title and the
/// URL that were given.
pub proof fn lemma_bookmark_is_made(
    t: Table,
    parent: Option<i64>,
    title: String,
    url: String,
    now: i64,
    u: Table,
    r: Reply,
)
    requires
        t.dom().finite(),
        crate::serve::tree_answer(
            t,
            Request::CreateBookmark { parent_id: parent, title, url },
            now,
            u,
            r,
        ) || crate::serve::tree_answer(
            t,
            Request::Add { title, url, parent_id: parent },
            now,
            u,
            r,
        ),
    ensures
        creates(
            t,
            parent,
            says_something(title@) && says_something(url@),
            NodeKind::Bookmark,
            title@,
            Some(url@),
            now,
            u,
            r,
        ),
        !says_something(title@) ==> crate::tree_laws::says(r, "title"@ + " must not be empty"@),
        says_something(title@) && !says_something(url@) ==> crate::tree_laws::says(
            r,
            "url"@ + " must not be empty"@,
        ),
{
    lemma_says_something(title@);
    lemma_says_something(url@);
    let x = choose|x: Result<i64, crate::error::StoreErrorView>|
        crate::serve::bookmark_created(t, parent, title@, url@, now, u, x) && #[trigger]
        crate::serve::id_reply(r, x);
    let error = crate::ops::create_bookmark_error(t, parent, title@, url@);
    lemma_creates(t, parent, error, NodeKind::Bookmark, title@, Some(url@), now, u, r, x);
}

/// The text for a tree that would be too deep.
pub open spec fn too_deep_text() -> Seq<char> {
    "maximum folder nesting depth ("@ + "200"@ + ") exceeded"@
}

pub proof fn lemma_too_deep_text()
    ensures
        crate::error::error_text(crate::error::StoreErrorView::MaxDepthExceeded) == too_deep_text(),
{
    reveal_strlit("200");
    reveal_with_fuel(crate::text::digits, 4);
    assert(crate::text::decimal(200) =~= "200"@);
}

/// A root is neither renamed nor moved nor deleted, and the error says why.
pub proof fn lemma_root_stays(
    t: Table,
    id: i64,
    req: Request,
    now: i64,
    u: Table,
    r: Reply,
)
    requires
        t.dom().contains(id),
        t[id].parent is None,
        match req {
            Request::Rename { id: x, title } => x == id && says_something(title@),
            Request::Move { id: x, .. } => x == id,
            Request::Delete { id: x } => x == id,
            _ => false,
        },
        crate::serve::tree_answer(t, req, now, u, r),
    ensures
        u == t,
        crate::tree_laws::says(r, "the root folder cannot be modified"@),
{
    if let Request::Rename { id: x, title } = req {
        lemma_says_something(title@);
    }
}

/// A folder is not moved into itself or below itself; nothing is moved into a bookmark, nor
/// so deep that a row would stand more than 200 steps below the top. The error says which.
pub proof fn lemma_move_is_refused(
    t: Table,
    id: i64,
    under: i64,
    position: Option<i64>,
    now: i64,
    u: Table,
    r: Reply,
)
    requires
        t.dom().contains(id),
        t[id].parent is Some,
        t.dom().contains(under),
        crate::serve::tree_answer(
            t,
            Request::Move { id, new_parent_id: under, position },
            now,
            u,
            r,
        ),
    ensures
        t[under].kind == NodeKind::Bookmark ==> u == t && crate::tree_laws::says(
            r,
            "node "@ + crate::text::decimal(under as int) + " is not a folder"@,
        ),
        t[under].kind == NodeKind::Folder && below(t, under, id) ==> u == t && crate::tree_laws::says(
            r,
            "cannot move a folder into itself or its own descendant"@,
        ),
        t[under].kind == NodeKind::Folder && !below(t, under, id) && (forall|y: i64, d: nat|
         #[trigger] steps(t, under, y, d) ==> d < 10000) && (exists|x: i64, y: i64, d: nat, h: nat|
         #[trigger]
            steps(t, under, y, d) && #[trigger] steps(t, x, id, h) && d + 1 + h > 200) ==> u == t
            && crate::tree_laws::says(r, too_deep_text()),
{
    lemma_too_deep_text();
    lemma_may_move(t, id, under);
    if below(t, under, id) {
        let k = choose|k: nat| steps(t, under, id, k);
        lemma_steps_up(t, under, id, k);
        assert(crate::ops::cyclic(t, id, under));
    } else {
        assert forall|k: nat| #[trigger] crate::table::up(t, under, k) != Some(id) by {
            lemma_steps_up(t, under, id, k);
        }
        if forall|y: i64, d: nat| #[trigger] steps(t, under, y, d) ==> d < 10000 {
            let g = crate::walk::CYCLE_GUARD as nat;
            if crate::table::up(t, under, g) is Some {
                lemma_steps_up(t, under, crate::table::up(t, under, g)->0, g);
            }
            assert(!crate::ops::cyclic(t, id, under));
        }
    }
}

/// Nothing is made 200 steps below the top, and the error says why.
pub proof fn lemma_too_deep_to_create(
    t: Table,
    p: i64,
    y: i64,
    req: Request,
    now: i64,
    u: Table,
    r: Reply,
)
    requires
        t.dom().contains(p),
        t[p].kind == NodeKind::Folder,
        steps(t, p, y, 200),
        match req {
            Request::CreateFolder { parent_id, title } => parent_id == Some(p) && says_something(
                title@,
            ),
            Request::CreateBookmark { parent_id, title, url } => parent_id == Some(p)
                && says_something(title@) && says_something(url@),
            Request::Add { title, url, parent_id } => parent_id == Some(p) && says_something(title@)
                && says_something(url@),
            _ => false,
        },
        crate::serve::tree_answer(t, req, now, u, r),
    ensures
        u == t,
        crate::tree_laws::says(r, too_deep_text()),
{
    lemma_too_deep_text();
    lemma_steps_up(t, p, y, 200);
    match req {
        Request::CreateFolder { parent_id, title } => {
            lemma_says_something(title@);
        },
        Request::CreateBookmark { parent_id, title, url } => {
            lemma_says_something(title@);
            lemma_says_something(url@);
        },
        Request::Add { title, url, parent_id } => {
            lemma_says_something(title@);
            lemma_says_something(url@);
        },
        _ => {},
    }
}

} // verus!
