//! Walks over the node table: up the parent chain, down by levels, and the
//! nested tree.

use vstd::prelude::*;
use crate::error::StoreError;
use crate::node::{Node, TableRow};
use crate::table::{Entry, Table, MAX_DEPTH};

verus! {

/// How many parent links a walk to the root follows before the data is taken
/// to be corrupt.
pub const DEPTH_GUARD: i64 = 800;

/// How many parent links the cycle test follows before it gives up.
pub const CYCLE_GUARD: u64 = 1_000_000;

/// The parent link of `id`, if it is in the table and has one.
pub fn parent_link(rows: &Vec<TableRow>, id: i64) -> (r: Option<i64>)
    requires
        crate::rows::rows_sorted(rows@),
    ensures
        r == crate::table::parent_in(crate::rows::table_of(rows@), id),
{
    match crate::rows::find_row(rows, id) {
        Ok(i) => rows[i].row.parent_id,
        Err(_) => None,
    }
}

/// The chain of parents above `id` has exactly `d` links.
pub open spec fn depth_is(t: Table, id: i64, d: nat) -> bool {
    crate::table::up(t, id, d) is Some && crate::table::up(t, id, d + 1) is None
}

/// Depth of `id` measured from the root (root = 0).
pub fn depth_of(rows: &Vec<TableRow>, id: i64) -> (r: Result<i64, StoreError>)
    requires
        crate::rows::rows_sorted(rows@),
    ensures
        match r {
            Ok(d) => 0 <= d < DEPTH_GUARD && depth_is(crate::rows::table_of(rows@), id, d as nat),
            Err(e) => e is MaxDepthExceeded && crate::table::up(
                crate::rows::table_of(rows@),
                id,
                DEPTH_GUARD as nat,
            ) is Some,
        },
{
    let ghost t = crate::rows::table_of(rows@);
    let mut cur: i64 = id;
    let mut depth: i64 = 0;
    loop
        invariant
            crate::rows::rows_sorted(rows@),
            t == crate::rows::table_of(rows@),
            0 <= depth < DEPTH_GUARD,
            crate::table::up(t, id, depth as nat) == Some(cur),
        decreases DEPTH_GUARD - depth,
    {
        match parent_link(rows, cur) {
            None => {
                return Ok(depth);
            },
            Some(p) => {
                depth = depth + 1;
                cur = p;
                assert(crate::table::up(t, id, depth as nat) == Some(cur));
                if depth >= DEPTH_GUARD {
                    return Err(StoreError::MaxDepthExceeded);
                }
            },
        }
    }
}

/// Whether `candidate` is `ancestor` itself or sits somewhere below it. A chain
/// longer than the guard is taken for a cycle in the data.
pub fn is_descendant(rows: &Vec<TableRow>, ancestor: i64, candidate: i64) -> (r: Result<
    bool,
    StoreError,
>)
    requires
        crate::rows::rows_sorted(rows@),
    ensures
        match r {
            Ok(true) => exists|k: nat|
                k <= CYCLE_GUARD && #[trigger] crate::table::up(
                    crate::rows::table_of(rows@),
                    candidate,
                    k,
                ) == Some(ancestor),
            Ok(false) => {
                &&& forall|k: nat| #[trigger]
                    crate::table::up(crate::rows::table_of(rows@), candidate, k) != Some(ancestor)
                &&& crate::table::up(
                    crate::rows::table_of(rows@),
                    candidate,
                    CYCLE_GUARD as nat,
                ) is None
            },
            Err(e) => {
                &&& e is CycleDetected
                &&& crate::table::up(
                    crate::rows::table_of(rows@),
                    candidate,
                    CYCLE_GUARD as nat,
                ) is Some
                &&& forall|k: nat|
                    k <= CYCLE_GUARD ==> #[trigger] crate::table::up(
                        crate::rows::table_of(rows@),
                        candidate,
                        k,
                    ) != Some(ancestor)
            },
        },
{
    let ghost t = crate::rows::table_of(rows@);
    let mut cur: i64 = candidate;
    let mut steps: u64 = 0;
    loop
        invariant
            crate::rows::rows_sorted(rows@),
            t == crate::rows::table_of(rows@),
            steps <= CYCLE_GUARD,
            crate::table::up(t, candidate, steps as nat) == Some(cur),
            forall|k: nat|
                k < steps ==> #[trigger] crate::table::up(t, candidate, k) != Some(ancestor),
        decreases CYCLE_GUARD - steps,
    {
        if cur == ancestor {
            return Ok(true);
        }
        if steps >= CYCLE_GUARD {
            return Err(StoreError::CycleDetected);
        }
        match parent_link(rows, cur) {
            None => {
                proof {
                    assert(crate::table::up(t, candidate, (steps + 1) as nat) is None);
                    crate::table::lemma_up_ends(
                        t,
                        candidate,
                        (steps + 1) as nat,
                        CYCLE_GUARD as nat,
                    );
                    assert forall|k: nat| #[trigger]
                        crate::table::up(t, candidate, k) != Some(ancestor) by {
                        if k > steps {
                            crate::table::lemma_up_ends(t, candidate, (steps + 1) as nat, k);
                        }
                    }
                }
                return Ok(false);
            },
            Some(p) => {
                steps = steps + 1;
                cur = p;
                assert(crate::table::up(t, candidate, steps as nat) == Some(cur));
            },
        }
    }
}

/// Some node is exactly `k` links below `id`.
pub open spec fn level_used(t: Table, id: i64, k: nat) -> bool {
    exists|x: i64| #[trigger] crate::table::up(t, x, k) == Some(id)
}

/// The deepest level below `id` is `h`.
pub open spec fn height_is(t: Table, id: i64, h: nat) -> bool {
    level_used(t, id, h) && !level_used(t, id, h + 1)
}

/// The number of levels below `id`, level by level; `None` if there are more
/// than `limit`.
fn levels_below(rows: &Vec<TableRow>, id: i64, limit: i64) -> (r: Option<i64>)
    requires
        crate::rows::rows_sorted(rows@),
        0 <= limit <= DEPTH_GUARD,
    ensures
        match r {
            Some(h) => 0 <= h <= limit && height_is(crate::rows::table_of(rows@), id, h as nat),
            None => level_used(crate::rows::table_of(rows@), id, (limit + 1) as nat),
        },
{
    let ghost t = crate::rows::table_of(rows@);
    let mut level: Vec<i64> = Vec::new();
    level.push(id);
    let mut height: i64 = 0;
    proof {
        assert(level@[0] == id);
        assert(crate::table::up(t, id, 0) == Some(id));
    }
    loop
        invariant
            crate::rows::rows_sorted(rows@),
            t == crate::rows::table_of(rows@),
            0 <= limit <= DEPTH_GUARD,
            0 <= height <= limit,
            crate::rows::ids_sorted(level@),
            level@.len() > 0,
            forall|x: i64|
                level@.contains(x) <==> #[trigger] crate::table::up(t, x, height as nat) == Some(id),
        decreases limit - height,
    {
        let next = crate::rows::level_below(rows, &level);
        proof {
            assert forall|x: i64|
                next@.contains(x) <==> #[trigger] crate::table::up(t, x, (height + 1) as nat) == Some(
                    id,
                ) by {
                crate::table::lemma_up_front(t, x, height as nat);
            }
            assert(level@.contains(level@[0]));
            assert(crate::table::up(t, level@[0], height as nat) == Some(id));
            assert(level_used(t, id, height as nat));
        }
        if next.len() == 0 {
            proof {
                assert forall|x: i64| #[trigger]
                    crate::table::up(t, x, (height + 1) as nat) != Some(id) by {
                    assert(!next@.contains(x));
                }
            }
            return Some(height);
        }
        proof {
            assert(next@.contains(next@[0]));
            assert(crate::table::up(t, next@[0], (height + 1) as nat) == Some(id));
            assert(level_used(t, id, (height + 1) as nat));
        }
        if height >= limit {
            return None;
        }
        level = next;
        height = height + 1;
    }
}

/// Height of the subtree at `id`: 0 for a leaf, else one more than the highest
/// child.
pub fn subtree_height(rows: &Vec<TableRow>, id: i64) -> (r: Result<i64, StoreError>)
    requires
        crate::rows::rows_sorted(rows@),
    ensures
        match r {
            Ok(h) => 0 <= h <= DEPTH_GUARD && height_is(
                crate::rows::table_of(rows@),
                id,
                h as nat,
            ),
            Err(e) => e is MaxDepthExceeded && level_used(
                crate::rows::table_of(rows@),
                id,
                (DEPTH_GUARD + 1) as nat,
            ),
        },
{
    match levels_below(rows, id, DEPTH_GUARD) {
        Some(h) => Ok(h),
        None => Err(StoreError::MaxDepthExceeded),
    }
}

/// Rejects a tree that nests deeper than `MAX_DEPTH` below `root`.
pub fn check_depth(rows: &Vec<TableRow>, root: i64) -> (r: Result<(), StoreError>)
    requires
        crate::rows::rows_sorted(rows@),
    ensures
        match r {
            Ok(_) => !level_used(crate::rows::table_of(rows@), root, (MAX_DEPTH + 1) as nat),
            Err(e) => e is MaxDepthExceeded && level_used(
                crate::rows::table_of(rows@),
                root,
                (MAX_DEPTH + 1) as nat,
            ),
        },
{
    let ghost t = crate::rows::table_of(rows@);
    match levels_below(rows, root, MAX_DEPTH) {
        Some(h) => {
            proof {
                lemma_levels_closed(t, root, (h + 1) as nat, (MAX_DEPTH + 1) as nat);
            }
            Ok(())
        },
        None => Err(StoreError::MaxDepthExceeded),
    }
}

/// Above an unused level there is no used one.
pub proof fn lemma_levels_closed(t: Table, id: i64, j: nat, k: nat)
    requires
        !level_used(t, id, j),
        j <= k,
    ensures
        !level_used(t, id, k),
{
    if level_used(t, id, k) {
        let x = choose|x: i64| #[trigger] crate::table::up(t, x, k) == Some(id);
        crate::table::lemma_up_add(t, x, (k - j) as nat, j);
        assert((k - j) as nat + j == k);
        let y = crate::table::up(t, x, (k - j) as nat)->0;
        assert(crate::table::up(t, y, j) == Some(id));
    }
}

/// `x` stands `k` levels below `id`: the chain of parents reaches `id` after `k` steps, and
/// not before.
pub open spec fn at_depth(t: Table, id: i64, x: i64, k: nat) -> bool {
    &&& crate::table::up(t, x, k) == Some(id)
    &&& forall|j: nat| j < k ==> #[trigger] crate::table::up(t, x, j) != Some(id)
}

/// The ids are listed level by level below `id`.
pub open spec fn breadth_first(t: Table, id: i64, s: Seq<i64>) -> bool {
    forall|i: int, j: int, a: nat, b: nat|
        #![trigger at_depth(t, id, s[i], a), at_depth(t, id, s[j], b)]
        0 <= i < j < s.len() && at_depth(t, id, s[i], a) && at_depth(t, id, s[j], b) ==> a <= b
}

/// What is reached in `k` steps stands at some level up to `k`.
proof fn lemma_has_depth(t: Table, id: i64, x: i64, k: nat) -> (d: nat)
    requires
        crate::table::up(t, x, k) == Some(id),
    ensures
        d <= k,
        at_depth(t, id, x, d),
    decreases k,
{
    if exists|j: nat| j < k && #[trigger] crate::table::up(t, x, j) == Some(id) {
        let j = choose|j: nat| j < k && #[trigger] crate::table::up(t, x, j) == Some(id);
        lemma_has_depth(t, id, x, j)
    } else {
        k
    }
}

/// What stands at level `k + 1` has its parent at level `k`.
proof fn lemma_parent_depth(t: Table, id: i64, x: i64, k: nat)
    requires
        at_depth(t, id, x, k + 1),
    ensures
        crate::table::parent_in(t, x) matches Some(p) && at_depth(t, id, p, k),
{
    crate::table::lemma_up_front(t, x, k);
    let p = crate::table::parent_in(t, x)->0;
    assert forall|j: nat| j < k implies #[trigger] crate::table::up(t, p, j) != Some(id) by {
        crate::table::lemma_up_front(t, x, j);
        assert(crate::table::up(t, x, j + 1) != Some(id));
    }
}

/// `x` stands at one of the levels up to `h` below `id`.
spec fn reached(t: Table, id: i64, x: i64, h: nat) -> bool {
    exists|k: nat| k <= h && #[trigger] at_depth(t, id, x, k)
}

proof fn lemma_one_depth(t: Table, id: i64, x: i64, a: nat, b: nat)
    requires
        at_depth(t, id, x, a),
        at_depth(t, id, x, b),
    ensures
        a == b,
{
    if a < b {
        assert(crate::table::up(t, x, a) != Some(id));
    } else if b < a {
        assert(crate::table::up(t, x, b) != Some(id));
    }
}

/// The children of a level that are not listed yet are the next level.
proof fn lemma_next_level(
    t: Table,
    id: i64,
    h: nat,
    level: Seq<i64>,
    next: Seq<i64>,
    listed: Seq<i64>,
    fresh: Seq<i64>,
)
    requires
        forall|x: i64| level.contains(x) <==> #[trigger] at_depth(t, id, x, h),
        forall|x: i64| listed.contains(x) <==> reached(t, id, x, h),
        forall|x: i64|
            next.contains(x) <==> (crate::table::parent_in(t, x) matches Some(p) && level.contains(
                p,
            )),
        forall|x: i64| fresh.contains(x) <==> next.contains(x) && !listed.contains(x),
        breadth_first(t, id, listed),
    ensures
        forall|x: i64| fresh.contains(x) <==> #[trigger] at_depth(t, id, x, h + 1),
        forall|x: i64| (listed + fresh).contains(x) <==> reached(t, id, x, h + 1),
        breadth_first(t, id, listed + fresh),
{
    assert forall|x: i64| fresh.contains(x) <==> #[trigger] at_depth(t, id, x, h + 1) by {
        if at_depth(t, id, x, h + 1) {
            lemma_parent_depth(t, id, x, h);
            if reached(t, id, x, h) {
                let k = choose|k: nat| k <= h && #[trigger] at_depth(t, id, x, k);
                lemma_one_depth(t, id, x, k, h + 1);
            }
        }
        if fresh.contains(x) {
            let p = crate::table::parent_in(t, x)->0;
            assert(at_depth(t, id, p, h));
            crate::table::lemma_up_front(t, x, h);
            let d = lemma_has_depth(t, id, x, h + 1);
            if d <= h {
                assert(reached(t, id, x, h));
            }
        }
    }
    let all = listed + fresh;
    assert forall|x: i64| all.contains(x) <==> reached(t, id, x, h + 1) by {
        if all.contains(x) {
            let k = choose|k: int| 0 <= k < all.len() && all[k] == x;
            if k < listed.len() {
                assert(listed[k] == x);
                assert(listed.contains(x));
                let d = choose|d: nat| d <= h && #[trigger] at_depth(t, id, x, d);
                assert(at_depth(t, id, x, d));
            } else {
                assert(fresh[k - listed.len()] == x);
                assert(fresh.contains(x));
                assert(at_depth(t, id, x, h + 1));
            }
        }
        if reached(t, id, x, h + 1) {
            let d = choose|d: nat| d <= h + 1 && #[trigger] at_depth(t, id, x, d);
            if d <= h {
                assert(reached(t, id, x, h));
                assert(listed.contains(x));
                let k = choose|k: int| 0 <= k < listed.len() && listed[k] == x;
                assert(all[k] == x);
            } else {
                let k = choose|k: int| 0 <= k < fresh.len() && fresh[k] == x;
                assert(all[listed.len() + k] == x);
            }
        }
    }
    assert forall|i: int, j: int, a: nat, b: nat|
        #![trigger at_depth(t, id, all[i], a), at_depth(t, id, all[j], b)]
        0 <= i < j < all.len() && at_depth(t, id, all[i], a) && at_depth(t, id, all[j], b) implies a
        <= b by {
        if j < listed.len() {
            assert(all[i] == listed[i] && all[j] == listed[j]);
        } else {
            assert(fresh.contains(fresh[j - listed.len()]));
            lemma_one_depth(t, id, all[j], b, h + 1);
            if i < listed.len() {
                assert(listed.contains(listed[i]));
                let d = choose|d: nat| d <= h && #[trigger] at_depth(t, id, all[i], d);
                lemma_one_depth(t, id, all[i], a, d);
            } else {
                assert(fresh.contains(fresh[i - listed.len()]));
                lemma_one_depth(t, id, all[i], a, h + 1);
            }
        }
    }
}

/// What is reached is in the table.
proof fn lemma_reached_in(t: Table, id: i64, x: i64, h: nat)
    requires
        t.dom().contains(id),
        reached(t, id, x, h),
    ensures
        crate::table::subtree(t, id).contains(x),
{
    let k = choose|k: nat| k <= h && #[trigger] at_depth(t, id, x, k);
    if k > 0 {
        lemma_parent_depth(t, id, x, (k - 1) as nat);
    } else {
        assert(crate::table::up(t, x, 0) == Some(x));
    }
}

/// Below an empty level there is nothing.
proof fn lemma_no_deeper(t: Table, id: i64, x: i64, h: nat, k: nat)
    requires
        forall|y: i64| !#[trigger] at_depth(t, id, y, h + 1),
        k > h,
    ensures
        !at_depth(t, id, x, k),
    decreases k,
{
    if at_depth(t, id, x, k) && k > h + 1 {
        lemma_parent_depth(t, id, x, (k - 1) as nat);
        lemma_no_deeper(t, id, crate::table::parent_in(t, x)->0, h, (k - 1) as nat);
    }
}

/// Appends to `out` those ids of `next` that are not in it yet, and returns them. The marks
/// tell which rows are listed.
fn list_new(
    rows: &Vec<TableRow>,
    marks: &mut Vec<bool>,
    next: &Vec<i64>,
    out: &mut Vec<i64>,
) -> (r: Vec<i64>)
    requires
        crate::rows::rows_sorted(rows@),
        old(marks)@.len() == rows@.len(),
        forall|k: int|
            0 <= k < rows@.len() ==> #[trigger] old(marks)@[k] == old(out)@.contains(
                rows@[k].row.id,
            ),
        crate::rows::ids_sorted(next@),
        forall|k: int|
            0 <= k < next@.len() ==> crate::rows::table_of(rows@).dom().contains(
                #[trigger] next@[k],
            ),
        old(out)@.no_duplicates(),
    ensures
        final(marks)@.len() == rows@.len(),
        forall|k: int|
            0 <= k < rows@.len() ==> #[trigger] final(marks)@[k] == final(out)@.contains(
                rows@[k].row.id,
            ),
        final(out)@ == old(out)@ + r@,
        final(out)@.no_duplicates(),
        crate::rows::ids_sorted(r@),
        forall|x: i64| r@.contains(x) <==> next@.contains(x) && !old(out)@.contains(x),
{
    let mut r: Vec<i64> = Vec::new();
    let mut i: usize = 0;
    assert(out@ =~= old(out)@ + r@);
    while i < next.len()
        invariant
            crate::rows::rows_sorted(rows@),
            marks@.len() == rows@.len(),
            forall|k: int|
                0 <= k < rows@.len() ==> #[trigger] marks@[k] == out@.contains(rows@[k].row.id),
            crate::rows::ids_sorted(next@),
            forall|k: int|
                0 <= k < next@.len() ==> crate::rows::table_of(rows@).dom().contains(
                    #[trigger] next@[k],
                ),
            i <= next@.len(),
            out@ == old(out)@ + r@,
            out@.no_duplicates(),
            crate::rows::ids_sorted(r@),
            forall|k: int| 0 <= k < r@.len() && i < next@.len() ==> #[trigger] r@[k] < next@[i as int],
            forall|x: i64|
                r@.contains(x) <==> next@.take(i as int).contains(x) && !old(out)@.contains(x),
        decreases next@.len() - i,
    {
        let x: i64 = next[i];
        let at = crate::rows::row_place(rows, x);
        let ghost seen = r@;
        let ghost before = out@;
        proof {
            assert(marks@[at as int] == before.contains(x));
            if seen.contains(x) {
                let k = choose|k: int| 0 <= k < seen.len() && seen[k] == x;
                assert(seen[k] < next@[i as int]);
            }
            assert(before.contains(x) == old(out)@.contains(x)) by {
                if before.contains(x) {
                    let k = choose|k: int| 0 <= k < before.len() && before[k] == x;
                    if k < old(out)@.len() {
                        assert(old(out)@[k] == x);
                    } else {
                        assert(seen[k - old(out)@.len()] == x);
                    }
                }
                if old(out)@.contains(x) {
                    let k = choose|k: int| 0 <= k < old(out)@.len() && old(out)@[k] == x;
                    assert(before[k] == x);
                }
            }
            lemma_push_contains(seen, x);
            lemma_push_contains(before, x);
        }
        if !marks[at] {
            marks.set(at, true);
            out.push(x);
            r.push(x);
            proof {
                assert(out@ =~= old(out)@ + r@);
                assert forall|k: int| 0 <= k < rows@.len() implies #[trigger] marks@[k]
                    == out@.contains(rows@[k].row.id) by {
                    if k != at {
                        if k < at {
                            assert(rows@[k].row.id < rows@[at as int].row.id);
                        } else {
                            assert(rows@[at as int].row.id < rows@[k].row.id);
                        }
                    }
                }
            }
        }
        i = i + 1;
        proof {
            if i < next@.len() {
                assert(next@[i - 1] < next@[i as int]);
            }
            assert(next@.take(i as int) =~= next@.take(i - 1).push(x));
            lemma_push_contains(next@.take(i - 1), x);
            assert forall|y: i64|
                r@.contains(y) <==> next@.take(i as int).contains(y) && !old(out)@.contains(y) by {
                assert(next@.take(i - 1).push(x).contains(y) <==> next@.take(i - 1).contains(y)
                    || y == x);
                assert(seen.contains(y) <==> next@.take(i - 1).contains(y) && !old(out)@.contains(
                    y,
                ));
                assert(r@ == seen || r@ == seen.push(x));
            }
        }
    }
    assert(next@.take(next@.len() as int) =~= next@);
    r
}

/// A sequence with one more item holds that item and what it held.
pub proof fn lemma_push_contains(s: Seq<i64>, x: i64)
    ensures
        forall|y: i64| #[trigger] s.push(x).contains(y) <==> s.contains(y) || y == x,
{
    assert forall|y: i64| s.push(x).contains(y) <==> s.contains(y) || y == x by {
        if s.contains(y) {
            let k = choose|k: int| 0 <= k < s.len() && s[k] == y;
            assert(s.push(x)[k] == y);
        }
        if y == x {
            assert(s.push(x)[s.len() as int] == x);
        }
        if s.push(x).contains(y) && y != x {
            let k = choose|k: int| 0 <= k < s.push(x).len() && s.push(x)[k] == y;
            assert(s[k] == y);
        }
    }
}

/// All ids in the subtree at `id`, `id` first and then level by level. An id is listed
/// once, also where the parent links run in a circle.
pub fn collect_subtree_ids(rows: &Vec<TableRow>, id: i64) -> (r: Vec<i64>)
    requires
        crate::rows::rows_sorted(rows@),
        crate::rows::table_of(rows@).dom().contains(id),
    ensures
        r@.len() > 0,
        r@[0] == id,
        r@.no_duplicates(),
        breadth_first(crate::rows::table_of(rows@), id, r@),
        forall|x: i64|
            r@.contains(x) <==> crate::table::subtree(crate::rows::table_of(rows@), id).contains(x),
        r@.len() == crate::table::subtree(crate::rows::table_of(rows@), id).len(),
{
    let ghost t = crate::rows::table_of(rows@);
    let ghost below = crate::table::subtree(t, id);
    let at = crate::rows::row_place(rows, id);
    let mut marks: Vec<bool> = Vec::new();
    let mut i: usize = 0;
    while i < rows.len()
        invariant
            i <= rows@.len(),
            at < rows@.len(),
            marks@.len() == i,
            forall|k: int| 0 <= k < i ==> #[trigger] marks@[k] == (k == at),
        decreases rows@.len() - i,
    {
        marks.push(i == at);
        i = i + 1;
    }
    let mut r: Vec<i64> = Vec::new();
    r.push(id);
    let mut level: Vec<i64> = Vec::new();
    level.push(id);
    let ghost mut h: nat = 0;
    proof {
        crate::rows::lemma_rows(rows@);
        assert forall|x: i64| #[trigger] at_depth(t, id, x, 0) <==> x == id by {
            assert(crate::table::up(t, x, 0) == Some(x));
        }
        assert forall|x: i64| reached(t, id, x, 0) <==> x == id by {
            assert(at_depth(t, id, x, 0) <==> x == id);
        }
        lemma_push_contains(Seq::empty(), id);
        assert(r@ =~= Seq::empty().push(id));
        assert(level@ =~= Seq::empty().push(id));
        assert forall|k: int| 0 <= k < rows@.len() implies #[trigger] marks@[k] == r@.contains(
            rows@[k].row.id,
        ) by {
            if k < at {
                assert(rows@[k].row.id < rows@[at as int].row.id);
            } else if k > at {
                assert(rows@[at as int].row.id < rows@[k].row.id);
            }
        }
    }
    while level.len() > 0
        invariant
            crate::rows::rows_sorted(rows@),
            t == crate::rows::table_of(rows@),
            t.dom().contains(id),
            marks@.len() == rows@.len(),
            forall|k: int|
                0 <= k < rows@.len() ==> #[trigger] marks@[k] == r@.contains(rows@[k].row.id),
            r@.len() > 0,
            r@[0] == id,
            r@.no_duplicates(),
            breadth_first(t, id, r@),
            crate::rows::ids_sorted(level@),
            forall|x: i64| level@.contains(x) <==> #[trigger] at_depth(t, id, x, h),
            forall|x: i64| r@.contains(x) <==> reached(t, id, x, h),
            r@.len() <= rows@.len(),
        decreases rows@.len() - r@.len(), level@.len(),
    {
        let ghost old_r = r@;
        let ghost old_level = level@;
        let next = crate::rows::level_below(rows, &level);
        proof {
            assert forall|k: int| 0 <= k < next@.len() implies t.dom().contains(
                #[trigger] next@[k],
            ) by {
                assert(next@.contains(next@[k]));
            }
        }
        let fresh = list_new(rows, &mut marks, &next, &mut r);
        proof {
            lemma_next_level(t, id, h, old_level, next@, old_r, fresh@);
            h = h + 1;
            crate::rows::lemma_rows(rows@);
            r@.unique_seq_to_set();
            assert(r@.to_set().subset_of(t.dom())) by {
                assert forall|x: i64| r@.to_set().contains(x) implies t.dom().contains(x) by {
                    lemma_reached_in(t, id, x, h);
                }
            }
            vstd::set_lib::lemma_len_subset(r@.to_set(), t.dom());
        }
        level = fresh;
    }
    proof {
        assert forall|x: i64| !#[trigger] at_depth(t, id, x, h) by {
            assert(!level@.contains(x));
        }
        assert(h > 0) by {
            assert(crate::table::up(t, id, 0) == Some(id));
            assert(at_depth(t, id, id, 0));
        }
        assert forall|x: i64| r@.contains(x) <==> below.contains(x) by {
            if below.contains(x) {
                let k = choose|k: nat| crate::table::up(t, x, k) == Some(id);
                let d = lemma_has_depth(t, id, x, k);
                if d > h {
                    lemma_no_deeper(t, id, x, (h - 1) as nat, d);
                }
                assert(reached(t, id, x, h));
            }
            if r@.contains(x) {
                lemma_reached_in(t, id, x, h);
            }
        }
        r@.unique_seq_to_set();
        assert(r@.to_set() =~= below);
    }
    r
}

/// The node shows the columns of this entry.
pub open spec fn shows_entry(n: Node, e: Entry) -> bool {
    &&& n.parent_id == e.parent
    &&& n.kind == e.kind
    &&& n.title@ == e.title
    &&& crate::node::opt_text(n.url) == e.url
    &&& n.position == e.position
    &&& n.created == e.created
    &&& n.modified == e.modified
}

/// The node shows its row of the table, without children.
pub open spec fn shows_flat(t: Table, n: Node) -> bool {
    &&& t.dom().contains(n.id)
    &&& shows_entry(n, t[n.id])
    &&& n.children@.len() == 0
}

/// The ids of a list of nodes.
pub open spec fn node_ids(s: Seq<Node>) -> Seq<i64> {
    Seq::new(s.len(), |i: int| s[i].id)
}

/// The node shows its row and, in sibling order, everything below it.
pub open spec fn shows_tree(t: Table, n: Node) -> bool
    decreases n,
{
    &&& t.dom().contains(n.id)
    &&& shows_entry(n, t[n.id])
    &&& crate::table::in_order(t, Some(n.id), node_ids(n.children@))
    &&& forall|i: int| 0 <= i < n.children@.len() ==> shows_tree(t, #[trigger] n.children@[i])
}

/// The node of a row, without children.
pub fn row_to_node(r: &TableRow) -> (n: Node)
    ensures
        n.id == r.row.id,
        shows_entry(n, crate::rows::entry_of(*r)),
        n.children@.len() == 0,
{
    Node {
        id: r.row.id,
        parent_id: r.row.parent_id,
        kind: r.row.kind,
        title: r.row.title.clone(),
        url: crate::node::clone_opt_text(&r.row.url),
        position: r.row.position,
        created: r.row.created,
        modified: r.row.modified,
        children: Vec::new(),
    }
}

/// Where the levels below `id` end, a child is listed behind its parent.
proof fn lemma_child_later(t: Table, id: i64, s: Seq<i64>, a: int, b: int, h: nat)
    requires
        !level_used(t, id, h),
        breadth_first(t, id, s),
        forall|x: i64| s.contains(x) <==> crate::table::subtree(t, id).contains(x),
        0 <= a < s.len(),
        0 <= b < s.len(),
        crate::table::sits_under(t, Some(s[a]), s[b]),
    ensures
        a < b,
{
    assert(s.contains(s[a]));
    let k = choose|k: nat| crate::table::up(t, s[a], k) == Some(id);
    let d = lemma_has_depth(t, id, s[a], k);
    crate::table::lemma_up_front(t, s[b], d);
    let e = lemma_has_depth(t, id, s[b], d + 1);
    if e == 0 {
        assert(crate::table::up(t, s[b], 0) == Some(s[b]));
        lemma_no_cycle(t, id, h, d + 1);
    } else {
        lemma_parent_depth(t, id, s[b], (e - 1) as nat);
        lemma_one_depth(t, id, s[a], d, (e - 1) as nat);
    }
    assert(at_depth(t, id, s[a], d) && at_depth(t, id, s[b], e));
    if a == b {
        lemma_one_depth(t, id, s[a], d, e);
    }
}

/// The slot of `x` holds its finished tree.
spec fn finished(rows: Seq<TableRow>, built: Seq<Option<Node>>, x: i64) -> bool {
    built[crate::rows::row_index(rows, x)] matches Some(n) && n.id == x && shows_tree(
        crate::rows::table_of(rows),
        n,
    )
}

/// Takes the finished trees of the listed children out of their slots.
fn take_children(rows: &Vec<TableRow>, built: &mut Vec<Option<Node>>, kids: &Vec<i64>) -> (r: Vec<
    Node,
>)
    requires
        crate::rows::rows_sorted(rows@),
        old(built)@.len() == rows@.len(),
        kids@.no_duplicates(),
        forall|k: int|
            0 <= k < kids@.len() ==> crate::rows::table_of(rows@).dom().contains(
                #[trigger] kids@[k],
            ),
        forall|k: int|
            0 <= k < kids@.len() ==> finished(rows@, old(built)@, #[trigger] kids@[k]),
    ensures
        node_ids(r@) == kids@,
        forall|k: int|
            0 <= k < r@.len() ==> shows_tree(crate::rows::table_of(rows@), #[trigger] r@[k]),
        final(built)@.len() == rows@.len(),
        forall|x: i64|
            crate::rows::table_of(rows@).dom().contains(x) && !kids@.contains(x) && finished(
                rows@,
                old(built)@,
                x,
            ) ==> #[trigger] finished(rows@, final(built)@, x),
{
    let ghost t = crate::rows::table_of(rows@);
    let ghost before = built@;
    let mut r: Vec<Node> = Vec::new();
    let mut i: usize = 0;
    while i < kids.len()
        invariant
            crate::rows::rows_sorted(rows@),
            t == crate::rows::table_of(rows@),
            built@.len() == rows@.len(),
            kids@.no_duplicates(),
            forall|k: int| 0 <= k < kids@.len() ==> t.dom().contains(#[trigger] kids@[k]),
            i <= kids@.len(),
            r@.len() == i,
            forall|k: int|
                0 <= k < i ==> (#[trigger] r@[k]).id == kids@[k] && shows_tree(t, r@[k]),
            forall|k: int| i <= k < kids@.len() ==> finished(rows@, built@, #[trigger] kids@[k]),
            forall|x: i64|
                t.dom().contains(x) && !kids@.contains(x) && finished(rows@, before, x)
                    ==> #[trigger] finished(rows@, built@, x),
        decreases kids@.len() - i,
    {
        let kid: i64 = kids[i];
        let at = crate::rows::row_place(rows, kid);
        let ghost now = built@;
        assert(finished(rows@, now, kids@[i as int]));
        let slot = built[at].take();
        proof {
            crate::rows::lemma_rows(rows@);
            assert(kids@.contains(kid));
            assert forall|x: i64| t.dom().contains(x) && x != kid && finished(rows@, now, x) implies
                #[trigger] finished(rows@, built@, x) by {
                assert(rows@[crate::rows::row_index(rows@, x)].row.id == x);
            }
        }
        if let Some(n) = slot {
            r.push(n);
        }
        i = i + 1;
    }
    assert(node_ids(r@) =~= kids@);
    r
}

/// Builds the nested tree at `id`, whose levels have to end: from the deepest level up, so
/// that the trees of a node's children are finished when it is reached. There is no
/// recursion, however deep the tree is.
pub fn assemble(rows: &Vec<TableRow>, id: i64) -> (n: Node)
    requires
        crate::rows::rows_sorted(rows@),
        crate::rows::table_of(rows@).dom().contains(id),
        exists|h: nat| !level_used(crate::rows::table_of(rows@), id, h),
    ensures
        n.id == id,
        shows_tree(crate::rows::table_of(rows@), n),
{
    let ghost t = crate::rows::table_of(rows@);
    let ghost h = choose|h: nat| !level_used(t, id, h);
    let order = collect_subtree_ids(rows, id);
    let mut built: Vec<Option<Node>> = Vec::new();
    let mut i: usize = 0;
    while i < rows.len()
        invariant
            i <= rows@.len(),
            built@.len() == i,
        decreases rows@.len() - i,
    {
        built.push(None);
        i = i + 1;
    }
    let mut i: usize = order.len();
    while i > 0
        invariant
            crate::rows::rows_sorted(rows@),
            t == crate::rows::table_of(rows@),
            !level_used(t, id, h),
            breadth_first(t, id, order@),
            order@.no_duplicates(),
            forall|x: i64| order@.contains(x) <==> crate::table::subtree(t, id).contains(x),
            i <= order@.len(),
            built@.len() == rows@.len(),
            forall|j: int|
                #![trigger order@[j]]
                i <= j < order@.len() && !claimed(t, order@, i as int, order@[j]) ==> finished(
                    rows@,
                    built@,
                    order@[j],
                ),
        decreases i,
    {
        i = i - 1;
        let x: i64 = order[i];
        let kids = crate::rows::ordered_kids(rows, Some(x));
        let ghost before = built@;
        proof {
            assert(order@.contains(x));
            lemma_kids_finished(rows@, id, order@, i as int, h, built@, kids@);
            crate::table::lemma_order_len(t, Some(x), kids@);
        }
        let children = take_children(rows, &mut built, &kids);
        let ghost rest = built@;
        let at = crate::rows::row_place(rows, x);
        let mut n = row_to_node(&rows[at]);
        n.children = children;
        assert(shows_tree(t, n));
        built.set(at, Some(n));
        proof {
            assert forall|j: int|
                #![trigger order@[j]]
                i <= j < order@.len() && !claimed(t, order@, i as int, order@[j]) implies finished(
                rows@,
                built@,
                order@[j],
            ) by {
                let y = order@[j];
                crate::rows::lemma_rows(rows@);
                assert(order@.contains(y));
                if j > i {
                    assert(y != x);
                    assert(!claimed(t, order@, i + 1, y));
                    assert(finished(rows@, before, y));
                    assert(!kids@.contains(y)) by {
                        if kids@.contains(y) {
                            assert(crate::table::sits_under(t, Some(x), y));
                            assert(claimed(t, order@, i as int, y));
                        }
                    }
                    assert(finished(rows@, rest, y));
                    assert(rows@[crate::rows::row_index(rows@, y)].row.id == y);
                }
            }
        }
    }
    let at = crate::rows::row_place(rows, id);
    proof {
        assert(order@[0] == id);
        if claimed(t, order@, 0, id) {
            let m = choose|m: int|
                0 <= m < order@.len() && crate::table::sits_under(t, Some(#[trigger] order@[m]), id);
            lemma_child_later(t, id, order@, m, 0, h);
        }
        assert(finished(rows@, built@, id));
    }
    match built[at].take() {
        Some(n) => n,
        None => row_to_node(&rows[at]),
    }
}

/// The parent of `y` is listed at `from` or behind it.
spec fn claimed(t: Table, order: Seq<i64>, from: int, y: i64) -> bool {
    exists|m: int|
        from <= m < order.len() && crate::table::sits_under(t, Some(#[trigger] order[m]), y)
}

/// When a node is reached, the trees of its children are finished.
proof fn lemma_kids_finished(
    rows: Seq<TableRow>,
    id: i64,
    order: Seq<i64>,
    i: int,
    h: nat,
    built: Seq<Option<Node>>,
    kids: Seq<i64>,
)
    requires
        !level_used(crate::rows::table_of(rows), id, h),
        breadth_first(crate::rows::table_of(rows), id, order),
        order.no_duplicates(),
        forall|x: i64|
            order.contains(x) <==> crate::table::subtree(
                crate::rows::table_of(rows),
                id,
            ).contains(x),
        0 <= i < order.len(),
        forall|j: int|
            #![trigger order[j]]
            i + 1 <= j < order.len() && !claimed(
                crate::rows::table_of(rows),
                order,
                i + 1,
                order[j],
            ) ==> finished(rows, built, order[j]),
        crate::table::in_order(crate::rows::table_of(rows), Some(order[i]), kids),
    ensures
        forall|k: int|
            0 <= k < kids.len() ==> crate::rows::table_of(rows).dom().contains(
                #[trigger] kids[k],
            ),
        forall|k: int| 0 <= k < kids.len() ==> finished(rows, built, #[trigger] kids[k]),
{
    let t = crate::rows::table_of(rows);
    let x = order[i];
    assert(order.contains(x));
    assert forall|k: int| 0 <= k < kids.len() implies t.dom().contains(#[trigger] kids[k])
        && finished(rows, built, kids[k]) by {
        let y = kids[k];
        assert(kids.contains(y));
        assert(crate::table::sits_under(t, Some(x), y));
        let d = choose|d: nat| crate::table::up(t, x, d) == Some(id);
        crate::table::lemma_up_front(t, y, d);
        assert(crate::table::up(t, y, d + 1) == Some(id));
        assert(order.contains(y));
        let j = choose|j: int| 0 <= j < order.len() && order[j] == y;
        lemma_child_later(t, id, order, i, j, h);
        if claimed(t, order, i + 1, y) {
            let m = choose|m: int|
                i + 1 <= m < order.len() && crate::table::sits_under(
                    t,
                    Some(#[trigger] order[m]),
                    y,
                );
            assert(order[m] == x);
        }
        assert(finished(rows, built, order[j]));
    }
}

/// The number of nodes in a nested tree.
pub open spec fn node_count(n: Node) -> nat
    decreases n, 0nat,
{
    1 + list_count(n.children@, n.children@.len())
}

/// The number of nodes in the first `k` trees of a list.
pub open spec fn list_count(s: Seq<Node>, k: nat) -> nat
    decreases s, k,
    when k <= s.len()
{
    if k == 0 {
        0
    } else {
        list_count(s, (k - 1) as nat) + node_count(s[k - 1])
    }
}

spec fn stack_count(s: Seq<&Node>) -> nat
    decreases s.len(),
{
    if s.len() == 0 {
        0
    } else {
        stack_count(s.drop_last()) + node_count(*s.last())
    }
}

/// Counts every node in a nested tree, the root included.
pub fn count_nodes(root: &Node) -> (r: usize)
    requires
        node_count(*root) <= usize::MAX,
    ensures
        r == node_count(*root),
{
    let mut n: usize = 0;
    let mut stack: Vec<&Node> = Vec::new();
    stack.push(root);
    proof {
        assert(stack@.drop_last() =~= Seq::empty());
        assert(stack_count(stack@.drop_last()) == 0);
    }
    while stack.len() > 0
        invariant
            node_count(*root) <= usize::MAX,
            n + stack_count(stack@) == node_count(*root),
        decreases stack_count(stack@),
    {
        let ghost before = stack@;
        if let Some(node) = stack.pop() {
            n = n + 1;
            let mut i: usize = 0;
            let ghost rest = stack@;
            while i < node.children.len()
                invariant
                    i <= node.children@.len(),
                    stack_count(stack@) == stack_count(rest) + list_count(
                        node.children@,
                        i as nat,
                    ),
                decreases node.children@.len() - i,
            {
                let ghost s = stack@;
                stack.push(&node.children[i]);
                assert(stack@.drop_last() =~= s);
                i = i + 1;
            }
        }
    }
    n
}

/// Without a level `n` below `id`, no chain leads from `id` back to `id`.
pub proof fn lemma_no_cycle(t: Table, id: i64, n: nat, c: nat)
    requires
        !level_used(t, id, n),
        c > 0,
    ensures
        crate::table::up(t, id, c) != Some(id),
{
    if crate::table::up(t, id, c) == Some(id) {
        lemma_round(t, id, c, n);
        assert(n * c >= n) by (nonlinear_arith)
            requires
                c > 0,
        ;
        lemma_levels_closed(t, id, n, n * c);
        assert(level_used(t, id, n * c));
    }
}

proof fn lemma_round(t: Table, id: i64, c: nat, k: nat)
    requires
        crate::table::up(t, id, c) == Some(id),
    ensures
        crate::table::up(t, id, k * c) == Some(id),
    decreases k,
{
    if k == 0 {
        assert(k * c == 0) by (nonlinear_arith)
            requires
                k == 0,
        ;
    } else {
        let j = (k - 1) as nat;
        lemma_round(t, id, c, j);
        crate::table::lemma_up_add(t, id, j * c, c);
        assert(j * c + c == k * c) by (nonlinear_arith)
            requires
                j == k - 1,
        ;
    }
}

/// A node below two different children of `id` would be below itself.
proof fn lemma_apart(t: Table, id: i64, n: nat, x: i64, a: nat, b: nat)
    requires
        !level_used(t, id, n),
        crate::table::up(t, x, a) is Some,
        crate::table::up(t, x, b) is Some,
        crate::table::parent_in(t, crate::table::up(t, x, a)->0) == Some(id),
        crate::table::parent_in(t, crate::table::up(t, x, b)->0) == Some(id),
    ensures
        a == b,
{
    if a != b {
        let (lo, hi) = if a < b {
            (a, b)
        } else {
            (b, a)
        };
        let c = (hi - lo) as nat;
        assert(crate::table::up(t, x, lo + 1) == Some(id));
        assert(crate::table::up(t, x, hi + 1) == Some(id));
        crate::table::lemma_up_add(t, x, lo + 1, c);
        assert(lo + 1 + c == hi + 1);
        lemma_no_cycle(t, id, n, c);
    }
}

/// The ids below the first `k` of the listed ids, these included.
spec fn below_first(t: Table, s: Seq<Node>, k: nat) -> Set<i64> {
    Set::new(
        |x: i64|
            exists|i: int|
                0 <= i < k && crate::table::subtree(t, (#[trigger] s[i]).id).contains(x),
    )
}

proof fn lemma_list_count(t: Table, n: Node, levels: nat, k: nat)
    requires
        t.dom().finite(),
        shows_tree(t, n),
        !level_used(t, n.id, levels + 1),
        k <= n.children@.len(),
    ensures
        below_first(t, n.children@, k).finite(),
        below_first(t, n.children@, k).len() == list_count(n.children@, k),
    decreases n, k,
{
    let s = n.children@;
    if k == 0 {
        assert(below_first(t, s, 0) =~= Set::empty());
    } else {
        let j = (k - 1) as nat;
        lemma_list_count(t, n, levels, j);
        let kid = s[j as int];
        let ids = node_ids(s);
        assert(ids.contains(ids[j as int]));
        assert(crate::table::sits_under(t, Some(n.id), kid.id));
        if level_used(t, kid.id, levels) {
            let x = choose|x: i64| #[trigger] crate::table::up(t, x, levels) == Some(kid.id);
            assert(crate::table::up(t, x, levels + 1) == Some(n.id));
        }
        if levels == 0 {
            assert(crate::table::up(t, kid.id, 0) == Some(kid.id));
        }
        lemma_tree_count(t, kid, (levels - 1) as nat);
        let a = below_first(t, s, j);
        let b = crate::table::subtree(t, kid.id);
        assert(a.disjoint(b)) by {
            assert forall|x: i64| !(a.contains(x) && b.contains(x)) by {
                if a.contains(x) && b.contains(x) {
                    let i = choose|i: int|
                        0 <= i < j && crate::table::subtree(t, (#[trigger] s[i]).id).contains(x);
                    assert(ids.contains(ids[i]));
                    assert(crate::table::sits_under(t, Some(n.id), s[i].id));
                    let p = choose|p: nat| crate::table::up(t, x, p) == Some(s[i].id);
                    let q = choose|q: nat| crate::table::up(t, x, q) == Some(kid.id);
                    lemma_apart(t, n.id, levels + 1, x, p, q);
                    assert(crate::table::before(t, ids[i], ids[j as int]));
                }
            }
        }
        vstd::set_lib::lemma_set_disjoint_lens(a, b);
        assert(below_first(t, s, k) =~= a + b) by {
            assert forall|x: i64| below_first(t, s, k).contains(x) <==> (a + b).contains(x) by {
                if below_first(t, s, k).contains(x) {
                    let i = choose|i: int|
                        0 <= i < k && crate::table::subtree(t, (#[trigger] s[i]).id).contains(x);
                    if i < j {
                        assert(a.contains(x));
                    }
                }
                if b.contains(x) {
                    assert(crate::table::subtree(t, s[j as int].id).contains(x));
                }
            }
        }
    }
}

/// A nested tree holds as many nodes as there are at and below its root.
pub proof fn lemma_tree_count(t: Table, n: Node, levels: nat)
    requires
        t.dom().finite(),
        shows_tree(t, n),
        !level_used(t, n.id, levels + 1),
    ensures
        crate::table::subtree(t, n.id).finite(),
        node_count(n) == crate::table::subtree(t, n.id).len(),
    decreases n,
{
    let s = n.children@;
    let ids = node_ids(s);
    lemma_list_count(t, n, levels, s.len());
    let a = below_first(t, s, s.len());
    let all = crate::table::subtree(t, n.id);
    if a.contains(n.id) {
        let i = choose|i: int|
            0 <= i < s.len() && crate::table::subtree(t, (#[trigger] s[i]).id).contains(n.id);
        assert(ids.contains(ids[i]));
        assert(crate::table::sits_under(t, Some(n.id), s[i].id));
        let p = choose|p: nat| crate::table::up(t, n.id, p) == Some(s[i].id);
        assert(crate::table::up(t, n.id, p + 1) == Some(n.id));
        lemma_no_cycle(t, n.id, levels + 1, p + 1);
    }
    assert(all =~= a.insert(n.id)) by {
        assert forall|x: i64| all.contains(x) <==> a.insert(n.id).contains(x) by {
            if all.contains(x) {
                let k = choose|k: nat| crate::table::up(t, x, k) == Some(n.id);
                if k > 0 {
                    let y = crate::table::up(t, x, (k - 1) as nat)->0;
                    assert(crate::table::sits_under(t, Some(n.id), y));
                    assert(ids.contains(y));
                    let i = choose|i: int| 0 <= i < ids.len() && ids[i] == y;
                    assert(crate::table::subtree(t, s[i].id).contains(x));
                }
            }
            if x == n.id {
                assert(crate::table::up(t, x, 0) == Some(n.id));
            } else if a.contains(x) {
                let i = choose|i: int|
                    0 <= i < s.len() && crate::table::subtree(t, (#[trigger] s[i]).id).contains(x);
                assert(ids.contains(ids[i]));
                assert(crate::table::sits_under(t, Some(n.id), s[i].id));
                let p = choose|p: nat| crate::table::up(t, x, p) == Some(s[i].id);
                assert(crate::table::up(t, x, p + 1) == Some(n.id));
            }
        }
    }
}

/// What a nested tree looks like is determined by the table: two trees at the same
/// id have the same JSON text.
pub proof fn lemma_tree_unique(t: Table, a: Node, b: Node)
    requires
        shows_tree(t, a),
        shows_tree(t, b),
        a.id == b.id,
    ensures
        crate::json::node_json(a) == crate::json::node_json(b),
    decreases a, 0nat,
{
    let s = a.children@;
    let q = b.children@;
    crate::table::lemma_order_unique(t, Some(a.id), node_ids(s), node_ids(q));
    assert(node_ids(s).len() == s.len() && node_ids(q).len() == q.len());
    assert forall|i: int| 0 <= i < s.len() implies (#[trigger] s[i]).id == q[i].id by {
        assert(node_ids(s)[i] == node_ids(q)[i]);
    }
    lemma_lists_unique(t, s, q, s.len());
    assert(crate::json::children_member(s) =~= crate::json::children_member(q));
}

proof fn lemma_lists_unique(t: Table, s: Seq<Node>, q: Seq<Node>, k: nat)
    requires
        s.len() == q.len(),
        k <= s.len(),
        forall|i: int| 0 <= i < s.len() ==> shows_tree(t, #[trigger] s[i]),
        forall|i: int| 0 <= i < q.len() ==> shows_tree(t, #[trigger] q[i]),
        forall|i: int| 0 <= i < s.len() ==> (#[trigger] s[i]).id == q[i].id,
    ensures
        crate::json::nodes_json(s, k) == crate::json::nodes_json(q, k),
    decreases s, k,
{
    if k > 0 {
        lemma_lists_unique(t, s, q, (k - 1) as nat);
        lemma_tree_unique(t, s[k - 1], q[k - 1]);
    }
}

} // verus!
