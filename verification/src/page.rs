//! Pages of nodes, bounded by the bytes they take on the wire.

use vstd::prelude::*;
use crate::node::Node;
use crate::table::Table;

verus! {

/// Bytes that the nodes of one page may take: 768 KiB, which leaves room under
/// the 1 MiB message cap for the rest of the reply.
pub const PAGE_BUDGET: u64 = 786432;

/// The bytes of a text.
pub open spec fn byte_len(s: Seq<char>) -> nat {
    vstd::utf8::encode_utf8(s).len()
}

/// What a node takes of the budget: its JSON text and a comma.
pub open spec fn node_size(n: Node) -> nat {
    byte_len(crate::json::node_json(n)) + 1
}

/// The sizes of the first `m` nodes together.
pub open spec fn total_size(s: Seq<Node>, m: nat) -> nat
    decreases m,
{
    if m == 0 {
        0
    } else {
        total_size(s, (m - 1) as nat) + node_size(s[m - 1])
    }
}

/// A page may hold the first `m` nodes: one always, more only within the budget.
pub open spec fn page_fits(s: Seq<Node>, m: nat) -> bool {
    m <= 1 || total_size(s, m) <= PAGE_BUDGET
}

/// `m` is the largest number of leading nodes that a page may hold.
pub open spec fn page_cut(s: Seq<Node>, m: nat) -> bool {
    &&& m <= s.len()
    &&& page_fits(s, m)
    &&& m < s.len() ==> !page_fits(s, m + 1)
}

proof fn lemma_total_grows(s: Seq<Node>, a: nat, b: nat)
    requires
        a <= b,
    ensures
        total_size(s, a) <= total_size(s, b),
    decreases b,
{
    if a < b {
        lemma_total_grows(s, a, (b - 1) as nat);
    }
}

/// Where a page is cut is determined by its nodes.
pub proof fn lemma_cut_unique(s: Seq<Node>, a: nat, b: nat)
    requires
        page_cut(s, a),
        page_cut(s, b),
    ensures
        a == b,
{
    if a < b {
        lemma_total_grows(s, a + 1, b);
    } else if b < a {
        lemma_total_grows(s, b + 1, a);
    }
}

fn node_bytes(n: &Node) -> (r: usize)
    ensures
        r == byte_len(crate::json::node_json(*n)),
{
    let text = crate::json::node_text(n);
    text.as_str().as_bytes().len()
}

/// Trims a page so that its JSON stays within the budget. The first node is kept
/// whatever its size, so that paging always advances.
pub fn trim_to_byte_budget(nodes: Vec<Node>) -> (r: Vec<Node>)
    ensures
        exists|m: nat| #[trigger] page_cut(nodes@, m) && r@ == nodes@.take(m as int),
        nodes@.len() > 0 ==> r@.len() > 0,
{
    let mut total: u128 = 0;
    let mut m: usize = 0;
    let ghost s = nodes@;
    while m < nodes.len()
        invariant
            s == nodes@,
            m <= s.len(),
            total == total_size(s, m as nat),
            page_fits(s, m as nat),
            total <= 0x1_0000_0000_0000_0000,
        ensures
            m <= s.len(),
            page_cut(s, m as nat),
            s.len() > 0 ==> m > 0,
        decreases s.len() - m,
    {
        let size: u128 = node_bytes(&nodes[m]) as u128 + 1;
        assert(total_size(s, (m + 1) as nat) == total + size);
        if m > 0 && total + size > PAGE_BUDGET as u128 {
            break;
        }
        total = total + size;
        m = m + 1;
    }
    let mut nodes = nodes;
    nodes.truncate(m);
    assert(nodes@ =~= s.take(m as int));
    nodes
}

/// The bytes of two texts together.
pub proof fn lemma_byte_len_add(a: Seq<char>, b: Seq<char>)
    ensures
        byte_len(a + b) == byte_len(a) + byte_len(b),
    decreases a.len(),
{
    if a.len() == 0 {
        assert(a + b =~= b);
    } else {
        assert((a + b).drop_first() =~= a.drop_first() + b);
        lemma_byte_len_add(a.drop_first(), b);
    }
}

/// The nodes of a page, as they stand in a reply.
proof fn lemma_nodes_bytes(s: Seq<Node>, k: nat)
    requires
        k <= s.len(),
    ensures
        k > 0 ==> byte_len(crate::json::nodes_json(s, k)) + 1 == total_size(s, k),
        k == 0 ==> byte_len(crate::json::nodes_json(s, k)) == 0,
    decreases k,
{
    if k == 1 {
        assert(total_size(s, 1) == total_size(s, 0) + node_size(s[0]));
    } else if k > 1 {
        let j = (k - 1) as nat;
        lemma_nodes_bytes(s, j);
        reveal_strlit(",");
        let head = crate::json::nodes_json(s, j);
        lemma_byte_len_add(head + ","@, crate::json::node_json(s[k - 1]));
        lemma_byte_len_add(head, ","@);
        vstd::utf8::is_ascii_chars_encode_utf8(","@);
    }
}

proof fn lemma_total_take(s: Seq<Node>, m: nat, k: nat)
    requires
        k <= m <= s.len(),
    ensures
        total_size(s.take(m as int), k) == total_size(s, k),
    decreases k,
{
    if k > 0 {
        lemma_total_take(s, m, (k - 1) as nat);
    }
}

/// A page of more than one node takes less than the budget in a reply.
pub proof fn lemma_page_bytes(s: Seq<Node>, m: nat)
    requires
        page_cut(s, m),
        m > 1,
    ensures
        byte_len(crate::json::nodes_json(s.take(m as int), m)) < PAGE_BUDGET,
{
    lemma_nodes_bytes(s.take(m as int), m);
    lemma_total_take(s, m, m);
}

/// Where a page was cut, one more node would have filled the budget.
pub proof fn lemma_page_overflows(s: Seq<Node>, m: nat)
    requires
        page_cut(s, m),
        m < s.len(),
    ensures
        byte_len(crate::json::nodes_json(s.take(m as int + 1), m + 1)) >= PAGE_BUDGET,
{
    lemma_nodes_bytes(s.take(m as int + 1), m + 1);
    lemma_total_take(s, m + 1, m + 1);
}

/// A page of a list that is not empty is not empty, and it shows the front of the list.
pub proof fn lemma_page_front(t: Table, ids: Seq<i64>, ns: Seq<Node>)
    requires
        crate::ops::is_page(t, ids, ns),
    ensures
        ns.len() <= ids.len(),
        ids.len() > 0 ==> ns.len() > 0,
        crate::ops::shows_list(t, ns, ids.take(ns.len() as int)),
        ns.len() > 1 ==> byte_len(crate::json::nodes_json(ns, ns.len())) < PAGE_BUDGET,
{
    let (all, m) = choose|all: Seq<Node>, m: nat|
        {
            &&& #[trigger] crate::ops::shows_list(t, all, ids)
            &&& #[trigger] page_cut(all, m)
            &&& ns == all.take(m as int)
        };
    if m > 1 {
        lemma_page_bytes(all, m);
    }
    assert forall|i: int| 0 <= i < ns.len() implies (#[trigger] ns[i]).id == ids.take(
        ns.len() as int,
    )[i] && crate::walk::shows_flat(t, ns[i]) by {
        assert(ns[i] == all[i]);
    }
}

/// Asking for the next page where the last one ended misses nothing and repeats
/// nothing: the page at `offset` is not empty before the end of the list, and it
/// shows the list from there.
pub proof fn lemma_paging_advances(
    t: Table,
    s: Seq<i64>,
    limit: i64,
    offset: i64,
    ns: Seq<Node>,
)
    requires
        crate::ops::is_page(t, crate::ops::window(s, limit, offset), ns),
        0 <= offset < s.len(),
    ensures
        ns.len() > 0,
        offset + ns.len() <= s.len(),
        crate::ops::shows_list(t, ns, s.subrange(offset as int, offset + ns.len())),
{
    let w = crate::ops::window(s, limit, offset);
    lemma_page_front(t, w, ns);
    assert(w.take(ns.len() as int) =~= s.subrange(offset as int, offset + ns.len()));
}

/// Nodes that show the same entry have the same size.
proof fn lemma_same_flat_size(t: Table, a: Node, b: Node)
    requires
        crate::walk::shows_flat(t, a),
        crate::walk::shows_flat(t, b),
        a.id == b.id,
    ensures
        crate::json::node_json(a) == crate::json::node_json(b),
{
    assert(crate::json::children_member(a.children@) =~= crate::json::children_member(b.children@));
}

proof fn lemma_same_total(t: Table, ids: Seq<i64>, a: Seq<Node>, b: Seq<Node>, k: nat)
    requires
        crate::ops::shows_list(t, a, ids),
        crate::ops::shows_list(t, b, ids),
        k <= ids.len(),
    ensures
        total_size(a, k) == total_size(b, k),
    decreases k,
{
    if k > 0 {
        lemma_same_total(t, ids, a, b, (k - 1) as nat);
        lemma_same_flat_size(t, a[k - 1], b[k - 1]);
    }
}

/// A page is determined by the table and the list that it is cut from.
pub proof fn lemma_page_unique(t: Table, ids: Seq<i64>, a: Seq<Node>, b: Seq<Node>)
    requires
        crate::ops::is_page(t, ids, a),
        crate::ops::is_page(t, ids, b),
    ensures
        crate::walk::node_ids(a) == crate::walk::node_ids(b),
{
    let (x, m) = choose|all: Seq<Node>, m: nat|
        {
            &&& #[trigger] crate::ops::shows_list(t, all, ids)
            &&& #[trigger] page_cut(all, m)
            &&& a == all.take(m as int)
        };
    let (y, n) = choose|all: Seq<Node>, n: nat|
        {
            &&& #[trigger] crate::ops::shows_list(t, all, ids)
            &&& #[trigger] page_cut(all, n)
            &&& b == all.take(n as int)
        };
    lemma_same_total(t, ids, x, y, n);
    if n < ids.len() {
        lemma_same_total(t, ids, x, y, n + 1);
    }
    assert(page_cut(x, n));
    lemma_cut_unique(x, m, n);
    assert(crate::walk::node_ids(a) =~= crate::walk::node_ids(b)) by {
        assert forall|i: int| 0 <= i < a.len() implies a[i].id == b[i].id by {
            assert(x[i].id == ids[i] && y[i].id == ids[i]);
        }
    }
}

/// The newest-first list of a set of nodes is determined by the table.
pub proof fn lemma_newest_unique(t: Table, want: Set<i64>, a: Seq<i64>, b: Seq<i64>)
    requires
        crate::ops::newest_first(t, want, a),
        crate::ops::newest_first(t, want, b),
    ensures
        a == b,
    decreases a.len(),
{
    if a.len() == 0 {
        if b.len() > 0 {
            assert(b.contains(b[0]));
            assert(a.contains(b[0]));
        }
        assert(a =~= b);
    } else {
        let x = a[0];
        assert(a.contains(x));
        assert(b.contains(x));
        let y = b[0];
        assert(b.contains(y));
        assert(a.contains(y));
        let i = choose|i: int| 0 <= i < b.len() && b[i] == x;
        let j = choose|j: int| 0 <= j < a.len() && a[j] == y;
        if i > 0 {
            assert(crate::ops::newer(t, b[0], b[i]));
            if j > 0 {
                assert(crate::ops::newer(t, a[0], a[j]));
            }
        }
        assert(x == y);
        let c = a.drop_first();
        let d = b.drop_first();
        lemma_rest_newest(t, want, a);
        lemma_rest_newest(t, want, b);
        lemma_newest_unique(t, want.remove(x), c, d);
        assert(a =~= seq![x] + c);
        assert(b =~= seq![x] + d);
    }
}

proof fn lemma_rest_newest(t: Table, want: Set<i64>, a: Seq<i64>)
    requires
        crate::ops::newest_first(t, want, a),
        a.len() > 0,
    ensures
        crate::ops::newest_first(t, want.remove(a[0]), a.drop_first()),
{
    let c = a.drop_first();
    assert forall|i: int, j: int|
        #![trigger c[i], c[j]]
        0 <= i < j < c.len() implies crate::ops::newer(t, c[i], c[j]) by {
        assert(crate::ops::newer(t, a[i + 1], a[j + 1]));
    }
    assert forall|z: i64| c.contains(z) <==> want.remove(a[0]).contains(z) by {
        if c.contains(z) {
            let k = choose|k: int| 0 <= k < c.len() && c[k] == z;
            assert(a[k + 1] == z);
            assert(a.contains(z));
            assert(crate::ops::newer(t, a[0], a[k + 1]));
        }
        if want.remove(a[0]).contains(z) {
            assert(a.contains(z));
            let k = choose|k: int| 0 <= k < a.len() && a[k] == z;
            assert(c[k - 1] == z);
        }
    }
}

} // verus!
