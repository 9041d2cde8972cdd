//! What a search and the list of bookmarks are for, told by the columns of the rows.

use vstd::prelude::*;
use crate::node::{Node, NodeKind};
use crate::serve::{Reply, Request};
use crate::table::Table;

verus! {

/// `a` was added after `b`.
pub open spec fn later(t: Table, a: i64, b: i64) -> bool {
    t[a].created > t[b].created || (t[a].created == t[b].created && a > b)
}

/// The two characters are one, a small and a capital letter of ASCII, or, beyond ASCII,
/// have the same small or the same capital form.
pub open spec fn alike(a: char, b: char) -> bool {
    ||| a == b
    ||| 'A' <= a <= 'Z' && b as int == a as int + 32
    ||| 'A' <= b <= 'Z' && a as int == b as int + 32
    ||| (a as int > 127 || b as int > 127) && (crate::like::small_of(a) == crate::like::small_of(b)
        || crate::like::capital_of(a) == crate::like::capital_of(b))
}

/// The characters of `q` follow each other in the text from `at` on.
pub open spec fn holds_at(text: Seq<char>, q: Seq<char>, at: int) -> bool {
    &&& 0 <= at
    &&& at + q.len() <= text.len()
    &&& forall|k: int| 0 <= k < q.len() ==> alike(#[trigger] q[k], text[at + k])
}

/// The characters of `q` follow each other somewhere in the text.
pub open spec fn holds(text: Seq<char>, q: Seq<char>) -> bool {
    exists|at: int| holds_at(text, q, at)
}

/// White space: tab to carriage return, space, and what Unicode adds to them.
pub open spec fn spacing(c: char) -> bool {
    let n = c as int;
    ||| 9 <= n <= 13
    ||| n == 32
    ||| n == 133
    ||| n == 160
    ||| n == 5760
    ||| 8192 <= n <= 8202
    ||| n == 8232
    ||| n == 8233
    ||| n == 8239
    ||| n == 8287
    ||| n == 12288
}

/// `m` is what is left of the text when the white space at both ends is taken off.
pub open spec fn kernel(s: Seq<char>, m: Seq<char>) -> bool {
    exists|i: int, j: int|
        {
            &&& 0 <= i <= j <= s.len()
            &&& m == #[trigger] s.subrange(i, j)
            &&& forall|k: int| 0 <= k < i || j <= k < s.len() ==> spacing(#[trigger] s[k])
            &&& i < j ==> !spacing(s[i]) && !spacing(s[j - 1])
        }
}

/// The row has a parent, and its title or its URL holds `q`.
pub open spec fn fits(t: Table, q: Seq<char>, x: i64) -> bool {
    &&& t.dom().contains(x)
    &&& t[x].parent is Some
    &&& holds(t[x].title, q) || (t[x].url matches Some(u) && holds(u, q))
}

/// The list names the row.
pub open spec fn names(s: Seq<Node>, x: i64) -> bool {
    exists|i: int| 0 <= i < s.len() && (#[trigger] s[i]).id == x
}

/// The rows that hold `q`, the newest first, and no other; one that is left out is older
/// than all that are there, and it is left out only because the list is as long as was
/// asked for, or because one more row would be too many bytes.
pub open spec fn is_result(t: Table, q: Seq<char>, limit: i64, s: Seq<Node>) -> bool {
    &&& s.len() <= crate::tree_laws::at_most(limit)
    &&& forall|i: int|
        0 <= i < s.len() ==> crate::tree_laws::tells_row(t, #[trigger] s[i]) && fits(t, q, s[i].id)
    &&& forall|i: int, j: int|
        0 <= i < j < s.len() ==> later(t, (#[trigger] s[i]).id, (#[trigger] s[j]).id)
    &&& s.len() > 1 ==> crate::tree_laws::wire_bytes(s) < 786432
    &&& forall|x: i64| #[trigger]
        fits(t, q, x) && !names(s, x) ==> {
            &&& s.len() > 0
            &&& forall|i: int| 0 <= i < s.len() ==> later(t, (#[trigger] s[i]).id, x)
            &&& s.len() == crate::tree_laws::at_most(limit) || exists|next: Node|
                {
                    &&& crate::tree_laws::tells_row(t, next)
                    &&& fits(t, q, next.id)
                    &&& !names(s, next.id)
                    &&& next.id == x || later(t, next.id, x)
                    &&& #[trigger] crate::tree_laws::wire_bytes(s.push(next)) >= 786432
                }
        }
}

proof fn lemma_alike(a: char, b: char)
    ensures
        alike(a, b) == crate::like::same_letter(a, b),
{
}

proof fn lemma_holds(text: Seq<char>, q: Seq<char>)
    ensures
        holds(text, q) == crate::like::contains_text(text, q),
{
    if holds(text, q) {
        let at = choose|at: int| holds_at(text, q, at);
        assert forall|k: int| 0 <= k < q.len() implies crate::like::same_letter(
            #[trigger] q[k],
            text[at + k],
        ) by {
            lemma_alike(q[k], text[at + k]);
        }
        assert(crate::like::stands_at(text, q, at));
    }
    if crate::like::contains_text(text, q) {
        let at = choose|at: int| crate::like::stands_at(text, q, at);
        assert forall|k: int| 0 <= k < q.len() implies alike(#[trigger] q[k], text[at + k]) by {
            lemma_alike(q[k], text[at + k]);
        }
        assert(holds_at(text, q, at));
    }
}

pub proof fn lemma_spacing(c: char)
    ensures
        spacing(c) == crate::text::white_space(c),
{
}

proof fn lemma_trim_start(s: Seq<char>) -> (i: int)
    ensures
        0 <= i <= s.len(),
        crate::text::trim_start(s) == s.subrange(i, s.len() as int),
        forall|k: int| 0 <= k < i ==> spacing(#[trigger] s[k]),
        i < s.len() ==> !spacing(s[i]),
    decreases s.len(),
{
    lemma_spacing(s[0]);
    if s.len() > 0 && crate::text::white_space(s[0]) {
        let rest = s.subrange(1, s.len() as int);
        let i = lemma_trim_start(rest);
        assert(rest.subrange(i, rest.len() as int) =~= s.subrange(i + 1, s.len() as int));
        assert forall|k: int| 0 <= k < i + 1 implies spacing(#[trigger] s[k]) by {
            if k > 0 {
                assert(s[k] == rest[k - 1]);
            }
        }
        if i < rest.len() {
            assert(rest[i] == s[i + 1]);
        }
        i + 1
    } else {
        assert(s.subrange(0, s.len() as int) =~= s);
        0
    }
}

proof fn lemma_trim_end(s: Seq<char>) -> (j: int)
    ensures
        0 <= j <= s.len(),
        crate::text::trim_end(s) == s.subrange(0, j),
        forall|k: int| j <= k < s.len() ==> spacing(#[trigger] s[k]),
        0 < j ==> !spacing(s[j - 1]),
    decreases s.len(),
{
    lemma_spacing(s.last());
    if s.len() > 0 && crate::text::white_space(s.last()) {
        let rest = s.drop_last();
        let j = lemma_trim_end(rest);
        assert(rest.subrange(0, j) =~= s.subrange(0, j));
        assert forall|k: int| j <= k < s.len() implies spacing(#[trigger] s[k]) by {
            if k < rest.len() {
                assert(s[k] == rest[k]);
            }
        }
        j
    } else {
        assert(s.subrange(0, s.len() as int) =~= s);
        s.len() as int
    }
}

proof fn lemma_kernel(s: Seq<char>)
    ensures
        kernel(s, crate::text::trimmed(s)),
{
    let i = lemma_trim_start(s);
    let a = crate::text::trim_start(s);
    let j = lemma_trim_end(a);
    assert(a.subrange(0, j) =~= s.subrange(i, i + j));
    assert forall|k: int| 0 <= k < i || i + j <= k < s.len() implies spacing(#[trigger] s[k]) by {
        if k >= i {
            assert(s[k] == a[k - i]);
        }
    }
    if j > 0 {
        assert(a[j - 1] == s[i + j - 1]);
    }
}

proof fn lemma_cut_result(t: Table, q: Seq<char>, limit: i64, s: Seq<i64>, ns: Seq<Node>)
    requires
        crate::ops::newest_first(t, crate::ops::found(t, q), s),
        crate::ops::is_page(t, crate::ops::window(s, limit, 0), ns),
    ensures
        is_result(t, q, limit, ns),
{
    let w = crate::ops::window(s, limit, 0);
    crate::tree_laws::lemma_page_is_front(t, w, ns);
    assert forall|x: i64| #[trigger] fits(t, q, x) <==> s.contains(x) by {
        lemma_holds(t[x].title, q);
        if let Some(u) = t[x].url {
            lemma_holds(u, q);
        }
        assert(crate::ops::found(t, q).contains(x) <==> fits(t, q, x));
    }
    assert forall|i: int| 0 <= i < ns.len() implies crate::tree_laws::tells_row(t, #[trigger] ns[i])
        && fits(t, q, ns[i].id) by {
        assert(s.contains(s[i]));
        assert(ns[i].id == s[i]);
    }
    assert forall|i: int, j: int| 0 <= i < j < ns.len() implies later(
        t,
        (#[trigger] ns[i]).id,
        (#[trigger] ns[j]).id,
    ) by {
        assert(ns[i].id == s[i] && ns[j].id == s[j]);
    }
    assert forall|x: i64| #[trigger] fits(t, q, x) && !names(ns, x) implies {
        &&& ns.len() > 0
        &&& forall|i: int| 0 <= i < ns.len() ==> later(t, (#[trigger] ns[i]).id, x)
        &&& ns.len() == crate::tree_laws::at_most(limit) || exists|next: Node|
            {
                &&& crate::tree_laws::tells_row(t, next)
                &&& fits(t, q, next.id)
                &&& !names(ns, next.id)
                &&& next.id == x || later(t, next.id, x)
                &&& #[trigger] crate::tree_laws::wire_bytes(ns.push(next)) >= 786432
            }
    } by {
        assert(s.contains(x));
        let at = choose|at: int| 0 <= at < s.len() && s[at] == x;
        if at < ns.len() {
            assert(ns[at].id == x);
        }
        assert forall|i: int| 0 <= i < ns.len() implies later(t, (#[trigger] ns[i]).id, x) by {
            assert(ns[i].id == s[i] && s[at] == x);
        }
        if ns.len() < w.len() {
            let m = ns.len() as int;
            let next = choose|next: Node|
                {
                    &&& next.id == w[m]
                    &&& crate::tree_laws::tells_row(t, next)
                    &&& #[trigger] crate::tree_laws::wire_bytes(ns.push(next)) >= 786432
                };
            assert(next.id == s[m]);
            assert(s.contains(s[m]));
            if names(ns, next.id) {
                let i = choose|i: int| 0 <= i < ns.len() && (#[trigger] ns[i]).id == next.id;
                assert(s[i] == s[m]);
            }
            if m < at {
                assert(later(t, s[m], s[at]));
            }
        }
    }
}

/// A search shows every row with a parent, at whatever depth, whose title or URL holds the
/// query without the white space at its ends, and no other, the newest first. A query of
/// white space alone finds nothing.
pub proof fn lemma_search_is_complete(
    t: Table,
    query: String,
    limit: i64,
    now: i64,
    u: Table,
    r: Reply,
)
    requires
        crate::serve::tree_answer(t, Request::Search { query, limit }, now, u, r),
    ensures
        u == t,
        r matches Reply::Results(v) && exists|q: Seq<char>| #[trigger]
            kernel(query@, q) && if q.len() == 0 {
                v@.len() == 0
            } else {
                is_result(t, q, limit, v@)
            },
{
    let q = crate::text::trimmed(query@);
    lemma_kernel(query@);
    if let Reply::Results(v) = r {
        if q.len() > 0 {
            let s = choose|s: Seq<i64>| #[trigger]
                crate::ops::newest_first(t, crate::ops::found(t, q), s) && crate::ops::is_page(
                    t,
                    crate::ops::window(s, limit, 0),
                    v@,
                );
            lemma_cut_result(t, q, limit, s, v@);
        }
    }
}

/// The list of bookmarks shows every row that is a bookmark, hidden or not, and no other
/// row, the newest first.
pub proof fn lemma_list_is_complete(t: Table, now: i64, u: Table, r: Reply)
    requires
        crate::serve::tree_answer(t, Request::List, now, u, r),
    ensures
        u == t,
        r matches Reply::Bookmarks(v) && lists_bookmarks(t, v@),
{
    if let Reply::Bookmarks(v) = r {
        lemma_lists_bookmarks(t, v@);
    }
}

/// The nodes are the bookmarks of the table, the newest first.
pub open spec fn lists_bookmarks(t: Table, s: Seq<Node>) -> bool {
    &&& forall|i: int|
        0 <= i < s.len() ==> crate::tree_laws::tells_row(t, #[trigger] s[i]) && s[i].kind
            == NodeKind::Bookmark
    &&& forall|i: int, j: int|
        0 <= i < j < s.len() ==> later(t, (#[trigger] s[i]).id, (#[trigger] s[j]).id)
    &&& forall|x: i64| #[trigger]
        t.dom().contains(x) && t[x].kind == NodeKind::Bookmark ==> names(s, x)
}

pub proof fn lemma_lists_bookmarks(t: Table, v: Seq<Node>)
    requires
        exists|s: Seq<i64>| #[trigger]
            crate::ops::newest_first(t, crate::ops::bookmarks(t), s) && crate::ops::shows_list(
                t,
                v,
                s,
            ),
    ensures
        lists_bookmarks(t, v),
{
    let s = choose|s: Seq<i64>| #[trigger]
        crate::ops::newest_first(t, crate::ops::bookmarks(t), s) && crate::ops::shows_list(t, v, s);
    assert forall|i: int| 0 <= i < v.len() implies crate::tree_laws::tells_row(t, #[trigger] v[i])
        && v[i].kind == NodeKind::Bookmark by {
        assert(s.contains(s[i]));
        assert(crate::ops::bookmarks(t).contains(s[i]));
    }
    assert forall|i: int, j: int| 0 <= i < j < v.len() implies later(
        t,
        (#[trigger] v[i]).id,
        (#[trigger] v[j]).id,
    ) by {
        assert(v[i].id == s[i] && v[j].id == s[j]);
    }
    assert forall|x: i64| #[trigger]
        t.dom().contains(x) && t[x].kind == NodeKind::Bookmark implies names(v, x) by {
        assert(crate::ops::bookmarks(t).contains(x));
        assert(s.contains(x));
        let i = choose|i: int| 0 <= i < s.len() && s[i] == x;
        assert(v[i].id == x);
    }
}

} // verus!
