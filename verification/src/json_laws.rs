//! What the JSON texts are for: each member is there under its own name with its own value,
//! and a string can be read back from its text.

use vstd::prelude::*;
use crate::node::{Node, NodeKind, RowView};
use crate::serve::Reply;

verus! {

/// The name of a member as it stands in the text.
pub open spec fn quoted(name: Seq<char>) -> Seq<char> {
    seq!['"'] + name + seq!['"', ':']
}

/// Between `a` and `b` the text holds a member with this name and value, and what follows
/// it is the next member or the end of the object.
pub open spec fn member_between(
    text: Seq<char>,
    a: Seq<char>,
    name: Seq<char>,
    value: Seq<char>,
    b: Seq<char>,
) -> bool {
    &&& text == a + quoted(name) + value + b
    &&& b.len() > 0
    &&& b[0] == ',' || b[0] == '}'
}

/// The text holds a member with this name and value.
pub open spec fn has_member(text: Seq<char>, name: Seq<char>, value: Seq<char>) -> bool {
    exists|a: Seq<char>, b: Seq<char>| #[trigger] member_between(text, a, name, value, b)
}

/// What a text between the quotes of a string stands for, read from the front.
pub open spec fn read_string(text: Seq<char>) -> Option<Seq<char>>
    decreases text.len(),
{
    if text.len() == 0 {
        Some(seq![])
    } else if text[0] == '"' || (text[0] as u32) < 0x20 {
        None
    } else if text[0] != '\\' {
        match read_string(text.skip(1)) {
            Some(rest) => Some(seq![text[0]] + rest),
            None => None,
        }
    } else if text.len() >= 2 && escape_of(text[1]) is Some {
        match read_string(text.skip(2)) {
            Some(rest) => Some(seq![escape_of(text[1])->0] + rest),
            None => None,
        }
    } else if text.len() >= 6 && text[1] == 'u' && text[2] == '0' && text[3] == '0' && hex_of(
        text[4],
    ) is Some && hex_of(text[5]) is Some {
        match read_string(text.skip(6)) {
            Some(rest) => Some(
                seq![(16 * hex_of(text[4])->0 + hex_of(text[5])->0) as char] + rest,
            ),
            None => None,
        }
    } else {
        None
    }
}

/// The character that a letter behind a backslash stands for.
pub open spec fn escape_of(c: char) -> Option<char> {
    if c == '"' || c == '\\' || c == '/' {
        Some(c)
    } else if c == 'b' {
        Some(8 as char)
    } else if c == 't' {
        Some(9 as char)
    } else if c == 'n' {
        Some(10 as char)
    } else if c == 'f' {
        Some(12 as char)
    } else if c == 'r' {
        Some(13 as char)
    } else {
        None
    }
}

/// The value of a hexadecimal digit.
pub open spec fn hex_of(c: char) -> Option<int> {
    if '0' <= c <= '9' {
        Some(c as int - '0' as int)
    } else if 'a' <= c <= 'f' {
        Some(c as int - 'a' as int + 10)
    } else {
        None
    }
}

proof fn lemma_chars_front(c: char, s: Seq<char>)
    ensures
        crate::json::json_chars(seq![c] + s) == crate::json::json_char(c) + crate::json::json_chars(
            s,
        ),
    decreases s.len(),
{
    let t = seq![c] + s;
    if s.len() == 0 {
        assert(t.drop_last() =~= Seq::empty());
        assert(crate::json::json_chars(t.drop_last()) =~= Seq::empty());
        assert(crate::json::json_chars(t) =~= crate::json::json_char(c) + crate::json::json_chars(s));
    } else {
        lemma_chars_front(c, s.drop_last());
        assert(t.drop_last() =~= seq![c] + s.drop_last());
        assert(t.last() == s.last());
        assert(crate::json::json_chars(t) =~= crate::json::json_char(c) + crate::json::json_chars(s));
    }
}

proof fn lemma_char_reads(c: char, tail: Seq<char>)
    requires
        read_string(tail) is Some,
    ensures
        read_string(crate::json::json_char(c) + tail) == Some(seq![c] + read_string(tail)->0),
{
    let t = crate::json::json_char(c) + tail;
    let n = crate::json::json_char(c).len() as int;
    assert(t.skip(n) =~= tail);
    assert(t[0] == crate::json::json_char(c)[0]);
    if n >= 2 {
        assert(t[1] == crate::json::json_char(c)[1]);
    }
    if n == 6 {
        assert(t[2] == '0' && t[3] == '0');
        assert(t[4] == crate::json::json_char(c)[4]);
        assert(t[5] == crate::json::json_char(c)[5]);
        let hi = (c as u32 / 16) as nat;
        let lo = (c as u32 % 16) as nat;
        assert(hex_of(t[4]) == Some(hi as int));
        assert(hex_of(t[5]) == Some(lo as int));
        assert(16 * hi + lo == c as u32);
    }
}

/// The text of a string, between its quotes, reads back as that string, whatever
/// characters are in it.
pub proof fn lemma_string_reads_back(s: Seq<char>)
    ensures
        crate::json::json_string(s) == seq!['"'] + crate::json::json_chars(s) + seq!['"'],
        read_string(crate::json::json_chars(s)) == Some(s),
    decreases s.len(),
{
    if s.len() > 0 {
        let rest = s.skip(1);
        assert(s =~= seq![s[0]] + rest);
        lemma_chars_front(s[0], rest);
        lemma_string_reads_back(rest);
        lemma_char_reads(s[0], crate::json::json_chars(rest));
    } else {
        assert(s =~= seq![]);
    }
}

/// The first `k` pieces, one after the other.
spec fn joined(p: Seq<Seq<char>>, k: nat) -> Seq<char>
    decreases k,
{
    if k == 0 {
        seq![]
    } else {
        joined(p, (k - 1) as nat) + p[k - 1]
    }
}

/// The pieces from `k` on, one after the other.
spec fn joined_from(p: Seq<Seq<char>>, k: nat) -> Seq<char>
    decreases p.len() - k,
{
    if k >= p.len() {
        seq![]
    } else {
        p[k as int] + joined_from(p, k + 1)
    }
}

proof fn lemma_parted(p: Seq<Seq<char>>, k: nat)
    requires
        k <= p.len(),
    ensures
        joined(p, p.len()) == joined(p, k) + joined_from(p, k),
    decreases p.len() - k,
{
    if k < p.len() {
        lemma_parted(p, k + 1);
        assert(joined(p, k) + p[k as int] + joined_from(p, k + 1) =~= joined(p, k) + (p[k as int]
            + joined_from(p, k + 1)));
    } else {
        assert(joined(p, k) + joined_from(p, k) =~= joined(p, k));
    }
}

/// What follows is the next member or the end of the object.
spec fn goes_on(s: Seq<char>) -> bool {
    s.len() > 0 && (s[0] == ',' || s[0] == '}')
}

/// A member whose name ends one piece, whose value is the next one.
proof fn lemma_member(p: Seq<Seq<char>>, i: nat, sep: Seq<char>, name: Seq<char>)
    requires
        i + 2 < p.len(),
        p[i as int] == sep + quoted(name),
        goes_on(p[i as int + 2]) || (p[i as int + 2].len() == 0 && i + 3 < p.len() && goes_on(p[i as int + 3])),
    ensures
        has_member(joined(p, p.len()), name, p[i as int + 1]),
{
    lemma_parted(p, i);
    let a = joined(p, i);
    let b = joined_from(p, i + 2);
    assert(b == p[i as int + 2] + joined_from(p, i + 3));
    if p[i as int + 2].len() == 0 {
        assert(joined_from(p, i + 3) == p[i as int + 3] + joined_from(p, i + 4));
        assert(b =~= joined_from(p, i + 3));
    }
    assert(joined_from(p, i) == p[i as int] + joined_from(p, i + 1));
    assert(joined_from(p, i + 1) == p[i as int + 1] + b);
    assert(joined(p, p.len()) =~= (a + sep) + quoted(name) + p[i as int + 1] + b);
    assert(member_between(joined(p, p.len()), a + sep, name, p[i as int + 1], b));
}

/// A member that stands in one piece.
proof fn lemma_member_within(
    p: Seq<Seq<char>>,
    i: nat,
    sep: Seq<char>,
    name: Seq<char>,
    value: Seq<char>,
    end: Seq<char>,
)
    requires
        i + 1 < p.len(),
        p[i as int] == sep + quoted(name) + value + end,
        goes_on(end) || (end.len() == 0 && goes_on(p[i as int + 1])),
    ensures
        has_member(joined(p, p.len()), name, value),
{
    lemma_parted(p, i);
    let a = joined(p, i);
    let c = joined_from(p, i + 1);
    assert(c == p[i as int + 1] + joined_from(p, i + 2));
    let b = end + c;
    assert(joined_from(p, i) == p[i as int] + c);
    assert(joined(p, p.len()) =~= (a + sep) + quoted(name) + value + b);
    assert(member_between(joined(p, p.len()), a + sep, name, value, b));
}

/// A member whose value is one piece between quotes that the pieces round it hold.
proof fn lemma_member_quoted(
    p: Seq<Seq<char>>,
    i: nat,
    sep: Seq<char>,
    name: Seq<char>,
    end: Seq<char>,
)
    requires
        i + 2 < p.len(),
        p[i as int] == sep + quoted(name) + seq!['"'],
        p[i as int + 2] == seq!['"'] + end,
        goes_on(end),
    ensures
        has_member(joined(p, p.len()), name, seq!['"'] + p[i as int + 1] + seq!['"']),
{
    lemma_parted(p, i);
    let a = joined(p, i);
    let value = seq!['"'] + p[i as int + 1] + seq!['"'];
    let b = end + joined_from(p, i + 3);
    assert(joined_from(p, i) == p[i as int] + joined_from(p, i + 1));
    assert(joined_from(p, i + 1) == p[i as int + 1] + joined_from(p, i + 2));
    assert(joined_from(p, i + 2) == p[i as int + 2] + joined_from(p, i + 3));
    assert(joined(p, p.len()) =~= (a + sep) + quoted(name) + value + b);
    assert(member_between(joined(p, p.len()), a + sep, name, value, b));
}

spec fn row_pieces(r: RowView) -> Seq<Seq<char>> {
    seq![
        "{\"id\":"@,
        crate::text::decimal(r.id as int),
        ",\"parent_id\":"@,
        crate::json::number_or_null(r.parent_id),
        ",\"kind\":\""@,
        crate::json::kind_name(r.kind),
        "\",\"title\":"@,
        crate::json::json_string(r.title),
        ",\"url\":"@,
        crate::json::text_or_null(r.url),
        ",\"position\":"@,
        crate::text::decimal(r.position as int),
        ",\"created\":"@,
        crate::text::decimal(r.created as int),
        ",\"modified\":"@,
        crate::text::decimal(r.modified as int),
        "}"@,
    ]
}

#[verifier::spinoff_prover]
#[verifier::rlimit(60)]
proof fn lemma_row_pieces(r: RowView)
    ensures
        joined(row_pieces(r), 17) == crate::json::row_json(r),
        row_pieces(r).len() == 17,
{
    let p = row_pieces(r);
    reveal_with_fuel(joined, 18);
    assert(joined(p, 1) =~= p[0]);
}

spec fn node_pieces(n: Node) -> Seq<Seq<char>> {
    seq![
        "{"@,
        crate::json::children_member(n.children@),
        "\"created\":"@,
        crate::text::decimal(n.created as int),
        ",\"id\":"@,
        crate::text::decimal(n.id as int),
        ",\"kind\":\""@,
        crate::json::kind_name(n.kind),
        "\",\"modified\":"@,
        crate::text::decimal(n.modified as int),
        crate::json::number_member(",\"parent_id\":"@, n.parent_id),
        ",\"position\":"@,
        crate::text::decimal(n.position as int),
        ",\"title\":"@,
        crate::json::json_string(n.title@),
        crate::json::text_member(",\"url\":"@, crate::node::opt_text(n.url)),
        "}"@,
    ]
}

#[verifier::spinoff_prover]
#[verifier::rlimit(60)]
proof fn lemma_node_pieces(n: Node)
    ensures
        joined(node_pieces(n), 17) == crate::json::node_json(n),
        node_pieces(n).len() == 17,
{
    let p = node_pieces(n);
    reveal_with_fuel(joined, 18);
    assert(joined(p, 1) =~= p[0]);
}

/// A row of the vault's plaintext tells every column under its own name; what a row does
/// not have is null.
#[verifier::spinoff_prover]
#[verifier::rlimit(60)]
pub proof fn lemma_row_tells_all(r: RowView)
    ensures
        has_member(crate::json::row_json(r), "id"@, crate::text::decimal(r.id as int)),
        has_member(
            crate::json::row_json(r),
            "parent_id"@,
            match r.parent_id {
                Some(p) => crate::text::decimal(p as int),
                None => "null"@,
            },
        ),
        has_member(
            crate::json::row_json(r),
            "kind"@,
            seq!['"'] + (match r.kind {
                NodeKind::Folder => "folder"@,
                NodeKind::Bookmark => "bookmark"@,
            }) + seq!['"'],
        ),
        has_member(crate::json::row_json(r), "title"@, crate::json::json_string(r.title)),
        has_member(
            crate::json::row_json(r),
            "url"@,
            match r.url {
                Some(u) => crate::json::json_string(u),
                None => "null"@,
            },
        ),
        has_member(crate::json::row_json(r), "position"@, crate::text::decimal(r.position as int)),
        has_member(crate::json::row_json(r), "created"@, crate::text::decimal(r.created as int)),
        has_member(crate::json::row_json(r), "modified"@, crate::text::decimal(r.modified as int)),
{
    let p = row_pieces(r);
    lemma_row_pieces(r);
    lemma_row_names();
    lemma_member(p, 0, "{"@, "id"@);
    lemma_member(p, 2, ","@, "parent_id"@);
    lemma_member_quoted(p, 4, ","@, "kind"@, ",\"title\":"@);
    lemma_member(p, 6, "\","@, "title"@);
    lemma_member(p, 8, ","@, "url"@);
    lemma_member(p, 10, ","@, "position"@);
    lemma_member(p, 12, ","@, "created"@);
    lemma_member(p, 14, ","@, "modified"@);
}

proof fn lemma_row_names()
    ensures
        "{\"id\":"@ == "{"@ + quoted("id"@),
        ",\"parent_id\":"@ == ","@ + quoted("parent_id"@),
        ",\"kind\":\""@ == ","@ + quoted("kind"@) + seq!['"'],
        "\",\"title\":"@ == "\","@ + quoted("title"@),
        "\",\"title\":"@ == seq!['"'] + ",\"title\":"@,
        ",\"url\":"@ == ","@ + quoted("url"@),
        ",\"position\":"@ == ","@ + quoted("position"@),
        ",\"created\":"@ == ","@ + quoted("created"@),
        ",\"modified\":"@ == ","@ + quoted("modified"@),
        goes_on(",\"parent_id\":"@),
        goes_on(",\"kind\":\""@),
        goes_on(",\"title\":"@),
        goes_on(",\"url\":"@),
        goes_on(",\"position\":"@),
        goes_on(",\"created\":"@),
        goes_on(",\"modified\":"@),
        goes_on("}"@),
{
    reveal_strlit("{\"id\":");
    reveal_strlit(",\"parent_id\":");
    reveal_strlit(",\"kind\":\"");
    reveal_strlit("\",\"title\":");
    reveal_strlit(",\"title\":");
    reveal_strlit(",\"url\":");
    reveal_strlit(",\"position\":");
    reveal_strlit(",\"created\":");
    reveal_strlit(",\"modified\":");
    reveal_strlit("}");
    reveal_strlit("{");
    reveal_strlit(",");
    reveal_strlit("\",");
    reveal_strlit("id");
    reveal_strlit("parent_id");
    reveal_strlit("kind");
    reveal_strlit("title");
    reveal_strlit("url");
    reveal_strlit("position");
    reveal_strlit("created");
    reveal_strlit("modified");
}

/// A node of a reply tells each of its fields under the field's own name: a parent, a URL
/// and children only where it has them.
pub proof fn lemma_node_tells_all(n: Node)
    ensures
        has_member(crate::json::node_json(n), "id"@, crate::text::decimal(n.id as int)),
        n.parent_id matches Some(p) ==> has_member(
            crate::json::node_json(n),
            "parent_id"@,
            crate::text::decimal(p as int),
        ),
        has_member(
            crate::json::node_json(n),
            "kind"@,
            seq!['"'] + (match n.kind {
                NodeKind::Folder => "folder"@,
                NodeKind::Bookmark => "bookmark"@,
            }) + seq!['"'],
        ),
        has_member(crate::json::node_json(n), "title"@, crate::json::json_string(n.title@)),
        n.url matches Some(u) ==> has_member(
            crate::json::node_json(n),
            "url"@,
            crate::json::json_string(u@),
        ),
        has_member(crate::json::node_json(n), "position"@, crate::text::decimal(n.position as int)),
        has_member(crate::json::node_json(n), "created"@, crate::text::decimal(n.created as int)),
        has_member(crate::json::node_json(n), "modified"@, crate::text::decimal(n.modified as int)),
        n.children@.len() > 0 ==> has_member(
            crate::json::node_json(n),
            "children"@,
            seq!['['] + crate::json::nodes_json(n.children@, n.children@.len()) + seq![']'],
        ),
{
    lemma_node_always(n);
    if n.parent_id is Some {
        lemma_node_parent(n);
    }
    if n.url is Some {
        lemma_node_url(n);
    }
    if n.children@.len() > 0 {
        lemma_node_children(n);
    }
}

#[verifier::spinoff_prover]
#[verifier::rlimit(60)]
proof fn lemma_node_always(n: Node)
    ensures
        has_member(crate::json::node_json(n), "id"@, crate::text::decimal(n.id as int)),
        has_member(
            crate::json::node_json(n),
            "kind"@,
            seq!['"'] + crate::json::kind_name(n.kind) + seq!['"'],
        ),
        has_member(crate::json::node_json(n), "title"@, crate::json::json_string(n.title@)),
        has_member(crate::json::node_json(n), "position"@, crate::text::decimal(n.position as int)),
        has_member(crate::json::node_json(n), "created"@, crate::text::decimal(n.created as int)),
        has_member(crate::json::node_json(n), "modified"@, crate::text::decimal(n.modified as int)),
{
    let p = node_pieces(n);
    lemma_node_pieces(n);
    lemma_node_names();
    lemma_node_next(n);
    lemma_member(p, 2, Seq::<char>::empty(), "created"@);
    lemma_member(p, 4, ","@, "id"@);
    lemma_member_quoted(p, 6, ","@, "kind"@, ",\"modified\":"@);
    lemma_member(p, 8, "\","@, "modified"@);
    lemma_member(p, 11, ","@, "position"@);
    lemma_member(p, 13, ","@, "title"@);
}

/// A member that may be left out begins as every other does.
proof fn lemma_node_next(n: Node)
    ensures
        ({
            let p = node_pieces(n);
            &&& p[10].len() == 0 || goes_on(p[10])
            &&& p[15].len() == 0 || goes_on(p[15])
        }),
{
    lemma_node_names();
}

proof fn lemma_node_parent(n: Node)
    requires
        n.parent_id is Some,
    ensures
        has_member(
            crate::json::node_json(n),
            "parent_id"@,
            crate::text::decimal(n.parent_id->0 as int),
        ),
{
    let p = node_pieces(n);
    lemma_node_pieces(n);
    lemma_node_names();
    let none = Seq::<char>::empty();
    let v = crate::text::decimal(n.parent_id->0 as int);
    assert(p[10] =~= ","@ + quoted("parent_id"@) + v + none);
    lemma_member_within(p, 10, ","@, "parent_id"@, v, none);
}

proof fn lemma_node_url(n: Node)
    requires
        n.url is Some,
    ensures
        has_member(crate::json::node_json(n), "url"@, crate::json::json_string(n.url->0@)),
{
    let p = node_pieces(n);
    lemma_node_pieces(n);
    lemma_node_names();
    let none = Seq::<char>::empty();
    let v = crate::json::json_string(n.url->0@);
    assert(p[15] =~= ","@ + quoted("url"@) + v + none);
    lemma_member_within(p, 15, ","@, "url"@, v, none);
}

proof fn lemma_node_children(n: Node)
    requires
        n.children@.len() > 0,
    ensures
        has_member(
            crate::json::node_json(n),
            "children"@,
            seq!['['] + crate::json::nodes_json(n.children@, n.children@.len()) + seq![']'],
        ),
{
    let p = node_pieces(n);
    lemma_node_pieces(n);
    lemma_node_names();
    let none = Seq::<char>::empty();
    let v = seq!['['] + crate::json::nodes_json(n.children@, n.children@.len()) + seq![']'];
    assert(p[1] =~= none + quoted("children"@) + v + ","@);
    lemma_member_within(p, 1, none, "children"@, v, ","@);
}

/// The text holds this run of characters.
pub open spec fn has_run(text: Seq<char>, run: Seq<char>) -> bool {
    exists|a: Seq<char>, b: Seq<char>| text == #[trigger] (a + run + b)
}

/// What a node does not have is left out of its text: without a parent the position follows
/// the time of the last change, without a URL the text ends with the title, and without
/// children it begins with the time of creation.
pub proof fn lemma_node_leaves_out(n: Node)
    ensures
        n.parent_id is None ==> has_run(
            crate::json::node_json(n),
            quoted("modified"@) + crate::text::decimal(n.modified as int) + (","@ + quoted(
                "position"@,
            )),
        ),
        n.url is None ==> has_run(
            crate::json::node_json(n),
            quoted("title"@) + crate::json::json_string(n.title@) + "}"@,
        ),
        n.children@.len() == 0 ==> has_run(
            crate::json::node_json(n),
            "{"@ + quoted("created"@),
        ),
{
    if n.parent_id is None {
        lemma_no_parent(n);
    }
    if n.url is None {
        lemma_no_url(n);
        assert("}"@ + Seq::<char>::empty() =~= "}"@);
    }
    if n.children@.len() == 0 {
        lemma_no_children(n);
    }
}

/// Two pieces with an empty one between them are a run.
proof fn lemma_run(
    p: Seq<Seq<char>>,
    i: nat,
    sep: Seq<char>,
    head: Seq<char>,
    next: Seq<char>,
    end: Seq<char>,
)
    requires
        i + 3 < p.len(),
        p[i as int] == sep + head,
        p[i as int + 2].len() == 0,
        p[i as int + 3] == next + end,
    ensures
        has_run(joined(p, p.len()), head + p[i as int + 1] + (next + end)),
{
    lemma_parted(p, i);
    let a = joined(p, i);
    let b = joined_from(p, i + 4);
    let y = p[i as int + 1];
    assert(joined_from(p, i) == p[i as int] + joined_from(p, i + 1));
    assert(joined_from(p, i + 1) == y + joined_from(p, i + 2));
    assert(joined_from(p, i + 2) == p[i as int + 2] + joined_from(p, i + 3));
    assert(joined_from(p, i + 3) == p[i as int + 3] + b);
    assert(joined_from(p, i + 2) =~= joined_from(p, i + 3));
    assert(a + (sep + head + (y + (next + end + b))) =~= a + sep + (head + y + (next + end)) + b);
}

proof fn lemma_no_parent(n: Node)
    requires
        n.parent_id is None,
    ensures
        has_run(
            crate::json::node_json(n),
            quoted("modified"@) + crate::text::decimal(n.modified as int) + (","@ + quoted(
                "position"@,
            )),
        ),
{
    lemma_node_pieces(n);
    lemma_node_names();
    lemma_run(node_pieces(n), 8, "\","@, quoted("modified"@), ","@, quoted("position"@));
}

proof fn lemma_no_url(n: Node)
    requires
        n.url is None,
    ensures
        has_run(
            crate::json::node_json(n),
            quoted("title"@) + crate::json::json_string(n.title@) + ("}"@ + Seq::<char>::empty()),
        ),
{
    lemma_node_pieces(n);
    lemma_node_names();
    let none = Seq::<char>::empty();
    assert("}"@ + none =~= "}"@);
    lemma_run(node_pieces(n), 13, ","@, quoted("title"@), "}"@, none);
}

proof fn lemma_no_children(n: Node)
    requires
        n.children@.len() == 0,
    ensures
        has_run(crate::json::node_json(n), "{"@ + quoted("created"@)),
{
    let p = node_pieces(n);
    lemma_node_pieces(n);
    lemma_node_names();
    lemma_parted(p, 0);
    reveal_with_fuel(joined_from, 4);
    let run = "{"@ + quoted("created"@);
    let a = joined(p, 0);
    let b = joined_from(p, 3);
    assert(p[1].len() == 0);
    assert(joined_from(p, 0) == p[0] + (p[1] + (p[2] + b)));
    assert(crate::json::node_json(n) =~= a + run + b);
}

proof fn lemma_node_names()
    ensures
        "\"children\":["@ == quoted("children"@) + seq!['['],
        "],"@ == seq![']'] + ","@,
        "\"created\":"@ == Seq::<char>::empty() + quoted("created"@),
        ",\"id\":"@ == ","@ + quoted("id"@),
        ",\"kind\":\""@ == ","@ + quoted("kind"@) + seq!['"'],
        "\",\"modified\":"@ == "\","@ + quoted("modified"@),
        "\",\"modified\":"@ == seq!['"'] + ",\"modified\":"@,
        ",\"parent_id\":"@ == ","@ + quoted("parent_id"@),
        ",\"position\":"@ == ","@ + quoted("position"@),
        ",\"title\":"@ == ","@ + quoted("title"@),
        ",\"url\":"@ == ","@ + quoted("url"@),
        goes_on(","@),
        goes_on(",\"id\":"@),
        goes_on(",\"kind\":\""@),
        goes_on(",\"modified\":"@),
        goes_on(",\"parent_id\":"@),
        goes_on(",\"position\":"@),
        goes_on(",\"title\":"@),
        goes_on(",\"url\":"@),
        goes_on("}"@),
        ",\"parent_id\":"@[0] == ',',
        ",\"url\":"@[0] == ',',
{
    reveal_strlit("\"children\":[");
    reveal_strlit("],");
    reveal_strlit("\"created\":");
    reveal_strlit(",\"id\":");
    reveal_strlit(",\"kind\":\"");
    reveal_strlit("\",\"modified\":");
    reveal_strlit(",\"modified\":");
    reveal_strlit(",\"parent_id\":");
    reveal_strlit(",\"position\":");
    reveal_strlit(",\"title\":");
    reveal_strlit(",\"url\":");
    reveal_strlit(",");
    reveal_strlit("}");
    reveal_strlit("\",");
    reveal_strlit("children");
    reveal_strlit("created");
    reveal_strlit("id");
    reveal_strlit("kind");
    reveal_strlit("modified");
    reveal_strlit("parent_id");
    reveal_strlit("position");
    reveal_strlit("title");
    reveal_strlit("url");
}

proof fn lemma_root_members(r: Reply)
    requires
        r is Root,
    ensures
        has_member(crate::serve::reply_json(r), "ok"@, "true"@),
        has_member(crate::serve::reply_json(r), "root"@, crate::json::node_json(r->Root_0)),
{
    reveal_strlit("{\"ok\":");
    reveal_strlit("true");
    reveal_strlit(",\"root\":");
    reveal_strlit("}");
    reveal_strlit("{\"ok\":true,\"root\":");
    reveal_strlit("{");
    reveal_strlit(",");
    reveal_strlit("ok");
    reveal_strlit("root");
    let p = seq![
        "{\"ok\":"@,
        "true"@,
        ",\"root\":"@,
        crate::json::node_json(r->Root_0),
        "}"@,
    ];
    reveal_with_fuel(joined, 6);
    assert(joined(p, 1) =~= p[0]);
    assert(joined(p, 5) =~= crate::serve::reply_json(r));
    assert(p[0] =~= "{"@ + quoted("ok"@));
    lemma_member(p, 0, "{"@, "ok"@);
    assert(p[2] =~= ","@ + quoted("root"@));
    lemma_member(p, 2, ","@, "root"@);
}

proof fn lemma_bookmarks_members(r: Reply)
    requires
        r is Bookmarks,
    ensures
        has_member(crate::serve::reply_json(r), "bookmarks"@, crate::serve::list_json(r->Bookmarks_0@)),
        has_member(crate::serve::reply_json(r), "ok"@, "true"@),
{
    reveal_strlit("{\"bookmarks\":");
    reveal_strlit(",\"ok\":");
    reveal_strlit("true");
    reveal_strlit("}");
    reveal_strlit(",\"ok\":true}");
    reveal_strlit("{");
    reveal_strlit(",");
    reveal_strlit("bookmarks");
    reveal_strlit("ok");
    let p = seq![
        "{\"bookmarks\":"@,
        crate::serve::list_json(r->Bookmarks_0@),
        ",\"ok\":"@,
        "true"@,
        "}"@,
    ];
    reveal_with_fuel(joined, 6);
    assert(joined(p, 1) =~= p[0]);
    assert(joined(p, 5) =~= crate::serve::reply_json(r));
    assert(p[0] =~= "{"@ + quoted("bookmarks"@));
    lemma_member(p, 0, "{"@, "bookmarks"@);
    assert(p[2] =~= ","@ + quoted("ok"@));
    lemma_member(p, 2, ","@, "ok"@);
}

proof fn lemma_id_members(r: Reply)
    requires
        r is Id,
    ensures
        has_member(crate::serve::reply_json(r), "id"@, crate::text::decimal(r->Id_0 as int)),
        has_member(crate::serve::reply_json(r), "ok"@, "true"@),
{
    reveal_strlit("{\"id\":");
    reveal_strlit(",\"ok\":");
    reveal_strlit("true");
    reveal_strlit("}");
    reveal_strlit(",\"ok\":true}");
    reveal_strlit("{");
    reveal_strlit(",");
    reveal_strlit("id");
    reveal_strlit("ok");
    let p = seq![
        "{\"id\":"@,
        crate::text::decimal(r->Id_0 as int),
        ",\"ok\":"@,
        "true"@,
        "}"@,
    ];
    reveal_with_fuel(joined, 6);
    assert(joined(p, 1) =~= p[0]);
    assert(joined(p, 5) =~= crate::serve::reply_json(r));
    assert(p[0] =~= "{"@ + quoted("id"@));
    lemma_member(p, 0, "{"@, "id"@);
    assert(p[2] =~= ","@ + quoted("ok"@));
    lemma_member(p, 2, ","@, "ok"@);
}

proof fn lemma_done_members(r: Reply)
    requires
        r is Done,
    ensures
        has_member(crate::serve::reply_json(r), "ok"@, "true"@),
{
    reveal_strlit("{\"ok\":");
    reveal_strlit("true");
    reveal_strlit("}");
    reveal_strlit("{\"ok\":true}");
    reveal_strlit("{");
    reveal_strlit(",");
    reveal_strlit("ok");
    let p = seq![
        "{\"ok\":"@,
        "true"@,
        "}"@,
    ];
    reveal_with_fuel(joined, 4);
    assert(joined(p, 1) =~= p[0]);
    assert(joined(p, 3) =~= crate::serve::reply_json(r));
    assert(p[0] =~= "{"@ + quoted("ok"@));
    lemma_member(p, 0, "{"@, "ok"@);
}

proof fn lemma_deleted_members(r: Reply)
    requires
        r is Deleted,
    ensures
        has_member(crate::serve::reply_json(r), "deleted"@, crate::text::decimal(r->Deleted_0 as int)),
        has_member(crate::serve::reply_json(r), "ok"@, "true"@),
{
    reveal_strlit("{\"deleted\":");
    reveal_strlit(",\"ok\":");
    reveal_strlit("true");
    reveal_strlit("}");
    reveal_strlit(",\"ok\":true}");
    reveal_strlit("{");
    reveal_strlit(",");
    reveal_strlit("deleted");
    reveal_strlit("ok");
    let p = seq![
        "{\"deleted\":"@,
        crate::text::decimal(r->Deleted_0 as int),
        ",\"ok\":"@,
        "true"@,
        "}"@,
    ];
    reveal_with_fuel(joined, 6);
    assert(joined(p, 1) =~= p[0]);
    assert(joined(p, 5) =~= crate::serve::reply_json(r));
    assert(p[0] =~= "{"@ + quoted("deleted"@));
    lemma_member(p, 0, "{"@, "deleted"@);
    assert(p[2] =~= ","@ + quoted("ok"@));
    lemma_member(p, 2, ","@, "ok"@);
}

proof fn lemma_page_members(r: Reply)
    requires
        r is Page,
    ensures
        has_member(crate::serve::reply_json(r), "children"@, crate::serve::list_json(r->Page_0@)),
        has_member(crate::serve::reply_json(r), "ok"@, "true"@),
        has_member(crate::serve::reply_json(r), "total"@, crate::text::decimal(r->Page_1 as int)),
{
    reveal_strlit("{\"children\":");
    reveal_strlit(",\"ok\":");
    reveal_strlit("true");
    reveal_strlit(",\"total\":");
    reveal_strlit("}");
    reveal_strlit(",\"ok\":true,\"total\":");
    reveal_strlit("{");
    reveal_strlit(",");
    reveal_strlit("children");
    reveal_strlit("ok");
    reveal_strlit("total");
    let p = seq![
        "{\"children\":"@,
        crate::serve::list_json(r->Page_0@),
        ",\"ok\":"@,
        "true"@,
        ",\"total\":"@,
        crate::text::decimal(r->Page_1 as int),
        "}"@,
    ];
    reveal_with_fuel(joined, 8);
    assert(joined(p, 1) =~= p[0]);
    assert(joined(p, 7) =~= crate::serve::reply_json(r));
    assert(p[0] =~= "{"@ + quoted("children"@));
    lemma_member(p, 0, "{"@, "children"@);
    assert(p[2] =~= ","@ + quoted("ok"@));
    lemma_member(p, 2, ","@, "ok"@);
    assert(p[4] =~= ","@ + quoted("total"@));
    lemma_member(p, 4, ","@, "total"@);
}

proof fn lemma_results_members(r: Reply)
    requires
        r is Results,
    ensures
        has_member(crate::serve::reply_json(r), "ok"@, "true"@),
        has_member(crate::serve::reply_json(r), "results"@, crate::serve::list_json(r->Results_0@)),
{
    reveal_strlit("{\"ok\":");
    reveal_strlit("true");
    reveal_strlit(",\"results\":");
    reveal_strlit("}");
    reveal_strlit("{\"ok\":true,\"results\":");
    reveal_strlit("{");
    reveal_strlit(",");
    reveal_strlit("ok");
    reveal_strlit("results");
    let p = seq![
        "{\"ok\":"@,
        "true"@,
        ",\"results\":"@,
        crate::serve::list_json(r->Results_0@),
        "}"@,
    ];
    reveal_with_fuel(joined, 6);
    assert(joined(p, 1) =~= p[0]);
    assert(joined(p, 5) =~= crate::serve::reply_json(r));
    assert(p[0] =~= "{"@ + quoted("ok"@));
    lemma_member(p, 0, "{"@, "ok"@);
    assert(p[2] =~= ","@ + quoted("results"@));
    lemma_member(p, 2, ","@, "results"@);
}

proof fn lemma_exists_members(r: Reply)
    requires
        r is Exists,
    ensures
        has_member(crate::serve::reply_json(r), "exists"@, crate::serve::bool_json(r->Exists_0)),
        has_member(crate::serve::reply_json(r), "ok"@, "true"@),
{
    reveal_strlit("{\"exists\":");
    reveal_strlit(",\"ok\":");
    reveal_strlit("true");
    reveal_strlit("}");
    reveal_strlit(",\"ok\":true}");
    reveal_strlit("{");
    reveal_strlit(",");
    reveal_strlit("exists");
    reveal_strlit("ok");
    let p = seq![
        "{\"exists\":"@,
        crate::serve::bool_json(r->Exists_0),
        ",\"ok\":"@,
        "true"@,
        "}"@,
    ];
    reveal_with_fuel(joined, 6);
    assert(joined(p, 1) =~= p[0]);
    assert(joined(p, 5) =~= crate::serve::reply_json(r));
    assert(p[0] =~= "{"@ + quoted("exists"@));
    lemma_member(p, 0, "{"@, "exists"@);
    assert(p[2] =~= ","@ + quoted("ok"@));
    lemma_member(p, 2, ","@, "ok"@);
}

proof fn lemma_key_members(r: Reply)
    requires
        r is Key,
    ensures
        has_member(crate::serve::reply_json(r), "key"@, crate::json::json_string(r->Key_0@)),
        has_member(crate::serve::reply_json(r), "ok"@, "true"@),
{
    reveal_strlit("{\"key\":");
    reveal_strlit(",\"ok\":");
    reveal_strlit("true");
    reveal_strlit("}");
    reveal_strlit(",\"ok\":true}");
    reveal_strlit("{");
    reveal_strlit(",");
    reveal_strlit("key");
    reveal_strlit("ok");
    let p = seq![
        "{\"key\":"@,
        crate::json::json_string(r->Key_0@),
        ",\"ok\":"@,
        "true"@,
        "}"@,
    ];
    reveal_with_fuel(joined, 6);
    assert(joined(p, 1) =~= p[0]);
    assert(joined(p, 5) =~= crate::serve::reply_json(r));
    assert(p[0] =~= "{"@ + quoted("key"@));
    lemma_member(p, 0, "{"@, "key"@);
    assert(p[2] =~= ","@ + quoted("ok"@));
    lemma_member(p, 2, ","@, "ok"@);
}

proof fn lemma_unlocked_page_members(r: Reply)
    requires
        r is UnlockedPage,
    ensures
        has_member(crate::serve::reply_json(r), "children"@, crate::serve::list_json(r->UnlockedPage_1@)),
        has_member(crate::serve::reply_json(r), "key"@, crate::json::json_string(r->UnlockedPage_0@)),
        has_member(crate::serve::reply_json(r), "ok"@, "true"@),
        has_member(crate::serve::reply_json(r), "total"@, crate::text::decimal(r->UnlockedPage_2 as int)),
{
    reveal_strlit("{\"children\":");
    reveal_strlit(",\"key\":");
    reveal_strlit(",\"ok\":");
    reveal_strlit("true");
    reveal_strlit(",\"total\":");
    reveal_strlit("}");
    reveal_strlit(",\"ok\":true,\"total\":");
    reveal_strlit("{");
    reveal_strlit(",");
    reveal_strlit("children");
    reveal_strlit("key");
    reveal_strlit("ok");
    reveal_strlit("total");
    let p = seq![
        "{\"children\":"@,
        crate::serve::list_json(r->UnlockedPage_1@),
        ",\"key\":"@,
        crate::json::json_string(r->UnlockedPage_0@),
        ",\"ok\":"@,
        "true"@,
        ",\"total\":"@,
        crate::text::decimal(r->UnlockedPage_2 as int),
        "}"@,
    ];
    reveal_with_fuel(joined, 10);
    assert(joined(p, 1) =~= p[0]);
    assert(joined(p, 9) =~= crate::serve::reply_json(r));
    assert(p[0] =~= "{"@ + quoted("children"@));
    lemma_member(p, 0, "{"@, "children"@);
    assert(p[2] =~= ","@ + quoted("key"@));
    lemma_member(p, 2, ","@, "key"@);
    assert(p[4] =~= ","@ + quoted("ok"@));
    lemma_member(p, 4, ","@, "ok"@);
    assert(p[6] =~= ","@ + quoted("total"@));
    lemma_member(p, 6, ","@, "total"@);
}

proof fn lemma_error_members(r: Reply)
    requires
        r is Error,
    ensures
        has_member(crate::serve::reply_json(r), "error"@, crate::json::json_string(r->Error_0@)),
        has_member(crate::serve::reply_json(r), "ok"@, "false"@),
{
    reveal_strlit("{\"error\":");
    reveal_strlit(",\"ok\":");
    reveal_strlit("false");
    reveal_strlit("}");
    reveal_strlit(",\"ok\":false}");
    reveal_strlit("{");
    reveal_strlit(",");
    reveal_strlit("error");
    reveal_strlit("ok");
    let p = seq![
        "{\"error\":"@,
        crate::json::json_string(r->Error_0@),
        ",\"ok\":"@,
        "false"@,
        "}"@,
    ];
    reveal_with_fuel(joined, 6);
    assert(joined(p, 1) =~= p[0]);
    assert(joined(p, 5) =~= crate::serve::reply_json(r));
    assert(p[0] =~= "{"@ + quoted("error"@));
    lemma_member(p, 0, "{"@, "error"@);
    assert(p[2] =~= ","@ + quoted("ok"@));
    lemma_member(p, 2, ","@, "ok"@);
}

/// A reply tells all that it holds, each thing under its own name, and says whether the
/// request was done: every reply but an error says so.
pub proof fn lemma_reply_tells_all(r: Reply)
    ensures
        has_member(
            crate::serve::reply_json(r),
            "ok"@,
            if r is Error {
                "false"@
            } else {
                "true"@
            },
        ),
        match r {
            Reply::Root(n) => has_member(
                crate::serve::reply_json(r),
                "root"@,
                crate::json::node_json(n),
            ),
            Reply::Bookmarks(v) => has_member(
                crate::serve::reply_json(r),
                "bookmarks"@,
                crate::serve::list_json(v@),
            ),
            Reply::Id(id) => has_member(
                crate::serve::reply_json(r),
                "id"@,
                crate::text::decimal(id as int),
            ),
            Reply::Done => true,
            Reply::Deleted(n) => has_member(
                crate::serve::reply_json(r),
                "deleted"@,
                crate::text::decimal(n as int),
            ),
            Reply::Page(v, total) => has_member(
                crate::serve::reply_json(r),
                "children"@,
                crate::serve::list_json(v@),
            ) && has_member(
                crate::serve::reply_json(r),
                "total"@,
                crate::text::decimal(total as int),
            ),
            Reply::Results(v) => has_member(
                crate::serve::reply_json(r),
                "results"@,
                crate::serve::list_json(v@),
            ),
            Reply::Exists(b) => has_member(
                crate::serve::reply_json(r),
                "exists"@,
                if b {
                    "true"@
                } else {
                    "false"@
                },
            ),
            Reply::Key(k) => has_member(
                crate::serve::reply_json(r),
                "key"@,
                crate::json::json_string(k@),
            ),
            Reply::UnlockedPage(k, v, total) => has_member(
                crate::serve::reply_json(r),
                "key"@,
                crate::json::json_string(k@),
            ) && has_member(
                crate::serve::reply_json(r),
                "children"@,
                crate::serve::list_json(v@),
            ) && has_member(
                crate::serve::reply_json(r),
                "total"@,
                crate::text::decimal(total as int),
            ),
            Reply::Error(m) => has_member(
                crate::serve::reply_json(r),
                "error"@,
                crate::json::json_string(m@),
            ),
        },
{
    match r {
        Reply::Root(_) => {
            lemma_root_members(r);
        },
        Reply::Bookmarks(_) => {
            lemma_bookmarks_members(r);
        },
        Reply::Id(_) => {
            lemma_id_members(r);
        },
        Reply::Done => {
            lemma_done_members(r);
        },
        Reply::Deleted(_) => {
            lemma_deleted_members(r);
        },
        Reply::Page(_, _) => {
            lemma_page_members(r);
        },
        Reply::Results(_) => {
            lemma_results_members(r);
        },
        Reply::Exists(_) => {
            lemma_exists_members(r);
        },
        Reply::Key(_) => {
            lemma_key_members(r);
        },
        Reply::UnlockedPage(_, _, _) => {
            lemma_unlocked_page_members(r);
        },
        Reply::Error(_) => {
            lemma_error_members(r);
        },
    }
}

/// A list is written as its nodes one after the other, with commas between them, in
/// brackets; the rows of a plaintext likewise, behind the version.
pub proof fn lemma_lists_tell_each(a: Seq<Node>, n: Node, rows: Seq<RowView>, row: RowView, v: u8)
    ensures
        crate::json::nodes_json(a.push(n), a.len() + 1) == if a.len() == 0 {
            crate::json::node_json(n)
        } else {
            crate::json::nodes_json(a, a.len()) + ","@ + crate::json::node_json(n)
        },
        crate::serve::list_json(a) == "["@ + crate::json::nodes_json(a, a.len()) + "]"@,
        crate::serve::list_json(seq![]) == "["@ + "]"@,
        crate::json::rows_json(rows.push(row), rows.len() + 1) == if rows.len() == 0 {
            crate::json::row_json(row)
        } else {
            crate::json::rows_json(rows, rows.len()) + ","@ + crate::json::row_json(row)
        },
        crate::json::plaintext_json(v, rows) == "{\"v\":"@ + crate::text::decimal(v as int)
            + ",\"nodes\":["@ + crate::json::rows_json(rows, rows.len()) + "]}"@,
{
    let b = a.push(n);
    lemma_nodes_same(b, a, a.len());
    assert(b[a.len() as int] == n);
    let q = rows.push(row);
    lemma_rows_same(q, rows, rows.len());
    assert(q[rows.len() as int] == row);
    let e: Seq<Node> = seq![];
    assert(crate::json::nodes_json(e, 0) =~= seq![]);
    assert("["@ + crate::json::nodes_json(e, 0) + "]"@ =~= "["@ + "]"@);
}

proof fn lemma_nodes_same(s: Seq<Node>, a: Seq<Node>, k: nat)
    requires
        k <= a.len() <= s.len(),
        forall|i: int| 0 <= i < a.len() ==> s[i] == a[i],
    ensures
        crate::json::nodes_json(s, k) == crate::json::nodes_json(a, k),
    decreases k,
{
    if k > 1 {
        lemma_nodes_same(s, a, (k - 1) as nat);
    }
}

proof fn lemma_rows_same(s: Seq<RowView>, a: Seq<RowView>, k: nat)
    requires
        k <= a.len() <= s.len(),
        forall|i: int| 0 <= i < a.len() ==> s[i] == a[i],
    ensures
        crate::json::rows_json(s, k) == crate::json::rows_json(a, k),
    decreases k,
{
    if k > 1 {
        lemma_rows_same(s, a, (k - 1) as nat);
    }
}

} // verus!
