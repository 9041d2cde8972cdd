//! JSON text of what the host stores and sends.

use vstd::prelude::*;
use crate::node::{Node, NodeKind, NodeRow, RowView};

verus! {

/// The error of `serde_json`.
#[verifier::external_type_specification]
#[verifier::external_body]
pub struct ExJsonError(serde_json::Error);

/// The character of one lower-case hexadecimal digit.
pub open spec fn hex_digit(d: nat) -> char
    recommends
        d < 16,
{
    if d < 10 {
        ('0' as u32 + d) as char
    } else {
        ('a' as u32 + (d - 10)) as char
    }
}

/// One character as it stands inside a JSON string.
pub open spec fn json_char(c: char) -> Seq<char> {
    if c == '"' {
        seq!['\\', '"']
    } else if c == '\\' {
        seq!['\\', '\\']
    } else if c as u32 == 0x08 {
        seq!['\\', 'b']
    } else if c as u32 == 0x09 {
        seq!['\\', 't']
    } else if c as u32 == 0x0a {
        seq!['\\', 'n']
    } else if c as u32 == 0x0c {
        seq!['\\', 'f']
    } else if c as u32 == 0x0d {
        seq!['\\', 'r']
    } else if (c as u32) < 0x20 {
        seq!['\\', 'u', '0', '0', hex_digit((c as u32 / 16) as nat), hex_digit((c as u32 % 16) as nat)]
    } else {
        seq![c]
    }
}

/// The characters of `s` as they stand inside a JSON string.
pub open spec fn json_chars(s: Seq<char>) -> Seq<char>
    decreases s.len(),
{
    if s.len() == 0 {
        seq![]
    } else {
        json_chars(s.drop_last()) + json_char(s.last())
    }
}

/// The JSON string that holds `s`.
pub open spec fn json_string(s: Seq<char>) -> Seq<char> {
    seq!['"'] + json_chars(s) + seq!['"']
}

/// `serde_json::to_string` of a string. The claim: it succeeds, and gives the
/// string between quotes, with the quote, the backslash and the control
/// characters below U+0020 escaped and every other character as it is.
#[verifier::external_body]
fn json_quote(s: &str) -> (r: Result<String, serde_json::Error>)
    ensures
        r is Ok,
        r->Ok_0@ == json_string(s@),
{
    serde_json::to_string(s)
}

/// Appends the JSON string that holds `s`.
pub fn push_string(out: &mut String, s: &str)
    ensures
        final(out)@ == old(out)@ + json_string(s@),
{
    let quoted = json_quote(s).unwrap();
    out.append(quoted.as_str());
}

/// The name of a kind.
pub open spec fn kind_name(k: NodeKind) -> Seq<char> {
    match k {
        NodeKind::Folder => "folder"@,
        NodeKind::Bookmark => "bookmark"@,
    }
}

/// The name of a kind, as it stands in the `kind` column and in JSON.
pub fn kind_text(k: NodeKind) -> (r: &'static str)
    ensures
        r@ == kind_name(k),
{
    match k {
        NodeKind::Folder => "folder",
        NodeKind::Bookmark => "bookmark",
    }
}

/// A member `name: value` with a text value, if there is one.
pub open spec fn text_member(name: Seq<char>, v: Option<Seq<char>>) -> Seq<char> {
    match v {
        Some(v) => name + json_string(v),
        None => seq![],
    }
}

/// A member `name: value` with a number, if there is one.
pub open spec fn number_member(name: Seq<char>, v: Option<i64>) -> Seq<char> {
    match v {
        Some(v) => name + crate::text::decimal(v as int),
        None => seq![],
    }
}

/// The JSON text of the first `k` nodes of a list, separated by commas.
pub open spec fn nodes_json(s: Seq<Node>, k: nat) -> Seq<char>
    decreases s, k,
    when k <= s.len()
{
    if k == 0 {
        seq![]
    } else if k == 1 {
        node_json(s[0])
    } else {
        nodes_json(s, (k - 1) as nat) + ","@ + node_json(s[k - 1])
    }
}

/// The members `children` of a node: absent if there are none.
pub open spec fn children_member(s: Seq<Node>) -> Seq<char>
    decreases s, s.len() + 1,
{
    if s.len() == 0 {
        seq![]
    } else {
        "\"children\":["@ + nodes_json(s, s.len()) + "],"@
    }
}

/// A node as JSON: its members in alphabetical order; `children`, `parent_id` and
/// `url` only where there is something to show.
pub open spec fn node_json(n: Node) -> Seq<char>
    decreases n, 0nat,
{
    "{"@ + children_member(n.children@) + "\"created\":"@ + crate::text::decimal(n.created as int)
        + ",\"id\":"@ + crate::text::decimal(n.id as int) + ",\"kind\":\""@ + kind_name(n.kind)
        + "\",\"modified\":"@ + crate::text::decimal(n.modified as int) + number_member(
        ",\"parent_id\":"@,
        n.parent_id,
    ) + ",\"position\":"@ + crate::text::decimal(n.position as int) + ",\"title\":"@ + json_string(
        n.title@,
    ) + text_member(",\"url\":"@, crate::node::opt_text(n.url)) + "}"@
}

/// Appends a list of nodes, separated by commas.
pub fn push_nodes(out: &mut String, nodes: &Vec<Node>)
    ensures
        final(out)@ == old(out)@ + nodes_json(nodes@, nodes@.len()),
    decreases nodes@, nodes@.len() + 1,
{
    let ghost start = out@;
    let mut i: usize = 0;
    while i < nodes.len()
        invariant
            i <= nodes@.len(),
            out@ == start + nodes_json(nodes@, i as nat),
        decreases nodes@.len() - i,
    {
        if i > 0 {
            out.append(",");
        }
        out.append(node_text(&nodes[i]).as_str());
        i = i + 1;
        assert(out@ =~= start + nodes_json(nodes@, i as nat));
    }
}

/// The member `children`.
fn children_text(nodes: &Vec<Node>) -> (r: String)
    ensures
        r@ == children_member(nodes@),
    decreases nodes@, nodes@.len() + 2,
{
    if nodes.len() == 0 {
        String::new()
    } else {
        let mut r = "\"children\":[".to_owned();
        push_nodes(&mut r, nodes);
        r.append("],");
        r
    }
}

/// A member with a text value.
pub fn text_member_of(name: &str, v: &Option<String>) -> (r: String)
    ensures
        r@ == text_member(name@, crate::node::opt_text(*v)),
{
    match v {
        Some(v) => {
            let mut r = name.to_owned();
            push_string(&mut r, v.as_str());
            r
        },
        None => String::new(),
    }
}

/// A member with a number.
pub fn number_member_of(name: &str, v: Option<i64>) -> (r: String)
    ensures
        r@ == number_member(name@, v),
{
    match v {
        Some(v) => {
            let mut r = name.to_owned();
            crate::text::push_decimal(&mut r, v);
            r
        },
        None => String::new(),
    }
}

/// The JSON text of a node.
pub fn node_text(n: &Node) -> (r: String)
    ensures
        r@ == node_json(*n),
    decreases *n, 0nat,
{
    let mut r = "{".to_owned();
    r.append(children_text(&n.children).as_str());
    r.append("\"created\":");
    crate::text::push_decimal(&mut r, n.created);
    r.append(",\"id\":");
    crate::text::push_decimal(&mut r, n.id);
    r.append(",\"kind\":\"");
    r.append(kind_text(n.kind));
    r.append("\",\"modified\":");
    crate::text::push_decimal(&mut r, n.modified);
    r.append(number_member_of(",\"parent_id\":", n.parent_id).as_str());
    r.append(",\"position\":");
    crate::text::push_decimal(&mut r, n.position);
    r.append(",\"title\":");
    push_string(&mut r, n.title.as_str());
    r.append(text_member_of(",\"url\":", &n.url).as_str());
    r.append("}");
    r
}

/// An optional text as a JSON value.
pub open spec fn text_or_null(v: Option<Seq<char>>) -> Seq<char> {
    match v {
        Some(v) => json_string(v),
        None => "null"@,
    }
}

/// An optional number as a JSON value.
pub open spec fn number_or_null(v: Option<i64>) -> Seq<char> {
    match v {
        Some(v) => crate::text::decimal(v as int),
        None => "null"@,
    }
}

/// A flat row as JSON, with every column in its place.
pub open spec fn row_json(r: RowView) -> Seq<char> {
    "{\"id\":"@ + crate::text::decimal(r.id as int) + ",\"parent_id\":"@ + number_or_null(r.parent_id)
        + ",\"kind\":\""@ + kind_name(r.kind) + "\",\"title\":"@ + json_string(r.title)
        + ",\"url\":"@ + text_or_null(r.url) + ",\"position\":"@ + crate::text::decimal(
        r.position as int,
    ) + ",\"created\":"@ + crate::text::decimal(r.created as int) + ",\"modified\":"@
        + crate::text::decimal(r.modified as int) + "}"@
}

/// The JSON text of the first `k` rows of a list, separated by commas.
pub open spec fn rows_json(s: Seq<RowView>, k: nat) -> Seq<char>
    decreases k,
{
    if k == 0 {
        seq![]
    } else if k == 1 {
        row_json(s[0])
    } else {
        rows_json(s, (k - 1) as nat) + ","@ + row_json(s[k - 1])
    }
}

/// The plaintext of a vault: a format version and its rows.
pub open spec fn plaintext_json(v: u8, s: Seq<RowView>) -> Seq<char> {
    "{\"v\":"@ + crate::text::decimal(v as int) + ",\"nodes\":["@ + rows_json(s, s.len()) + "]}"@
}

fn text_or_null_of(v: &Option<String>) -> (r: String)
    ensures
        r@ == text_or_null(crate::node::opt_text(*v)),
{
    match v {
        Some(v) => json_quote(v.as_str()).unwrap(),
        None => "null".to_owned(),
    }
}

fn number_or_null_of(v: Option<i64>) -> (r: String)
    ensures
        r@ == number_or_null(v),
{
    match v {
        Some(v) => {
            let mut r = String::new();
            crate::text::push_decimal(&mut r, v);
            assert(r@ =~= crate::text::decimal(v as int));
            r
        },
        None => "null".to_owned(),
    }
}

/// The JSON text of a flat row.
pub fn row_text(n: &NodeRow) -> (r: String)
    ensures
        r@ == row_json(n@),
{
    let mut r = "{\"id\":".to_owned();
    crate::text::push_decimal(&mut r, n.id);
    r.append(",\"parent_id\":");
    r.append(number_or_null_of(n.parent_id).as_str());
    r.append(",\"kind\":\"");
    r.append(kind_text(n.kind));
    r.append("\",\"title\":");
    push_string(&mut r, n.title.as_str());
    r.append(",\"url\":");
    r.append(text_or_null_of(&n.url).as_str());
    r.append(",\"position\":");
    crate::text::push_decimal(&mut r, n.position);
    r.append(",\"created\":");
    crate::text::push_decimal(&mut r, n.created);
    r.append(",\"modified\":");
    crate::text::push_decimal(&mut r, n.modified);
    r.append("}");
    r
}

fn rows_text(rows: &Vec<NodeRow>) -> (r: String)
    ensures
        r@ == rows_json(crate::load::row_views(rows@), rows@.len()),
{
    let ghost s = crate::load::row_views(rows@);
    let mut r = String::new();
    let mut i: usize = 0;
    assert(r@ =~= rows_json(s, 0));
    while i < rows.len()
        invariant
            s == crate::load::row_views(rows@),
            i <= rows@.len(),
            r@ == rows_json(s, i as nat),
        decreases rows@.len() - i,
    {
        let one = row_text(&rows[i]);
        assert(one@ == row_json(s[i as int]));
        if i == 0 {
            r = one;
        } else {
            r.append(",");
            r.append(one.as_str());
        }
        i = i + 1;
    }
    r
}

/// The plaintext of a vault with these rows.
pub fn plaintext_text(v: u8, rows: &Vec<NodeRow>) -> (r: String)
    ensures
        r@ == plaintext_json(v, crate::load::row_views(rows@)),
{
    let mut r = "{\"v\":".to_owned();
    crate::text::push_decimal(&mut r, v as i64);
    r.append(",\"nodes\":[");
    r.append(rows_text(rows).as_str());
    r.append("]}");
    r
}

} // verus!
