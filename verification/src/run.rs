//! Running a command: what it does to the store and the vault, and what it prints.

use vstd::prelude::*;
use crate::cli::{Command, CommandView};
use crate::error::{StoreError, StoreErrorView};
use crate::node::{Node, NodeKind};
use crate::store::Store;
use crate::table::Table;
use crate::vault::{SlotView, VaultErrorView, VaultPlaintext, VaultSlot};

verus! {

/// `s` without line breaks at its end.
pub open spec fn without_line_end(s: Seq<char>) -> Seq<char>
    decreases s.len(),
{
    if s.len() > 0 && (s.last() == '\n' || s.last() == '\r') {
        without_line_end(s.drop_last())
    } else {
        s
    }
}

/// What is made of the text on standard input: the phrase, or why there is none.
pub open spec fn phrase_read(input: Seq<char>, r: Result<Seq<char>, Seq<char>>) -> bool {
    match r {
        Ok(p) => p == without_line_end(input) && p.len() > 0,
        Err(e) => without_line_end(input).len() == 0 && e == "empty phrase on stdin"@,
    }
}

/// The phrase in what was read from standard input: without line breaks at its end.
pub fn phrase_of(input: &str) -> (r: Result<String, String>)
    ensures
        phrase_read(input@, printed(r)),
        match r {
            Ok(p) => p@ == without_line_end(input@) && p@.len() > 0,
            Err(e) => without_line_end(input@).len() == 0 && e@ == "empty phrase on stdin"@,
        },
{
    let v = crate::text::chars_of(input);
    let mut n: usize = v.len();
    assert(v@.take(n as int) =~= v@);
    while n > 0 && (v[n - 1] == '\n' || v[n - 1] == '\r')
        invariant
            n <= v@.len(),
            without_line_end(v@) == without_line_end(v@.take(n as int)),
        decreases n,
    {
        assert(v@.take(n as int).drop_last() =~= v@.take(n - 1));
        n = n - 1;
    }
    if n == 0 {
        return Err("empty phrase on stdin".to_owned());
    }
    assert(v@.subrange(0, n as int) =~= v@.take(n as int));
    Ok(crate::text::string_of(&v, 0, n))
}

/// Two spaces for each level.
pub open spec fn indent(depth: nat) -> Seq<char>
    decreases depth,
{
    if depth == 0 {
        seq![]
    } else {
        indent((depth - 1) as nat) + "  "@
    }
}

/// What a line begins with: the id and, in brackets, the position.
pub open spec fn line_head(n: Node) -> Seq<char> {
    crate::text::decimal(n.id as int) + " ["@ + crate::text::decimal(n.position as int) + "] "@
}

/// A node on a line of a tree: `<id> [pos] kind title (url)`, the last part where there is
/// a URL.
pub open spec fn node_line(n: Node) -> Seq<char> {
    let line = line_head(n) + crate::json::kind_name(n.kind) + " "@ + n.title@;
    match n.url {
        Some(u) => line + " ("@ + u@ + ")"@,
        None => line,
    }
}

/// A node on a line of a page: `<id> [pos] title/` for a folder, `<id> [pos] title -> url`
/// for a bookmark.
pub open spec fn flat_line(n: Node) -> Seq<char> {
    match n.kind {
        NodeKind::Folder => line_head(n) + n.title@ + "/"@,
        NodeKind::Bookmark => line_head(n) + n.title@ + " -> "@ + (match n.url {
            Some(u) => u@,
            None => seq![],
        }),
    }
}

/// A tree, one node to a line, children indented below their folder.
pub open spec fn tree_lines(n: Node, depth: nat) -> Seq<char>
    decreases n, 0nat,
{
    indent(depth) + node_line(n) + "\n"@ + list_lines(n.children@, depth + 1, n.children@.len())
}

/// The first `k` trees of a list.
pub open spec fn list_lines(s: Seq<Node>, depth: nat, k: nat) -> Seq<char>
    decreases s, k,
    when k <= s.len()
{
    if k == 0 {
        seq![]
    } else {
        list_lines(s, depth, (k - 1) as nat) + tree_lines(s[k - 1], depth)
    }
}

fn indent_text(depth: usize) -> (r: String)
    ensures
        r@ == indent(depth as nat),
{
    let mut r = String::new();
    let mut i: usize = 0;
    assert(r@ =~= indent(0));
    while i < depth
        invariant
            i <= depth,
            r@ == indent(i as nat),
        decreases depth - i,
    {
        r.append("  ");
        i = i + 1;
    }
    r
}

fn head_text(n: &Node) -> (r: String)
    ensures
        r@ == line_head(*n),
{
    let mut r = String::new();
    crate::text::push_decimal(&mut r, n.id);
    assert(r@ =~= crate::text::decimal(n.id as int));
    r.append(" [");
    crate::text::push_decimal(&mut r, n.position);
    r.append("] ");
    r
}

/// A node on a line of a tree.
pub fn line_text(n: &Node) -> (r: String)
    ensures
        r@ == node_line(*n),
{
    let mut r = head_text(n);
    r.append(crate::json::kind_text(n.kind));
    r.append(" ");
    r.append(n.title.as_str());
    if let Some(u) = &n.url {
        r.append(" (");
        r.append(u.as_str());
        r.append(")");
    }
    r
}

/// A node on a line of a page.
pub fn flat_text(n: &Node) -> (r: String)
    ensures
        r@ == flat_line(*n),
{
    let mut r = head_text(n);
    r.append(n.title.as_str());
    match n.kind {
        NodeKind::Folder => {
            r.append("/");
        },
        NodeKind::Bookmark => {
            r.append(" -> ");
            match &n.url {
                Some(u) => {
                    r.append(u.as_str());
                },
                None => {
                    assert(r@ + seq![] =~= r@);
                },
            }
        },
    }
    r
}

/// The depth of a nested tree stays below `limit`.
pub open spec fn shallow(n: Node, limit: nat) -> bool
    decreases n,
{
    limit > 0 && forall|i: int|
        0 <= i < n.children@.len() ==> shallow(#[trigger] n.children@[i], (limit - 1) as nat)
}

/// A tree, one node to a line.
pub fn tree_text(n: &Node, depth: usize) -> (r: String)
    requires
        shallow(*n, (usize::MAX - depth) as nat),
    ensures
        r@ == tree_lines(*n, depth as nat),
    decreases *n,
{
    let mut r = indent_text(depth);
    r.append(line_text(n).as_str());
    r.append("\n");
    let ghost head = r@;
    let mut i: usize = 0;
    assert(head + list_lines(n.children@, depth as nat + 1, 0) =~= head);
    while i < n.children.len()
        invariant
            i <= n.children@.len(),
            shallow(*n, (usize::MAX - depth) as nat),
            r@ == head + list_lines(n.children@, depth as nat + 1, i as nat),
        decreases n.children@.len() - i,
    {
        assert(shallow(n.children@[i as int], (usize::MAX - depth - 1) as nat));
        let one = tree_text(&n.children[i], depth + 1);
        let ghost before = list_lines(n.children@, depth as nat + 1, i as nat);
        r.append(one.as_str());
        i = i + 1;
        assert(r@ =~= head + (before + one@));
    }
    r
}

/// A tree that shows nodes at most `levels` below its root is that shallow.
proof fn lemma_shallow(t: Table, n: Node, levels: nat)
    requires
        crate::walk::shows_tree(t, n),
        !crate::walk::level_used(t, n.id, levels + 1),
    ensures
        shallow(n, levels + 1),
    decreases n,
{
    let s = n.children@;
    let ids = crate::walk::node_ids(s);
    assert forall|i: int| 0 <= i < s.len() implies shallow(#[trigger] s[i], levels) by {
        let kid = s[i];
        assert(ids.contains(ids[i]));
        assert(crate::table::sits_under(t, Some(n.id), kid.id));
        if crate::walk::level_used(t, kid.id, levels) {
            let x = choose|x: i64| #[trigger] crate::table::up(t, x, levels) == Some(kid.id);
            assert(crate::table::up(t, x, levels + 1) == Some(n.id));
        }
        if levels == 0 {
            assert(crate::table::up(t, kid.id, 0) == Some(kid.id));
        }
        lemma_shallow(t, kid, (levels - 1) as nat);
    }
}

proof fn lemma_shallower(n: Node, a: nat, b: nat)
    requires
        shallow(n, a),
        a <= b,
    ensures
        shallow(n, b),
    decreases n,
{
    assert forall|i: int| 0 <= i < n.children@.len() implies shallow(
        #[trigger] n.children@[i],
        (b - 1) as nat,
    ) by {
        lemma_shallower(n.children@[i], (a - 1) as nat, (b - 1) as nat);
    }
}

/// The flat list of bookmarks: id, title and URL, separated by tabs.
pub open spec fn bookmark_lines(s: Seq<Node>, k: nat) -> Seq<char>
    decreases k,
{
    if k == 0 {
        seq![]
    } else {
        bookmark_lines(s, (k - 1) as nat) + crate::text::decimal(s[k - 1].id as int) + "\t"@ + s[k
            - 1].title@ + "\t"@ + (match s[k - 1].url {
            Some(u) => u@,
            None => seq![],
        }) + "\n"@
    }
}

/// What the command `list` prints.
pub open spec fn list_printed(s: Seq<Node>) -> Seq<char> {
    if s.len() == 0 {
        "(no bookmarks)\n"@
    } else {
        bookmark_lines(s, s.len())
    }
}

fn list_print(v: &Vec<Node>) -> (r: String)
    ensures
        r@ == list_printed(v@),
{
    if v.len() == 0 {
        return "(no bookmarks)\n".to_owned();
    }
    let mut r = String::new();
    let mut i: usize = 0;
    assert(r@ =~= bookmark_lines(v@, 0));
    while i < v.len()
        invariant
            i <= v@.len(),
            r@ == bookmark_lines(v@, i as nat),
        decreases v@.len() - i,
    {
        let n = &v[i];
        crate::text::push_decimal(&mut r, n.id);
        r.append("\t");
        r.append(n.title.as_str());
        r.append("\t");
        match &n.url {
            Some(u) => {
                r.append(u.as_str());
            },
            None => {
                assert(r@ + seq![] =~= r@);
            },
        }
        r.append("\n");
        i = i + 1;
    }
    r
}

/// The nodes of a page, one to a line.
pub open spec fn page_lines(s: Seq<Node>, k: nat) -> Seq<char>
    decreases k,
{
    if k == 0 {
        seq![]
    } else {
        page_lines(s, (k - 1) as nat) + flat_line(s[k - 1]) + "\n"@
    }
}

/// What the command `children` prints.
pub open spec fn page_printed(s: Seq<Node>, total: i64) -> Seq<char> {
    "total "@ + crate::text::decimal(total as int) + "\n"@ + page_lines(s, s.len())
}

fn page_print(v: &Vec<Node>, total: i64) -> (r: String)
    ensures
        r@ == page_printed(v@, total),
{
    let mut lines = String::new();
    let mut i: usize = 0;
    assert(lines@ =~= page_lines(v@, 0));
    while i < v.len()
        invariant
            i <= v@.len(),
            lines@ == page_lines(v@, i as nat),
        decreases v@.len() - i,
    {
        lines.append(flat_text(&v[i]).as_str());
        lines.append("\n");
        i = i + 1;
    }
    let mut r = "total ".to_owned();
    crate::text::push_decimal(&mut r, total);
    r.append("\n");
    r.append(lines.as_str());
    r
}

/// What is printed of a number: a word and the number on a line.
pub open spec fn number_printed(what: Seq<char>, n: int) -> Seq<char> {
    what + crate::text::decimal(n) + "\n"@
}

fn number_print(what: &str, n: i64) -> (r: String)
    ensures
        r@ == number_printed(what@, n as int),
{
    let mut r = what.to_owned();
    crate::text::push_decimal(&mut r, n);
    r.append("\n");
    r
}

/// The outcome of a command: what is printed, or the text of an error.
pub open spec fn printed(r: Result<String, String>) -> Result<Seq<char>, Seq<char>> {
    match r {
        Ok(s) => Ok(s@),
        Err(e) => Err(e@),
    }
}

/// The outcome that reports an error of the store.
pub open spec fn failed(e: StoreErrorView) -> Result<Seq<char>, Seq<char>> {
    Err(crate::error::error_text(e))
}

/// The outcome that reports an error of the vault.
pub open spec fn vault_failed(e: VaultErrorView) -> Result<Seq<char>, Seq<char>> {
    Err(crate::vault::vault_error_text(e))
}

/// The outcome of an operation that gives an id.
pub open spec fn id_told(what: Seq<char>, x: Result<i64, StoreErrorView>) -> Result<
    Seq<char>,
    Seq<char>,
> {
    match x {
        Ok(id) => Ok(number_printed(what, id as int)),
        Err(e) => failed(e),
    }
}

/// The outcome of an operation that gives nothing.
pub open spec fn done_told(what: Seq<char>, id: i64, x: Result<(), StoreErrorView>) -> Result<
    Seq<char>,
    Seq<char>,
> {
    match x {
        Ok(_) => Ok(number_printed(what, id as int)),
        Err(e) => failed(e),
    }
}

/// The outcome of an operation in the vault that gives an id.
pub open spec fn vault_id_told(what: Seq<char>, x: Result<i64, VaultErrorView>) -> Result<
    Seq<char>,
    Seq<char>,
> {
    match x {
        Ok(id) => Ok(number_printed(what, id as int)),
        Err(e) => vault_failed(e),
    }
}

/// The outcome shows a tree of this table.
pub open spec fn tree_told(t: Table, r: Result<Seq<char>, Seq<char>>) -> bool {
    match crate::ops::tree_error(t) {
        Some(e) => r == failed(e),
        None => exists|n: Node|
            {
                &&& crate::ops::root_of(t) == Some(n.id)
                &&& crate::walk::shows_tree(t, n)
                &&& r == Ok::<Seq<char>, Seq<char>>(#[trigger] tree_lines(n, 0))
            },
    }
}

/// What a command on the visible tree comes to: the table `u` and the outcome.
pub open spec fn tree_ran(
    t: Table,
    c: CommandView,
    now: i64,
    u: Table,
    r: Result<Seq<char>, Seq<char>>,
) -> bool {
    match c {
        CommandView::Init => u == t && r == Ok::<Seq<char>, Seq<char>>("store ready\n"@),
        CommandView::Tree => u == t && tree_told(crate::ops::visible(t, false), r),
        CommandView::List => {
            &&& u == t
            &&& exists|v: Seq<Node>, s: Seq<i64>|
                {
                    &&& #[trigger] crate::ops::newest_first(t, crate::ops::bookmarks(t), s)
                    &&& crate::ops::shows_list(t, v, s)
                    &&& r == Ok::<Seq<char>, Seq<char>>(#[trigger] list_printed(v))
                }
        },
        CommandView::Add(parent, title, url) => exists|x: Result<i64, StoreErrorView>|
            crate::serve::bookmark_created(t, parent, title, url, now, u, x) && r
                == #[trigger] id_told("added "@, x),
        CommandView::Mkdir(parent, title) => exists|x: Result<i64, StoreErrorView>|
            crate::serve::folder_created(t, parent, title, now, u, x) && r == #[trigger] id_told(
                "created folder "@,
                x,
            ),
        CommandView::Rename(id, title) => exists|x: Result<(), StoreErrorView>|
            crate::serve::changed_to(
                t,
                crate::ops::rename_error(t, id, title),
                crate::ops::renamed(t, id, title, now),
                u,
                x,
            ) && r == #[trigger] done_told("renamed "@, id, x),
        CommandView::Move(id, under, position) => exists|x: Result<(), StoreErrorView>|
            crate::serve::changed_to(
                t,
                crate::ops::move_error(t, id, under),
                crate::ops::moved(t, id, under, position, now),
                u,
                x,
            ) && r == #[trigger] done_told("moved "@, id, x),
        CommandView::Rm(id) => match crate::ops::node_error(t, id) {
            Some(e) => u == t && r == failed(e),
            None => {
                &&& u == crate::ops::deleted(t, id)
                &&& r == Ok::<Seq<char>, Seq<char>>(
                    number_printed("deleted "@, crate::table::subtree(t, id).len() as int),
                )
            },
        },
        CommandView::Children(parent, limit, offset) => {
            &&& u == t
            &&& match crate::ops::target_error(t, parent) {
                Some(e) => r == failed(e),
                None => exists|v: Seq<Node>, total: i64|
                    crate::serve::page_shows(t, parent, limit, offset, v, total) && r == Ok::<
                        Seq<char>,
                        Seq<char>,
                    >(#[trigger] page_printed(v, total)),
            }
        },
        _ => false,
    }
}

/// What an operation on the unlocked vault comes to, where `p` says what it does to the
/// nodes.
pub open spec fn vault_told<D: Fn(&[u8]) -> Option<VaultPlaintext>>(
    decode: D,
    slot: SlotView,
    phrase: Seq<char>,
    what: Seq<char>,
    p: spec_fn(Table, Table, Result<i64, StoreErrorView>) -> bool,
    after: SlotView,
    r: Result<Seq<char>, Seq<char>>,
) -> bool {
    match crate::vault::unlocked_by(slot, phrase) {
        Err(e) => after == slot && r == vault_failed(e),
        Ok((key, plaintext)) => {
            ||| exists|e: VaultErrorView| #[trigger]
                crate::vault::loads(decode, plaintext, Err(e)) && after == slot && r
                    == vault_failed(e)
            ||| exists|x: Result<i64, VaultErrorView>|
                crate::serve::vault_changed(
                    decode,
                    slot,
                    crate::codec::base64_text(key),
                    p,
                    after,
                    x,
                ) && r == #[trigger] vault_id_told(what, x)
        },
    }
}

/// What a command on the vault comes to: the row `after` and the outcome.
pub open spec fn vault_ran<D: Fn(&[u8]) -> Option<VaultPlaintext>>(
    decode: D,
    slot: SlotView,
    c: CommandView,
    phrase: Seq<char>,
    now: i64,
    after: SlotView,
    r: Result<Seq<char>, Seq<char>>,
) -> bool {
    match c {
        CommandView::VaultStatus => after == slot && r == Ok::<Seq<char>, Seq<char>>(
            if slot is Empty {
                "none\n"@
            } else {
                "exists\n"@
            },
        ),
        CommandView::VaultCreate => exists|x: Result<Seq<char>, VaultErrorView>|
            {
                &&& #[trigger] crate::vault::created(slot, phrase, now, after, x)
                &&& match x {
                    Ok(_) => r == Ok::<Seq<char>, Seq<char>>("vault created\n"@),
                    Err(e) => r == vault_failed(e),
                }
            },
        CommandView::VaultTree => {
            &&& after == slot
            &&& match crate::vault::unlocked_by(slot, phrase) {
                Err(e) => r == vault_failed(e),
                Ok((_, plaintext)) => {
                    ||| exists|e: VaultErrorView| #[trigger]
                        crate::vault::loads(decode, plaintext, Err(e)) && r == vault_failed(e)
                    ||| exists|s: Store| #[trigger]
                        crate::vault::loads(decode, plaintext, Ok(s)) && tree_told(
                            crate::ops::visible(s@, true),
                            r,
                        )
                },
            }
        },
        CommandView::VaultMkdir(parent, title) => vault_told(
            decode,
            slot,
            phrase,
            "created folder "@,
            |t: Table, u: Table, y: Result<i64, StoreErrorView>|
                crate::serve::folder_created(t, parent, title, now, u, y),
            after,
            r,
        ),
        CommandView::VaultAdd(parent, title, url) => vault_told(
            decode,
            slot,
            phrase,
            "added "@,
            |t: Table, u: Table, y: Result<i64, StoreErrorView>|
                crate::serve::bookmark_created(t, parent, title, url, now, u, y),
            after,
            r,
        ),
        _ => false,
    }
}

/// The command is one on the vault.
pub open spec fn on_vault(c: CommandView) -> bool {
    c is VaultStatus || c is VaultCreate || c is VaultTree || c is VaultMkdir || c is VaultAdd
}

/// The command reads a phrase.
pub open spec fn takes_phrase(c: CommandView) -> bool {
    c is VaultCreate || c is VaultTree || c is VaultMkdir || c is VaultAdd
}

/// Whether the command is one on the vault.
pub fn is_on_vault(c: &Command) -> (r: bool)
    ensures
        r == on_vault(c@),
{
    match c {
        Command::VaultStatus => true,
        Command::VaultCreate => true,
        Command::VaultTree => true,
        Command::VaultMkdir(_, _) => true,
        Command::VaultAdd(_, _, _) => true,
        _ => false,
    }
}

/// The command only reads.
pub open spec fn reads(c: CommandView) -> bool {
    c is Init || c is Tree || c is List || c is Children || c is VaultStatus || c is VaultTree
}

/// Whether the command only reads, so that no write lock is needed for it.
pub fn is_read(c: &Command) -> (r: bool)
    ensures
        r == reads(c@),
{
    match c {
        Command::Init => true,
        Command::Tree => true,
        Command::List => true,
        Command::Children(_, _, _) => true,
        Command::VaultStatus => true,
        Command::VaultTree => true,
        _ => false,
    }
}

/// A command that only reads changes neither the tree nor the vault.
pub proof fn lemma_reads_change_nothing<D: Fn(&[u8]) -> Option<VaultPlaintext>>(
    decode: D,
    c: CommandView,
    phrase: Seq<char>,
    now: i64,
    t: Table,
    u: Table,
    slot: SlotView,
    after: SlotView,
    r: Result<Seq<char>, Seq<char>>,
)
    requires
        reads(c),
    ensures
        tree_ran(t, c, now, u, r) ==> u == t,
        vault_ran(decode, slot, c, phrase, now, after, r) ==> after == slot,
{
}

/// Whatever a command does to the vault, it leaves the row as it was or puts one with the
/// next version in its place.
pub proof fn lemma_commands_move_the_version<D: Fn(&[u8]) -> Option<VaultPlaintext>>(
    decode: D,
    c: CommandView,
    phrase: Seq<char>,
    now: i64,
    slot: SlotView,
    after: SlotView,
    r: Result<Seq<char>, Seq<char>>,
)
    requires
        vault_ran(decode, slot, c, phrase, now, after, r),
    ensures
        after == slot || crate::vault::next_row(slot, after),
{
}

/// Whether the command reads a phrase from standard input.
pub fn needs_phrase(c: &Command) -> (r: bool)
    ensures
        r == takes_phrase(c@),
{
    match c {
        Command::VaultCreate => true,
        Command::VaultTree => true,
        Command::VaultMkdir(_, _) => true,
        Command::VaultAdd(_, _, _) => true,
        _ => false,
    }
}

fn tree_print(store: &Store, include_hidden: bool) -> (r: Result<String, String>)
    requires
        store.wf(),
    ensures
        tree_told(crate::ops::visible(store@, include_hidden), printed(r)),
{
    match store.tree(include_hidden) {
        Err(e) => Err(e.to_text()),
        Ok(n) => {
            proof {
                let t = crate::ops::visible(store@, include_hidden);
                lemma_shallow(t, n, crate::table::MAX_DEPTH as nat);
                lemma_shallower(n, 201, usize::MAX as nat);
            }
            Ok(tree_text(&n, 0))
        },
    }
}

/// Runs a command on the visible tree.
pub fn run_tree(store: &mut Store, c: &Command, now: i64) -> (r: Result<String, String>)
    requires
        old(store).wf(),
        !on_vault(c@),
        !(c@ is Serve),
    ensures
        final(store).wf(),
        tree_ran(old(store)@, c@, now, final(store)@, printed(r)),
{
    match c {
        Command::Init => Ok("store ready\n".to_owned()),
        Command::Tree => tree_print(store, false),
        Command::List => match store.list() {
            Ok(v) => Ok(list_print(&v)),
            Err(e) => Err(e.to_text()),
        },
        Command::Add(parent, title, url) => {
            let x = store.create_bookmark(*parent, title.as_str(), url.as_str(), now);
            let ghost y = crate::serve::seen(x);
            assert(crate::serve::bookmark_created(
                old(store)@,
                *parent,
                title@,
                url@,
                now,
                store@,
                y,
            ));
            let r = match x {
                Ok(id) => Ok(number_print("added ", id)),
                Err(e) => Err(e.to_text()),
            };
            assert(printed(r) == id_told("added "@, y));
            r
        },
        Command::Mkdir(parent, title) => {
            let x = store.create_folder(*parent, title.as_str(), now);
            let ghost y = crate::serve::seen(x);
            assert(crate::serve::folder_created(old(store)@, *parent, title@, now, store@, y));
            let r = match x {
                Ok(id) => Ok(number_print("created folder ", id)),
                Err(e) => Err(e.to_text()),
            };
            assert(printed(r) == id_told("created folder "@, y));
            r
        },
        Command::Rename(id, title) => {
            let x = store.rename(*id, title.as_str(), now);
            let ghost y = crate::serve::seen(x);
            let r = match x {
                Ok(_) => Ok(number_print("renamed ", *id)),
                Err(e) => Err(e.to_text()),
            };
            assert(printed(r) == done_told("renamed "@, *id, y));
            r
        },
        Command::Move(id, under, position) => {
            let x = store.move_node(*id, *under, *position, now);
            let ghost y = crate::serve::seen(x);
            let r = match x {
                Ok(_) => Ok(number_print("moved ", *id)),
                Err(e) => Err(e.to_text()),
            };
            assert(printed(r) == done_told("moved "@, *id, y));
            r
        },
        Command::Rm(id) => match store.delete(*id) {
            Ok(n) => {
                let mut r = "deleted ".to_owned();
                crate::text::push_digits(&mut r, n);
                r.append("\n");
                Ok(r)
            },
            Err(e) => Err(e.to_text()),
        },
        Command::Children(parent, limit, offset) => match store.children(
            *parent,
            *limit,
            *offset,
        ) {
            Ok((page, total)) => Ok(page_print(&page, total)),
            Err(e) => Err(e.to_text()),
        },
        _ => Ok(String::new()),
    }
}

/// Runs a command on the vault.
pub fn run_vault<D: Fn(&[u8]) -> Option<VaultPlaintext>>(
    slot: &mut VaultSlot,
    c: &Command,
    phrase: &str,
    now: i64,
    decode: &D,
) -> (r: Result<String, String>)
    requires
        on_vault(c@),
        forall|b: &[u8]| #[trigger] call_requires(*decode, (b,)),
    ensures
        vault_ran(*decode, old(slot)@, c@, phrase@, now, final(slot)@, printed(r)),
{
    match c {
        Command::VaultStatus => vault_status(slot),
        Command::VaultCreate => vault_create(slot, phrase, now, decode),
        Command::VaultTree => vault_tree(slot, phrase, now, decode),
        Command::VaultMkdir(parent, title) => vault_mkdir(slot, phrase, *parent, title, now, decode),
        Command::VaultAdd(parent, title, url) => vault_add(
            slot,
            phrase,
            *parent,
            title,
            url,
            now,
            decode,
        ),
        _ => Ok(String::new()),
    }
}

/// Says whether a vault exists.
fn vault_status(slot: &VaultSlot) -> (r: Result<String, String>)
    ensures
        printed(r) == Ok::<Seq<char>, Seq<char>>(
            if slot@ is Empty {
                "none\n"@
            } else {
                "exists\n"@
            },
        ),
{
    if crate::vault::vault_exists(slot) {
        Ok("exists\n".to_owned())
    } else {
        Ok("none\n".to_owned())
    }
}

/// Creates the vault.
fn vault_create<D: Fn(&[u8]) -> Option<VaultPlaintext>>(
    slot: &mut VaultSlot,
    phrase: &str,
    now: i64,
    decode: &D,
) -> (r: Result<String, String>)
    ensures
        vault_ran(
            *decode,
            old(slot)@,
            CommandView::VaultCreate,
            phrase@,
            now,
            final(slot)@,
            printed(r),
        ),
{
    let x = crate::vault::create(slot, phrase, now);
    let ghost y = crate::vault::key_outcome(x);
    assert(crate::vault::created(old(slot)@, phrase@, now, slot@, y));
    match x {
        Ok(_) => Ok("vault created\n".to_owned()),
        Err(e) => Err(e.to_text()),
    }
}

/// Unlocks the vault and prints its tree.
fn vault_tree<D: Fn(&[u8]) -> Option<VaultPlaintext>>(
    slot: &VaultSlot,
    phrase: &str,
    now: i64,
    decode: &D,
) -> (r: Result<String, String>)
    requires
        forall|b: &[u8]| #[trigger] call_requires(*decode, (b,)),
    ensures
        vault_ran(*decode, slot@, CommandView::VaultTree, phrase@, now, slot@, printed(r)),
{
    match crate::vault::unlock(slot, phrase, decode) {
        Err(e) => Err(e.to_text()),
        Ok(u) => tree_print(&u.store, true),
    }
}

/// Unlocks the vault and creates a folder in it.
fn vault_mkdir<D: Fn(&[u8]) -> Option<VaultPlaintext>>(
    slot: &mut VaultSlot,
    phrase: &str,
    parent: Option<i64>,
    title: &String,
    now: i64,
    decode: &D,
) -> (r: Result<String, String>)
    requires
        forall|b: &[u8]| #[trigger] call_requires(*decode, (b,)),
    ensures
        vault_ran(
            *decode,
            old(slot)@,
            CommandView::VaultMkdir(parent, title@),
            phrase@,
            now,
            final(slot)@,
            printed(r),
        ),
{
    let f = |s: &mut Store| -> (x: Result<i64, StoreError>)
        requires
            old(s).wf(),
        ensures
            final(s).wf(),
            crate::serve::folder_created(
                old(s)@,
                parent,
                title@,
                now,
                final(s)@,
                crate::serve::seen(x),
            ),
        { s.create_folder(parent, title.as_str(), now) };
    unlock_and_change(
        slot,
        phrase,
        decode,
        f,
        now,
        "created folder ",
        Ghost(
            |t: Table, u: Table, y: Result<i64, StoreErrorView>|
                crate::serve::folder_created(t, parent, title@, now, u, y),
        ),
    )
}

/// Unlocks the vault and creates a bookmark in it.
fn vault_add<D: Fn(&[u8]) -> Option<VaultPlaintext>>(
    slot: &mut VaultSlot,
    phrase: &str,
    parent: Option<i64>,
    title: &String,
    url: &String,
    now: i64,
    decode: &D,
) -> (r: Result<String, String>)
    requires
        forall|b: &[u8]| #[trigger] call_requires(*decode, (b,)),
    ensures
        vault_ran(
            *decode,
            old(slot)@,
            CommandView::VaultAdd(parent, title@, url@),
            phrase@,
            now,
            final(slot)@,
            printed(r),
        ),
{
    let f = |s: &mut Store| -> (x: Result<i64, StoreError>)
        requires
            old(s).wf(),
        ensures
            final(s).wf(),
            crate::serve::bookmark_created(
                old(s)@,
                parent,
                title@,
                url@,
                now,
                final(s)@,
                crate::serve::seen(x),
            ),
        { s.create_bookmark(parent, title.as_str(), url.as_str(), now) };
    unlock_and_change(
        slot,
        phrase,
        decode,
        f,
        now,
        "added ",
        Ghost(
            |t: Table, u: Table, y: Result<i64, StoreErrorView>|
                crate::serve::bookmark_created(t, parent, title@, url@, now, u, y),
        ),
    )
}

/// Unlocks the vault and runs a change in it.
fn unlock_and_change<D, F>(
    slot: &mut VaultSlot,
    phrase: &str,
    decode: &D,
    f: F,
    now: i64,
    what: &str,
    Ghost(does): Ghost<spec_fn(Table, Table, Result<i64, StoreErrorView>) -> bool>,
) -> (r: Result<String, String>) where
    D: Fn(&[u8]) -> Option<VaultPlaintext>,
    F: FnOnce(&mut Store) -> Result<i64, StoreError>,

    requires
        forall|b: &[u8]| #[trigger] call_requires(*decode, (b,)),
        forall|p: &mut Store| (*p).wf() ==> #[trigger] call_requires(f, (p,)),
        forall|p: &mut Store, t: Result<i64, StoreError>|
            (*p).wf() && #[trigger] call_ensures(f, (p,), t) ==> (*final(p)).wf() && does(
                (*p)@,
                (*final(p))@,
                crate::serve::seen(t),
            ),
    ensures
        vault_told(*decode, old(slot)@, phrase@, what@, does, final(slot)@, printed(r)),
{
    let unlocked = match crate::vault::unlock(slot, phrase, decode) {
        Err(e) => {
            return Err(e.to_text());
        },
        Ok(u) => u,
    };
    let x = crate::serve::change_vault(
        slot,
        unlocked.key_b64.as_str(),
        decode,
        f,
        now,
        Ghost(does),
    );
    let ghost y = crate::serve::vault_seen(x);
    let r = match x {
        Ok(id) => Ok(number_print(what, id)),
        Err(e) => Err(e.to_text()),
    };
    assert(printed(r) == vault_id_told(what@, y));
    r
}

} // verus!
