//! What the words of the command line are for: a command that is written out in words is
//! understood as that command, whatever its titles, URLs and numbers are.

use vstd::prelude::*;
use crate::cli::{CliErrorView, CommandView};

verus! {

proof fn lemma_digit(d: nat)
    requires
        d < 10,
    ensures
        '0' <= crate::text::digit(d) <= '9',
        crate::text::digit(d) as u32 - '0' as u32 == d,
{
}

pub proof fn lemma_digits_read(n: nat)
    ensures
        crate::text::all_digits(crate::text::digits(n)),
        crate::text::digits_value(crate::text::digits(n)) == n,
    decreases n,
{
    let s = crate::text::digits(n);
    if n < 10 {
        lemma_digit(n);
        assert(s.drop_last() =~= Seq::empty());
        assert(crate::text::digits_value(s.drop_last()) == 0);
    } else {
        lemma_digits_read(n / 10);
        lemma_digit(n % 10);
        let q = crate::text::digits(n / 10);
        assert(s.drop_last() =~= q);
        assert forall|i: int| 0 <= i < s.len() implies '0' <= #[trigger] s[i] <= '9' by {
            if i < q.len() {
                assert(s[i] == q[i]);
            }
        }
    }
}

/// A number that is written in decimal is read as that number.
pub proof fn lemma_decimal_reads_back(n: i64)
    ensures
        crate::cli::arg_number(crate::text::decimal(n as int)) == Some(n),
        crate::cli::arg_id(crate::text::decimal(n as int)) == Ok::<i64, Seq<char>>(n),
{
    let s = crate::text::decimal(n as int);
    if n < 0 {
        let d = crate::text::digits((-n) as nat);
        lemma_digits_read((-n) as nat);
        assert(s.subrange(1, s.len() as int) =~= d);
    } else {
        lemma_digits_read(n as nat);
        assert('0' <= s[0] <= '9');
    }
}

/// No decimal number is one of the options.
proof fn lemma_options_are_no_numbers()
    ensures
        crate::cli::arg_number("--parent"@) is None,
        crate::cli::arg_number("--pos"@) is None,
        crate::cli::arg_number("--limit"@) is None,
        crate::cli::arg_number("--offset"@) is None,
{
    reveal_strlit("--parent");
    reveal_strlit("--pos");
    reveal_strlit("--limit");
    reveal_strlit("--offset");
    assert("--parent"@.subrange(1, 8)[0] == '-');
    assert("--pos"@.subrange(1, 5)[0] == '-');
    assert("--limit"@.subrange(1, 7)[0] == '-');
    assert("--offset"@.subrange(1, 8)[0] == '-');
}

/// An option that is not among the words is taken from none of them.
pub proof fn lemma_option_absent(args: Seq<Seq<char>>, flag: Seq<char>)
    requires
        !args.contains(flag),
    ensures
        crate::cli::flag_taken(args, flag) == Ok::<_, Seq<char>>((None::<i64>, args)),
    decreases args.len(),
{
    if args.len() == 0 {
        assert(args =~= seq![]);
    } else {
        let rest = args.skip(1);
        assert(args.contains(args[0]));
        assert forall|i: int| 0 <= i < rest.len() implies rest[i] != flag by {
            assert(rest[i] == args[i + 1]);
            assert(args.contains(args[i + 1]));
        }
        lemma_option_absent(rest, flag);
        assert(seq![args[0]] + rest =~= args);
    }
}

/// An option with its number is taken out of the words, wherever it stands, and the other
/// words stay in their order.
pub proof fn lemma_option_taken(
    a: Seq<Seq<char>>,
    flag: Seq<char>,
    v: i64,
    b: Seq<Seq<char>>,
)
    requires
        !a.contains(flag),
        !b.contains(flag),
    ensures
        crate::cli::flag_taken(a + seq![flag, crate::text::decimal(v as int)] + b, flag) == Ok::<
            _,
            Seq<char>,
        >((Some(v), a + b)),
    decreases a.len(),
{
    let args = a + seq![flag, crate::text::decimal(v as int)] + b;
    lemma_decimal_reads_back(v);
    if a.len() == 0 {
        assert(args.skip(2) =~= b);
        lemma_option_absent(b, flag);
        assert(a + b =~= b);
    } else {
        let rest = a.skip(1);
        assert(a.contains(a[0]));
        assert forall|i: int| 0 <= i < rest.len() implies rest[i] != flag by {
            assert(rest[i] == a[i + 1]);
            assert(a.contains(a[i + 1]));
        }
        lemma_option_taken(rest, flag, v, b);
        assert(args.skip(1) =~= rest + seq![flag, crate::text::decimal(v as int)] + b);
        assert(seq![a[0]] + (rest + b) =~= a + b);
    }
}

/// Of an option that is given twice the later number counts.
pub proof fn lemma_later_option_counts(
    a: Seq<Seq<char>>,
    flag: Seq<char>,
    v: i64,
    b: Seq<Seq<char>>,
    w: i64,
    c: Seq<Seq<char>>,
)
    requires
        !a.contains(flag),
        !b.contains(flag),
        !c.contains(flag),
    ensures
        crate::cli::flag_taken(
            a + seq![flag, crate::text::decimal(v as int)] + (b + seq![
                flag,
                crate::text::decimal(w as int),
            ] + c),
            flag,
        ) == Ok::<_, Seq<char>>((Some(w), a + (b + c))),
    decreases a.len(),
{
    let tail = b + seq![flag, crate::text::decimal(w as int)] + c;
    let args = a + seq![flag, crate::text::decimal(v as int)] + tail;
    lemma_decimal_reads_back(v);
    if a.len() == 0 {
        assert(args.skip(2) =~= tail);
        lemma_option_taken(b, flag, w, c);
        assert(a + (b + c) =~= b + c);
    } else {
        let rest = a.skip(1);
        assert(a.contains(a[0]));
        assert forall|i: int| 0 <= i < rest.len() implies rest[i] != flag by {
            assert(rest[i] == a[i + 1]);
            assert(a.contains(a[i + 1]));
        }
        lemma_later_option_counts(rest, flag, v, b, w, c);
        assert(args.skip(1) =~= rest + seq![flag, crate::text::decimal(v as int)] + tail);
        assert(seq![a[0]] + (rest + (b + c)) =~= a + (b + c));
    }
}

/// An option without a number behind it is refused, and so is one with anything else there.
pub proof fn lemma_option_needs_a_number(
    a: Seq<Seq<char>>,
    flag: Seq<char>,
    word: Option<Seq<char>>,
    b: Seq<Seq<char>>,
)
    requires
        !a.contains(flag),
        word matches Some(w) ==> crate::text::number_in(
            w,
            true,
            -0x8000_0000_0000_0000,
            0x7fff_ffff_ffff_ffff,
        ) is None,
    ensures
        word matches Some(w) ==> crate::cli::flag_taken(a + seq![flag, w] + b, flag) == Err::<
            (Option<i64>, Seq<Seq<char>>),
            _,
        >(flag + " value must be a number"@),
        word is None ==> crate::cli::flag_taken(a + seq![flag], flag) == Err::<
            (Option<i64>, Seq<Seq<char>>),
            _,
        >(flag + " requires a value"@),
    decreases a.len(),
{
    if a.len() > 0 {
        let rest = a.skip(1);
        assert(a.contains(a[0]));
        assert forall|i: int| 0 <= i < rest.len() implies rest[i] != flag by {
            assert(rest[i] == a[i + 1]);
            assert(a.contains(a[i + 1]));
        }
        lemma_option_needs_a_number(rest, flag, word, b);
        match word {
            Some(w) => {
                assert((a + seq![flag, w] + b).skip(1) =~= rest + seq![flag, w] + b);
            },
            None => {
                assert((a + seq![flag]).skip(1) =~= rest + seq![flag]);
            },
        }
    }
}

/// The names of the commands are all different.
proof fn lemma_names_differ()
    ensures
        "init"@ != "serve"@,
        "tree"@ != "serve"@,
        "tree"@ != "init"@,
        "list"@ != "serve"@,
        "list"@ != "init"@,
        "list"@ != "tree"@,
        "add"@ != "serve"@,
        "add"@ != "init"@,
        "add"@ != "tree"@,
        "add"@ != "list"@,
        "addbm"@ != "serve"@,
        "addbm"@ != "init"@,
        "addbm"@ != "tree"@,
        "addbm"@ != "list"@,
        "addbm"@ != "add"@,
        "mkdir"@ != "serve"@,
        "mkdir"@ != "init"@,
        "mkdir"@ != "tree"@,
        "mkdir"@ != "list"@,
        "mkdir"@ != "add"@,
        "mkdir"@ != "addbm"@,
        "rename"@ != "serve"@,
        "rename"@ != "init"@,
        "rename"@ != "tree"@,
        "rename"@ != "list"@,
        "rename"@ != "add"@,
        "rename"@ != "addbm"@,
        "rename"@ != "mkdir"@,
        "move"@ != "serve"@,
        "move"@ != "init"@,
        "move"@ != "tree"@,
        "move"@ != "list"@,
        "move"@ != "add"@,
        "move"@ != "addbm"@,
        "move"@ != "mkdir"@,
        "move"@ != "rename"@,
        "rm"@ != "serve"@,
        "rm"@ != "init"@,
        "rm"@ != "tree"@,
        "rm"@ != "list"@,
        "rm"@ != "add"@,
        "rm"@ != "addbm"@,
        "rm"@ != "mkdir"@,
        "rm"@ != "rename"@,
        "rm"@ != "move"@,
        "children"@ != "serve"@,
        "children"@ != "init"@,
        "children"@ != "tree"@,
        "children"@ != "list"@,
        "children"@ != "add"@,
        "children"@ != "addbm"@,
        "children"@ != "mkdir"@,
        "children"@ != "rename"@,
        "children"@ != "move"@,
        "children"@ != "rm"@,
        "vault-status"@ != "serve"@,
        "vault-status"@ != "init"@,
        "vault-status"@ != "tree"@,
        "vault-status"@ != "list"@,
        "vault-status"@ != "add"@,
        "vault-status"@ != "addbm"@,
        "vault-status"@ != "mkdir"@,
        "vault-status"@ != "rename"@,
        "vault-status"@ != "move"@,
        "vault-status"@ != "rm"@,
        "vault-status"@ != "children"@,
        "vault-create"@ != "serve"@,
        "vault-create"@ != "init"@,
        "vault-create"@ != "tree"@,
        "vault-create"@ != "list"@,
        "vault-create"@ != "add"@,
        "vault-create"@ != "addbm"@,
        "vault-create"@ != "mkdir"@,
        "vault-create"@ != "rename"@,
        "vault-create"@ != "move"@,
        "vault-create"@ != "rm"@,
        "vault-create"@ != "children"@,
        "vault-create"@ != "vault-status"@,
        "vault-tree"@ != "serve"@,
        "vault-tree"@ != "init"@,
        "vault-tree"@ != "tree"@,
        "vault-tree"@ != "list"@,
        "vault-tree"@ != "add"@,
        "vault-tree"@ != "addbm"@,
        "vault-tree"@ != "mkdir"@,
        "vault-tree"@ != "rename"@,
        "vault-tree"@ != "move"@,
        "vault-tree"@ != "rm"@,
        "vault-tree"@ != "children"@,
        "vault-tree"@ != "vault-status"@,
        "vault-tree"@ != "vault-create"@,
        "vault-mkdir"@ != "serve"@,
        "vault-mkdir"@ != "init"@,
        "vault-mkdir"@ != "tree"@,
        "vault-mkdir"@ != "list"@,
        "vault-mkdir"@ != "add"@,
        "vault-mkdir"@ != "addbm"@,
        "vault-mkdir"@ != "mkdir"@,
        "vault-mkdir"@ != "rename"@,
        "vault-mkdir"@ != "move"@,
        "vault-mkdir"@ != "rm"@,
        "vault-mkdir"@ != "children"@,
        "vault-mkdir"@ != "vault-status"@,
        "vault-mkdir"@ != "vault-create"@,
        "vault-mkdir"@ != "vault-tree"@,
        "vault-add"@ != "serve"@,
        "vault-add"@ != "init"@,
        "vault-add"@ != "tree"@,
        "vault-add"@ != "list"@,
        "vault-add"@ != "add"@,
        "vault-add"@ != "addbm"@,
        "vault-add"@ != "mkdir"@,
        "vault-add"@ != "rename"@,
        "vault-add"@ != "move"@,
        "vault-add"@ != "rm"@,
        "vault-add"@ != "children"@,
        "vault-add"@ != "vault-status"@,
        "vault-add"@ != "vault-create"@,
        "vault-add"@ != "vault-tree"@,
        "vault-add"@ != "vault-mkdir"@,
{
    reveal_strlit("serve");
    reveal_strlit("init");
    reveal_strlit("tree");
    reveal_strlit("list");
    reveal_strlit("add");
    reveal_strlit("addbm");
    reveal_strlit("mkdir");
    reveal_strlit("rename");
    reveal_strlit("move");
    reveal_strlit("rm");
    reveal_strlit("children");
    reveal_strlit("vault-status");
    reveal_strlit("vault-create");
    reveal_strlit("vault-tree");
    reveal_strlit("vault-mkdir");
    reveal_strlit("vault-add");
    assert("serve"@.len() == 5);
    assert("init"@.len() == 4);
    assert("tree"@.len() == 4);
    assert("list"@.len() == 4);
    assert("add"@.len() == 3);
    assert("addbm"@.len() == 5);
    assert("mkdir"@.len() == 5);
    assert("rename"@.len() == 6);
    assert("move"@.len() == 4);
    assert("rm"@.len() == 2);
    assert("children"@.len() == 8);
    assert("vault-status"@.len() == 12);
    assert("vault-create"@.len() == 12);
    assert("vault-tree"@.len() == 10);
    assert("vault-mkdir"@.len() == 11);
    assert("vault-add"@.len() == 9);
    assert("tree"@[0] != "init"@[0]);
    assert("list"@[0] != "init"@[0]);
    assert("list"@[0] != "tree"@[0]);
    assert("addbm"@[0] != "serve"@[0]);
    assert("mkdir"@[0] != "serve"@[0]);
    assert("mkdir"@[0] != "addbm"@[0]);
    assert("move"@[0] != "init"@[0]);
    assert("move"@[0] != "tree"@[0]);
    assert("move"@[0] != "list"@[0]);
    assert("vault-create"@[6] != "vault-status"@[6]);
}

/// The words of a command: its name, and what follows.
pub open spec fn words(name: Seq<char>, rest: Seq<Seq<char>>) -> Seq<Seq<char>> {
    seq![name] + rest
}

/// An option with its number.
pub open spec fn option(flag: Seq<char>, v: Option<i64>) -> Seq<Seq<char>> {
    match v {
        Some(n) => seq![flag, crate::text::decimal(n as int)],
        None => seq![],
    }
}

proof fn lemma_words(name: Seq<char>, rest: Seq<Seq<char>>)
    ensures
        crate::cli::command_in(words(name, rest)) == crate::cli::command_named(name, rest),
{
    assert(words(name, rest).skip(1) =~= rest);
}

proof fn lemma_option(a: Seq<Seq<char>>, flag: Seq<char>, v: Option<i64>, b: Seq<Seq<char>>)
    requires
        !(a + b).contains(flag),
    ensures
        crate::cli::flag_taken(a + option(flag, v) + b, flag) == Ok::<_, Seq<char>>((v, a + b)),
{
    assert forall|i: int| 0 <= i < a.len() implies a[i] != flag by {
        assert((a + b)[i] == a[i]);
        assert((a + b).contains((a + b)[i]));
    }
    assert forall|i: int| 0 <= i < b.len() implies b[i] != flag by {
        assert((a + b)[a.len() + i] == b[i]);
        assert((a + b).contains((a + b)[a.len() + i]));
    }
    match v {
        Some(n) => {
            lemma_option_taken(a, flag, n, b);
        },
        None => {
            assert(a + option(flag, v) + b =~= a + b);
            lemma_option_absent(a + b, flag);
        },
    }
}

/// `mkdir` and `vault-mkdir` take a title and, before or behind it, the folder; `mkdir`
/// works on the open tree, `vault-mkdir` on the hidden one.
pub proof fn lemma_mkdir_words(
    a: Seq<Seq<char>>,
    parent: Option<i64>,
    b: Seq<Seq<char>>,
    title: Seq<char>,
)
    requires
        a + b == seq![title],
        title != "--parent"@,
    ensures
        crate::cli::command_in(words("mkdir"@, a + option("--parent"@, parent) + b)) == Ok::<
            _,
            CliErrorView,
        >(CommandView::Mkdir(parent, title)),
        crate::cli::command_in(words("vault-mkdir"@, a + option("--parent"@, parent) + b)) == Ok::<
            _,
            CliErrorView,
        >(CommandView::VaultMkdir(parent, title)),
{
    let rest = a + option("--parent"@, parent) + b;
    lemma_names_differ();
    lemma_words("mkdir"@, rest);
    lemma_words("vault-mkdir"@, rest);
    assert((a + b)[0] == title);
    lemma_option(a, "--parent"@, parent, b);
}

/// `add`, which is also called `addbm`, and `vault-add` take a title and then a URL, and
/// somewhere among them the folder.
pub proof fn lemma_add_words(
    a: Seq<Seq<char>>,
    parent: Option<i64>,
    b: Seq<Seq<char>>,
    title: Seq<char>,
    url: Seq<char>,
)
    requires
        a + b == seq![title, url],
        title != "--parent"@,
        url != "--parent"@,
    ensures
        crate::cli::command_in(words("add"@, a + option("--parent"@, parent) + b)) == Ok::<
            _,
            CliErrorView,
        >(CommandView::Add(parent, title, url)),
        crate::cli::command_in(words("addbm"@, a + option("--parent"@, parent) + b)) == Ok::<
            _,
            CliErrorView,
        >(CommandView::Add(parent, title, url)),
        crate::cli::command_in(words("vault-add"@, a + option("--parent"@, parent) + b)) == Ok::<
            _,
            CliErrorView,
        >(CommandView::VaultAdd(parent, title, url)),
{
    let rest = a + option("--parent"@, parent) + b;
    lemma_names_differ();
    lemma_words("add"@, rest);
    lemma_words("addbm"@, rest);
    lemma_words("vault-add"@, rest);
    assert((a + b)[0] == title && (a + b)[1] == url);
    lemma_option(a, "--parent"@, parent, b);
}

/// `rename` takes an id and then a title, `rm` an id.
pub proof fn lemma_rename_and_rm_words(id: i64, title: Seq<char>)
    ensures
        crate::cli::command_in(
            words("rename"@, seq![crate::text::decimal(id as int), title]),
        ) == Ok::<_, CliErrorView>(CommandView::Rename(id, title)),
        crate::cli::command_in(words("rm"@, seq![crate::text::decimal(id as int)])) == Ok::<
            _,
            CliErrorView,
        >(CommandView::Rm(id)),
{
    lemma_names_differ();
    lemma_words("rename"@, seq![crate::text::decimal(id as int), title]);
    lemma_words("rm"@, seq![crate::text::decimal(id as int)]);
    lemma_decimal_reads_back(id);
}

/// `move` takes the id of the node and then that of the folder, and somewhere among them
/// the position.
pub proof fn lemma_move_words(
    a: Seq<Seq<char>>,
    position: Option<i64>,
    b: Seq<Seq<char>>,
    id: i64,
    under: i64,
)
    requires
        a + b == seq![crate::text::decimal(id as int), crate::text::decimal(under as int)],
    ensures
        crate::cli::command_in(words("move"@, a + option("--pos"@, position) + b)) == Ok::<
            _,
            CliErrorView,
        >(CommandView::Move(id, under, position)),
{
    let rest = a + option("--pos"@, position) + b;
    lemma_names_differ();
    lemma_words("move"@, rest);
    lemma_decimal_reads_back(id);
    lemma_decimal_reads_back(under);
    lemma_options_are_no_numbers();
    assert((a + b)[0] == crate::text::decimal(id as int));
    assert((a + b)[1] == crate::text::decimal(under as int));
    lemma_option(a, "--pos"@, position, b);
}

proof fn lemma_option_words(flag: Seq<char>, v: Option<i64>)
    ensures
        forall|w: Seq<char>| #[trigger]
            option(flag, v).contains(w) ==> w == flag || crate::cli::arg_number(w) is Some,
        option(flag, v).len() == 0 || option(flag, v).len() == 2,
{
    if let Some(n) = v {
        lemma_decimal_reads_back(n);
    }
}

proof fn lemma_none_of(a: Seq<Seq<char>>, b: Seq<Seq<char>>, w: Seq<char>)
    requires
        !a.contains(w),
        !b.contains(w),
    ensures
        !(a + b).contains(w),
{
    if (a + b).contains(w) {
        let i = choose|i: int| 0 <= i < (a + b).len() && (a + b)[i] == w;
        if i < a.len() {
            assert(a.contains(a[i]));
        } else {
            assert(b.contains(b[i - a.len()]));
        }
    }
}

/// `children` takes the folder, the limit and the offset, each of which may be left out:
/// then it is the root, 200 nodes, from the first.
pub proof fn lemma_children_words(parent: Option<i64>, limit: Option<i64>, offset: Option<i64>)
    ensures
        crate::cli::command_in(
            words(
                "children"@,
                option("--parent"@, parent) + option("--limit"@, limit) + option(
                    "--offset"@,
                    offset,
                ),
            ),
        ) == Ok::<_, CliErrorView>(
            CommandView::Children(
                parent,
                match limit {
                    Some(n) => n,
                    None => 200,
                },
                match offset {
                    Some(n) => n,
                    None => 0,
                },
            ),
        ),
{
    let p = option("--parent"@, parent);
    let l = option("--limit"@, limit);
    let o = option("--offset"@, offset);
    let rest = p + l + o;
    lemma_names_differ();
    lemma_words("children"@, rest);
    lemma_options_are_no_numbers();
    if let Some(n) = parent {
        lemma_decimal_reads_back(n);
    }
    if let Some(n) = limit {
        lemma_decimal_reads_back(n);
    }
    if let Some(n) = offset {
        lemma_decimal_reads_back(n);
    }
    reveal_strlit("--parent");
    reveal_strlit("--limit");
    reveal_strlit("--offset");
    assert("--parent"@.len() == 8 && "--limit"@.len() == 7 && "--offset"@.len() == 8);
    assert("--parent"@[2] != "--offset"@[2]);
    let e: Seq<Seq<char>> = seq![];
    lemma_option_words("--parent"@, parent);
    lemma_option_words("--limit"@, limit);
    lemma_option_words("--offset"@, offset);
    lemma_none_of(l, o, "--parent"@);
    lemma_none_of(p, o, "--limit"@);
    lemma_none_of(p, e, "--offset"@);
    assert(rest =~= e + p + (l + o));
    assert(e + (l + o) =~= l + o);
    lemma_option(e, "--parent"@, parent, l + o);
    assert(rest =~= p + l + o);
    lemma_option(p, "--limit"@, limit, o);
    assert(p + o =~= p + o + e);
    assert(p + e =~= p);
    lemma_option(p, "--offset"@, offset, e);
}

/// The names without words behind them, and the origin that a browser hands over.
pub proof fn lemma_plain_words(rest: Seq<Seq<char>>, origin: Seq<char>)
    ensures
        crate::cli::command_in(words("serve"@, rest)) == Ok::<_, CliErrorView>(CommandView::Serve),
        crate::cli::command_in(words("init"@, rest)) == Ok::<_, CliErrorView>(CommandView::Init),
        crate::cli::command_in(words("tree"@, rest)) == Ok::<_, CliErrorView>(CommandView::Tree),
        crate::cli::command_in(words("list"@, rest)) == Ok::<_, CliErrorView>(CommandView::List),
        crate::cli::command_in(words("vault-status"@, rest)) == Ok::<_, CliErrorView>(
            CommandView::VaultStatus,
        ),
        crate::cli::command_in(words("vault-create"@, rest)) == Ok::<_, CliErrorView>(
            CommandView::VaultCreate,
        ),
        crate::cli::command_in(words("vault-tree"@, rest)) == Ok::<_, CliErrorView>(
            CommandView::VaultTree,
        ),
        crate::cli::command_in(words("chrome-extension://"@ + origin, rest)) == Ok::<
            _,
            CliErrorView,
        >(CommandView::Serve),
        crate::cli::command_in(words("moz-extension://"@ + origin, rest)) == Ok::<_, CliErrorView>(
            CommandView::Serve,
        ),
        crate::cli::command_in(seq![]) == Err::<CommandView, _>(CliErrorView::NoCommand),
{
    lemma_names_differ();
    lemma_words("serve"@, rest);
    lemma_words("init"@, rest);
    lemma_words("tree"@, rest);
    lemma_words("list"@, rest);
    lemma_words("vault-status"@, rest);
    lemma_words("vault-create"@, rest);
    lemma_words("vault-tree"@, rest);
    lemma_origin("chrome-extension://"@, origin, rest);
    lemma_origin("moz-extension://"@, origin, rest);
}

proof fn lemma_origin(scheme: Seq<char>, origin: Seq<char>, rest: Seq<Seq<char>>)
    requires
        scheme == "chrome-extension://"@ || scheme == "moz-extension://"@,
    ensures
        crate::cli::command_in(words(scheme + origin, rest)) == Ok::<_, CliErrorView>(
            CommandView::Serve,
        ),
{
    let name = scheme + origin;
    lemma_words(name, rest);
    reveal_strlit("chrome-extension://");
    reveal_strlit("moz-extension://");
    assert(scheme.is_prefix_of(name));
    assert(name.len() >= 16);
    assert(name[0] == scheme[0] && name[1] == scheme[1]);
    reveal_strlit("serve");
    reveal_strlit("init");
    reveal_strlit("tree");
    reveal_strlit("list");
    reveal_strlit("add");
    reveal_strlit("addbm");
    reveal_strlit("mkdir");
    reveal_strlit("rename");
    reveal_strlit("move");
    reveal_strlit("rm");
    reveal_strlit("children");
    reveal_strlit("vault-status");
    reveal_strlit("vault-create");
    reveal_strlit("vault-tree");
    reveal_strlit("vault-mkdir");
    reveal_strlit("vault-add");
}

/// Any other name is unknown.
pub proof fn lemma_unknown_words(name: Seq<char>, rest: Seq<Seq<char>>)
    requires
        name != "serve"@,
        name != "init"@,
        name != "tree"@,
        name != "list"@,
        name != "add"@,
        name != "addbm"@,
        name != "mkdir"@,
        name != "rename"@,
        name != "move"@,
        name != "rm"@,
        name != "children"@,
        name != "vault-status"@,
        name != "vault-create"@,
        name != "vault-tree"@,
        name != "vault-mkdir"@,
        name != "vault-add"@,
        !"chrome-extension://"@.is_prefix_of(name),
        !"moz-extension://"@.is_prefix_of(name),
    ensures
        crate::cli::command_in(words(name, rest)) == Err::<CommandView, _>(
            CliErrorView::Unknown(name),
        ),
{
    lemma_words(name, rest);
}

/// The answer to words that do not fit a command.
pub open spec fn misused(usage: Seq<char>) -> Result<CommandView, CliErrorView> {
    Err(CliErrorView::Arguments(usage))
}

/// Too few words, or too many, are answered with how the command is used.
pub proof fn lemma_word_count(rest: Seq<Seq<char>>)
    requires
        !rest.contains("--parent"@),
        !rest.contains("--pos"@),
    ensures
        rest.len() != 1 ==> crate::cli::command_in(words("mkdir"@, rest)) == misused(
            "usage: hecate mkdir <title> [--parent ID]"@,
        ),
        rest.len() != 1 ==> crate::cli::command_in(words("vault-mkdir"@, rest)) == misused(
            "usage: hecate vault-mkdir <title> [--parent ID]  (phrase on stdin)"@,
        ),
        rest.len() != 2 ==> crate::cli::command_in(words("add"@, rest)) == misused(
            "usage: hecate add <title> <url> [--parent ID]"@,
        ),
        rest.len() != 2 ==> crate::cli::command_in(words("vault-add"@, rest)) == misused(
            "usage: hecate vault-add <title> <url> [--parent ID]  (phrase on stdin)"@,
        ),
        rest.len() != 2 ==> crate::cli::command_in(words("rename"@, rest)) == misused(
            "usage: hecate rename <id> <title>"@,
        ),
        rest.len() != 2 ==> crate::cli::command_in(words("move"@, rest)) == misused(
            "usage: hecate move <id> <new_parent> [--pos N]"@,
        ),
        rest.len() != 1 ==> crate::cli::command_in(words("rm"@, rest)) == misused(
            "usage: hecate rm <id>"@,
        ),
{
    lemma_names_differ();
    lemma_words("mkdir"@, rest);
    lemma_words("vault-mkdir"@, rest);
    lemma_words("add"@, rest);
    lemma_words("vault-add"@, rest);
    lemma_words("rename"@, rest);
    lemma_words("move"@, rest);
    lemma_words("rm"@, rest);
    lemma_option_absent(rest, "--parent"@);
    lemma_option_absent(rest, "--pos"@);
}

/// A word that should be an id and is no number is named in the answer.
pub proof fn lemma_id_words(word: Seq<char>, title: Seq<char>, id: i64)
    requires
        crate::text::number_in(word, true, -0x8000_0000_0000_0000, 0x7fff_ffff_ffff_ffff) is None,
        word != "--pos"@,
    ensures
        crate::cli::command_in(words("rm"@, seq![word])) == misused("invalid id: "@ + word),
        crate::cli::command_in(words("rename"@, seq![word, title])) == misused(
            "invalid id: "@ + word,
        ),
        crate::cli::command_in(words("move"@, seq![word, crate::text::decimal(id as int)]))
            == misused("invalid id: "@ + word),
        crate::cli::command_in(words("move"@, seq![crate::text::decimal(id as int), word]))
            == misused("invalid id: "@ + word),
{
    lemma_names_differ();
    let d = crate::text::decimal(id as int);
    lemma_decimal_reads_back(id);
    lemma_options_are_no_numbers();
    lemma_words("rm"@, seq![word]);
    lemma_words("rename"@, seq![word, title]);
    lemma_words("move"@, seq![word, d]);
    lemma_words("move"@, seq![d, word]);
    lemma_option_absent(seq![word, d], "--pos"@);
    lemma_option_absent(seq![d, word], "--pos"@);
}

} // verus!
