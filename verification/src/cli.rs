//! The command line: what the arguments ask for.

use vstd::prelude::*;
use crate::serve::DEFAULT_LIMIT;

verus! {

/// What a command line asks for.
#[derive(Debug)]
pub enum Command {
    /// The native-messaging loop.
    Serve,
    Init,
    Tree,
    List,
    Add(Option<i64>, String, String),
    Mkdir(Option<i64>, String),
    Rename(i64, String),
    Move(i64, i64, Option<i64>),
    Rm(i64),
    Children(Option<i64>, i64, i64),
    VaultStatus,
    VaultCreate,
    VaultTree,
    VaultMkdir(Option<i64>, String),
    VaultAdd(Option<i64>, String, String),
}

/// What a [`Command`] holds.
#[verifier::ext_equal]
pub enum CommandView {
    Serve,
    Init,
    Tree,
    List,
    Add(Option<i64>, Seq<char>, Seq<char>),
    Mkdir(Option<i64>, Seq<char>),
    Rename(i64, Seq<char>),
    Move(i64, i64, Option<i64>),
    Rm(i64),
    Children(Option<i64>, i64, i64),
    VaultStatus,
    VaultCreate,
    VaultTree,
    VaultMkdir(Option<i64>, Seq<char>),
    VaultAdd(Option<i64>, Seq<char>, Seq<char>),
}

impl View for Command {
    type V = CommandView;

    open spec fn view(&self) -> CommandView {
        match self {
            Command::Serve => CommandView::Serve,
            Command::Init => CommandView::Init,
            Command::Tree => CommandView::Tree,
            Command::List => CommandView::List,
            Command::Add(p, t, u) => CommandView::Add(*p, t@, u@),
            Command::Mkdir(p, t) => CommandView::Mkdir(*p, t@),
            Command::Rename(id, t) => CommandView::Rename(*id, t@),
            Command::Move(id, p, n) => CommandView::Move(*id, *p, *n),
            Command::Rm(id) => CommandView::Rm(*id),
            Command::Children(p, l, o) => CommandView::Children(*p, *l, *o),
            Command::VaultStatus => CommandView::VaultStatus,
            Command::VaultCreate => CommandView::VaultCreate,
            Command::VaultTree => CommandView::VaultTree,
            Command::VaultMkdir(p, t) => CommandView::VaultMkdir(*p, t@),
            Command::VaultAdd(p, t, u) => CommandView::VaultAdd(*p, t@, u@),
        }
    }
}

/// Why a command line is refused.
#[derive(Debug)]
pub enum CliError {
    /// There is no command.
    NoCommand,
    /// There is no such command.
    Unknown(String),
    /// The arguments do not fit the command.
    Arguments(String),
}

/// What a [`CliError`] holds.
#[verifier::ext_equal]
pub enum CliErrorView {
    NoCommand,
    Unknown(Seq<char>),
    Arguments(Seq<char>),
}

impl View for CliError {
    type V = CliErrorView;

    open spec fn view(&self) -> CliErrorView {
        match self {
            CliError::NoCommand => CliErrorView::NoCommand,
            CliError::Unknown(c) => CliErrorView::Unknown(c@),
            CliError::Arguments(m) => CliErrorView::Arguments(m@),
        }
    }
}

/// The characters of the arguments.
pub open spec fn arg_texts(args: Seq<String>) -> Seq<Seq<char>> {
    Seq::new(args.len(), |i: int| args[i]@)
}

/// The argument is the origin that a browser passes to a native-messaging host.
pub open spec fn extension_origin(arg: Seq<char>) -> bool {
    "chrome-extension://"@.is_prefix_of(arg) || "moz-extension://"@.is_prefix_of(arg)
}

/// Whether the argument is the origin that a browser passes to a native-messaging host,
/// in the place of a command.
pub fn is_extension_origin(arg: &str) -> (r: bool)
    ensures
        r == extension_origin(arg@),
{
    crate::text::starts_with(arg, "chrome-extension://") || crate::text::starts_with(
        arg,
        "moz-extension://",
    )
}

/// A number as an argument gives it.
pub open spec fn arg_number(s: Seq<char>) -> Option<i64> {
    match crate::text::number_in(s, true, i64::MIN as int, i64::MAX as int) {
        Some(n) => Some(n as i64),
        None => None,
    }
}

/// The value of `flag` in the arguments, and the arguments without it; the last value
/// counts. An error where a value is missing or is no number.
pub open spec fn flag_taken(args: Seq<Seq<char>>, flag: Seq<char>) -> Result<
    (Option<i64>, Seq<Seq<char>>),
    Seq<char>,
>
    decreases args.len(),
{
    if args.len() == 0 {
        Ok((None, seq![]))
    } else if args[0] == flag {
        if args.len() == 1 {
            Err(flag + " requires a value"@)
        } else {
            match arg_number(args[1]) {
                None => Err(flag + " value must be a number"@),
                Some(v) => match flag_taken(args.skip(2), flag) {
                    Err(e) => Err(e),
                    Ok((later, rest)) => Ok(
                        (
                            if later is Some {
                                later
                            } else {
                                Some(v)
                            },
                            rest,
                        ),
                    ),
                },
            }
        }
    } else {
        match flag_taken(args.skip(1), flag) {
            Err(e) => Err(e),
            Ok((v, rest)) => Ok((v, seq![args[0]] + rest)),
        }
    }
}

/// What is known of `flag_taken` once some arguments in front are gone through.
spec fn flag_joined(
    value: Option<i64>,
    front: Seq<Seq<char>>,
    back: Result<(Option<i64>, Seq<Seq<char>>), Seq<char>>,
) -> Result<(Option<i64>, Seq<Seq<char>>), Seq<char>> {
    match back {
        Err(e) => Err(e),
        Ok((later, rest)) => Ok(
            (
                if later is Some {
                    later
                } else {
                    value
                },
                front + rest,
            ),
        ),
    }
}

/// Takes an optional `--flag VALUE` out of the arguments. Returns the value and the
/// other arguments.
pub fn take_flag(args: &Vec<String>, flag: &str) -> (r: Result<(Option<i64>, Vec<String>), String>)
    ensures
        match (r, flag_taken(arg_texts(args@), flag@)) {
            (Ok((v, rest)), Ok((w, s))) => v == w && arg_texts(rest@) == s,
            (Err(e), Err(m)) => e@ == m,
            _ => false,
        },
{
    let ghost all = arg_texts(args@);
    let ghost want = flag_taken(all, flag@);
    let mut value: Option<i64> = None;
    let mut rest: Vec<String> = Vec::new();
    let mut i: usize = 0;
    assert(all.skip(0) =~= all);
    assert(want == flag_joined(None, arg_texts(rest@), flag_taken(all.skip(0), flag@))) by {
        assert(arg_texts(rest@) =~= seq![]);
        if let Ok((v, s)) = want {
            assert(arg_texts(rest@) + s =~= s);
        }
    }
    while i < args.len()
        invariant
            all == arg_texts(args@),
            want == flag_taken(all, flag@),
            i <= args@.len(),
            want == flag_joined(value, arg_texts(rest@), flag_taken(all.skip(i as int), flag@)),
        decreases args@.len() - i,
    {
        let ghost left = all.skip(i as int);
        assert(left[0] == args@[i as int]@);
        let ghost before = arg_texts(rest@);
        if crate::text::same_text(args[i].as_str(), flag) {
            if i + 1 >= args.len() {
                return Err(crate::error::joined(flag, " requires a value"));
            }
            assert(left[1] == args@[i + 1]@);
            match crate::text::parse_i64(args[i + 1].as_str()) {
                None => {
                    return Err(crate::error::joined(flag, " value must be a number"));
                },
                Some(v) => {
                    value = Some(v);
                },
            }
            assert(left.skip(2) =~= all.skip(i + 2));
            i = i + 2;
        } else {
            let one = args[i].clone();
            rest.push(one);
            proof {
                assert(left.skip(1) =~= all.skip(i + 1));
                assert(arg_texts(rest@) =~= before.push(left[0]));
                if let Ok((v, s)) = flag_taken(all.skip(i + 1), flag@) {
                    assert(before + (seq![left[0]] + s) =~= arg_texts(rest@) + s);
                }
            }
            i = i + 1;
        }
    }
    proof {
        assert(all.skip(i as int).len() == 0);
        assert(arg_texts(rest@) + seq![] =~= arg_texts(rest@));
    }
    Ok((value, rest))
}

/// An id, or why the argument is none.
pub open spec fn arg_id(s: Seq<char>) -> Result<i64, Seq<char>> {
    match arg_number(s) {
        Some(id) => Ok(id),
        None => Err("invalid id: "@ + s),
    }
}

/// Reads an id.
pub fn parse_id(s: &str) -> (r: Result<i64, String>)
    ensures
        match (r, arg_id(s@)) {
            (Ok(a), Ok(b)) => a == b,
            (Err(e), Err(m)) => e@ == m,
            _ => false,
        },
{
    match crate::text::parse_i64(s) {
        Some(id) => Ok(id),
        None => Err(crate::error::joined("invalid id: ", s)),
    }
}

/// A parent and a title.
pub open spec fn folder_args(rest: Seq<Seq<char>>, usage: Seq<char>) -> Result<
    (Option<i64>, Seq<char>),
    Seq<char>,
> {
    match flag_taken(rest, "--parent"@) {
        Err(e) => Err(e),
        Ok((parent, pos)) => if pos.len() == 1 {
            Ok((parent, pos[0]))
        } else {
            Err(usage)
        },
    }
}

/// A parent, a title and a URL.
pub open spec fn bookmark_args(rest: Seq<Seq<char>>, usage: Seq<char>) -> Result<
    (Option<i64>, Seq<char>, Seq<char>),
    Seq<char>,
> {
    match flag_taken(rest, "--parent"@) {
        Err(e) => Err(e),
        Ok((parent, pos)) => if pos.len() == 2 {
            Ok((parent, pos[0], pos[1]))
        } else {
            Err(usage)
        },
    }
}

/// An id and a title.
pub open spec fn rename_args(rest: Seq<Seq<char>>) -> Result<(i64, Seq<char>), Seq<char>> {
    if rest.len() == 2 {
        match arg_id(rest[0]) {
            Ok(id) => Ok((id, rest[1])),
            Err(e) => Err(e),
        }
    } else {
        Err("usage: hecate rename <id> <title>"@)
    }
}

/// An id, a new parent and a position.
pub open spec fn move_args(rest: Seq<Seq<char>>) -> Result<(i64, i64, Option<i64>), Seq<char>> {
    match flag_taken(rest, "--pos"@) {
        Err(e) => Err(e),
        Ok((position, pos)) => if pos.len() == 2 {
            match (arg_id(pos[0]), arg_id(pos[1])) {
                (Err(e), _) => Err(e),
                (_, Err(e)) => Err(e),
                (Ok(id), Ok(parent)) => Ok((id, parent, position)),
            }
        } else {
            Err("usage: hecate move <id> <new_parent> [--pos N]"@)
        },
    }
}

/// An id.
pub open spec fn rm_args(rest: Seq<Seq<char>>) -> Result<i64, Seq<char>> {
    if rest.len() == 1 {
        arg_id(rest[0])
    } else {
        Err("usage: hecate rm <id>"@)
    }
}

/// A parent, a page size and an offset; anything else is passed over.
pub open spec fn children_args(rest: Seq<Seq<char>>) -> Result<(Option<i64>, i64, i64), Seq<char>> {
    match flag_taken(rest, "--parent"@) {
        Err(e) => Err(e),
        Ok((parent, _)) => match flag_taken(rest, "--limit"@) {
            Err(e) => Err(e),
            Ok((limit, others)) => match flag_taken(others, "--offset"@) {
                Err(e) => Err(e),
                Ok((offset, _)) => Ok(
                    (
                        parent,
                        match limit {
                            Some(n) => n,
                            None => DEFAULT_LIMIT,
                        },
                        match offset {
                            Some(n) => n,
                            None => 0,
                        },
                    ),
                ),
            },
        },
    }
}

fn read_folder_args(rest: &Vec<String>, usage: &str) -> (r: Result<(Option<i64>, String), String>)
    ensures
        match (r, folder_args(arg_texts(rest@), usage@)) {
            (Ok((p, t)), Ok((q, s))) => p == q && t@ == s,
            (Err(e), Err(m)) => e@ == m,
            _ => false,
        },
{
    match take_flag(rest, "--parent") {
        Err(e) => Err(e),
        Ok((parent, pos)) => {
            if pos.len() != 1 {
                return Err(usage.to_owned());
            }
            assert(arg_texts(pos@)[0] == pos@[0]@);
            Ok((parent, pos[0].clone()))
        },
    }
}

fn read_bookmark_args(rest: &Vec<String>, usage: &str) -> (r: Result<
    (Option<i64>, String, String),
    String,
>)
    ensures
        match (r, bookmark_args(arg_texts(rest@), usage@)) {
            (Ok((p, t, u)), Ok((q, s, v))) => p == q && t@ == s && u@ == v,
            (Err(e), Err(m)) => e@ == m,
            _ => false,
        },
{
    match take_flag(rest, "--parent") {
        Err(e) => Err(e),
        Ok((parent, pos)) => {
            if pos.len() != 2 {
                return Err(usage.to_owned());
            }
            assert(arg_texts(pos@)[0] == pos@[0]@ && arg_texts(pos@)[1] == pos@[1]@);
            Ok((parent, pos[0].clone(), pos[1].clone()))
        },
    }
}

fn read_rename_args(rest: &Vec<String>) -> (r: Result<(i64, String), String>)
    ensures
        match (r, rename_args(arg_texts(rest@))) {
            (Ok((a, t)), Ok((b, s))) => a == b && t@ == s,
            (Err(e), Err(m)) => e@ == m,
            _ => false,
        },
{
    if rest.len() != 2 {
        return Err("usage: hecate rename <id> <title>".to_owned());
    }
    assert(arg_texts(rest@)[0] == rest@[0]@ && arg_texts(rest@)[1] == rest@[1]@);
    match parse_id(rest[0].as_str()) {
        Err(e) => Err(e),
        Ok(id) => Ok((id, rest[1].clone())),
    }
}

fn read_move_args(rest: &Vec<String>) -> (r: Result<(i64, i64, Option<i64>), String>)
    ensures
        match (r, move_args(arg_texts(rest@))) {
            (Ok(a), Ok(b)) => a == b,
            (Err(e), Err(m)) => e@ == m,
            _ => false,
        },
{
    match take_flag(rest, "--pos") {
        Err(e) => Err(e),
        Ok((position, pos)) => {
            if pos.len() != 2 {
                return Err("usage: hecate move <id> <new_parent> [--pos N]".to_owned());
            }
            assert(arg_texts(pos@)[0] == pos@[0]@ && arg_texts(pos@)[1] == pos@[1]@);
            match parse_id(pos[0].as_str()) {
                Err(e) => Err(e),
                Ok(id) => match parse_id(pos[1].as_str()) {
                    Err(e) => Err(e),
                    Ok(parent) => Ok((id, parent, position)),
                },
            }
        },
    }
}

fn read_rm_args(rest: &Vec<String>) -> (r: Result<i64, String>)
    ensures
        match (r, rm_args(arg_texts(rest@))) {
            (Ok(a), Ok(b)) => a == b,
            (Err(e), Err(m)) => e@ == m,
            _ => false,
        },
{
    if rest.len() != 1 {
        return Err("usage: hecate rm <id>".to_owned());
    }
    assert(arg_texts(rest@)[0] == rest@[0]@);
    parse_id(rest[0].as_str())
}

fn read_children_args(rest: &Vec<String>) -> (r: Result<(Option<i64>, i64, i64), String>)
    ensures
        match (r, children_args(arg_texts(rest@))) {
            (Ok(a), Ok(b)) => a == b,
            (Err(e), Err(m)) => e@ == m,
            _ => false,
        },
{
    let parent: Option<i64> = match take_flag(rest, "--parent") {
        Err(e) => {
            return Err(e);
        },
        Ok((p, _)) => p,
    };
    match take_flag(rest, "--limit") {
        Err(e) => Err(e),
        Ok((limit, others)) => match take_flag(&others, "--offset") {
            Err(e) => Err(e),
            Ok((offset, _)) => Ok(
                (
                    parent,
                    match limit {
                        Some(n) => n,
                        None => DEFAULT_LIMIT,
                    },
                    match offset {
                        Some(n) => n,
                        None => 0,
                    },
                ),
            ),
        },
    }
}

/// What the command `name` with the arguments `rest` asks for.
pub open spec fn command_named(name: Seq<char>, rest: Seq<Seq<char>>) -> Result<
    CommandView,
    CliErrorView,
> {
    if name == "serve"@ {
        Ok(CommandView::Serve)
    } else if name == "init"@ {
        Ok(CommandView::Init)
    } else if name == "tree"@ {
        Ok(CommandView::Tree)
    } else if name == "list"@ {
        Ok(CommandView::List)
    } else if name == "add"@ || name == "addbm"@ {
        match bookmark_args(rest, "usage: hecate add <title> <url> [--parent ID]"@) {
            Ok((p, t, u)) => Ok(CommandView::Add(p, t, u)),
            Err(m) => Err(CliErrorView::Arguments(m)),
        }
    } else if name == "mkdir"@ {
        match folder_args(rest, "usage: hecate mkdir <title> [--parent ID]"@) {
            Ok((p, t)) => Ok(CommandView::Mkdir(p, t)),
            Err(m) => Err(CliErrorView::Arguments(m)),
        }
    } else if name == "rename"@ {
        match rename_args(rest) {
            Ok((id, t)) => Ok(CommandView::Rename(id, t)),
            Err(m) => Err(CliErrorView::Arguments(m)),
        }
    } else if name == "move"@ {
        match move_args(rest) {
            Ok((id, p, n)) => Ok(CommandView::Move(id, p, n)),
            Err(m) => Err(CliErrorView::Arguments(m)),
        }
    } else if name == "rm"@ {
        match rm_args(rest) {
            Ok(id) => Ok(CommandView::Rm(id)),
            Err(m) => Err(CliErrorView::Arguments(m)),
        }
    } else if name == "children"@ {
        match children_args(rest) {
            Ok((p, l, o)) => Ok(CommandView::Children(p, l, o)),
            Err(m) => Err(CliErrorView::Arguments(m)),
        }
    } else if name == "vault-status"@ {
        Ok(CommandView::VaultStatus)
    } else if name == "vault-create"@ {
        Ok(CommandView::VaultCreate)
    } else if name == "vault-tree"@ {
        Ok(CommandView::VaultTree)
    } else if name == "vault-mkdir"@ {
        match folder_args(
            rest,
            "usage: hecate vault-mkdir <title> [--parent ID]  (phrase on stdin)"@,
        ) {
            Ok((p, t)) => Ok(CommandView::VaultMkdir(p, t)),
            Err(m) => Err(CliErrorView::Arguments(m)),
        }
    } else if name == "vault-add"@ {
        match bookmark_args(
            rest,
            "usage: hecate vault-add <title> <url> [--parent ID]  (phrase on stdin)"@,
        ) {
            Ok((p, t, u)) => Ok(CommandView::VaultAdd(p, t, u)),
            Err(m) => Err(CliErrorView::Arguments(m)),
        }
    } else if extension_origin(name) {
        Ok(CommandView::Serve)
    } else {
        Err(CliErrorView::Unknown(name))
    }
}

/// What the command line asks for.
pub open spec fn command_in(args: Seq<Seq<char>>) -> Result<CommandView, CliErrorView> {
    if args.len() == 0 {
        Err(CliErrorView::NoCommand)
    } else {
        command_named(args[0], args.skip(1))
    }
}

/// The result says what the command line asks for.
pub open spec fn command_is(
    r: Result<Command, CliError>,
    v: Result<CommandView, CliErrorView>,
) -> bool {
    match (r, v) {
        (Ok(c), Ok(d)) => c@ == d,
        (Err(e), Err(f)) => e@ == f,
        _ => false,
    }
}

fn read_named(name: &str, rest: &Vec<String>) -> (r: Result<Command, CliError>)
    ensures
        command_is(r, command_named(name@, arg_texts(rest@))),
{
    if crate::text::same_text(name, "serve") {
        Ok(Command::Serve)
    } else if crate::text::same_text(name, "init") {
        Ok(Command::Init)
    } else if crate::text::same_text(name, "tree") {
        Ok(Command::Tree)
    } else if crate::text::same_text(name, "list") {
        Ok(Command::List)
    } else if crate::text::same_text(name, "add") || crate::text::same_text(name, "addbm") {
        match read_bookmark_args(rest, "usage: hecate add <title> <url> [--parent ID]") {
            Ok((p, t, u)) => Ok(Command::Add(p, t, u)),
            Err(m) => Err(CliError::Arguments(m)),
        }
    } else if crate::text::same_text(name, "mkdir") {
        match read_folder_args(rest, "usage: hecate mkdir <title> [--parent ID]") {
            Ok((p, t)) => Ok(Command::Mkdir(p, t)),
            Err(m) => Err(CliError::Arguments(m)),
        }
    } else if crate::text::same_text(name, "rename") {
        match read_rename_args(rest) {
            Ok((id, t)) => Ok(Command::Rename(id, t)),
            Err(m) => Err(CliError::Arguments(m)),
        }
    } else if crate::text::same_text(name, "move") {
        match read_move_args(rest) {
            Ok((id, p, n)) => Ok(Command::Move(id, p, n)),
            Err(m) => Err(CliError::Arguments(m)),
        }
    } else if crate::text::same_text(name, "rm") {
        match read_rm_args(rest) {
            Ok(id) => Ok(Command::Rm(id)),
            Err(m) => Err(CliError::Arguments(m)),
        }
    } else if crate::text::same_text(name, "children") {
        match read_children_args(rest) {
            Ok((p, l, o)) => Ok(Command::Children(p, l, o)),
            Err(m) => Err(CliError::Arguments(m)),
        }
    } else if crate::text::same_text(name, "vault-status") {
        Ok(Command::VaultStatus)
    } else if crate::text::same_text(name, "vault-create") {
        Ok(Command::VaultCreate)
    } else if crate::text::same_text(name, "vault-tree") {
        Ok(Command::VaultTree)
    } else if crate::text::same_text(name, "vault-mkdir") {
        match read_folder_args(
            rest,
            "usage: hecate vault-mkdir <title> [--parent ID]  (phrase on stdin)",
        ) {
            Ok((p, t)) => Ok(Command::VaultMkdir(p, t)),
            Err(m) => Err(CliError::Arguments(m)),
        }
    } else if crate::text::same_text(name, "vault-add") {
        match read_bookmark_args(
            rest,
            "usage: hecate vault-add <title> <url> [--parent ID]  (phrase on stdin)",
        ) {
            Ok((p, t, u)) => Ok(Command::VaultAdd(p, t, u)),
            Err(m) => Err(CliError::Arguments(m)),
        }
    } else if is_extension_origin(name) {
        Ok(Command::Serve)
    } else {
        Err(CliError::Unknown(name.to_owned()))
    }
}

/// Reads the arguments behind the program's name.
pub fn parse_command(args: &Vec<String>) -> (r: Result<Command, CliError>)
    ensures
        command_is(r, command_in(arg_texts(args@))),
{
    if args.len() == 0 {
        return Err(CliError::NoCommand);
    }
    let mut rest: Vec<String> = Vec::new();
    let mut i: usize = 1;
    while i < args.len()
        invariant
            1 <= i <= args@.len(),
            rest@.len() == i - 1,
            forall|k: int| 0 <= k < i - 1 ==> (#[trigger] rest@[k])@ == args@[k + 1]@,
        decreases args@.len() - i,
    {
        let one = args[i].clone();
        rest.push(one);
        i = i + 1;
    }
    assert(arg_texts(rest@) =~= arg_texts(args@).skip(1));
    assert(arg_texts(args@)[0] == args@[0]@);
    read_named(args[0].as_str(), &rest)
}

} // verus!
