use hecate::cipher::seal_with;
use hecate::cli::{is_extension_origin, parse_command, parse_id, take_flag, CliError, Command};
use hecate::codec;
use hecate::kdf::{derive_key, parse_kdf};
use hecate::migrate::Database;
use hecate::node::{Node, NodeKind, NodeRow};
use hecate::run::{flat_text, line_text, needs_phrase, phrase_of, run_tree, run_vault, tree_text};
use hecate::serve::{bad_request, first_try, handle, is_read, reply_text, respond, Reply, Request, DEFAULT_LIMIT};
use hecate::store::Store;
use hecate::vault::{encode_key, VaultPlaintext, VaultRow, VaultSlot, MAX_WRITE_RETRIES};
use serde_json::Value;

fn mem_store() -> Store {
    let nodes = Store::from_rows(&Vec::new()).unwrap();
    Store::from_conn(Database { user_version: 0, nodes, bookmarks: None }, 0).unwrap()
}

fn decode(bytes: &[u8]) -> Option<VaultPlaintext> {
    let v: Value = serde_json::from_slice(bytes).ok()?;
    let mut nodes = Vec::new();
    for r in v.get("nodes")?.as_array()? {
        nodes.push(NodeRow {
            id: r.get("id")?.as_i64()?,
            parent_id: r.get("parent_id").and_then(|x| x.as_i64()),
            kind: if r.get("kind")?.as_str()? == "folder" {
                NodeKind::Folder
            } else {
                NodeKind::Bookmark
            },
            title: r.get("title")?.as_str()?.to_string(),
            url: r.get("url").and_then(|x| x.as_str()).map(|s| s.to_string()),
            position: r.get("position")?.as_i64()?,
            created: r.get("created")?.as_i64()?,
            modified: r.get("modified")?.as_i64()?,
        });
    }
    Some(VaultPlaintext { v: v.get("v")?.as_u64()? as u8, nodes })
}

/// A new vault whose key is derived at the least cost; returns the key.
fn low_cost_create(slot: &mut VaultSlot, phrase: &str) -> String {
    let kdf = format!("argon2id$v=19$m=8,t=1,p=1${}", codec::encode(&[9u8; 16]));
    let key = derive_key(phrase, &parse_kdf(&kdf).unwrap()).unwrap();
    let nonce = [4u8; 24];
    let mut ad = vec![1u8];
    ad.extend_from_slice(kdf.as_bytes());
    let plain = b"{\"v\":1,\"nodes\":[{\"id\":1,\"parent_id\":null,\"kind\":\"folder\",\"title\":\"Hidden\",\"url\":null,\"position\":0,\"created\":0,\"modified\":0}]}";
    let ciphertext = seal_with(&key, &nonce, &ad, plain).unwrap();
    *slot = VaultSlot::Row(VaultRow { kdf, nonce: nonce.to_vec(), ciphertext, version: 0 });
    encode_key(&key)
}

fn words(line: &str) -> Vec<String> {
    line.split_whitespace().map(|w| w.to_string()).collect()
}

fn ask(store: &mut Store, slot: &mut VaultSlot, req: Request) -> String {
    reply_text(&handle(store, slot, &req, 5, &decode))
}

#[test]
fn recognizes_browser_origins() {
    // The exact shapes browsers pass as argv[1] when launching the host.
    assert!(is_extension_origin(
        "chrome-extension://ldhiobhepncgobiicdghlgnaijokdffg/"
    ));
    assert!(is_extension_origin(
        "moz-extension://2c7d0d2a-1234-4abc-9def-000000000000/"
    ));
}

#[test]
fn does_not_swallow_real_subcommands() {
    for cmd in ["serve", "init", "list", "add", "bogus"] {
        assert!(!is_extension_origin(cmd));
    }
}

#[test]
fn origins_are_routed_to_serve() {
    assert!(matches!(parse_command(&words("moz-extension://x/ id")), Ok(Command::Serve)));
    assert!(matches!(parse_command(&words("chrome-extension:/x")), Err(CliError::Unknown(ref c)) if c == "chrome-extension:/x"));
    assert!(matches!(parse_command(&Vec::new()), Err(CliError::NoCommand)));
}

#[test]
fn commands_are_read() {
    assert!(matches!(parse_command(&words("serve x")), Ok(Command::Serve)));
    assert!(matches!(parse_command(&words("init")), Ok(Command::Init)));
    assert!(matches!(parse_command(&words("tree")), Ok(Command::Tree)));
    assert!(matches!(parse_command(&words("list")), Ok(Command::List)));
    assert!(matches!(parse_command(&words("addbm t u")), Ok(Command::Add(None, ref t, ref u)) if t == "t" && u == "u"));
    assert!(matches!(parse_command(&words("add --parent 4 t u")), Ok(Command::Add(Some(4), _, _))));
    assert!(matches!(parse_command(&words("mkdir t --parent -1")), Ok(Command::Mkdir(Some(-1), _))));
    assert!(matches!(parse_command(&words("rename 3 x")), Ok(Command::Rename(3, ref t)) if t == "x"));
    assert!(matches!(parse_command(&words("move 3 --pos 2 4")), Ok(Command::Move(3, 4, Some(2)))));
    assert!(matches!(parse_command(&words("rm 9")), Ok(Command::Rm(9))));
    assert!(matches!(parse_command(&words("children")), Ok(Command::Children(None, DEFAULT_LIMIT, 0))));
    assert!(matches!(
        parse_command(&words("children --limit 3 --offset 2 --parent 8 more")),
        Ok(Command::Children(Some(8), 3, 2))
    ));
    assert!(matches!(parse_command(&words("vault-status")), Ok(Command::VaultStatus)));
    assert!(matches!(parse_command(&words("vault-create")), Ok(Command::VaultCreate)));
    assert!(matches!(parse_command(&words("vault-tree")), Ok(Command::VaultTree)));
    assert!(matches!(parse_command(&words("vault-mkdir t")), Ok(Command::VaultMkdir(None, _))));
    assert!(matches!(parse_command(&words("vault-add t u")), Ok(Command::VaultAdd(None, _, _))));
    assert!(needs_phrase(&Command::VaultCreate) && needs_phrase(&Command::VaultTree));
    assert!(!needs_phrase(&Command::VaultStatus) && !needs_phrase(&Command::Tree));
}

#[test]
fn bad_arguments_say_why() {
    let why = |line: &str| match parse_command(&words(line)) {
        Err(CliError::Arguments(m)) => m,
        other => panic!("{other:?}"),
    };
    assert_eq!(why("add t"), "usage: hecate add <title> <url> [--parent ID]");
    assert_eq!(why("mkdir"), "usage: hecate mkdir <title> [--parent ID]");
    assert_eq!(why("rename 1"), "usage: hecate rename <id> <title>");
    assert_eq!(why("rename x y"), "invalid id: x");
    assert_eq!(why("move 1"), "usage: hecate move <id> <new_parent> [--pos N]");
    assert_eq!(why("move 1 b"), "invalid id: b");
    assert_eq!(why("move a b"), "invalid id: a");
    assert_eq!(why("rm"), "usage: hecate rm <id>");
    assert_eq!(why("rm 1.5"), "invalid id: 1.5");
    assert_eq!(why("add t u --parent"), "--parent requires a value");
    assert_eq!(why("children --limit x"), "--limit value must be a number");
    assert_eq!(
        why("vault-mkdir"),
        "usage: hecate vault-mkdir <title> [--parent ID]  (phrase on stdin)"
    );
    assert_eq!(
        why("vault-add t"),
        "usage: hecate vault-add <title> <url> [--parent ID]  (phrase on stdin)"
    );
}

#[test]
fn flags_are_taken_out() {
    let (v, rest) = take_flag(&words("a --n 1 b --n 2 c"), "--n").unwrap();
    assert_eq!(v, Some(2));
    assert_eq!(rest, words("a b c"));
    let (v, rest) = take_flag(&words("a b"), "--n").unwrap();
    assert_eq!(v, None);
    assert_eq!(rest, words("a b"));
    assert_eq!(take_flag(&words("--n --n"), "--n").unwrap_err(), "--n value must be a number");
    assert_eq!(parse_id("-12"), Ok(-12));
    assert_eq!(parse_id("12a"), Err("invalid id: 12a".to_string()));
}

#[test]
fn phrases_lose_their_line_end() {
    assert_eq!(phrase_of("pass phrase \r\n\n"), Ok("pass phrase ".to_string()));
    assert_eq!(phrase_of("a\nb"), Ok("a\nb".to_string()));
    assert_eq!(phrase_of("\r\n"), Err("empty phrase on stdin".to_string()));
}

#[test]
fn commands_print() {
    let mut s = mem_store();
    let mut run = |line: &str| run_tree(&mut s, &parse_command(&words(line)).unwrap(), 7);
    assert_eq!(run("init"), Ok("store ready\n".to_string()));
    assert_eq!(run("list"), Ok("(no bookmarks)\n".to_string()));
    assert_eq!(run("mkdir docs"), Ok("created folder 2\n".to_string()));
    assert_eq!(run("add a https://a --parent 2"), Ok("added 3\n".to_string()));
    assert_eq!(run("addbm b https://b"), Ok("added 4\n".to_string()));
    assert_eq!(
        run("tree"),
        Ok("1 [0] folder hecate\n  2 [0] folder docs\n    3 [0] bookmark a (https://a)\n  4 [1] bookmark b (https://b)\n".to_string())
    );
    assert_eq!(run("list"), Ok("4\tb\thttps://b\n3\ta\thttps://a\n".to_string()));
    assert_eq!(run("children"), Ok("total 2\n2 [0] docs/\n4 [1] b -> https://b\n".to_string()));
    assert_eq!(run("children --limit 1 --offset 1"), Ok("total 2\n4 [1] b -> https://b\n".to_string()));
    assert_eq!(run("rename 4 c"), Ok("renamed 4\n".to_string()));
    assert_eq!(run("move 4 2 --pos 0"), Ok("moved 4\n".to_string()));
    assert_eq!(run("rm 2"), Ok("deleted 3\n".to_string()));
    assert_eq!(run("rm 2"), Err("no node with id 2".to_string()));
    assert_eq!(run("move 1 1"), Err("the root folder cannot be modified".to_string()));
}

#[test]
fn tree_lines_have_kind_and_url() {
    let mut n = Node {
        id: 3,
        parent_id: Some(1),
        kind: NodeKind::Bookmark,
        title: "a".to_string(),
        url: Some("https://a.example".to_string()),
        position: 0,
        created: 1,
        modified: 1,
        children: Vec::new(),
    };
    assert_eq!(tree_text(&n, 1), "  3 [0] bookmark a (https://a.example)\n");
    assert_eq!(flat_text(&n), "3 [0] a -> https://a.example");
    n.url = None;
    assert_eq!(line_text(&n), "3 [0] bookmark a");
    n.kind = NodeKind::Folder;
    assert_eq!(line_text(&n), "3 [0] folder a");
    assert_eq!(flat_text(&n), "3 [0] a/");
}

#[test]
fn vault_commands_print() {
    let mut slot = VaultSlot::Empty;
    let mut run = |line: &str, phrase: &str| {
        run_vault(&mut slot, &parse_command(&words(line)).unwrap(), phrase, 7, &decode)
    };
    assert_eq!(run("vault-status", ""), Ok("none\n".to_string()));
    assert_eq!(run("vault-tree", "pw"), Err("could not unlock the vault".to_string()));
    assert_eq!(run("vault-create", "pw"), Ok("vault created\n".to_string()));
    assert_eq!(run("vault-create", "pw"), Err("a hidden vault already exists".to_string()));
    assert_eq!(run("vault-status", ""), Ok("exists\n".to_string()));
}

#[test]
fn commands_on_a_vault_print() {
    let mut slot = VaultSlot::Empty;
    low_cost_create(&mut slot, "pw");
    let mut run = |line: &str, phrase: &str| {
        run_vault(&mut slot, &parse_command(&words(line)).unwrap(), phrase, 7, &decode)
    };
    assert_eq!(run("vault-mkdir f", "pw"), Ok("created folder 2\n".to_string()));
    assert_eq!(run("vault-add b u --parent 2", "pw"), Ok("added 3\n".to_string()));
    assert_eq!(run("vault-add b u --parent 9", "pw"), Err("no node with id 9".to_string()));
    assert_eq!(
        run("vault-tree", "pw"),
        Ok("1 [0] folder Hidden\n  2 [0] folder f\n    3 [0] bookmark b (u)\n".to_string())
    );
}

#[test]
fn requests_on_the_tree_are_answered() {
    let mut s = mem_store();
    let mut v = VaultSlot::Empty;
    let text = |x: &str| x.to_string();
    assert_eq!(
        ask(&mut s, &mut v, Request::CreateFolder { parent_id: None, title: text("f") }),
        "{\"id\":2,\"ok\":true}"
    );
    assert_eq!(
        ask(&mut s, &mut v, Request::Add { title: text("a"), url: text("u"), parent_id: Some(2) }),
        "{\"id\":3,\"ok\":true}"
    );
    assert_eq!(
        ask(&mut s, &mut v, Request::CreateBookmark { parent_id: Some(3), title: text("b"), url: text("u") }),
        "{\"error\":\"node 3 is not a folder\",\"ok\":false}"
    );
    assert_eq!(
        ask(&mut s, &mut v, Request::Rename { id: 3, title: text("A") }),
        "{\"ok\":true}"
    );
    assert_eq!(
        ask(&mut s, &mut v, Request::Children { parent_id: Some(2), limit: 5, offset: 0 }),
        "{\"children\":[{\"created\":5,\"id\":3,\"kind\":\"bookmark\",\"modified\":5,\"parent_id\":2,\"position\":0,\"title\":\"A\",\"url\":\"u\"}],\"ok\":true,\"total\":1}"
    );
    assert_eq!(
        ask(&mut s, &mut v, Request::Move { id: 3, new_parent_id: 1, position: Some(0) }),
        "{\"ok\":true}"
    );
    assert_eq!(
        ask(&mut s, &mut v, Request::Search { query: text("zzz"), limit: 5 }),
        "{\"ok\":true,\"results\":[]}"
    );
    assert_eq!(
        ask(&mut s, &mut v, Request::List),
        "{\"bookmarks\":[{\"created\":5,\"id\":3,\"kind\":\"bookmark\",\"modified\":5,\"parent_id\":1,\"position\":0,\"title\":\"A\",\"url\":\"u\"}],\"ok\":true}"
    );
    assert_eq!(
        ask(&mut s, &mut v, Request::Delete { id: 2 }),
        "{\"deleted\":1,\"ok\":true}"
    );
    assert_eq!(
        ask(&mut s, &mut v, Request::Tree { include_hidden: false }),
        "{\"ok\":true,\"root\":{\"children\":[{\"created\":5,\"id\":3,\"kind\":\"bookmark\",\"modified\":5,\"parent_id\":1,\"position\":0,\"title\":\"A\",\"url\":\"u\"}],\"created\":0,\"id\":1,\"kind\":\"folder\",\"modified\":0,\"position\":0,\"title\":\"hecate\"}}"
    );
    assert!(matches!(v, VaultSlot::Empty));
}

#[test]
fn requests_to_the_vault_are_answered() {
    let mut s = mem_store();
    let mut v = VaultSlot::Empty;
    let before = s.clone();
    let text = |x: &str| x.to_string();
    assert_eq!(ask(&mut s, &mut v, Request::VaultStatus), "{\"exists\":false,\"ok\":true}");
    let key = low_cost_create(&mut v, "pw");
    assert_eq!(ask(&mut s, &mut v, Request::VaultStatus), "{\"exists\":true,\"ok\":true}");
    assert_eq!(
        ask(&mut s, &mut v, Request::VaultCreateFolder { key: key.clone(), parent_id: None, title: text("f") }),
        "{\"id\":2,\"ok\":true}"
    );
    assert_eq!(
        ask(&mut s, &mut v, Request::VaultCreateBookmark { key: key.clone(), parent_id: Some(2), title: text("b"), url: text("u") }),
        "{\"id\":3,\"ok\":true}"
    );
    assert_eq!(
        ask(&mut s, &mut v, Request::VaultRename { key: key.clone(), id: 2, title: text("g") }),
        "{\"ok\":true}"
    );
    assert_eq!(
        ask(&mut s, &mut v, Request::VaultMove { key: key.clone(), id: 2, new_parent_id: 2, position: None }),
        "{\"error\":\"cannot move a folder into itself or its own descendant\",\"ok\":false}"
    );
    assert_eq!(
        ask(&mut s, &mut v, Request::VaultMove { key: key.clone(), id: 3, new_parent_id: 1, position: Some(0) }),
        "{\"ok\":true}"
    );
    assert_eq!(
        ask(&mut s, &mut v, Request::VaultDelete { key: key.clone(), id: 3 }),
        "{\"deleted\":1,\"ok\":true}"
    );
    let page = "{\"children\":[{\"created\":5,\"id\":2,\"kind\":\"folder\",\"modified\":5,\"parent_id\":1,\"position\":0,\"title\":\"g\"}],";
    assert_eq!(
        ask(&mut s, &mut v, Request::VaultChildren { key: key.clone(), parent_id: None, limit: 9, offset: 0 }),
        format!("{page}\"ok\":true,\"total\":1}}")
    );
    assert_eq!(
        ask(&mut s, &mut v, Request::VaultUnlock { phrase: text("pw"), limit: 9, offset: 0 }),
        format!("{page}\"key\":\"{key}\",\"ok\":true,\"total\":1}}")
    );
    assert_eq!(
        ask(&mut s, &mut v, Request::VaultUnlock { phrase: text("no"), limit: 9, offset: 0 }),
        "{\"error\":\"could not unlock the vault\",\"ok\":false}"
    );
    assert_eq!(
        ask(&mut s, &mut v, Request::VaultChildren { key: text("?"), parent_id: None, limit: 9, offset: 0 }),
        "{\"error\":\"invalid vault key\",\"ok\":false}"
    );
    let changed = handle(
        &mut s,
        &mut v,
        &Request::VaultChangePhrase { key: key.clone(), new_phrase: text("new") },
        5,
        &decode,
    );
    assert!(matches!(changed, Reply::Key(ref k) if *k != key));
    assert!(s.changes_since(&before).is_empty());
}

#[test]
fn a_new_vault_is_answered_with_its_key() {
    let mut s = mem_store();
    let mut v = VaultSlot::Empty;
    let reply = handle(&mut s, &mut v, &Request::VaultCreate { phrase: "pw".to_string() }, 5, &decode);
    assert!(matches!(reply, Reply::Key(ref k) if k.len() == 44));
    assert_eq!(
        ask(&mut s, &mut v, Request::VaultCreate { phrase: "pw".to_string() }),
        "{\"error\":\"a hidden vault already exists\",\"ok\":false}"
    );
}

#[test]
fn reads_are_told_from_changes() {
    assert!(is_read(&Request::List));
    assert!(is_read(&Request::VaultStatus));
    assert!(!is_read(&Request::Delete { id: 1 }));
    assert!(!is_read(&Request::VaultCreate { phrase: String::new() }));
    assert_eq!(first_try(&Request::VaultDelete { key: String::new(), id: 2 }), 1);
    let rekey = Request::VaultChangePhrase { key: String::new(), new_phrase: String::new() };
    assert_eq!(first_try(&rekey), MAX_WRITE_RETRIES);
    assert!(hecate::run::is_read(&Command::Init));
    assert!(!hecate::run::is_read(&Command::Rm(1)));
}

#[test]
fn oversize_replies_become_an_error() {
    let small = Reply::Error("x".to_string());
    assert_eq!(respond(&small), b"{\"error\":\"x\",\"ok\":false}");
    let big = Reply::Error("x".repeat(1024 * 1024));
    assert_eq!(
        respond(&big),
        b"{\"error\":\"reply too large for one message\",\"ok\":false}"
    );
    let fits = Reply::Error("x".repeat(1024 * 1024 - 23));
    assert_eq!(respond(&fits).len(), 1024 * 1024);
    assert_eq!(
        reply_text(&bad_request("missing field `op`")),
        "{\"error\":\"bad request: missing field `op`\",\"ok\":false}"
    );
}

#[test]
fn a_full_page_is_sent_whole() {
    let mut s = mem_store();
    let fat = "\u{1}".repeat(30 * 1024);
    for i in 0..12 {
        s.create_bookmark(None, &fat, "https://x.example", i).unwrap();
    }
    let (page, total) = s.children(None, 1000, 0).unwrap();
    assert!(page.len() > 1 && page.len() < 12);
    let reply = Reply::Page(page, total);
    assert_eq!(respond(&reply), reply_text(&reply).into_bytes());
}
