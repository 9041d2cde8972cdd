use hecate::error::StoreError;
use hecate::json::push_nodes;
use hecate::like::{forms_agree, is_same_letter};
use hecate::migrate::{migrate, Database, LegacyBookmark, SCHEMA_VERSION};
use hecate::node::{NodeKind, NodeRow, TableRow};
use hecate::store::Store;
use hecate::table::MAX_DEPTH;
use hecate::walk::{assemble, collect_subtree_ids};

fn empty_nodes() -> Store {
    Store::from_rows(&Vec::new()).unwrap()
}

fn mem_store() -> Store {
    let db = Database { user_version: 0, nodes: empty_nodes(), bookmarks: None };
    Store::from_conn(db, 0).unwrap()
}

/// id of the single root folder.
fn root(s: &Store) -> i64 {
    s.root_id().unwrap()
}

fn legacy(id: i64, title: Option<&str>, url: Option<&str>, created: Option<i64>) -> LegacyBookmark {
    LegacyBookmark {
        id,
        title: title.map(|t| t.to_string()),
        url: url.map(|u| u.to_string()),
        created,
    }
}

fn row(id: i64, parent_id: Option<i64>, kind: NodeKind, title: &str, url: Option<&str>, position: i64) -> NodeRow {
    NodeRow {
        id,
        parent_id,
        kind,
        title: title.to_string(),
        url: url.map(|u| u.to_string()),
        position,
        created: 0,
        modified: 0,
    }
}

fn shown(row: NodeRow) -> TableRow {
    TableRow { row, hidden: false }
}

#[test]
fn fresh_db_has_root_only() {
    let s = mem_store();
    let t = s.tree(false).unwrap();
    assert_eq!(t.parent_id, None);
    assert_eq!(t.kind, NodeKind::Folder);
    assert!(t.children.is_empty());
}

#[test]
fn add_then_list_roundtrips() {
    let mut s = mem_store();
    let id = s.create_bookmark(None, "Rust", "https://rust-lang.org", 100).unwrap();
    assert!(id > 0);
    let all = s.list().unwrap();
    assert_eq!(all.len(), 1);
    assert_eq!(all[0].title, "Rust");
    assert_eq!(all[0].url.as_deref(), Some("https://rust-lang.org"));
}

#[test]
fn list_is_newest_first() {
    let mut s = mem_store();
    s.create_bookmark(None, "old", "https://a.example", 100).unwrap();
    s.create_bookmark(None, "new", "https://b.example", 200).unwrap();
    let all = s.list().unwrap();
    assert_eq!(all[0].title, "new");
    assert_eq!(all[1].title, "old");
}

#[test]
fn list_breaks_ties_by_id() {
    let mut s = mem_store();
    let a = s.create_bookmark(None, "a", "https://a.example", 5).unwrap();
    let b = s.create_bookmark(None, "b", "https://b.example", 5).unwrap();
    s.create_folder(None, "not listed", 9).unwrap();
    let ids: Vec<i64> = s.list().unwrap().iter().map(|n| n.id).collect();
    assert_eq!(ids, vec![b, a]);
}

#[test]
fn nested_create_and_tree() {
    let mut s = mem_store();
    let r = root(&s);
    let work = s.create_folder(Some(r), "work", 1).unwrap();
    let sub = s.create_folder(Some(work), "sub", 2).unwrap();
    s.create_bookmark(Some(sub), "deep", "https://deep.example", 3).unwrap();
    s.create_bookmark(Some(r), "top", "https://top.example", 4).unwrap();

    let t = s.tree(false).unwrap();
    assert_eq!(t.children.len(), 2); // work, top
    let work_node = t.children.iter().find(|n| n.title == "work").unwrap();
    assert_eq!(work_node.children.len(), 1);
    assert_eq!(work_node.children[0].title, "sub");
    assert_eq!(work_node.children[0].children[0].title, "deep");
}

#[test]
fn create_under_bookmark_is_not_a_folder() {
    let mut s = mem_store();
    let bm = s.create_bookmark(None, "b", "https://b.example", 1).unwrap();
    let err = s.create_folder(Some(bm), "x", 2).unwrap_err();
    assert!(matches!(err, StoreError::NotAFolder(id) if id == bm));
}

#[test]
fn create_under_missing_parent_is_not_found() {
    let mut s = mem_store();
    let err = s.create_bookmark(Some(9999), "x", "https://x.example", 1).unwrap_err();
    assert!(matches!(err, StoreError::NotFound(9999)));
}

#[test]
fn empty_title_and_url_rejected() {
    let mut s = mem_store();
    assert!(matches!(
        s.create_folder(None, "  ", 1).unwrap_err(),
        StoreError::InvalidArg(_)
    ));
    assert!(matches!(
        s.create_bookmark(None, "t", "", 1).unwrap_err(),
        StoreError::InvalidArg(_)
    ));
}

#[test]
fn blank_arguments_are_named() {
    let mut s = mem_store();
    let e = s.create_folder(None, "\u{3000}\t", 1).unwrap_err();
    assert_eq!(e.to_text(), "title must not be empty");
    let e = s.create_bookmark(None, "t", " \n", 1).unwrap_err();
    assert_eq!(e.to_text(), "url must not be empty");
    let e = s.rename(2, "", 1).unwrap_err();
    assert_eq!(e.to_text(), "title must not be empty");
}

#[test]
fn positions_are_contiguous_after_delete() {
    let mut s = mem_store();
    let r = root(&s);
    let a = s.create_bookmark(Some(r), "a", "https://a.example", 1).unwrap();
    let b = s.create_bookmark(Some(r), "b", "https://b.example", 2).unwrap();
    let c = s.create_bookmark(Some(r), "c", "https://c.example", 3).unwrap();
    // positions 0,1,2
    let _ = (a, c);
    s.delete(b).unwrap();
    let t = s.tree(false).unwrap();
    let positions: Vec<i64> = t.children.iter().map(|n| n.position).collect();
    assert_eq!(positions, vec![0, 1]);
    let titles: Vec<&str> = t.children.iter().map(|n| n.title.as_str()).collect();
    assert_eq!(titles, vec!["a", "c"]);
}

#[test]
fn move_reparents_and_reorders() {
    let mut s = mem_store();
    let r = root(&s);
    let f = s.create_folder(Some(r), "f", 1).unwrap();
    let a = s.create_bookmark(Some(r), "a", "https://a.example", 2).unwrap();
    let b = s.create_bookmark(Some(r), "b", "https://b.example", 3).unwrap();
    // Move a into f at position 0.
    s.move_node(a, f, Some(0), 10).unwrap();
    let t = s.tree(false).unwrap();
    let f_node = t.children.iter().find(|n| n.id == f).unwrap();
    assert_eq!(f_node.children.len(), 1);
    assert_eq!(f_node.children[0].id, a);
    // root now has f(0), b(1) contiguous.
    assert!(t.children.iter().any(|n| n.id == b && n.position == 1));
}

#[test]
fn move_same_folder_excludes_then_inserts() {
    // The node is taken out of the ordering first, then inserted at the given
    // position: for siblings [A,B,C,D], moving A to position 2 yields [B,C,A,D].
    let mut s = mem_store();
    let r = root(&s);
    let a = s.create_bookmark(Some(r), "A", "https://a.example", 1).unwrap();
    let b = s.create_bookmark(Some(r), "B", "https://b.example", 2).unwrap();
    let c = s.create_bookmark(Some(r), "C", "https://c.example", 3).unwrap();
    let d = s.create_bookmark(Some(r), "D", "https://d.example", 4).unwrap();
    let _ = (b, c, d);
    s.move_node(a, r, Some(2), 10).unwrap();
    let t = s.tree(false).unwrap();
    let order: Vec<&str> = t.children.iter().map(|n| n.title.as_str()).collect();
    assert_eq!(order, vec!["B", "C", "A", "D"]);
}

#[test]
fn move_position_is_clamped() {
    let mut s = mem_store();
    let r = root(&s);
    let a = s.create_bookmark(Some(r), "A", "https://a.example", 1).unwrap();
    let b = s.create_bookmark(Some(r), "B", "https://b.example", 2).unwrap();
    s.move_node(a, r, Some(99), 10).unwrap();
    let ids: Vec<i64> = s.tree(false).unwrap().children.iter().map(|n| n.id).collect();
    assert_eq!(ids, vec![b, a]);
    s.move_node(a, r, Some(-3), 11).unwrap();
    let t = s.tree(false).unwrap();
    let ids: Vec<i64> = t.children.iter().map(|n| n.id).collect();
    assert_eq!(ids, vec![a, b]);
    assert_eq!(t.children[0].modified, 11);
    assert_eq!(t.children[1].modified, 2);
}

#[test]
fn move_into_own_descendant_is_cycle() {
    let mut s = mem_store();
    let r = root(&s);
    let a = s.create_folder(Some(r), "a", 1).unwrap();
    let b = s.create_folder(Some(a), "b", 2).unwrap();
    let c = s.create_folder(Some(b), "c", 3).unwrap();
    assert!(matches!(
        s.move_node(a, c, None, 4).unwrap_err(),
        StoreError::CycleDetected
    ));
    assert!(matches!(
        s.move_node(a, a, None, 5).unwrap_err(),
        StoreError::CycleDetected
    ));
    // Valid: move c up to root.
    s.move_node(c, r, None, 6).unwrap();
    assert!(s.tree(false).unwrap().children.iter().any(|n| n.id == c));
}

#[test]
fn refused_operations_change_nothing() {
    let mut s = mem_store();
    let r = root(&s);
    let a = s.create_folder(Some(r), "a", 1).unwrap();
    let b = s.create_bookmark(Some(a), "b", "https://b.example", 2).unwrap();
    let before = s.clone();
    assert!(s.move_node(a, b, None, 3).is_err());
    assert!(s.move_node(a, a, None, 3).is_err());
    assert!(s.move_node(77, a, None, 3).is_err());
    assert!(s.delete(r).is_err());
    assert!(s.rename(77, "x", 3).is_err());
    assert!(s.create_folder(Some(b), "x", 3).is_err());
    assert!(s.changes_since(&before).is_empty());
}

#[test]
fn delete_undoes_create() {
    let mut s = mem_store();
    let r = root(&s);
    s.create_folder(Some(r), "f", 1).unwrap();
    let before = s.clone();
    let id = s.create_bookmark(Some(r), "b", "https://b.example", 2).unwrap();
    assert_eq!(s.delete(id).unwrap(), 1);
    assert!(s.changes_since(&before).is_empty());
}

#[test]
fn delete_folder_is_recursive() {
    let mut s = mem_store();
    let r = root(&s);
    let f = s.create_folder(Some(r), "f", 1).unwrap();
    let g = s.create_folder(Some(f), "g", 2).unwrap();
    s.create_bookmark(Some(g), "deep", "https://deep.example", 3).unwrap();
    s.create_bookmark(Some(f), "shallow", "https://shallow.example", 4).unwrap();
    let count = s.delete(f).unwrap();
    assert_eq!(count, 4); // f, g, deep, shallow
    let t = s.tree(false).unwrap();
    assert!(t.children.is_empty());
    // No orphans (every non-root node reaches a real parent).
    let rows = s.dump_rows().unwrap();
    let orphans = rows
        .iter()
        .filter(|n| match n.parent_id {
            None => false,
            Some(p) => !rows.iter().any(|m| m.id == p),
        })
        .count();
    assert_eq!(orphans, 0);
}

#[test]
fn root_cannot_be_modified() {
    let mut s = mem_store();
    let r = root(&s);
    assert!(matches!(
        s.rename(r, "x", 1).unwrap_err(),
        StoreError::CannotModifyRoot
    ));
    assert!(matches!(s.delete(r).unwrap_err(), StoreError::CannotModifyRoot));
    let f = s.create_folder(Some(r), "f", 2).unwrap();
    assert!(matches!(
        s.move_node(r, f, None, 3).unwrap_err(),
        StoreError::CannotModifyRoot
    ));
}

#[test]
fn rename_changes_title() {
    let mut s = mem_store();
    let r = root(&s);
    let f = s.create_folder(Some(r), "old", 1).unwrap();
    s.rename(f, "new", 2).unwrap();
    let t = s.tree(false).unwrap();
    assert_eq!(t.children[0].title, "new");
}

#[test]
fn duplicate_sibling_names_allowed() {
    let mut s = mem_store();
    let r = root(&s);
    s.create_folder(Some(r), "dup", 1).unwrap();
    s.create_folder(Some(r), "dup", 2).unwrap();
    let t = s.tree(false).unwrap();
    assert_eq!(t.children.len(), 2);
}

#[test]
fn deep_tree_does_not_overflow() {
    // Build right up to the nesting cap.
    let mut s = mem_store();
    let mut parent = root(&s);
    let mut first_child = None;
    for i in 0..MAX_DEPTH {
        parent = s.create_folder(Some(parent), &format!("d{i}"), i).unwrap();
        if first_child.is_none() {
            first_child = Some(parent);
        }
    }
    assert!(matches!(
        s.move_node(first_child.unwrap(), parent, None, 1).unwrap_err(),
        StoreError::CycleDetected
    ));
    // tree() assembles the whole chain to exactly MAX_DEPTH levels.
    let t = s.tree(false).unwrap();
    let mut n = &t;
    let mut depth = 0;
    while let Some(child) = n.children.first() {
        n = child;
        depth += 1;
    }
    assert_eq!(depth as i64, MAX_DEPTH);
}

#[test]
fn migrates_legacy_v1_bookmarks() {
    // A v1-shaped database with rows and no user_version.
    let mut db = Database {
        user_version: 0,
        nodes: empty_nodes(),
        bookmarks: Some(vec![
            legacy(1, Some("first"), Some("https://1.example"), Some(100)),
            legacy(2, Some("second"), Some("https://2.example"), Some(200)),
        ]),
    };
    migrate(&mut db, 7).unwrap();
    // Old table is gone.
    assert!(db.bookmarks.is_none());
    let s = Store::from_conn(db, 7).unwrap();
    let t = s.tree(false).unwrap();
    assert_eq!(t.title, "hecate");
    assert_eq!(t.children.len(), 2);
    // created order preserved (first then second), contiguous positions.
    assert_eq!(t.children[0].title, "first");
    assert_eq!(t.children[0].position, 0);
    assert_eq!(t.children[1].title, "second");
    assert_eq!(t.children[1].position, 1);
}

#[test]
fn migrate_is_idempotent_when_repeated() {
    let mut db = Database {
        user_version: 0,
        nodes: empty_nodes(),
        bookmarks: Some(vec![
            legacy(1, Some("a"), Some("https://a.example"), Some(1)),
            legacy(2, Some("b"), Some("https://b.example"), Some(2)),
        ]),
    };
    migrate(&mut db, 0).unwrap();
    // Second and third calls must be no-ops, not errors or duplications.
    migrate(&mut db, 0).unwrap();
    migrate(&mut db, 0).unwrap();
    assert_eq!(db.nodes.tree(false).unwrap().children.len(), 2);
}

#[test]
fn legacy_order_is_created_then_id_with_unknown_first() {
    let mut db = Database {
        user_version: 1,
        nodes: empty_nodes(),
        bookmarks: Some(vec![
            legacy(4, Some("late"), Some("u"), Some(9)),
            legacy(3, Some("same b"), Some("u"), Some(5)),
            legacy(2, Some("same a"), Some("u"), Some(5)),
            legacy(1, Some("unknown"), None, None),
        ]),
    };
    migrate(&mut db, 0).unwrap();
    let t = db.nodes.tree(false).unwrap();
    let titles: Vec<&str> = t.children.iter().map(|n| n.title.as_str()).collect();
    assert_eq!(titles, vec!["unknown", "same a", "same b", "late"]);
    assert_eq!(t.children[0].created, 0);
    assert_eq!(t.children[0].url.as_deref(), Some(""));
    assert_eq!(t.children[3].modified, 9);
}

#[test]
fn folder_nesting_is_capped() {
    let mut s = mem_store();
    let mut parent = root(&s);
    // root is depth 0; folders may go to depth MAX_DEPTH.
    for i in 0..MAX_DEPTH {
        parent = s.create_folder(Some(parent), &format!("d{i}"), i).unwrap();
    }
    // One more folder would exceed the cap.
    assert!(matches!(
        s.create_folder(Some(parent), "too-deep", 0).unwrap_err(),
        StoreError::MaxDepthExceeded
    ));
    // A bookmark under the deepest folder would also land at MAX_DEPTH+1.
    assert!(matches!(
        s.create_bookmark(Some(parent), "too-deep", "https://x.example", 0)
            .unwrap_err(),
        StoreError::MaxDepthExceeded
    ));
    // tree() still works at max depth.
    assert!(s.tree(false).is_ok());
}

#[test]
fn tree_rejects_pre_existing_overdeep_data() {
    // A chain far deeper than MAX_DEPTH, written directly.
    let s = mem_store();
    let r = root(&s);
    let mut rows: Vec<TableRow> = s.dump_rows().unwrap().into_iter().map(shown).collect();
    let mut parent = r;
    for i in 0..(MAX_DEPTH + 50) {
        let id = parent + 1;
        rows.push(shown(row(id, Some(parent), NodeKind::Folder, &format!("d{i}"), None, 0)));
        parent = id;
    }
    let s = Store::from_rows(&rows).unwrap();
    assert!(matches!(
        s.tree(false).unwrap_err(),
        StoreError::MaxDepthExceeded
    ));
}

#[test]
fn delete_terminates_on_corrupt_parent_cycle() {
    let mut s = mem_store();
    let r = root(&s);
    let a = s.create_folder(Some(r), "a", 1).unwrap();
    let b = s.create_folder(Some(a), "b", 2).unwrap();
    // Force a mutual cycle a <-> b directly.
    let mut rows: Vec<TableRow> = s.dump_rows().unwrap().into_iter().map(shown).collect();
    for t in rows.iter_mut() {
        if t.row.id == a {
            t.row.parent_id = Some(b);
        }
    }
    let mut s = Store::from_rows(&rows).unwrap();
    // delete must terminate; the walk is capped at the two distinct nodes.
    let n = s.delete(a).unwrap();
    assert_eq!(n, 2);
}

#[test]
fn move_respecting_depth_cap() {
    let mut s = mem_store();
    let r = root(&s);
    // Build a chain of depth MAX_DEPTH under root.
    let mut parent = r;
    let mut first = None;
    for i in 0..MAX_DEPTH {
        parent = s.create_folder(Some(parent), &format!("d{i}"), i).unwrap();
        if first.is_none() {
            first = Some(parent);
        }
    }
    // A separate one-level folder at top level.
    let other = s.create_folder(Some(r), "other", 0).unwrap();
    // Moving the whole deep chain under `other` would exceed the cap.
    assert!(matches!(
        s.move_node(first.unwrap(), other, None, 0).unwrap_err(),
        StoreError::MaxDepthExceeded
    ));
}

#[test]
fn migration_survives_malformed_legacy_rows() {
    let mut db = Database {
        user_version: 0,
        nodes: empty_nodes(),
        bookmarks: Some(vec![
            legacy(1, Some("ok"), Some("https://ok.example"), Some(1)),
            legacy(2, None, None, None),
            legacy(3, Some(""), Some(""), Some(3)),
        ]),
    };
    migrate(&mut db, 0).unwrap();
    let t = db.nodes.tree(false).unwrap();
    assert_eq!(t.children.len(), 3);
    // Both the NULL-title and empty-string-title rows are salvaged.
    assert_eq!(t.children.iter().filter(|n| n.title == "(untitled)").count(), 2);
}

#[test]
fn migration_survives_missing_root_with_id1_occupied() {
    // No root row, and id=1 taken by a non-root node whose parent points nowhere.
    let rows = vec![shown(row(1, Some(99), NodeKind::Bookmark, "orphan", Some("https://x"), 0))];
    let mut db = Database {
        user_version: 2,
        nodes: Store::from_rows(&rows).unwrap(),
        bookmarks: None,
    };
    migrate(&mut db, 0).unwrap();
    // A real root now exists, at some assigned id != 1.
    let root = db.nodes.root_id().unwrap();
    assert_ne!(root, 1);
    assert_eq!(db.user_version, 3);
    assert_eq!(db.user_version, SCHEMA_VERSION);
}

#[test]
fn legacy_copy_appends_after_existing_children() {
    let rows = vec![
        shown(row(1, None, NodeKind::Folder, "hecate", None, 0)),
        shown(row(2, Some(1), NodeKind::Bookmark, "existing", Some("https://e"), 0)),
    ];
    let mut db = Database {
        user_version: 2,
        nodes: Store::from_rows(&rows).unwrap(),
        bookmarks: Some(vec![legacy(1, Some("legacy1"), Some("https://l1"), Some(1))]),
    };
    migrate(&mut db, 0).unwrap();
    let t = db.nodes.tree(false).unwrap();
    let positions: Vec<i64> = t.children.iter().map(|n| n.position).collect();
    // Contiguous, no collision: existing at 0, legacy appended at 1.
    assert_eq!(positions, vec![0, 1]);
    assert_eq!(t.children.iter().filter(|n| n.position == 0).count(), 1);
}

#[test]
fn migration_fails_whole_where_no_position_is_left() {
    let rows = vec![
        shown(row(1, None, NodeKind::Folder, "hecate", None, 0)),
        shown(row(2, Some(1), NodeKind::Folder, "last", None, i64::MAX)),
    ];
    let mut db = Database {
        user_version: 2,
        nodes: Store::from_rows(&rows).unwrap(),
        bookmarks: Some(vec![legacy(1, Some("x"), Some("u"), Some(1))]),
    };
    let e = migrate(&mut db, 0).unwrap_err();
    assert_eq!(
        e.to_text(),
        "database error: Invalid column type Real at index: 0, name: COALESCE(MAX(position) + 1, 0)"
    );
    assert_eq!(db.user_version, 2);
    assert!(db.bookmarks.is_some());
    let mut s = Store::from_rows(&rows).unwrap();
    assert!(matches!(s.create_folder(Some(1), "x", 0).unwrap_err(), StoreError::Sqlite(_)));
}

#[test]
fn children_paginates() {
    let mut s = mem_store();
    let r = root(&s);
    for i in 0..10 {
        s.create_bookmark(Some(r), &format!("b{i}"), "https://x.example", i)
            .unwrap();
    }
    let (page, total) = s.children(None, 3, 0).unwrap();
    assert_eq!(total, 10);
    assert_eq!(page.len(), 3);
    // Stable position order: first page is positions 0,1,2.
    assert_eq!(
        page.iter().map(|n| n.position).collect::<Vec<_>>(),
        vec![0, 1, 2]
    );
    // Offset slices correctly; last partial page.
    let (page2, _) = s.children(None, 3, 9).unwrap();
    assert_eq!(page2.len(), 1);
    assert_eq!(page2[0].position, 9);
    // Out-of-range offset: empty page, total still accurate.
    let (empty, total2) = s.children(None, 3, 100).unwrap();
    assert!(empty.is_empty());
    assert_eq!(total2, 10);
    // Limit is clamped, not honoured verbatim, but never errors.
    let (big, _) = s.children(None, 999_999, 0).unwrap();
    assert_eq!(big.len(), 10);
}

#[test]
fn paging_by_page_length_covers_the_folder() {
    let mut s = mem_store();
    let fat = "x".repeat(200 * 1024);
    let mut ids = Vec::new();
    for i in 0..9 {
        ids.push(s.create_bookmark(None, &format!("{fat}{i}"), "https://x.example", i).unwrap());
    }
    let mut seen = Vec::new();
    loop {
        let (page, total) = s.children(None, 5, seen.len() as i64).unwrap();
        assert_eq!(total, 9);
        if page.is_empty() {
            break;
        }
        assert!(page.len() < 5);
        seen.extend(page.iter().map(|n| n.id));
    }
    assert_eq!(seen, ids);
    let (one, _) = s.children(None, -4, -9).unwrap();
    assert_eq!(one.len(), 1);
    assert_eq!(one[0].id, ids[0]);
}

#[test]
fn search_matches_title_and_url_literally() {
    let mut s = mem_store();
    let r = root(&s);
    s.create_bookmark(Some(r), "Rust lang", "https://rust-lang.org", 1).unwrap();
    s.create_folder(Some(r), "Reading", 2).unwrap();
    s.create_bookmark(Some(r), "fifty %off", "https://deals.example", 3).unwrap();

    // Title substring, case-insensitive.
    let hits = s.search("rust", 50).unwrap();
    assert_eq!(hits.len(), 1);
    assert_eq!(hits[0].title, "Rust lang");
    // URL substring.
    assert_eq!(s.search("deals.example", 50).unwrap().len(), 1);
    // Folder titles match too.
    assert_eq!(s.search("read", 50).unwrap().len(), 1);
    // `%` is a literal, not a wildcard.
    let pct = s.search("%off", 50).unwrap();
    assert_eq!(pct.len(), 1);
    assert_eq!(pct[0].title, "fifty %off");
    // A high-entropy phrase that matches nothing: empty.
    assert!(s.search("correct horse battery staple xyzzy", 50).unwrap().is_empty());
    // Empty query: empty, never the whole tree.
    assert!(s.search("   ", 50).unwrap().is_empty());
}

#[test]
fn search_is_newest_first_limited_and_skips_the_root() {
    let mut s = mem_store();
    let a = s.create_bookmark(None, "hecate one", "https://1.example", 1).unwrap();
    let b = s.create_bookmark(None, "hecate two", "https://2.example", 9).unwrap();
    let c = s.create_folder(None, "HECATE three", 5).unwrap();
    let ids: Vec<i64> = s.search(" hecate ", 50).unwrap().iter().map(|n| n.id).collect();
    assert_eq!(ids, vec![b, c, a]);
    let ids: Vec<i64> = s.search("hecate", 2).unwrap().iter().map(|n| n.id).collect();
    assert_eq!(ids, vec![b, c]);
    assert_eq!(s.search("hecate", 0).unwrap().len(), 1);
    // Underscore and backslash stand for themselves, and case is ignored.
    s.create_bookmark(None, "a_b\\c", "https://3.example", 2).unwrap();
    s.create_bookmark(None, "axb", "https://4.example", 2).unwrap();
    assert_eq!(s.search("A_B", 50).unwrap().len(), 1);
    assert_eq!(s.search("b\\C", 50).unwrap().len(), 1);
    s.create_bookmark(None, "\u{c9}clair", "https://5.example", 2).unwrap();
    assert_eq!(s.search("\u{e9}clair", 50).unwrap().len(), 1);
    assert_eq!(s.search("\u{c9}CLAIR", 50).unwrap().len(), 1);
    assert_eq!(s.search("eclair", 50).unwrap().len(), 0);
    s.create_bookmark(None, "\u{c9}COLE", "https://6.example", 2).unwrap();
    let found = s.search("\u{e9}cole", 50).unwrap();
    assert_eq!(found.len(), 1);
    assert_eq!(found[0].title, "\u{c9}COLE");
    // Sigma has one capital and two small forms.
    s.create_bookmark(None, "\u{39f}\u{394}\u{39f}\u{3a3}", "https://7.example", 2).unwrap();
    assert_eq!(s.search("\u{3bf}\u{3b4}\u{3bf}\u{3c2}", 50).unwrap().len(), 1);
    assert_eq!(s.search("\u{3b4}\u{3bf}\u{3c3}", 50).unwrap().len(), 1);
    assert!(is_same_letter('\u{3c2}', '\u{3c3}'));
    // The Kelvin sign has the small form k, and no capital form but itself.
    assert!(is_same_letter('\u{212a}', 'k'));
    assert!(is_same_letter('Z', 'z') && !is_same_letter('[', '{') && !is_same_letter('\u{e9}', 'e'));
    assert!(forms_agree("a", "a", "x", "y") && forms_agree("a", "b", "x", "x"));
    assert!(!forms_agree("a", "b", "b", "a"));
}

#[test]
fn children_page_is_byte_bounded() {
    // 200 fat bookmarks (~8 KB title each) would serialize to ~1.6 MB.
    let mut s = mem_store();
    let r = root(&s);
    let big = "x".repeat(8 * 1024);
    for i in 0..200 {
        s.create_bookmark(Some(r), &format!("{big}{i}"), "https://x.example", i)
            .unwrap();
    }
    let (page, total) = s.children(None, 1000, 0).unwrap();
    assert_eq!(total, 200, "total must be the true count");
    assert!(page.len() < 200, "page must be trimmed below the full count");
    assert!(!page.is_empty(), "must keep at least one node so paging advances");
    // The serialized page comfortably fits the 1 MiB cap.
    let mut bytes = "[".to_string();
    push_nodes(&mut bytes, &page);
    bytes.push(']');
    assert!(bytes.len() < 1024 * 1024, "page serialized to {} bytes", bytes.len());
}

#[test]
fn children_byte_budget_accounts_for_json_escaping() {
    let mut s = mem_store();
    let r = root(&s);
    // 4 KB of NUL bytes per title: ~24 KB serialized each.
    let ctrl = "\u{0}".repeat(4 * 1024);
    for i in 0..1000 {
        s.create_bookmark(Some(r), &format!("{ctrl}{i}"), "https://x.example", i)
            .unwrap();
    }
    let (page, total) = s.children(None, 1000, 0).unwrap();
    assert_eq!(total, 1000);
    assert!(!page.is_empty());
    let mut bytes = "[".to_string();
    push_nodes(&mut bytes, &page);
    bytes.push(']');
    assert!(
        bytes.len() < 1024 * 1024,
        "escaped page serialized to {} bytes — over the cap",
        bytes.len()
    );
    // As many nodes as fit, and no fewer.
    assert!(bytes.len() > 768 * 1024 - 25 * 1024);
}

#[test]
fn children_keeps_one_oversize_node() {
    let mut s = mem_store();
    let r = root(&s);
    let huge = "y".repeat(900 * 1024);
    s.create_bookmark(Some(r), &huge, "https://x.example", 1).unwrap();
    let (page, total) = s.children(None, 1000, 0).unwrap();
    assert_eq!(total, 1);
    assert_eq!(page.len(), 1);
}

#[test]
fn children_only_direct() {
    // children() returns one level, not the whole subtree.
    let mut s = mem_store();
    let r = root(&s);
    let f = s.create_folder(Some(r), "f", 1).unwrap();
    s.create_bookmark(Some(f), "deep", "https://d.example", 2).unwrap();
    let (page, total) = s.children(Some(r), 200, 0).unwrap();
    assert_eq!(total, 1); // just `f`, not `deep`
    assert_eq!(page[0].title, "f");
    assert!(page[0].children.is_empty()); // flat, no nested grandchildren
}

#[test]
fn children_of_what_is_no_folder() {
    let mut s = mem_store();
    let b = s.create_bookmark(None, "b", "https://b.example", 1).unwrap();
    assert!(matches!(s.children(Some(b), 5, 0).unwrap_err(), StoreError::NotAFolder(id) if id == b));
    assert!(matches!(s.children(Some(77), 5, 0).unwrap_err(), StoreError::NotFound(77)));
    let none = empty_nodes();
    assert_eq!(none.children(None, 5, 0).unwrap_err().to_text(), "database error: Query returned no rows");
    assert_eq!(none.tree(true).unwrap_err().to_text(), "corrupt store: root folder is missing");
}

#[test]
fn hidden_nodes_are_left_out_of_the_tree() {
    let rows = vec![
        shown(row(1, None, NodeKind::Folder, "hecate", None, 0)),
        TableRow { row: row(2, Some(1), NodeKind::Folder, "secret", None, 0), hidden: true },
        shown(row(3, Some(2), NodeKind::Bookmark, "below", Some("https://b"), 0)),
        shown(row(4, Some(1), NodeKind::Bookmark, "open", Some("https://o"), 1)),
    ];
    let s = Store::from_rows(&rows).unwrap();
    let t = s.tree(false).unwrap();
    assert_eq!(t.children.len(), 1);
    assert_eq!(t.children[0].title, "open");
    let t = s.tree(true).unwrap();
    assert_eq!(t.children.len(), 2);
    assert_eq!(t.children[0].children[0].title, "below");
}

#[test]
fn new_ids_follow_the_largest() {
    let rows = vec![
        shown(row(40, None, NodeKind::Folder, "hecate", None, 0)),
        shown(row(7, Some(40), NodeKind::Folder, "f", None, 0)),
    ];
    let mut s = Store::from_rows(&rows).unwrap();
    assert_eq!(s.create_folder(None, "x", 1).unwrap(), 41);
    let rows = vec![shown(row(i64::MAX, None, NodeKind::Folder, "hecate", None, 0))];
    let mut s = Store::from_rows(&rows).unwrap();
    let id = s.create_folder(None, "x", 1).unwrap();
    assert!(id > 0 && id != i64::MAX);
    assert!(Store::from_rows(&vec![
        shown(row(1, None, NodeKind::Folder, "a", None, 0)),
        shown(row(1, None, NodeKind::Folder, "b", None, 0)),
    ])
    .is_none());
}

#[test]
fn from_vault_rows_roundtrips_and_rejects_corruption() {
    // A clean flat row set loads and dumps back identically.
    let rows = vec![
        row(1, None, NodeKind::Folder, "Hidden", None, 0),
        row(2, Some(1), NodeKind::Bookmark, "b", Some("https://b.example"), 0),
    ];
    let s = Store::from_vault_rows(&rows).unwrap();
    assert_eq!(s.tree(true).unwrap().children.len(), 1);
    assert_eq!(s.dump_rows().unwrap().len(), 2);

    // No root: corrupt.
    let no_root = vec![row(2, Some(1), NodeKind::Bookmark, "x", Some("https://x"), 0)];
    assert!(matches!(
        Store::from_vault_rows(&no_root),
        Err(StoreError::CorruptVault(_))
    ));

    // Dangling parent (unreachable node): corrupt, not silently dropped.
    let dangling = vec![
        row(1, None, NodeKind::Folder, "Hidden", None, 0),
        row(2, Some(999), NodeKind::Bookmark, "orphan", Some("https://o"), 0),
    ];
    assert!(matches!(
        Store::from_vault_rows(&dangling),
        Err(StoreError::CorruptVault(_))
    ));

    // Two roots: corrupt.
    let two_roots = vec![
        row(1, None, NodeKind::Folder, "A", None, 0),
        row(2, None, NodeKind::Folder, "B", None, 0),
    ];
    assert!(matches!(
        Store::from_vault_rows(&two_roots),
        Err(StoreError::CorruptVault(_))
    ));

    // Over-deep chain: CorruptVault (not MaxDepthExceeded).
    let mut deep = vec![row(1, None, NodeKind::Folder, "Hidden", None, 0)];
    for i in 0..(MAX_DEPTH + 5) {
        deep.push(row(i + 2, Some(i + 1), NodeKind::Folder, &format!("d{i}"), None, 0));
    }
    assert!(matches!(
        Store::from_vault_rows(&deep),
        Err(StoreError::CorruptVault(_))
    ));

    // Duplicate id: CorruptVault.
    let dup = vec![
        row(1, None, NodeKind::Folder, "Hidden", None, 0),
        row(2, Some(1), NodeKind::Bookmark, "a", Some("https://a"), 0),
        row(2, Some(1), NodeKind::Bookmark, "b", Some("https://b"), 1),
    ];
    assert!(matches!(
        Store::from_vault_rows(&dup),
        Err(StoreError::CorruptVault(_))
    ));

    // A bookmark as the root: CorruptVault (root must be a folder).
    let bm_root = vec![row(1, None, NodeKind::Bookmark, "x", Some("https://x"), 0)];
    assert!(matches!(
        Store::from_vault_rows(&bm_root),
        Err(StoreError::CorruptVault(_))
    ));
}

#[test]
fn vault_row_defects_are_named() {
    let why = |rows: Vec<NodeRow>| Store::from_vault_rows(&rows).unwrap_err().to_text();
    assert_eq!(why(vec![]), "corrupt vault: vault must have exactly one root");
    assert_eq!(
        why(vec![row(1, None, NodeKind::Bookmark, "x", None, 0)]),
        "corrupt vault: vault root must be a folder"
    );
    assert_eq!(
        why(vec![
            row(1, None, NodeKind::Folder, "r", None, 0),
            row(1, Some(1), NodeKind::Folder, "r", None, 0),
        ]),
        "corrupt vault: duplicate node id in vault"
    );
    assert_eq!(
        why(vec![
            row(1, None, NodeKind::Folder, "r", None, 0),
            row(2, Some(3), NodeKind::Folder, "a", None, 0),
            row(3, Some(2), NodeKind::Folder, "b", None, 0),
        ]),
        "corrupt vault: vault has unreachable nodes (dangling parent or orphan cycle)"
    );
    let mut deep = vec![row(1, None, NodeKind::Folder, "r", None, 0)];
    for i in 0..201 {
        deep.push(row(i + 2, Some(i + 1), NodeKind::Folder, "d", None, 0));
    }
    assert_eq!(why(deep), "corrupt vault: vault tree is structurally invalid");
}

#[test]
fn dumped_rows_load_again() {
    let mut s = mem_store();
    let f = s.create_folder(None, "f", 1).unwrap();
    s.create_bookmark(Some(f), "b", "https://b.example", 2).unwrap();
    s.create_bookmark(None, "c", "https://c.example", 3).unwrap();
    s.move_node(f, root(&s), Some(1), 4).unwrap();
    let rows = s.dump_rows().unwrap();
    let ids: Vec<i64> = rows.iter().map(|r| r.id).collect();
    assert_eq!(ids, vec![1, 2, 3, 4]);
    let again = Store::from_vault_rows(&rows).unwrap();
    assert!(again.changes_since(&s).is_empty());
}

#[test]
fn every_store_error_has_its_text() {
    assert_eq!(
        StoreError::NoDataDir.to_text(),
        "could not resolve a data directory (is HOME/XDG_DATA_HOME set?)"
    );
    assert_eq!(StoreError::Io("denied".to_string()).to_text(), "creating data directory: denied");
    assert_eq!(StoreError::Sqlite("locked".to_string()).to_text(), "database error: locked");
    assert_eq!(StoreError::NotFound(-5).to_text(), "no node with id -5");
    assert_eq!(StoreError::NotAFolder(7).to_text(), "node 7 is not a folder");
    assert_eq!(
        StoreError::CycleDetected.to_text(),
        "cannot move a folder into itself or its own descendant"
    );
    assert_eq!(StoreError::InvalidArg("m".to_string()).to_text(), "m");
    assert_eq!(StoreError::CannotModifyRoot.to_text(), "the root folder cannot be modified");
    assert_eq!(
        StoreError::MaxDepthExceeded.to_text(),
        "maximum folder nesting depth (200) exceeded"
    );
    assert_eq!(StoreError::CorruptStore("x").to_text(), "corrupt store: x");
    assert_eq!(StoreError::CorruptVault("x").to_text(), "corrupt vault: x");
    assert_eq!(StoreError::NotFound(i64::MIN).to_text(), "no node with id -9223372036854775808");
}

#[test]
fn subtrees_are_listed_breadth_first() {
    // 9 is the top; its child 2 has the child 8, its child 5 the children 1 and 3.
    let mut rows = vec![TableRow { row: row(7, None, NodeKind::Folder, "hecate", None, 0), hidden: false }];
    for (id, parent) in [(9, 7), (2, 9), (5, 9), (8, 2), (1, 5), (3, 5), (4, 7)] {
        rows.push(TableRow { row: row(id, Some(parent), NodeKind::Folder, "f", None, 0), hidden: false });
    }
    rows.sort_by_key(|r| r.row.id);
    let ids = collect_subtree_ids(&rows, 9);
    assert_eq!(ids[0], 9);
    let level = |part: &[i64]| {
        let mut v = part.to_vec();
        v.sort();
        v
    };
    assert_eq!(level(&ids[1..3]), vec![2, 5]);
    assert_eq!(level(&ids[3..]), vec![1, 3, 8]);
    assert_eq!(collect_subtree_ids(&rows, 4), vec![4]);
}

#[test]
fn trees_of_any_depth_are_assembled() {
    let depth = 1500;
    let mut rows = vec![TableRow { row: row(1, None, NodeKind::Folder, "top", None, 0), hidden: false }];
    for id in 2..depth + 1 {
        rows.push(TableRow { row: row(id, Some(id - 1), NodeKind::Folder, "f", None, 0), hidden: false });
    }
    rows.push(TableRow { row: row(depth + 1, Some(1), NodeKind::Bookmark, "last", Some("u"), 1), hidden: false });
    let top = assemble(&rows, 1);
    assert_eq!(top.children.len(), 2);
    assert_eq!(top.children[1].title, "last");
    let mut at = top;
    for id in 2..depth + 1 {
        at = at.children.remove(0);
        assert_eq!(at.id, id);
    }
    assert!(at.children.is_empty());
}
