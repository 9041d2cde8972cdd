use hecate::changes::RowChange;
use hecate::migrate::{Database, LegacyBookmark};
use hecate::node::{NodeKind, NodeRow, TableRow};
use hecate::store::Store;

fn folder(id: i64, parent_id: Option<i64>, title: &str, position: i64) -> TableRow {
    TableRow {
        row: NodeRow {
            id,
            parent_id,
            kind: NodeKind::Folder,
            title: title.to_string(),
            url: None,
            position,
            created: 0,
            modified: 0,
        },
        hidden: false,
    }
}

/// Applies the changes to a list of rows, as statements on a table would.
fn apply(rows: &mut Vec<TableRow>, changes: Vec<RowChange>) {
    for c in changes {
        match c {
            RowChange::Put(r) => {
                rows.retain(|x| x.row.id != r.row.id);
                rows.push(r);
            }
            RowChange::Delete(id) => rows.retain(|x| x.row.id != id),
        }
    }
}

#[test]
fn changes_turn_one_table_into_the_other() {
    let mut rows = vec![
        folder(1, None, "hecate", 0),
        folder(2, Some(1), "a", 0),
        folder(3, Some(1), "b", 1),
        folder(4, Some(2), "c", 0),
    ];
    let before = Store::from_rows(&rows).unwrap();
    let mut after = before.clone();
    after.create_folder(Some(3), "new", 9).unwrap();
    after.delete(2).unwrap();
    after.rename(3, "renamed", 10).unwrap();
    let changes = after.changes_since(&before);
    // 2 and 4 go, 3 gets a new title and position, 5 comes.
    assert_eq!(changes.len(), 4);
    apply(&mut rows, changes);
    let stored = Store::from_rows(&rows).unwrap();
    assert!(stored.changes_since(&after).is_empty());
    assert!(after.changes_since(&stored).is_empty());
    assert_eq!(stored.tree(false).unwrap().children[0].title, "renamed");
}

#[test]
fn untouched_rows_are_not_written() {
    let rows = vec![folder(1, None, "hecate", 0), folder(2, Some(1), "a", 0), folder(3, Some(1), "b", 1)];
    let before = Store::from_rows(&rows).unwrap();
    let mut after = before.clone();
    after.rename(2, "x", 5).unwrap();
    let changes = after.changes_since(&before);
    assert_eq!(changes.len(), 1);
    assert!(matches!(&changes[0], RowChange::Put(r) if r.row.id == 2 && r.row.title == "x"));
    after.delete(3).unwrap();
    assert!(after
        .changes_since(&before)
        .iter()
        .any(|c| matches!(c, RowChange::Delete(3))));
}

#[test]
fn a_migration_shows_up_as_changes() {
    let empty = Store::from_rows(&Vec::new()).unwrap();
    let db = Database {
        user_version: 0,
        nodes: empty.clone(),
        bookmarks: Some(vec![LegacyBookmark {
            id: 1,
            title: Some("t".to_string()),
            url: Some("u".to_string()),
            created: Some(3),
        }]),
    };
    let s = Store::from_conn(db, 11).unwrap();
    let changes = s.changes_since(&empty);
    assert_eq!(changes.len(), 2);
    assert!(matches!(&changes[0], RowChange::Put(r) if r.row.title == "hecate" && r.row.created == 11));
    assert!(matches!(&changes[1], RowChange::Put(r) if r.row.parent_id == Some(1) && r.row.created == 3));
}

fn touched(changes: &[RowChange]) -> Vec<i64> {
    let mut ids: Vec<i64> = changes
        .iter()
        .map(|c| match c {
            RowChange::Put(r) => r.row.id,
            RowChange::Delete(id) => *id,
        })
        .collect();
    ids.sort();
    ids
}

#[test]
fn moves_and_deletes_leave_the_rest() {
    let mut rows = vec![folder(1, None, "hecate", 0)];
    for (id, parent, position) in [(2, 1, 0), (3, 1, 1), (4, 2, 0), (5, 2, 1), (6, 3, 0), (7, 1, 2), (8, 7, 0)] {
        rows.push(folder(id, Some(parent), "f", position));
    }
    let mut s = Store::from_rows(&rows).unwrap();
    let before = s.clone();
    s.move_node(4, 3, Some(0), 9).unwrap();
    // The node itself, the sibling it left and the one it came before.
    assert_eq!(touched(&s.changes_since(&before)), vec![4, 5, 6]);
    let before = s.clone();
    assert_eq!(s.delete(3).unwrap(), 3);
    assert_eq!(touched(&s.changes_since(&before)), vec![3, 4, 6, 7]);
}
