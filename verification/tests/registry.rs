use std::sync::Arc;

use qortex::catalog::{DatabaseId, IndexId, IndexKeyBase, NamespaceId, TableId, TableName};
use qortex::store::QortexIndexes;

fn ikb(ns: u32, db: u32, ix: u32) -> IndexKeyBase {
    IndexKeyBase {
        ns: NamespaceId(ns),
        db: DatabaseId(db),
        tb: TableName::from("testtb"),
        ix: IndexId(ix),
    }
}

#[test]
fn the_first_index_is_shared() {
    let mut all: QortexIndexes<&str> = QortexIndexes::default();
    assert!(all.get(TableId(1), &ikb(1, 1, 1)).is_none());
    let a = all.insert(TableId(1), &ikb(1, 1, 1), Arc::new("a"));
    assert_eq!(*a, "a");
    let b = all.insert(TableId(1), &ikb(1, 1, 1), Arc::new("b"));
    assert!(Arc::ptr_eq(&a, &b));
    assert!(Arc::ptr_eq(&a, &all.get(TableId(1), &ikb(1, 1, 1)).unwrap()));
}

#[test]
fn each_of_the_four_ids_tells_indexes_apart() {
    let mut all: QortexIndexes<u8> = QortexIndexes::default();
    let max = u32::MAX;
    let keys = [
        (0, 0, 0, 0),
        (max, 0, 0, 0),
        (0, max, 0, 0),
        (0, 0, max, 0),
        (0, 0, 0, max),
        (max, max, max, max),
        (1, 0, 0, 0),
        (0, 1, 0, 0),
    ];
    for (i, (ns, db, tb, ix)) in keys.iter().enumerate() {
        all.insert(TableId(*tb), &ikb(*ns, *db, *ix), Arc::new(i as u8));
    }
    for (i, (ns, db, tb, ix)) in keys.iter().enumerate() {
        assert_eq!(*all.get(TableId(*tb), &ikb(*ns, *db, *ix)).unwrap(), i as u8);
    }
}

#[test]
fn a_removed_index_is_created_anew() {
    let mut all: QortexIndexes<&str> = QortexIndexes::default();
    all.insert(TableId(1), &ikb(1, 1, 1), Arc::new("a"));
    all.insert(TableId(2), &ikb(1, 1, 1), Arc::new("b"));
    all.remove(TableId(1), &ikb(1, 1, 1));
    assert!(all.get(TableId(1), &ikb(1, 1, 1)).is_none());
    assert_eq!(*all.get(TableId(2), &ikb(1, 1, 1)).unwrap(), "b");
    assert_eq!(*all.insert(TableId(1), &ikb(1, 1, 1), Arc::new("c")), "c");
    all.remove(TableId(9), &ikb(9, 9, 9));
    assert_eq!(*all.get(TableId(1), &ikb(1, 1, 1)).unwrap(), "c");
}
