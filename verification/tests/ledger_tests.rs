use taggen::begin_ledger_read;
use taggen::begin_ledger_write;
use taggen::check_ledger;
use taggen::clear_tags;
use taggen::commit_ledger;
use taggen::ensure_tags_table;
use taggen::lookup_tag;
use taggen::open_ledger;
use taggen::read_all_tags;
use taggen::record_tag;

#[test]
fn record_then_lookup() {
    let db = open_ledger("/tmp/taggen_test_ledger_rl.redb").unwrap();
    ensure_tags_table(&db).unwrap();
    let mut txn = begin_ledger_write(&db).unwrap();
    clear_tags(&mut txn).unwrap();
    record_tag(&mut txn, &"df0s1z".to_string(), 1_700_000_000).unwrap();
    assert_eq!(lookup_tag(&txn, &"df0s1z".to_string()).unwrap(), Some(1_700_000_000));
    assert_eq!(lookup_tag(&txn, &"absent".to_string()).unwrap(), None);
}

#[test]
fn record_overwrites_timestamp() {
    let db = open_ledger("/tmp/taggen_test_ledger_ow.redb").unwrap();
    ensure_tags_table(&db).unwrap();
    let mut txn = begin_ledger_write(&db).unwrap();
    clear_tags(&mut txn).unwrap();
    record_tag(&mut txn, &"t".to_string(), 1).unwrap();
    record_tag(&mut txn, &"t".to_string(), 2).unwrap();
    assert_eq!(lookup_tag(&txn, &"t".to_string()).unwrap(), Some(2));
    let rows = {
        commit_ledger(txn).unwrap();
        let read = begin_ledger_read(&db).unwrap();
        read_all_tags(&read).unwrap()
    };
    assert_eq!(rows, vec![("t".to_string(), 2)]);
}

#[test]
fn uncommitted_changes_are_discarded() {
    let db = open_ledger("/tmp/taggen_test_ledger_drop.redb").unwrap();
    ensure_tags_table(&db).unwrap();
    let mut txn = begin_ledger_write(&db).unwrap();
    clear_tags(&mut txn).unwrap();
    commit_ledger(txn).unwrap();

    let mut txn = begin_ledger_write(&db).unwrap();
    record_tag(&mut txn, &"ghost".to_string(), 5).unwrap();
    drop(txn);

    let txn = begin_ledger_write(&db).unwrap();
    assert_eq!(lookup_tag(&txn, &"ghost".to_string()).unwrap(), None);
}

#[test]
fn clear_tags_empties_the_ledger() {
    let db = open_ledger("/tmp/taggen_test_ledger_clear.redb").unwrap();
    ensure_tags_table(&db).unwrap();
    let mut txn = begin_ledger_write(&db).unwrap();
    record_tag(&mut txn, &"x1".to_string(), 7).unwrap();
    clear_tags(&mut txn).unwrap();
    assert_eq!(lookup_tag(&txn, &"x1".to_string()).unwrap(), None);
    commit_ledger(txn).unwrap();
    let read = begin_ledger_read(&db).unwrap();
    assert_eq!(read_all_tags(&read).unwrap(), vec![]);
}

#[test]
fn read_all_lists_every_pair_once() {
    let db = open_ledger("/tmp/taggen_test_ledger_all.redb").unwrap();
    ensure_tags_table(&db).unwrap();
    let mut txn = begin_ledger_write(&db).unwrap();
    clear_tags(&mut txn).unwrap();
    record_tag(&mut txn, &"b".to_string(), 2).unwrap();
    record_tag(&mut txn, &"a".to_string(), 1).unwrap();
    record_tag(&mut txn, &"c".to_string(), 3).unwrap();
    commit_ledger(txn).unwrap();
    let read = begin_ledger_read(&db).unwrap();
    // Every pair comes back exactly once, in ascending key order.
    let rows = read_all_tags(&read).unwrap();
    assert_eq!(
        rows,
        vec![("a".to_string(), 1), ("b".to_string(), 2), ("c".to_string(), 3)]
    );
}

#[test]
fn check_ledger_reports_healthy_store() {
    let mut db = open_ledger("/tmp/taggen_test_ledger_check.redb").unwrap();
    ensure_tags_table(&db).unwrap();
    assert!(check_ledger(&mut db).unwrap());
}
