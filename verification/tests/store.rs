use konfigura::store::{Store, StoreError};

fn names(store: &Store) -> Vec<Vec<u8>> {
    let mut listed = store.list();
    listed.sort();
    listed
}

#[test]
fn add_then_show_returns_the_filtered_content() {
    let mut store = Store::new();
    assert_eq!(
        store.add(&b"wifi".to_vec(), &b"# comment\n\noption=1\noption=2\n".to_vec()),
        Ok(())
    );
    assert_eq!(
        store.show(&b"wifi".to_vec()),
        Ok(b"option=1\noption=2\n".to_vec())
    );
}

#[test]
fn add_records_one_add_revision() {
    let mut store = Store::new();
    store.add(&b"wifi".to_vec(), &b"option=1\n".to_vec()).unwrap();
    let log = store.revision_log();
    assert_eq!(log.len(), 1);
    assert_eq!(log[0], b"wifi: add config file".to_vec());
}

#[test]
fn second_add_of_the_same_name_conflicts_and_changes_nothing() {
    let mut store = Store::new();
    store.add(&b"wifi".to_vec(), &b"option=1\n".to_vec()).unwrap();
    assert_eq!(
        store.add(&b"wifi".to_vec(), &b"other=9\n".to_vec()),
        Err(StoreError::NameConflict)
    );
    assert_eq!(store.show(&b"wifi".to_vec()), Ok(b"option=1\n".to_vec()));
    assert_eq!(store.revision_log().len(), 1);
}

#[test]
fn update_replaces_the_content_and_records_a_revision() {
    let mut store = Store::new();
    store
        .add(&b"wifi".to_vec(), &b"# comment\n\noption=1\noption=2\n".to_vec())
        .unwrap();
    assert_eq!(store.update(&b"wifi".to_vec(), &b"option=3\n".to_vec()), Ok(()));
    assert_eq!(store.show(&b"wifi".to_vec()), Ok(b"option=3\n".to_vec()));
    let log = store.revision_log();
    assert_eq!(log.len(), 2);
    assert_eq!(log[1], b"wifi: update config file".to_vec());
}

#[test]
fn update_of_a_missing_name_fails_and_creates_no_entry() {
    let mut store = Store::new();
    assert_eq!(
        store.update(&b"wifi".to_vec(), &b"option=3\n".to_vec()),
        Err(StoreError::NameNotFound)
    );
    assert!(store.list().is_empty());
    assert_eq!(store.revision_log().len(), 0);
}

#[test]
fn remove_then_show_fails_with_name_not_found() {
    let mut store = Store::new();
    store.add(&b"wifi".to_vec(), &b"option=1\n".to_vec()).unwrap();
    assert_eq!(store.remove(&b"wifi".to_vec()), Ok(()));
    assert_eq!(store.show(&b"wifi".to_vec()), Err(StoreError::NameNotFound));
}

#[test]
fn remove_of_a_missing_name_fails() {
    let mut store = Store::new();
    assert_eq!(store.remove(&b"wifi".to_vec()), Err(StoreError::NameNotFound));
}

#[test]
fn remove_records_no_revision() {
    let mut store = Store::new();
    store.add(&b"wifi".to_vec(), &b"option=1\n".to_vec()).unwrap();
    store.remove(&b"wifi".to_vec()).unwrap();
    assert_eq!(store.revision_log().len(), 1);
}

#[test]
fn list_is_the_added_names_minus_the_removed_ones() {
    let mut store = Store::new();
    store.add(&b"alpha".to_vec(), &b"a=1\n".to_vec()).unwrap();
    store.add(&b"beta".to_vec(), &b"b=2\n".to_vec()).unwrap();
    store.add(&b"gamma".to_vec(), &b"c=3\n".to_vec()).unwrap();
    store.remove(&b"beta".to_vec()).unwrap();
    assert_eq!(names(&store), vec![b"alpha".to_vec(), b"gamma".to_vec()]);
}

#[test]
fn list_of_a_new_store_is_empty() {
    let store = Store::new();
    assert!(store.list().is_empty());
}

#[test]
fn update_keeps_the_set_of_names() {
    let mut store = Store::new();
    store.add(&b"wifi".to_vec(), &b"option=1\n".to_vec()).unwrap();
    store.update(&b"wifi".to_vec(), &b"option=3\n".to_vec()).unwrap();
    assert_eq!(names(&store), vec![b"wifi".to_vec()]);
}

#[test]
fn contains_reports_membership() {
    let mut store = Store::new();
    assert!(!store.contains(&b"wifi".to_vec()));
    store.add(&b"wifi".to_vec(), &b"option=1\n".to_vec()).unwrap();
    assert!(store.contains(&b"wifi".to_vec()));
}

#[test]
fn restore_puts_content_back_without_filtering_or_revisions() {
    let mut store = Store::new();
    assert_eq!(store.restore(&b"wifi".to_vec(), &b"option=1\n".to_vec()), Ok(()));
    assert_eq!(store.show(&b"wifi".to_vec()), Ok(b"option=1\n".to_vec()));
    assert_eq!(store.revision_log().len(), 0);
    assert_eq!(
        store.restore(&b"wifi".to_vec(), &b"other\n".to_vec()),
        Err(StoreError::NameConflict)
    );
}
