use mooncake::commit::{
    build_file_actions, creator_tag, force_unsafe_rename, CommitError, FileAction, OptionEntry,
    StorageOptions, TableStore, MIN_READER_VERSION, MIN_WRITER_VERSION,
};
use mooncake::mapper::{ColumnSpec, LakeType};

fn b(s: &str) -> Vec<u8> {
    s.as_bytes().to_vec()
}

fn columns() -> Vec<ColumnSpec> {
    vec![
        ColumnSpec { name: b("id"), relational_type: b("integer") },
        ColumnSpec { name: b("value"), relational_type: b("text") },
    ]
}

#[test]
fn created_table_carries_metadata_and_forced_versions() {
    let mut store = TableStore::new();
    store
        .create_table(b("orders"), b("s3://bucket/orders"), columns())
        .expect("first creation succeeds");
    let table = store.find("s3://bucket/orders".as_bytes()).expect("table exists");
    assert_eq!(table.name, b("orders"));
    assert_eq!(table.min_reader_version, 3);
    assert_eq!(table.min_writer_version, 7);
    assert_eq!(table.min_reader_version, MIN_READER_VERSION);
    assert_eq!(table.min_writer_version, MIN_WRITER_VERSION);
    assert_eq!(table.creator, creator_tag());
    assert_eq!(table.columns.len(), 2);
    assert_eq!(table.columns[0].name, b("id"));
    assert!(matches!(table.columns[0].lake_type, LakeType::Integer));
    assert!(table.columns[0].nullable);
    assert!(matches!(table.columns[1].lake_type, LakeType::Text));
    assert_eq!(table.log.len(), 0);
}

#[test]
fn create_twice_fails_the_second_time_with_no_partial_entries() {
    let mut store = TableStore::new();
    assert_eq!(store.create_table(b("t"), b("loc"), columns()), Ok(()));
    assert_eq!(
        store.create_table(b("t"), b("loc"), columns()),
        Err(CommitError::AlreadyExists)
    );
    let table = store.find("loc".as_bytes()).expect("first creation stands");
    assert_eq!(table.log.len(), 0);
    assert_eq!(table.columns.len(), 2);
}

#[test]
fn commit_appends_exactly_one_log_version_with_the_whole_batch() {
    let mut store = TableStore::new();
    store.create_table(b("t"), b("loc"), columns()).expect("created");

    let actions = build_file_actions(
        vec![b("part-0.parquet"), b("part-1.parquet"), b("part-2.parquet")],
        &vec![100, 200, 300],
        &vec![true, true, true],
    );
    store.commit_file_actions("loc".as_bytes(), actions).expect("commit succeeds");

    let table = store.find("loc".as_bytes()).expect("table exists");
    assert_eq!(table.log.len(), 1);
    let entry = &table.log[0];
    assert_eq!(entry.actions.len(), 3);
    match &entry.actions[0] {
        FileAction::Add { path, size, data_change } => {
            assert_eq!(path, &b("part-0.parquet"));
            assert_eq!(*size, 100);
            assert!(*data_change);
        }
        other => panic!("expected an add action, got {:?}", other),
    }
    match &entry.actions[2] {
        FileAction::Add { path, size, .. } => {
            assert_eq!(path, &b("part-2.parquet"));
            assert_eq!(*size, 300);
        }
        other => panic!("expected an add action, got {:?}", other),
    }

    // A second commit removing a previously added path is reflected as
    // one further log version.
    let removal = build_file_actions(vec![b("part-1.parquet")], &vec![0], &vec![false]);
    store.commit_file_actions("loc".as_bytes(), removal).expect("second commit succeeds");
    let table = store.find("loc".as_bytes()).expect("table exists");
    assert_eq!(table.log.len(), 2);
    assert_eq!(table.log[1].actions.len(), 1);
    match &table.log[1].actions[0] {
        FileAction::Remove { path, data_change } => {
            assert_eq!(path, &b("part-1.parquet"));
            assert!(*data_change);
        }
        other => panic!("expected a remove action, got {:?}", other),
    }
}

#[test]
fn commit_to_unknown_location_fails_and_changes_nothing() {
    let mut store = TableStore::new();
    store.create_table(b("t"), b("loc"), columns()).expect("created");
    let actions = build_file_actions(vec![b("f")], &vec![1], &vec![true]);
    assert_eq!(
        store.commit_file_actions("other".as_bytes(), actions),
        Err(CommitError::NotFound)
    );
    let table = store.find("loc".as_bytes()).expect("table untouched");
    assert_eq!(table.log.len(), 0);
}

#[test]
fn build_file_actions_keeps_order_and_marks_data_change() {
    let actions = build_file_actions(
        vec![b("a"), b("b")],
        &vec![5, 0],
        &vec![true, false],
    );
    assert_eq!(actions.len(), 2);
    assert!(matches!(&actions[0], FileAction::Add { size: 5, data_change: true, .. }));
    assert!(matches!(&actions[1], FileAction::Remove { data_change: true, .. }));
}

#[test]
fn force_unsafe_rename_sets_the_flag_and_keeps_other_options() {
    let opts = StorageOptions {
        entries: vec![
            OptionEntry { key: b("AWS_ACCESS_KEY_ID"), value: b("k") },
            OptionEntry { key: b("AWS_S3_ALLOW_UNSAFE_RENAME"), value: b("false") },
            OptionEntry { key: b("AWS_ENDPOINT"), value: b("http://minio") },
        ],
    };
    let forced = force_unsafe_rename(opts);
    assert_eq!(forced.entries.len(), 3);
    assert_eq!(forced.entries[0].key, b("AWS_ACCESS_KEY_ID"));
    assert_eq!(forced.entries[0].value, b("k"));
    assert_eq!(forced.entries[1].key, b("AWS_ENDPOINT"));
    let last = &forced.entries[2];
    assert_eq!(last.key, b("AWS_S3_ALLOW_UNSAFE_RENAME"));
    assert_eq!(last.value, b("true"));
}

#[test]
fn force_unsafe_rename_adds_the_flag_when_absent() {
    let opts = StorageOptions { entries: vec![] };
    let forced = force_unsafe_rename(opts);
    assert_eq!(forced.entries.len(), 1);
    assert_eq!(forced.entries[0].key, b("AWS_S3_ALLOW_UNSAFE_RENAME"));
    assert_eq!(forced.entries[0].value, b("true"));
}

#[test]
fn tables_at_other_locations_are_untouched_by_a_commit() {
    let mut store = TableStore::new();
    store.create_table(b("t1"), b("loc1"), columns()).expect("created");
    store.create_table(b("t2"), b("loc2"), columns()).expect("created");
    let actions = build_file_actions(vec![b("f")], &vec![9], &vec![true]);
    store.commit_file_actions("loc2".as_bytes(), actions).expect("commit");
    assert_eq!(store.find("loc1".as_bytes()).unwrap().log.len(), 0);
    assert_eq!(store.find("loc2".as_bytes()).unwrap().log.len(), 1);
}

#[test]
fn drop_table_is_idempotent_and_reports_existence() {
    let mut store = TableStore::new();
    store.create_table(b("t"), b("loc"), columns()).expect("created");
    assert!(store.drop_table("loc".as_bytes()));
    assert!(store.find("loc".as_bytes()).is_none());
    // Dropping again — or dropping a location never created — is a
    // successful no-op.
    assert!(!store.drop_table("loc".as_bytes()));
    assert!(!store.drop_table("never-created".as_bytes()));
}

#[test]
fn drop_table_leaves_other_tables_standing() {
    let mut store = TableStore::new();
    store.create_table(b("t1"), b("loc1"), columns()).expect("created");
    store.create_table(b("t2"), b("loc2"), columns()).expect("created");
    assert!(store.drop_table("loc1".as_bytes()));
    assert!(store.find("loc1".as_bytes()).is_none());
    assert!(store.find("loc2".as_bytes()).is_some());
}

#[test]
fn dropped_location_can_be_created_again() {
    let mut store = TableStore::new();
    store.create_table(b("t"), b("loc"), columns()).expect("created");
    store.drop_table("loc".as_bytes());
    assert_eq!(store.create_table(b("t"), b("loc"), columns()), Ok(()));
}
