use mooncake::protocol::{Request, Response, TableIdentity, TableInfo};
use mooncake::registry::ScanRegistry;
use mooncake::session::{needs_backend, BackendReply, Session};

fn ident(database_id: u32, table_id: u32) -> TableIdentity {
    TableIdentity { database_id, table_id }
}

fn b(s: &str) -> Vec<u8> {
    s.as_bytes().to_vec()
}

fn info(database: &str, table: &str, cardinality: u64) -> TableInfo {
    TableInfo {
        database: b(database),
        table: b(table),
        cardinality,
        commit_lsn: 10,
        flush_lsn: None,
        warehouse_location: b("loc"),
    }
}

#[test]
fn registry_begin_then_end_leaves_no_entry() {
    let mut reg = ScanRegistry::new();
    let id = ident(1, 2);
    reg.begin(id, vec![1, 2, 3]);
    assert!(reg.has_scan(id));
    let released = reg.end(id);
    assert_eq!(released, Some(vec![1, 2, 3]));
    assert!(!reg.has_scan(id));
    assert_eq!(reg.open_scans(), 0);
}

#[test]
fn registry_end_without_begin_is_a_no_op() {
    let mut reg = ScanRegistry::new();
    let other = ident(1, 2);
    reg.begin(other, vec![9]);
    let released = reg.end(ident(3, 4));
    assert_eq!(released, None);
    assert!(reg.has_scan(other));
    assert_eq!(reg.open_scans(), 1);
}

#[test]
fn registry_begin_replaces_prior_entry() {
    let mut reg = ScanRegistry::new();
    let id = ident(1, 2);
    reg.begin(id, vec![1]);
    reg.begin(id, vec![2]);
    assert_eq!(reg.open_scans(), 1);
    assert_eq!(reg.end(id), Some(vec![2]));
}

#[test]
fn registry_distinguishes_identities_with_swapped_components() {
    let mut reg = ScanRegistry::new();
    reg.begin(ident(1, 2), vec![1]);
    reg.begin(ident(2, 1), vec![2]);
    assert_eq!(reg.open_scans(), 2);
    assert_eq!(reg.end(ident(1, 2)), Some(vec![1]));
    assert_eq!(reg.end(ident(2, 1)), Some(vec![2]));
}

#[test]
fn only_scan_table_end_skips_the_backend() {
    let id = ident(1, 2);
    assert!(needs_backend(&Request::CreateSnapshot { identity: id, lsn: 1 }));
    assert!(needs_backend(&Request::ScanTableBegin { identity: id, lsn: 1 }));
    assert!(needs_backend(&Request::ListTables));
    assert!(!needs_backend(&Request::ScanTableEnd { identity: id }));
}

#[test]
fn scan_begin_stores_buffer_and_returns_its_bytes() {
    let mut session = Session::new(b("sales"));
    let id = ident(1, 2);
    let resp = session.respond(
        Request::ScanTableBegin { identity: id, lsn: 5 },
        BackendReply::Bytes(Ok(vec![7, 8, 9])),
    );
    assert_eq!(resp, Response::Bytes(vec![7, 8, 9]));
    assert_eq!(session.open_scan_count(), 1);
}

#[test]
fn scan_end_releases_the_buffer_and_returns_unit() {
    let mut session = Session::new(b("sales"));
    let id = ident(1, 2);
    session.respond(
        Request::ScanTableBegin { identity: id, lsn: 5 },
        BackendReply::Bytes(Ok(vec![7])),
    );
    let resp = session.respond(
        Request::ScanTableEnd { identity: id },
        BackendReply::Unit(Ok(())),
    );
    assert_eq!(resp, Response::Unit);
    assert_eq!(session.open_scan_count(), 0);
}

#[test]
fn scan_end_without_begin_responds_unit_without_panicking() {
    let mut session = Session::new(b("sales"));
    let resp = session.respond(
        Request::ScanTableEnd { identity: ident(9, 9) },
        BackendReply::Unit(Ok(())),
    );
    assert_eq!(resp, Response::Unit);
    assert_eq!(session.open_scan_count(), 0);
}

#[test]
fn failed_scan_begin_stores_nothing_and_surfaces_the_error() {
    let mut session = Session::new(b("sales"));
    let resp = session.respond(
        Request::ScanTableBegin { identity: ident(1, 2), lsn: 5 },
        BackendReply::Bytes(Err(b("no such table"))),
    );
    assert_eq!(resp, Response::Error(b("no such table")));
    assert_eq!(session.open_scan_count(), 0);
}

#[test]
fn backend_failure_is_surfaced_verbatim() {
    let mut session = Session::new(b("sales"));
    let resp = session.respond(
        Request::CreateTable {
            identity: ident(1, 2),
            dst_uri: b("dst"),
            src: b("src"),
            src_uri: b("srcu"),
        },
        BackendReply::Unit(Err(b("table already exists"))),
    );
    assert_eq!(resp, Response::Error(b("table already exists")));
}

#[test]
fn list_tables_is_filtered_to_the_requesting_database() {
    let mut session = Session::new(b("sales"));
    let listing = vec![
        info("sales", "a", 1),
        info("hr", "b", 2),
        info("sales", "c", 3),
        info("inventory", "d", 4),
    ];
    let resp = session.respond(Request::ListTables, BackendReply::Tables(Ok(listing)));
    match resp {
        Response::Tables(kept) => {
            assert_eq!(kept.len(), 2);
            assert_eq!(kept[0].table, b("a"));
            assert_eq!(kept[1].table, b("c"));
        }
        other => panic!("expected a listing, got {:?}", other),
    }
}

#[test]
fn disconnect_mid_scan_releases_registry_entries_on_close() {
    let mut session = Session::new(b("sales"));
    session.respond(
        Request::ScanTableBegin { identity: ident(1, 2), lsn: 5 },
        BackendReply::Bytes(Ok(vec![1])),
    );
    session.respond(
        Request::ScanTableBegin { identity: ident(1, 3), lsn: 6 },
        BackendReply::Bytes(Ok(vec![2])),
    );
    assert_eq!(session.open_scan_count(), 2);
    // The peer disconnects without sending the scan ends; the handling
    // task closes its session on the way out.
    session.close();
    assert_eq!(session.open_scan_count(), 0);
}
