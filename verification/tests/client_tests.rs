use mooncake::client::{
    create_snapshot, create_table, drop_table, list_tables, load_files, optimize_table,
    scan_table_begin, scan_table_end,
};
use mooncake::codec::{decode_request, FrameAssembler};
use mooncake::protocol::{Request, TableIdentity};

fn ident(database_id: u32, table_id: u32) -> TableIdentity {
    TableIdentity { database_id, table_id }
}

fn b(s: &str) -> Vec<u8> {
    s.as_bytes().to_vec()
}

/// Unframes one frame and decodes its payload as a request.
fn unframe(frame: Vec<u8>) -> Request {
    let mut assembler = FrameAssembler::new();
    assembler.push_chunk(&frame);
    let payload = assembler.take_frame().expect("client frames are complete");
    assert!(assembler.take_frame().is_none());
    decode_request(&payload).expect("client frames decode")
}

#[test]
fn create_snapshot_frames_its_request() {
    let frame = create_snapshot(ident(4, 5), 77);
    assert_eq!(
        unframe(frame),
        Request::CreateSnapshot { identity: ident(4, 5), lsn: 77 }
    );
}

#[test]
fn create_table_frames_its_request() {
    let frame = create_table(ident(1, 2), b("dst-uri"), b("public.src"), b("src-uri"));
    assert_eq!(
        unframe(frame),
        Request::CreateTable {
            identity: ident(1, 2),
            dst_uri: b("dst-uri"),
            src: b("public.src"),
            src_uri: b("src-uri"),
        }
    );
}

#[test]
fn drop_table_frames_its_request() {
    let frame = drop_table(ident(6, 7));
    assert_eq!(unframe(frame), Request::DropTable { identity: ident(6, 7) });
}

#[test]
fn scan_table_begin_frames_its_request() {
    let frame = scan_table_begin(ident(1, 9), 12345);
    assert_eq!(
        unframe(frame),
        Request::ScanTableBegin { identity: ident(1, 9), lsn: 12345 }
    );
}

#[test]
fn scan_table_end_frames_its_request() {
    let frame = scan_table_end(ident(1, 9));
    assert_eq!(unframe(frame), Request::ScanTableEnd { identity: ident(1, 9) });
}

#[test]
fn list_tables_frames_its_request() {
    let frame = list_tables();
    assert_eq!(frame, vec![1u8, 0, 0, 0, 5]);
    assert_eq!(unframe(frame), Request::ListTables);
}

#[test]
fn load_files_frames_its_request() {
    let frame = load_files(ident(2, 3), vec![b("one.parquet"), b("two.parquet")]);
    assert_eq!(
        unframe(frame),
        Request::LoadFiles {
            identity: ident(2, 3),
            file_paths: vec![b("one.parquet"), b("two.parquet")],
        }
    );
}

#[test]
fn optimize_table_frames_its_request() {
    let frame = optimize_table(ident(2, 3), b("compact"));
    assert_eq!(
        unframe(frame),
        Request::OptimizeTable { identity: ident(2, 3), mode: b("compact") }
    );
}
