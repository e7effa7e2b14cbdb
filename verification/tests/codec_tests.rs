use mooncake::codec::{
    check_eof, decode_request, decode_response, encode_frame, encode_request, encode_response,
    Eof, FrameAssembler, IoErrorKind,
};
use mooncake::protocol::{Request, Response, TableIdentity, TableInfo};

fn ident(database_id: u32, table_id: u32) -> TableIdentity {
    TableIdentity { database_id, table_id }
}

fn bytes(s: &str) -> Vec<u8> {
    s.as_bytes().to_vec()
}

fn sample_info() -> TableInfo {
    TableInfo {
        database: bytes("sales"),
        table: bytes("public.orders"),
        cardinality: 42,
        commit_lsn: 900,
        flush_lsn: Some(850),
        warehouse_location: bytes("s3://bucket/orders"),
    }
}

#[test]
fn round_trip_create_snapshot() {
    let req = Request::CreateSnapshot { identity: ident(7, 9), lsn: 123456789 };
    let payload = encode_request(&req);
    assert_eq!(decode_request(&payload), Ok(req));
}

#[test]
fn round_trip_create_table() {
    let req = Request::CreateTable {
        identity: ident(1, 2),
        dst_uri: bytes("postgresql:///db?host=%2Ftmp"),
        src: bytes("public.t"),
        src_uri: bytes("postgresql:///db2"),
    };
    let payload = encode_request(&req);
    assert_eq!(decode_request(&payload), Ok(req));
}

#[test]
fn round_trip_drop_table() {
    let req = Request::DropTable { identity: ident(0, u32::MAX) };
    let payload = encode_request(&req);
    assert_eq!(decode_request(&payload), Ok(req));
}

#[test]
fn round_trip_scan_table_begin() {
    let req = Request::ScanTableBegin { identity: ident(3, 4), lsn: u64::MAX };
    let payload = encode_request(&req);
    assert_eq!(decode_request(&payload), Ok(req));
}

#[test]
fn round_trip_scan_table_end() {
    let req = Request::ScanTableEnd { identity: ident(3, 4) };
    let payload = encode_request(&req);
    assert_eq!(decode_request(&payload), Ok(req));
}

#[test]
fn round_trip_list_tables() {
    let req = Request::ListTables;
    let payload = encode_request(&req);
    assert_eq!(payload, vec![5u8]);
    assert_eq!(decode_request(&payload), Ok(req));
}

#[test]
fn round_trip_load_files() {
    let req = Request::LoadFiles {
        identity: ident(8, 1),
        file_paths: vec![bytes("a.parquet"), bytes(""), bytes("dir/b.parquet")],
    };
    let payload = encode_request(&req);
    assert_eq!(decode_request(&payload), Ok(req));
}

#[test]
fn round_trip_load_files_empty_list() {
    let req = Request::LoadFiles { identity: ident(8, 1), file_paths: vec![] };
    let payload = encode_request(&req);
    assert_eq!(decode_request(&payload), Ok(req));
}

#[test]
fn round_trip_optimize_table() {
    let req = Request::OptimizeTable { identity: ident(5, 6), mode: bytes("full") };
    let payload = encode_request(&req);
    assert_eq!(decode_request(&payload), Ok(req));
}

#[test]
fn round_trip_response_unit() {
    let resp = Response::Unit;
    let payload = encode_response(&resp);
    assert_eq!(payload, vec![0u8]);
    assert_eq!(decode_response(&payload), Ok(resp));
}

#[test]
fn round_trip_response_bytes() {
    let resp = Response::Bytes(vec![0, 1, 2, 255, 254]);
    let payload = encode_response(&resp);
    assert_eq!(decode_response(&payload), Ok(resp));
}

#[test]
fn round_trip_response_tables() {
    let second = TableInfo { flush_lsn: None, ..sample_info() };
    let resp = Response::Tables(vec![sample_info(), second]);
    let payload = encode_response(&resp);
    assert_eq!(decode_response(&payload), Ok(resp));
}

#[test]
fn round_trip_response_error() {
    let resp = Response::Error(bytes("table already exists"));
    let payload = encode_response(&resp);
    assert_eq!(decode_response(&payload), Ok(resp));
}

#[test]
fn create_snapshot_exact_wire_bytes() {
    let req = Request::CreateSnapshot { identity: ident(1, 2), lsn: 3 };
    let payload = encode_request(&req);
    assert_eq!(
        payload,
        vec![0u8, 1, 0, 0, 0, 2, 0, 0, 0, 3, 0, 0, 0, 0, 0, 0, 0]
    );
    let frame = encode_frame(&payload);
    assert_eq!(frame[..4], [17u8, 0, 0, 0]);
    assert_eq!(frame[4..], payload[..]);
}

#[test]
fn decode_rejects_empty_payload() {
    assert!(decode_request(&[]).is_err());
    assert!(decode_response(&[]).is_err());
}

#[test]
fn decode_rejects_unknown_tag() {
    assert!(decode_request(&[99u8]).is_err());
    assert!(decode_response(&[99u8]).is_err());
}

#[test]
fn decode_rejects_truncated_body() {
    let req = Request::CreateSnapshot { identity: ident(1, 2), lsn: 3 };
    let payload = encode_request(&req);
    assert!(decode_request(&payload[..payload.len() - 1]).is_err());
}

#[test]
fn decode_rejects_trailing_bytes() {
    let req = Request::DropTable { identity: ident(1, 2) };
    let mut payload = encode_request(&req);
    payload.push(0);
    assert!(decode_request(&payload).is_err());
}

#[test]
fn decode_rejects_overlong_string_length() {
    // OptimizeTable whose mode claims 100 bytes but delivers none.
    let identity_then_len = vec![7u8, 1, 0, 0, 0, 2, 0, 0, 0, 100, 0, 0, 0];
    assert!(decode_request(&identity_then_len).is_err());
}

#[test]
fn frame_split_across_partial_reads_decodes_identically() {
    let req = Request::CreateTable {
        identity: ident(11, 12),
        dst_uri: bytes("dst"),
        src: bytes("schema.table"),
        src_uri: bytes("src-uri"),
    };
    let payload = encode_request(&req);
    let frame = encode_frame(&payload);

    // Delivered whole.
    let mut whole = FrameAssembler::new();
    whole.push_chunk(&frame);
    let got_whole = whole.take_frame().expect("complete frame");

    // Delivered one byte at a time.
    let mut split = FrameAssembler::new();
    for byte in &frame {
        assert!(split.take_frame().is_none());
        split.push_chunk(&[*byte]);
    }
    let got_split = split.take_frame().expect("complete frame");

    assert_eq!(got_whole, payload);
    assert_eq!(got_split, payload);
    assert_eq!(decode_request(&got_split), Ok(req));
}

#[test]
fn assembler_waits_for_complete_frame() {
    let payload = encode_request(&Request::ListTables);
    let frame = encode_frame(&payload);
    let mut assembler = FrameAssembler::new();
    assembler.push_chunk(&frame[..3]);
    assert!(assembler.take_frame().is_none());
    assembler.push_chunk(&frame[3..4]);
    assert!(assembler.take_frame().is_none());
    assembler.push_chunk(&frame[4..]);
    assert_eq!(assembler.take_frame(), Some(payload));
    assert!(assembler.take_frame().is_none());
}

#[test]
fn assembler_keeps_second_frame_buffered() {
    let p1 = encode_request(&Request::ListTables);
    let p2 = encode_request(&Request::DropTable { identity: ident(1, 1) });
    let mut both = encode_frame(&p1);
    both.extend_from_slice(&encode_frame(&p2));
    let mut assembler = FrameAssembler::new();
    assembler.push_chunk(&both);
    assert_eq!(assembler.take_frame(), Some(p1));
    assert_eq!(assembler.take_frame(), Some(p2));
    assert!(assembler.take_frame().is_none());
}

#[test]
fn check_eof_passes_values_through() {
    let r: Result<u32, IoErrorKind> = Ok(7);
    assert_eq!(check_eof(r), Ok(7));
}

#[test]
fn check_eof_classifies_disconnects() {
    for kind in [
        IoErrorKind::BrokenPipe,
        IoErrorKind::ConnectionReset,
        IoErrorKind::UnexpectedEof,
    ] {
        let r: Result<u32, IoErrorKind> = Err(kind);
        assert_eq!(check_eof(r), Err(Eof));
    }
}
