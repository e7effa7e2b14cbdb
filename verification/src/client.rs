//! Client-side request builders: one function per logical operation,
//! each producing the exact framed bytes that go on the wire.
//!
//! The process edge around them owns the transport: it acquires a pooled
//! connection, writes the frame, reads the response frame back, and
//! decodes it — exactly one request/response exchange in flight per
//! connection.

use vstd::bytes::{lemma_auto_spec_u32_to_from_le_bytes, lemma_auto_spec_u64_to_from_le_bytes};
use vstd::prelude::*;

use crate::codec::{
    bytes_wf, encode_frame, encode_request, req_wf, spec_encode_request, spec_frame,
};
use crate::protocol::{ReqModel, Request, TableIdentity};

verus! {

/// The framed wire bytes asking the service to publish all data durable
/// as of the given position into a new snapshot of the table.
pub fn create_snapshot(identity: TableIdentity, lsn: u64) -> (frame: Vec<u8>)
    ensures
        frame@ == spec_frame(spec_encode_request(ReqModel::CreateSnapshot { identity, lsn })),
{
    let req = Request::CreateSnapshot { identity, lsn };
    let payload = encode_request(&req);
    proof {
        lemma_auto_spec_u32_to_from_le_bytes();
        lemma_auto_spec_u64_to_from_le_bytes();
    }
    encode_frame(payload.as_slice())
}

/// The framed wire bytes asking the service to create the table, given
/// the destination URI and the source table with its connection URI.
pub fn create_table(
    identity: TableIdentity,
    dst_uri: Vec<u8>,
    src: Vec<u8>,
    src_uri: Vec<u8>,
) -> (frame: Vec<u8>)
    requires
        ({
            let r = ReqModel::CreateTable {
                identity,
                dst_uri: dst_uri@,
                src: src@,
                src_uri: src_uri@,
            };
            req_wf(r) && bytes_wf(spec_encode_request(r))
        }),
    ensures
        frame@ == spec_frame(
            spec_encode_request(
                ReqModel::CreateTable { identity, dst_uri: dst_uri@, src: src@, src_uri: src_uri@ },
            ),
        ),
{
    let req = Request::CreateTable { identity, dst_uri, src, src_uri };
    let payload = encode_request(&req);
    encode_frame(payload.as_slice())
}

/// The framed wire bytes asking the service to drop the table.
pub fn drop_table(identity: TableIdentity) -> (frame: Vec<u8>)
    ensures
        frame@ == spec_frame(spec_encode_request(ReqModel::DropTable { identity })),
{
    let req = Request::DropTable { identity };
    let payload = encode_request(&req);
    proof {
        lemma_auto_spec_u32_to_from_le_bytes();
    }
    encode_frame(payload.as_slice())
}

/// The framed wire bytes opening a scan of the table's state visible at
/// or after the given position; the response carries the materialized
/// buffer.
pub fn scan_table_begin(identity: TableIdentity, lsn: u64) -> (frame: Vec<u8>)
    ensures
        frame@ == spec_frame(spec_encode_request(ReqModel::ScanTableBegin { identity, lsn })),
{
    let req = Request::ScanTableBegin { identity, lsn };
    let payload = encode_request(&req);
    proof {
        lemma_auto_spec_u32_to_from_le_bytes();
        lemma_auto_spec_u64_to_from_le_bytes();
    }
    encode_frame(payload.as_slice())
}

/// The framed wire bytes ending the table's open scan, releasing its
/// buffer on the service side.
pub fn scan_table_end(identity: TableIdentity) -> (frame: Vec<u8>)
    ensures
        frame@ == spec_frame(spec_encode_request(ReqModel::ScanTableEnd { identity })),
{
    let req = Request::ScanTableEnd { identity };
    let payload = encode_request(&req);
    proof {
        lemma_auto_spec_u32_to_from_le_bytes();
    }
    encode_frame(payload.as_slice())
}

/// The framed wire bytes asking for the listing of the caller's tables.
pub fn list_tables() -> (frame: Vec<u8>)
    ensures
        frame@ == spec_frame(spec_encode_request(ReqModel::ListTables)),
{
    let req = Request::ListTables;
    let payload = encode_request(&req);
    encode_frame(payload.as_slice())
}

/// The framed wire bytes asking the service to load the given files into
/// the table.
pub fn load_files(identity: TableIdentity, file_paths: Vec<Vec<u8>>) -> (frame: Vec<u8>)
    requires
        ({
            let r = ReqModel::LoadFiles {
                identity,
                file_paths: file_paths@.map_values(|p: Vec<u8>| p@),
            };
            req_wf(r) && bytes_wf(spec_encode_request(r))
        }),
    ensures
        frame@ == spec_frame(
            spec_encode_request(
                ReqModel::LoadFiles {
                    identity,
                    file_paths: file_paths@.map_values(|p: Vec<u8>| p@),
                },
            ),
        ),
{
    let req = Request::LoadFiles { identity, file_paths };
    let payload = encode_request(&req);
    encode_frame(payload.as_slice())
}

/// The framed wire bytes asking the service to run the named maintenance
/// mode over the table.
pub fn optimize_table(identity: TableIdentity, mode: Vec<u8>) -> (frame: Vec<u8>)
    requires
        ({
            let r = ReqModel::OptimizeTable { identity, mode: mode@ };
            req_wf(r) && bytes_wf(spec_encode_request(r))
        }),
    ensures
        frame@ == spec_frame(
            spec_encode_request(ReqModel::OptimizeTable { identity, mode: mode@ }),
        ),
{
    let req = Request::OptimizeTable { identity, mode };
    let payload = encode_request(&req);
    encode_frame(payload.as_slice())
}

} // verus!
