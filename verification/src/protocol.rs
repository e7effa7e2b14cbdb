//! The protocol surface: table identities, requests, responses, and the
//! table listing entries that a `ListTables` reply carries.
//!
//! String-valued fields (URIs, table names, error descriptions) are held as
//! UTF-8 byte sequences; the process edge that talks to the outside world
//! converts them to and from text.

use vstd::prelude::*;

verus! {

/// Composite key identifying a table across the whole protocol surface.
#[derive(Clone, Copy, Debug, PartialEq, Eq, Hash, Structural)]
pub struct TableIdentity {
    pub database_id: u32,
    pub table_id: u32,
}

impl TableIdentity {
    /// The two 32-bit components packed into one 64-bit registry key.
    pub open spec fn spec_key(self) -> u64 {
        ((self.database_id as u64) << 32u64) | (self.table_id as u64)
    }

    /// Packs the identity into a single 64-bit key for registry lookups.
    pub fn key(self) -> (k: u64)
        ensures
            k == self.spec_key(),
    {
        ((self.database_id as u64) << 32u64) | (self.table_id as u64)
    }
}

/// Packing an identity into a 64-bit key loses nothing: two identities with
/// the same key are the same identity.
pub proof fn lemma_key_injective(a: TableIdentity, b: TableIdentity)
    requires
        a.spec_key() == b.spec_key(),
    ensures
        a == b,
{
    let a_db = a.database_id as u64;
    let a_tb = a.table_id as u64;
    let b_db = b.database_id as u64;
    let b_tb = b.table_id as u64;
    assert((a_db << 32u64) | a_tb == (b_db << 32u64) | b_tb ==> a_db == b_db && a_tb == b_tb)
        by (bit_vector)
        requires
            a_db <= u32::MAX,
            a_tb <= u32::MAX,
            b_db <= u32::MAX,
            b_tb <= u32::MAX,
    ;
}

/// One request on the wire.  Each variant is fully self-describing; no
/// variant depends on conversation history other than table identity
/// correlation.
#[derive(Clone, Debug, PartialEq, Eq)]
pub enum Request {
    CreateSnapshot { identity: TableIdentity, lsn: u64 },
    CreateTable { identity: TableIdentity, dst_uri: Vec<u8>, src: Vec<u8>, src_uri: Vec<u8> },
    DropTable { identity: TableIdentity },
    ScanTableBegin { identity: TableIdentity, lsn: u64 },
    ScanTableEnd { identity: TableIdentity },
    ListTables,
    LoadFiles { identity: TableIdentity, file_paths: Vec<Vec<u8>> },
    OptimizeTable { identity: TableIdentity, mode: Vec<u8> },
}

/// The mathematical model of a `Request`: the same variants over `Seq<u8>`.
#[verifier::ext_equal]
pub enum ReqModel {
    CreateSnapshot { identity: TableIdentity, lsn: u64 },
    CreateTable { identity: TableIdentity, dst_uri: Seq<u8>, src: Seq<u8>, src_uri: Seq<u8> },
    DropTable { identity: TableIdentity },
    ScanTableBegin { identity: TableIdentity, lsn: u64 },
    ScanTableEnd { identity: TableIdentity },
    ListTables,
    LoadFiles { identity: TableIdentity, file_paths: Seq<Seq<u8>> },
    OptimizeTable { identity: TableIdentity, mode: Seq<u8> },
}

impl View for Request {
    type V = ReqModel;

    open spec fn view(&self) -> ReqModel {
        match self {
            Request::CreateSnapshot { identity, lsn } => ReqModel::CreateSnapshot {
                identity: *identity,
                lsn: *lsn,
            },
            Request::CreateTable { identity, dst_uri, src, src_uri } => ReqModel::CreateTable {
                identity: *identity,
                dst_uri: dst_uri@,
                src: src@,
                src_uri: src_uri@,
            },
            Request::DropTable { identity } => ReqModel::DropTable { identity: *identity },
            Request::ScanTableBegin { identity, lsn } => ReqModel::ScanTableBegin {
                identity: *identity,
                lsn: *lsn,
            },
            Request::ScanTableEnd { identity } => ReqModel::ScanTableEnd { identity: *identity },
            Request::ListTables => ReqModel::ListTables,
            Request::LoadFiles { identity, file_paths } => ReqModel::LoadFiles {
                identity: *identity,
                file_paths: file_paths@.map_values(|p: Vec<u8>| p@),
            },
            Request::OptimizeTable { identity, mode } => ReqModel::OptimizeTable {
                identity: *identity,
                mode: mode@,
            },
        }
    }
}

/// One entry of a table listing: a table's name and namespace together with
/// its cardinality, commit and flush positions, and storage location.
#[derive(Clone, Debug, PartialEq, Eq)]
pub struct TableInfo {
    pub database: Vec<u8>,
    pub table: Vec<u8>,
    pub cardinality: u64,
    pub commit_lsn: u64,
    pub flush_lsn: Option<u64>,
    pub warehouse_location: Vec<u8>,
}

/// The mathematical model of a `TableInfo`.
#[verifier::ext_equal]
pub struct InfoModel {
    pub database: Seq<u8>,
    pub table: Seq<u8>,
    pub cardinality: u64,
    pub commit_lsn: u64,
    pub flush_lsn: Option<u64>,
    pub warehouse_location: Seq<u8>,
}

impl View for TableInfo {
    type V = InfoModel;

    open spec fn view(&self) -> InfoModel {
        InfoModel {
            database: self.database@,
            table: self.table@,
            cardinality: self.cardinality,
            commit_lsn: self.commit_lsn,
            flush_lsn: self.flush_lsn,
            warehouse_location: self.warehouse_location@,
        }
    }
}

/// One response on the wire: an opaque success payload (empty, a byte buffer
/// for scans, or a table listing) or a failure with an error description.
#[derive(Clone, Debug, PartialEq, Eq)]
pub enum Response {
    Unit,
    Bytes(Vec<u8>),
    Tables(Vec<TableInfo>),
    Error(Vec<u8>),
}

/// The mathematical model of a `Response`.
#[verifier::ext_equal]
pub enum RespModel {
    Unit,
    Bytes(Seq<u8>),
    Tables(Seq<InfoModel>),
    Error(Seq<u8>),
}

impl View for Response {
    type V = RespModel;

    open spec fn view(&self) -> RespModel {
        match self {
            Response::Unit => RespModel::Unit,
            Response::Bytes(b) => RespModel::Bytes(b@),
            Response::Tables(ts) => RespModel::Tables(ts@.map_values(|t: TableInfo| t@)),
            Response::Error(e) => RespModel::Error(e@),
        }
    }
}

} // verus!
