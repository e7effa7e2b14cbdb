//! Session dispatcher: the server-side decisions for one accepted
//! connection.
//!
//! One session serves one connection.  The process edge around it runs
//! the loop — receive a frame, decode, perform the backend operation the
//! request calls for, hand the outcome back, send the encoded response —
//! while the session decides, for each request and backend outcome, what
//! the response is and how the scan registry changes.  Request/response
//! pairing is strict: exactly one response per request, in order.
//!
//! Scan state is scoped to the session: when the connection's handling
//! ends — orderly end of input or not — closing the session releases
//! every scan the peer left open, so a client that disconnects mid-scan
//! leaks nothing across reconnects.

use vstd::prelude::*;

use crate::codec::{bytes_wf, info_wf, resp_wf};
use crate::protocol::{InfoModel, ReqModel, Request, RespModel, Response, TableInfo};
use crate::registry::ScanRegistry;

verus! {

broadcast use vstd::seq_lib::group_filter_ensures, Seq::<_>::lemma_filter_push;

/// One connection's server-side state: the namespace it asked for and
/// the scans it holds open.
pub struct Session {
    database: Vec<u8>,
    registry: ScanRegistry,
}

/// The mathematical model of a session.
#[verifier::ext_equal]
pub struct SessionModel {
    pub database: Seq<u8>,
    pub scans: Map<u64, Seq<u8>>,
}

impl View for Session {
    type V = SessionModel;

    closed spec fn view(&self) -> SessionModel {
        SessionModel { database: self.database@, scans: self.registry@ }
    }
}

/// The outcome of the one backend operation a request maps to, as the
/// process edge hands it back: unit for lifecycle and maintenance
/// operations, a materialized buffer for a scan, a listing for an
/// enumeration; or the backend's error description.
pub enum BackendReply {
    Unit(Result<(), Vec<u8>>),
    Bytes(Result<Vec<u8>, Vec<u8>>),
    Tables(Result<Vec<TableInfo>, Vec<u8>>),
}

/// The mathematical model of a backend reply.
#[verifier::ext_equal]
pub enum ReplyModel {
    Unit(Result<(), Seq<u8>>),
    Bytes(Result<Seq<u8>, Seq<u8>>),
    Tables(Result<Seq<InfoModel>, Seq<u8>>),
}

impl View for BackendReply {
    type V = ReplyModel;

    open spec fn view(&self) -> ReplyModel {
        match self {
            BackendReply::Unit(Result::Ok(())) => ReplyModel::Unit(Result::Ok(())),
            BackendReply::Unit(Result::Err(e)) => ReplyModel::Unit(Result::Err(e@)),
            BackendReply::Bytes(Result::Ok(b)) => ReplyModel::Bytes(Result::Ok(b@)),
            BackendReply::Bytes(Result::Err(e)) => ReplyModel::Bytes(Result::Err(e@)),
            BackendReply::Tables(Result::Ok(l)) => ReplyModel::Tables(
                Result::Ok(l@.map_values(|t: TableInfo| t@)),
            ),
            BackendReply::Tables(Result::Err(e)) => ReplyModel::Tables(Result::Err(e@)),
        }
    }
}

/// Whether a request calls for a backend operation before its response
/// can be formed.  Ending a scan is the one request the dispatcher
/// serves from its own registry.
pub open spec fn spec_needs_backend(req: ReqModel) -> bool {
    !(req is ScanTableEnd)
}

/// Which reply shape each request's backend operation yields: a scan
/// returns a buffer, a listing returns tables, everything else returns
/// unit; a request without a backend operation gets the trivial unit
/// outcome.
pub open spec fn reply_shape_ok(req: ReqModel, reply: ReplyModel) -> bool {
    match req {
        ReqModel::ScanTableBegin { .. } => reply is Bytes,
        ReqModel::ListTables => reply is Tables,
        ReqModel::ScanTableEnd { .. } => reply == ReplyModel::Unit(Result::<(), Seq<u8>>::Ok(())),
        _ => reply is Unit,
    }
}

/// Whether a reply's payloads fit the wire format's length fields, so
/// that the response formed from it can be framed.
pub open spec fn reply_wf(reply: ReplyModel) -> bool {
    match reply {
        ReplyModel::Unit(Result::Ok(())) => true,
        ReplyModel::Unit(Result::Err(e)) => bytes_wf(e),
        ReplyModel::Bytes(Result::Ok(b)) => bytes_wf(b),
        ReplyModel::Bytes(Result::Err(e)) => bytes_wf(e),
        ReplyModel::Tables(Result::Ok(l)) => l.len() <= u32::MAX && (forall|i: int|
            0 <= i < l.len() ==> info_wf(#[trigger] l[i])),
        ReplyModel::Tables(Result::Err(e)) => bytes_wf(e),
    }
}

/// The listing entries that belong to the requesting database's
/// namespace, in order.
pub open spec fn spec_filter_tables(l: Seq<InfoModel>, database: Seq<u8>) -> Seq<InfoModel> {
    l.filter(|t: InfoModel| t.database == database)
}

/// How one request and its backend outcome change the session's scans: a
/// successful scan begin stores the buffer under the identity (replacing
/// any prior entry), a scan end removes the identity's entry, and
/// nothing else touches the registry.
pub open spec fn spec_scans_after(
    scans: Map<u64, Seq<u8>>,
    req: ReqModel,
    reply: ReplyModel,
) -> Map<u64, Seq<u8>> {
    match req {
        ReqModel::ScanTableBegin { identity, lsn } => match reply {
            ReplyModel::Bytes(Result::Ok(b)) => scans.insert(identity.spec_key(), b),
            _ => scans,
        },
        ReqModel::ScanTableEnd { identity } => scans.remove(identity.spec_key()),
        _ => scans,
    }
}

/// The response one request and its backend outcome produce: a backend
/// failure is surfaced verbatim as an error response; a scan begin
/// returns the buffer's bytes; a listing is filtered to the requesting
/// database's namespace; everything else returns the empty success.
pub open spec fn spec_response(database: Seq<u8>, req: ReqModel, reply: ReplyModel) -> RespModel {
    match req {
        ReqModel::ScanTableBegin { .. } => match reply {
            ReplyModel::Bytes(Result::Ok(b)) => RespModel::Bytes(b),
            ReplyModel::Bytes(Result::Err(e)) => RespModel::Error(e),
            _ => RespModel::Unit,
        },
        ReqModel::ScanTableEnd { .. } => RespModel::Unit,
        ReqModel::ListTables => match reply {
            ReplyModel::Tables(Result::Ok(l)) => RespModel::Tables(
                spec_filter_tables(l, database),
            ),
            ReplyModel::Tables(Result::Err(e)) => RespModel::Error(e),
            _ => RespModel::Unit,
        },
        _ => match reply {
            ReplyModel::Unit(Result::Ok(())) => RespModel::Unit,
            ReplyModel::Unit(Result::Err(e)) => RespModel::Error(e),
            _ => RespModel::Unit,
        },
    }
}

/// Whether a request calls for a backend operation.
pub fn needs_backend(req: &Request) -> (b: bool)
    ensures
        b == spec_needs_backend(req@),
{
    !(matches!(req, Request::ScanTableEnd { .. }))
}

/// Keeps exactly the listing entries of the given database's namespace,
/// in order.
pub fn filter_tables(tables: Vec<TableInfo>, database: &[u8]) -> (out: Vec<TableInfo>)
    ensures
        out@.map_values(|t: TableInfo| t@) == spec_filter_tables(
            tables@.map_values(|t: TableInfo| t@),
            database@,
        ),
        forall|j: int|
            0 <= j < out@.len() ==> tables@.map_values(|t: TableInfo| t@).contains(
                #[trigger] out@[j]@,
            ),
{
    let ghost orig = tables@.map_values(|t: TableInfo| t@);
    let ghost pred = |t: InfoModel| t.database == database@;
    let total = tables.len();
    let mut rest = tables;
    let mut out: Vec<TableInfo> = Vec::new();
    let mut i: usize = 0;
    proof {
        assert(orig.take(0).filter(pred) =~= Seq::<InfoModel>::empty());
    }
    while rest.len() > 0
        invariant
            orig.len() == total,
            orig == orig.take(i as int) + rest@.map_values(|t: TableInfo| t@),
            i + rest@.len() == total,
            out@.map_values(|t: TableInfo| t@) == orig.take(i as int).filter(pred),
            forall|j: int| 0 <= j < out@.len() ==> orig.contains(#[trigger] out@[j]@),
            pred == (|t: InfoModel| t.database == database@),
        decreases rest@.len(),
    {
        let t = rest.remove(0);
        proof {
            assert(t@ == orig[i as int]);
            assert(orig.take(i + 1) =~= orig.take(i as int).push(t@));
        }
        let keep = crate::bytes_eq(t.database.as_slice(), database);
        let ghost pre_out = out@.map_values(|t: TableInfo| t@);
        if keep {
            proof {
                assert(orig.contains(t@)) by {
                    assert(orig[i as int] == t@);
                }
            }
            out.push(t);
            proof {
                assert(out@.map_values(|t: TableInfo| t@) =~= pre_out.push(out@.last()@));
            }
        }
        i = i + 1;
        proof {
            assert(orig =~= orig.take(i as int) + rest@.map_values(|t: TableInfo| t@));
        }
    }
    proof {
        assert(orig.take(i as int) =~= orig);
    }
    out
}

impl Session {
    /// A fresh session for a connection serving the given database's
    /// namespace, with no open scans.
    pub fn new(database: Vec<u8>) -> (s: Self)
        ensures
            s@.database == database@,
            s@.scans == Map::<u64, Seq<u8>>::empty(),
    {
        Session { database, registry: ScanRegistry::new() }
    }

    /// Decides one request: given the outcome of the request's backend
    /// operation, updates the scan registry and forms the one response
    /// owed for the request.
    pub fn respond(&mut self, req: Request, reply: BackendReply) -> (resp: Response)
        requires
            reply_shape_ok(req@, reply@),
            reply_wf(reply@),
        ensures
            final(self)@.database == old(self)@.database,
            final(self)@.scans == spec_scans_after(old(self)@.scans, req@, reply@),
            resp@ == spec_response(old(self)@.database, req@, reply@),
            resp_wf(resp@),
    {
        match req {
            Request::ScanTableBegin { identity, lsn } => match reply {
                BackendReply::Bytes(Result::Ok(buffer)) => {
                    let bytes = buffer.clone();
                    self.registry.begin(identity, buffer);
                    proof {
                        assert(bytes@ == buffer@);
                    }
                    Response::Bytes(bytes)
                },
                BackendReply::Bytes(Result::Err(e)) => Response::Error(e),
                _ => vstd::pervasive::unreached(),
            },
            Request::ScanTableEnd { identity } => {
                let _released = self.registry.end(identity);
                Response::Unit
            },
            Request::ListTables => match reply {
                BackendReply::Tables(Result::Ok(tables)) => {
                    let ghost orig = tables@.map_values(|t: TableInfo| t@);
                    let kept = filter_tables(tables, self.database.as_slice());
                    proof {
                        let l = kept@.map_values(|t: TableInfo| t@);
                        assert(l.len() <= u32::MAX);
                        assert forall|i: int| 0 <= i < l.len() implies info_wf(
                            #[trigger] l[i],
                        ) by {
                            assert(orig.contains(kept@[i]@));
                            let k = choose|k: int| 0 <= k < orig.len() && orig[k] == kept@[i]@;
                            assert(info_wf(orig[k]));
                        }
                    }
                    Response::Tables(kept)
                },
                BackendReply::Tables(Result::Err(e)) => Response::Error(e),
                _ => vstd::pervasive::unreached(),
            },
            _ => match reply {
                BackendReply::Unit(Result::Ok(())) => Response::Unit,
                BackendReply::Unit(Result::Err(e)) => Response::Error(e),
                _ => vstd::pervasive::unreached(),
            },
        }
    }

    /// Whether the session holds an open scan for the packed identity
    /// key.
    pub fn open_scan_count(&self) -> (n: usize)
        ensures
            n == self@.scans.dom().len(),
    {
        self.registry.open_scans()
    }

    /// Ends the session: releases every scan the connection still holds
    /// open.  The process edge calls this when the connection's handling
    /// ends, orderly or not, so a disconnect mid-scan leaves no registry
    /// entry alive.
    pub fn close(&mut self)
        ensures
            final(self)@.database == old(self)@.database,
            final(self)@.scans == Map::<u64, Seq<u8>>::empty(),
    {
        self.registry.release_all();
    }
}

} // verus!
