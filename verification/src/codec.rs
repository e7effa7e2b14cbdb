//! Wire codec: structured encoding of requests and responses, and the
//! length-prefixed framing that carries them.
//!
//! Every message on the wire is a 4-byte unsigned little-endian length
//! prefix followed by exactly that many bytes of encoded payload.  The
//! payload is a self-describing encoding of one request or response
//! variant: a one-byte tag, integers in a fixed width (little-endian),
//! byte strings as a 4-byte length followed by that many bytes, and
//! sequences as a 4-byte element count followed by the elements.
//!
//! Decoding fails distinctly for an incomplete frame (the peer is still
//! sending, or disconnected: an orderly end of input, not an error) versus
//! a payload that cannot be decoded into any known variant (a fatal
//! protocol violation).

use vstd::bytes::{
    spec_u32_from_le_bytes, spec_u32_to_le_bytes, spec_u64_from_le_bytes, spec_u64_to_le_bytes,
    u32_from_le_bytes, u32_to_le_bytes, u64_from_le_bytes, u64_to_le_bytes,
};
use vstd::prelude::*;

use crate::protocol::{InfoModel, ReqModel, Request, RespModel, Response, TableIdentity, TableInfo};

verus! {

// ---------------------------------------------------------------------------
// Specification-level encoders
// ---------------------------------------------------------------------------

/// A byte string small enough for its length to fit the 4-byte length field.
pub open spec fn bytes_wf(b: Seq<u8>) -> bool {
    b.len() <= u32::MAX
}

pub open spec fn enc_u32(x: u32) -> Seq<u8> {
    spec_u32_to_le_bytes(x)
}

pub open spec fn enc_u64(x: u64) -> Seq<u8> {
    spec_u64_to_le_bytes(x)
}

pub open spec fn enc_bytes(b: Seq<u8>) -> Seq<u8> {
    enc_u32(b.len() as u32) + b
}

/// Concatenation of the encodings of a sequence of byte strings (the
/// element count is encoded separately, before this).
pub open spec fn enc_bytes_seq(l: Seq<Seq<u8>>) -> Seq<u8>
    decreases l.len(),
{
    if l.len() == 0 {
        Seq::empty()
    } else {
        enc_bytes(l.first()) + enc_bytes_seq(l.drop_first())
    }
}

pub open spec fn enc_identity(id: TableIdentity) -> Seq<u8> {
    enc_u32(id.database_id) + enc_u32(id.table_id)
}

pub open spec fn enc_opt_u64(x: Option<u64>) -> Seq<u8> {
    match x {
        Option::None => seq![0u8],
        Option::Some(v) => seq![1u8] + enc_u64(v),
    }
}

pub open spec fn enc_info(t: InfoModel) -> Seq<u8> {
    enc_bytes(t.database) + enc_bytes(t.table) + enc_u64(t.cardinality) + enc_u64(t.commit_lsn)
        + enc_opt_u64(t.flush_lsn) + enc_bytes(t.warehouse_location)
}

/// Concatenation of the encodings of a sequence of listing entries.
pub open spec fn enc_info_seq(l: Seq<InfoModel>) -> Seq<u8>
    decreases l.len(),
{
    if l.len() == 0 {
        Seq::empty()
    } else {
        enc_info(l.first()) + enc_info_seq(l.drop_first())
    }
}

/// Whether a request's variable-length fields fit the 4-byte length fields.
pub open spec fn req_wf(r: ReqModel) -> bool {
    match r {
        ReqModel::CreateTable { identity, dst_uri, src, src_uri } => bytes_wf(dst_uri) && bytes_wf(
            src,
        ) && bytes_wf(src_uri),
        ReqModel::LoadFiles { identity, file_paths } => file_paths.len() <= u32::MAX && (forall|
            i: int,
        |
            0 <= i < file_paths.len() ==> bytes_wf(#[trigger] file_paths[i])),
        ReqModel::OptimizeTable { identity, mode } => bytes_wf(mode),
        _ => true,
    }
}

pub open spec fn info_wf(t: InfoModel) -> bool {
    bytes_wf(t.database) && bytes_wf(t.table) && bytes_wf(t.warehouse_location)
}

/// Whether a response's variable-length fields fit the 4-byte length fields.
pub open spec fn resp_wf(r: RespModel) -> bool {
    match r {
        RespModel::Unit => true,
        RespModel::Bytes(b) => bytes_wf(b),
        RespModel::Tables(l) => l.len() <= u32::MAX && (forall|i: int|
            0 <= i < l.len() ==> info_wf(#[trigger] l[i])),
        RespModel::Error(e) => bytes_wf(e),
    }
}

/// The encoded payload of one request: a one-byte variant tag followed by
/// the variant's fields.
pub open spec fn spec_encode_request(r: ReqModel) -> Seq<u8> {
    match r {
        ReqModel::CreateSnapshot { identity, lsn } => seq![0u8] + enc_identity(identity) + enc_u64(
            lsn,
        ),
        ReqModel::CreateTable { identity, dst_uri, src, src_uri } => seq![1u8] + enc_identity(
            identity,
        ) + enc_bytes(dst_uri) + enc_bytes(src) + enc_bytes(src_uri),
        ReqModel::DropTable { identity } => seq![2u8] + enc_identity(identity),
        ReqModel::ScanTableBegin { identity, lsn } => seq![3u8] + enc_identity(identity) + enc_u64(
            lsn,
        ),
        ReqModel::ScanTableEnd { identity } => seq![4u8] + enc_identity(identity),
        ReqModel::ListTables => seq![5u8],
        ReqModel::LoadFiles { identity, file_paths } => seq![6u8] + enc_identity(identity)
            + enc_u32(file_paths.len() as u32) + enc_bytes_seq(file_paths),
        ReqModel::OptimizeTable { identity, mode } => seq![7u8] + enc_identity(identity)
            + enc_bytes(mode),
    }
}

/// The encoded payload of one response: a one-byte variant tag followed by
/// the variant's fields.
pub open spec fn spec_encode_response(r: RespModel) -> Seq<u8> {
    match r {
        RespModel::Unit => seq![0u8],
        RespModel::Bytes(b) => seq![1u8] + enc_bytes(b),
        RespModel::Tables(l) => seq![2u8] + enc_u32(l.len() as u32) + enc_info_seq(l),
        RespModel::Error(e) => seq![3u8] + enc_bytes(e),
    }
}

// ---------------------------------------------------------------------------
// Specification-level decoders
// ---------------------------------------------------------------------------
// Each reader takes the unread part of the payload and yields the decoded
// value together with what remains after it, or nothing if the input does
// not hold such a value.

pub open spec fn dec_u8(s: Seq<u8>) -> Option<(u8, Seq<u8>)> {
    if s.len() >= 1 {
        Option::Some((s[0], s.drop_first()))
    } else {
        Option::None
    }
}

pub open spec fn dec_u32(s: Seq<u8>) -> Option<(u32, Seq<u8>)> {
    if s.len() >= 4 {
        Option::Some((spec_u32_from_le_bytes(s.take(4)), s.skip(4)))
    } else {
        Option::None
    }
}

pub open spec fn dec_u64(s: Seq<u8>) -> Option<(u64, Seq<u8>)> {
    if s.len() >= 8 {
        Option::Some((spec_u64_from_le_bytes(s.take(8)), s.skip(8)))
    } else {
        Option::None
    }
}

pub open spec fn dec_bytes(s: Seq<u8>) -> Option<(Seq<u8>, Seq<u8>)> {
    match dec_u32(s) {
        Option::Some((n, r)) => if r.len() >= n {
            Option::Some((r.take(n as int), r.skip(n as int)))
        } else {
            Option::None
        },
        Option::None => Option::None,
    }
}

pub open spec fn dec_identity(s: Seq<u8>) -> Option<(TableIdentity, Seq<u8>)> {
    match dec_u32(s) {
        Option::Some((db, r)) => match dec_u32(r) {
            Option::Some((tb, r2)) => Option::Some(
                (TableIdentity { database_id: db, table_id: tb }, r2),
            ),
            Option::None => Option::None,
        },
        Option::None => Option::None,
    }
}

pub open spec fn dec_opt_u64(s: Seq<u8>) -> Option<(Option<u64>, Seq<u8>)> {
    match dec_u8(s) {
        Option::Some((flag, r)) => if flag == 0 {
            Option::Some((Option::None, r))
        } else if flag == 1 {
            match dec_u64(r) {
                Option::Some((v, r2)) => Option::Some((Option::Some(v), r2)),
                Option::None => Option::None,
            }
        } else {
            Option::None
        },
        Option::None => Option::None,
    }
}

/// Reads exactly `n` length-prefixed byte strings.
pub open spec fn dec_bytes_n(s: Seq<u8>, n: nat) -> Option<(Seq<Seq<u8>>, Seq<u8>)>
    decreases n,
{
    if n == 0 {
        Option::Some((Seq::empty(), s))
    } else {
        match dec_bytes(s) {
            Option::Some((b, r)) => match dec_bytes_n(r, (n - 1) as nat) {
                Option::Some((l, r2)) => Option::Some((seq![b] + l, r2)),
                Option::None => Option::None,
            },
            Option::None => Option::None,
        }
    }
}

pub open spec fn dec_info(s: Seq<u8>) -> Option<(InfoModel, Seq<u8>)> {
    match dec_bytes(s) {
        Option::Some((database, r1)) => match dec_bytes(r1) {
            Option::Some((table, r2)) => match dec_u64(r2) {
                Option::Some((cardinality, r3)) => match dec_u64(r3) {
                    Option::Some((commit_lsn, r4)) => match dec_opt_u64(r4) {
                        Option::Some((flush_lsn, r5)) => match dec_bytes(r5) {
                            Option::Some((warehouse_location, r6)) => Option::Some(
                                (
                                    InfoModel {
                                        database,
                                        table,
                                        cardinality,
                                        commit_lsn,
                                        flush_lsn,
                                        warehouse_location,
                                    },
                                    r6,
                                ),
                            ),
                            Option::None => Option::None,
                        },
                        Option::None => Option::None,
                    },
                    Option::None => Option::None,
                },
                Option::None => Option::None,
            },
            Option::None => Option::None,
        },
        Option::None => Option::None,
    }
}

/// Reads exactly `n` listing entries.
pub open spec fn dec_info_n(s: Seq<u8>, n: nat) -> Option<(Seq<InfoModel>, Seq<u8>)>
    decreases n,
{
    if n == 0 {
        Option::Some((Seq::empty(), s))
    } else {
        match dec_info(s) {
            Option::Some((t, r)) => match dec_info_n(r, (n - 1) as nat) {
                Option::Some((l, r2)) => Option::Some((seq![t] + l, r2)),
                Option::None => Option::None,
            },
            Option::None => Option::None,
        }
    }
}

/// Decodes one whole request payload; the payload must be consumed exactly.
pub open spec fn spec_decode_request(s: Seq<u8>) -> Option<ReqModel> {
    match dec_u8(s) {
        Option::None => Option::None,
        Option::Some((tag, r)) => if tag == 0 {
            match dec_identity(r) {
                Option::Some((identity, r1)) => match dec_u64(r1) {
                    Option::Some((lsn, r2)) => if r2.len() == 0 {
                        Option::Some(ReqModel::CreateSnapshot { identity, lsn })
                    } else {
                        Option::None
                    },
                    Option::None => Option::None,
                },
                Option::None => Option::None,
            }
        } else if tag == 1 {
            match dec_identity(r) {
                Option::Some((identity, r1)) => match dec_bytes(r1) {
                    Option::Some((dst_uri, r2)) => match dec_bytes(r2) {
                        Option::Some((src, r3)) => match dec_bytes(r3) {
                            Option::Some((src_uri, r4)) => if r4.len() == 0 {
                                Option::Some(
                                    ReqModel::CreateTable { identity, dst_uri, src, src_uri },
                                )
                            } else {
                                Option::None
                            },
                            Option::None => Option::None,
                        },
                        Option::None => Option::None,
                    },
                    Option::None => Option::None,
                },
                Option::None => Option::None,
            }
        } else if tag == 2 {
            match dec_identity(r) {
                Option::Some((identity, r1)) => if r1.len() == 0 {
                    Option::Some(ReqModel::DropTable { identity })
                } else {
                    Option::None
                },
                Option::None => Option::None,
            }
        } else if tag == 3 {
            match dec_identity(r) {
                Option::Some((identity, r1)) => match dec_u64(r1) {
                    Option::Some((lsn, r2)) => if r2.len() == 0 {
                        Option::Some(ReqModel::ScanTableBegin { identity, lsn })
                    } else {
                        Option::None
                    },
                    Option::None => Option::None,
                },
                Option::None => Option::None,
            }
        } else if tag == 4 {
            match dec_identity(r) {
                Option::Some((identity, r1)) => if r1.len() == 0 {
                    Option::Some(ReqModel::ScanTableEnd { identity })
                } else {
                    Option::None
                },
                Option::None => Option::None,
            }
        } else if tag == 5 {
            if r.len() == 0 {
                Option::Some(ReqModel::ListTables)
            } else {
                Option::None
            }
        } else if tag == 6 {
            match dec_identity(r) {
                Option::Some((identity, r1)) => match dec_u32(r1) {
                    Option::Some((n, r2)) => match dec_bytes_n(r2, n as nat) {
                        Option::Some((file_paths, r3)) => if r3.len() == 0 {
                            Option::Some(ReqModel::LoadFiles { identity, file_paths })
                        } else {
                            Option::None
                        },
                        Option::None => Option::None,
                    },
                    Option::None => Option::None,
                },
                Option::None => Option::None,
            }
        } else if tag == 7 {
            match dec_identity(r) {
                Option::Some((identity, r1)) => match dec_bytes(r1) {
                    Option::Some((mode, r2)) => if r2.len() == 0 {
                        Option::Some(ReqModel::OptimizeTable { identity, mode })
                    } else {
                        Option::None
                    },
                    Option::None => Option::None,
                },
                Option::None => Option::None,
            }
        } else {
            Option::None
        },
    }
}

/// Decodes one whole response payload; the payload must be consumed exactly.
pub open spec fn spec_decode_response(s: Seq<u8>) -> Option<RespModel> {
    match dec_u8(s) {
        Option::None => Option::None,
        Option::Some((tag, r)) => if tag == 0 {
            if r.len() == 0 {
                Option::Some(RespModel::Unit)
            } else {
                Option::None
            }
        } else if tag == 1 {
            match dec_bytes(r) {
                Option::Some((b, r1)) => if r1.len() == 0 {
                    Option::Some(RespModel::Bytes(b))
                } else {
                    Option::None
                },
                Option::None => Option::None,
            }
        } else if tag == 2 {
            match dec_u32(r) {
                Option::Some((n, r1)) => match dec_info_n(r1, n as nat) {
                    Option::Some((l, r2)) => if r2.len() == 0 {
                        Option::Some(RespModel::Tables(l))
                    } else {
                        Option::None
                    },
                    Option::None => Option::None,
                },
                Option::None => Option::None,
            }
        } else if tag == 3 {
            match dec_bytes(r) {
                Option::Some((e, r1)) => if r1.len() == 0 {
                    Option::Some(RespModel::Error(e))
                } else {
                    Option::None
                },
                Option::None => Option::None,
            }
        } else {
            Option::None
        },
    }
}

// ---------------------------------------------------------------------------
// Round trip: each reader undoes its writer, whatever follows
// ---------------------------------------------------------------------------

proof fn lemma_dec_u8(x: u8, rest: Seq<u8>)
    ensures
        dec_u8(seq![x] + rest) == Option::Some((x, rest)),
{
    let s = seq![x] + rest;
    assert(s[0] == x);
    assert(s.drop_first() =~= rest);
}

proof fn lemma_dec_u32(x: u32, rest: Seq<u8>)
    ensures
        dec_u32(enc_u32(x) + rest) == Option::Some((x, rest)),
{
    vstd::bytes::lemma_auto_spec_u32_to_from_le_bytes();
    let s = enc_u32(x) + rest;
    assert(s.take(4) =~= enc_u32(x));
    assert(s.skip(4) =~= rest);
}

proof fn lemma_dec_u64(x: u64, rest: Seq<u8>)
    ensures
        dec_u64(enc_u64(x) + rest) == Option::Some((x, rest)),
{
    vstd::bytes::lemma_auto_spec_u64_to_from_le_bytes();
    let s = enc_u64(x) + rest;
    assert(s.take(8) =~= enc_u64(x));
    assert(s.skip(8) =~= rest);
}

proof fn lemma_dec_bytes(b: Seq<u8>, rest: Seq<u8>)
    requires
        bytes_wf(b),
    ensures
        dec_bytes(enc_bytes(b) + rest) == Option::Some((b, rest)),
{
    let s = enc_bytes(b) + rest;
    assert(s =~= enc_u32(b.len() as u32) + (b + rest));
    lemma_dec_u32(b.len() as u32, b + rest);
    let n = b.len() as u32;
    assert((b + rest).take(n as int) =~= b);
    assert((b + rest).skip(n as int) =~= rest);
}

proof fn lemma_dec_identity(id: TableIdentity, rest: Seq<u8>)
    ensures
        dec_identity(enc_identity(id) + rest) == Option::Some((id, rest)),
{
    let s = enc_identity(id) + rest;
    assert(s =~= enc_u32(id.database_id) + (enc_u32(id.table_id) + rest));
    lemma_dec_u32(id.database_id, enc_u32(id.table_id) + rest);
    lemma_dec_u32(id.table_id, rest);
}

proof fn lemma_dec_opt_u64(x: Option<u64>, rest: Seq<u8>)
    ensures
        dec_opt_u64(enc_opt_u64(x) + rest) == Option::Some((x, rest)),
{
    match x {
        Option::None => {
            lemma_dec_u8(0u8, rest);
            assert(enc_opt_u64(x) + rest =~= seq![0u8] + rest);
        },
        Option::Some(v) => {
            assert(enc_opt_u64(x) + rest =~= seq![1u8] + (enc_u64(v) + rest));
            lemma_dec_u8(1u8, enc_u64(v) + rest);
            lemma_dec_u64(v, rest);
        },
    }
}

proof fn lemma_dec_info(t: InfoModel, rest: Seq<u8>)
    requires
        info_wf(t),
    ensures
        dec_info(enc_info(t) + rest) == Option::Some((t, rest)),
{
    let s = enc_info(t) + rest;
    let r5 = enc_bytes(t.warehouse_location) + rest;
    let r4 = enc_opt_u64(t.flush_lsn) + r5;
    let r3 = enc_u64(t.commit_lsn) + r4;
    let r2 = enc_u64(t.cardinality) + r3;
    let r1 = enc_bytes(t.table) + r2;
    assert(s =~= enc_bytes(t.database) + r1);
    lemma_dec_bytes(t.database, r1);
    lemma_dec_bytes(t.table, r2);
    lemma_dec_u64(t.cardinality, r3);
    lemma_dec_u64(t.commit_lsn, r4);
    lemma_dec_opt_u64(t.flush_lsn, r5);
    lemma_dec_bytes(t.warehouse_location, rest);
}

proof fn lemma_dec_bytes_n(l: Seq<Seq<u8>>, rest: Seq<u8>)
    requires
        forall|i: int| 0 <= i < l.len() ==> bytes_wf(#[trigger] l[i]),
    ensures
        dec_bytes_n(enc_bytes_seq(l) + rest, l.len()) == Option::Some((l, rest)),
    decreases l.len(),
{
    if l.len() == 0 {
        assert(enc_bytes_seq(l) + rest =~= rest);
        assert(dec_bytes_n(rest, 0) == Option::Some((Seq::<Seq<u8>>::empty(), rest)));
        assert(l =~= Seq::<Seq<u8>>::empty());
    } else {
        let s = enc_bytes_seq(l) + rest;
        let tail_rest = enc_bytes_seq(l.drop_first()) + rest;
        assert(s =~= enc_bytes(l.first()) + tail_rest);
        lemma_dec_bytes(l.first(), tail_rest);
        lemma_dec_bytes_n(l.drop_first(), rest);
        assert(seq![l.first()] + l.drop_first() =~= l);
    }
}

proof fn lemma_dec_info_n(l: Seq<InfoModel>, rest: Seq<u8>)
    requires
        forall|i: int| 0 <= i < l.len() ==> info_wf(#[trigger] l[i]),
    ensures
        dec_info_n(enc_info_seq(l) + rest, l.len()) == Option::Some((l, rest)),
    decreases l.len(),
{
    if l.len() == 0 {
        assert(enc_info_seq(l) + rest =~= rest);
        assert(dec_info_n(rest, 0) == Option::Some((Seq::<InfoModel>::empty(), rest)));
        assert(l =~= Seq::<InfoModel>::empty());
    } else {
        let s = enc_info_seq(l) + rest;
        let tail_rest = enc_info_seq(l.drop_first()) + rest;
        assert(s =~= enc_info(l.first()) + tail_rest);
        lemma_dec_info(l.first(), tail_rest);
        lemma_dec_info_n(l.drop_first(), rest);
        assert(seq![l.first()] + l.drop_first() =~= l);
    }
}

/// Round trip: decoding an encoded request yields the request back, for
/// every variant whose fields fit the wire format's length fields.
pub proof fn lemma_request_round_trip(r: ReqModel)
    requires
        req_wf(r),
    ensures
        spec_decode_request(spec_encode_request(r)) == Option::Some(r),
{
    let empty = Seq::<u8>::empty();
    match r {
        ReqModel::CreateSnapshot { identity, lsn } => {
            let s = spec_encode_request(r);
            assert(s =~= seq![0u8] + (enc_identity(identity) + enc_u64(lsn)));
            lemma_dec_u8(0u8, enc_identity(identity) + enc_u64(lsn));
            lemma_dec_identity(identity, enc_u64(lsn));
            assert(enc_u64(lsn) =~= enc_u64(lsn) + empty);
            lemma_dec_u64(lsn, empty);
        },
        ReqModel::CreateTable { identity, dst_uri, src, src_uri } => {
            let s = spec_encode_request(r);
            let r3 = enc_bytes(src_uri);
            let r2 = enc_bytes(src) + r3;
            let r1 = enc_bytes(dst_uri) + r2;
            assert(s =~= seq![1u8] + (enc_identity(identity) + r1));
            lemma_dec_u8(1u8, enc_identity(identity) + r1);
            lemma_dec_identity(identity, r1);
            lemma_dec_bytes(dst_uri, r2);
            lemma_dec_bytes(src, r3);
            assert(r3 =~= enc_bytes(src_uri) + empty);
            lemma_dec_bytes(src_uri, empty);
        },
        ReqModel::DropTable { identity } => {
            let s = spec_encode_request(r);
            assert(s =~= seq![2u8] + (enc_identity(identity) + empty));
            lemma_dec_u8(2u8, enc_identity(identity) + empty);
            lemma_dec_identity(identity, empty);
        },
        ReqModel::ScanTableBegin { identity, lsn } => {
            let s = spec_encode_request(r);
            assert(s =~= seq![3u8] + (enc_identity(identity) + enc_u64(lsn)));
            lemma_dec_u8(3u8, enc_identity(identity) + enc_u64(lsn));
            lemma_dec_identity(identity, enc_u64(lsn));
            assert(enc_u64(lsn) =~= enc_u64(lsn) + empty);
            lemma_dec_u64(lsn, empty);
        },
        ReqModel::ScanTableEnd { identity } => {
            let s = spec_encode_request(r);
            assert(s =~= seq![4u8] + (enc_identity(identity) + empty));
            lemma_dec_u8(4u8, enc_identity(identity) + empty);
            lemma_dec_identity(identity, empty);
        },
        ReqModel::ListTables => {
            let s = spec_encode_request(r);
            assert(s =~= seq![5u8] + empty);
            lemma_dec_u8(5u8, empty);
        },
        ReqModel::LoadFiles { identity, file_paths } => {
            let s = spec_encode_request(r);
            let r2 = enc_bytes_seq(file_paths);
            let r1 = enc_u32(file_paths.len() as u32) + r2;
            assert(s =~= seq![6u8] + (enc_identity(identity) + r1));
            lemma_dec_u8(6u8, enc_identity(identity) + r1);
            lemma_dec_identity(identity, r1);
            lemma_dec_u32(file_paths.len() as u32, r2);
            assert(r2 =~= enc_bytes_seq(file_paths) + empty);
            lemma_dec_bytes_n(file_paths, empty);
        },
        ReqModel::OptimizeTable { identity, mode } => {
            let s = spec_encode_request(r);
            let r1 = enc_bytes(mode);
            assert(s =~= seq![7u8] + (enc_identity(identity) + r1));
            lemma_dec_u8(7u8, enc_identity(identity) + r1);
            lemma_dec_identity(identity, r1);
            assert(r1 =~= enc_bytes(mode) + empty);
            lemma_dec_bytes(mode, empty);
        },
    }
}

/// Round trip: decoding an encoded response yields the response back, for
/// every variant whose fields fit the wire format's length fields.
pub proof fn lemma_response_round_trip(r: RespModel)
    requires
        resp_wf(r),
    ensures
        spec_decode_response(spec_encode_response(r)) == Option::Some(r),
{
    let empty = Seq::<u8>::empty();
    match r {
        RespModel::Unit => {
            let s = spec_encode_response(r);
            assert(s =~= seq![0u8] + empty);
            lemma_dec_u8(0u8, empty);
        },
        RespModel::Bytes(b) => {
            let s = spec_encode_response(r);
            assert(s =~= seq![1u8] + (enc_bytes(b) + empty));
            lemma_dec_u8(1u8, enc_bytes(b) + empty);
            lemma_dec_bytes(b, empty);
        },
        RespModel::Tables(l) => {
            let s = spec_encode_response(r);
            let r1 = enc_u32(l.len() as u32) + enc_info_seq(l);
            assert(s =~= seq![2u8] + r1);
            lemma_dec_u8(2u8, r1);
            lemma_dec_u32(l.len() as u32, enc_info_seq(l));
            assert(enc_info_seq(l) =~= enc_info_seq(l) + empty);
            lemma_dec_info_n(l, empty);
        },
        RespModel::Error(e) => {
            let s = spec_encode_response(r);
            assert(s =~= seq![3u8] + (enc_bytes(e) + empty));
            lemma_dec_u8(3u8, enc_bytes(e) + empty);
            lemma_dec_bytes(e, empty);
        },
    }
}

// ---------------------------------------------------------------------------
// Executable encoders
// ---------------------------------------------------------------------------

fn push_u32(out: &mut Vec<u8>, x: u32)
    ensures
        final(out)@ == old(out)@ + enc_u32(x),
{
    let mut b = u32_to_le_bytes(x);
    out.append(&mut b);
}

fn push_u64(out: &mut Vec<u8>, x: u64)
    ensures
        final(out)@ == old(out)@ + enc_u64(x),
{
    let mut b = u64_to_le_bytes(x);
    out.append(&mut b);
}

fn push_bytes(out: &mut Vec<u8>, b: &[u8])
    requires
        bytes_wf(b@),
    ensures
        final(out)@ == old(out)@ + enc_bytes(b@),
{
    proof {
        vstd::bytes::lemma_auto_spec_u32_to_from_le_bytes();
    }
    push_u32(out, b.len() as u32);
    out.extend_from_slice(b);
    assert(out@ =~= old(out)@ + enc_bytes(b@));
}

fn push_identity(out: &mut Vec<u8>, id: TableIdentity)
    ensures
        final(out)@ == old(out)@ + enc_identity(id),
{
    push_u32(out, id.database_id);
    push_u32(out, id.table_id);
    assert(out@ =~= old(out)@ + enc_identity(id));
}

fn push_opt_u64(out: &mut Vec<u8>, x: &Option<u64>)
    ensures
        final(out)@ == old(out)@ + enc_opt_u64(*x),
{
    match x {
        Option::None => {
            out.push(0u8);
            assert(out@ =~= old(out)@ + enc_opt_u64(*x));
        },
        Option::Some(v) => {
            out.push(1u8);
            push_u64(out, *v);
            assert(out@ =~= old(out)@ + enc_opt_u64(*x));
        },
    }
}

/// `enc_bytes_seq` distributes over appending one element at the end.
proof fn lemma_enc_bytes_seq_snoc(l: Seq<Seq<u8>>, x: Seq<u8>)
    ensures
        enc_bytes_seq(l.push(x)) == enc_bytes_seq(l) + enc_bytes(x),
    decreases l.len(),
{
    if l.len() == 0 {
        assert(l.push(x).first() == x);
        assert(l.push(x).drop_first() =~= Seq::<Seq<u8>>::empty());
        assert(enc_bytes_seq(l.push(x)) == enc_bytes(x) + enc_bytes_seq(
            Seq::<Seq<u8>>::empty(),
        ));
        assert(enc_bytes_seq(Seq::<Seq<u8>>::empty()) == Seq::<u8>::empty());
        assert(l =~= Seq::<Seq<u8>>::empty());
        assert(enc_bytes_seq(l.push(x)) =~= enc_bytes_seq(l) + enc_bytes(x));
    } else {
        assert(l.push(x).first() == l.first());
        assert(l.push(x).drop_first() =~= l.drop_first().push(x));
        assert(enc_bytes_seq(l.push(x)) == enc_bytes(l.first()) + enc_bytes_seq(
            l.drop_first().push(x),
        ));
        lemma_enc_bytes_seq_snoc(l.drop_first(), x);
        assert(enc_bytes_seq(l) == enc_bytes(l.first()) + enc_bytes_seq(l.drop_first()));
        assert(enc_bytes_seq(l.push(x)) =~= enc_bytes_seq(l) + enc_bytes(x));
    }
}

/// `enc_info_seq` distributes over appending one element at the end.
proof fn lemma_enc_info_seq_snoc(l: Seq<InfoModel>, x: InfoModel)
    ensures
        enc_info_seq(l.push(x)) == enc_info_seq(l) + enc_info(x),
    decreases l.len(),
{
    if l.len() == 0 {
        assert(l.push(x).first() == x);
        assert(l.push(x).drop_first() =~= Seq::<InfoModel>::empty());
        assert(enc_info_seq(l.push(x)) == enc_info(x) + enc_info_seq(Seq::<InfoModel>::empty()));
        assert(enc_info_seq(Seq::<InfoModel>::empty()) == Seq::<u8>::empty());
        assert(l =~= Seq::<InfoModel>::empty());
        assert(enc_info_seq(l.push(x)) =~= enc_info_seq(l) + enc_info(x));
    } else {
        assert(l.push(x).first() == l.first());
        assert(l.push(x).drop_first() =~= l.drop_first().push(x));
        assert(enc_info_seq(l.push(x)) == enc_info(l.first()) + enc_info_seq(
            l.drop_first().push(x),
        ));
        lemma_enc_info_seq_snoc(l.drop_first(), x);
        assert(enc_info_seq(l) == enc_info(l.first()) + enc_info_seq(l.drop_first()));
        assert(enc_info_seq(l.push(x)) =~= enc_info_seq(l) + enc_info(x));
    }
}

fn push_info(out: &mut Vec<u8>, t: &TableInfo)
    requires
        info_wf(t@),
    ensures
        final(out)@ == old(out)@ + enc_info(t@),
{
    push_bytes(out, t.database.as_slice());
    push_bytes(out, t.table.as_slice());
    push_u64(out, t.cardinality);
    push_u64(out, t.commit_lsn);
    push_opt_u64(out, &t.flush_lsn);
    push_bytes(out, t.warehouse_location.as_slice());
    assert(out@ =~= old(out)@ + enc_info(t@));
}

/// Encodes one request into its wire payload.
pub fn encode_request(r: &Request) -> (out: Vec<u8>)
    requires
        req_wf(r@),
    ensures
        out@ == spec_encode_request(r@),
{
    let mut out: Vec<u8> = Vec::new();
    match r {
        Request::CreateSnapshot { identity, lsn } => {
            out.push(0u8);
            push_identity(&mut out, *identity);
            push_u64(&mut out, *lsn);
        },
        Request::CreateTable { identity, dst_uri, src, src_uri } => {
            out.push(1u8);
            push_identity(&mut out, *identity);
            push_bytes(&mut out, dst_uri.as_slice());
            push_bytes(&mut out, src.as_slice());
            push_bytes(&mut out, src_uri.as_slice());
        },
        Request::DropTable { identity } => {
            out.push(2u8);
            push_identity(&mut out, *identity);
        },
        Request::ScanTableBegin { identity, lsn } => {
            out.push(3u8);
            push_identity(&mut out, *identity);
            push_u64(&mut out, *lsn);
        },
        Request::ScanTableEnd { identity } => {
            out.push(4u8);
            push_identity(&mut out, *identity);
        },
        Request::ListTables => {
            out.push(5u8);
        },
        Request::LoadFiles { identity, file_paths } => {
            out.push(6u8);
            push_identity(&mut out, *identity);
            push_u32(&mut out, file_paths.len() as u32);
            let ghost paths_model = file_paths@.map_values(|p: Vec<u8>| p@);
            let ghost prefix = out@;
            let mut i: usize = 0;
            while i < file_paths.len()
                invariant
                    i <= file_paths.len(),
                    paths_model == file_paths@.map_values(|p: Vec<u8>| p@),
                    req_wf(r@),
                    r@ matches ReqModel::LoadFiles { identity: _, file_paths: fp } && fp
                        == paths_model,
                    out@ == prefix + enc_bytes_seq(paths_model.take(i as int)),
                decreases file_paths.len() - i,
            {
                proof {
                    assert(paths_model[i as int] == file_paths@[i as int]@);
                    assert(bytes_wf(paths_model[i as int]));
                    lemma_enc_bytes_seq_snoc(paths_model.take(i as int), paths_model[i as int]);
                    assert(paths_model.take(i + 1 as int) =~= paths_model.take(i as int).push(
                        paths_model[i as int],
                    ));
                }
                push_bytes(&mut out, file_paths[i].as_slice());
                i = i + 1;
            }
            proof {
                assert(paths_model.take(file_paths.len() as int) =~= paths_model);
            }
        },
        Request::OptimizeTable { identity, mode } => {
            out.push(7u8);
            push_identity(&mut out, *identity);
            push_bytes(&mut out, mode.as_slice());
        },
    }
    proof {
        assert(out@ =~= spec_encode_request(r@));
    }
    out
}

/// Encodes one response into its wire payload.
pub fn encode_response(r: &Response) -> (out: Vec<u8>)
    requires
        resp_wf(r@),
    ensures
        out@ == spec_encode_response(r@),
{
    let mut out: Vec<u8> = Vec::new();
    match r {
        Response::Unit => {
            out.push(0u8);
        },
        Response::Bytes(b) => {
            out.push(1u8);
            push_bytes(&mut out, b.as_slice());
        },
        Response::Tables(ts) => {
            out.push(2u8);
            push_u32(&mut out, ts.len() as u32);
            let ghost infos_model = ts@.map_values(|t: TableInfo| t@);
            let ghost prefix = out@;
            let mut i: usize = 0;
            while i < ts.len()
                invariant
                    i <= ts.len(),
                    infos_model == ts@.map_values(|t: TableInfo| t@),
                    resp_wf(r@),
                    r@ matches RespModel::Tables(l) && l == infos_model,
                    out@ == prefix + enc_info_seq(infos_model.take(i as int)),
                decreases ts.len() - i,
            {
                proof {
                    assert(infos_model[i as int] == ts@[i as int]@);
                    assert(info_wf(infos_model[i as int]));
                    lemma_enc_info_seq_snoc(infos_model.take(i as int), infos_model[i as int]);
                    assert(infos_model.take(i + 1 as int) =~= infos_model.take(i as int).push(
                        infos_model[i as int],
                    ));
                }
                push_info(&mut out, &ts[i]);
                i = i + 1;
            }
            proof {
                assert(infos_model.take(ts.len() as int) =~= infos_model);
            }
        },
        Response::Error(e) => {
            out.push(3u8);
            push_bytes(&mut out, e.as_slice());
        },
    }
    proof {
        assert(out@ =~= spec_encode_response(r@));
    }
    out
}

// ---------------------------------------------------------------------------
// Executable decoders
// ---------------------------------------------------------------------------

/// A payload that cannot be decoded into any known variant: a fatal
/// protocol violation that terminates the connection.
#[derive(Clone, Copy, Debug, PartialEq, Eq, Structural)]
pub struct ProtocolViolation;

fn read_u8(s: &[u8], off: usize) -> (r: Option<(u8, usize)>)
    requires
        off <= s@.len(),
    ensures
        match r {
            Option::Some((x, off2)) => {
                &&& dec_u8(s@.skip(off as int)) == Option::Some((x, s@.skip(off2 as int)))
                &&& off < off2 <= s@.len()
            },
            Option::None => dec_u8(s@.skip(off as int)) is None,
        },
{
    if off < s.len() {
        let x = *vstd::slice::slice_index_get(s, off);
        proof {
            assert(s@.skip(off as int)[0] == s@[off as int]);
            assert(s@.skip(off as int).drop_first() =~= s@.skip(off + 1));
        }
        Some((x, off + 1))
    } else {
        None
    }
}

fn read_u32(s: &[u8], off: usize) -> (r: Option<(u32, usize)>)
    requires
        off <= s@.len(),
    ensures
        match r {
            Option::Some((x, off2)) => {
                &&& dec_u32(s@.skip(off as int)) == Option::Some((x, s@.skip(off2 as int)))
                &&& off < off2 <= s@.len()
            },
            Option::None => dec_u32(s@.skip(off as int)) is None,
        },
{
    if s.len() - off >= 4 {
        let chunk = vstd::slice::slice_subrange(s, off, off + 4);
        let x = u32_from_le_bytes(chunk);
        proof {
            assert(s@.skip(off as int).take(4) =~= s@.subrange(off as int, off + 4));
            assert(s@.skip(off as int).skip(4) =~= s@.skip(off + 4));
        }
        Some((x, off + 4))
    } else {
        None
    }
}

fn read_u64(s: &[u8], off: usize) -> (r: Option<(u64, usize)>)
    requires
        off <= s@.len(),
    ensures
        match r {
            Option::Some((x, off2)) => {
                &&& dec_u64(s@.skip(off as int)) == Option::Some((x, s@.skip(off2 as int)))
                &&& off < off2 <= s@.len()
            },
            Option::None => dec_u64(s@.skip(off as int)) is None,
        },
{
    if s.len() - off >= 8 {
        let chunk = vstd::slice::slice_subrange(s, off, off + 8);
        let x = u64_from_le_bytes(chunk);
        proof {
            assert(s@.skip(off as int).take(8) =~= s@.subrange(off as int, off + 8));
            assert(s@.skip(off as int).skip(8) =~= s@.skip(off + 8));
        }
        Some((x, off + 8))
    } else {
        None
    }
}

fn read_bytes(s: &[u8], off: usize) -> (r: Option<(Vec<u8>, usize)>)
    requires
        off <= s@.len(),
    ensures
        match r {
            Option::Some((b, off2)) => {
                &&& dec_bytes(s@.skip(off as int)) == Option::Some((b@, s@.skip(off2 as int)))
                &&& off < off2 <= s@.len()
                &&& bytes_wf(b@)
            },
            Option::None => dec_bytes(s@.skip(off as int)) is None,
        },
{
    match read_u32(s, off) {
        Option::Some((n, off1)) => {
            if n as usize <= s.len() - off1 {
                let chunk = vstd::slice::slice_subrange(s, off1, off1 + n as usize);
                let b = vstd::slice::slice_to_vec(chunk);
                proof {
                    let rem = s@.skip(off1 as int);
                    assert(rem.take(n as int) =~= s@.subrange(off1 as int, off1 + n as int));
                    assert(rem.skip(n as int) =~= s@.skip(off1 + n as int));
                }
                Some((b, off1 + n as usize))
            } else {
                proof {
                    assert(s@.skip(off1 as int).len() < n);
                }
                None
            }
        },
        Option::None => None,
    }
}

fn read_identity(s: &[u8], off: usize) -> (r: Option<(TableIdentity, usize)>)
    requires
        off <= s@.len(),
    ensures
        match r {
            Option::Some((id, off2)) => {
                &&& dec_identity(s@.skip(off as int)) == Option::Some((id, s@.skip(off2 as int)))
                &&& off < off2 <= s@.len()
            },
            Option::None => dec_identity(s@.skip(off as int)) is None,
        },
{
    match read_u32(s, off) {
        Option::Some((db, off1)) => match read_u32(s, off1) {
            Option::Some((tb, off2)) => Some(
                (TableIdentity { database_id: db, table_id: tb }, off2),
            ),
            Option::None => None,
        },
        Option::None => None,
    }
}

fn read_opt_u64(s: &[u8], off: usize) -> (r: Option<(Option<u64>, usize)>)
    requires
        off <= s@.len(),
    ensures
        match r {
            Option::Some((x, off2)) => {
                &&& dec_opt_u64(s@.skip(off as int)) == Option::Some((x, s@.skip(off2 as int)))
                &&& off < off2 <= s@.len()
            },
            Option::None => dec_opt_u64(s@.skip(off as int)) is None,
        },
{
    match read_u8(s, off) {
        Option::Some((flag, off1)) => {
            if flag == 0 {
                Some((None, off1))
            } else if flag == 1 {
                match read_u64(s, off1) {
                    Option::Some((v, off2)) => Some((Some(v), off2)),
                    Option::None => None,
                }
            } else {
                None
            }
        },
        Option::None => None,
    }
}

fn read_info(s: &[u8], off: usize) -> (r: Option<(TableInfo, usize)>)
    requires
        off <= s@.len(),
    ensures
        match r {
            Option::Some((t, off2)) => {
                &&& dec_info(s@.skip(off as int)) == Option::Some((t@, s@.skip(off2 as int)))
                &&& off < off2 <= s@.len()
                &&& info_wf(t@)
            },
            Option::None => dec_info(s@.skip(off as int)) is None,
        },
{
    match read_bytes(s, off) {
        Option::Some((database, off1)) => match read_bytes(s, off1) {
            Option::Some((table, off2)) => match read_u64(s, off2) {
                Option::Some((cardinality, off3)) => match read_u64(s, off3) {
                    Option::Some((commit_lsn, off4)) => match read_opt_u64(s, off4) {
                        Option::Some((flush_lsn, off5)) => match read_bytes(s, off5) {
                            Option::Some((warehouse_location, off6)) => Some(
                                (
                                    TableInfo {
                                        database,
                                        table,
                                        cardinality,
                                        commit_lsn,
                                        flush_lsn,
                                        warehouse_location,
                                    },
                                    off6,
                                ),
                            ),
                            Option::None => None,
                        },
                        Option::None => None,
                    },
                    Option::None => None,
                },
                Option::None => None,
            },
            Option::None => None,
        },
        Option::None => None,
    }
}

fn read_bytes_n(s: &[u8], off: usize, n: u32) -> (r: Option<(Vec<Vec<u8>>, usize)>)
    requires
        off <= s@.len(),
    ensures
        match r {
            Option::Some((l, off2)) => {
                &&& dec_bytes_n(s@.skip(off as int), n as nat) == Option::Some(
                    (l@.map_values(|p: Vec<u8>| p@), s@.skip(off2 as int)),
                )
                &&& off <= off2 <= s@.len()
                &&& l@.len() == n
                &&& forall|i: int| 0 <= i < l@.len() ==> bytes_wf(#[trigger] l@[i]@)
            },
            Option::None => dec_bytes_n(s@.skip(off as int), n as nat) is None,
        },
{
    let mut acc: Vec<Vec<u8>> = Vec::new();
    let mut cur: usize = off;
    let mut i: u32 = 0;
    loop
        invariant
            i <= n,
            off <= cur <= s@.len(),
            acc@.len() == i,
            forall|j: int| 0 <= j < acc@.len() ==> bytes_wf(#[trigger] acc@[j]@),
            match dec_bytes_n(s@.skip(cur as int), (n - i) as nat) {
                Option::Some((l, r)) => dec_bytes_n(s@.skip(off as int), n as nat)
                    == Option::Some((acc@.map_values(|p: Vec<u8>| p@) + l, r)),
                Option::None => dec_bytes_n(s@.skip(off as int), n as nat) is None,
            },
        decreases n - i,
    {
        if i == n {
            proof {
                let m = acc@.map_values(|p: Vec<u8>| p@);
                assert(dec_bytes_n(s@.skip(cur as int), 0) == Option::Some(
                    (Seq::<Seq<u8>>::empty(), s@.skip(cur as int)),
                ));
                assert(m + Seq::<Seq<u8>>::empty() =~= m);
            }
            return Some((acc, cur));
        }
        let ghost pre_model = acc@.map_values(|p: Vec<u8>| p@);
        match read_bytes(s, cur) {
            Option::Some((b, cur2)) => {
                proof {
                    let rem = s@.skip(cur as int);
                    let rem2 = s@.skip(cur2 as int);
                    assert(dec_bytes(rem) == Option::Some((b@, rem2)));
                    assert(dec_bytes_n(rem, (n - i) as nat) == (
                    match dec_bytes_n(rem2, (n - i - 1) as nat) {
                        Option::Some((l, r2)) => Option::Some((seq![b@] + l, r2)),
                        Option::None => Option::None::<(Seq<Seq<u8>>, Seq<u8>)>,
                    }));
                }
                acc.push(b);
                proof {
                    let post_model = acc@.map_values(|p: Vec<u8>| p@);
                    assert(post_model =~= pre_model.push(acc@.last()@));
                    assert forall|l: Seq<Seq<u8>>|
                        true implies pre_model + (seq![post_model.last()] + l) =~= post_model
                        + l by {}
                }
                cur = cur2;
                i = i + 1;
            },
            Option::None => {
                return None;
            },
        }
    }
}

fn read_info_n(s: &[u8], off: usize, n: u32) -> (r: Option<(Vec<TableInfo>, usize)>)
    requires
        off <= s@.len(),
    ensures
        match r {
            Option::Some((l, off2)) => {
                &&& dec_info_n(s@.skip(off as int), n as nat) == Option::Some(
                    (l@.map_values(|t: TableInfo| t@), s@.skip(off2 as int)),
                )
                &&& off <= off2 <= s@.len()
                &&& l@.len() == n
                &&& forall|i: int| 0 <= i < l@.len() ==> info_wf(#[trigger] l@[i]@)
            },
            Option::None => dec_info_n(s@.skip(off as int), n as nat) is None,
        },
{
    let mut acc: Vec<TableInfo> = Vec::new();
    let mut cur: usize = off;
    let mut i: u32 = 0;
    loop
        invariant
            i <= n,
            off <= cur <= s@.len(),
            acc@.len() == i,
            forall|j: int| 0 <= j < acc@.len() ==> info_wf(#[trigger] acc@[j]@),
            match dec_info_n(s@.skip(cur as int), (n - i) as nat) {
                Option::Some((l, r)) => dec_info_n(s@.skip(off as int), n as nat) == Option::Some(
                    (acc@.map_values(|t: TableInfo| t@) + l, r),
                ),
                Option::None => dec_info_n(s@.skip(off as int), n as nat) is None,
            },
        decreases n - i,
    {
        if i == n {
            proof {
                let m = acc@.map_values(|t: TableInfo| t@);
                assert(dec_info_n(s@.skip(cur as int), 0) == Option::Some(
                    (Seq::<InfoModel>::empty(), s@.skip(cur as int)),
                ));
                assert(m + Seq::<InfoModel>::empty() =~= m);
            }
            return Some((acc, cur));
        }
        let ghost pre_model = acc@.map_values(|t: TableInfo| t@);
        match read_info(s, cur) {
            Option::Some((t, cur2)) => {
                proof {
                    let rem = s@.skip(cur as int);
                    let rem2 = s@.skip(cur2 as int);
                    assert(dec_info(rem) == Option::Some((t@, rem2)));
                    assert(dec_info_n(rem, (n - i) as nat) == (
                    match dec_info_n(rem2, (n - i - 1) as nat) {
                        Option::Some((l, r2)) => Option::Some((seq![t@] + l, r2)),
                        Option::None => Option::None::<(Seq<InfoModel>, Seq<u8>)>,
                    }));
                }
                acc.push(t);
                proof {
                    let post_model = acc@.map_values(|t: TableInfo| t@);
                    assert(post_model =~= pre_model.push(acc@.last()@));
                    assert forall|l: Seq<InfoModel>|
                        true implies pre_model + (seq![post_model.last()] + l) =~= post_model
                        + l by {}
                }
                cur = cur2;
                i = i + 1;
            },
            Option::None => {
                return None;
            },
        }
    }
}

/// Decodes one request payload, or reports a fatal protocol violation.
pub fn decode_request(s: &[u8]) -> (r: Result<Request, ProtocolViolation>)
    ensures
        match r {
            Result::Ok(req) => spec_decode_request(s@) == Option::Some(req@) && req_wf(req@),
            Result::Err(_) => spec_decode_request(s@) is None,
        },
{
    proof {
        assert(s@.skip(0) =~= s@);
    }
    let tag_r = read_u8(s, 0);
    match tag_r {
        Option::None => Err(ProtocolViolation),
        Option::Some((tag, off)) => {
            if tag == 0 {
                match read_identity(s, off) {
                    Option::Some((identity, off1)) => match read_u64(s, off1) {
                        Option::Some((lsn, off2)) => {
                            if off2 == s.len() {
                                Ok(Request::CreateSnapshot { identity, lsn })
                            } else {
                                Err(ProtocolViolation)
                            }
                        },
                        Option::None => Err(ProtocolViolation),
                    },
                    Option::None => Err(ProtocolViolation),
                }
            } else if tag == 1 {
                match read_identity(s, off) {
                    Option::Some((identity, off1)) => match read_bytes(s, off1) {
                        Option::Some((dst_uri, off2)) => match read_bytes(s, off2) {
                            Option::Some((src, off3)) => match read_bytes(s, off3) {
                                Option::Some((src_uri, off4)) => {
                                    if off4 == s.len() {
                                        Ok(Request::CreateTable { identity, dst_uri, src, src_uri })
                                    } else {
                                        Err(ProtocolViolation)
                                    }
                                },
                                Option::None => Err(ProtocolViolation),
                            },
                            Option::None => Err(ProtocolViolation),
                        },
                        Option::None => Err(ProtocolViolation),
                    },
                    Option::None => Err(ProtocolViolation),
                }
            } else if tag == 2 {
                match read_identity(s, off) {
                    Option::Some((identity, off1)) => {
                        if off1 == s.len() {
                            Ok(Request::DropTable { identity })
                        } else {
                            Err(ProtocolViolation)
                        }
                    },
                    Option::None => Err(ProtocolViolation),
                }
            } else if tag == 3 {
                match read_identity(s, off) {
                    Option::Some((identity, off1)) => match read_u64(s, off1) {
                        Option::Some((lsn, off2)) => {
                            if off2 == s.len() {
                                Ok(Request::ScanTableBegin { identity, lsn })
                            } else {
                                Err(ProtocolViolation)
                            }
                        },
                        Option::None => Err(ProtocolViolation),
                    },
                    Option::None => Err(ProtocolViolation),
                }
            } else if tag == 4 {
                match read_identity(s, off) {
                    Option::Some((identity, off1)) => {
                        if off1 == s.len() {
                            Ok(Request::ScanTableEnd { identity })
                        } else {
                            Err(ProtocolViolation)
                        }
                    },
                    Option::None => Err(ProtocolViolation),
                }
            } else if tag == 5 {
                if off == s.len() {
                    Ok(Request::ListTables)
                } else {
                    Err(ProtocolViolation)
                }
            } else if tag == 6 {
                match read_identity(s, off) {
                    Option::Some((identity, off1)) => match read_u32(s, off1) {
                        Option::Some((n, off2)) => match read_bytes_n(s, off2, n) {
                            Option::Some((file_paths, off3)) => {
                                if off3 == s.len() {
                                    Ok(Request::LoadFiles { identity, file_paths })
                                } else {
                                    Err(ProtocolViolation)
                                }
                            },
                            Option::None => Err(ProtocolViolation),
                        },
                        Option::None => Err(ProtocolViolation),
                    },
                    Option::None => Err(ProtocolViolation),
                }
            } else if tag == 7 {
                match read_identity(s, off) {
                    Option::Some((identity, off1)) => match read_bytes(s, off1) {
                        Option::Some((mode, off2)) => {
                            if off2 == s.len() {
                                Ok(Request::OptimizeTable { identity, mode })
                            } else {
                                Err(ProtocolViolation)
                            }
                        },
                        Option::None => Err(ProtocolViolation),
                    },
                    Option::None => Err(ProtocolViolation),
                }
            } else {
                Err(ProtocolViolation)
            }
        },
    }
}

/// Decodes one response payload, or reports a fatal protocol violation.
pub fn decode_response(s: &[u8]) -> (r: Result<Response, ProtocolViolation>)
    ensures
        match r {
            Result::Ok(resp) => spec_decode_response(s@) == Option::Some(resp@) && resp_wf(resp@),
            Result::Err(_) => spec_decode_response(s@) is None,
        },
{
    proof {
        assert(s@.skip(0) =~= s@);
    }
    let tag_r = read_u8(s, 0);
    match tag_r {
        Option::None => Err(ProtocolViolation),
        Option::Some((tag, off)) => {
            if tag == 0 {
                if off == s.len() {
                    Ok(Response::Unit)
                } else {
                    Err(ProtocolViolation)
                }
            } else if tag == 1 {
                match read_bytes(s, off) {
                    Option::Some((b, off1)) => {
                        if off1 == s.len() {
                            Ok(Response::Bytes(b))
                        } else {
                            Err(ProtocolViolation)
                        }
                    },
                    Option::None => Err(ProtocolViolation),
                }
            } else if tag == 2 {
                match read_u32(s, off) {
                    Option::Some((n, off1)) => match read_info_n(s, off1, n) {
                        Option::Some((l, off2)) => {
                            if off2 == s.len() {
                                Ok(Response::Tables(l))
                            } else {
                                Err(ProtocolViolation)
                            }
                        },
                        Option::None => Err(ProtocolViolation),
                    },
                    Option::None => Err(ProtocolViolation),
                }
            } else if tag == 3 {
                match read_bytes(s, off) {
                    Option::Some((e, off1)) => {
                        if off1 == s.len() {
                            Ok(Response::Error(e))
                        } else {
                            Err(ProtocolViolation)
                        }
                    },
                    Option::None => Err(ProtocolViolation),
                }
            } else {
                Err(ProtocolViolation)
            }
        },
    }
}

// ---------------------------------------------------------------------------
// Framing
// ---------------------------------------------------------------------------

/// The wire form of one message: a 4-byte length prefix followed by exactly
/// that many bytes of payload.
pub open spec fn spec_frame(payload: Seq<u8>) -> Seq<u8> {
    enc_u32(payload.len() as u32) + payload
}

/// Wraps one encoded payload in a length-prefixed frame.
pub fn encode_frame(payload: &[u8]) -> (out: Vec<u8>)
    requires
        bytes_wf(payload@),
    ensures
        out@ == spec_frame(payload@),
{
    let mut out: Vec<u8> = Vec::new();
    push_bytes(&mut out, payload);
    out
}

/// Whether buffered input starts with one complete frame.
pub open spec fn frame_ready(b: Seq<u8>) -> bool {
    b.len() >= 4 && b.len() >= 4 + spec_u32_from_le_bytes(b.take(4))
}

/// The payload of the first complete frame of buffered input.
pub open spec fn frame_payload(b: Seq<u8>) -> Seq<u8> {
    b.subrange(4, 4 + spec_u32_from_le_bytes(b.take(4)) as int)
}

/// What remains of buffered input after its first complete frame.
pub open spec fn frame_rest(b: Seq<u8>) -> Seq<u8> {
    b.skip(4 + spec_u32_from_le_bytes(b.take(4)) as int)
}

/// Assembles length-prefixed frames from partial reads.  Input bytes are
/// buffered in arrival order; a frame is handed out as soon as it is
/// complete.  The assembler's state is exactly the bytes received and not
/// yet consumed, so how the input was split into reads cannot be observed.
pub struct FrameAssembler {
    buf: Vec<u8>,
}

impl View for FrameAssembler {
    type V = Seq<u8>;

    closed spec fn view(&self) -> Seq<u8> {
        self.buf@
    }
}

impl FrameAssembler {
    /// An assembler holding no buffered input.
    pub fn new() -> (a: Self)
        ensures
            a@ == Seq::<u8>::empty(),
    {
        FrameAssembler { buf: Vec::new() }
    }

    /// Buffers one chunk of input, exactly as received.
    pub fn push_chunk(&mut self, chunk: &[u8])
        ensures
            final(self)@ == old(self)@ + chunk@,
    {
        self.buf.extend_from_slice(chunk);
    }

    /// Takes the first complete frame's payload out of the buffer, or
    /// reports that the buffered input is still short of one frame.
    pub fn take_frame(&mut self) -> (r: Option<Vec<u8>>)
        ensures
            match r {
                Option::Some(payload) => {
                    &&& frame_ready(old(self)@)
                    &&& payload@ == frame_payload(old(self)@)
                    &&& final(self)@ == frame_rest(old(self)@)
                },
                Option::None => {
                    &&& !frame_ready(old(self)@)
                    &&& final(self)@ == old(self)@
                },
            },
    {
        if self.buf.len() < 4 {
            return None;
        }
        let prefix = vstd::slice::slice_subrange(self.buf.as_slice(), 0, 4);
        let n = u32_from_le_bytes(prefix);
        proof {
            assert(self.buf@.take(4) =~= self.buf@.subrange(0, 4));
        }
        if self.buf.len() - 4 < n as usize {
            return None;
        }
        let mut tail = self.buf.split_off(4);
        let rest = tail.split_off(n as usize);
        self.buf = rest;
        proof {
            assert(tail@ =~= frame_payload(old(self)@));
            assert(self.buf@ =~= frame_rest(old(self)@));
        }
        Some(tail)
    }
}

/// Framing is split-insensitive: buffering two reads one after the other
/// leaves the assembler with the same bytes as one read delivering both at
/// once, so a frame split across partial reads decodes identically to one
/// delivered whole.
pub proof fn lemma_split_delivery(buffered: Seq<u8>, first: Seq<u8>, second: Seq<u8>)
    ensures
        (buffered + first) + second == buffered + (first + second),
{
    assert((buffered + first) + second =~= buffered + (first + second));
}

/// A framed payload, however its bytes arrived, is taken back out whole:
/// once the buffered input holds the frame (and whatever follows it), the
/// first frame is ready, its payload is exactly the framed payload, and
/// what follows stays buffered.
pub proof fn lemma_frame_round_trip(payload: Seq<u8>, rest: Seq<u8>)
    requires
        bytes_wf(payload),
    ensures
        frame_ready(spec_frame(payload) + rest),
        frame_payload(spec_frame(payload) + rest) == payload,
        frame_rest(spec_frame(payload) + rest) == rest,
{
    vstd::bytes::lemma_auto_spec_u32_to_from_le_bytes();
    let b = spec_frame(payload) + rest;
    assert(b.take(4) =~= enc_u32(payload.len() as u32));
    assert(b.subrange(4, 4 + payload.len() as int) =~= payload);
    assert(b.skip(4 + payload.len() as int) =~= rest);
}

// ---------------------------------------------------------------------------
// End-of-input classification
// ---------------------------------------------------------------------------

/// The transport-level failure kinds the session layer distinguishes.
/// `Other` stands for every kind that is neither of the three orderly
/// disconnect kinds; the caller must handle it before asking for
/// classification.
#[derive(Clone, Copy, Debug, PartialEq, Eq, Structural)]
pub enum IoErrorKind {
    BrokenPipe,
    ConnectionReset,
    UnexpectedEof,
    Other,
}

/// An orderly end of a session: the peer disconnected.  Not an error.
#[derive(Clone, Copy, Debug, PartialEq, Eq, Structural)]
pub struct Eof;

/// Whether a transport failure kind means the peer disconnected in an
/// orderly way.
pub open spec fn is_orderly_eof(k: IoErrorKind) -> bool {
    k == IoErrorKind::BrokenPipe || k == IoErrorKind::ConnectionReset || k
        == IoErrorKind::UnexpectedEof
}

/// Classifies the outcome of a transport operation: a value passes
/// through, and a disconnect becomes an orderly end of session.  Failure
/// kinds that are not a disconnect are the caller's to handle first.
pub fn check_eof<T>(r: Result<T, IoErrorKind>) -> (res: Result<T, Eof>)
    requires
        r matches Result::Err(k) ==> is_orderly_eof(k),
    ensures
        match r {
            Result::Ok(t) => res matches Result::Ok(v) && v == t,
            Result::Err(_) => res matches Result::Err(e) && e == Eof,
        },
{
    match r {
        Result::Ok(t) => Ok(t),
        Result::Err(_) => Err(Eof),
    }
}

} // verus!
