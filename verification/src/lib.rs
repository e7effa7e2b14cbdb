//! Core of a table-offloading extension: a binary session protocol that
//! multiplexes table-lifecycle and scan operations over a persistent
//! connection, together with the client-side connection pool, the
//! server-side scan registry and dispatcher, the relational-to-columnar
//! type mapper, and the commit builder for the table-format transaction
//! log.

pub mod cache;
pub mod client;
pub mod codec;
pub mod commit;
pub mod mapper;
pub mod pool;
pub mod protocol;
pub mod registry;
pub mod session;

use vstd::prelude::*;

verus! {

/// Byte-wise equality of two slices.
pub fn bytes_eq(a: &[u8], b: &[u8]) -> (r: bool)
    ensures
        r == (a@ == b@),
{
    if a.len() != b.len() {
        assert(a@ != b@);
        return false;
    }
    let mut i: usize = 0;
    while i < a.len()
        invariant
            i <= a.len(),
            a.len() == b.len(),
            forall|j: int| 0 <= j < i ==> a@[j] == b@[j],
        decreases a.len() - i,
    {
        if a[i] != b[i] {
            assert(a@ != b@);
            return false;
        }
        i = i + 1;
    }
    proof {
        assert(a@ =~= b@);
    }
    true
}

} // verus!
