//! Scan registry: the mapping from a table identity to an in-flight
//! scan's materialized buffer, kept alive between a scan's begin and its
//! matching end.
//!
//! The registry is scoped to one connection's session: opening a scan for
//! an identity that already has one replaces the prior entry (the
//! protocol does not support concurrent overlapping scans per identity
//! per connection), and ending a scan that was never begun changes
//! nothing.

use std::collections::HashMap;
use vstd::prelude::*;

use crate::protocol::TableIdentity;

verus! {

broadcast use vstd::std_specs::hash::group_hash_axioms;

/// The scan buffers of one session, keyed by packed table identity.
pub struct ScanRegistry {
    scans: HashMap<u64, Vec<u8>>,
}

impl View for ScanRegistry {
    type V = Map<u64, Seq<u8>>;

    closed spec fn view(&self) -> Map<u64, Seq<u8>> {
        self.scans@.map_values(|b: Vec<u8>| b@)
    }
}

impl ScanRegistry {
    /// A registry with no open scans.
    pub fn new() -> (r: Self)
        ensures
            r@ == Map::<u64, Seq<u8>>::empty(),
    {
        let r = ScanRegistry { scans: HashMap::new() };
        proof {
            assert(r@ =~= Map::<u64, Seq<u8>>::empty());
        }
        r
    }

    /// Opens (or replaces) the scan for an identity, storing its
    /// materialized buffer.
    pub fn begin(&mut self, identity: TableIdentity, buffer: Vec<u8>)
        ensures
            final(self)@ == old(self)@.insert(identity.spec_key(), buffer@),
    {
        let key = identity.key();
        self.scans.insert(key, buffer);
        proof {
            assert(self@ =~= old(self)@.insert(identity.spec_key(), buffer@));
        }
    }

    /// Ends the scan for an identity, releasing its buffer.  Ending a
    /// scan that was never begun is a no-op.
    pub fn end(&mut self, identity: TableIdentity) -> (released: Option<Vec<u8>>)
        ensures
            final(self)@ == old(self)@.remove(identity.spec_key()),
            match released {
                Option::Some(b) => old(self)@.contains_key(identity.spec_key()) && b@ == old(
                    self,
                )@[identity.spec_key()],
                Option::None => !old(self)@.contains_key(identity.spec_key()),
            },
            !old(self)@.contains_key(identity.spec_key()) ==> final(self)@ == old(self)@,
    {
        let key = identity.key();
        let released = self.scans.remove(&key);
        proof {
            assert(self@ =~= old(self)@.remove(identity.spec_key()));
            if !old(self)@.contains_key(identity.spec_key()) {
                assert(self@ =~= old(self)@);
            }
        }
        released
    }

    /// Whether an identity currently has an open scan.
    pub fn has_scan(&self, identity: TableIdentity) -> (b: bool)
        ensures
            b == self@.contains_key(identity.spec_key()),
    {
        let key = identity.key();
        self.scans.contains_key(&key)
    }

    /// The number of open scans.
    pub fn open_scans(&self) -> (n: usize)
        ensures
            n == self@.dom().len(),
    {
        proof {
            assert(self@.dom() =~= self.scans@.dom());
        }
        self.scans.len()
    }

    /// Releases every open scan at once: what happens to the registry
    /// when its session ends.
    pub fn release_all(&mut self)
        ensures
            final(self)@ == Map::<u64, Seq<u8>>::empty(),
    {
        self.scans.clear();
        proof {
            assert(self@ =~= Map::<u64, Seq<u8>>::empty());
        }
    }
}

/// Scan lifecycle: beginning a scan for an identity and then ending it
/// leaves the registry without an entry for that identity — and, when no
/// scan was open for it before, exactly as it was.  Ending a scan that
/// was never begun changes nothing, and no other identity's scan is ever
/// touched: the packed keys of two different identities never collide.
pub proof fn lemma_scan_lifecycle(
    scans: Map<u64, Seq<u8>>,
    identity: TableIdentity,
    buffer: Seq<u8>,
)
    ensures
        !scans.insert(identity.spec_key(), buffer).remove(identity.spec_key()).contains_key(
            identity.spec_key(),
        ),
        !scans.contains_key(identity.spec_key()) ==> scans.insert(
            identity.spec_key(),
            buffer,
        ).remove(identity.spec_key()) == scans,
        !scans.contains_key(identity.spec_key()) ==> scans.remove(identity.spec_key()) == scans,
        forall|other: TableIdentity|
            other != identity ==> scans.insert(identity.spec_key(), buffer).remove(
                identity.spec_key(),
            ).contains_key(#[trigger] other.spec_key()) == scans.contains_key(other.spec_key()),
        forall|other: TableIdentity|
            other != identity && scans.contains_key(#[trigger] other.spec_key()) ==> scans.insert(
                identity.spec_key(),
                buffer,
            ).remove(identity.spec_key())[other.spec_key()] == scans[other.spec_key()],
{
    let k = identity.spec_key();
    if !scans.contains_key(k) {
        assert(scans.insert(k, buffer).remove(k) =~= scans);
        assert(scans.remove(k) =~= scans);
    }
    assert forall|other: TableIdentity| other != identity implies #[trigger] other.spec_key()
        != k by {
        if other.spec_key() == k {
            crate::protocol::lemma_key_injective(other, identity);
        }
    }
}

} // verus!
