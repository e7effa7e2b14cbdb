//! Connection pool: client-side reuse of persistent connections to the
//! storage-management service.
//!
//! The pool tracks connections by numeric id.  Acquiring pops an idle
//! connection off the stack if one exists, else hands out a fresh id for
//! the caller to open a new transport connection under.  Exactly one
//! caller holds a connection between acquire and release.  After a
//! successful exchange the connection goes back on the idle stack; after
//! a protocol-level failure it is dropped, never to be handed out again.

use vstd::prelude::*;

verus! {

/// The pool of idle connection ids, together with the set of ids
/// currently lent to in-flight callers.
pub struct ConnectionPool {
    idle: Vec<u64>,
    next_id: u64,
    lent: Ghost<Set<u64>>,
}

impl ConnectionPool {
    /// The idle stack, bottom first.
    pub closed spec fn idle_ids(&self) -> Seq<u64> {
        self.idle@
    }

    /// The ids currently held by in-flight callers.
    pub closed spec fn lent_ids(&self) -> Set<u64> {
        self.lent@
    }

    /// How many ids have ever been handed out fresh.
    pub closed spec fn ids_created(&self) -> u64 {
        self.next_id
    }

    /// Every id the pool has ever dealt out is below the fresh-id
    /// counter; the idle stack holds no duplicates; and no idle id is
    /// also lent out.
    pub closed spec fn well_formed(&self) -> bool {
        &&& forall|i: int| 0 <= i < self.idle@.len() ==> #[trigger] self.idle@[i] < self.next_id
        &&& forall|i: int, j: int|
            0 <= i < j < self.idle@.len() ==> #[trigger] self.idle@[i] != #[trigger] self.idle@[j]
        &&& forall|c: u64| self.lent@.contains(c) ==> c < self.next_id
        &&& forall|i: int| 0 <= i < self.idle@.len() ==> !self.lent@.contains(#[trigger] self.idle@[i])
    }

    /// A pool with no connections at all.
    pub fn new() -> (p: Self)
        ensures
            p.well_formed(),
            p.idle_ids() == Seq::<u64>::empty(),
            p.lent_ids() == Set::<u64>::empty(),
            p.ids_created() == 0,
    {
        ConnectionPool { idle: Vec::new(), next_id: 0, lent: Ghost(Set::empty()) }
    }

    /// Hands out a connection id held by no other in-flight caller: the
    /// top of the idle stack if the stack is not empty, else a fresh id
    /// under which the caller opens a new transport connection.
    pub fn acquire(&mut self) -> (c: u64)
        requires
            old(self).well_formed(),
            old(self).ids_created() < u64::MAX,
        ensures
            final(self).well_formed(),
            !old(self).lent_ids().contains(c),
            final(self).lent_ids() == old(self).lent_ids().insert(c),
            !final(self).idle_ids().contains(c),
            old(self).idle_ids().len() > 0 ==> c == old(self).idle_ids().last() && final(self).idle_ids() == old(self).idle_ids().drop_last() && final(self).ids_created() == old(self).ids_created(),
            old(self).idle_ids().len() == 0 ==> c == old(self).ids_created() && final(self).idle_ids() == old(self).idle_ids() && final(self).ids_created() == old(self).ids_created() + 1,
    {
        let popped = self.idle.pop();
        match popped {
            Option::Some(c) => {
                proof {
                    self.lent@ = self.lent@.insert(c);
                    assert(!final(self).idle_ids().contains(c)) by {
                        assert(forall|i: int|
                            0 <= i < self.idle@.len() ==> self.idle@[i] == old(self).idle_ids()[i]);
                    }
                }
                c
            },
            Option::None => {
                let c = self.next_id;
                self.next_id = self.next_id + 1;
                proof {
                    self.lent@ = self.lent@.insert(c);
                }
                c
            },
        }
    }

    /// Takes a connection back from an in-flight caller.  After a
    /// healthy exchange the connection returns to the idle stack for
    /// reuse; after a protocol-level failure it is dropped and never
    /// returns to the stack.
    pub fn release(&mut self, c: u64, healthy: bool)
        requires
            old(self).well_formed(),
            old(self).lent_ids().contains(c),
        ensures
            final(self).well_formed(),
            final(self).lent_ids() == old(self).lent_ids().remove(c),
            final(self).ids_created() == old(self).ids_created(),
            healthy ==> final(self).idle_ids() == old(self).idle_ids().push(c),
            !healthy ==> final(self).idle_ids() == old(self).idle_ids() && !final(self).idle_ids().contains(c),
    {
        proof {
            self.lent@ = self.lent@.remove(c);
        }
        if healthy {
            self.idle.push(c);
        } else {
            proof {
                assert(!self.idle@.contains(c)) by {
                    if self.idle@.contains(c) {
                        let i = choose|i: int|
                            0 <= i < self.idle@.len() && self.idle@[i] == c;
                        assert(old(self).lent_ids().contains(self.idle@[i]));
                    }
                }
            }
        }
    }

    /// How many connections sit idle.
    pub fn idle_count(&self) -> (n: usize)
        ensures
            n == self.idle_ids().len(),
    {
        self.idle.len()
    }
}

/// Pool discipline: a connection handed out while lent to no one, then a
/// second one handed out while the first is still in flight, are never
/// the same connection — acquiring twice without releasing yields two
/// distinct connections.
pub proof fn lemma_acquire_exclusive(lent: Set<u64>, c1: u64, c2: u64)
    requires
        !lent.contains(c1),
        !lent.insert(c1).contains(c2),
    ensures
        c1 != c2,
{
}

} // verus!
