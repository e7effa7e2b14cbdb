//! Cardinality cache: a table-name-to-cardinality lookup refreshed from a
//! table listing, with time-based invalidation.
//!
//! The cache is an explicit state object constructed once and passed to
//! whoever needs it; the clock reading is supplied by the caller on every
//! use.  A lookup answers only while the last refresh is younger than the
//! time-to-live; a table absent from the cached listing counts zero rows.

use vstd::prelude::*;

use crate::protocol::{InfoModel, TableInfo};
use crate::session::{filter_tables, spec_filter_tables};

verus! {

/// How long one refreshed listing keeps answering, in seconds.
pub const CACHE_TTL_SECONDS: u64 = 300;

/// One cached entry: a table's qualified name and its cardinality.
#[derive(Debug)]
pub struct CacheEntry {
    pub table: Vec<u8>,
    pub cardinality: u64,
}

/// The mathematical model of a cached entry.
#[verifier::ext_equal]
pub struct CacheEntryModel {
    pub table: Seq<u8>,
    pub cardinality: u64,
}

impl View for CacheEntry {
    type V = CacheEntryModel;

    open spec fn view(&self) -> CacheEntryModel {
        CacheEntryModel { table: self.table@, cardinality: self.cardinality }
    }
}

/// The cache's state: whether it was ever filled, when, and with what.
#[verifier::ext_equal]
pub struct CacheModel {
    pub filled: bool,
    pub stamp: u64,
    pub entries: Seq<CacheEntryModel>,
}

/// The cardinality cache.
pub struct CardinalityCache {
    filled: bool,
    stamp: u64,
    entries: Vec<CacheEntry>,
}

impl View for CardinalityCache {
    type V = CacheModel;

    closed spec fn view(&self) -> CacheModel {
        CacheModel {
            filled: self.filled,
            stamp: self.stamp,
            entries: self.entries@.map_values(|e: CacheEntry| e@),
        }
    }
}

/// Whether a cache still answers at the given clock reading: it was
/// filled, the clock has not moved backwards past the refresh, and the
/// refresh is younger than the time-to-live.
pub open spec fn spec_fresh(m: CacheModel, now: u64) -> bool {
    m.filled && m.stamp <= now && now < m.stamp + CACHE_TTL_SECONDS
}

/// The cardinality a cached listing reports for a table: the first
/// matching entry's, or zero for a table not listed.
pub open spec fn spec_cardinality_of(entries: Seq<CacheEntryModel>, table: Seq<u8>) -> u64
    decreases entries.len(),
{
    if entries.len() == 0 {
        0
    } else if entries.first().table == table {
        entries.first().cardinality
    } else {
        spec_cardinality_of(entries.drop_first(), table)
    }
}

/// The cardinality lookup skips any prefix of entries for other tables.
proof fn lemma_cardinality_skip(entries: Seq<CacheEntryModel>, table: Seq<u8>, i: int)
    requires
        0 <= i <= entries.len(),
        forall|j: int| 0 <= j < i ==> (#[trigger] entries[j]).table != table,
    ensures
        spec_cardinality_of(entries, table) == spec_cardinality_of(entries.skip(i), table),
    decreases i,
{
    if i > 0 {
        assert(entries[0].table != table);
        lemma_cardinality_skip(entries.drop_first(), table, i - 1);
        assert(entries.drop_first().skip(i - 1) =~= entries.skip(i));
    } else {
        assert(entries.skip(0) =~= entries);
    }
}

impl CardinalityCache {
    /// A cache that has never been filled: it answers nothing until the
    /// first refresh.
    pub fn new() -> (c: Self)
        ensures
            c@.filled == false,
    {
        CardinalityCache { filled: false, stamp: 0, entries: Vec::new() }
    }

    /// Answers a table's cardinality from the cached listing while the
    /// last refresh is still young; a stale or never-filled cache
    /// answers nothing, and the caller refreshes it.
    pub fn lookup(&self, table: &[u8], now: u64) -> (r: Option<u64>)
        ensures
            spec_fresh(self@, now) ==> r == Option::Some(
                spec_cardinality_of(self@.entries, table@),
            ),
            !spec_fresh(self@, now) ==> r is None,
    {
        if !self.filled {
            return None;
        }
        if now < self.stamp || now - self.stamp >= CACHE_TTL_SECONDS {
            return None;
        }
        proof {
            assert(spec_fresh(self@, now));
        }
        let mut i: usize = 0;
        while i < self.entries.len()
            invariant
                spec_fresh(self@, now),
                i <= self.entries@.len(),
                forall|j: int| 0 <= j < i ==> (#[trigger] self@.entries[j]).table != table@,
            decreases self.entries@.len() - i,
        {
            if crate::bytes_eq(self.entries[i].table.as_slice(), table) {
                proof {
                    lemma_cardinality_skip(self@.entries, table@, i as int);
                    assert(self@.entries.skip(i as int).first() == self@.entries[i as int]);
                }
                return Some(self.entries[i].cardinality);
            }
            i = i + 1;
        }
        proof {
            lemma_cardinality_skip(self@.entries, table@, self@.entries.len() as int);
            assert(self@.entries.skip(self@.entries.len() as int) =~= Seq::<
                CacheEntryModel,
            >::empty());
        }
        Some(0)
    }

    /// Replaces the cached listing with a fresh one taken at the given
    /// clock reading.
    pub fn refresh(&mut self, entries: Vec<CacheEntry>, now: u64)
        ensures
            final(self)@ == (CacheModel {
                filled: true,
                stamp: now,
                entries: entries@.map_values(|e: CacheEntry| e@),
            }),
    {
        self.filled = true;
        self.stamp = now;
        self.entries = entries;
        proof {
            assert(self@ =~= CacheModel {
                filled: true,
                stamp: now,
                entries: entries@.map_values(|e: CacheEntry| e@),
            });
        }
    }
}

/// The model of turning one listing entry into a cache entry.
pub open spec fn spec_cache_entry(t: InfoModel) -> CacheEntryModel {
    CacheEntryModel { table: t.table, cardinality: t.cardinality }
}

/// Builds the cache entries for one database's namespace from a full
/// listing: keeps exactly that namespace's entries, in order, each
/// reduced to its table name and cardinality.
pub fn entries_from_tables(tables: Vec<TableInfo>, database: &[u8]) -> (out: Vec<CacheEntry>)
    ensures
        out@.map_values(|e: CacheEntry| e@) == spec_filter_tables(
            tables@.map_values(|t: TableInfo| t@),
            database@,
        ).map_values(|t: InfoModel| spec_cache_entry(t)),
{
    let kept = filter_tables(tables, database);
    let ghost kept_model = kept@.map_values(|t: TableInfo| t@);
    let total = kept.len();
    let mut rest = kept;
    let mut out: Vec<CacheEntry> = Vec::new();
    let mut i: usize = 0;
    while rest.len() > 0
        invariant
            kept_model.len() == total,
            i + rest@.len() == total,
            forall|j: int| 0 <= j < rest@.len() ==> #[trigger] rest@[j]@ == kept_model[i + j],
            out@.len() == i,
            forall|j: int|
                0 <= j < i ==> #[trigger] out@[j]@ == spec_cache_entry(kept_model[j]),
        decreases rest@.len(),
    {
        let t = rest.remove(0);
        proof {
            assert(t@ == kept_model[i as int]);
        }
        out.push(CacheEntry { table: t.table, cardinality: t.cardinality });
        proof {
            assert(out@[i as int]@ == spec_cache_entry(kept_model[i as int]));
        }
        i = i + 1;
    }
    proof {
        assert(out@.map_values(|e: CacheEntry| e@) =~= kept_model.map_values(
            |t: InfoModel| spec_cache_entry(t),
        ));
    }
    out
}

} // verus!
