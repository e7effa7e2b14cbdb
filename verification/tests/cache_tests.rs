use mooncake::cache::{entries_from_tables, CacheEntry, CardinalityCache, CACHE_TTL_SECONDS};
use mooncake::protocol::TableInfo;

fn b(s: &str) -> Vec<u8> {
    s.as_bytes().to_vec()
}

fn entry(table: &str, cardinality: u64) -> CacheEntry {
    CacheEntry { table: b(table), cardinality }
}

fn info(database: &str, table: &str, cardinality: u64) -> TableInfo {
    TableInfo {
        database: b(database),
        table: b(table),
        cardinality,
        commit_lsn: 1,
        flush_lsn: Some(1),
        warehouse_location: b("loc"),
    }
}

#[test]
fn unfilled_cache_answers_nothing() {
    let cache = CardinalityCache::new();
    assert_eq!(cache.lookup("public.t".as_bytes(), 0), None);
}

#[test]
fn fresh_cache_answers_cardinalities() {
    let mut cache = CardinalityCache::new();
    cache.refresh(vec![entry("public.a", 10), entry("public.b", 20)], 100);
    assert_eq!(cache.lookup("public.a".as_bytes(), 100), Some(10));
    assert_eq!(cache.lookup("public.b".as_bytes(), 399), Some(20));
}

#[test]
fn unlisted_table_counts_zero_rows() {
    let mut cache = CardinalityCache::new();
    cache.refresh(vec![entry("public.a", 10)], 100);
    assert_eq!(cache.lookup("public.missing".as_bytes(), 100), Some(0));
}

#[test]
fn cache_expires_after_its_time_to_live() {
    let mut cache = CardinalityCache::new();
    cache.refresh(vec![entry("public.a", 10)], 100);
    assert_eq!(CACHE_TTL_SECONDS, 300);
    assert_eq!(cache.lookup("public.a".as_bytes(), 399), Some(10));
    assert_eq!(cache.lookup("public.a".as_bytes(), 400), None);
    assert_eq!(cache.lookup("public.a".as_bytes(), 1000), None);
}

#[test]
fn clock_before_refresh_counts_as_stale() {
    let mut cache = CardinalityCache::new();
    cache.refresh(vec![entry("public.a", 10)], 100);
    assert_eq!(cache.lookup("public.a".as_bytes(), 99), None);
}

#[test]
fn refresh_replaces_the_listing() {
    let mut cache = CardinalityCache::new();
    cache.refresh(vec![entry("public.a", 10)], 100);
    cache.refresh(vec![entry("public.a", 77)], 500);
    assert_eq!(cache.lookup("public.a".as_bytes(), 500), Some(77));
}

#[test]
fn entries_are_built_from_the_namespace_listing_only() {
    let tables = vec![
        info("sales", "public.a", 5),
        info("hr", "public.b", 6),
        info("sales", "public.c", 7),
    ];
    let entries = entries_from_tables(tables, "sales".as_bytes());
    assert_eq!(entries.len(), 2);
    assert_eq!(entries[0].table, b("public.a"));
    assert_eq!(entries[0].cardinality, 5);
    assert_eq!(entries[1].table, b("public.c"));
    assert_eq!(entries[1].cardinality, 7);
}
