use mooncake::pool::ConnectionPool;

#[test]
fn acquire_hands_out_distinct_connections() {
    let mut pool = ConnectionPool::new();
    let c1 = pool.acquire();
    let c2 = pool.acquire();
    let c3 = pool.acquire();
    assert_ne!(c1, c2);
    assert_ne!(c1, c3);
    assert_ne!(c2, c3);
}

#[test]
fn healthy_release_returns_connection_for_reuse() {
    let mut pool = ConnectionPool::new();
    let c1 = pool.acquire();
    pool.release(c1, true);
    assert_eq!(pool.idle_count(), 1);
    let c2 = pool.acquire();
    assert_eq!(c1, c2);
    assert_eq!(pool.idle_count(), 0);
}

#[test]
fn release_after_protocol_failure_never_returns_to_idle_stack() {
    let mut pool = ConnectionPool::new();
    let c1 = pool.acquire();
    pool.release(c1, false);
    assert_eq!(pool.idle_count(), 0);
    let c2 = pool.acquire();
    assert_ne!(c1, c2);
}

#[test]
fn idle_stack_is_last_in_first_out() {
    let mut pool = ConnectionPool::new();
    let c1 = pool.acquire();
    let c2 = pool.acquire();
    pool.release(c1, true);
    pool.release(c2, true);
    assert_eq!(pool.idle_count(), 2);
    assert_eq!(pool.acquire(), c2);
    assert_eq!(pool.acquire(), c1);
}

#[test]
fn reacquired_connection_is_not_held_twice() {
    let mut pool = ConnectionPool::new();
    let c1 = pool.acquire();
    pool.release(c1, true);
    let c2 = pool.acquire();
    // c1 went back to the stack and out again as c2; a further acquire
    // while c2 is in flight must not hand the same connection out.
    let c3 = pool.acquire();
    assert_ne!(c2, c3);
}
