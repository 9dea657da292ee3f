use disk_inventory::pool::{bounded_rayon_pool, pool_thread_count, worker_thread_count};

#[test]
fn worker_thread_count_is_clamped_between_2_and_4() {
    assert_eq!(worker_thread_count(1), 2);
    assert_eq!(worker_thread_count(4), 2);
    assert_eq!(worker_thread_count(8), 2);
    assert_eq!(worker_thread_count(12), 3);
    assert_eq!(worker_thread_count(16), 4);
    assert_eq!(worker_thread_count(64), 4);
}

#[test]
fn caps_the_rayon_pool_within_the_expected_bounds() {
    for cores in [None, Some(1), Some(8), Some(12), Some(64)] {
        let (pool, threads) = bounded_rayon_pool(cores).unwrap();

        assert!((2..=4).contains(&pool.current_num_threads()));
        assert_eq!(threads, pool.current_num_threads());
    }
}

#[test]
fn pool_thread_count_assumes_four_cores_when_none_are_reported() {
    assert_eq!(pool_thread_count(None), 2);
    assert_eq!(pool_thread_count(Some(20)), 4);
    assert_eq!(pool_thread_count(Some(0)), 2);
    assert_eq!(worker_thread_count(usize::MAX), 4);
}

#[test]
fn bounded_pool_has_the_configured_thread_count() {
    let (_, threads) = bounded_rayon_pool(Some(12)).unwrap();
    assert_eq!(threads, 3);
    let (_, threads) = bounded_rayon_pool(Some(64)).unwrap();
    assert_eq!(threads, 4);
}
