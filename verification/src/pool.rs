//! The worker pool behind the scan: a small, fixed number of threads, so a
//! large scan cannot starve the window's own rendering.

use rayon::{ThreadPool, ThreadPoolBuildError, ThreadPoolBuilder};
use vstd::prelude::*;

verus! {

#[verifier::external_type_specification]
#[verifier::external_body]
pub struct ExThreadPool(ThreadPool);

#[verifier::external_type_specification]
#[verifier::external_body]
pub struct ExThreadPoolBuildError(ThreadPoolBuildError);

/// Why a worker pool could not be built.
#[derive(Debug, PartialEq, Eq, Structural)]
pub enum PoolError {
    /// Rayon refused the configuration: for the global pool, most often
    /// because one is already in place.
    BuildFailed,
}

/// The number of worker threads for `cores` logical cores: a quarter of the
/// cores, clamped to the range 2 to 4 however large the machine is.
pub open spec fn worker_threads_for(cores: usize) -> usize {
    let quarter = cores / 4;
    if quarter < 2 {
        2
    } else if quarter > 4 {
        4
    } else {
        quarter
    }
}

/// The number of worker threads for `cores` logical cores (see
/// [`worker_threads_for`]).
pub fn worker_thread_count(cores: usize) -> (r: usize)
    ensures
        r == worker_threads_for(cores),
        2 <= r <= 4,
{
    let quarter = cores / 4;
    if quarter < 2 {
        2
    } else if quarter > 4 {
        4
    } else {
        quarter
    }
}

/// The number of worker threads when the machine reports `detected_cores`
/// logical cores; 4 cores are assumed when it reports none.
pub fn pool_thread_count(detected_cores: Option<usize>) -> (r: usize)
    ensures
        r == worker_threads_for(
            match detected_cores {
                Some(c) => c,
                None => 4,
            },
        ),
        2 <= r <= 4,
{
    let cores = match detected_cores {
        Some(c) => c,
        None => 4,
    };
    worker_thread_count(cores)
}

/// Trusted: builds a rayon pool configured with `threads` threads
/// (`ThreadPoolBuilder::new().num_threads(threads).build()`) and reads back
/// its `ThreadPool::current_num_threads()`. In rayon-core's source a
/// non-zero request is honoured up to rayon's own limit
/// (`n_threads = min(requested, max_num_threads())`, a limit of at least 255),
/// and `current_num_threads` reports exactly that many threads: so for a
/// request from 1 to 255 the count read back is the request. Whether the
/// build succeeds depends on the operating system, so nothing is stated of
/// that.
/// The builder type cannot be named in verified code (its spawn parameter
/// defaults to a type private to rayon), so the builder's calls stand in
/// this one wrapper.
#[verifier::external_body]
fn build_pool(threads: usize) -> (r: Result<(ThreadPool, usize), ThreadPoolBuildError>)
    ensures
        1 <= threads <= 255 ==> (r matches Ok(p) ==> p.1 == threads),
{
    match ThreadPoolBuilder::new().num_threads(threads).build() {
        Ok(pool) => {
            let count = pool.current_num_threads();
            Ok((pool, count))
        },
        Err(e) => Err(e),
    }
}

/// Trusted: installs a rayon global pool configured with `threads` threads
/// (`ThreadPoolBuilder::new().num_threads(threads).build_global()`), then
/// reads back the global pool's thread count with `rayon::current_num_threads()`.
/// That function reports the global pool only when called outside every
/// rayon worker thread (`rayon::current_thread_index()` is `None`); from a
/// worker of another pool the count is not read and `None` is returned. As
/// for `build_pool`, a request from 1 to 255 gives exactly that count.
/// Installing fails when a global pool is already in place, which depends
/// on the process's history, so nothing is stated of that.
#[verifier::external_body]
fn install_global_pool(threads: usize) -> (r: Result<Option<usize>, ThreadPoolBuildError>)
    ensures
        1 <= threads <= 255 ==> (r matches Ok(Some(count)) ==> count == threads),
{
    match ThreadPoolBuilder::new().num_threads(threads).build_global() {
        Ok(()) => match rayon::current_thread_index() {
            None => Ok(Some(rayon::current_num_threads())),
            Some(_) => Ok(None),
        },
        Err(e) => Err(e),
    }
}

/// A local worker pool with [`pool_thread_count`] threads for a machine that
/// reports `detected_cores` logical cores, together with the number of
/// threads it has: exactly that count, from 2 to 4.
pub fn bounded_rayon_pool(detected_cores: Option<usize>) -> (r: Result<(ThreadPool, usize), PoolError>)
    ensures
        r matches Ok(p) ==> p.1 == worker_threads_for(
            match detected_cores {
                Some(c) => c,
                None => 4,
            },
        ) && 2 <= p.1 <= 4,
        r matches Err(e) ==> e == PoolError::BuildFailed,
{
    match build_pool(pool_thread_count(detected_cores)) {
        Ok(pool) => Ok(pool),
        Err(_) => Err(PoolError::BuildFailed),
    }
}

/// Installs the bounded pool, configured with [`pool_thread_count`] threads,
/// as the process's global pool; an error when one was already in place,
/// which is then left as it is. On success it gives the installed pool's
/// thread count (exactly the configured count, from 2 to 4), or `None`
/// when called from a worker thread of another pool, where that count cannot
/// be read.
pub fn init_bounded_rayon_pool(detected_cores: Option<usize>) -> (r: Result<Option<usize>, PoolError>)
    ensures
        r matches Ok(Some(count)) ==> count == worker_threads_for(
            match detected_cores {
                Some(c) => c,
                None => 4,
            },
        ) && 2 <= count <= 4,
        r matches Err(e) ==> e == PoolError::BuildFailed,
{
    match install_global_pool(pool_thread_count(detected_cores)) {
        Ok(count) => Ok(count),
        Err(_) => Err(PoolError::BuildFailed),
    }
}

} // verus!
