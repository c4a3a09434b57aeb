//! Race detection over byte accesses.

use fixedbitset::FixedBitSet;
use volta_analysis::eval::error::AccessSite;
use volta_analysis::eval::race::{
    AsyncProxyFenceHazardInfo, MemHazard, Proxy, RaceInfo, RaceTracker,
};
use volta_analysis::eval::ThreadId;
use volta_analysis::lowered::{InstrId, MemSpace};

const S: MemSpace = MemSpace::Shared;

fn pc(n: u32) -> InstrId {
    InstrId(n)
}

fn group(n: usize, members: &[u32]) -> FixedBitSet {
    let mut g = FixedBitSet::with_capacity(n);
    for &m in members {
        g.insert(m as usize);
    }
    g
}

fn expect_race(result: Result<(), MemHazard>) -> RaceInfo {
    match result {
        Err(MemHazard::Race(info)) => info,
        other => panic!("expected a race, got {:?}", other),
    }
}

#[test]
fn test_write_read_race() {
    let mut chi = RaceTracker::new(4);
    chi.write(S, 0x10, 4, ThreadId(0), pc(1)).unwrap();
    let err = expect_race(chi.read(S, 0x10, 4, ThreadId(1), pc(2)));
    assert_eq!(err.prior.thread, ThreadId(0));
    assert!(err.prior.is_write);
}

#[test]
fn test_read_write_race() {
    let mut chi = RaceTracker::new(4);
    chi.read(S, 0x10, 4, ThreadId(0), pc(1)).unwrap();
    let err = expect_race(chi.write(S, 0x10, 4, ThreadId(1), pc(2)));
    assert_eq!(err.prior.thread, ThreadId(0));
    assert!(!err.prior.is_write);
}

#[test]
fn test_read_read_no_race() {
    let mut chi = RaceTracker::new(4);
    chi.read(S, 0x10, 4, ThreadId(0), pc(1)).unwrap();
    chi.read(S, 0x10, 4, ThreadId(1), pc(2)).unwrap();
}

#[test]
fn test_same_thread_no_race() {
    let mut chi = RaceTracker::new(4);
    chi.write(S, 0x10, 4, ThreadId(0), pc(1)).unwrap();
    chi.read(S, 0x10, 4, ThreadId(0), pc(2)).unwrap();
    chi.write(S, 0x10, 4, ThreadId(0), pc(3)).unwrap();
}

#[test]
fn test_barrier_clears() {
    let mut chi = RaceTracker::new(4);
    chi.write(S, 0x10, 4, ThreadId(0), pc(1)).unwrap();
    chi.sync_all();
    chi.read(S, 0x10, 4, ThreadId(1), pc(2)).unwrap();
    chi.write(S, 0x10, 4, ThreadId(2), pc(3)).unwrap_err();
}

#[test]
fn test_warp_sync_only_covers_group() {
    let mut chi = RaceTracker::new(64);
    chi.write(S, 0x10, 4, ThreadId(0), pc(1)).unwrap();
    // Threads 0-31 sync; thread 1 may now read, thread 32 may not.
    chi.sync_group(&group(64, &(0..32).collect::<Vec<_>>()));
    chi.read(S, 0x10, 4, ThreadId(1), pc(2)).unwrap();
    let err = expect_race(chi.read(S, 0x10, 4, ThreadId(32), pc(3)));
    assert_eq!(err.prior.thread, ThreadId(0));
}

#[test]
fn test_disjoint_bytes_no_race() {
    let mut chi = RaceTracker::new(4);
    chi.write(S, 0x10, 4, ThreadId(0), pc(1)).unwrap();
    chi.write(S, 0x14, 4, ThreadId(1), pc(2)).unwrap();
}

#[test]
fn test_overlapping_bytes_race() {
    let mut chi = RaceTracker::new(4);
    chi.write(S, 0x10, 4, ThreadId(0), pc(1)).unwrap();
    // Writes [0x12, 0x16) overlapping [0x10, 0x14).
    let err = expect_race(chi.write(S, 0x12, 4, ThreadId(1), pc(2)));
    assert_eq!(err.addr, 0x12);
}

#[test]
fn test_write_then_write_after_read_still_races_with_reader() {
    // A write leaves the read set unchanged: after t0 reads and t1 writes
    // (with a sync in between covering t0/t1 only), a write by t2 still
    // races with t0's read.
    let mut chi = RaceTracker::new(4);
    chi.read(S, 0x10, 4, ThreadId(0), pc(1)).unwrap();
    chi.sync_group(&group(4, &[0, 1]));
    chi.write(S, 0x10, 4, ThreadId(1), pc(2)).unwrap();
    let err = expect_race(chi.write(S, 0x10, 4, ThreadId(2), pc(3)));
    assert_eq!(err.prior.thread, ThreadId(0));
    assert!(!err.prior.is_write);
}

#[test]
fn test_race_report_names_the_lowest_conflicting_reader() {
    for order in [[5u32, 2, 9], [9, 5, 2]] {
        let mut chi = RaceTracker::new(16);
        for t in order {
            chi.read(S, 0x10, 1, ThreadId(t), pc(t)).unwrap();
        }
        let err = expect_race(chi.write(S, 0x10, 1, ThreadId(0), pc(100)));
        assert_eq!(err.prior.thread, ThreadId(2));
        assert_eq!(err.prior.pc, pc(2));
        assert!(!err.prior.is_write);
    }
}

fn site(t: u32, p: u32, is_write: bool) -> AccessSite {
    AccessSite {
        thread: ThreadId(t),
        pc: pc(p),
        is_write,
    }
}

#[test]
fn test_tcgen05_concurrent_ld_no_conflict() {
    let mut chi = RaceTracker::new(32);
    chi.tcgen05_begin(0, 0, 64, false, site(0, 1, false)).unwrap();
    chi.tcgen05_begin(0, 0, 64, false, site(0, 2, false)).unwrap();
}

#[test]
fn test_tcgen05_st_conflicts_with_pending_ld() {
    let mut chi = RaceTracker::new(32);
    chi.tcgen05_begin(0, 0, 64, false, site(0, 1, false)).unwrap();
    let err = chi
        .tcgen05_begin(0, 32, 32, true, site(0, 2, true))
        .unwrap_err();
    assert_eq!(err.prior.pc, pc(1));
    assert!(!err.prior.is_write);
}

#[test]
fn test_tcgen05_ld_conflicts_with_pending_st() {
    let mut chi = RaceTracker::new(32);
    chi.tcgen05_begin(0, 0, 64, true, site(0, 1, true)).unwrap();
    let err = chi
        .tcgen05_begin(0, 32, 32, false, site(0, 2, false))
        .unwrap_err();
    assert_eq!(err.prior.pc, pc(1));
    assert!(err.prior.is_write);
}

#[test]
fn test_tcgen05_st_conflicts_with_pending_st() {
    let mut chi = RaceTracker::new(32);
    chi.tcgen05_begin(0, 0, 64, true, site(0, 1, true)).unwrap();
    let err = chi
        .tcgen05_begin(0, 0, 64, true, site(0, 2, true))
        .unwrap_err();
    assert_eq!(err.prior.pc, pc(1));
}

#[test]
fn test_tcgen05_non_overlapping_ranges_do_not_conflict() {
    let mut chi = RaceTracker::new(32);
    chi.tcgen05_begin(0, 0, 32, true, site(0, 1, true)).unwrap();
    chi.tcgen05_begin(0, 32, 32, true, site(0, 2, true)).unwrap();
}

#[test]
fn test_tcgen05_wait_releases_only_its_own_kind_and_quadrant() {
    let mut chi = RaceTracker::new(32);
    // Non-overlapping ranges, so the pending load and store coexist.
    chi.tcgen05_begin(0, 0, 32, false, site(0, 1, false)).unwrap();
    chi.tcgen05_begin(0, 64, 32, true, site(0, 2, true)).unwrap();
    // Waiting on stores does not release the pending load.
    chi.tcgen05_wait(0, true);
    let err = chi
        .tcgen05_begin(0, 0, 32, true, site(0, 3, true))
        .unwrap_err();
    assert!(!err.prior.is_write);

    // A different quadrant is unaffected.
    chi.tcgen05_begin(1, 0, 32, true, site(1, 4, true)).unwrap();

    // Waiting on loads releases it; the same range is now free.
    chi.tcgen05_wait(0, false);
    chi.tcgen05_begin(0, 0, 32, false, site(0, 5, false)).unwrap();
}

fn expect_async_proxy_hazard(result: Result<(), MemHazard>) -> AsyncProxyFenceHazardInfo {
    match result {
        Err(MemHazard::AsyncProxyUnfenced(info)) => info,
        other => panic!("expected an async-proxy-fence hazard, got {:?}", other),
    }
}

#[test]
fn test_async_proxy_fence_writer_itself_is_not_exempt() {
    let mut chi = RaceTracker::new(4);
    chi.mark_async_proxy_unfenced(S, 0x10, 4, ThreadId(0), pc(1));
    let hazard = expect_async_proxy_hazard(chi.read(S, 0x10, 4, ThreadId(0), pc(2)));
    assert_eq!(hazard.prior.thread, ThreadId(0));
    assert!(hazard.prior.is_write);
}

#[test]
fn test_async_proxy_fence_clear_releases_only_the_fencing_thread() {
    let mut chi = RaceTracker::new(4);
    chi.mark_async_proxy_unfenced(S, 0x10, 4, ThreadId(0), pc(1));
    chi.clear_async_proxy_fence(ThreadId(0), None);
    // Thread 0 fenced: its own access now succeeds.
    chi.read(S, 0x10, 4, ThreadId(0), pc(2)).unwrap();
    // Thread 1 never fenced: still blocked.
    expect_async_proxy_hazard(chi.write(S, 0x10, 4, ThreadId(1), pc(3)));
}

#[test]
fn test_async_proxy_fence_restrict_to_one_space_does_not_clear_the_other() {
    const G: MemSpace = MemSpace::Global;
    let mut chi = RaceTracker::new(4);
    chi.mark_async_proxy_unfenced(G, 0x10, 4, ThreadId(0), pc(1));
    chi.mark_async_proxy_unfenced(S, 0x20, 4, ThreadId(0), pc(2));
    chi.clear_async_proxy_fence(ThreadId(0), Some(MemSpace::Global));
    // The global mark is cleared, the shared one is untouched.
    chi.read(G, 0x10, 4, ThreadId(0), pc(3)).unwrap();
    expect_async_proxy_hazard(chi.read(S, 0x20, 4, ThreadId(0), pc(4)));
}

#[test]
fn test_async_proxy_fence_unrestricted_clear_covers_both_spaces() {
    const G: MemSpace = MemSpace::Global;
    let mut chi = RaceTracker::new(4);
    chi.mark_async_proxy_unfenced(G, 0x10, 4, ThreadId(0), pc(1));
    chi.mark_async_proxy_unfenced(S, 0x20, 4, ThreadId(0), pc(2));
    chi.clear_async_proxy_fence(ThreadId(0), None);
    chi.read(G, 0x10, 4, ThreadId(0), pc(3)).unwrap();
    chi.read(S, 0x20, 4, ThreadId(0), pc(4)).unwrap();
}

const N_THREADS: usize = 12;
const N_ADDRS: u64 = 6;

type Pending = Vec<usize>;
type Snapshot = Vec<(u64, Vec<(u32, Pending)>, Option<(u32, Pending)>)>;

/// The recorded accesses in a comparable form.
fn snapshot(chi: &RaceTracker) -> Snapshot {
    (0..N_ADDRS)
        .map(|addr| {
            let readers = (0..N_THREADS as u32)
                .map(|r| {
                    let pending = (0..N_THREADS)
                        .filter(|&t| chi.read_pending(S, addr, r, t))
                        .collect();
                    (r, pending)
                })
                .collect();
            let writer = chi.last_writer(S, addr).map(|w| {
                let pending = (0..N_THREADS)
                    .filter(|&t| chi.write_pending(S, addr, t))
                    .collect();
                (w, pending)
            });
            (addr, readers, writer)
        })
        .collect()
}

/// A deterministic pseudo-random access history.
fn history(seed: u64) -> RaceTracker {
    let mut chi = RaceTracker::new(N_THREADS);
    let mut x = seed | 1;
    for step in 0..120u32 {
        x ^= x << 13;
        x ^= x >> 7;
        x ^= x << 17;
        let thread = ThreadId((x % N_THREADS as u64) as u32);
        let addr = (x >> 8) % N_ADDRS;
        let _ = if (x >> 20) & 1 == 0 {
            chi.write_with(S, addr, 1, thread, pc(step), false)
        } else {
            chi.read(S, addr, 1, thread, pc(step))
        };
    }
    chi
}

#[test]
fn batched_waiter_sync_matches_sequential_sync_groups() {
    let cases: [(&[u32], &[u32]); 5] = [
        (&[0, 1, 2], &[3, 4]),
        (&[0, 1], &[1, 2, 3]),
        (&[5], &[5]),
        (&[2, 7, 9], &[0, 2, 11]),
        (&[], &[1, 2]),
    ];
    for seed in 1..40u64 {
        for (participants, waiters) in cases {
            let arrived = group(N_THREADS, participants);
            let woken = group(N_THREADS, waiters);

            let mut sequential = history(seed);
            for &waiter in waiters {
                let mut one = arrived.clone();
                one.insert(waiter as usize);
                sequential.sync_group(&one);
            }

            let mut batched = history(seed);
            batched.sync_mbarrier_waiters(&arrived, &woken);

            assert_eq!(
                snapshot(&sequential),
                snapshot(&batched),
                "seed {seed}, participants {participants:?}, waiters {waiters:?}"
            );
        }
    }
}

#[test]
fn copies_lock_their_bytes_until_released() {
    let mut chi = RaceTracker::new(4);
    let holder = (ThreadId(0), pc(7));
    chi.lock_dst(S, 0x40, 4, holder.0, holder.1).unwrap();
    assert!(matches!(
        chi.read(S, 0x40, 4, ThreadId(0), pc(8)),
        Err(MemHazard::AsyncCopy(_))
    ));
    chi.release_dst(S, 0x40, 4, holder.0, holder.1);
    chi.read(S, 0x40, 4, ThreadId(0), pc(9)).unwrap();

    // A source may be read but not written.
    chi.lock_src(S, 0x80, 4, holder.0, holder.1);
    chi.read(S, 0x80, 4, ThreadId(0), pc(10)).unwrap();
    assert!(matches!(
        chi.write(S, 0x80, 4, ThreadId(0), pc(11)),
        Err(MemHazard::AsyncCopy(_))
    ));
    chi.release_src(S, 0x80, 4, holder.0, holder.1);
    chi.write(S, 0x80, 4, ThreadId(0), pc(12)).unwrap();
}

#[test]
fn async_reads_need_a_fence_after_generic_writes() {
    let mut chi = RaceTracker::new(4);
    chi.mark_generic_unfenced(0x20, 4, ThreadId(1), pc(3));
    assert!(matches!(
        chi.read_via(S, 0x20, 4, ThreadId(0), pc(4), Proxy::Async),
        Err(MemHazard::GenericProxyUnfenced(_))
    ));
    chi.read_via(S, 0x20, 4, ThreadId(0), pc(5), Proxy::Generic).unwrap();
}

/// The outcome of accesses `(thread, address, is_write)` in the given order:
/// the position of the first one that races.
fn first_racing(accesses: &[(u32, u64, bool)]) -> Option<usize> {
    let mut chi = RaceTracker::new(4);
    for (i, &(t, addr, is_write)) in accesses.iter().enumerate() {
        let r = if is_write {
            chi.write(S, addr, 4, ThreadId(t), pc(i as u32))
        } else {
            chi.read(S, addr, 4, ThreadId(t), pc(i as u32))
        };
        if r.is_err() {
            return Some(i);
        }
    }
    None
}

#[test]
fn whether_accesses_race_does_not_depend_on_their_order() {
    let write = (0, 0x10, true);
    let read = (1, 0x12, false);
    assert_eq!(first_racing(&[write, read]), Some(1));
    assert_eq!(first_racing(&[read, write]), Some(1));

    let other = (2, 0x20, true);
    assert_eq!(first_racing(&[write, other, read]), Some(2));
    assert_eq!(first_racing(&[other, write, read]), Some(2));
    assert_eq!(first_racing(&[read, other, write]), Some(2));

    let reader = (3, 0x10, false);
    let same = (1, 0x10, false);
    assert_eq!(first_racing(&[reader, same, other]), None);
    assert_eq!(first_racing(&[other, same, reader]), None);
}

#[test]
fn synchronizations_of_other_threads_come_in_any_order() {
    // The groups before and after the write of thread 0.
    let race = |groups: [&[&[u32]]; 2]| {
        let mut chi = RaceTracker::new(4);
        for g in groups[0] {
            chi.sync_group(&group(4, g));
        }
        chi.write(S, 0x10, 4, ThreadId(0), pc(1)).unwrap();
        for g in groups[1] {
            chi.sync_group(&group(4, g));
        }
        chi.read(S, 0x10, 4, ThreadId(1), pc(2)).is_err()
    };
    let others: &[u32] = &[2, 3];
    let both: &[u32] = &[0, 1];
    // The write may move past a group without its thread.
    assert!(race([&[others], &[]]));
    assert!(race([&[], &[others]]));
    // Groups without a common thread may change places.
    assert!(!race([&[], &[both, others]]));
    assert!(!race([&[], &[others, both]]));
    // A group with the thread of the write may not.
    assert!(race([&[both], &[]]));
    assert!(!race([&[], &[both]]));
}

#[test]
fn a_race_lasts_until_the_two_threads_synchronize() {
    let mut chi = RaceTracker::new(4);
    chi.write(S, 0x10, 4, ThreadId(0), pc(1)).unwrap();
    chi.sync_group(&group(4, &[1, 2]));
    let err = expect_race(chi.read(S, 0x10, 4, ThreadId(1), pc(2)));
    assert_eq!(err.prior.thread, ThreadId(0));
    chi.sync_group(&group(4, &[0, 1]));
    chi.read(S, 0x10, 4, ThreadId(1), pc(3)).unwrap();
    expect_race(chi.read(S, 0x10, 4, ThreadId(2), pc(4)));
}

#[test]
fn a_phase_without_waiters_synchronizes_nobody() {
    let mut chi = RaceTracker::new(2);
    chi.write(S, 0, 1, ThreadId(0), pc(1)).unwrap();
    chi.sync_mbarrier_waiters(&group(2, &[0, 1]), &group(2, &[]));
    let err = expect_race(chi.read(S, 0, 1, ThreadId(1), pc(2)));
    assert_eq!(err.prior.thread, ThreadId(0));
    chi.sync_mbarrier_waiters(&group(2, &[0]), &group(2, &[1]));
    chi.read(S, 0, 1, ThreadId(1), pc(3)).unwrap();
}

#[test]
fn a_store_of_the_same_value_races_with_readers_only() {
    let mut chi = RaceTracker::new(4);
    chi.write(S, 0x10, 4, ThreadId(0), pc(1)).unwrap();
    chi.write_with(S, 0x10, 4, ThreadId(1), pc(2), true).unwrap();
    let err = expect_race(chi.write_with(S, 0x0e, 4, ThreadId(2), pc(3), false));
    assert_eq!((err.addr, err.prior, err.current), (0x10, site(1, 2, true), site(2, 3, true)));

    let mut chi = RaceTracker::new(4);
    chi.read(S, 0x11, 1, ThreadId(3), pc(4)).unwrap();
    chi.read(S, 0x11, 1, ThreadId(2), pc(5)).unwrap();
    let err = expect_race(chi.write_with(S, 0x10, 4, ThreadId(1), pc(6), true));
    assert_eq!((err.addr, err.prior), (0x11, site(2, 5, false)));
}
