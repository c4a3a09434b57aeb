//! Barriers in memory and the register state of warpgroup products.

use volta_analysis::eval::mbarrier::MbarrierTable;
use volta_analysis::eval::value::MbarrierId;
use volta_analysis::eval::wgmma_regs::WgmmaRegState;
use volta_analysis::eval::ThreadId;
use volta_analysis::lowered::InstrId;
use volta_analysis::symbols::RegId;
use volta_analysis::tensor_core::MmaShape;
use volta_analysis::types::RegClass;

const N: usize = 8;

#[test]
fn test_init_starts_incomplete() {
    let mut table = MbarrierTable::new(N);
    let mid = table.init(2);
    assert_eq!(mid, MbarrierId(0));
    assert!(!table.parity_complete(mid, false));
}

#[test]
fn test_arrive_completes_phase_and_flips_parity() {
    let mut table = MbarrierTable::new(N);
    let mid = table.init(2);
    table.arrive(mid, ThreadId(0), 1, None);
    assert!(!table.parity_complete(mid, false));
    table.arrive(mid, ThreadId(1), 1, None);
    // The phase that just completed is the one of parity false.
    assert!(table.parity_complete(mid, false));
    assert!(!table.parity_complete(mid, true));
}

#[test]
fn test_arrive_alone_does_not_complete_a_pending_expect_tx() {
    let mut table = MbarrierTable::new(N);
    let mid = table.init(1);
    table.arrive(mid, ThreadId(0), 1, Some(16));
    // The arrival count is satisfied, but 16 bytes are still pending.
    assert!(!table.parity_complete(mid, false));
}

#[test]
fn test_complete_tx_finishes_the_phase() {
    let mut table = MbarrierTable::new(N);
    let mid = table.init(1);
    table.arrive(mid, ThreadId(0), 1, Some(16));
    table.complete_tx(mid, 16);
    assert!(table.parity_complete(mid, false));
}

#[test]
fn test_second_phase_uses_the_same_expected_arrivals() {
    let mut table = MbarrierTable::new(N);
    let mid = table.init(1);
    table.arrive(mid, ThreadId(0), 1, None);
    assert!(table.parity_complete(mid, false));
    // One more arrival completes the second phase too.
    table.arrive(mid, ThreadId(1), 1, None);
    assert!(table.parity_complete(mid, true));
}

#[test]
fn test_two_objects_are_independent() {
    let mut table = MbarrierTable::new(N);
    let a = table.init(1);
    let b = table.init(1);
    table.arrive(a, ThreadId(0), 1, None);
    assert!(table.parity_complete(a, false));
    assert!(!table.parity_complete(b, false));
}

#[test]
fn test_prior_participants_tracks_the_arriving_threads() {
    let mut table = MbarrierTable::new(N);
    let mid = table.init(2);
    table.arrive(mid, ThreadId(3), 1, None);
    table.arrive(mid, ThreadId(5), 1, None);
    assert!(table.parity_complete(mid, false));
    let participants = table.prior_participants(mid);
    assert!(participants.contains(3));
    assert!(participants.contains(5));
    assert!(!participants.contains(0));
}

#[test]
fn test_complete_tx_caller_is_not_a_participant() {
    // Only arrivals contribute to the happens-before set.
    let mut table = MbarrierTable::new(N);
    let mid = table.init(1);
    table.arrive(mid, ThreadId(1), 1, Some(16));
    table.complete_tx(mid, 16);
    assert!(table.parity_complete(mid, false));
    let participants = table.prior_participants(mid);
    assert!(participants.contains(1));
    assert!(!participants.contains(2));
}

#[test]
fn test_participants_reset_for_the_next_phase() {
    let mut table = MbarrierTable::new(N);
    let mid = table.init(1);
    table.arrive(mid, ThreadId(0), 1, None);
    assert_eq!(table.prior_participants(mid).count_ones(..), 1);
    assert!(table.prior_participants(mid).contains(0));
    // The second phase completes through another thread alone.
    table.arrive(mid, ThreadId(1), 1, None);
    let participants = table.prior_participants(mid);
    assert!(participants.contains(1));
    assert!(!participants.contains(0));
}

#[test]
fn a_phase_counts_the_arrivals_and_all_bytes_so_far() {
    let mut table = MbarrierTable::new(N);
    let other = table.init(1);
    let mid = table.init(3);
    let threads = |table: &MbarrierTable| -> Vec<usize> {
        table.prior_participants(mid).ones().collect()
    };

    // Three arrivals are there, but 16 of 48 bytes are missing.
    table.arrive(mid, ThreadId(4), 2, Some(32));
    table.complete_tx(mid, 32);
    table.arrive(mid, ThreadId(2), 1, Some(16));
    assert!(!table.parity_complete(mid, false));
    assert!(threads(&table).is_empty());
    // An arrival on another object changes nothing here.
    table.arrive(other, ThreadId(7), 1, None);
    assert!(!table.parity_complete(mid, false));
    table.complete_tx(mid, 16);
    assert!(table.parity_complete(mid, false));
    assert_eq!(threads(&table), [2, 4]);

    // Arrivals count anew, and bytes completed early are kept.
    table.complete_tx(mid, 8);
    assert!(table.parity_complete(mid, false));
    table.arrive(mid, ThreadId(5), 1, Some(8));
    table.arrive(mid, ThreadId(5), 1, None);
    assert!(table.parity_complete(mid, false));
    assert_eq!(threads(&table), [2, 4]);
    table.arrive(mid, ThreadId(6), 4, None);
    assert!(table.parity_complete(mid, true));
    assert_eq!(threads(&table), [5, 6]);
}

// ---------------------------------------------------------------------------
// Warpgroup registers
// ---------------------------------------------------------------------------

fn pc(n: u32) -> InstrId {
    InstrId(n)
}

fn reg(n: u32) -> RegId {
    RegId::new(RegClass::Bits32, n)
}

const S: MmaShape = MmaShape { m: 64, n: 8, k: 16 };
const S2: MmaShape = MmaShape { m: 64, n: 16, k: 16 };

#[test]
fn test_fence_hazard_before_first_wgmma_with_no_fence_ever() {
    let w = WgmmaRegState::new();
    assert!(!w.is_fenced_for(reg(0), S));
    assert_eq!(w.last_write_pc(reg(0)), None);
}

#[test]
fn test_fence_clears_hazard_for_never_written_register() {
    let mut w = WgmmaRegState::new();
    w.fence();
    assert!(w.is_fenced_for(reg(0), S));
}

#[test]
fn test_fence_hazard_ordinary_write_then_wgmma_without_fence() {
    let mut w = WgmmaRegState::new();
    w.record_write(reg(0), pc(1));
    assert!(!w.is_fenced_for(reg(0), S));
    assert_eq!(w.last_write_pc(reg(0)), Some(pc(1)));
}

#[test]
fn test_fence_exempt_same_shape_chain_needs_no_fence() {
    let mut w = WgmmaRegState::new();
    w.record_wgmma_write(reg(0), S, pc(1));
    assert!(w.is_fenced_for(reg(0), S));
}

#[test]
fn test_fence_hazard_different_shape_chain_needs_fence() {
    let mut w = WgmmaRegState::new();
    w.record_wgmma_write(reg(0), S, pc(1));
    assert!(!w.is_fenced_for(reg(0), S2));
}

#[test]
fn test_fence_hazard_ordinary_write_breaks_same_shape_chain() {
    let mut w = WgmmaRegState::new();
    w.record_wgmma_write(reg(0), S, pc(1));
    w.record_write(reg(0), pc(2));
    assert!(!w.is_fenced_for(reg(0), S));
}

#[test]
fn test_fence_hazard_write_after_fence_needs_its_own_fence() {
    let mut w = WgmmaRegState::new();
    w.fence();
    w.record_write(reg(0), pc(1));
    assert!(!w.is_fenced_for(reg(0), S));
    w.fence();
    assert!(w.is_fenced_for(reg(0), S));
}

#[test]
fn test_wait_group_pending_until_released() {
    let mut w = WgmmaRegState::new();
    w.record_wgmma_write(reg(0), S, pc(1));
    assert_eq!(w.pending_since(reg(0)), Some(pc(1)));
    w.commit_group();
    w.wait_group(0);
    assert_eq!(w.pending_since(reg(0)), None);
}

#[test]
fn test_wait_group_pending_survives_partial_release() {
    let mut w = WgmmaRegState::new();
    w.record_wgmma_write(reg(0), S, pc(1));
    w.commit_group();
    w.record_wgmma_write(reg(0), S, pc(2));
    w.commit_group();
    // Only the older of the two groups is released.
    w.wait_group(1);
    assert!(w.pending_since(reg(0)).is_some(), "still pending in the second group");
    w.wait_group(0);
    assert_eq!(w.pending_since(reg(0)), None);
}

#[test]
fn a_fence_counts_only_after_the_last_write() {
    let mut w = WgmmaRegState::new();
    w.fence();
    w.record_write(reg(0), pc(1));
    w.fence();
    w.commit_group();
    w.wait_group(0);
    assert!(w.is_fenced_for(reg(0), S));
    w.record_wgmma_write(reg(0), S2, pc(2));
    assert!(!w.is_fenced_for(reg(0), S));
    assert!(w.is_fenced_for(reg(0), S2));
    assert_eq!(w.last_write_pc(reg(0)), Some(pc(2)));
}

#[test]
fn a_wait_leaves_the_newest_groups_open() {
    let mut w = WgmmaRegState::new();
    for i in 0..4 {
        w.record_wgmma_write(reg(i), S, pc(i));
        w.commit_group();
    }
    w.record_wgmma_write(reg(9), S, pc(9));
    w.wait_group(2);
    let pending = |w: &WgmmaRegState, n| w.pending_since(reg(n)).is_some();
    assert!(!pending(&w, 0) && !pending(&w, 1));
    assert!(pending(&w, 2) && pending(&w, 3) && pending(&w, 9));
    w.wait_group(0);
    assert!(!pending(&w, 2) && !pending(&w, 3));
    // What is not committed is never released.
    assert_eq!(w.pending_since(reg(9)), Some(pc(9)));
}
