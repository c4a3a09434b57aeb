//! Matrix descriptors, swizzled addresses, tensor maps and tensor memory.

use volta_analysis::eval::tcgen05_mma::{
    decode_instruction_descriptor, decode_matrix_descriptor, swizzled_element_addr,
    MatrixDescriptor, SwizzleMode, CELL_BYTES,
};
use volta_analysis::eval::tensor_map_table::{to_mma_swizzle_mode, TensorMapTable};
use volta_analysis::eval::tensor_memory::{TensorMemError, TensorMemory};
use volta_analysis::eval::wgmma::{decode_swizzle_mode, decode_wgmma_matrix_descriptor};
use volta_analysis::lowered::MemSpace;
use volta_analysis::symbolic::ExprId;
use volta_analysis::tensor_core::{group_element, Fragment};
use volta_analysis::tensor_map::{TensorSwizzleAtomicity, TensorSwizzleMode};

#[test]
fn test_decode_real_kernel_idesc() {
    let d = decode_instruction_descriptor(138477584);
    assert!(!d.sparse);
    assert!(d.dtype_f32);
    assert!(!d.atype_bf16);
    assert!(!d.btype_bf16);
    assert!(!d.negate_a);
    assert!(!d.negate_b);
    assert!(!d.transpose_a);
    assert!(d.transpose_b);
    assert_eq!(d.n, 256);
    assert_eq!(d.m, 128);
}

#[test]
fn tcgen05_mma_test_decode_real_kernel_a_desc() {
    let d = decode_matrix_descriptor(4611756662049472512).unwrap();
    assert_eq!(d.start_addr, 0);
    assert_eq!(d.leading_dim_byte_offset, 0);
    assert_eq!(d.stride_dim_byte_offset, 1024);
    assert_eq!(d.base_offset, 0);
    assert!(!d.absolute_leading_stride);
    assert_eq!(d.swizzle_mode, SwizzleMode::Swizzle128B);
}

#[test]
fn tcgen05_mma_test_decode_real_kernel_b_desc() {
    let d = decode_matrix_descriptor(4611756662083026944).unwrap();
    assert_eq!(d.start_addr, 0);
    assert_eq!(d.leading_dim_byte_offset, 8192);
    assert_eq!(d.stride_dim_byte_offset, 1024);
    assert_eq!(d.base_offset, 0);
    assert!(!d.absolute_leading_stride);
    assert_eq!(d.swizzle_mode, SwizzleMode::Swizzle128B);
}

#[test]
fn test_invalid_swizzle_mode_rejected() {
    for invalid in [3u64, 5, 7] {
        let desc = invalid << 61;
        assert_eq!(decode_matrix_descriptor(desc), Err(invalid as u8));
    }
}

#[test]
fn test_no_swizzle_mode_decodes() {
    let d = decode_matrix_descriptor(0).unwrap();
    assert_eq!(d.swizzle_mode, SwizzleMode::NoSwizzle);
}

fn desc_with_mode(mode: SwizzleMode) -> MatrixDescriptor {
    MatrixDescriptor {
        start_addr: 0,
        leading_dim_byte_offset: 0,
        stride_dim_byte_offset: 0,
        base_offset: 0,
        absolute_leading_stride: false,
        swizzle_mode: mode,
    }
}

fn atomless_desc() -> MatrixDescriptor {
    desc_with_mode(SwizzleMode::Swizzle128B)
}

#[test]
fn test_swizzle_matches_figure_228_k_major() {
    let desc = atomless_desc();
    assert_eq!(
        swizzled_element_addr(&desc, 1, 4, 4),
        1 * 128 + 0 * CELL_BYTES
    );
    assert_eq!(
        swizzled_element_addr(&desc, 3, 24, 4),
        3 * 128 + 5 * CELL_BYTES
    );
}

#[test]
fn test_swizzle_diagonal_lands_in_cell_zero() {
    let desc = atomless_desc();
    for row in 0..8u64 {
        let addr = swizzled_element_addr(&desc, row, row * 8, 2);
        assert_eq!(addr, row * 128);
    }
}

#[test]
fn tcgen05_mma_test_swizzle_crosses_a_stride_atom() {
    let desc = decode_matrix_descriptor(4611756662049472512).unwrap();
    let row0 = swizzled_element_addr(&desc, 0, 4, 2);
    let row8 = swizzled_element_addr(&desc, 8, 4, 2);
    assert_eq!(row8, row0 + desc.stride_dim_byte_offset);
}

#[test]
fn tcgen05_mma_test_swizzle_crosses_a_leading_atom() {
    let desc = decode_matrix_descriptor(4611756662083026944).unwrap();
    let n0 = swizzled_element_addr(&desc, 0, 0, 2);
    let n64 = swizzled_element_addr(&desc, 0, 64, 2);
    assert_eq!(n64, n0 + desc.leading_dim_byte_offset);
}

/// The cell that a 16-byte element at the given position lands in.
fn swizzled_cell_index(desc: &MatrixDescriptor, stride_idx: u64, leading_cell: u64) -> u64 {
    swizzled_element_addr(desc, stride_idx, leading_cell, CELL_BYTES) / CELL_BYTES
}

#[test]
fn test_no_swizzle_is_identity() {
    let mut desc = desc_with_mode(SwizzleMode::NoSwizzle);
    desc.stride_dim_byte_offset = 8 * CELL_BYTES;
    for stride_idx in 0..8 {
        for leading_cell in 0..8 {
            assert_eq!(
                swizzled_cell_index(&desc, stride_idx, leading_cell),
                stride_idx * 8 + leading_cell
            );
        }
    }
}

#[test]
fn test_swizzle_32b_matches_figure_224_mn_major() {
    let desc = desc_with_mode(SwizzleMode::Swizzle32B);
    let expected: [[u64; 8]; 2] = [[0, 2, 4, 6, 9, 11, 13, 15], [1, 3, 5, 7, 8, 10, 12, 14]];
    for (row, vals) in expected.iter().enumerate() {
        for (k, &want) in vals.iter().enumerate() {
            let got = swizzled_cell_index(&desc, k as u64, row as u64);
            assert_eq!(got, want, "row={row} k={k}");
        }
    }
}

#[test]
fn test_swizzle_32b_matches_figure_225_k_major() {
    let desc = desc_with_mode(SwizzleMode::Swizzle32B);
    let expected: [[u64; 2]; 8] = [
        [0, 1],
        [2, 3],
        [4, 5],
        [6, 7],
        [9, 8],
        [11, 10],
        [13, 12],
        [15, 14],
    ];
    for (row, vals) in expected.iter().enumerate() {
        for (k, &want) in vals.iter().enumerate() {
            let got = swizzled_cell_index(&desc, row as u64, k as u64);
            assert_eq!(got, want, "row={row} k={k}");
        }
    }
}

#[test]
fn test_swizzle_64b_matches_figure_223_k_major() {
    let desc = desc_with_mode(SwizzleMode::Swizzle64B);
    let expected: [[u64; 4]; 8] = [
        [0, 1, 2, 3],
        [4, 5, 6, 7],
        [9, 8, 11, 10],
        [13, 12, 15, 14],
        [18, 19, 16, 17],
        [22, 23, 20, 21],
        [27, 26, 25, 24],
        [31, 30, 29, 28],
    ];
    for (row, vals) in expected.iter().enumerate() {
        for (k, &want) in vals.iter().enumerate() {
            let got = swizzled_cell_index(&desc, row as u64, k as u64);
            assert_eq!(got, want, "row={row} k={k}");
        }
    }
}

#[test]
fn test_swizzle_64b_matches_figure_222_mn_major() {
    let desc = desc_with_mode(SwizzleMode::Swizzle64B);
    let expected: [[u64; 8]; 4] = [
        [0, 4, 9, 13, 18, 22, 27, 31],
        [1, 5, 8, 12, 19, 23, 26, 30],
        [2, 6, 11, 15, 16, 20, 25, 29],
        [3, 7, 10, 14, 17, 21, 24, 28],
    ];
    for (row, vals) in expected.iter().enumerate() {
        for (k, &want) in vals.iter().enumerate() {
            let got = swizzled_cell_index(&desc, k as u64, row as u64);
            assert_eq!(got, want, "row={row} k={k}");
        }
    }
}

#[test]
fn test_swizzle_128b_32b_atomicity_matches_figure_219_mn_major() {
    let desc = desc_with_mode(SwizzleMode::Swizzle128BWith32BAtomicity);
    let expected: [[u64; 4]; 8] = [
        [0, 10, 20, 30],
        [1, 11, 21, 31],
        [2, 8, 22, 28],
        [3, 9, 23, 29],
        [4, 14, 16, 26],
        [5, 15, 17, 27],
        [6, 12, 18, 24],
        [7, 13, 19, 25],
    ];
    for (row, vals) in expected.iter().enumerate() {
        for (k, &want) in vals.iter().enumerate() {
            let got = swizzled_cell_index(&desc, k as u64, row as u64);
            assert_eq!(got, want, "row={row} k={k}");
        }
    }
}

#[test]
fn test_decode_swizzle_mode_exhaustive() {
    assert_eq!(decode_swizzle_mode(0 << 62), SwizzleMode::NoSwizzle);
    assert_eq!(decode_swizzle_mode(1 << 62), SwizzleMode::Swizzle128B);
    assert_eq!(decode_swizzle_mode(2 << 62), SwizzleMode::Swizzle64B);
    assert_eq!(decode_swizzle_mode(3 << 62), SwizzleMode::Swizzle32B);
}

#[test]
fn wgmma_test_decode_real_kernel_a_desc() {
    let d = decode_wgmma_matrix_descriptor(0x4000004000010000);
    assert_eq!(d.start_addr, 0);
    assert_eq!(d.leading_dim_byte_offset, 16);
    assert_eq!(d.stride_dim_byte_offset, 1024);
    assert_eq!(d.base_offset, 0);
    assert!(!d.absolute_leading_stride);
    assert_eq!(d.swizzle_mode, SwizzleMode::Swizzle128B);
}

#[test]
fn wgmma_test_decode_real_kernel_b_desc() {
    let d = decode_wgmma_matrix_descriptor(0x4000004002000000);
    assert_eq!(d.start_addr, 0);
    assert_eq!(d.leading_dim_byte_offset, 8192);
    assert_eq!(d.stride_dim_byte_offset, 1024);
    assert_eq!(d.base_offset, 0);
    assert!(!d.absolute_leading_stride);
    assert_eq!(d.swizzle_mode, SwizzleMode::Swizzle128B);
}

#[test]
fn wgmma_test_swizzle_crosses_a_stride_atom() {
    let desc = decode_wgmma_matrix_descriptor(0x4000004000010000);
    let row0 = swizzled_element_addr(&desc, 0, 4, 2);
    let row8 = swizzled_element_addr(&desc, 8, 4, 2);
    assert_eq!(row8, row0 + desc.stride_dim_byte_offset);
}

#[test]
fn wgmma_test_swizzle_crosses_a_leading_atom() {
    let desc = decode_wgmma_matrix_descriptor(0x4000004002000000);
    let n0 = swizzled_element_addr(&desc, 0, 0, 2);
    let n64 = swizzled_element_addr(&desc, 0, 64, 2);
    assert_eq!(n64, n0 + desc.leading_dim_byte_offset);
}

// ---------------------------------------------------------------------------
// Tensor maps
// ---------------------------------------------------------------------------

#[test]
fn test_entry_mut_creates_on_first_write() {
    let mut table = TensorMapTable::new();
    assert!(table.get(MemSpace::Shared, 0x100).is_none());
    table.entry_mut(MemSpace::Shared, 0x100).rank = Some(1);
    assert_eq!(table.get(MemSpace::Shared, 0x100).unwrap().rank, Some(1));
}

#[test]
fn test_copy_entry_duplicates_fields_to_a_new_address() {
    let mut table = TensorMapTable::new();
    table.entry_mut(MemSpace::Shared, 0x100).rank = Some(1);
    table
        .entry_mut(MemSpace::Shared, 0x100)
        .box_dim
        .insert(0, 32);

    assert!(table
        .copy_entry(MemSpace::Global, 0x8000, MemSpace::Shared, 0x100)
        .is_some());
    let dst = table.get(MemSpace::Global, 0x8000).unwrap();
    assert_eq!(dst.rank, Some(1));
    assert_eq!(dst.box_dim.get(&0), Some(&32));

    // The two entries are now independent copies.
    table.entry_mut(MemSpace::Shared, 0x100).rank = Some(2);
    assert_eq!(table.get(MemSpace::Global, 0x8000).unwrap().rank, Some(1));
}

#[test]
fn test_copy_entry_without_a_source_fails() {
    let mut table = TensorMapTable::new();
    assert!(table
        .copy_entry(MemSpace::Global, 0x8000, MemSpace::Shared, 0x100)
        .is_none());
}

#[test]
fn test_swizzle_mode_translation_matches_the_corpus_combinations() {
    let atomicity = TensorSwizzleAtomicity::Atomicity16B;
    assert_eq!(
        to_mma_swizzle_mode(TensorSwizzleMode::NoSwizzle, atomicity),
        Some(SwizzleMode::NoSwizzle)
    );
    assert_eq!(
        to_mma_swizzle_mode(TensorSwizzleMode::Swizzle64B, atomicity),
        Some(SwizzleMode::Swizzle64B)
    );
    assert_eq!(
        to_mma_swizzle_mode(TensorSwizzleMode::Swizzle128B, atomicity),
        Some(SwizzleMode::Swizzle128B)
    );
    assert_eq!(
        to_mma_swizzle_mode(TensorSwizzleMode::Swizzle96B, atomicity),
        None
    );
    assert_eq!(
        to_mma_swizzle_mode(
            TensorSwizzleMode::Swizzle128B,
            TensorSwizzleAtomicity::Atomicity32B
        ),
        None
    );
}

// ---------------------------------------------------------------------------
// Tensor memory
// ---------------------------------------------------------------------------

#[test]
fn alloc_returns_increasing_bases_and_tracks_high_water() {
    let mut tm = TensorMemory::new();
    assert_eq!(tm.allocate(32), Ok(0));
    assert_eq!(tm.allocate(64), Ok(32));
    assert_eq!(tm.allocate(32), Ok(96));
}

#[test]
fn alloc_rejects_non_power_of_two_and_out_of_range() {
    let mut tm = TensorMemory::new();
    assert_eq!(
        tm.allocate(48),
        Err(TensorMemError::InvalidColumnCount { num_cols: 48 })
    );
    assert_eq!(
        tm.allocate(1024),
        Err(TensorMemError::InvalidColumnCount { num_cols: 1024 })
    );
    assert_eq!(
        tm.allocate(0),
        Err(TensorMemError::InvalidColumnCount { num_cols: 0 })
    );
}

#[test]
fn alloc_rejects_once_out_of_space() {
    let mut tm = TensorMemory::new();
    assert_eq!(tm.allocate(512), Ok(0));
    assert_eq!(
        tm.allocate(32),
        Err(TensorMemError::OutOfSpace {
            requested: 32,
            available: 0
        })
    );
}

#[test]
fn dealloc_requires_an_exact_live_match() {
    let mut tm = TensorMemory::new();
    assert_eq!(tm.allocate(32), Ok(0));
    assert_eq!(
        tm.dealloc(0, 64),
        Err(TensorMemError::DeallocMismatch {
            taddr: 0,
            num_cols: 64
        })
    );
    assert_eq!(tm.dealloc(0, 32), Ok(()));
    // Already deallocated.
    assert_eq!(
        tm.dealloc(0, 32),
        Err(TensorMemError::DeallocMismatch {
            taddr: 0,
            num_cols: 32
        })
    );
}

#[test]
fn dealloc_does_not_reclaim_the_bump_pointer() {
    let mut tm = TensorMemory::new();
    assert_eq!(tm.allocate(32), Ok(0));
    assert_eq!(tm.dealloc(0, 32), Ok(()));
    assert_eq!(tm.allocate(32), Ok(32));
}

#[test]
fn alloc_after_relinquish_is_rejected() {
    let mut tm = TensorMemory::new();
    tm.relinquish_alloc_permit();
    assert_eq!(tm.allocate(32), Err(TensorMemError::AllocAfterRelinquish));
}

#[test]
fn read_write_roundtrip_within_an_allocation() {
    let mut tm = TensorMemory::new();
    assert_eq!(tm.allocate(32), Ok(0));
    let e = ExprId(7);
    assert_eq!(tm.write(5, 3, e), Ok(()));
    assert_eq!(tm.read(5, 3), Ok(Some(e)));
    // A different lane or column of the same allocation is untouched.
    assert_eq!(tm.read(5, 4), Ok(None));
    assert_eq!(tm.read(6, 3), Ok(None));
}

#[test]
fn read_write_outside_any_allocation_is_rejected() {
    let mut tm = TensorMemory::new();
    assert_eq!(tm.allocate(32), Ok(0));
    assert_eq!(
        tm.read(0, 32),
        Err(TensorMemError::NotAllocated { lane: 0, col: 32 })
    );
    assert_eq!(
        tm.write(0, 32, ExprId(1)),
        Err(TensorMemError::NotAllocated { lane: 0, col: 32 })
    );
}

#[test]
fn dealloc_makes_reads_and_writes_fail_again() {
    let mut tm = TensorMemory::new();
    assert_eq!(tm.allocate(32), Ok(0));
    assert_eq!(tm.write(0, 0, ExprId(1)), Ok(()));
    assert_eq!(tm.dealloc(0, 32), Ok(()));
    assert_eq!(
        tm.read(0, 0),
        Err(TensorMemError::NotAllocated { lane: 0, col: 0 })
    );
}

// ---------------------------------------------------------------------------
// Fragments
// ---------------------------------------------------------------------------

#[test]
fn the_lanes_of_a_warp_hold_each_element() {
    let cases = [
        (Fragment::NarrowA, 16 * 16, 1),
        (Fragment::NarrowB, 16 * 8, 1),
        (Fragment::NarrowC, 16 * 8, 1),
        (Fragment::SquareHalves, 16 * 16, 2),
        (Fragment::SquareC, 16 * 16, 1),
    ];
    for (fragment, size, copies) in cases {
        let mut held = vec![0; size];
        for lane in 0..32 {
            for i in 0..fragment.count() {
                let e = fragment.element(lane, i);
                held[(e.row * fragment.cols() + e.col) as usize] += 1;
            }
        }
        assert!(held.iter().all(|&n| n == copies), "{fragment:?}");
    }
}

#[test]
fn the_lanes_of_a_warpgroup_hold_each_element() {
    let n = 24;
    let mut held = vec![0; 64 * n];
    for lane in 0..128 {
        for i in 0..(n as u32) / 2 {
            let e = group_element(lane, i);
            held[e.row as usize * n + e.col as usize] += 1;
        }
    }
    assert!(held.iter().all(|&c| c == 1));
}

#[test]
fn fresh_columns_are_unwritten_and_start_after_all_earlier_ones() {
    let mut tm = TensorMemory::new();
    assert_eq!(tm.allocate(64), Ok(0));
    assert_eq!(tm.write(3, 63, ExprId(1)), Ok(()));
    assert_eq!(tm.dealloc(0, 64), Ok(()));
    assert_eq!(tm.allocate(32), Ok(64));
    assert_eq!(tm.write(127, 95, ExprId(2)), Ok(()));
    assert_eq!(tm.allocate(128), Ok(96));
    for col in 96..224 {
        assert_eq!(tm.read(3, col), Ok(None));
        assert_eq!(tm.read(127, col), Ok(None));
    }
    assert_eq!(tm.read(127, 95), Ok(Some(ExprId(2))));
}
