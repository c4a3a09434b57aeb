//! `wgmma.mma_async` decoding: its shared-memory matrix descriptor, whose bit
//! layout differs from that of `tcgen05.mma`. The swizzle permutation is the
//! same, so a decoded descriptor goes through
//! [`swizzled_element_addr`](crate::eval::tcgen05_mma::swizzled_element_addr).

use vstd::arithmetic::power2::*;
use vstd::prelude::*;

use crate::bit_field::{field, field_of};
use crate::eval::tcgen05_mma::{MatrixDescriptor, SwizzleMode, decode_encoded_offset};

verus! {

pub open spec fn spec_wgmma_swizzle_mode(desc: u64) -> SwizzleMode {
    let code = field_of(desc as nat, 62, 2);
    if code == 0 {
        SwizzleMode::NoSwizzle
    } else if code == 1 {
        SwizzleMode::Swizzle128B
    } else if code == 2 {
        SwizzleMode::Swizzle64B
    } else {
        SwizzleMode::Swizzle32B
    }
}

/// Decode the two-bit swizzle-mode field. All four encodings are valid.
pub fn decode_swizzle_mode(desc: u64) -> (r: SwizzleMode)
    ensures
        r == spec_wgmma_swizzle_mode(desc),
{
    let code: u64 = field(desc, 62, 2);
    if code == 0 {
        SwizzleMode::NoSwizzle
    } else if code == 1 {
        SwizzleMode::Swizzle128B
    } else if code == 2 {
        SwizzleMode::Swizzle64B
    } else {
        SwizzleMode::Swizzle32B
    }
}

pub open spec fn spec_wgmma_matrix_descriptor(desc: u64) -> MatrixDescriptor {
    let x = desc as nat;
    MatrixDescriptor {
        start_addr: (field_of(x, 0, 14) * 16) as u64,
        leading_dim_byte_offset: (field_of(x, 16, 14) * 16) as u64,
        stride_dim_byte_offset: (field_of(x, 32, 14) * 16) as u64,
        base_offset: field_of(x, 49, 3) as u8,
        absolute_leading_stride: false,
        swizzle_mode: spec_wgmma_swizzle_mode(desc),
    }
}

/// Decode a 64-bit `wgmma.mma_async` shared-memory matrix descriptor. It has
/// no leading-dimension-stride-mode bit: the offset is always relative.
pub fn decode_wgmma_matrix_descriptor(desc: u64) -> (r: MatrixDescriptor)
    ensures
        r == spec_wgmma_matrix_descriptor(desc),
{
    proof {
        lemma2_to64();
    }
    MatrixDescriptor {
        start_addr: decode_encoded_offset(field(desc, 0, 14)),
        leading_dim_byte_offset: decode_encoded_offset(field(desc, 16, 14)),
        stride_dim_byte_offset: decode_encoded_offset(field(desc, 32, 14)),
        base_offset: field(desc, 49, 3) as u8,
        absolute_leading_stride: false,
        swizzle_mode: decode_swizzle_mode(desc),
    }
}

} // verus!
