//! Tensor-core shapes, layouts and fragment maps.

use vstd::prelude::*;

verus! {

/// Shape of a matrix multiply-accumulate.
#[derive(Debug, Clone, Copy, PartialEq, Eq, Structural)]
pub struct MmaShape {
    pub m: u32,
    pub n: u32,
    pub k: u32,
}

impl MmaShape {
    pub fn new(m: u32, n: u32, k: u32) -> (r: Self)
        ensures
            r == (MmaShape { m, n, k }),
    {
        MmaShape { m, n, k }
    }
}

/// Storage order of a matrix operand.
#[derive(Debug, Clone, Copy, PartialEq, Eq, Structural)]
pub enum MmaLayout {
    Row,
    Col,
}

/// Which operand of `D = A * B + C` a fragment belongs to.
#[derive(Debug, Clone, Copy, PartialEq, Eq, Structural)]
pub enum MmaOperand {
    A,
    B,
    C,
    D,
}

/// Where one element of a lane's fragment lies in its matrix and in the
/// lane's registers.
#[derive(Debug, Clone, Copy, PartialEq, Eq, Structural)]
pub struct FragmentElement {
    pub row: u32,
    pub col: u32,
    pub reg_idx: u32,
    /// Whether the element is the high half of its register.
    pub high_half: bool,
}

/// How a warp holds a matrix: each lane has `count` elements of it.
#[derive(Debug, Clone, Copy, PartialEq, Eq, Structural)]
pub enum Fragment {
    /// The 16x16 `A` of `m16n8k16`, two halves to a register.
    NarrowA,
    /// The 16x8 `B` of `m16n8k16`, two halves to a register.
    NarrowB,
    /// The 16x8 accumulator of `m16n8k16`, one float to a register.
    NarrowC,
    /// The 16x16 `A` or `B` of `m16n16k16`, two halves to a register.
    SquareHalves,
    /// The 16x16 accumulator of `m16n16k16`, one float to a register.
    SquareC,
}

impl Fragment {
    pub open spec fn spec_count(self) -> u32 {
        match self {
            Fragment::NarrowA => 8,
            Fragment::NarrowB => 4,
            Fragment::NarrowC => 4,
            Fragment::SquareHalves => 16,
            Fragment::SquareC => 8,
        }
    }

    /// Elements each lane holds.
    #[verifier::when_used_as_spec(spec_count)]
    pub fn count(self) -> (r: u32)
        ensures
            r == self.spec_count(),
            r <= 16,
    {
        match self {
            Fragment::NarrowA => 8,
            Fragment::NarrowB => 4,
            Fragment::NarrowC => 4,
            Fragment::SquareHalves => 16,
            Fragment::SquareC => 8,
        }
    }

    pub open spec fn spec_cols(self) -> u32 {
        match self {
            Fragment::NarrowB | Fragment::NarrowC => 8,
            _ => 16,
        }
    }

    /// Columns of the matrix; it has 16 rows.
    #[verifier::when_used_as_spec(spec_cols)]
    pub fn cols(self) -> (r: u32)
        ensures
            r == self.spec_cols(),
            r == 8 || r == 16,
    {
        match self {
            Fragment::NarrowB | Fragment::NarrowC => 8,
            _ => 16,
        }
    }

    /// Element `i` of a lane's fragment.
    pub open spec fn spec_element(self, lane: u32, i: u32) -> FragmentElement {
        let (l, k) = (lane as int, i as int);
        match self {
            Fragment::NarrowA => FragmentElement {
                row: (l / 4 + 8 * (k / 2 % 2)) as u32,
                col: (l % 4 * 2 + k % 2 + 8 * (k / 4)) as u32,
                reg_idx: (k / 2) as u32,
                high_half: k % 2 == 1,
            },
            Fragment::NarrowB => FragmentElement {
                row: (l % 4 * 2 + k % 2 + 8 * (k / 2)) as u32,
                col: (l / 4) as u32,
                reg_idx: (k / 2) as u32,
                high_half: k % 2 == 1,
            },
            Fragment::NarrowC => FragmentElement {
                row: (l / 4 + 8 * (k / 2)) as u32,
                col: (l % 4 * 2 + k % 2) as u32,
                reg_idx: i,
                high_half: false,
            },
            Fragment::SquareHalves => FragmentElement {
                row: (l % 16) as u32,
                col: i,
                reg_idx: (k / 2) as u32,
                high_half: k % 2 == 1,
            },
            Fragment::SquareC => FragmentElement {
                row: (l / 2) as u32,
                col: (l % 2 * 8 + k) as u32,
                reg_idx: i,
                high_half: false,
            },
        }
    }

    /// Element `i` of a lane's fragment.
    #[verifier::when_used_as_spec(spec_element)]
    pub fn element(self, lane: u32, i: u32) -> (r: FragmentElement)
        requires
            lane < 32,
            i < self.spec_count(),
        ensures
            r == self.spec_element(lane, i),
            r.row < 16,
            r.col < self.spec_cols(),
    {
        match self {
            Fragment::NarrowA => FragmentElement {
                row: lane / 4 + 8 * (i / 2 % 2),
                col: lane % 4 * 2 + i % 2 + 8 * (i / 4),
                reg_idx: i / 2,
                high_half: i % 2 == 1,
            },
            Fragment::NarrowB => FragmentElement {
                row: lane % 4 * 2 + i % 2 + 8 * (i / 2),
                col: lane / 4,
                reg_idx: i / 2,
                high_half: i % 2 == 1,
            },
            Fragment::NarrowC => FragmentElement {
                row: lane / 4 + 8 * (i / 2),
                col: lane % 4 * 2 + i % 2,
                reg_idx: i,
                high_half: false,
            },
            Fragment::SquareHalves => FragmentElement {
                row: lane % 16,
                col: i,
                reg_idx: i / 2,
                high_half: i % 2 == 1,
            },
            Fragment::SquareC => FragmentElement {
                row: lane / 2,
                col: lane % 2 * 8 + i,
                reg_idx: i,
                high_half: false,
            },
        }
    }
}

/// Element `i` of a warpgroup lane's share of an `m64nNk` result; the lane
/// holds `n / 2` of them, one to a register.
pub open spec fn spec_group_element(lane: u32, i: u32) -> FragmentElement {
    let (l, k) = (lane as int, i as int);
    FragmentElement {
        row: (16 * (l / 32) + l % 32 / 4 + 8 * (k / 2 % 2)) as u32,
        col: (8 * (k / 4) + l % 4 * 2 + k % 2) as u32,
        reg_idx: i,
        high_half: false,
    }
}

/// Element `i` of a warpgroup lane's share of an `m64nNk` result.
#[verifier::when_used_as_spec(spec_group_element)]
pub fn group_element(lane: u32, i: u32) -> (r: FragmentElement)
    requires
        lane < 128,
        i <= 0x7FFF_FFFF,
    ensures
        r == spec_group_element(lane, i),
        r.row < 64,
{
    FragmentElement {
        row: 16 * (lane / 32) + lane % 32 / 4 + 8 * (i / 2 % 2),
        col: 8 * (i / 4) + lane % 4 * 2 + i % 2,
        reg_idx: i,
        high_half: false,
    }
}

// ---------------------------------------------------------------------------
// Laws
// ---------------------------------------------------------------------------

/// The lane and element that hold a matrix position.
pub open spec fn holder(fragment: Fragment, row: u32, col: u32) -> (u32, u32) {
    let (r, c) = (row as int, col as int);
    match fragment {
        Fragment::NarrowA => (
            (r % 8 * 4 + c % 8 / 2) as u32,
            (c % 2 + 2 * (r / 8) + 4 * (c / 8)) as u32,
        ),
        Fragment::NarrowB => ((c * 4 + r % 8 / 2) as u32, (r % 2 + 2 * (r / 8)) as u32),
        Fragment::NarrowC => ((r % 8 * 4 + c / 2) as u32, (c % 2 + 2 * (r / 8)) as u32),
        Fragment::SquareHalves => (row, col),
        Fragment::SquareC => ((2 * r + c / 8) as u32, (c % 8) as u32),
    }
}

/// Every position of a matrix is held by some lane.
pub proof fn fragments_cover_their_matrix(fragment: Fragment, row: u32, col: u32)
    requires
        row < 16,
        col < fragment.spec_cols(),
    ensures
        ({
            let (lane, i) = holder(fragment, row, col);
            &&& lane < 32
            &&& i < fragment.spec_count()
            &&& fragment.spec_element(lane, i).row == row
            &&& fragment.spec_element(lane, i).col == col
        }),
{
    let (r, c) = (row as int, col as int);
    let (h, s, a) = (r / 8, r % 8, r % 2);
    let (p, u, b) = (c / 8, c % 8, c % 2);
    lemma_eight(r);
    lemma_eight(c);
    match fragment {
        Fragment::NarrowA => {
            lemma_lane(s, u / 2);
            lemma_group_index(p, h, b);
        },
        Fragment::NarrowB => {
            lemma_lane(c, s / 2);
            lemma_group_index(0, h, a);
        },
        Fragment::NarrowC => {
            lemma_lane(s, c / 2);
            lemma_group_index(0, h, b);
        },
        Fragment::SquareHalves => {},
        Fragment::SquareC => {},
    }
}

/// A number below 16 as its blocks of eight and of two.
proof fn lemma_eight(x: int)
    requires
        0 <= x < 16,
    ensures
        0 <= x / 8 < 2,
        0 <= x % 8 < 8,
        x == 8 * (x / 8) + x % 8,
        x % 8 == 2 * (x % 8 / 2) + x % 2,
        0 <= x % 8 / 2 < 4,
{
}

proof fn lemma_lane(s: int, q: int)
    requires
        0 <= s < 8,
        0 <= q < 4,
    ensures
        (s * 4 + q) / 4 == s,
        (s * 4 + q) % 4 == q,
        0 <= s * 4 + q < 32,
{
}

/// No two elements of a lane share a register half.
pub proof fn fragment_registers_are_disjoint(fragment: Fragment, lane: u32, i: u32, j: u32)
    requires
        lane < 32,
        i < fragment.spec_count(),
        j < fragment.spec_count(),
        i != j,
    ensures
        fragment.spec_element(lane, i).reg_idx != fragment.spec_element(lane, j).reg_idx
            || fragment.spec_element(lane, i).high_half != fragment.spec_element(
            lane,
            j,
        ).high_half,
{
}

proof fn lemma_group_lane(g: int, s: int, q: int)
    requires
        0 <= g,
        0 <= s < 8,
        0 <= q < 4,
    ensures
        (g * 32 + s * 4 + q) / 32 == g,
        (g * 32 + s * 4 + q) % 32 / 4 == s,
        (g * 32 + s * 4 + q) % 4 == q,
{
}

proof fn lemma_group_index(p: int, h: int, b: int)
    requires
        0 <= p,
        0 <= h < 2,
        0 <= b < 2,
    ensures
        (4 * p + 2 * h + b) / 4 == p,
        (4 * p + 2 * h + b) / 2 % 2 == h,
        (4 * p + 2 * h + b) % 2 == b,
{
}

proof fn lemma_group_position(g: int, h: int, s: int, p: int, q: int, b: int)
    requires
        0 <= g < 4,
        0 <= h < 2,
        0 <= s < 8,
        0 <= p,
        0 <= q < 4,
        0 <= b < 2,
    ensures
        ({
            let (l, k) = (g * 32 + s * 4 + q, 4 * p + 2 * h + b);
            &&& 0 <= l < 128
            &&& 16 * (l / 32) + l % 32 / 4 + 8 * (k / 2 % 2) == 16 * g + 8 * h + s
            &&& 8 * (k / 4) + l % 4 * 2 + k % 2 == 8 * p + 2 * q + b
        }),
{
    lemma_group_lane(g, s, q);
    lemma_group_index(p, h, b);
}

proof fn lemma_element_bound(n: int, p: int, h: int, b: int)
    requires
        n % 8 == 0,
        8 * p < n,
        0 <= h < 2,
        0 <= b < 2,
    ensures
        4 * p + 2 * h + b < n / 2,
{
}

proof fn lemma_row_parts(r: int)
    requires
        0 <= r < 64,
    ensures
        0 <= r / 16 < 4,
        0 <= r / 8 % 2 < 2,
        0 <= r % 8 < 8,
        16 * (r / 16) + 8 * (r / 8 % 2) + r % 8 == r,
{
}

proof fn lemma_col_parts(c: int)
    requires
        0 <= c,
    ensures
        0 <= c / 8,
        0 <= c % 8 / 2 < 4,
        0 <= c % 2 < 2,
        8 * (c / 8) + 2 * (c % 8 / 2) + c % 2 == c,
{
}

/// The lane and element that hold a position of a warpgroup's result.
pub open spec fn group_holder(row: int, col: int) -> (int, int) {
    (row / 16 * 32 + row % 8 * 4 + col % 8 / 2, 4 * (col / 8) + 2 * (row / 8 % 2) + col % 2)
}

/// Every position of a warpgroup's result is held by one of its lanes.
pub proof fn groups_cover_their_matrix(n: u32, row: u32, col: u32)
    requires
        n % 8 == 0,
        row < 64,
        col < n,
    ensures
        ({
            let (lane, i) = group_holder(row as int, col as int);
            &&& 0 <= lane < 128
            &&& 0 <= i < n / 2
            &&& spec_group_element(lane as u32, i as u32).row == row
            &&& spec_group_element(lane as u32, i as u32).col == col
        }),
{
    let (r, c) = (row as int, col as int);
    lemma_row_parts(r);
    lemma_col_parts(c);
    lemma_element_bound(n as int, c / 8, r / 8 % 2, c % 2);
    lemma_group_position(r / 16, r / 8 % 2, r % 8, c / 8, c % 8 / 2, c % 2);
}

} // verus!
