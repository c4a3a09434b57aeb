//! Register hazards of `wgmma.mma_async`, stated over what a thread did: when
//! an accumulator access is fenced, and which writebacks are still pending.

use vstd::prelude::*;

use crate::eval::wgmma_regs::{
    WgmmaModel, commits_are_counted, fresh_state_is_counted, group_occurrences, occurrences,
    pending_while_outstanding, release_group, waits_are_counted, writebacks_are_counted,
};
use crate::lowered::InstrId;
use crate::symbols::RegId;
use crate::tensor_core::MmaShape;

verus! {

/// One thing that a thread did.
pub enum Act {
    Write { reg: RegId, pc: InstrId },
    /// An accumulator writeback.
    Writeback { reg: RegId, shape: MmaShape, pc: InstrId },
    Fence,
    Commit,
    Wait { n: u32 },
}

impl Act {
    pub open spec fn writes(self, r: RegId) -> bool {
        match self {
            Act::Write { reg, .. } => reg == r,
            Act::Writeback { reg, .. } => reg == r,
            _ => false,
        }
    }

    pub open spec fn writes_back(self, r: RegId) -> bool {
        self matches Act::Writeback { reg, .. } && reg == r
    }

    /// The instruction of a write.
    pub open spec fn site(self) -> InstrId {
        match self {
            Act::Write { pc, .. } => pc,
            Act::Writeback { pc, .. } => pc,
            _ => InstrId(0),
        }
    }
}

/// The state after one more act.
pub open spec fn after(m: WgmmaModel, a: Act) -> WgmmaModel {
    match a {
        Act::Write { reg, pc } => m.after_write(reg, pc),
        Act::Writeback { reg, shape, pc } => m.after_wgmma_write(reg, shape, pc),
        Act::Fence => m.fenced(),
        Act::Commit => m.committed(),
        Act::Wait { n } => m.waited(n),
    }
}

/// The state after a history.
pub open spec fn replayed(h: Seq<Act>) -> WgmmaModel
    decreases h.len(),
{
    if h.len() == 0 {
        WgmmaModel::initial()
    } else {
        after(replayed(h.drop_last()), h.last())
    }
}

/// The last write of a register.
pub open spec fn last_write(h: Seq<Act>, reg: RegId) -> Option<int>
    decreases h.len(),
{
    if h.len() == 0 {
        None
    } else if h.last().writes(reg) {
        Some(h.len() - 1)
    } else {
        last_write(h.drop_last(), reg)
    }
}

/// Whether a fence came at or after position `i`.
pub open spec fn fence_from(h: Seq<Act>, i: int) -> bool {
    exists|j: int| i <= j < h.len() && #[trigger] h[j] is Fence
}

// ---------------------------------------------------------------------------
// Fences
// ---------------------------------------------------------------------------

/// The fences among the first `n` acts.
spec fn fences(h: Seq<Act>, n: int) -> nat
    decreases n,
{
    if n <= 0 {
        0
    } else {
        fences(h, n - 1) + (if h[n - 1] is Fence {
            1nat
        } else {
            0nat
        })
    }
}

proof fn lemma_fences_prefix(h: Seq<Act>, n: int)
    requires
        0 <= n < h.len(),
    ensures
        fences(h.drop_last(), n) == fences(h, n),
    decreases n,
{
    if n > 0 {
        lemma_fences_prefix(h, n - 1);
    }
}

proof fn lemma_fences_bound(h: Seq<Act>, n: int)
    requires
        0 <= n <= h.len(),
    ensures
        fences(h, n) <= n,
    decreases n,
{
    if n > 0 {
        lemma_fences_bound(h, n - 1);
    }
}

proof fn lemma_fences_between(h: Seq<Act>, i: int, n: int)
    requires
        0 <= i <= n <= h.len(),
    ensures
        fences(h, i) <= fences(h, n),
        fences(h, i) < fences(h, n) <==> exists|j: int| i <= j < n && #[trigger] h[j] is Fence,
    decreases n - i,
{
    if i < n {
        lemma_fences_between(h, i, n - 1);
        if h[n - 1] is Fence {
        } else if exists|j: int| i <= j < n && #[trigger] h[j] is Fence {
            let j = choose|j: int| i <= j < n && #[trigger] h[j] is Fence;
            assert(j < n - 1 && h[j] is Fence);
        }
    }
}

/// Waiting touches neither fences nor the record of writes.
proof fn lemma_wait_keeps_writes(m: WgmmaModel, n: u32)
    ensures
        m.waited(n).fence_epoch == m.fence_epoch,
        m.waited(n).reg_epoch == m.reg_epoch,
        m.waited(n).reg_shape == m.reg_shape,
        m.waited(n).uncommitted == m.uncommitted,
    decreases m.groups.len(),
{
    if m.groups.len() > n {
        let g = m.groups[0];
        lemma_wait_keeps_writes(
            WgmmaModel {
                groups: m.groups.drop_first(),
                pending: release_group(m.pending, g, g.len() as int),
                ..m
            },
            n,
        );
    }
}

proof fn lemma_writes_known(h: Seq<Act>, reg: RegId)
    requires
        h.len() < u64::MAX,
    ensures
        replayed(h).fence_epoch == fences(h, h.len() as int),
        match last_write(h, reg) {
            None => !replayed(h).reg_epoch.contains_key(reg) && !replayed(
                h,
            ).reg_shape.contains_key(reg),
            Some(i) => {
                &&& 0 <= i < h.len()
                &&& h[i].writes(reg)
                &&& replayed(h).reg_epoch.contains_key(reg)
                &&& replayed(h).reg_epoch[reg].0 == fences(h, i)
                &&& replayed(h).reg_epoch[reg].1 == h[i].site()
                &&& replayed(h).reg_shape.contains_key(reg) <==> h[i] is Writeback
                &&& h[i] matches Act::Writeback { shape, .. } ==> replayed(h).reg_shape[reg]
                    == shape
            },
        },
    decreases h.len(),
{
    if h.len() > 0 {
        let g = h.drop_last();
        lemma_writes_known(g, reg);
        lemma_fences_prefix(h, h.len() - 1);
        lemma_fences_bound(g, g.len() as int);
        match last_write(g, reg) {
            Some(i) => {
                lemma_fences_prefix(h, i);
                assert(g[i] == h[i]);
            },
            None => {},
        }
        if let Act::Wait { n } = h.last() {
            lemma_wait_keeps_writes(replayed(g), n);
        }
    }
}

/// An accumulator access of a shape is fenced exactly when the register was
/// last written back by the same shape, or a fence came after its last write,
/// or it was never written and some fence came at all.
pub proof fn fenced_exactly_after_the_last_write(h: Seq<Act>, reg: RegId, shape: MmaShape)
    requires
        h.len() < u64::MAX,
    ensures
        replayed(h).is_fenced_for(reg, shape) <==> (match last_write(h, reg) {
            None => fence_from(h, 0),
            Some(i) => (h[i] matches Act::Writeback { shape: s, .. } && s == shape) || fence_from(
                h,
                i + 1,
            ),
        }),
{
    lemma_writes_known(h, reg);
    match last_write(h, reg) {
        None => {
            lemma_fences_between(h, 0, h.len() as int);
        },
        Some(i) => {
            lemma_fences_between(h, i, h.len() as int);
            if fence_from(h, i) {
                let j = choose|j: int| i <= j < h.len() && #[trigger] h[j] is Fence;
                assert(j != i);
                assert(i + 1 <= j && h[j] is Fence);
            }
        },
    }
}

/// The instruction that wrote a register last is known.
pub proof fn the_last_write_is_known(h: Seq<Act>, reg: RegId)
    requires
        h.len() < u64::MAX,
    ensures
        replayed(h).last_write_pc(reg) == (match last_write(h, reg) {
            Some(i) => Some(h[i].site()),
            None => None,
        }),
{
    lemma_writes_known(h, reg);
}

// ---------------------------------------------------------------------------
// Groups
// ---------------------------------------------------------------------------

/// The commits among the first `n` acts: the number of the group that act `n`
/// belongs to.
pub open spec fn commits(h: Seq<Act>, n: int) -> nat
    decreases n,
{
    if n <= 0 {
        0
    } else {
        commits(h, n - 1) + (if h[n - 1] is Commit {
            1nat
        } else {
            0nat
        })
    }
}

/// Whether the wait at `j` covers group `g`: it was committed before, and at
/// least as many groups after it as the wait leaves open.
pub open spec fn covers(h: Seq<Act>, j: int, g: nat) -> bool {
    h[j] matches Act::Wait { n } && commits(h, j) >= g + 1 + n
}

/// Whether some wait covered group `g`.
pub open spec fn released(h: Seq<Act>, g: nat) -> bool {
    exists|j: int| 0 <= j < h.len() && #[trigger] covers(h, j, g)
}

/// The registers written back in group `g`, in order.
pub open spec fn group(h: Seq<Act>, g: nat) -> Seq<RegId>
    decreases h.len(),
{
    if h.len() == 0 {
        Seq::empty()
    } else {
        let before = group(h.drop_last(), g);
        match h.last() {
            Act::Writeback { reg, .. } => if commits(h, h.len() - 1) == g {
                before.push(reg)
            } else {
                before
            },
            _ => before,
        }
    }
}

/// How many groups waits have released: always the oldest.
spec fn gone(h: Seq<Act>) -> nat
    decreases h.len(),
{
    if h.len() == 0 {
        0
    } else {
        let before = gone(h.drop_last());
        match h.last() {
            Act::Wait { n } => if commits(h, h.len() - 1) > before + n {
                (commits(h, h.len() - 1) - n) as nat
            } else {
                before
            },
            _ => before,
        }
    }
}

proof fn lemma_commits_prefix(h: Seq<Act>, n: int)
    requires
        0 <= n < h.len(),
    ensures
        commits(h.drop_last(), n) == commits(h, n),
    decreases n,
{
    if n > 0 {
        lemma_commits_prefix(h, n - 1);
    }
}

proof fn lemma_commits_grow(h: Seq<Act>, i: int, n: int)
    requires
        0 <= i <= n <= h.len(),
    ensures
        commits(h, i) <= commits(h, n),
    decreases n - i,
{
    if i < n {
        lemma_commits_grow(h, i, n - 1);
    }
}

/// Nothing is written back in a group that has not begun.
proof fn lemma_future_group(h: Seq<Act>, g: nat)
    requires
        g > commits(h, h.len() as int),
    ensures
        group(h, g) == Seq::<RegId>::empty(),
    decreases h.len(),
{
    if h.len() > 0 {
        lemma_commits_prefix(h, h.len() - 1);
        lemma_future_group(h.drop_last(), g);
    }
}

proof fn lemma_gone(h: Seq<Act>, g: nat)
    ensures
        gone(h) <= commits(h, h.len() as int),
        g < gone(h) <==> released(h, g),
    decreases h.len(),
{
    if h.len() > 0 {
        let p = h.drop_last();
        lemma_gone(p, g);
        lemma_commits_prefix(h, h.len() - 1);
        assert forall|j: int| 0 <= j < p.len() implies #[trigger] covers(h, j, g) == covers(
            p,
            j,
            g,
        ) by {
            lemma_commits_prefix(h, j);
            assert(p[j] == h[j]);
        }
        if released(p, g) {
            let j = choose|j: int| 0 <= j < p.len() && #[trigger] covers(p, j, g);
            assert(covers(h, j, g));
        }
        if released(h, g) {
            let j = choose|j: int| 0 <= j < h.len() && #[trigger] covers(h, j, g);
            if j < p.len() {
                assert(covers(p, j, g));
            }
        }
        if let Act::Wait { n } = h.last() {
            if g < gone(h) && !(g < gone(p)) {
                assert(covers(h, h.len() - 1, g));
            }
        }
    }
}

/// A wait keeps the newest groups.
proof fn lemma_wait_groups(m: WgmmaModel, n: u32)
    ensures
        m.waited(n).groups == m.groups.skip(
            if m.groups.len() > n {
                m.groups.len() - n
            } else {
                0
            },
        ),
    decreases m.groups.len(),
{
    if m.groups.len() > n {
        let g = m.groups[0];
        let m1 = WgmmaModel {
            groups: m.groups.drop_first(),
            pending: release_group(m.pending, g, g.len() as int),
            ..m
        };
        lemma_wait_groups(m1, n);
        assert(m1.groups.skip(m.groups.len() - 1 - n) =~= m.groups.skip(m.groups.len() - n));
        if m1.groups.len() <= n {
            assert(m1.groups.skip(0) =~= m1.groups);
        }
    } else {
        assert(m.groups.skip(0) =~= m.groups);
    }
}

proof fn lemma_groups_known(h: Seq<Act>)
    ensures
        replayed(h).uncommitted == group(h, commits(h, h.len() as int)),
        replayed(h).groups.len() == commits(h, h.len() as int) - gone(h),
        forall|x: int|
            0 <= x < replayed(h).groups.len() ==> #[trigger] replayed(h).groups[x] == group(
                h,
                (gone(h) + x) as nat,
            ),
    decreases h.len(),
{
    if h.len() > 0 {
        let p = h.drop_last();
        let m = replayed(p);
        let m1 = replayed(h);
        lemma_groups_known(p);
        lemma_gone(p, 0);
        lemma_gone(h, 0);
        lemma_commits_prefix(h, h.len() - 1);
        let c = commits(p, p.len() as int);
        match h.last() {
            Act::Wait { n } => {
                lemma_wait_keeps_writes(m, n);
                lemma_wait_groups(m, n);
            },
            Act::Commit => {
                lemma_future_group(p, c + 1);
                assert forall|x: int| 0 <= x < m1.groups.len() implies #[trigger] m1.groups[x]
                    == group(h, (gone(h) + x) as nat) by {
                    if x < m.groups.len() {
                        assert(m1.groups[x] == m.groups[x]);
                    }
                }
            },
            Act::Writeback { .. } => {
                assert forall|x: int| 0 <= x < m1.groups.len() implies #[trigger] m1.groups[x]
                    == group(h, (gone(h) + x) as nat) by {
                    assert(m1.groups[x] == m.groups[x]);
                }
            },
            _ => {
                assert forall|x: int| 0 <= x < m1.groups.len() implies #[trigger] m1.groups[x]
                    == group(h, (gone(h) + x) as nat) by {
                    assert(m1.groups[x] == m.groups[x]);
                }
            },
        }
    }
}

proof fn lemma_group_members(h: Seq<Act>, g: nat, reg: RegId)
    ensures
        group(h, g).contains(reg) <==> exists|i: int|
            0 <= i < h.len() && (#[trigger] h[i]).writes_back(reg) && commits(h, i) == g,
    decreases h.len(),
{
    if h.len() > 0 {
        let p = h.drop_last();
        lemma_group_members(p, g, reg);
        if group(p, g).contains(reg) {
            let i = choose|i: int|
                0 <= i < p.len() && (#[trigger] p[i]).writes_back(reg) && commits(p, i) == g;
            lemma_commits_prefix(h, i);
            assert(h[i].writes_back(reg) && commits(h, i) == g);
            let x = choose|x: int| 0 <= x < group(p, g).len() && group(p, g)[x] == reg;
            assert(group(h, g)[x] == reg);
        }
        if h.last().writes_back(reg) && commits(h, h.len() - 1) == g {
            assert(group(h, g)[group(p, g).len() as int] == reg);
            assert(h[h.len() - 1].writes_back(reg));
        }
        if group(h, g).contains(reg) && !group(p, g).contains(reg) {
            let x = choose|x: int| 0 <= x < group(h, g).len() && group(h, g)[x] == reg;
            if x < group(p, g).len() {
                assert(group(p, g)[x] == reg);
            }
        }
        if exists|i: int|
            0 <= i < h.len() && (#[trigger] h[i]).writes_back(reg) && commits(h, i) == g {
            let i = choose|i: int|
                0 <= i < h.len() && (#[trigger] h[i]).writes_back(reg) && commits(h, i) == g;
            if i < p.len() {
                lemma_commits_prefix(h, i);
                assert(p[i].writes_back(reg) && commits(p, i) == g);
            }
        }
    } else {
        assert(!Seq::<RegId>::empty().contains(reg));
    }
}

proof fn lemma_occurs(s: Seq<RegId>, reg: RegId, n: int)
    requires
        0 <= n <= s.len(),
    ensures
        occurrences(s, reg, n) <= n,
        occurrences(s, reg, n) > 0 <==> exists|x: int| 0 <= x < n && #[trigger] s[x] == reg,
    decreases n,
{
    if n > 0 {
        lemma_occurs(s, reg, n - 1);
        if exists|x: int| 0 <= x < n && #[trigger] s[x] == reg {
            let x = choose|x: int| 0 <= x < n && #[trigger] s[x] == reg;
            if x < n - 1 {
                assert(s[x] == reg);
            }
        }
    }
}

proof fn lemma_group_occurs(gs: Seq<Seq<RegId>>, reg: RegId, i: int)
    requires
        0 <= i <= gs.len(),
    ensures
        group_occurrences(gs, reg, i) > 0 <==> exists|x: int|
            i <= x < gs.len() && (#[trigger] gs[x]).contains(reg),
    decreases gs.len() - i,
{
    if i < gs.len() {
        lemma_group_occurs(gs, reg, i + 1);
        lemma_occurs(gs[i], reg, gs[i].len() as int);
        if occurrences(gs[i], reg, gs[i].len() as int) > 0 {
            assert(gs[i].contains(reg));
        }
        if exists|x: int| i <= x < gs.len() && (#[trigger] gs[x]).contains(reg) {
            let x = choose|x: int| i <= x < gs.len() && (#[trigger] gs[x]).contains(reg);
            if x == i {
                let y = choose|y: int| 0 <= y < gs[i].len() && gs[i][y] == reg;
                assert(gs[i][y] == reg);
            } else {
                assert(i + 1 <= x && gs[x].contains(reg));
            }
        }
    }
}

/// Whether `reg` was written back since the last commit or in a group that is
/// still open.
pub open spec fn is_held(m: WgmmaModel, reg: RegId) -> bool {
    m.uncommitted.contains(reg) || exists|x: int|
        0 <= x < m.groups.len() && (#[trigger] m.groups[x]).contains(reg)
}

proof fn lemma_held(m: WgmmaModel, reg: RegId)
    requires
        m.counted(),
    ensures
        m.pending_since(reg) is Some <==> is_held(m, reg),
{
    pending_while_outstanding(m, reg);
    lemma_occurs(m.uncommitted, reg, m.uncommitted.len() as int);
    lemma_group_occurs(m.groups, reg, 0);
    if m.uncommitted.contains(reg) {
        let x = choose|x: int| 0 <= x < m.uncommitted.len() && m.uncommitted[x] == reg;
        assert(m.uncommitted[x] == reg);
    }
}

proof fn lemma_counted(h: Seq<Act>, reg: RegId)
    requires
        h.len() < u64::MAX,
    ensures
        replayed(h).counted(),
        replayed(h).outstanding(reg) <= h.len(),
    decreases h.len(),
{
    if h.len() == 0 {
        fresh_state_is_counted();
    } else {
        let p = h.drop_last();
        let m = replayed(p);
        lemma_counted(p, reg);
        match h.last() {
            Act::Writeback { reg: r, shape, pc } => {
                lemma_counted(p, r);
                writebacks_are_counted(m, r, shape, pc);
                let m1 = replayed(h);
                assert(m1.outstanding(reg) == m1.pending_count(reg));
                assert(m.outstanding(reg) == m.pending_count(reg));
            },
            Act::Commit => {
                commits_are_counted(m);
                let m1 = replayed(h);
                assert(m1.outstanding(reg) == m1.pending_count(reg));
                assert(m.outstanding(reg) == m.pending_count(reg));
            },
            Act::Wait { n } => {
                waits_are_counted(m, n);
                let m1 = replayed(h);
                lemma_wait_keeps_writes(m, n);
                lemma_wait_groups(m, n);
                let k: int = if m.groups.len() > n {
                    m.groups.len() - n
                } else {
                    0
                };
                lemma_skipped_occurrences(m.groups, reg, k, 0);
                lemma_tail_occurrences(m.groups, reg, k);
            },
            _ => {
                let m1 = replayed(h);
                assert forall|r: RegId|
                    m1.outstanding(r) == #[trigger] m1.pending_count(r) && (m1.pending.contains_key(
                        r,
                    ) ==> m1.pending[r].0 > 0) by {
                    assert(m.outstanding(r) == m.pending_count(r));
                }
            },
        }
    }
}

proof fn lemma_skipped_occurrences(gs: Seq<Seq<RegId>>, reg: RegId, k: int, i: int)
    requires
        0 <= k <= gs.len(),
        0 <= i <= gs.len() - k,
    ensures
        group_occurrences(gs.skip(k), reg, i) == group_occurrences(gs, reg, i + k),
    decreases gs.len() - k - i,
{
    if i < gs.len() - k {
        lemma_skipped_occurrences(gs, reg, k, i + 1);
        assert(gs.skip(k)[i] == gs[i + k]);
    }
}

proof fn lemma_tail_occurrences(gs: Seq<Seq<RegId>>, reg: RegId, k: int)
    requires
        0 <= k <= gs.len(),
    ensures
        group_occurrences(gs, reg, k) <= group_occurrences(gs, reg, 0),
    decreases k,
{
    if k > 0 {
        lemma_tail_occurrences(gs, reg, k - 1);
    }
}

/// `wgmma.wait_group n` leaves the `n` newest groups open, in order, or all if
/// there are fewer. A register is pending afterwards exactly if it was written
/// back in one of these or since the last commit. Uncommitted writebacks,
/// fences and the record of last writes stay as they are.
pub proof fn a_wait_leaves_the_newest_groups(h: Seq<Act>, n: u32, reg: RegId, shape: MmaShape)
    requires
        h.len() < u64::MAX,
    ensures
        ({
            let m = replayed(h);
            let w = m.waited(n);
            let k = if m.groups.len() > n {
                m.groups.len() - n
            } else {
                0
            };
            &&& w.groups == m.groups.skip(k)
            &&& w.uncommitted == m.uncommitted
            &&& w.pending_since(reg) is Some <==> m.uncommitted.contains(reg) || exists|x: int|
                k <= x < m.groups.len() && (#[trigger] m.groups[x]).contains(reg)
            &&& w.is_fenced_for(reg, shape) == m.is_fenced_for(reg, shape)
            &&& w.last_write_pc(reg) == m.last_write_pc(reg)
        }),
{
    let m = replayed(h);
    let w = m.waited(n);
    lemma_counted(h, reg);
    waits_are_counted(m, n);
    lemma_wait_keeps_writes(m, n);
    lemma_wait_groups(m, n);
    lemma_held(w, reg);
    let k: int = if m.groups.len() > n {
        m.groups.len() - n
    } else {
        0
    };
    if exists|x: int| 0 <= x < w.groups.len() && (#[trigger] w.groups[x]).contains(reg) {
        let x = choose|x: int| 0 <= x < w.groups.len() && (#[trigger] w.groups[x]).contains(reg);
        assert(m.groups[x + k].contains(reg));
    }
    if exists|x: int| k <= x < m.groups.len() && (#[trigger] m.groups[x]).contains(reg) {
        let x = choose|x: int| k <= x < m.groups.len() && (#[trigger] m.groups[x]).contains(reg);
        assert(w.groups[x - k] == m.groups[x]);
    }
}

/// A register is pending exactly while some writeback of it belongs to a group
/// that no wait has covered: every wait so far came before the group was
/// committed, or left it among the newest ones open.
pub proof fn a_writeback_is_pending_until_a_wait_covers_it(h: Seq<Act>, reg: RegId)
    requires
        h.len() < u64::MAX,
    ensures
        replayed(h).pending_since(reg) is Some <==> exists|i: int|
            0 <= i < h.len() && (#[trigger] h[i]).writes_back(reg) && !released(h, commits(h, i)),
{
    let m = replayed(h);
    let c = commits(h, h.len() as int);
    lemma_counted(h, reg);
    lemma_held(m, reg);
    lemma_groups_known(h);
    lemma_gone(h, 0);
    if m.uncommitted.contains(reg) {
        lemma_group_members(h, c, reg);
        lemma_gone(h, c);
        let i = choose|i: int|
            0 <= i < h.len() && (#[trigger] h[i]).writes_back(reg) && commits(h, i) == c;
        assert(h[i].writes_back(reg) && !released(h, commits(h, i)));
    }
    if exists|x: int| 0 <= x < m.groups.len() && (#[trigger] m.groups[x]).contains(reg) {
        let x = choose|x: int| 0 <= x < m.groups.len() && (#[trigger] m.groups[x]).contains(reg);
        let g = (gone(h) + x) as nat;
        lemma_group_members(h, g, reg);
        lemma_gone(h, g);
        let i = choose|i: int|
            0 <= i < h.len() && (#[trigger] h[i]).writes_back(reg) && commits(h, i) == g;
        assert(h[i].writes_back(reg) && !released(h, commits(h, i)));
    }
    if exists|i: int|
        0 <= i < h.len() && (#[trigger] h[i]).writes_back(reg) && !released(h, commits(h, i)) {
        let i = choose|i: int|
            0 <= i < h.len() && (#[trigger] h[i]).writes_back(reg) && !released(h, commits(h, i));
        let g = commits(h, i);
        lemma_commits_grow(h, i, h.len() as int);
        lemma_group_members(h, g, reg);
        lemma_gone(h, g);
        if g == c {
            assert(m.uncommitted.contains(reg));
        } else {
            let x = g - gone(h);
            assert(m.groups[x] == group(h, (gone(h) + x) as nat));
            assert(m.groups[x].contains(reg));
        }
    }
}

} // verus!
