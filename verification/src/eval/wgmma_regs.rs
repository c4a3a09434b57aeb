//! Register hazards of `wgmma.mma_async`.
//!
//! Two rules are tracked per thread. An accumulator register must be fenced
//! before a `wgmma.mma_async` accesses it, unless its last write was a
//! `wgmma.mma_async` of the same shape. And nothing but that chain may touch
//! the register until a `wgmma.wait_group` releases the group it was written
//! in.

use std::collections::HashMap;

use vstd::prelude::*;

use crate::lowered::InstrId;
use crate::symbols::RegId;
use crate::tensor_core::MmaShape;

verus! {

/// A map keyed by registers.
#[derive(Debug)]
pub struct RegMap<T> {
    slots: HashMap<u64, T>,
}

pub open spec fn spec_reg_key(r: RegId) -> u64 {
    (r.class.index() * 0x1_0000_0000 + r.index.0) as u64
}

/// One word for a register.
#[verifier::when_used_as_spec(spec_reg_key)]
fn reg_key(r: RegId) -> (k: u64)
    ensures
        k == spec_reg_key(r),
{
    r.class.index() as u64 * 0x1_0000_0000 + r.index.0 as u64
}

proof fn lemma_reg_key(a: RegId, b: RegId)
    requires
        spec_reg_key(a) == spec_reg_key(b),
    ensures
        a == b,
{
    assert(a.class.index() == b.class.index());
    assert(a.index.0 == b.index.0);
    assert(a.index == b.index);
    assert(a.class == b.class);
}

impl<T> View for RegMap<T> {
    type V = Map<RegId, T>;

    closed spec fn view(&self) -> Map<RegId, T> {
        Map::new(
            |r: RegId| self.slots@.contains_key(spec_reg_key(r)),
            |r: RegId| self.slots@[spec_reg_key(r)],
        )
    }
}

impl<T: Copy> RegMap<T> {
    pub fn new() -> (r: Self)
        ensures
            r@ == Map::<RegId, T>::empty(),
    {
        let r = RegMap { slots: HashMap::new() };
        assert(r@ =~= Map::<RegId, T>::empty());
        r
    }

    pub fn get(&self, r: RegId) -> (v: Option<T>)
        ensures
            v == (if self@.contains_key(r) {
                Some(self@[r])
            } else {
                None
            }),
    {
        match self.slots.get(&reg_key(r)) {
            Some(v) => Some(*v),
            None => None,
        }
    }

    pub fn insert(&mut self, r: RegId, v: T)
        ensures
            final(self)@ == old(self)@.insert(r, v),
    {
        self.slots.insert(reg_key(r), v);
        proof {
            assert forall|q: RegId| spec_reg_key(q) == spec_reg_key(r) implies q == r by {
                lemma_reg_key(q, r);
            }
            assert(self@ =~= old(self)@.insert(r, v));
        }
    }

    pub fn remove(&mut self, r: RegId)
        ensures
            final(self)@ == old(self)@.remove(r),
    {
        self.slots.remove(&reg_key(r));
        proof {
            assert forall|q: RegId| spec_reg_key(q) == spec_reg_key(r) implies q == r by {
                lemma_reg_key(q, r);
            }
            assert(self@ =~= old(self)@.remove(r));
        }
    }
}

/// What is tracked for one thread.
#[verifier::ext_equal]
pub struct WgmmaModel {
    /// Number of fences executed.
    pub fence_epoch: u64,
    /// Epoch and instruction of each register's last write.
    pub reg_epoch: Map<RegId, (u64, InstrId)>,
    /// Shape of each register whose last write was an accumulator writeback.
    pub reg_shape: Map<RegId, MmaShape>,
    /// Writebacks since the last commit.
    pub uncommitted: Seq<RegId>,
    /// Committed groups, oldest first.
    pub groups: Seq<Seq<RegId>>,
    /// How often each register occurs in the two fields above, and the
    /// instruction that wrote it last.
    pub pending: Map<RegId, (u64, InstrId)>,
}

/// The pending writebacks with one of `reg` released.
pub open spec fn release_one(pending: Map<RegId, (u64, InstrId)>, reg: RegId) -> Map<
    RegId,
    (u64, InstrId),
> {
    if !pending.contains_key(reg) {
        pending
    } else if pending[reg].0 <= 1 {
        pending.remove(reg)
    } else {
        pending.insert(reg, ((pending[reg].0 - 1) as u64, pending[reg].1))
    }
}

/// The pending writebacks with the first `n` of a group released.
pub open spec fn release_group(
    pending: Map<RegId, (u64, InstrId)>,
    group: Seq<RegId>,
    n: int,
) -> Map<RegId, (u64, InstrId)>
    decreases n,
{
    if n <= 0 {
        pending
    } else {
        release_one(release_group(pending, group, n - 1), group[n - 1])
    }
}

impl WgmmaModel {
    pub open spec fn initial() -> WgmmaModel {
        WgmmaModel {
            fence_epoch: 0,
            reg_epoch: Map::empty(),
            reg_shape: Map::empty(),
            uncommitted: Seq::empty(),
            groups: Seq::empty(),
            pending: Map::empty(),
        }
    }

    /// The instruction whose writeback of `reg` is still unreleased.
    pub open spec fn pending_since(self, reg: RegId) -> Option<InstrId> {
        if self.pending.contains_key(reg) && self.pending[reg].0 > 0 {
            Some(self.pending[reg].1)
        } else {
            None
        }
    }

    /// Whether an accumulator access of `shape` to `reg` is ordered: the
    /// register was last written by the same shape, or a fence came after its
    /// last write.
    pub open spec fn is_fenced_for(self, reg: RegId, shape: MmaShape) -> bool {
        (self.reg_shape.contains_key(reg) && self.reg_shape[reg] == shape) || self.fence_epoch > (
        if self.reg_epoch.contains_key(reg) {
            self.reg_epoch[reg].0
        } else {
            0
        })
    }

    pub open spec fn last_write_pc(self, reg: RegId) -> Option<InstrId> {
        if self.reg_epoch.contains_key(reg) {
            Some(self.reg_epoch[reg].1)
        } else {
            None
        }
    }

    /// After an ordinary write.
    pub open spec fn after_write(self, reg: RegId, pc: InstrId) -> WgmmaModel {
        WgmmaModel {
            reg_epoch: self.reg_epoch.insert(reg, (self.fence_epoch, pc)),
            reg_shape: self.reg_shape.remove(reg),
            ..self
        }
    }

    pub open spec fn pending_count(self, reg: RegId) -> u64 {
        if self.pending.contains_key(reg) {
            self.pending[reg].0
        } else {
            0
        }
    }

    /// After an accumulator writeback.
    pub open spec fn after_wgmma_write(
        self,
        reg: RegId,
        shape: MmaShape,
        pc: InstrId,
    ) -> WgmmaModel {
        let count = self.pending_count(reg);
        WgmmaModel {
            reg_epoch: self.reg_epoch.insert(reg, (self.fence_epoch, pc)),
            reg_shape: self.reg_shape.insert(reg, shape),
            uncommitted: self.uncommitted.push(reg),
            pending: self.pending.insert(
                reg,
                (
                    if count < u64::MAX {
                        (count + 1) as u64
                    } else {
                        count
                    },
                    pc,
                ),
            ),
            ..self
        }
    }

    /// After a fence. The count of fences stops at the largest word.
    pub open spec fn fenced(self) -> WgmmaModel {
        WgmmaModel {
            fence_epoch: if self.fence_epoch < u64::MAX {
                (self.fence_epoch + 1) as u64
            } else {
                self.fence_epoch
            },
            ..self
        }
    }

    /// After sealing the uncommitted writebacks into a group.
    pub open spec fn committed(self) -> WgmmaModel {
        WgmmaModel {
            uncommitted: Seq::empty(),
            groups: self.groups.push(self.uncommitted),
            ..self
        }
    }

    /// After releasing all but the `n` newest groups.
    pub open spec fn waited(self, n: u32) -> WgmmaModel
        decreases self.groups.len(),
    {
        if self.groups.len() <= n {
            self
        } else {
            WgmmaModel {
                groups: self.groups.drop_first(),
                pending: release_group(
                    self.pending,
                    self.groups[0],
                    self.groups[0].len() as int,
                ),
                ..self
            }.waited(n)
        }
    }
}

/// Per-thread register-hazard state of `wgmma.mma_async`.
#[derive(Debug)]
pub struct WgmmaRegState {
    fence_epoch: u64,
    reg_epoch: RegMap<(u64, InstrId)>,
    reg_shape: RegMap<MmaShape>,
    uncommitted: Vec<RegId>,
    groups: Vec<Vec<RegId>>,
    pending: RegMap<(u64, InstrId)>,
}

impl View for WgmmaRegState {
    type V = WgmmaModel;

    closed spec fn view(&self) -> WgmmaModel {
        WgmmaModel {
            fence_epoch: self.fence_epoch,
            reg_epoch: self.reg_epoch@,
            reg_shape: self.reg_shape@,
            uncommitted: self.uncommitted@,
            groups: self.groups@.map_values(|g: Vec<RegId>| g@),
            pending: self.pending@,
        }
    }
}

impl WgmmaRegState {
    pub fn new() -> (r: Self)
        ensures
            r@ == WgmmaModel::initial(),
    {
        let r = WgmmaRegState {
            fence_epoch: 0,
            reg_epoch: RegMap::new(),
            reg_shape: RegMap::new(),
            uncommitted: Vec::new(),
            groups: Vec::new(),
            pending: RegMap::new(),
        };
        assert(r@ =~= WgmmaModel::initial());
        r
    }

    /// The instruction whose writeback of `reg` awaits a `wgmma.wait_group`.
    pub fn pending_since(&self, reg: RegId) -> (r: Option<InstrId>)
        ensures
            r == self@.pending_since(reg),
    {
        match self.pending.get(reg) {
            Some((count, pc)) => if count > 0 {
                Some(pc)
            } else {
                None
            },
            None => None,
        }
    }

    /// Whether a `wgmma.mma_async` of `shape` may access `reg` without a new
    /// fence.
    pub fn is_fenced_for(&self, reg: RegId, shape: MmaShape) -> (r: bool)
        ensures
            r == self@.is_fenced_for(reg, shape),
    {
        if let Some(s) = self.reg_shape.get(reg) {
            if s == shape {
                return true;
            }
        }
        let last: u64 = match self.reg_epoch.get(reg) {
            Some((e, _)) => e,
            None => 0,
        };
        self.fence_epoch > last
    }

    /// The instruction that wrote `reg` last.
    pub fn last_write_pc(&self, reg: RegId) -> (r: Option<InstrId>)
        ensures
            r == self@.last_write_pc(reg),
    {
        match self.reg_epoch.get(reg) {
            Some((_, pc)) => Some(pc),
            None => None,
        }
    }

    /// Records an ordinary write, which breaks any same-shape chain.
    pub fn record_write(&mut self, reg: RegId, pc: InstrId)
        ensures
            final(self)@ == old(self)@.after_write(reg, pc),
    {
        self.reg_epoch.insert(reg, (self.fence_epoch, pc));
        self.reg_shape.remove(reg);
    }

    /// Records an accumulator writeback.
    pub fn record_wgmma_write(&mut self, reg: RegId, shape: MmaShape, pc: InstrId)
        ensures
            final(self)@ == old(self)@.after_wgmma_write(reg, shape, pc),
    {
        self.reg_epoch.insert(reg, (self.fence_epoch, pc));
        self.reg_shape.insert(reg, shape);
        self.uncommitted.push(reg);
        let count: u64 = match self.pending.get(reg) {
            Some((c, _)) => c,
            None => 0,
        };
        let next: u64 = if count < u64::MAX {
            count + 1
        } else {
            count
        };
        self.pending.insert(reg, (next, pc));
    }

    /// `wgmma.fence`: an ordering point for every register.
    pub fn fence(&mut self)
        ensures
            final(self)@ == old(self)@.fenced(),
    {
        if self.fence_epoch < u64::MAX {
            self.fence_epoch = self.fence_epoch + 1;
        }
    }

    /// `wgmma.commit_group`: seals the uncommitted writebacks into a group.
    pub fn commit_group(&mut self)
        ensures
            final(self)@ == old(self)@.committed(),
    {
        let mut sealed: Vec<RegId> = Vec::new();
        std::mem::swap(&mut sealed, &mut self.uncommitted);
        self.groups.push(sealed);
        assert(self@ =~~= old(self)@.committed());
    }

    /// `wgmma.wait_group`: releases all but the `n` newest groups.
    pub fn wait_group(&mut self, n: u32)
        ensures
            final(self)@ == old(self)@.waited(n),
    {
        while self.groups.len() > n as usize
            invariant
                self@.waited(n) == old(self)@.waited(n),
            decreases self.groups@.len(),
        {
            let ghost before = self@;
            let group = self.groups.remove(0);
            assert(group@ == before.groups[0]);
            let mut i: usize = 0;
            while i < group.len()
                invariant
                    i <= group@.len(),
                    group@ == before.groups[0],
                    before.groups.len() > 0,
                    self@ == (WgmmaModel {
                        groups: before.groups.drop_first(),
                        pending: release_group(before.pending, group@, i as int),
                        ..before
                    }),
                decreases group@.len() - i,
            {
                let reg = group[i];
                if let Some((count, pc)) = self.pending.get(reg) {
                    if count <= 1 {
                        self.pending.remove(reg);
                    } else {
                        self.pending.insert(reg, (count - 1, pc));
                    }
                }
                i = i + 1;
            }
        }
    }
}

// ---------------------------------------------------------------------------
// Laws
// ---------------------------------------------------------------------------

/// How often `reg` occurs in the first `n` entries of a group.
pub open spec fn occurrences(group: Seq<RegId>, reg: RegId, n: int) -> nat
    decreases n,
{
    if n <= 0 {
        0
    } else {
        occurrences(group, reg, n - 1) + if group[n - 1] == reg {
            1nat
        } else {
            0nat
        }
    }
}

/// How often `reg` occurs in the groups from the `i`-th on.
pub open spec fn group_occurrences(groups: Seq<Seq<RegId>>, reg: RegId, i: int) -> nat
    decreases groups.len() - i,
{
    if i >= groups.len() {
        0
    } else {
        occurrences(groups[i], reg, groups[i].len() as int) + group_occurrences(
            groups,
            reg,
            i + 1,
        )
    }
}

impl WgmmaModel {
    /// Unreleased writebacks of `reg`.
    pub open spec fn outstanding(self, reg: RegId) -> nat {
        occurrences(self.uncommitted, reg, self.uncommitted.len() as int) + group_occurrences(
            self.groups,
            reg,
            0,
        )
    }

    /// The pending counts are the numbers of unreleased writebacks.
    pub open spec fn counted(self) -> bool {
        forall|reg: RegId|
            self.outstanding(reg) == #[trigger] self.pending_count(reg) && (
            self.pending.contains_key(reg) ==> self.pending[reg].0 > 0)
    }
}

/// A register is pending exactly while some unreleased group, or the
/// uncommitted writebacks, still hold it.
pub proof fn pending_while_outstanding(m: WgmmaModel, reg: RegId)
    requires
        m.counted(),
    ensures
        m.pending_since(reg) is Some <==> m.outstanding(reg) > 0,
{
    assert(m.outstanding(reg) == m.pending_count(reg));
}

/// A fresh state has nothing pending, and the counts are right.
pub proof fn fresh_state_is_counted()
    ensures
        WgmmaModel::initial().counted(),
{
    let m = WgmmaModel::initial();
    assert forall|reg: RegId| m.outstanding(reg) == #[trigger] m.pending_count(reg) by {}
}

proof fn lemma_push_occurrences(s: Seq<RegId>, x: RegId, reg: RegId, n: int)
    requires
        0 <= n <= s.len(),
    ensures
        occurrences(s.push(x), reg, n) == occurrences(s, reg, n),
    decreases n,
{
    if n > 0 {
        lemma_push_occurrences(s, x, reg, n - 1);
        assert(s.push(x)[n - 1] == s[n - 1]);
    }
}

/// A writeback keeps the counts right.
pub proof fn writebacks_are_counted(m: WgmmaModel, reg: RegId, shape: MmaShape, pc: InstrId)
    requires
        m.counted(),
        m.outstanding(reg) < u64::MAX,
    ensures
        m.after_wgmma_write(reg, shape, pc).counted(),
{
    let m1 = m.after_wgmma_write(reg, shape, pc);
    assert forall|r: RegId|
        m1.outstanding(r) == #[trigger] m1.pending_count(r) && (m1.pending.contains_key(r)
            ==> m1.pending[r].0 > 0) by {
        lemma_push_occurrences(m.uncommitted, reg, r, m.uncommitted.len() as int);
        assert(m.outstanding(r) == m.pending_count(r));
        assert(m.outstanding(reg) == m.pending_count(reg));
    }
}

proof fn lemma_push_group(gs: Seq<Seq<RegId>>, g: Seq<RegId>, reg: RegId, i: int)
    requires
        0 <= i <= gs.len(),
    ensures
        group_occurrences(gs.push(g), reg, i) == group_occurrences(gs, reg, i) + occurrences(
            g,
            reg,
            g.len() as int,
        ),
    decreases gs.len() - i,
{
    let gs1 = gs.push(g);
    if i < gs.len() {
        lemma_push_group(gs, g, reg, i + 1);
        assert(gs1[i] == gs[i]);
    } else {
        assert(gs1[i] == g);
        assert(group_occurrences(gs1, reg, i + 1) == 0);
    }
}

/// Committing keeps the counts right: a group is as pending as its parts.
pub proof fn commits_are_counted(m: WgmmaModel)
    requires
        m.counted(),
    ensures
        m.committed().counted(),
{
    let m1 = m.committed();
    assert forall|r: RegId|
        m1.outstanding(r) == #[trigger] m1.pending_count(r) && (m1.pending.contains_key(r)
            ==> m1.pending[r].0 > 0) by {
        lemma_push_group(m.groups, m.uncommitted, r, 0);
        assert(m.outstanding(r) == m.pending_count(r));
    }
}

proof fn lemma_drop_group(gs: Seq<Seq<RegId>>, reg: RegId, i: int)
    requires
        0 <= i < gs.len(),
    ensures
        group_occurrences(gs.drop_first(), reg, i) == group_occurrences(gs, reg, i + 1),
    decreases gs.len() - i,
{
    let gs1 = gs.drop_first();
    if i + 1 < gs.len() {
        lemma_drop_group(gs, reg, i + 1);
        assert(gs1[i] == gs[i + 1]);
    }
}

pub open spec fn count_of(p: Map<RegId, (u64, InstrId)>, reg: RegId) -> u64 {
    if p.contains_key(reg) {
        p[reg].0
    } else {
        0
    }
}

proof fn lemma_release_group(
    p: Map<RegId, (u64, InstrId)>,
    group: Seq<RegId>,
    n: int,
    reg: RegId,
)
    requires
        0 <= n <= group.len(),
        forall|r: RegId| #[trigger] p.contains_key(r) ==> p[r].0 > 0,
        forall|r: RegId|
            occurrences(group, r, group.len() as int) <= #[trigger] count_of(p, r),
    ensures
        count_of(release_group(p, group, n), reg) == count_of(p, reg) - occurrences(group, reg, n),
        forall|r: RegId| #[trigger]
            release_group(p, group, n).contains_key(r) ==> release_group(p, group, n)[r].0 > 0,
    decreases n,
{
    if n > 0 {
        lemma_release_group(p, group, n - 1, reg);
        lemma_release_group(p, group, n - 1, group[n - 1]);
        lemma_occurrences_grow(group, group[n - 1], n, group.len() as int);
        assert(occurrences(group, group[n - 1], group.len() as int) <= count_of(p, group[n - 1]));
    }
}

proof fn lemma_occurrences_grow(group: Seq<RegId>, reg: RegId, n: int, k: int)
    requires
        0 <= n <= k,
    ensures
        occurrences(group, reg, n) <= occurrences(group, reg, k),
    decreases k,
{
    if n < k {
        lemma_occurrences_grow(group, reg, n, k - 1);
    }
}

/// Waiting keeps the counts right: releasing an older group leaves a register
/// pending that a newer one still holds.
pub proof fn waits_are_counted(m: WgmmaModel, n: u32)
    requires
        m.counted(),
    ensures
        m.waited(n).counted(),
    decreases m.groups.len(),
{
    if m.groups.len() > n {
        let g = m.groups[0];
        let m1 = WgmmaModel {
            groups: m.groups.drop_first(),
            pending: release_group(m.pending, g, g.len() as int),
            ..m
        };
        assert forall|r: RegId|
            occurrences(g, r, g.len() as int) <= #[trigger] count_of(m.pending, r) by {
            assert(m.outstanding(r) == m.pending_count(r));
        }
        assert forall|r: RegId| #[trigger] m.pending.contains_key(r) implies m.pending[r].0 > 0 by {
            assert(m.outstanding(r) == m.pending_count(r));
        }
        assert forall|r: RegId|
            m1.outstanding(r) == #[trigger] m1.pending_count(r) && (m1.pending.contains_key(r)
                ==> m1.pending[r].0 > 0) by {
            lemma_release_group(m.pending, g, g.len() as int, r);
            lemma_drop_group(m.groups, r, 0);
            assert(m.outstanding(r) == m.pending_count(r));
            assert(group_occurrences(m.groups, r, 0) == occurrences(g, r, g.len() as int)
                + group_occurrences(m.groups, r, 1));
        }
        waits_are_counted(m1, n);
    }
}

/// A same-shape chain needs no fence between its links, and a fence orders
/// every register, written or not.
pub proof fn same_shape_chain_needs_no_fence(
    m: WgmmaModel,
    reg: RegId,
    shape: MmaShape,
    pc: InstrId,
)
    ensures
        m.after_wgmma_write(reg, shape, pc).is_fenced_for(reg, shape),
{
}

/// An ordinary write needs a fence of its own before the next accumulator
/// access, however many fences came before it.
pub proof fn a_write_needs_its_own_fence(m: WgmmaModel, reg: RegId, shape: MmaShape, pc: InstrId)
    ensures
        !m.after_write(reg, pc).is_fenced_for(reg, shape),
        m.fence_epoch < u64::MAX ==> m.after_write(reg, pc).fenced().is_fenced_for(reg, shape),
{
}

} // verus!
