//! `mbarrier` object state: phased arrive/wait barriers used for
//! producer/consumer pipelining across threads.
//!
//! Each object tracks an arrival count and a pending async-transaction count
//! for its current *phase*; when both are satisfied the phase completes and a
//! parity bit flips.

use vstd::prelude::*;
use fixedbitset::FixedBitSet;
use id_collections::IdVec;

use crate::eval::ThreadId;
use crate::eval::bitset::{bits, bitset_len};
use crate::eval::value::MbarrierId;

verus! {

/// One `mbarrier` object's state.
#[derive(Debug)]
pub struct MbarrierState {
    /// Arrivals needed to complete the current phase.
    expected_arrivals: u64,
    /// Arrivals seen so far this phase.
    arrived: u64,
    /// Net outstanding async-transaction bytes for this phase.
    pending_tx: i64,
    /// Current phase's parity; flips every time a phase completes.
    parity: bool,
    /// Threads that have arrived during the forming phase. `complete_tx`
    /// does not contribute.
    participants: FixedBitSet,
    /// `participants` as of the last completed phase: the set a waiter
    /// observing that phase's completion synchronizes with.
    prior_participants: FixedBitSet,
}

/// What the table holds of one object.
#[verifier::ext_equal]
pub struct Mbarrier {
    pub expected_arrivals: u64,
    pub arrived: u64,
    pub pending_tx: i64,
    pub parity: bool,
    pub participants: Set<usize>,
    pub prior_participants: Set<usize>,
}

impl Mbarrier {
    pub open spec fn initial(expected_arrivals: u64) -> Mbarrier {
        Mbarrier {
            expected_arrivals,
            arrived: 0,
            pending_tx: 0,
            parity: false,
            participants: Set::empty(),
            prior_participants: Set::empty(),
        }
    }

    /// Whether the forming phase has everything it waits for.
    pub open spec fn phase_complete(self) -> bool {
        self.arrived >= self.expected_arrivals && self.pending_tx <= 0
    }

    /// The object once a complete phase has been turned over.
    pub open spec fn turned_over(self) -> Mbarrier {
        if self.phase_complete() {
            Mbarrier {
                arrived: 0,
                parity: !self.parity,
                participants: Set::empty(),
                prior_participants: self.participants,
                ..self
            }
        } else {
            self
        }
    }

    /// The object after an arrival.
    pub open spec fn arrived_by(self, thread: ThreadId, count: u64) -> Mbarrier {
        Mbarrier {
            arrived: (self.arrived + count) as u64,
            participants: self.participants.insert(thread.0 as usize),
            ..self
        }.turned_over()
    }

    /// The object expecting further transaction bytes.
    pub open spec fn expecting(self, tx_count: u64) -> Mbarrier {
        Mbarrier { pending_tx: (self.pending_tx + (tx_count as i64)) as i64, ..self }
    }

    /// The object after transaction bytes completed.
    pub open spec fn tx_completed(self, tx_count: u64) -> Mbarrier {
        Mbarrier {
            pending_tx: (self.pending_tx - (tx_count as i64)) as i64,
            ..self
        }.turned_over()
    }

    /// The object after an arrival that may also expect transaction bytes.
    pub open spec fn arrived_expecting(
        self,
        thread: ThreadId,
        count: u64,
        expect_tx: Option<u64>,
    ) -> Mbarrier {
        match expect_tx {
            Some(tx) => self.expecting(tx).arrived_by(thread, count),
            None => self.arrived_by(thread, count),
        }
    }

    /// Whether the phase of the given parity has completed.
    pub open spec fn parity_complete(self, phase_parity: bool) -> bool {
        self.parity != phase_parity
    }

    /// Whether expecting `tx_count` more bytes stays in range.
    pub open spec fn can_expect(self, tx_count: u64) -> bool {
        i64::MIN <= self.pending_tx + (tx_count as i64) <= i64::MAX
    }

    /// Whether completing `tx_count` bytes stays in range.
    pub open spec fn can_complete(self, tx_count: u64) -> bool {
        i64::MIN <= self.pending_tx - (tx_count as i64) <= i64::MAX
    }

    /// Whether an arrival of `count` stays in range.
    pub open spec fn can_arrive(self, count: u64) -> bool {
        self.arrived + count <= u64::MAX
    }
}

impl MbarrierState {
    spec fn model(&self) -> Mbarrier {
        Mbarrier {
            expected_arrivals: self.expected_arrivals,
            arrived: self.arrived,
            pending_tx: self.pending_tx,
            parity: self.parity,
            participants: bits(self.participants),
            prior_participants: bits(self.prior_participants),
        }
    }

    spec fn wf(&self, n: usize) -> bool {
        bitset_len(self.participants) == n && bitset_len(self.prior_participants) == n
    }

    fn new(expected_arrivals: u64, n_threads: usize) -> (r: Self)
        ensures
            r.wf(n_threads),
            r.model() == Mbarrier::initial(expected_arrivals),
    {
        let r = MbarrierState {
            expected_arrivals,
            arrived: 0,
            pending_tx: 0,
            parity: false,
            participants: FixedBitSet::with_capacity(n_threads),
            prior_participants: FixedBitSet::with_capacity(n_threads),
        };
        assert(r.model() =~= Mbarrier::initial(expected_arrivals));
        r
    }

    fn maybe_complete_phase(&mut self, n_threads: usize)
        requires
            old(self).wf(n_threads),
        ensures
            final(self).wf(n_threads),
            final(self).model() == old(self).model().turned_over(),
    {
        if self.arrived >= self.expected_arrivals && self.pending_tx <= 0 {
            self.parity = !self.parity;
            self.arrived = 0;
            self.prior_participants = self.participants.clone();
            self.participants = FixedBitSet::with_capacity(n_threads);
            assert(self.model() =~= old(self).model().turned_over());
        }
    }

    fn arrive(&mut self, thread: ThreadId, count: u64, n_threads: usize)
        requires
            old(self).wf(n_threads),
            thread.0 < n_threads,
            old(self).model().can_arrive(count),
        ensures
            final(self).wf(n_threads),
            final(self).model() == old(self).model().arrived_by(thread, count),
    {
        self.participants.insert(thread.0 as usize);
        self.arrived = self.arrived + count;
        assert(bits(self.participants) =~= bits(old(self).participants).insert(thread.0 as usize));
        self.maybe_complete_phase(n_threads);
    }

    fn expect_tx(&mut self, tx_count: u64)
        requires
            old(self).model().can_expect(tx_count),
        ensures
            final(self).model() == old(self).model().expecting(tx_count),
            forall|n: usize| old(self).wf(n) ==> final(self).wf(n),
    {
        self.pending_tx = self.pending_tx + (tx_count as i64);
    }

    fn complete_tx(&mut self, tx_count: u64, n_threads: usize)
        requires
            old(self).wf(n_threads),
            old(self).model().can_complete(tx_count),
        ensures
            final(self).wf(n_threads),
            final(self).model() == old(self).model().tx_completed(tx_count),
    {
        self.pending_tx = self.pending_tx - (tx_count as i64);
        self.maybe_complete_phase(n_threads);
    }
}

/// The objects of a table, held in an `id_collections::IdVec`, which numbers
/// its elements in the order in which they came.
#[verifier::external_body]
#[derive(Debug)]
pub struct MbarrierList {
    inner: IdVec<usize, MbarrierState>,
}

/// The objects of a list, by number.
pub uninterp spec fn listed(l: MbarrierList) -> Seq<MbarrierState>;

/// `IdVec::new`: a list without objects.
#[verifier::external_body]
fn empty_list() -> (l: MbarrierList)
    ensures
        listed(l) == Seq::<MbarrierState>::empty(),
{
    MbarrierList { inner: IdVec::new() }
}

/// `IdVec::len`: the number of objects.
#[verifier::external_body]
fn list_len(l: &MbarrierList) -> (n: usize)
    ensures
        n == listed(*l).len(),
{
    l.inner.len()
}

/// `IdVec::push`: adds an object at the end and gives its number. With numbers
/// of the width of a length, only a failing allocation stands in its way.
#[verifier::external_body]
fn list_push(l: &mut MbarrierList, state: MbarrierState) -> (id: usize)
    ensures
        id == listed(*old(l)).len(),
        listed(*final(l)) == listed(*old(l)).push(state),
{
    l.inner.push(state)
}

/// `IdVec::index`: the object of a number in use.
#[verifier::external_body]
fn list_at(l: &MbarrierList, id: usize) -> (r: &MbarrierState)
    requires
        id < listed(*l).len(),
    ensures
        *r == listed(*l)[id as int],
{
    &l.inner[id]
}

/// `IdVec::index_mut`: the object of a number in use, to be changed in place;
/// the others stay as they are.
#[verifier::external_body]
fn list_at_mut(l: &mut MbarrierList, id: usize) -> (r: &mut MbarrierState)
    requires
        id < listed(*old(l)).len(),
    ensures
        *r == listed(*old(l))[id as int],
        listed(*final(l)) == listed(*old(l)).update(id as int, *final(r)),
{
    &mut l.inner[id]
}

/// Every live `mbarrier` object in one kernel run.
#[derive(Debug)]
pub struct MbarrierTable {
    states: MbarrierList,
    n_threads: usize,
}

impl View for MbarrierTable {
    type V = Seq<Mbarrier>;

    closed spec fn view(&self) -> Seq<Mbarrier> {
        listed(self.states).map_values(|s: MbarrierState| s.model())
    }
}

impl MbarrierTable {
    pub closed spec fn wf(&self) -> bool {
        forall|i: int|
            0 <= i < listed(self.states).len() ==> (#[trigger] listed(self.states)[i]).wf(
                self.n_threads,
            )
    }

    /// Number of threads of the CTA.
    pub closed spec fn threads(&self) -> usize {
        self.n_threads
    }

    pub fn new(n_threads: usize) -> (r: Self)
        ensures
            r.wf(),
            r.threads() == n_threads,
            r@ == Seq::<Mbarrier>::empty(),
    {
        let r = MbarrierTable { states: empty_list(), n_threads };
        assert(r@ =~= Seq::<Mbarrier>::empty());
        r
    }

    /// Number of objects created so far.
    pub(crate) fn len(&self) -> (r: usize)
        ensures
            r == self@.len(),
    {
        list_len(&self.states)
    }

    /// `mbarrier.init`: create a fresh object, returning its handle.
    pub fn init(&mut self, expected_arrivals: u64) -> (id: MbarrierId)
        requires
            old(self).wf(),
        ensures
            final(self).wf(),
            final(self).threads() == old(self).threads(),
            id.0 == old(self)@.len(),
            final(self)@ == old(self)@.push(Mbarrier::initial(expected_arrivals)),
    {
        let state = MbarrierState::new(expected_arrivals, self.n_threads);
        let id = MbarrierId(list_push(&mut self.states, state));
        assert(self@ =~= old(self)@.push(Mbarrier::initial(expected_arrivals)));
        id
    }

    /// `mbarrier.arrive[.expect_tx]`: signal `count` arrivals by `thread`,
    /// optionally also bumping the expected transaction count by `expect_tx`.
    pub fn arrive(&mut self, id: MbarrierId, thread: ThreadId, count: u64, expect_tx: Option<u64>)
        requires
            old(self).wf(),
            id.0 < old(self)@.len(),
            thread.0 < old(self).threads(),
            old(self)@[id.0 as int].can_arrive(count),
            expect_tx matches Some(tx) ==> old(self)@[id.0 as int].can_expect(tx),
        ensures
            final(self).wf(),
            final(self).threads() == old(self).threads(),
            final(self)@ == old(self)@.update(
                id.0 as int,
                old(self)@[id.0 as int].arrived_expecting(thread, count, expect_tx),
            ),
    {
        let n: usize = self.n_threads;
        let state = list_at_mut(&mut self.states, id.0);
        match expect_tx {
            Some(tx) => {
                state.expect_tx(tx);
            },
            None => {},
        }
        state.arrive(thread, count, n);
        assert(self@ =~= old(self)@.update(
            id.0 as int,
            old(self)@[id.0 as int].arrived_expecting(thread, count, expect_tx),
        ));
    }

    /// `mbarrier.complete_tx`.
    pub fn complete_tx(&mut self, id: MbarrierId, tx_count: u64)
        requires
            old(self).wf(),
            id.0 < old(self)@.len(),
            old(self)@[id.0 as int].can_complete(tx_count),
        ensures
            final(self).wf(),
            final(self).threads() == old(self).threads(),
            final(self)@ == old(self)@.update(
                id.0 as int,
                old(self)@[id.0 as int].tx_completed(tx_count),
            ),
    {
        let n: usize = self.n_threads;
        let state = list_at_mut(&mut self.states, id.0);
        state.complete_tx(tx_count, n);
        assert(self@ =~= old(self)@.update(
            id.0 as int,
            old(self)@[id.0 as int].tx_completed(tx_count),
        ));
    }

    /// `mbarrier.test_wait.parity`/`try_wait.parity`'s completion check.
    pub fn parity_complete(&self, id: MbarrierId, phase_parity: bool) -> (r: bool)
        requires
            id.0 < self@.len(),
        ensures
            r == self@[id.0 as int].parity_complete(phase_parity),
    {
        list_at(&self.states, id.0).parity != phase_parity
    }

    /// The arriving threads a waiter observing this mbarrier's last completed
    /// phase synchronizes with.
    pub fn prior_participants(&self, id: MbarrierId) -> (r: &FixedBitSet)
        requires
            self.wf(),
            id.0 < self@.len(),
        ensures
            bits(*r) == self@[id.0 as int].prior_participants,
            bitset_len(*r) == self.threads(),
    {
        &list_at(&self.states, id.0).prior_participants
    }

    /// Whether an arrival, with its expected bytes, stays in range.
    pub(crate) fn arrival_in_range(&self, id: MbarrierId, count: u64, expect_tx: Option<u64>) -> (r:
        bool)
        requires
            id.0 < self@.len(),
        ensures
            r == (self@[id.0 as int].can_arrive(count) && (expect_tx matches Some(tx)
                ==> self@[id.0 as int].can_expect(tx))),
    {
        let s = list_at(&self.states, id.0);
        let tx_ok = match expect_tx {
            Some(tx) => s.pending_tx.checked_add(tx as i64).is_some(),
            None => true,
        };
        s.arrived.checked_add(count).is_some() && tx_ok
    }

    /// Whether completing `tx_count` bytes stays in range.
    pub(crate) fn completion_in_range(&self, id: MbarrierId, tx_count: u64) -> (r: bool)
        requires
            id.0 < self@.len(),
        ensures
            r == self@[id.0 as int].can_complete(tx_count),
    {
        list_at(&self.states, id.0).pending_tx.checked_sub(tx_count as i64).is_some()
    }
}

// ---------------------------------------------------------------------------
// Laws
// ---------------------------------------------------------------------------

/// An arrival completes the phase exactly when it brings the count to what is
/// expected and no transaction bytes are pending; completion flips the parity
/// and hands the phase's arrivers to the waiters.
pub proof fn arrival_completes_the_phase(b: Mbarrier, thread: ThreadId, count: u64)
    requires
        b.can_arrive(count),
    ensures
        ({
            let z = b.arrived_by(thread, count);
            if b.arrived + count >= b.expected_arrivals && b.pending_tx <= 0 {
                &&& z.parity == !b.parity
                &&& z.parity_complete(b.parity)
                &&& z.arrived == 0
                &&& z.prior_participants == b.participants.insert(thread.0 as usize)
                &&& z.participants == Set::<usize>::empty()
            } else {
                &&& z.parity == b.parity
                &&& z.prior_participants == b.prior_participants
            }
        }),
{
}

/// The thread that completes transaction bytes is not thereby a participant.
pub proof fn completing_bytes_adds_no_participant(b: Mbarrier, tx_count: u64)
    ensures
        b.tx_completed(tx_count).participants.subset_of(b.participants),
        b.tx_completed(tx_count).prior_participants == b.prior_participants || b.tx_completed(
            tx_count,
        ).prior_participants == b.participants,
{
}

/// Every phase needs the same number of arrivals.
pub proof fn expected_arrivals_never_change(
    b: Mbarrier,
    thread: ThreadId,
    count: u64,
    expect_tx: Option<u64>,
    tx_count: u64,
)
    ensures
        b.arrived_expecting(thread, count, expect_tx).expected_arrivals == b.expected_arrivals,
        b.tx_completed(tx_count).expected_arrivals == b.expected_arrivals,
{
}

} // verus!
