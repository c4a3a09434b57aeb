//! Barrier objects, stated over what happened to them: a phase completes
//! exactly when the arrivals since the last completed phase reach the expected
//! count and no transaction bytes are outstanding.

use vstd::prelude::*;

use crate::eval::ThreadId;
use crate::eval::mbarrier::Mbarrier;

verus! {

/// A call on one object.
pub enum Call {
    Arrive { thread: ThreadId, count: u64, expect_tx: Option<u64> },
    CompleteTx { tx_count: u64 },
}

impl Call {
    /// The object after the call.
    pub open spec fn applied(self, b: Mbarrier) -> Mbarrier {
        match self {
            Call::Arrive { thread, count, expect_tx } => b.arrived_expecting(
                thread,
                count,
                expect_tx,
            ),
            Call::CompleteTx { tx_count } => b.tx_completed(tx_count),
        }
    }

    /// Whether the object's counters have room for the call.
    pub open spec fn admitted(self, b: Mbarrier) -> bool {
        match self {
            Call::Arrive { thread, count, expect_tx } => b.can_arrive(count) && (
            expect_tx matches Some(tx) ==> b.can_expect(tx)),
            Call::CompleteTx { tx_count } => b.can_complete(tx_count),
        }
    }

    /// The arrivals that the call signals.
    pub open spec fn arrivals(self) -> int {
        match self {
            Call::Arrive { count, .. } => count as int,
            Call::CompleteTx { .. } => 0,
        }
    }

    /// The transaction bytes that the call expects, less those it completes.
    pub open spec fn bytes(self) -> int {
        match self {
            Call::Arrive { expect_tx: Some(tx), .. } => tx as int,
            Call::Arrive { expect_tx: None, .. } => 0,
            Call::CompleteTx { tx_count } => -(tx_count as int),
        }
    }

    /// Whether a thread arrives by the call.
    pub open spec fn is_arrival_of(self, t: usize) -> bool {
        self matches Call::Arrive { thread, .. } && thread.0 as usize == t
    }

    /// Whether the byte count of the call is that of a signed word.
    pub open spec fn plain(self) -> bool {
        -(i64::MAX as int) <= self.bytes() <= i64::MAX
    }
}

/// An object made for `n` arrivals, after some calls.
pub open spec fn replayed(n: u64, c: Seq<Call>) -> Mbarrier
    decreases c.len(),
{
    if c.len() == 0 {
        Mbarrier::initial(n)
    } else {
        c.last().applied(replayed(n, c.drop_last()))
    }
}

/// Whether every call found room, and counts bytes in signed words.
pub open spec fn admitted(n: u64, c: Seq<Call>) -> bool {
    forall|j: int|
        0 <= j < c.len() ==> (#[trigger] c[j]).plain() && c[j].admitted(replayed(n, c.take(j)))
}

/// The arrivals that the calls from `i` on signal.
pub open spec fn arrivals_since(c: Seq<Call>, i: int) -> int
    decreases c.len(),
{
    if c.len() <= i || c.len() == 0 {
        0
    } else {
        arrivals_since(c.drop_last(), i) + c.last().arrivals()
    }
}

/// All bytes expected, less all bytes completed.
pub open spec fn outstanding(c: Seq<Call>) -> int
    decreases c.len(),
{
    if c.len() == 0 {
        0
    } else {
        outstanding(c.drop_last()) + c.last().bytes()
    }
}

/// The threads that arrive by the calls from `i` up to `j`.
pub open spec fn arrivers(c: Seq<Call>, i: int, j: int) -> Set<usize> {
    Set::new(|t: usize| exists|k: int| i <= k < j && (#[trigger] c[k]).is_arrival_of(t))
}

/// The number of calls up to the last one that completed a phase.
pub open spec fn phase_start(n: u64, c: Seq<Call>) -> int
    decreases c.len(),
{
    if c.len() == 0 {
        0
    } else if arrivals_since(c, phase_start(n, c.drop_last())) >= n && outstanding(c) <= 0 {
        c.len() as int
    } else {
        phase_start(n, c.drop_last())
    }
}

/// The number of completed phases.
pub open spec fn phases(n: u64, c: Seq<Call>) -> nat
    decreases c.len(),
{
    if c.len() == 0 {
        0
    } else if phase_start(n, c) == c.len() {
        phases(n, c.drop_last()) + 1
    } else {
        phases(n, c.drop_last())
    }
}

proof fn lemma_phase_start(n: u64, c: Seq<Call>)
    ensures
        0 <= phase_start(n, c) <= c.len(),
    decreases c.len(),
{
    if c.len() > 0 {
        lemma_phase_start(n, c.drop_last());
    }
}

proof fn lemma_admitted_before(n: u64, c: Seq<Call>)
    requires
        c.len() > 0,
        admitted(n, c),
    ensures
        admitted(n, c.drop_last()),
        c.last().plain(),
        c.last().admitted(replayed(n, c.drop_last())),
{
    let d = c.drop_last();
    assert forall|j: int| 0 <= j < d.len() implies (#[trigger] d[j]).plain() && d[j].admitted(
        replayed(n, d.take(j)),
    ) by {
        assert(c[j] == d[j]);
        assert(d.take(j) =~= c.take(j));
    }
    let last = c.len() - 1;
    assert(c[last].plain());
    assert(c.take(last) =~= d);
}

/// One more call adds its own thread to the arrivers.
proof fn lemma_one_more_arriver(c: Seq<Call>, i: int)
    requires
        0 <= i < c.len(),
    ensures
        arrivers(c, i, c.len() as int) == (match c.last() {
            Call::Arrive { thread, .. } => arrivers(
                c.drop_last(),
                i,
                c.len() - 1,
            ).insert(thread.0 as usize),
            Call::CompleteTx { .. } => arrivers(c.drop_last(), i, c.len() - 1),
        }),
{
    let d = c.drop_last();
    let n = c.len() as int;
    let before = arrivers(d, i, n - 1);
    let now = arrivers(c, i, n);
    assert forall|t: usize| now.contains(t) == (before.contains(t) || c.last().is_arrival_of(t)) by {
        if now.contains(t) {
            let k = choose|k: int| i <= k < n && (#[trigger] c[k]).is_arrival_of(t);
            if k < n - 1 {
                assert(d[k].is_arrival_of(t));
            }
        }
        if before.contains(t) {
            let k = choose|k: int| i <= k < n - 1 && (#[trigger] d[k]).is_arrival_of(t);
            assert(c[k].is_arrival_of(t));
        }
        if c.last().is_arrival_of(t) {
            assert(c[n - 1].is_arrival_of(t));
        }
    }
    match c.last() {
        Call::Arrive { thread, .. } => {
            assert(now =~= before.insert(thread.0 as usize));
        },
        Call::CompleteTx { .. } => {
            assert(now =~= before);
        },
    }
}

/// What an object holds is what its calls say: the arrivals and the arriving
/// threads since the last completed phase, the outstanding bytes of all calls,
/// a parity that flips with each completed phase, and the threads that arrived
/// in the last completed one.
pub proof fn an_object_is_what_its_calls_say(n: u64, c: Seq<Call>)
    requires
        admitted(n, c),
    ensures
        ({
            let b = replayed(n, c);
            let s = phase_start(n, c);
            &&& 0 <= s <= c.len()
            &&& b.expected_arrivals == n
            &&& b.arrived == arrivals_since(c, s)
            &&& b.pending_tx == outstanding(c)
            &&& b.participants == arrivers(c, s, c.len() as int)
            &&& b.parity == (phases(n, c) % 2 == 1)
            &&& b.prior_participants == arrivers(
                c,
                if s == 0 {
                    0
                } else {
                    phase_start(n, c.take(s - 1))
                },
                s,
            )
        }),
    decreases c.len(),
{
    let s = phase_start(n, c);
    lemma_phase_start(n, c);
    if c.len() == 0 {
        assert(arrivers(c, 0, 0) =~= Set::<usize>::empty());
    } else {
        let d = c.drop_last();
        let r = phase_start(n, d);
        let a = replayed(n, d);
        let b = replayed(n, c);
        let end = c.len() as int;
        lemma_admitted_before(n, c);
        an_object_is_what_its_calls_say(n, d);
        lemma_phase_start(n, d);
        lemma_one_more_arriver(c, r);
        assert(c.take(end - 1) =~= d);
        if s == end {
            assert(b.participants == Set::<usize>::empty());
            assert(arrivers(c, end, end) =~= Set::<usize>::empty());
        } else {
            assert(s == r);
            if s > 0 {
                assert(c.take(s - 1) =~= d.take(s - 1));
            }
            let from = if s == 0 {
                0
            } else {
                phase_start(n, c.take(s - 1))
            };
            if s > 0 {
                lemma_phase_start(n, c.take(s - 1));
            }
            assert(arrivers(c, from, s) =~= arrivers(d, from, s)) by {
                assert forall|t: usize|
                    arrivers(c, from, s).contains(t) == arrivers(d, from, s).contains(t) by {
                    if arrivers(c, from, s).contains(t) {
                        let k = choose|k: int|
                            from <= k < s && (#[trigger] c[k]).is_arrival_of(t);
                        assert(d[k].is_arrival_of(t));
                    }
                    if arrivers(d, from, s).contains(t) {
                        let k = choose|k: int|
                            from <= k < s && (#[trigger] d[k]).is_arrival_of(t);
                        assert(c[k].is_arrival_of(t));
                    }
                }
            }
        }
    }
}

/// An arrival completes the phase exactly when it brings the arrivals since
/// the last completed phase to the expected count while no bytes are
/// outstanding. The parity then flips, and the waiters' participants are the
/// threads that arrived in that phase, the last one with them. Otherwise
/// neither changes.
pub proof fn an_arrival_completes_the_phase_of_its_calls(
    n: u64,
    c: Seq<Call>,
    thread: ThreadId,
    count: u64,
    expect_tx: Option<u64>,
)
    requires
        admitted(n, c.push(Call::Arrive { thread, count, expect_tx })),
    ensures
        ({
            let s = phase_start(n, c);
            let before = replayed(n, c);
            let after = before.arrived_expecting(thread, count, expect_tx);
            let more = match expect_tx {
                Some(tx) => tx as int,
                None => 0,
            };
            if arrivals_since(c, s) + count >= n && outstanding(c) + more <= 0 {
                &&& after.parity == !before.parity
                &&& after.parity_complete(before.parity)
                &&& after.prior_participants == arrivers(c, s, c.len() as int).insert(
                    thread.0 as usize,
                )
            } else {
                &&& after.parity == before.parity
                &&& after.prior_participants == before.prior_participants
            }
        }),
{
    let call = Call::Arrive { thread, count, expect_tx };
    let d = c.push(call);
    assert(d.drop_last() =~= c);
    lemma_admitted_before(n, d);
    an_object_is_what_its_calls_say(n, c);
}

// ---------------------------------------------------------------------------
// Tables
// ---------------------------------------------------------------------------

/// A call on a table.
pub enum TableCall {
    Init { expected_arrivals: u64 },
    On { id: int, call: Call },
}

/// The objects of a table after some calls.
pub open spec fn table(h: Seq<TableCall>) -> Seq<Mbarrier>
    decreases h.len(),
{
    if h.len() == 0 {
        Seq::empty()
    } else {
        let t = table(h.drop_last());
        match h.last() {
            TableCall::Init { expected_arrivals } => t.push(Mbarrier::initial(expected_arrivals)),
            TableCall::On { id, call } => t.update(id, call.applied(t[id])),
        }
    }
}

/// What each object was made for, by number.
pub open spec fn made(h: Seq<TableCall>) -> Seq<u64>
    decreases h.len(),
{
    if h.len() == 0 {
        Seq::empty()
    } else {
        match h.last() {
            TableCall::Init { expected_arrivals } => made(h.drop_last()).push(expected_arrivals),
            TableCall::On { .. } => made(h.drop_last()),
        }
    }
}

/// The calls on one object.
pub open spec fn calls_on(h: Seq<TableCall>, object: int) -> Seq<Call>
    decreases h.len(),
{
    if h.len() == 0 {
        Seq::empty()
    } else {
        match h.last() {
            TableCall::On { id, call } if id == object => calls_on(h.drop_last(), object).push(
                call,
            ),
            _ => calls_on(h.drop_last(), object),
        }
    }
}

/// Whether every call is on an object made before.
pub open spec fn on_made_objects(h: Seq<TableCall>) -> bool {
    forall|j: int|
        0 <= j < h.len() ==> ((#[trigger] h[j]) matches TableCall::On { id, .. } ==> 0 <= id
            < made(h.take(j)).len())
}

proof fn lemma_no_calls_yet(h: Seq<TableCall>, object: int)
    requires
        on_made_objects(h),
        object >= made(h).len(),
    ensures
        calls_on(h, object) == Seq::<Call>::empty(),
    decreases h.len(),
{
    if h.len() > 0 {
        lemma_made_before(h);
        lemma_no_calls_yet(h.drop_last(), object);
    }
}

proof fn lemma_made_before(h: Seq<TableCall>)
    requires
        h.len() > 0,
        on_made_objects(h),
    ensures
        on_made_objects(h.drop_last()),
        h.last() matches TableCall::On { id, .. } ==> 0 <= id < made(h.drop_last()).len(),
{
    let d = h.drop_last();
    assert forall|j: int| 0 <= j < d.len() implies ((#[trigger] d[j]) matches TableCall::On {
        id,
        ..
    } ==> 0 <= id < made(d.take(j)).len()) by {
        assert(h[j] == d[j]);
        assert(d.take(j) =~= h.take(j));
    }
    let last = h.len() - 1;
    assert(h[last] == h.last());
    assert(h.take(last) =~= d);
}

/// Each object of a table goes its own way: it is what the calls on it alone
/// have made of it, whatever happened to the others meanwhile.
pub proof fn each_object_follows_its_own_calls(h: Seq<TableCall>, object: int)
    requires
        on_made_objects(h),
        0 <= object < made(h).len(),
    ensures
        table(h).len() == made(h).len(),
        table(h)[object] == replayed(made(h)[object], calls_on(h, object)),
    decreases h.len(),
{
    lemma_table_size(h);
    if h.len() > 0 {
        let d = h.drop_last();
        lemma_made_before(h);
        lemma_table_size(d);
        if object < made(d).len() {
            each_object_follows_its_own_calls(d, object);
            match h.last() {
                TableCall::On { id, call } => {
                    if id == object {
                        let c = calls_on(d, object);
                        assert(c.push(call).drop_last() =~= c);
                    }
                },
                TableCall::Init { .. } => {},
            }
        } else {
            lemma_no_calls_yet(d, object);
        }
    }
}

proof fn lemma_table_size(h: Seq<TableCall>)
    requires
        on_made_objects(h),
    ensures
        table(h).len() == made(h).len(),
    decreases h.len(),
{
    if h.len() > 0 {
        lemma_made_before(h);
        lemma_table_size(h.drop_last());
    }
}

} // verus!
