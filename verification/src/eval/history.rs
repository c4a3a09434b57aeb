//! Races, stated over what happened: the tracker reports an access exactly
//! when an earlier conflicting access of another thread was not followed by a
//! synchronization of the two.

use vstd::prelude::*;

use crate::eval::ThreadId;
use crate::eval::error::AccessSite;
use crate::eval::race::{
    Chi, MemHazard, Proxy, RaceState, first_byte_is_first, lowest_reader,
    lowest_reader_is_lowest, read_races, reader_conflicts, write_conflict,
};
use crate::lowered::{InstrId, MemSpace};

verus! {

/// A byte of a memory space.
pub type Byte = (MemSpace, u64);

/// One accepted access or synchronization.
pub enum Event {
    Read { space: MemSpace, from: u64, to: int, thread: u32, pc: InstrId },
    Write { space: MemSpace, from: u64, to: int, thread: u32, pc: InstrId },
    /// The threads of a group synchronized.
    Group(Set<usize>),
    /// The whole block synchronized.
    Block,
}

impl Event {
    pub open spec fn reads(self, k: Byte, r: u32) -> bool {
        self matches Event::Read { space, from, to, thread, .. } && space == k.0 && from <= k.1 < to
            && thread == r
    }

    pub open spec fn writes(self, k: Byte) -> bool {
        self matches Event::Write { space, from, to, .. } && space == k.0 && from <= k.1 < to
    }

    /// The thread of an access.
    pub open spec fn actor(self) -> u32 {
        match self {
            Event::Read { thread, .. } => thread,
            Event::Write { thread, .. } => thread,
            _ => 0,
        }
    }

    /// The instruction of an access.
    pub open spec fn site(self) -> InstrId {
        match self {
            Event::Read { pc, .. } => pc,
            Event::Write { pc, .. } => pc,
            _ => InstrId(0),
        }
    }

    /// Whether two threads synchronized.
    pub open spec fn orders(self, a: usize, b: usize) -> bool {
        match self {
            Event::Group(g) => g.contains(a) && g.contains(b),
            Event::Block => true,
            _ => false,
        }
    }
}

/// The state of the tracker after one more event.
pub open spec fn after(s: RaceState, e: Event) -> RaceState {
    match e {
        Event::Read { space, from, to, thread, pc } => s.mark_read(space, from, to, thread, pc),
        Event::Write { space, from, to, thread, pc } => s.mark_written(
            space,
            from,
            to,
            thread,
            pc,
        ),
        Event::Group(g) => s.synced_group(g),
        Event::Block => s.synced_all(),
    }
}

/// The state of a tracker of `n` threads after a history.
pub open spec fn replayed(n: usize, h: Seq<Event>) -> RaceState
    decreases h.len(),
{
    if h.len() == 0 {
        RaceState::initial(n)
    } else {
        after(replayed(n, h.drop_last()), h.last())
    }
}

/// Whether the thread of access `i` and thread `t` did not synchronize since.
pub open spec fn unordered(h: Seq<Event>, i: int, t: usize) -> bool {
    forall|j: int| i < j < h.len() ==> !(#[trigger] h[j]).orders(h[i].actor() as usize, t)
}

/// The last write of a byte.
pub open spec fn last_write(h: Seq<Event>, k: Byte) -> Option<int>
    decreases h.len(),
{
    if h.len() == 0 {
        None
    } else if h.last().writes(k) {
        Some(h.len() - 1)
    } else {
        last_write(h.drop_last(), k)
    }
}

/// A thread's last read of a byte.
pub open spec fn last_read(h: Seq<Event>, k: Byte, r: u32) -> Option<int>
    decreases h.len(),
{
    if h.len() == 0 {
        None
    } else if h.last().reads(k, r) {
        Some(h.len() - 1)
    } else {
        last_read(h.drop_last(), k, r)
    }
}

/// Whether a read of byte `k` by thread `t` races with its last write.
pub open spec fn races_with_write(h: Seq<Event>, k: Byte, t: u32) -> bool {
    last_write(h, k) matches Some(i) && h[i].actor() != t && unordered(h, i, t as usize)
}

/// Whether a write of byte `k` by thread `t` races with the read at `i`.
pub open spec fn races_with_read(h: Seq<Event>, k: Byte, t: u32, i: int) -> bool {
    0 <= i < h.len() && h[i].reads(k, h[i].actor()) && h[i].actor() != t && unordered(
        h,
        i,
        t as usize,
    )
}

// ---------------------------------------------------------------------------
// What the tracker knows of a history
// ---------------------------------------------------------------------------

/// A recorded access stands for access `i`: it is pending on exactly the
/// threads that did not synchronize with it; if it is not recorded, there are
/// none.
spec fn stands_for(p: Option<Set<usize>>, h: Seq<Event>, i: int, n: usize) -> bool {
    match p {
        Some(set) => forall|t: usize|
            (#[trigger] set.contains(t)) == (t < n && unordered(h, i, t)),
        None => forall|t: usize| t < n ==> !#[trigger] unordered(h, i, t),
    }
}

spec fn write_of(c: Chi) -> Option<Set<usize>> {
    match c.wr {
        Some((_, pending, _)) => Some(pending),
        None => None,
    }
}

spec fn read_of(c: Chi, r: u32) -> Option<Set<usize>> {
    if c.rd.contains_key(r) {
        Some(c.rd[r].0)
    } else {
        None
    }
}

spec fn knows_write(c: Chi, h: Seq<Event>, k: Byte, n: usize) -> bool {
    match last_write(h, k) {
        None => c.wr is None,
        Some(i) => (c.wr matches Some((w, _, pc)) ==> w == h[i].actor() && pc == h[i].site())
            && stands_for(
            write_of(c),
            h,
            i,
            n,
        ),
    }
}

spec fn knows_read(c: Chi, h: Seq<Event>, k: Byte, r: u32, n: usize) -> bool {
    match last_read(h, k, r) {
        None => !c.rd.contains_key(r),
        Some(i) => h[i].actor() == r && (c.rd.contains_key(r) ==> c.rd[r].1 == h[i].site())
            && stands_for(read_of(c, r), h, i, n),
    }
}

proof fn lemma_index_range(h: Seq<Event>, k: Byte, r: u32)
    ensures
        last_write(h, k) matches Some(i) ==> 0 <= i < h.len() && h[i].writes(k),
        last_read(h, k, r) matches Some(i) ==> 0 <= i < h.len() && h[i].reads(k, r),
    decreases h.len(),
{
    if h.len() > 0 {
        lemma_index_range(h.drop_last(), k, r);
    }
}

/// One more event orders a thread against access `i`, or nothing changes.
proof fn lemma_one_more(h: Seq<Event>, i: int, t: usize)
    requires
        0 <= i < h.len() - 1,
    ensures
        unordered(h, i, t) <==> unordered(h.drop_last(), i, t) && !h.last().orders(
            h[i].actor() as usize,
            t,
        ),
{
    let g = h.drop_last();
    if unordered(h, i, t) {
        assert forall|j: int| i < j < g.len() implies !(#[trigger] g[j]).orders(
            g[i].actor() as usize,
            t,
        ) by {
            assert(h[j] == g[j]);
        }
        assert(!h[h.len() - 1].orders(h[i].actor() as usize, t));
    }
    if unordered(g, i, t) && !h.last().orders(h[i].actor() as usize, t) {
        assert forall|j: int| i < j < h.len() implies !(#[trigger] h[j]).orders(
            h[i].actor() as usize,
            t,
        ) by {
            if j < g.len() {
                assert(g[j] == h[j]);
            }
        }
    }
}

/// The pending set of access `i` once the last event happened.
proof fn lemma_stands_for(
    p: Option<Set<usize>>,
    q: Option<Set<usize>>,
    h: Seq<Event>,
    i: int,
    n: usize,
)
    requires
        0 <= i < h.len() - 1,
        stands_for(p, h.drop_last(), i, n),
        match h.last() {
            Event::Group(g) => if g.contains(h[i].actor() as usize) {
                q == (match p {
                    Some(s) => if s.difference(g) == Set::<usize>::empty() {
                        None
                    } else {
                        Some(s.difference(g))
                    },
                    None => None,
                })
            } else {
                q == p
            },
            Event::Block => q is None,
            _ => q == p,
        },
    ensures
        stands_for(q, h, i, n),
{
    assert forall|t: usize|
        unordered(h, i, t) == (unordered(h.drop_last(), i, t) && !h.last().orders(
            h[i].actor() as usize,
            t,
        )) by {
        lemma_one_more(h, i, t);
    }
    match q {
        Some(set) => {
            assert forall|t: usize| #[trigger] set.contains(t) <==> t < n && unordered(h, i, t) by {
                match p {
                    Some(s) => {
                        assert(s.contains(t) <==> t < n && unordered(h.drop_last(), i, t));
                    },
                    None => {},
                }
            }
        },
        None => {
            assert forall|t: usize| t < n implies !#[trigger] unordered(h, i, t) by {
                match p {
                    Some(s) => {
                        assert(s.contains(t) <==> t < n && unordered(h.drop_last(), i, t));
                        if let Event::Group(g) = h.last() {
                            assert(s.difference(g).contains(t) <==> s.contains(t) && !g.contains(
                                t,
                            ));
                            assert(!Set::<usize>::empty().contains(t));
                        }
                    },
                    None => {
                        assert(!unordered(h.drop_last(), i, t));
                    },
                }
            }
        },
    }
}

proof fn lemma_pending(set: Set<usize>, h: Seq<Event>, i: int, n: usize, t: usize)
    requires
        stands_for(Some(set), h, i, n),
    ensures
        set.contains(t) <==> t < n && unordered(h, i, t),
{
    let p = Some(set);
    assert(p->0 == set);
    assert(set.contains(t) == (t < n && unordered(h, i, t)));
}

proof fn lemma_knows(n: usize, h: Seq<Event>, k: Byte, r: u32)
    ensures
        knows_write(replayed(n, h).chi[k], h, k, n),
        knows_read(replayed(n, h).chi[k], h, k, r, n),
        replayed(n, h).n_threads == n,
    decreases h.len(),
{
    if h.len() > 0 {
        let g = h.drop_last();
        lemma_knows(n, g, k, r);
        lemma_index_range(g, k, r);
        lemma_index_range(h, k, r);
        let (c, d) = (replayed(n, g).chi[k], replayed(n, h).chi[k]);
        let e = h.last();
        match last_write(h, k) {
            Some(i) => {
                if i < h.len() - 1 {
                    assert(h[i] == g[i]);
                    lemma_stands_for(write_of(c), write_of(d), h, i, n);
                }
            },
            None => {},
        }
        match last_read(h, k, r) {
            Some(i) => {
                if i < h.len() - 1 {
                    assert(h[i] == g[i]);
                    lemma_stands_for(read_of(c, r), read_of(d, r), h, i, n);
                }
            },
            None => {},
        }
    }
}

// ---------------------------------------------------------------------------
// Laws
// ---------------------------------------------------------------------------

/// An access that meets no hazard is recorded, and nothing else changes.
pub proof fn accepted_accesses_are_recorded(
    s: RaceState,
    space: MemSpace,
    addr: u64,
    width: u64,
    t: ThreadId,
    pc: InstrId,
    proxy: Proxy,
    same_value: bool,
)
    ensures
        s.read_hazard(space, addr, width, t, pc, proxy) is None ==> s.after_read(
            space,
            addr,
            width,
            t,
            pc,
            proxy,
        ) == after(s, (Event::Read { space, from: addr, to: addr + width, thread: t.0, pc })),
        s.write_hazard(space, addr, width, t, pc, same_value) is None ==> s.after_write(
            space,
            addr,
            width,
            t,
            pc,
            same_value,
        ) == after(s, (Event::Write { space, from: addr, to: addr + width, thread: t.0, pc })),
{
}

/// A read is found to race with a byte's last write exactly when another
/// thread wrote it and the two did not synchronize since.
pub proof fn read_races_are_exact(n: usize, h: Seq<Event>, k: Byte, t: u32)
    requires
        t < n,
    ensures
        read_races(replayed(n, h).chi[k], t) <==> races_with_write(h, k, t),
{
    lemma_knows(n, h, k, t);
    match last_write(h, k) {
        Some(i) => {
            match replayed(n, h).chi[k].wr {
                Some((w, pending, _)) => {
                    assert(stands_for(Some(pending), h, i, n));
                    lemma_pending(pending, h, i, n, t as usize);
                },
                None => {
                    assert(!unordered(h, i, t as usize));
                },
            }
        },
        None => {},
    }
}

proof fn lemma_later_read(h: Seq<Event>, k: Byte, r: u32, i: int, t: usize)
    requires
        0 <= i < h.len(),
        h[i].reads(k, r),
        unordered(h, i, t),
    ensures
        last_read(h, k, r) matches Some(j) && i <= j < h.len() && h[j].actor() == r && unordered(
            h,
            j,
            t,
        ),
    decreases h.len(),
{
    if h.last().reads(k, r) {
    } else {
        let g = h.drop_last();
        assert(i < h.len() - 1);
        lemma_one_more(h, i, t);
        assert(g[i] == h[i]);
        lemma_later_read(g, k, r, i, t);
        let j = last_read(h, k, r)->0;
        assert(g[j] == h[j]);
        lemma_one_more(h, j, t);
    }
}

/// A write is found to race exactly when another thread read the byte, or
/// wrote it last, and the two did not synchronize since.
pub proof fn write_races_are_exact(n: usize, h: Seq<Event>, k: Byte, t: u32)
    requires
        t < n,
    ensures
        write_conflict(replayed(n, h).chi[k], t, false) is Some <==> (exists|i: int|
            #[trigger] races_with_read(h, k, t, i)) || races_with_write(h, k, t),
{
    let c = replayed(n, h).chi[k];
    read_races_are_exact(n, h, k, t);
    if exists|r: u32| reader_conflicts(c, t, r) {
        let r = choose|r: u32| reader_conflicts(c, t, r);
        lemma_knows(n, h, k, r);
        lemma_index_range(h, k, r);
        let i = last_read(h, k, r)->0;
        assert(stands_for(Some(c.rd[r].0), h, i, n));
        lemma_pending(c.rd[r].0, h, i, n, t as usize);
        assert(races_with_read(h, k, t, i));
    }
    if exists|i: int| #[trigger] races_with_read(h, k, t, i) {
        let i = choose|i: int| #[trigger] races_with_read(h, k, t, i);
        let r = h[i].actor();
        lemma_later_read(h, k, r, i, t as usize);
        lemma_knows(n, h, k, r);
        let j = last_read(h, k, r)->0;
        assert(unordered(h, j, t as usize));
        if c.rd.contains_key(r) {
            assert(stands_for(Some(c.rd[r].0), h, j, n));
            lemma_pending(c.rd[r].0, h, j, n, t as usize);
        }
        assert(reader_conflicts(c, t, r));
    }
}

/// A read of several bytes is reported exactly when it races on one of them.
pub proof fn a_racing_read_is_reported(
    n: usize,
    h: Seq<Event>,
    space: MemSpace,
    addr: u64,
    width: u64,
    t: u32,
)
    requires
        t < n,
        addr + width <= u64::MAX,
    ensures
        replayed(n, h).first_read_race(space, addr, width, t) is Some <==> exists|b: u64|
            addr <= b < addr + width && #[trigger] races_with_write(h, (space, b), t),
{
    let s = replayed(n, h);
    let p = |b: u64| read_races(s.chi[(space, b)], t);
    first_byte_is_first(addr as int, addr + width, p);
    assert forall|b: u64| #[trigger] p(b) == races_with_write(h, (space, b), t) by {
        read_races_are_exact(n, h, (space, b), t);
    }
    if let Some(b) = s.first_read_race(space, addr, width, t) {
        assert(p(b));
        assert(races_with_write(h, (space, b), t));
    } else {
        assert forall|b: u64| addr <= b < addr + width implies !#[trigger] races_with_write(
            h,
            (space, b),
            t,
        ) by {
            assert(!p(b));
        }
    }
}

/// A write of several bytes is reported exactly when it races on one of them.
pub proof fn a_racing_write_is_reported(
    n: usize,
    h: Seq<Event>,
    space: MemSpace,
    addr: u64,
    width: u64,
    t: u32,
)
    requires
        t < n,
        addr + width <= u64::MAX,
    ensures
        replayed(n, h).first_write_race(space, addr, width, t, false) is Some <==> exists|b: u64|
            addr <= b < addr + width && #[trigger] races_on_write(h, (space, b), t),
{
    let s = replayed(n, h);
    let p = |b: u64| write_conflict(s.chi[(space, b)], t, false) is Some;
    first_byte_is_first(addr as int, addr + width, p);
    assert forall|b: u64| #[trigger] p(b) == races_on_write(h, (space, b), t) by {
        write_races_are_exact(n, h, (space, b), t);
    }
    if let Some(b) = s.first_write_race(space, addr, width, t, false) {
        assert(p(b));
        assert(races_on_write(h, (space, b), t));
    } else {
        assert forall|b: u64| addr <= b < addr + width implies !#[trigger] races_on_write(
            h,
            (space, b),
            t,
        ) by {
            assert(!p(b));
        }
    }
}

/// Whether a write of byte `k` by thread `t` races with an earlier access.
pub open spec fn races_on_write(h: Seq<Event>, k: Byte, t: u32) -> bool {
    (exists|i: int| #[trigger] races_with_read(h, k, t, i)) || races_with_write(h, k, t)
}

/// Whether thread `r` read byte `k` and has not synchronized with `t` since.
pub open spec fn conflicting_reader(h: Seq<Event>, k: Byte, t: u32, r: u32) -> bool {
    r != t && exists|i: int|
        0 <= i < h.len() && (#[trigger] h[i]).reads(k, r) && unordered(h, i, t as usize)
}

/// Whether a write of byte `k` by thread `t` races: with a reader, or with the
/// last writer unless the write stores what is there already.
pub open spec fn races_on_store(h: Seq<Event>, k: Byte, t: u32, same_value: bool) -> bool {
    (exists|r: u32| #[trigger] conflicting_reader(h, k, t, r)) || (!same_value
        && races_with_write(h, k, t))
}

/// Whether `p` is the access that a racing write of byte `k` is held against:
/// the last read of the lowest-numbered conflicting reader, else the last
/// write.
pub open spec fn is_held_against(h: Seq<Event>, k: Byte, t: u32, p: AccessSite) -> bool {
    if exists|r: u32| #[trigger] conflicting_reader(h, k, t, r) {
        &&& !p.is_write
        &&& conflicting_reader(h, k, t, p.thread.0)
        &&& forall|q: u32| #[trigger] conflicting_reader(h, k, t, q) ==> p.thread.0 <= q
        &&& last_read(h, k, p.thread.0) matches Some(i) && p.pc == h[i].site()
    } else {
        p.is_write && (last_write(h, k) matches Some(i) && p.thread.0 == h[i].actor() && p.pc
            == h[i].site())
    }
}

proof fn lemma_conflicting_reader(n: usize, h: Seq<Event>, k: Byte, t: u32, r: u32)
    requires
        t < n,
    ensures
        reader_conflicts(replayed(n, h).chi[k], t, r) <==> conflicting_reader(h, k, t, r),
        reader_conflicts(replayed(n, h).chi[k], t, r) ==> (last_read(h, k, r) matches Some(i)
            && replayed(n, h).chi[k].rd[r].1 == h[i].site()),
{
    let c = replayed(n, h).chi[k];
    lemma_knows(n, h, k, r);
    lemma_index_range(h, k, r);
    if reader_conflicts(c, t, r) {
        let i = last_read(h, k, r)->0;
        assert(stands_for(Some(c.rd[r].0), h, i, n));
        lemma_pending(c.rd[r].0, h, i, n, t as usize);
        assert(h[i].reads(k, r));
    }
    if conflicting_reader(h, k, t, r) {
        let i = choose|i: int|
            0 <= i < h.len() && (#[trigger] h[i]).reads(k, r) && unordered(h, i, t as usize);
        lemma_later_read(h, k, r, i, t as usize);
        let j = last_read(h, k, r)->0;
        assert(unordered(h, j, t as usize));
        if c.rd.contains_key(r) {
            assert(stands_for(Some(c.rd[r].0), h, j, n));
            lemma_pending(c.rd[r].0, h, j, n, t as usize);
        }
    }
}

proof fn lemma_store_races(n: usize, h: Seq<Event>, k: Byte, t: u32, same_value: bool)
    requires
        t < n,
    ensures
        write_conflict(replayed(n, h).chi[k], t, same_value) is Some <==> races_on_store(
            h,
            k,
            t,
            same_value,
        ),
        write_conflict(replayed(n, h).chi[k], t, same_value) matches Some(p) ==> is_held_against(
            h,
            k,
            t,
            p,
        ),
{
    let c = replayed(n, h).chi[k];
    read_races_are_exact(n, h, k, t);
    lowest_reader_is_lowest(c, t);
    assert forall|r: u32| reader_conflicts(c, t, r) == #[trigger] conflicting_reader(
        h,
        k,
        t,
        r,
    ) by {
        lemma_conflicting_reader(n, h, k, t, r);
    }
    match lowest_reader(c, t) {
        Some(r) => {
            lemma_conflicting_reader(n, h, k, t, r);
            assert(conflicting_reader(h, k, t, r));
        },
        None => {
            assert forall|r: u32| !#[trigger] conflicting_reader(h, k, t, r) by {
                assert(!reader_conflicts(c, t, r));
            }
            lemma_knows(n, h, k, t);
        },
    }
}

/// A write that no copy lock and no unfenced mark stops is refused exactly
/// when it races on one of its bytes. The report names the lowest such byte,
/// the write itself, and the access it is held against. A store of the value
/// already there races with readers only.
pub proof fn write_reports_are_exact(
    n: usize,
    h: Seq<Event>,
    s: RaceState,
    space: MemSpace,
    addr: u64,
    width: u64,
    thread: ThreadId,
    pc: InstrId,
    same_value: bool,
)
    requires
        thread.0 < n,
        addr + width <= u64::MAX,
        s.chi == replayed(n, h).chi,
        s.write_pre_hazard(
            space,
            addr,
            width,
            (AccessSite { thread, pc, is_write: true }),
        ) is None,
    ensures
        match s.write_hazard(space, addr, width, thread, pc, same_value) {
            None => forall|b: u64|
                addr <= b < addr + width ==> !#[trigger] races_on_store(
                    h,
                    (space, b),
                    thread.0,
                    same_value,
                ),
            Some(MemHazard::Race(i)) => {
                &&& i.space == space
                &&& addr <= i.addr < addr + width
                &&& races_on_store(h, (space, i.addr), thread.0, same_value)
                &&& forall|b: u64|
                    addr <= b < i.addr ==> !#[trigger] races_on_store(
                        h,
                        (space, b),
                        thread.0,
                        same_value,
                    )
                &&& i.current == (AccessSite { thread, pc, is_write: true })
                &&& is_held_against(h, (space, i.addr), thread.0, i.prior)
            },
            Some(_) => false,
        },
{
    let t = thread.0;
    let p = |b: u64| write_conflict(s.chi[(space, b)], t, same_value) is Some;
    first_byte_is_first(addr as int, addr + width, p);
    assert forall|b: u64| #[trigger] p(b) == races_on_store(h, (space, b), t, same_value) by {
        lemma_store_races(n, h, (space, b), t, same_value);
    }
    match s.first_write_race(space, addr, width, t, same_value) {
        Some(b) => {
            assert(p(b));
            lemma_store_races(n, h, (space, b), t, same_value);
            assert forall|q: u64| addr <= q < b implies !#[trigger] races_on_store(
                h,
                (space, q),
                t,
                same_value,
            ) by {
                assert(!p(q));
            }
        },
        None => {
            assert forall|q: u64| addr <= q < addr + width implies !#[trigger] races_on_store(
                h,
                (space, q),
                t,
                same_value,
            ) by {
                assert(!p(q));
            }
        },
    }
}

/// A read that no copy lock and no unfenced mark stops is refused exactly when
/// it races with the last write of one of its bytes. The report names the
/// lowest such byte, that write, and the read itself.
pub proof fn read_reports_are_exact(
    n: usize,
    h: Seq<Event>,
    s: RaceState,
    space: MemSpace,
    addr: u64,
    width: u64,
    thread: ThreadId,
    pc: InstrId,
    proxy: Proxy,
)
    requires
        thread.0 < n,
        addr + width <= u64::MAX,
        s.chi == replayed(n, h).chi,
        s.read_pre_hazard(
            space,
            addr,
            width,
            (AccessSite { thread, pc, is_write: false }),
            proxy,
        ) is None,
    ensures
        match s.read_hazard(space, addr, width, thread, pc, proxy) {
            None => forall|b: u64|
                addr <= b < addr + width ==> !#[trigger] races_with_write(
                    h,
                    (space, b),
                    thread.0,
                ),
            Some(MemHazard::Race(i)) => {
                &&& i.space == space
                &&& addr <= i.addr < addr + width
                &&& races_with_write(h, (space, i.addr), thread.0)
                &&& forall|b: u64|
                    addr <= b < i.addr ==> !#[trigger] races_with_write(h, (space, b), thread.0)
                &&& i.current == (AccessSite { thread, pc, is_write: false })
                &&& i.prior.is_write
                &&& last_write(h, (space, i.addr)) matches Some(j) && i.prior.thread.0
                    == h[j].actor() && i.prior.pc == h[j].site()
            },
            Some(_) => false,
        },
{
    let t = thread.0;
    let p = |b: u64| read_races(s.chi[(space, b)], t);
    first_byte_is_first(addr as int, addr + width, p);
    assert forall|b: u64| #[trigger] p(b) == races_with_write(h, (space, b), t) by {
        read_races_are_exact(n, h, (space, b), t);
    }
    match s.first_read_race(space, addr, width, t) {
        Some(b) => {
            assert(p(b));
            lemma_knows(n, h, (space, b), t);
            assert forall|q: u64| addr <= q < b implies !#[trigger] races_with_write(
                h,
                (space, q),
                t,
            ) by {
                assert(!p(q));
            }
        },
        None => {
            assert forall|q: u64| addr <= q < addr + width implies !#[trigger] races_with_write(
                h,
                (space, q),
                t,
            ) by {
                assert(!p(q));
            }
        },
    }
}

// ---------------------------------------------------------------------------
// The order of events
// ---------------------------------------------------------------------------

/// Whether an event accesses a byte.
pub open spec fn accesses(e: Event, k: Byte) -> bool {
    e.writes(k) || e.reads(k, e.actor())
}

/// Whether an access races on byte `k` in a state of the tracker.
pub open spec fn races_in(s: RaceState, e: Event, k: Byte) -> bool {
    &&& accesses(e, k)
    &&& match e {
        Event::Write { thread, .. } => write_conflict(s.chi[k], thread, false) is Some,
        _ => read_races(s.chi[k], e.actor()),
    }
}

/// Two accesses of different threads that meet on a byte, one of them a
/// write, race there whichever of them comes first.
pub proof fn a_conflict_is_found_in_either_order(s: RaceState, e: Event, f: Event, k: Byte)
    requires
        accesses(e, k),
        accesses(f, k),
        e.writes(k) || f.writes(k),
        e.actor() != f.actor(),
        e.actor() < s.n_threads,
        f.actor() < s.n_threads,
    ensures
        races_in(after(s, e), f, k),
        races_in(after(s, f), e, k),
{
    lemma_second_races(s, e, f, k);
    lemma_second_races(s, f, e, k);
}

proof fn lemma_second_races(s: RaceState, e: Event, f: Event, k: Byte)
    requires
        accesses(e, k),
        accesses(f, k),
        e.writes(k) || f.writes(k),
        e.actor() != f.actor(),
        f.actor() < s.n_threads,
    ensures
        races_in(after(s, e), f, k),
{
    let c = after(s, e).chi[k];
    if e.writes(k) {
        assert(read_races(c, f.actor()));
    } else {
        assert(reader_conflicts(c, f.actor(), e.actor()));
    }
}

/// Whether a thread takes part in an event.
pub open spec fn takes_part(e: Event, t: usize) -> bool {
    match e {
        Event::Read { thread, .. } => thread as usize == t,
        Event::Write { thread, .. } => thread as usize == t,
        Event::Group(g) => g.contains(t),
        Event::Block => true,
    }
}

/// Whether no thread takes part in both of two events.
pub open spec fn apart(e: Event, f: Event) -> bool {
    forall|t: usize| !(#[trigger] takes_part(e, t) && takes_part(f, t))
}

/// Whether two events have no thread in common and neither writes a byte
/// that the other accesses.
pub open spec fn independent(e: Event, f: Event) -> bool {
    &&& apart(e, f)
    &&& forall|k: Byte| #[trigger]
        accesses(e, k) && accesses(f, k) ==> !e.writes(k) && !f.writes(k)
}

proof fn lemma_symmetric(e: Event, f: Event)
    ensures
        apart(e, f) ==> apart(f, e),
        independent(e, f) ==> independent(f, e),
{
    if apart(e, f) {
        assert forall|t: usize| !(#[trigger] takes_part(f, t) && takes_part(e, t)) by {
            assert(!(takes_part(e, t) && takes_part(f, t)));
        }
    }
    if independent(e, f) {
        assert forall|k: Byte| #[trigger] accesses(f, k) && accesses(e, k) implies !f.writes(k)
            && !e.writes(k) by {
            assert(accesses(e, k) && accesses(f, k));
        }
    }
}

proof fn lemma_threads_differ(e: Event, f: Event)
    requires
        apart(e, f),
        e is Read || e is Write,
    ensures
        f is Read || f is Write ==> e.actor() != f.actor(),
        f matches Event::Group(g) ==> !g.contains(e.actor() as usize),
        f !is Block,
{
    assert(takes_part(e, e.actor() as usize));
}

/// Two independent events leave the same state in either order.
pub proof fn independent_events_commute(s: RaceState, e: Event, f: Event)
    requires
        independent(e, f),
    ensures
        after(after(s, e), f) == after(after(s, f), e),
{
    lemma_symmetric(e, f);
    match (e, f) {
        (Event::Group(g), Event::Group(k)) => {
            lemma_groups_commute(s, g, k);
        },
        (Event::Group(g), Event::Block) => {
            assert(g =~= Set::<usize>::empty()) by {
                assert forall|t: usize| !g.contains(t) by {
                    assert(!(takes_part(e, t) && takes_part(f, t)));
                }
            }
            lemma_empty_group(s, g);
            lemma_empty_group(s.synced_all(), g);
        },
        (Event::Block, Event::Group(g)) => {
            assert(g =~= Set::<usize>::empty()) by {
                assert forall|t: usize| !g.contains(t) by {
                    assert(!(takes_part(e, t) && takes_part(f, t)));
                }
            }
            lemma_empty_group(s, g);
            lemma_empty_group(s.synced_all(), g);
        },
        (Event::Block, Event::Block) => {},
        (Event::Group(g), _) => {
            lemma_threads_differ(f, e);
            lemma_group_commutes(s, f, g);
        },
        (_, Event::Group(g)) => {
            lemma_threads_differ(e, f);
            lemma_group_commutes(s, e, g);
        },
        (Event::Block, _) => {
            lemma_threads_differ(f, e);
        },
        (_, Event::Block) => {
            lemma_threads_differ(e, f);
        },
        _ => {
            lemma_threads_differ(e, f);
            lemma_accesses_commute(s, e, f);
        },
    }
}

proof fn lemma_accesses_commute(s: RaceState, e: Event, f: Event)
    requires
        e is Read || e is Write,
        f is Read || f is Write,
        e.actor() != f.actor(),
        independent(e, f),
    ensures
        after(after(s, e), f) == after(after(s, f), e),
{
    let a = after(after(s, e), f);
    let b = after(after(s, f), e);
    assert forall|k: Byte| a.chi[k] == b.chi[k] by {
        assert(accesses(e, k) ==> !accesses(f, k) || (!e.writes(k) && !f.writes(k)));
        assert(a.chi[k].rd =~= b.chi[k].rd);
    }
    assert(a.chi =~= b.chi);
}

/// A group without the thread of an access leaves that access as it is.
proof fn lemma_group_commutes(s: RaceState, e: Event, g: Set<usize>)
    requires
        e is Read || e is Write,
        !g.contains(e.actor() as usize),
    ensures
        after(s.synced_group(g), e) == after(s, e).synced_group(g),
{
    let a = after(s.synced_group(g), e);
    let b = after(s, e).synced_group(g);
    assert forall|k: Byte| a.chi[k] == b.chi[k] by {
        assert(a.chi[k].rd =~= b.chi[k].rd);
        assert(a.chi[k].wr == b.chi[k].wr);
    }
    assert(a.chi =~= b.chi);
}

/// Groups without a common thread concern different accesses.
proof fn lemma_groups_commute(s: RaceState, g: Set<usize>, h: Set<usize>)
    requires
        apart(Event::Group(g), Event::Group(h)),
    ensures
        s.synced_group(g).synced_group(h) == s.synced_group(h).synced_group(g),
{
    let a = s.synced_group(g).synced_group(h);
    let b = s.synced_group(h).synced_group(g);
    assert forall|t: usize| !(g.contains(t) && #[trigger] h.contains(t)) by {
        assert(!(takes_part(Event::Group(g), t) && takes_part(Event::Group(h), t)));
    }
    assert forall|k: Byte| a.chi[k] == b.chi[k] by {
        assert(a.chi[k].rd =~= b.chi[k].rd);
        assert(a.chi[k].wr == b.chi[k].wr);
    }
    assert(a.chi =~= b.chi);
}

proof fn lemma_empty_group(s: RaceState, g: Set<usize>)
    requires
        g == Set::<usize>::empty(),
    ensures
        forall|k: Byte| #[trigger] s.synced_group(g).chi[k] == s.chi[k],
{
    assert forall|k: Byte| #[trigger] s.synced_group(g).chi[k] == s.chi[k] by {
        assert(s.synced_group(g).chi[k].rd =~= s.chi[k].rd);
        assert(s.synced_group(g).chi[k].wr == s.chi[k].wr);
    }
}

/// Whether event `j` of a history of `n` threads is an access that races.
pub open spec fn racy_at(n: usize, h: Seq<Event>, j: int) -> bool {
    0 <= j < h.len() && exists|k: Byte| #[trigger] races_in(replayed(n, h.take(j)), h[j], k)
}

/// Whether some access of a history races.
pub open spec fn racy(n: usize, h: Seq<Event>) -> bool {
    exists|j: int| #[trigger] racy_at(n, h, j)
}

/// A history with its events `i` and `i + 1` in the other order.
pub open spec fn swapped(h: Seq<Event>, i: int) -> Seq<Event> {
    h.update(i, h[i + 1]).update(i + 1, h[i])
}

proof fn lemma_replayed_step(n: usize, h: Seq<Event>, j: int)
    requires
        0 <= j < h.len(),
    ensures
        replayed(n, h.take(j + 1)) == after(replayed(n, h.take(j)), h[j]),
{
    assert(h.take(j + 1).drop_last() =~= h.take(j));
    assert(h.take(j + 1).last() == h[j]);
}

proof fn lemma_swapped_replay(n: usize, h: Seq<Event>, i: int, j: int)
    requires
        0 <= i < h.len() - 1,
        independent(h[i], h[i + 1]),
        0 <= j <= h.len(),
        j != i + 1,
    ensures
        replayed(n, swapped(h, i).take(j)) == replayed(n, h.take(j)),
    decreases j,
{
    let g = swapped(h, i);
    if j <= i {
        assert(g.take(j) =~= h.take(j));
    } else if j == i + 2 {
        assert(g.take(i) =~= h.take(i));
        lemma_replayed_step(n, h, i);
        lemma_replayed_step(n, h, i + 1);
        lemma_replayed_step(n, g, i);
        lemma_replayed_step(n, g, i + 1);
        independent_events_commute(replayed(n, h.take(i)), h[i], h[i + 1]);
    } else {
        lemma_swapped_replay(n, h, i, j - 1);
        lemma_replayed_step(n, h, j - 1);
        lemma_replayed_step(n, g, j - 1);
    }
}

/// An independent event neither adds nor removes a race of an access.
proof fn lemma_races_stay(s: RaceState, e: Event, f: Event, k: Byte)
    requires
        independent(e, f),
    ensures
        races_in(after(s, f), e, k) == races_in(s, e, k),
{
    if accesses(e, k) {
        assert(accesses(f, k) ==> !e.writes(k) && !f.writes(k));
        lemma_threads_differ(e, f);
        let c = s.chi[k];
        let d = after(s, f).chi[k];
        match f {
            Event::Group(g) => {
                let t = e.actor();
                assert(read_races(d, t) == read_races(c, t)) by {
                    if let Some((w, pending, _)) = c.wr {
                        if pending.contains(t as usize) {
                            assert(pending.difference(g).contains(t as usize));
                            assert(!Set::<usize>::empty().contains(t as usize));
                        }
                    }
                }
                assert forall|r: u32| reader_conflicts(d, t, r) == #[trigger] reader_conflicts(
                    c,
                    t,
                    r,
                ) by {
                    if reader_conflicts(c, t, r) {
                        assert(c.rd[r].0.difference(g).contains(t as usize));
                        assert(!Set::<usize>::empty().contains(t as usize));
                    }
                }
                assert(lowest_reader(c, t) is Some == lowest_reader(d, t) is Some) by {
                    if exists|r: u32| reader_conflicts(c, t, r) {
                        let r = choose|r: u32| reader_conflicts(c, t, r);
                        assert(reader_conflicts(d, t, r));
                    }
                    if exists|r: u32| reader_conflicts(d, t, r) {
                        let r = choose|r: u32| reader_conflicts(d, t, r);
                        assert(reader_conflicts(c, t, r));
                    }
                }
            },
            _ => {
                assert(d.wr == c.wr);
                if !accesses(f, k) {
                    assert(d == c);
                }
            },
        }
    }
}

proof fn lemma_race_survives_swap(n: usize, h: Seq<Event>, i: int)
    requires
        0 <= i < h.len() - 1,
        independent(h[i], h[i + 1]),
        racy(n, h),
    ensures
        racy(n, swapped(h, i)),
{
    let g = swapped(h, i);
    let j = choose|j: int| #[trigger] racy_at(n, h, j);
    let k = choose|k: Byte| #[trigger] races_in(replayed(n, h.take(j)), h[j], k);
    let s = replayed(n, h.take(i));
    assert(g.take(i) =~= h.take(i));
    lemma_replayed_step(n, h, i);
    lemma_replayed_step(n, g, i);
    if j == i {
        lemma_races_stay(s, h[i], h[i + 1], k);
        assert(races_in(replayed(n, g.take(i + 1)), g[i + 1], k));
        assert(racy_at(n, g, i + 1));
    } else if j == i + 1 {
        lemma_symmetric(h[i], h[i + 1]);
        lemma_races_stay(s, h[i + 1], h[i], k);
        assert(races_in(replayed(n, g.take(i)), g[i], k));
        assert(racy_at(n, g, i));
    } else {
        lemma_swapped_replay(n, h, i, j);
        assert(races_in(replayed(n, g.take(j)), g[j], k));
        assert(racy_at(n, g, j));
    }
}

/// Whether an access is made by one of the `n` threads of the block.
pub open spec fn in_block(n: usize, e: Event) -> bool {
    e is Read || e is Write ==> e.actor() < n
}

/// Whether events `i` and `i + 1` are of different threads of the block.
pub open spec fn exchangeable(n: usize, h: Seq<Event>, i: int) -> bool {
    &&& 0 <= i < h.len() - 1
    &&& apart(h[i], h[i + 1])
    &&& in_block(n, h[i])
    &&& in_block(n, h[i + 1])
}

/// Whether a race is found does not depend on the order of neighbouring
/// events that have no thread in common: two accesses of different threads,
/// conflicting or not, an access and a synchronization of other threads, or
/// two synchronizations of different groups.
pub proof fn the_order_of_events_does_not_matter(n: usize, h: Seq<Event>, i: int)
    requires
        exchangeable(n, h, i),
    ensures
        racy(n, h) <==> racy(n, swapped(h, i)),
{
    let g = swapped(h, i);
    let s = replayed(n, h.take(i));
    if independent(h[i], h[i + 1]) {
        if racy(n, h) {
            lemma_race_survives_swap(n, h, i);
        }
        if racy(n, g) {
            assert(swapped(g, i) =~= h);
            lemma_symmetric(h[i], h[i + 1]);
            lemma_race_survives_swap(n, g, i);
        }
    } else {
        let k = choose|k: Byte|
            #[trigger] accesses(h[i], k) && accesses(h[i + 1], k) && (h[i].writes(k)
                || h[i + 1].writes(k));
        lemma_threads_differ(h[i], h[i + 1]);
        assert(g.take(i) =~= h.take(i));
        lemma_replayed_step(n, h, i);
        lemma_replayed_step(n, g, i);
        lemma_threads(n, h.take(i));
        a_conflict_is_found_in_either_order(s, h[i], h[i + 1], k);
        assert(races_in(replayed(n, h.take(i + 1)), h[i + 1], k));
        assert(racy_at(n, h, i + 1));
        assert(races_in(replayed(n, g.take(i + 1)), g[i + 1], k));
        assert(racy_at(n, g, i + 1));
    }
}

/// A history after exchanging neighbours at one position after the other.
pub open spec fn rearranged(h: Seq<Event>, at: Seq<int>) -> Seq<Event>
    decreases at.len(),
{
    if at.len() == 0 {
        h
    } else {
        swapped(rearranged(h, at.drop_last()), at.last())
    }
}

/// Whether a race is found does not depend on the schedule: a history races
/// exactly when one does that is reached from it by exchanging, one pair after
/// the other, neighbouring events without a common thread.
pub proof fn rearranged_histories_race_alike(n: usize, h: Seq<Event>, at: Seq<int>)
    requires
        forall|j: int|
            0 <= j < at.len() ==> exchangeable(n, rearranged(h, at.take(j)), #[trigger] at[j]),
    ensures
        racy(n, h) <==> racy(n, rearranged(h, at)),
    decreases at.len(),
{
    if at.len() > 0 {
        let before = at.drop_last();
        assert forall|j: int| 0 <= j < before.len() implies exchangeable(
            n,
            rearranged(h, before.take(j)),
            #[trigger] before[j],
        ) by {
            assert(before[j] == at[j]);
            assert(before.take(j) =~= at.take(j));
        }
        rearranged_histories_race_alike(n, h, before);
        let last = at.len() - 1;
        assert(at[last] == at.last());
        assert(at.take(last) =~= before);
        the_order_of_events_does_not_matter(n, rearranged(h, before), at.last());
    }
}

proof fn lemma_threads(n: usize, h: Seq<Event>)
    ensures
        replayed(n, h).n_threads == n,
    decreases h.len(),
{
    if h.len() > 0 {
        lemma_threads(n, h.drop_last());
    }
}

} // verus!
