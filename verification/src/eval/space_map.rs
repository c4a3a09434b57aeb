//! Maps keyed by an address in a memory space.

use vstd::prelude::*;
use std::collections::HashMap;
use vstd::std_specs::iter::IteratorSpec;

use crate::lowered::MemSpace;

verus! {

/// Size of one space's address range.
pub const SPACE_SPAN: u128 = 0x1_0000_0000_0000_0000;

pub open spec fn space_code(space: MemSpace) -> int {
    match space {
        MemSpace::Global => 0,
        MemSpace::Shared => 1,
        MemSpace::Local => 2,
        MemSpace::Param => 3,
        MemSpace::Const => 4,
    }
}

pub open spec fn space_of(code: int) -> MemSpace {
    if code == 0 {
        MemSpace::Global
    } else if code == 1 {
        MemSpace::Shared
    } else if code == 2 {
        MemSpace::Local
    } else if code == 3 {
        MemSpace::Param
    } else {
        MemSpace::Const
    }
}

/// The integer that stands for an address in a space.
pub open spec fn space_key(k: (MemSpace, u64)) -> u128 {
    (space_code(k.0) * 0x1_0000_0000_0000_0000 + k.1) as u128
}

/// The address in a space that an integer stands for.
pub open spec fn key_space(c: u128) -> (MemSpace, u64) {
    (space_of(c as int / 0x1_0000_0000_0000_0000), (c as int % 0x1_0000_0000_0000_0000) as u64)
}

proof fn lemma_key_round_trip(k: (MemSpace, u64))
    ensures
        key_space(space_key(k)) == k,
        space_key(k) < 5 * 0x1_0000_0000_0000_0000,
{
}

proof fn lemma_space_round_trip(c: u128)
    requires
        c < 5 * 0x1_0000_0000_0000_0000,
    ensures
        space_key(key_space(c)) == c,
{
}

fn encode(space: MemSpace, addr: u64) -> (c: u128)
    ensures
        c == space_key((space, addr)),
{
    let code: u128 = match space {
        MemSpace::Global => 0,
        MemSpace::Shared => 1,
        MemSpace::Local => 2,
        MemSpace::Param => 3,
        MemSpace::Const => 4,
    };
    code * SPACE_SPAN + addr as u128
}

fn decode(c: u128) -> (k: (MemSpace, u64))
    requires
        c < 5 * 0x1_0000_0000_0000_0000,
    ensures
        k == key_space(c),
{
    let code: u128 = c / SPACE_SPAN;
    let addr: u64 = (c % SPACE_SPAN) as u64;
    let space = if code == 0 {
        MemSpace::Global
    } else if code == 1 {
        MemSpace::Shared
    } else if code == 2 {
        MemSpace::Local
    } else if code == 3 {
        MemSpace::Param
    } else {
        MemSpace::Const
    };
    (space, addr)
}

/// Inserting at the integer of a key inserts at the key.
proof fn lemma_insert_view<T>(m: SpaceMap<T>, space: MemSpace, addr: u64)
    ensures
        forall|n: SpaceMap<T>, v: T|
            #![trigger n.map@, m.map@.insert(space_key((space, addr)), v)]
            n.map@ == m.map@.insert(space_key((space, addr)), v) ==> n@ == m@.insert(
                (space, addr),
                v,
            ),
{
    assert forall|n: SpaceMap<T>, v: T|
        #![trigger n.map@, m.map@.insert(space_key((space, addr)), v)]
        n.map@ == m.map@.insert(space_key((space, addr)), v) implies n@ == m@.insert(
        (space, addr),
        v,
    ) by {
        assert forall|k: (MemSpace, u64)| #[trigger]
            space_key(k) == space_key((space, addr)) implies k == (space, addr) by {
            lemma_key_round_trip(k);
            lemma_key_round_trip((space, addr));
        }
        assert(n@ =~= m@.insert((space, addr), v));
    }
}

/// A hash map keyed by `(space, address)`.
#[derive(Debug)]
pub struct SpaceMap<T> {
    map: HashMap<u128, T>,
}

impl<T> View for SpaceMap<T> {
    type V = Map<(MemSpace, u64), T>;

    closed spec fn view(&self) -> Map<(MemSpace, u64), T> {
        Map::new(
            |k: (MemSpace, u64)| self.map@.contains_key(space_key(k)),
            |k: (MemSpace, u64)| self.map@[space_key(k)],
        )
    }
}

impl<T> SpaceMap<T> {
    /// Every stored integer stands for some address.
    pub closed spec fn wf(&self) -> bool {
        forall|c: u128| #[trigger]
            self.map@.contains_key(c) ==> c < 5 * 0x1_0000_0000_0000_0000
    }

    pub fn new() -> (m: Self)
        ensures
            m.wf(),
            m@ == Map::<(MemSpace, u64), T>::empty(),
    {
        let m = SpaceMap { map: HashMap::new() };
        assert(m@ =~= Map::<(MemSpace, u64), T>::empty());
        m
    }

    pub fn get(&self, space: MemSpace, addr: u64) -> (r: Option<&T>)
        ensures
            match r {
                Some(v) => self@.contains_key((space, addr)) && *v == self@[(space, addr)],
                None => !self@.contains_key((space, addr)),
            },
    {
        self.map.get(&encode(space, addr))
    }

    pub fn insert(&mut self, space: MemSpace, addr: u64, value: T)
        requires
            old(self).wf(),
        ensures
            final(self).wf(),
            final(self)@ == old(self)@.insert((space, addr), value),
    {
        let c: u128 = encode(space, addr);
        self.map.insert(c, value);
        proof {
            lemma_key_round_trip((space, addr));
            assert forall|k: (MemSpace, u64)| space_key(k) == c implies k == (space, addr) by {
                lemma_key_round_trip(k);
            }
            assert(self@ =~= old(self)@.insert((space, addr), value));
        }
    }

    /// The value at a key, which is `default` if there was none.
    pub fn entry_mut(&mut self, space: MemSpace, addr: u64, default: T) -> (r: &mut T)
        requires
            old(self).wf(),
        ensures
            *r == (if old(self)@.contains_key((space, addr)) {
                old(self)@[(space, addr)]
            } else {
                default
            }),
            final(self).wf(),
            final(self)@ == old(self)@.insert((space, addr), *final(r)),
    {
        let c: u128 = encode(space, addr);
        proof {
            lemma_key_round_trip((space, addr));
            lemma_insert_view(*self, space, addr);
        }
        self.map.entry(c).or_insert(default)
    }

    pub fn remove(&mut self, space: MemSpace, addr: u64) -> (r: Option<T>)
        requires
            old(self).wf(),
        ensures
            final(self).wf(),
            final(self)@ == old(self)@.remove((space, addr)),
            match r {
                Some(v) => old(self)@.contains_key((space, addr)) && v == old(self)@[(
                    space,
                    addr,
                )],
                None => !old(self)@.contains_key((space, addr)),
            },
    {
        let c: u128 = encode(space, addr);
        let r = self.map.remove(&c);
        proof {
            lemma_key_round_trip((space, addr));
            assert forall|k: (MemSpace, u64)| space_key(k) == c implies k == (space, addr) by {
                lemma_key_round_trip(k);
            }
            assert(self@ =~= old(self)@.remove((space, addr)));
        }
        r
    }

    pub fn is_empty(&self) -> (r: bool)
        requires
            self.wf(),
        ensures
            r == (self@ =~= Map::<(MemSpace, u64), T>::empty()),
    {
        let r = self.map.is_empty();
        proof {
            if !r {
                assert(self.map@.dom().len() != 0);
                if forall|c: u128| !self.map@.contains_key(c) {
                    assert(self.map@.dom() =~= Set::<u128>::empty());
                }
                let c = choose|c: u128| self.map@.contains_key(c);
                lemma_space_round_trip(c);
                assert(self@.contains_key(key_space(c)));
            } else {
                assert(self.map@.dom() =~= Set::<u128>::empty());
                assert forall|k: (MemSpace, u64)| !self@.contains_key(k) by {
                    assert(!self.map@.dom().contains(space_key(k)));
                }
            }
        }
        r
    }

    pub fn clear(&mut self)
        ensures
            final(self).wf(),
            final(self)@ == Map::<(MemSpace, u64), T>::empty(),
    {
        self.map.clear();
        assert(self@ =~= Map::<(MemSpace, u64), T>::empty());
    }

    /// All keys, each once, in no particular order.
    pub fn keys(&self) -> (r: Vec<(MemSpace, u64)>)
        requires
            self.wf(),
        ensures
            r@.no_duplicates(),
            forall|k: (MemSpace, u64)| #[trigger] r@.contains(k) <==> self@.contains_key(k),
    {
        let mut r: Vec<(MemSpace, u64)> = Vec::new();
        let keys = self.map.keys();
        let ghost full = keys.remaining();
        for c in it: keys
            invariant
                self.wf(),
                it.seq() == full,
                full.unref().to_set() == self.map@.dom(),
                r@.len() == it.index(),
                forall|i: int| 0 <= i < r@.len() ==> #[trigger] r@[i] == key_space(*full[i]),
        {
            proof {
                assert(full.unref()[it.index() as int] == *c);
                assert(full.unref().to_set().contains(*c));
                assert(self.map@.contains_key(*c));
            }
            r.push(decode(*c));
        }
        proof {
            assert(r@.len() == full.len());
            assert forall|i: int| 0 <= i < full.len() implies self.map@.contains_key(
                #[trigger] *full[i],
            ) by {
                assert(full.unref()[i] == *full[i]);
                assert(full.unref().to_set().contains(*full[i]));
            }
            assert forall|i: int, j: int|
                0 <= i < r@.len() && 0 <= j < r@.len() && i != j implies r@[i] != r@[j] by {
                lemma_space_round_trip(*full[i]);
                lemma_space_round_trip(*full[j]);
            }
            assert forall|k: (MemSpace, u64)| #[trigger] r@.contains(k) <==> self@.contains_key(k) by {
                lemma_key_round_trip(k);
                if r@.contains(k) {
                    let i = choose|i: int| 0 <= i < r@.len() && r@[i] == k;
                    lemma_space_round_trip(*full[i]);
                }
                if self@.contains_key(k) {
                    assert(full.unref().to_set().contains(space_key(k)));
                    let i = choose|i: int| 0 <= i < full.unref().len() && full.unref()[i] == space_key(k);
                    assert(r@[i] == k);
                }
            }
        }
        r
    }
}

} // verus!
