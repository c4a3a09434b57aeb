//! The numbered lists of a run, held in `id_collections::IdVec`: bound
//! parameters, threads, and the local memories of threads.
//!
//! The wrappers below state what the list operations do, over one name for
//! each list: its elements, by number.

use vstd::prelude::*;
use id_collections::IdVec;

use crate::eval::interp::ThreadState;
use crate::eval::memory::Memory;
use crate::eval::value::Value;

verus! {

/// The values of the parameters, by number.
#[verifier::external_body]
pub struct ParamList {
    inner: IdVec<usize, Value>,
}

/// The values of a list, by number.
pub uninterp spec fn bound_values(l: ParamList) -> Seq<Value>;

impl View for ParamList {
    type V = Seq<Value>;

    open spec fn view(&self) -> Seq<Value> {
        bound_values(*self)
    }
}

/// `IdVec::new`: a list without values.
#[verifier::external_body]
pub(crate) fn no_params() -> (l: ParamList)
    ensures
        bound_values(l) == Seq::<Value>::empty(),
{
    ParamList { inner: IdVec::new() }
}

/// `IdVec::push`: adds a value at the end. With numbers of the width of a
/// length, only a failing allocation stands in its way.
#[verifier::external_body]
pub(crate) fn param_push(l: &mut ParamList, value: Value) -> (id: usize)
    ensures
        id == bound_values(*old(l)).len(),
        bound_values(*final(l)) == bound_values(*old(l)).push(value),
{
    l.inner.push(value)
}

/// `IdVec::len`: the number of values.
#[verifier::external_body]
pub(crate) fn param_len(l: &ParamList) -> (n: usize)
    ensures
        n == bound_values(*l).len(),
{
    l.inner.len()
}

/// `IdVec::index`: the value of a number in use.
#[verifier::external_body]
pub(crate) fn param_at(l: &ParamList, id: usize) -> (r: &Value)
    requires
        id < bound_values(*l).len(),
    ensures
        *r == bound_values(*l)[id as int],
{
    &l.inner[id]
}

/// The threads of a block, by number.
#[verifier::external_body]
pub struct ThreadList {
    inner: IdVec<usize, ThreadState>,
}

/// The threads of a list, by number.
pub uninterp spec fn numbered_threads(l: ThreadList) -> Seq<ThreadState>;

impl View for ThreadList {
    type V = Seq<ThreadState>;

    open spec fn view(&self) -> Seq<ThreadState> {
        numbered_threads(*self)
    }
}

/// `IdVec::from_vec`: the elements of a vector, numbered in its order. With
/// numbers of the width of a length every vector can be numbered.
#[verifier::external_body]
pub(crate) fn number_threads(v: Vec<ThreadState>) -> (l: ThreadList)
    ensures
        numbered_threads(l) == v@,
{
    ThreadList { inner: IdVec::from_vec(v) }
}

/// `IdVec::index`: the thread of a number in use.
#[verifier::external_body]
pub(crate) fn thread_at(l: &ThreadList, id: usize) -> (r: &ThreadState)
    requires
        id < numbered_threads(*l).len(),
    ensures
        *r == numbered_threads(*l)[id as int],
{
    &l.inner[id]
}

/// `IdVec::index_mut`: the thread of a number in use, to be changed in place;
/// the others stay as they are.
#[verifier::external_body]
pub(crate) fn thread_at_mut(l: &mut ThreadList, id: usize) -> (r: &mut ThreadState)
    requires
        id < numbered_threads(*old(l)).len(),
    ensures
        *r == numbered_threads(*old(l))[id as int],
        numbered_threads(*final(l)) == numbered_threads(*old(l)).update(id as int, *final(r)),
{
    &mut l.inner[id]
}

/// The local memories of the threads, by thread number.
#[verifier::external_body]
pub struct MemoryList {
    inner: IdVec<usize, Memory>,
}

/// The memories of a list, by thread number.
pub uninterp spec fn numbered_memories(l: MemoryList) -> Seq<Memory>;

impl View for MemoryList {
    type V = Seq<Memory>;

    open spec fn view(&self) -> Seq<Memory> {
        numbered_memories(*self)
    }
}

/// `IdVec::from_vec`: the elements of a vector, numbered in its order. With
/// numbers of the width of a length every vector can be numbered.
#[verifier::external_body]
pub(crate) fn number_memories(v: Vec<Memory>) -> (l: MemoryList)
    ensures
        numbered_memories(l) == v@,
{
    MemoryList { inner: IdVec::from_vec(v) }
}

/// `IdVec::index`: the memory of a number in use.
#[verifier::external_body]
pub(crate) fn memory_at(l: &MemoryList, id: usize) -> (r: &Memory)
    requires
        id < numbered_memories(*l).len(),
    ensures
        *r == numbered_memories(*l)[id as int],
{
    &l.inner[id]
}

/// `IdVec::index_mut`: the memory of a number in use, to be changed in place;
/// the others stay as they are.
#[verifier::external_body]
pub(crate) fn memory_at_mut(l: &mut MemoryList, id: usize) -> (r: &mut Memory)
    requires
        id < numbered_memories(*old(l)).len(),
    ensures
        *r == numbered_memories(*old(l))[id as int],
        numbered_memories(*final(l)) == numbered_memories(*old(l)).update(id as int, *final(r)),
{
    &mut l.inner[id]
}

} // verus!
