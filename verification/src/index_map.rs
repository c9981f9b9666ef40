//! The insertion-ordered map underneath [`Timers`](crate::Timers).
//!
//! The collection itself comes from the `indexmap` crate; Verus sees it as an
//! opaque type whose contents are named by [`entries_of`]. Each operation the
//! library calls is wrapped in a function whose contract states, over that
//! name, what `indexmap`'s documentation promises: insertion order is kept,
//! an insert of a present key replaces in place, and removal by index shifts
//! the entries that follow it.

use vstd::prelude::*;

use crate::timer::Timer;
use crate::timers::{find_key, TagId};

verus! {

#[verifier::external_type_specification]
#[verifier::external_body]
#[verifier::reject_recursive_types(K)]
#[verifier::reject_recursive_types(V)]
#[verifier::reject_recursive_types(S)]
pub struct ExIndexMap<K, V, S>(indexmap::IndexMap<K, V, S>);

/// The map a [`Timers`](crate::Timers) collection holds.
pub type TagMap = indexmap::IndexMap<TagId, Timer, std::collections::hash_map::RandomState>;

/// The key-timer pairs a map holds, in iteration order.
pub uninterp spec fn entries_of(m: TagMap) -> Seq<(TagId, Timer)>;

/// Relies on `indexmap::IndexMap::new`: a new map is empty.
#[verifier::external_body]
pub(crate) fn im_new() -> (m: TagMap)
    ensures
        entries_of(m) == Seq::<(TagId, Timer)>::empty(),
{
    indexmap::IndexMap::new()
}

/// Relies on `indexmap::IndexMap::len`: the number of entries.
#[verifier::external_body]
pub(crate) fn im_len(m: &TagMap) -> (n: usize)
    ensures
        n == entries_of(*m).len(),
{
    m.len()
}

/// Relies on `indexmap::IndexMap::get_index`: the entry at a position in
/// iteration order.
#[verifier::external_body]
pub(crate) fn im_get_index(m: &TagMap, i: usize) -> (p: (TagId, Timer))
    requires
        i < entries_of(*m).len(),
    ensures
        p == entries_of(*m)[i as int],
{
    let (k, v) = m.get_index(i).unwrap();
    (*k, *v)
}

/// Relies on `indexmap::IndexMap::get_index`: a reference to the value at a
/// position in iteration order.
#[verifier::external_body]
pub(crate) fn im_get_index_ref(m: &TagMap, i: usize) -> (r: &Timer)
    requires
        i < entries_of(*m).len(),
    ensures
        *r == entries_of(*m)[i as int].1,
{
    m.get_index(i).unwrap().1
}

/// Relies on `indexmap::IndexMap::get_index_of`: the position of a key in
/// iteration order, `None` if the key is absent.
#[verifier::external_body]
pub(crate) fn im_get_index_of(m: &TagMap, k: TagId) -> (r: Option<usize>)
    ensures
        match r {
            Some(i) => find_key(entries_of(*m), k) == Some(i as int),
            None => find_key(entries_of(*m), k) is None,
        },
{
    m.get_index_of(&k)
}

/// Relies on `indexmap::IndexMap::insert`: a present key keeps its place and
/// has its value replaced, an absent key is appended last in order; the prior
/// value, if any, is returned.
#[verifier::external_body]
pub(crate) fn im_insert(m: &mut TagMap, k: TagId, v: Timer) -> (prev: Option<Timer>)
    ensures
        (match find_key(entries_of(*old(m)), k) {
            Some(i) => entries_of(*final(m)) == entries_of(*old(m)).update(i, (k, v))
                && prev == Some(entries_of(*old(m))[i].1),
            None => entries_of(*final(m)) == entries_of(*old(m)).push((k, v))
                && prev == None::<Timer>,
        }),
{
    m.insert(k, v)
}

/// Relies on `indexmap::IndexMap::get_index_mut`: writing through the
/// returned reference replaces the value at that position, leaving the key
/// and the order untouched.
#[verifier::external_body]
pub(crate) fn im_set_index(m: &mut TagMap, i: usize, v: Timer)
    requires
        i < entries_of(*old(m)).len(),
    ensures
        entries_of(*final(m)) == entries_of(*old(m)).update(
            i as int,
            (entries_of(*old(m))[i as int].0, v),
        ),
{
    let (_, slot) = m.get_index_mut(i).unwrap();
    *slot = v;
}

/// Relies on `indexmap::IndexMap::get_index_mut`: a mutable reference to the
/// value at a position in iteration order; writing through it replaces that
/// value, leaving the key and the order untouched.
#[verifier::external_body]
pub(crate) fn im_get_index_mut(m: &mut TagMap, i: usize) -> (r: &mut Timer)
    requires
        i < entries_of(*old(m)).len(),
    ensures
        *r == entries_of(*old(m))[i as int].1,
        entries_of(*final(m)) == entries_of(*old(m)).update(
            i as int,
            (entries_of(*old(m))[i as int].0, *final(r)),
        ),
{
    m.get_index_mut(i).unwrap().1
}

/// Relies on `indexmap::IndexMap::shift_remove_index`: the entry at the
/// position is removed and the entries that follow it shift down, keeping
/// their relative order.
#[verifier::external_body]
pub(crate) fn im_remove_index(m: &mut TagMap, i: usize) -> (p: (TagId, Timer))
    requires
        i < entries_of(*old(m)).len(),
    ensures
        p == entries_of(*old(m))[i as int],
        entries_of(*final(m)) == entries_of(*old(m)).remove(i as int),
{
    m.shift_remove_index(i).unwrap()
}

} // verus!
