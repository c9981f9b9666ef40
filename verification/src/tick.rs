//! What one tick does to a whole collection, as functions on its view.
//!
//! A tick advances every timer by the frame's shared delta, in iteration
//! order, reports the tags whose timers just finished, and then sweeps the
//! just-finished one-shot timers out of the collection — a repeating timer is
//! never swept. The sweep runs only after the whole advance pass: the
//! removal positions are collected first and applied second, so the
//! collection is never restructured while it is being walked.

use vstd::prelude::*;

use crate::timer::{spec_tick, Timer, TimerMode};
use crate::timers::TagId;

verus! {

/// Every timer advanced by `delta`, keys and order untouched.
pub open spec fn ticked(s: Seq<(TagId, Timer)>, delta: u64) -> Seq<(TagId, Timer)> {
    s.map_values(|p: (TagId, Timer)| (p.0, spec_tick(p.1, delta)))
}

/// Whether the sweep removes an entry: only a one-shot timer that finished on
/// this very tick leaves the collection.
pub open spec fn removes(p: (TagId, Timer)) -> bool {
    p.1.mode == TimerMode::Once && p.1.just_finished
}

/// The entries the sweep keeps, in their original order.
pub open spec fn swept(s: Seq<(TagId, Timer)>) -> Seq<(TagId, Timer)>
    decreases s.len(),
{
    if s.len() == 0 {
        Seq::empty()
    } else if removes(s[0]) {
        swept(s.skip(1))
    } else {
        seq![s[0]] + swept(s.skip(1))
    }
}

/// The tags whose timers are just finished, in iteration order: one
/// notification per tag per tick, for repeating timers at every full period.
pub open spec fn fired_tags(s: Seq<(TagId, Timer)>) -> Seq<TagId>
    decreases s.len(),
{
    if s.len() == 0 {
        Seq::empty()
    } else if s.last().1.just_finished {
        fired_tags(s.drop_last()).push(s.last().0)
    } else {
        fired_tags(s.drop_last())
    }
}

/// The positions the sweep removes, in increasing order.
pub open spec fn removal_indices(s: Seq<(TagId, Timer)>) -> Seq<int>
    decreases s.len(),
{
    if s.len() == 0 {
        Seq::empty()
    } else if removes(s.last()) {
        removal_indices(s.drop_last()).push(s.len() - 1)
    } else {
        removal_indices(s.drop_last())
    }
}

/// What [`removal_indices`] lists: exactly the positions of the entries the
/// sweep removes, each once, in increasing order.
pub proof fn lemma_removal_indices(s: Seq<(TagId, Timer)>)
    ensures
        forall|a: int|
            0 <= a < removal_indices(s).len() ==> 0 <= #[trigger] removal_indices(s)[a] < s.len()
                && removes(s[removal_indices(s)[a]]),
        forall|a: int, b: int|
            0 <= a < b < removal_indices(s).len() ==> removal_indices(s)[a] < removal_indices(
                s,
            )[b],
        forall|j: int| 0 <= j < s.len() && removes(s[j]) ==> removal_indices(s).contains(j),
    decreases s.len(),
{
    if s.len() == 0 {
    } else {
        let r0 = removal_indices(s.drop_last());
        lemma_removal_indices(s.drop_last());
        assert(forall|x: int| 0 <= x < s.len() - 1 ==> s.drop_last()[x] == s[x]);
        assert forall|j: int| 0 <= j < s.len() && removes(s[j]) implies removal_indices(
            s,
        ).contains(j) by {
            if j < s.len() - 1 {
                assert(s.drop_last().contains(s[j]) || true);
                assert(removes(s.drop_last()[j]));
                assert(r0.contains(j));
                let a = choose|a: int| 0 <= a < r0.len() && r0[a] == j;
                assert(removal_indices(s)[a] == j);
            } else {
                assert(removes(s.last()));
                assert(removal_indices(s)[r0.len() as int] == j);
            }
        }
    }
}

/// Over a stretch with nothing to remove, the sweep keeps every entry: the
/// swept tail from `a` is the untouched stretch up to `b` followed by the
/// swept tail from `b`.
pub proof fn lemma_swept_segment(s: Seq<(TagId, Timer)>, a: int, b: int)
    requires
        0 <= a <= b <= s.len(),
        forall|j: int| a <= j < b ==> !removes(s[j]),
    ensures
        swept(s.skip(a)) == s.subrange(a, b) + swept(s.skip(b)),
    decreases b - a,
{
    if a == b {
        assert(s.subrange(a, b) + swept(s.skip(b)) =~= swept(s.skip(a)));
    } else {
        lemma_swept_segment(s, a + 1, b);
        let u = s.skip(a);
        assert(u[0] == s[a]);
        assert(!removes(u[0]));
        assert(u.skip(1) =~= s.skip(a + 1));
        assert(swept(u) == seq![u[0]] + swept(s.skip(a + 1)));
        assert(seq![s[a]] + (s.subrange(a + 1, b) + swept(s.skip(b))) =~= s.subrange(a, b) + swept(
            s.skip(b),
        ));
    }
}

} // verus!
