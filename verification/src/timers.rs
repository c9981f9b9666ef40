//! The per-entity timer collection: an insertion-ordered map from tag to
//! timer.
//!
//! A [`Timers`] value is owned by one entity. Its view is the sequence of
//! (tag, timer) pairs in iteration order, which is first-insertion order; the
//! well-formedness invariant [`Timers::wf`] says that no tag appears twice.
//! Every constructor establishes the invariant and every operation preserves
//! it.

use vstd::prelude::*;

use crate::index_map::{
    entries_of, im_get_index, im_get_index_mut, im_get_index_of, im_get_index_ref, im_insert,
    im_len, im_new, im_remove_index, im_set_index, TagMap,
};
use crate::tick::{
    fired_tags, lemma_removal_indices, lemma_swept_segment, removal_indices, removes, swept,
    ticked,
};
use crate::timer::{spec_pause, spec_reset, spec_unpause, Timer, TimerMode};

verus! {

/// The stable identifier of one logical timer on an entity.
///
/// A host derives one `TagId` per distinct tag; lookups are by equality only.
#[derive(Clone, Copy, Debug, PartialEq, Eq, Hash, Structural)]
pub struct TagId(pub u64);

/// The position of the first entry with key `k`, `None` if no entry has it.
///
/// In a well-formed collection a key appears at most once, so "first" is the
/// only occurrence.
pub open spec fn find_key(s: Seq<(TagId, Timer)>, k: TagId) -> Option<int>
    decreases s.len(),
{
    if s.len() == 0 {
        None
    } else if s[0].0 == k {
        Some(0int)
    } else {
        match find_key(s.skip(1), k) {
            Some(i) => Some(i + 1),
            None => None,
        }
    }
}

/// Whether some entry has key `k`.
pub open spec fn has_key(s: Seq<(TagId, Timer)>, k: TagId) -> bool {
    find_key(s, k) is Some
}

/// The timer stored at key `k`, `None` if the key is absent.
pub open spec fn spec_get(s: Seq<(TagId, Timer)>, k: TagId) -> Option<Timer> {
    match find_key(s, k) {
        Some(i) => Some(s[i].1),
        None => None,
    }
}

/// The sequence after an insert of `v` at key `k`: a present key keeps its
/// place and has its timer replaced, an absent key is appended last.
pub open spec fn spec_insert(s: Seq<(TagId, Timer)>, k: TagId, v: Timer) -> Seq<(TagId, Timer)> {
    match find_key(s, k) {
        Some(i) => s.update(i, (k, v)),
        None => s.push((k, v)),
    }
}

/// The sequence after a removal of key `k`: the entry leaves and the entries
/// after it keep their relative order; an absent key changes nothing.
pub open spec fn spec_remove(s: Seq<(TagId, Timer)>, k: TagId) -> Seq<(TagId, Timer)> {
    match find_key(s, k) {
        Some(i) => s.remove(i),
        None => s,
    }
}

/// The sequence after the timer at key `k` is replaced by `f` of itself; an
/// absent key changes nothing.
pub open spec fn spec_adjust(
    s: Seq<(TagId, Timer)>,
    k: TagId,
    f: spec_fn(Timer) -> Timer,
) -> Seq<(TagId, Timer)> {
    match find_key(s, k) {
        Some(i) => s.update(i, (k, f(s[i].1))),
        None => s,
    }
}

/// No key appears twice.
pub open spec fn unique_keys(s: Seq<(TagId, Timer)>) -> bool {
    forall|i: int, j: int| 0 <= i < j < s.len() ==> s[i].0 != s[j].0
}

/// What [`find_key`] returns: the position it gives is in bounds, holds the
/// key, and no earlier position does; `None` means no position holds the key.
pub proof fn lemma_find_key(s: Seq<(TagId, Timer)>, k: TagId)
    ensures
        match find_key(s, k) {
            Some(i) => 0 <= i < s.len() && s[i].0 == k && (forall|j: int|
                0 <= j < i ==> s[j].0 != k),
            None => forall|j: int| 0 <= j < s.len() ==> s[j].0 != k,
        },
    decreases s.len(),
{
    if s.len() == 0 {
    } else if s[0].0 == k {
    } else {
        lemma_find_key(s.skip(1), k);
        assert forall|j: int| 1 <= j < s.len() implies s[j] == s.skip(1)[j - 1] by {}
    }
}

/// The per-entity collection of active timers, keyed by tag in
/// first-insertion order.
///
/// An empty collection is valid; it answers every lookup with `None` and
/// every tick with no work.
pub struct Timers {
    map: TagMap,
}

impl View for Timers {
    type V = Seq<(TagId, Timer)>;

    closed spec fn view(&self) -> Seq<(TagId, Timer)> {
        entries_of(self.map)
    }
}

impl Timers {
    /// Well-formedness: at most one timer per tag.
    pub open spec fn wf(&self) -> bool {
        unique_keys(self@)
    }

    /// Creates an empty collection.
    pub fn new() -> (t: Timers)
        ensures
            t@ == Seq::<(TagId, Timer)>::empty(),
            t.wf(),
    {
        Timers { map: im_new() }
    }

    /// The number of active timers.
    pub fn len(&self) -> (n: usize)
        ensures
            n == self@.len(),
    {
        im_len(&self.map)
    }

    /// A reference to the timer at `tag`, `None` if the tag has no active
    /// timer. No error, just absence.
    pub fn get(&self, tag: TagId) -> (r: Option<&Timer>)
        ensures
            match r {
                Some(timer) => spec_get(self@, tag) == Some(*timer),
                None => spec_get(self@, tag) is None,
            },
    {
        proof {
            lemma_find_key(self@, tag);
        }
        match im_get_index_of(&self.map, tag) {
            Some(i) => Some(im_get_index_ref(&self.map, i)),
            None => None,
        }
    }

    /// A mutable reference to the timer at `tag`, for in-place mutation;
    /// `None` if the tag has no active timer. Whatever the caller writes
    /// through the reference becomes the timer at `tag`; the key and the
    /// order stay untouched.
    pub fn get_mut(&mut self, tag: TagId) -> (r: Option<&mut Timer>)
        ensures
            match r {
                Some(timer) => has_key(old(self)@, tag) && Some(*timer) == spec_get(
                    old(self)@,
                    tag,
                ) && final(self)@ == spec_adjust(old(self)@, tag, |t: Timer| *final(timer)),
                None => !has_key(old(self)@, tag) && final(self)@ == old(self)@,
            },
            old(self).wf() ==> final(self).wf(),
    {
        proof {
            lemma_find_key(self@, tag);
        }
        match im_get_index_of(&self.map, tag) {
            Some(i) => {
                let ghost prior = self@;
                let timer = im_get_index_mut(&mut self.map, i);
                proof {
                    lemma_replace_keeps_unique(prior, i as int, tag, *final(timer));
                }
                Some(timer)
            },
            None => None,
        }
    }

    /// Inserts or replaces the timer at `tag`, unconditionally: any prior
    /// timer at the tag is discarded without merge and without any
    /// notification.
    pub fn insert(&mut self, tag: TagId, timer: Timer)
        ensures
            final(self)@ == spec_insert(old(self)@, tag, timer),
            old(self).wf() ==> final(self).wf(),
    {
        proof {
            lemma_find_key(self@, tag);
        }
        let _ = im_insert(&mut self.map, tag, timer);
        proof {
            if old(self).wf() {
                match find_key(old(self)@, tag) {
                    Some(i) => {
                        assert forall|a: int, b: int|
                            0 <= a < b < self@.len() implies self@[a].0 != self@[b].0 by {
                            assert(old(self)@[i].0 == tag);
                        }
                    },
                    None => {
                        assert forall|a: int, b: int|
                            0 <= a < b < self@.len() implies self@[a].0 != self@[b].0 by {}
                    },
                }
            }
        }
    }

    /// Removes and returns the timer at `tag`; the entries after it keep
    /// their relative order. `None` if the tag has no active timer.
    pub fn remove(&mut self, tag: TagId) -> (r: Option<Timer>)
        ensures
            final(self)@ == spec_remove(old(self)@, tag),
            r == spec_get(old(self)@, tag),
            old(self).wf() ==> final(self).wf(),
    {
        proof {
            lemma_find_key(self@, tag);
        }
        match im_get_index_of(&self.map, tag) {
            Some(i) => {
                let p = im_remove_index(&mut self.map, i);
                proof {
                    if old(self).wf() {
                        assert forall|a: int, b: int|
                            0 <= a < b < self@.len() implies self@[a].0 != self@[b].0 by {
                            assert(self@ == old(self)@.remove(i as int));
                        }
                    }
                }
                Some(p.1)
            },
            None => None,
        }
    }

    /// Cancels the timer at `tag`: removes it if present. Returns whether a
    /// timer was actually removed, which is when — and only when — the host
    /// should deliver an [`OnTimerCancelled`](crate::OnTimerCancelled)
    /// notification. A cancel never produces a finish notification.
    pub fn cancel(&mut self, tag: TagId) -> (cancelled: bool)
        ensures
            final(self)@ == spec_remove(old(self)@, tag),
            cancelled == has_key(old(self)@, tag),
            old(self).wf() ==> final(self).wf(),
    {
        self.remove(tag).is_some()
    }

    /// Clears the progress of the timer at `tag`, keeping its duration, mode
    /// and pause flag; a no-op if the tag has no active timer.
    pub fn reset(&mut self, tag: TagId)
        ensures
            final(self)@ == spec_adjust(old(self)@, tag, |t: Timer| spec_reset(t)),
            old(self).wf() ==> final(self).wf(),
    {
        proof {
            lemma_find_key(self@, tag);
        }
        match im_get_index_of(&self.map, tag) {
            Some(i) => {
                let mut t = im_get_index(&self.map, i).1;
                t.reset();
                im_set_index(&mut self.map, i, t);
                proof {
                    lemma_replace_keeps_unique(old(self)@, i as int, tag, t);
                }
            },
            None => {},
        }
    }

    /// Pauses the timer at `tag`, freezing its progress; a no-op if the tag
    /// has no active timer.
    pub fn pause(&mut self, tag: TagId)
        ensures
            final(self)@ == spec_adjust(old(self)@, tag, |t: Timer| spec_pause(t)),
            old(self).wf() ==> final(self).wf(),
    {
        proof {
            lemma_find_key(self@, tag);
        }
        match im_get_index_of(&self.map, tag) {
            Some(i) => {
                let mut t = im_get_index(&self.map, i).1;
                t.pause();
                im_set_index(&mut self.map, i, t);
                proof {
                    lemma_replace_keeps_unique(old(self)@, i as int, tag, t);
                }
            },
            None => {},
        }
    }

    /// Lets the timer at `tag` advance again from where it left off; a no-op
    /// if the tag has no active timer.
    pub fn unpause(&mut self, tag: TagId)
        ensures
            final(self)@ == spec_adjust(old(self)@, tag, |t: Timer| spec_unpause(t)),
            old(self).wf() ==> final(self).wf(),
    {
        proof {
            lemma_find_key(self@, tag);
        }
        match im_get_index_of(&self.map, tag) {
            Some(i) => {
                let mut t = im_get_index(&self.map, i).1;
                t.unpause();
                im_set_index(&mut self.map, i, t);
                proof {
                    lemma_replace_keeps_unique(old(self)@, i as int, tag, t);
                }
            },
            None => {},
        }
    }

    /// The (tag, timer) pairs in iteration order, which is first-insertion
    /// order.
    pub fn iter(&self) -> (v: Vec<(TagId, Timer)>)
        ensures
            v@ == self@,
    {
        let n = self.len();
        let mut v: Vec<(TagId, Timer)> = Vec::new();
        let mut i: usize = 0;
        while i < n
            invariant
                n == self@.len(),
                i <= n,
                v@ == self@.take(i as int),
            decreases n - i,
        {
            v.push(im_get_index(&self.map, i));
            proof {
                assert(v@ =~= self@.take(i + 1));
            }
            i += 1;
        }
        proof {
            assert(self@.take(n as int) =~= self@);
        }
        v
    }

}

/// Replacing one timer in place keeps the keys, so it keeps them unique.
proof fn lemma_replace_keeps_unique(s: Seq<(TagId, Timer)>, i: int, k: TagId, v: Timer)
    requires
        0 <= i < s.len(),
        s[i].0 == k,
    ensures
        unique_keys(s) ==> unique_keys(s.update(i, (k, v))),
{
    if unique_keys(s) {
        let s2 = s.update(i, (k, v));
        assert forall|a: int, b: int| 0 <= a < b < s2.len() implies s2[a].0 != s2[b].0 by {
            assert(s2[a].0 == s[a].0);
            assert(s2[b].0 == s[b].0);
        }
    }
}

/// Advances every timer in the collection once by the frame's shared delta
/// and sweeps the spent one-shot timers out.
///
/// The returned tags are the ones whose timers just finished, in iteration
/// order: the host delivers one
/// [`OnTimerFinished`](crate::OnTimerFinished) notification per tag, keyed by
/// the owning entity and the tag. A repeating timer fires at every full
/// period and stays; a one-shot timer that just finished fires once and is
/// removed, so it is absent from any later iteration. The advance pass walks
/// the whole collection before the sweep removes anything, and the surviving
/// entries keep their relative order.
#[verifier::loop_isolation(false)]
#[verifier::rlimit(100)]
pub fn tick_entity_timers(timers: &mut Timers, delta: u64) -> (fired: Vec<TagId>)
    ensures
        final(timers)@ == swept(ticked(old(timers)@, delta)),
        fired@ == fired_tags(ticked(old(timers)@, delta)),
        old(timers).wf() ==> final(timers).wf(),
{
    let ghost t = ticked(old(timers)@, delta);
    let n = timers.len();
    let mut fired: Vec<TagId> = Vec::new();
    let mut rem: Vec<usize> = Vec::new();
    proof {
        assert(t.take(0) + old(timers)@.skip(0) =~= old(timers)@);
        assert(fired_tags(t.take(0)) =~= Seq::<TagId>::empty());
        assert(removal_indices(t.take(0)) =~= Seq::<int>::empty());
    }
    let mut i: usize = 0;
    while i < n
        invariant
            i <= n,
            timers@ == t.take(i as int) + old(timers)@.skip(i as int),
            fired@ == fired_tags(t.take(i as int)),
            rem@.len() == removal_indices(t.take(i as int)).len(),
            forall|a: int|
                0 <= a < rem@.len() ==> rem@[a] as int == removal_indices(t.take(i as int))[a],
            unique_keys(old(timers)@) ==> unique_keys(timers@),
        decreases n - i,
    {
        let p = im_get_index(&timers.map, i);
        proof {
            assert(timers@[i as int] == old(timers)@[i as int]);
            assert(p == old(timers)@[i as int]);
        }
        let mut tm = p.1;
        tm.tick(delta);
        proof {
            assert(t[i as int] == (p.0, tm));
        }
        let ghost prior = timers@;
        im_set_index(&mut timers.map, i, tm);
        proof {
            assert(timers@ == prior.update(i as int, (prior[i as int].0, tm)));
            assert(prior[i as int].0 == p.0);
            assert(timers@ =~= t.take(i + 1) + old(timers)@.skip(i + 1));
            assert(t.take(i + 1).drop_last() =~= t.take(i as int));
            assert(t.take(i + 1).last() == t[i as int]);
            if unique_keys(old(timers)@) {
                assert forall|a: int, b: int|
                    0 <= a < b < timers@.len() implies timers@[a].0 != timers@[b].0 by {
                    assert(timers@[a].0 == prior[a].0);
                    assert(timers@[b].0 == prior[b].0);
                }
            }
        }
        if tm.just_finished() {
            fired.push(p.0);
            if tm.mode() == TimerMode::Once {
                rem.push(i);
            }
        }
        proof {
            assert(fired@ == fired_tags(t.take(i + 1)));
            assert(rem@.len() == removal_indices(t.take(i + 1)).len());
        }
        i += 1;
    }
    proof {
        assert(t.take(n as int) =~= t);
        assert(old(timers)@.skip(n as int) =~= Seq::<(TagId, Timer)>::empty());
        assert(timers@ =~= t);
        assert(t.take(t.len() as int) =~= t);
        assert(swept(t.skip(t.len() as int)) =~= Seq::<(TagId, Timer)>::empty());
        lemma_removal_indices(t);
    }
    let ghost rids = removal_indices(t);
    let mut j: usize = rem.len();
    while j > 0
        invariant
            j <= rem@.len(),
            ({
                let b = if j == rem@.len() {
                    t.len() as int
                } else {
                    rids[j as int]
                };
                timers@ == t.take(b) + swept(t.skip(b))
            }),
            unique_keys(old(timers)@) ==> unique_keys(timers@),
        decreases j,
    {
        j -= 1;
        let idx = rem[j];
        let ghost b = if j + 1 == rem@.len() {
            t.len() as int
        } else {
            rids[j as int + 1]
        };
        proof {
            assert(idx as int == rids[j as int]);
            assert(0 <= rids[j as int] < t.len());
            assert(removes(t[idx as int]));
            assert((idx as int) < b);
            assert forall|q: int| (idx as int) < q < b implies !removes(t[q]) by {
                if removes(t[q]) {
                    assert(rids.contains(q));
                    let a = choose|a: int| 0 <= a < rids.len() && rids[a] == q;
                    if a <= j as int {
                        assert(rids[a] <= rids[j as int]);
                    } else {
                        assert(a >= j as int + 1);
                        assert(j as int + 1 < rem@.len());
                        assert(rids[a] >= rids[j as int + 1]);
                    }
                    assert(false);
                }
            }
            assert(timers@.len() == b + swept(t.skip(b)).len());
        }
        let ghost prior = timers@;
        let _ = im_remove_index(&mut timers.map, idx);
        proof {
            assert(timers@ == prior.remove(idx as int));
            assert(timers@ =~= t.take(idx as int) + (t.subrange(idx as int + 1, b) + swept(
                t.skip(b),
            )));
            lemma_swept_segment(t, idx as int + 1, b);
            let u = t.skip(idx as int);
            assert(u[0] == t[idx as int]);
            assert(removes(u[0]));
            assert(u.skip(1) =~= t.skip(idx as int + 1));
            assert(swept(u) == swept(t.skip(idx as int + 1)));
            assert(timers@ == t.take(idx as int) + swept(t.skip(idx as int)));
            if unique_keys(old(timers)@) {
                assert forall|a2: int, b2: int|
                    0 <= a2 < b2 < timers@.len() implies timers@[a2].0 != timers@[b2].0 by {
                    assert(timers@ == prior.remove(idx as int));
                }
            }
        }
    }
    proof {
        let b = if 0 == rem@.len() {
            t.len() as int
        } else {
            rids[0]
        };
        assert forall|q: int| 0 <= q < b implies !removes(t[q]) by {
            if removes(t[q]) {
                assert(rids.contains(q));
                let a = choose|a: int| 0 <= a < rids.len() && rids[a] == q;
                assert(rids[a] >= rids[0]);
                assert(false);
            }
        }
        lemma_swept_segment(t, 0, b);
        assert(t.skip(0) =~= t);
        assert(t.subrange(0, b) =~= t.take(b));
        assert(timers@ == swept(t));
    }
    fired
}

impl Default for Timers {
    /// Creates an empty collection.
    fn default() -> (t: Timers)
        ensures
            t@ == Seq::<(TagId, Timer)>::empty(),
            t.wf(),
    {
        Timers::new()
    }
}

} // verus!
