//! Laws the collection and the tick obey, stated over the views and spec
//! functions that the executable functions' contracts use, and proved here
//! once and for all.

use vstd::prelude::*;

use crate::timer::{spec_tick, spec_unpause, Timer, TimerMode};
use crate::tick::{removes, swept};
use crate::timers::{
    find_key, has_key, lemma_find_key, spec_get, spec_insert, spec_remove, unique_keys, TagId,
};

verus! {

/// After replacing the entry at the position of `k`, keeping the key, the
/// lookup position of `k` is unchanged.
proof fn lemma_find_key_update(s: Seq<(TagId, Timer)>, k: TagId, i: int, v: Timer)
    requires
        find_key(s, k) == Some(i),
    ensures
        find_key(s.update(i, (k, v)), k) == Some(i),
{
    lemma_find_key(s, k);
    let s2 = s.update(i, (k, v));
    lemma_find_key(s2, k);
    match find_key(s2, k) {
        Some(i2) => {
            if i2 < i {
                assert(s2[i2] == s[i2]);
                assert(false);
            }
            if i2 > i {
                assert(s2[i].0 == k);
                assert(false);
            }
        },
        None => {
            assert(s2[i].0 == k);
            assert(false);
        },
    }
}

/// After appending an absent key, its lookup position is the former length.
proof fn lemma_find_key_push(s: Seq<(TagId, Timer)>, k: TagId, v: Timer)
    requires
        find_key(s, k) is None,
    ensures
        find_key(s.push((k, v)), k) == Some(s.len() as int),
{
    lemma_find_key(s, k);
    let s2 = s.push((k, v));
    lemma_find_key(s2, k);
    match find_key(s2, k) {
        Some(i2) => {
            if i2 < s.len() {
                assert(s2[i2] == s[i2]);
                assert(false);
            }
        },
        None => {
            assert(s2[s.len() as int].0 == k);
            assert(false);
        },
    }
}

/// Idempotent lookup: a lookup right after an insert returns exactly the
/// inserted timer — same duration, same mode, same progress.
pub proof fn lemma_lookup_after_insert(s: Seq<(TagId, Timer)>, k: TagId, v: Timer)
    ensures
        spec_get(spec_insert(s, k, v), k) == Some(v),
{
    lemma_find_key(s, k);
    match find_key(s, k) {
        Some(i) => {
            lemma_find_key_update(s, k, i, v);
        },
        None => {
            lemma_find_key_push(s, k, v);
        },
    }
}

/// Single ownership: starting a tag no entry holds appends it, so a run of
/// starts on distinct tags yields exactly one entry per tag, in
/// first-insertion order, and keeps the collection well formed.
pub proof fn lemma_insert_fresh_appends(s: Seq<(TagId, Timer)>, k: TagId, v: Timer)
    requires
        !has_key(s, k),
    ensures
        spec_insert(s, k, v) == s.push((k, v)),
        unique_keys(s) ==> unique_keys(spec_insert(s, k, v)),
{
    lemma_find_key(s, k);
    if unique_keys(s) {
        let s2 = s.push((k, v));
        assert forall|a: int, b: int|
            0 <= a < b < s2.len() implies s2[a].0 != s2[b].0 by {
            if b == s.len() {
                assert(s[a].0 != k);
            }
        }
    }
}

/// The collection after a whole run of inserts, applied first to last.
pub open spec fn spec_insert_all(
    s: Seq<(TagId, Timer)>,
    ops: Seq<(TagId, Timer)>,
) -> Seq<(TagId, Timer)>
    decreases ops.len(),
{
    if ops.len() == 0 {
        s
    } else {
        spec_insert_all(spec_insert(s, ops[0].0, ops[0].1), ops.skip(1))
    }
}

/// Single ownership, over a whole run: any number of starts on distinct tags,
/// none already present, appends exactly one entry per tag, in the order the
/// starts came.
pub proof fn lemma_distinct_starts(s: Seq<(TagId, Timer)>, ops: Seq<(TagId, Timer)>)
    requires
        unique_keys(s + ops),
    ensures
        spec_insert_all(s, ops) == s + ops,
    decreases ops.len(),
{
    if ops.len() == 0 {
        assert(s + ops =~= s);
    } else {
        let k = ops[0].0;
        lemma_find_key(s, k);
        match find_key(s, k) {
            Some(i) => {
                assert((s + ops)[i].0 == (s + ops)[s.len() as int].0);
                assert(false);
            },
            None => {},
        }
        lemma_insert_fresh_appends(s, k, ops[0].1);
        let s1 = s.push(ops[0]);
        assert(s1 + ops.skip(1) =~= s + ops);
        lemma_distinct_starts(s1, ops.skip(1));
        assert(spec_insert_all(s, ops) == spec_insert_all(s1, ops.skip(1)));
    }
}

/// Overwrite semantics: starting a tag twice leaves exactly the state of the
/// second start — the first timer's state is discarded without trace. No
/// notification accompanies the overwrite:
/// [`Timers::insert`](crate::Timers::insert) reports no firing and no
/// cancellation.
pub proof fn lemma_insert_overwrites(s: Seq<(TagId, Timer)>, k: TagId, v1: Timer, v2: Timer)
    ensures
        spec_insert(spec_insert(s, k, v1), k, v2) == spec_insert(s, k, v2),
{
    lemma_find_key(s, k);
    match find_key(s, k) {
        Some(i) => {
            lemma_find_key_update(s, k, i, v1);
            assert(s.update(i, (k, v1)).update(i, (k, v2)) =~= s.update(i, (k, v2)));
        },
        None => {
            lemma_find_key_push(s, k, v1);
            assert(s.push((k, v1)).update(s.len() as int, (k, v2)) =~= s.push((k, v2)));
        },
    }
}

/// Pause freeze: ticking a paused timer, by any delta, changes no progress
/// and fires nothing, and unpausing afterwards leaves the progress where it
/// stopped.
pub proof fn lemma_pause_freeze(t: Timer, delta: u64)
    requires
        t.paused,
    ensures
        spec_tick(t, delta).elapsed == t.elapsed,
        spec_tick(t, delta).duration == t.duration,
        spec_tick(t, delta).mode == t.mode,
        spec_tick(t, delta).paused,
        !spec_tick(t, delta).just_finished,
        spec_unpause(spec_tick(t, delta)).elapsed == t.elapsed,
{
}

/// Cancel distinctness: after a cancel the tag has no active timer, and
/// cancelling an absent tag changes nothing at all. That a cancel of an
/// active tag reports exactly one cancellation — and a cancel never reports
/// a firing — is the contract of [`Timers::cancel`](crate::Timers::cancel).
pub proof fn lemma_cancel_removes(s: Seq<(TagId, Timer)>, k: TagId)
    requires
        unique_keys(s),
    ensures
        !has_key(spec_remove(s, k), k),
        !has_key(s, k) ==> spec_remove(s, k) == s,
{
    lemma_find_key(s, k);
    match find_key(s, k) {
        Some(i) => {
            let s2 = s.remove(i);
            assert(s[i].0 == k);
            assert forall|j: int| 0 <= j < s2.len() implies s2[j].0 != k by {
                if j < i {
                    assert(s2[j] == s[j]);
                } else {
                    assert(s2[j] == s[j + 1]);
                }
            }
            lemma_find_key(s2, k);
            if find_key(s2, k) is Some {
                assert(false);
            }
        },
        None => {},
    }
}

/// What a sweep leaves at each tag: a just-finished one-shot entry is gone
/// from the collection, any other entry — a repeating timer above all —
/// survives unchanged, and no tag appears that was not there before.
/// Applied to `ticked(s, delta)`, this is what one call of
/// [`tick_entity_timers`](crate::tick_entity_timers) leaves at each tag.
pub proof fn lemma_swept_get(s: Seq<(TagId, Timer)>, k: TagId)
    requires
        unique_keys(s),
    ensures
        match find_key(s, k) {
            Some(i) => if removes(s[i]) {
                !has_key(swept(s), k)
            } else {
                spec_get(swept(s), k) == Some(s[i].1)
            },
            None => !has_key(swept(s), k),
        },
    decreases s.len(),
{
    if s.len() == 0 {
    } else {
        let rest = s.skip(1);
        assert(forall|x: int| 0 <= x < rest.len() ==> rest[x] == s[x + 1]);
        assert(unique_keys(rest));
        lemma_swept_get(rest, k);
        lemma_find_key(s, k);
        lemma_find_key(rest, k);
        if removes(s[0]) {
            if s[0].0 == k {
                match find_key(rest, k) {
                    Some(i2) => {
                        assert(rest[i2] == s[i2 + 1]);
                        assert(false);
                    },
                    None => {},
                }
            }
        } else {
            let w = seq![s[0]] + swept(rest);
            assert(swept(s) == w);
            assert(w[0] == s[0]);
            assert(w.skip(1) =~= swept(rest));
            if s[0].0 == k {
                assert(find_key(w, k) == Some(0int));
            } else {
                lemma_find_key(swept(rest), k);
                match find_key(swept(rest), k) {
                    Some(i2) => {
                        assert(find_key(w, k) == Some(i2 + 1));
                        assert(w[i2 + 1] == swept(rest)[i2]);
                    },
                    None => {
                        assert(find_key(w, k) is None);
                    },
                }
            }
        }
    }
}

/// The timer after a whole run of ticks, applied first to last.
pub open spec fn run_ticks(t: Timer, deltas: Seq<u64>) -> Timer
    decreases deltas.len(),
{
    if deltas.len() == 0 {
        t
    } else {
        run_ticks(spec_tick(t, deltas[0]), deltas.skip(1))
    }
}

/// How many ticks of the run fire a finish notification. A tick fires at most
/// one notification per timer, however large its delta.
pub open spec fn count_fires(t: Timer, deltas: Seq<u64>) -> nat
    decreases deltas.len(),
{
    if deltas.len() == 0 {
        0
    } else {
        (if spec_tick(t, deltas[0]).just_finished {
            1nat
        } else {
            0nat
        }) + count_fires(spec_tick(t, deltas[0]), deltas.skip(1))
    }
}

/// The cumulative delta of a run of ticks.
pub open spec fn total_delta(deltas: Seq<u64>) -> int
    decreases deltas.len(),
{
    if deltas.len() == 0 {
        0
    } else {
        deltas[0] + total_delta(deltas.skip(1))
    }
}

/// A finished one-shot timer is inert: no run of further ticks fires it
/// again, and it stays finished.
pub proof fn lemma_once_finished_inert(t: Timer, deltas: Seq<u64>)
    requires
        t.mode == TimerMode::Once,
        t.finished,
    ensures
        count_fires(t, deltas) == 0,
        run_ticks(t, deltas).finished,
    decreases deltas.len(),
{
    if deltas.len() > 0 {
        let t1 = spec_tick(t, deltas[0]);
        assert(!t1.just_finished);
        lemma_once_finished_inert(t1, deltas.skip(1));
    }
}

/// One-shot sweep, the firing count: an unpaused, unfinished one-shot timer
/// fires exactly once over any run of ticks whose cumulative delta covers its
/// remaining time — never twice, however far past its duration the run goes.
pub proof fn lemma_once_fires_exactly_once(t: Timer, deltas: Seq<u64>)
    requires
        t.mode == TimerMode::Once,
        !t.paused,
        !t.finished,
        0 < t.duration,
        t.elapsed < t.duration,
        total_delta(deltas) >= t.duration - t.elapsed,
    ensures
        count_fires(t, deltas) == 1,
    decreases deltas.len(),
{
    assert(deltas.len() > 0);
    let d0 = deltas[0];
    let t1 = spec_tick(t, d0);
    if t.elapsed + d0 >= t.duration {
        assert(t1.just_finished);
        lemma_once_finished_inert(t1, deltas.skip(1));
    } else {
        assert(!t1.just_finished);
        lemma_once_fires_exactly_once(t1, deltas.skip(1));
    }
}

/// Repeating accounting: over ticks no longer than the period, every firing
/// accounts for exactly one period of advanced time, and the leftover
/// progress stays below the period. The timer stays repeating and unpaused,
/// so it is never swept and keeps running.
pub proof fn lemma_repeating_accounting(t: Timer, deltas: Seq<u64>)
    requires
        t.mode == TimerMode::Repeating,
        !t.paused,
        0 < t.duration <= u64::MAX / 2,
        t.elapsed < t.duration,
        forall|i: int| 0 <= i < deltas.len() ==> deltas[i] <= t.duration,
    ensures
        run_ticks(t, deltas).elapsed < t.duration,
        run_ticks(t, deltas).duration == t.duration,
        run_ticks(t, deltas).mode == TimerMode::Repeating,
        !run_ticks(t, deltas).paused,
        count_fires(t, deltas) * t.duration + run_ticks(t, deltas).elapsed == t.elapsed
            + total_delta(deltas),
    decreases deltas.len(),
{
    if deltas.len() > 0 {
        let d0 = deltas[0];
        let t1 = spec_tick(t, d0);
        assert(t.elapsed + d0 <= u64::MAX);
        if t.elapsed + d0 >= t.duration {
            assert((t.elapsed + d0) % (t.duration as int) == t.elapsed + d0 - t.duration) by {
                vstd::arithmetic::div_mod::lemma_fundamental_div_mod_converse(
                    t.elapsed + d0,
                    t.duration as int,
                    1,
                    t.elapsed + d0 - t.duration,
                );
            }
            assert(t1.just_finished && t1.elapsed == t.elapsed + d0 - t.duration);
        } else {
            assert(!t1.just_finished && t1.elapsed == t.elapsed + d0);
        }
        assert(forall|i: int| 0 <= i < deltas.skip(1).len() ==> deltas.skip(1)[i] <= t.duration);
        lemma_repeating_accounting(t1, deltas.skip(1));
        let c = count_fires(t1, deltas.skip(1));
        assert(t1.duration == t.duration);
        assert(run_ticks(t, deltas) == run_ticks(t1, deltas.skip(1)));
        assert(total_delta(deltas) == d0 + total_delta(deltas.skip(1)));
        assert(c * t.duration + run_ticks(t1, deltas.skip(1)).elapsed == t1.elapsed + total_delta(
            deltas.skip(1),
        ));
        if t.elapsed + d0 >= t.duration {
            assert(count_fires(t, deltas) == 1 + c);
            assert((1 + c) * t.duration == t.duration + c * t.duration) by (nonlinear_arith);
            assert(count_fires(t, deltas) * t.duration == t.duration + c * t.duration);
        } else {
            assert(count_fires(t, deltas) == c);
            assert(count_fires(t, deltas) * t.duration == c * t.duration);
        }
        assert(count_fires(t, deltas) * t.duration + run_ticks(t, deltas).elapsed == t.elapsed
            + total_delta(deltas));
    } else {
        assert(count_fires(t, deltas) == 0);
        assert(run_ticks(t, deltas) == t);
        assert(total_delta(deltas) == 0);
    }
}

/// Repeating persistence: a fresh repeating timer of period D, ticked across
/// N full periods by deltas each no longer than D, fires exactly N times.
pub proof fn lemma_repeating_fires_per_period(t: Timer, deltas: Seq<u64>, n: nat)
    requires
        t.mode == TimerMode::Repeating,
        !t.paused,
        0 < t.duration <= u64::MAX / 2,
        t.elapsed == 0,
        forall|i: int| 0 <= i < deltas.len() ==> deltas[i] <= t.duration,
        total_delta(deltas) == n * t.duration,
    ensures
        count_fires(t, deltas) == n,
{
    lemma_repeating_accounting(t, deltas);
    let c = count_fires(t, deltas);
    let e = run_ticks(t, deltas).elapsed;
    assert(c == n) by (nonlinear_arith)
        requires
            c * t.duration + e == n * t.duration,
            0 <= e < t.duration,
            0 < t.duration,
    ;
}

} // verus!
