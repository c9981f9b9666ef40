use observed_timers::{tick_entity_timers, TagId, Timer, TimerMode, Timers};

const SEC: u64 = 1_000_000_000;

#[test]
fn once() {
    let mut timers = Timers::new();
    let foo = TagId(1);
    timers.insert(foo, Timer::from_secs(5, TimerMode::Once));
    let mut finished = false;
    assert!(!finished);

    let fired = tick_entity_timers(&mut timers, 0);
    finished = finished || fired.contains(&foo);
    assert!(!finished);

    let fired = tick_entity_timers(&mut timers, 3 * SEC);
    finished = finished || fired.contains(&foo);
    assert!(!finished);

    let fired = tick_entity_timers(&mut timers, 3 * SEC);
    finished = finished || fired.contains(&foo);
    assert!(finished);
}

#[test]
fn lookup_after_insert_returns_inserted_timer() {
    let mut timers = Timers::new();
    let tag = TagId(4);
    timers.insert(tag, Timer::new(7 * SEC, TimerMode::Repeating));
    let got = timers.get(tag).unwrap();
    assert_eq!(got.duration(), 7 * SEC);
    assert_eq!(got.mode(), TimerMode::Repeating);
    assert_eq!(got.elapsed(), 0);
    assert!(timers.get(TagId(5)).is_none());
}

#[test]
fn distinct_tags_one_entry_each_in_insertion_order() {
    let mut timers = Timers::new();
    for id in [3u64, 1, 4, 2] {
        timers.insert(TagId(id), Timer::new(id * SEC, TimerMode::Once));
    }
    let entries = timers.iter();
    assert_eq!(entries.len(), 4);
    let tags: Vec<u64> = entries.iter().map(|p| p.0 .0).collect();
    assert_eq!(tags, vec![3, 1, 4, 2]);
    assert_eq!(timers.len(), 4);
}

#[test]
fn overwrite_keeps_only_second_timer_and_its_place() {
    let mut timers = Timers::new();
    timers.insert(TagId(1), Timer::new(SEC, TimerMode::Once));
    timers.insert(TagId(2), Timer::new(9 * SEC, TimerMode::Once));
    assert_eq!(timers.get(TagId(2)).unwrap().duration(), 9 * SEC);
    timers.insert(TagId(2), Timer::new(2 * SEC, TimerMode::Repeating));
    let got = timers.get(TagId(2)).unwrap();
    assert_eq!(got.duration(), 2 * SEC);
    assert_eq!(got.mode(), TimerMode::Repeating);
    // still exactly one entry for the tag, in its original place
    let entries = timers.iter();
    assert_eq!(entries.len(), 2);
    assert_eq!(entries[1].0, TagId(2));
}

#[test]
fn one_shot_fires_once_and_is_swept() {
    let mut timers = Timers::new();
    let tag = TagId(9);
    timers.insert(tag, Timer::from_secs(5, TimerMode::Once));

    let fired = tick_entity_timers(&mut timers, 2 * SEC);
    assert!(fired.is_empty());
    assert!(timers.get(tag).is_some());

    let fired = tick_entity_timers(&mut timers, 4 * SEC);
    assert_eq!(fired, vec![tag]);
    // swept in the same invocation: absent from any later iteration
    assert!(timers.get(tag).is_none());
    assert!(timers.iter().is_empty());

    let fired = tick_entity_timers(&mut timers, 10 * SEC);
    assert!(fired.is_empty());
}

#[test]
fn one_shot_parks_elapsed_at_duration() {
    let mut t = Timer::new(5, TimerMode::Once);
    t.tick(7);
    assert!(t.just_finished());
    assert!(t.finished());
    assert_eq!(t.elapsed(), 5);
    t.tick(7);
    assert!(!t.just_finished());
    assert!(t.finished());
}

#[test]
fn repeating_fires_each_period_and_stays() {
    let mut timers = Timers::new();
    let tag = TagId(6);
    timers.insert(tag, Timer::from_secs(5, TimerMode::Repeating));
    let mut fired_count = 0;
    for _ in 0..3 {
        let fired = tick_entity_timers(&mut timers, 5 * SEC);
        fired_count += fired.iter().filter(|t| **t == tag).count();
        assert!(timers.get(tag).is_some());
    }
    assert_eq!(fired_count, 3);
}

#[test]
fn repeating_wraps_elapsed_to_remainder() {
    let mut t = Timer::new(5, TimerMode::Repeating);
    t.tick(7);
    assert!(t.just_finished());
    assert_eq!(t.elapsed(), 2);
    t.tick(3);
    assert!(t.just_finished());
    assert_eq!(t.elapsed(), 0);
    t.tick(4);
    assert!(!t.just_finished());
    assert!(!t.finished());
    assert_eq!(t.elapsed(), 4);
}

#[test]
fn pause_freezes_and_unpause_resumes() {
    let mut timers = Timers::new();
    let tag = TagId(2);
    timers.insert(tag, Timer::from_secs(5, TimerMode::Once));
    let fired = tick_entity_timers(&mut timers, 3 * SEC);
    assert!(fired.is_empty());
    assert_eq!(timers.get(tag).unwrap().elapsed(), 3 * SEC);

    timers.pause(tag);
    let fired = tick_entity_timers(&mut timers, 100 * SEC);
    assert!(fired.is_empty());
    assert_eq!(timers.get(tag).unwrap().elapsed(), 3 * SEC);
    assert!(!timers.get(tag).unwrap().finished());

    timers.unpause(tag);
    let fired = tick_entity_timers(&mut timers, 2 * SEC);
    assert_eq!(fired, vec![tag]);
}

#[test]
fn reset_clears_progress_and_keeps_configuration() {
    let mut timers = Timers::new();
    let tag = TagId(3);
    timers.insert(tag, Timer::from_secs(5, TimerMode::Repeating));
    tick_entity_timers(&mut timers, 4 * SEC);
    timers.pause(tag);
    timers.reset(tag);
    let got = timers.get(tag).unwrap();
    assert_eq!(got.elapsed(), 0);
    assert_eq!(got.duration(), 5 * SEC);
    assert_eq!(got.mode(), TimerMode::Repeating);
    assert!(got.paused());
    // resetting an absent tag is a no-op
    timers.reset(TagId(77));
    assert_eq!(timers.len(), 1);
}

#[test]
fn get_mut_mutates_in_place() {
    let mut timers = Timers::new();
    let tag = TagId(5);
    timers.insert(tag, Timer::new(10, TimerMode::Once));
    if let Some(t) = timers.get_mut(tag) {
        t.tick(4);
    }
    assert_eq!(timers.get(tag).unwrap().elapsed(), 4);
    assert!(timers.get_mut(TagId(6)).is_none());
    assert_eq!(timers.len(), 1);
}

#[test]
fn cancel_reports_only_actual_removals() {
    let mut timers = Timers::new();
    let tag = TagId(8);
    timers.insert(tag, Timer::from_secs(5, TimerMode::Repeating));
    assert!(timers.cancel(tag));
    assert!(timers.get(tag).is_none());
    assert!(timers.iter().is_empty());
    // a second cancel finds nothing and reports nothing
    assert!(!timers.cancel(tag));
    assert!(!timers.cancel(TagId(99)));
}

#[test]
fn cancel_keeps_order_of_remaining_entries() {
    let mut timers = Timers::new();
    for id in 1u64..=4 {
        timers.insert(TagId(id), Timer::new(id, TimerMode::Once));
    }
    assert!(timers.cancel(TagId(2)));
    let tags: Vec<u64> = timers.iter().iter().map(|p| p.0 .0).collect();
    assert_eq!(tags, vec![1, 3, 4]);
}

#[test]
fn zero_duration_timer_is_inert() {
    let mut timers = Timers::new();
    let tag = TagId(1);
    timers.insert(tag, Timer::new(0, TimerMode::Once));
    let fired = tick_entity_timers(&mut timers, u64::MAX);
    assert!(fired.is_empty());
    let got = timers.get(tag).unwrap();
    assert!(!got.finished());
}

#[test]
fn sweep_removes_only_finished_one_shots() {
    let mut timers = Timers::new();
    timers.insert(TagId(1), Timer::new(10, TimerMode::Once));
    timers.insert(TagId(2), Timer::new(3, TimerMode::Once));
    timers.insert(TagId(3), Timer::new(3, TimerMode::Repeating));
    timers.insert(TagId(4), Timer::new(2, TimerMode::Once));
    let fired = tick_entity_timers(&mut timers, 5);
    assert_eq!(fired, vec![TagId(2), TagId(3), TagId(4)]);
    let tags: Vec<u64> = timers.iter().iter().map(|p| p.0 .0).collect();
    assert_eq!(tags, vec![1, 3]);
}

#[test]
fn full_scenario_repeating_then_cancel() {
    let mut timers = Timers::new();
    let tag = TagId(42);
    timers.insert(tag, Timer::from_secs(5, TimerMode::Repeating));

    let fired = tick_entity_timers(&mut timers, 0);
    assert!(fired.is_empty());

    let fired = tick_entity_timers(&mut timers, 5 * SEC);
    assert_eq!(fired, vec![tag]);
    assert!(timers.get(tag).is_some());

    let fired = tick_entity_timers(&mut timers, 5 * SEC);
    assert_eq!(fired, vec![tag]);
    assert!(timers.get(tag).is_some());

    assert!(timers.cancel(tag));
    assert!(timers.get(tag).is_none());
    assert!(timers.iter().is_empty());
}
