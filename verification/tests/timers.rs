use crabuv::check::Check;
use crabuv::effect::Effect;
use crabuv::event_loop::requests::Drained;
use crabuv::event_loop::{EventLoop, Phase, RunMode};
use crabuv::resource::Resource;
use crabuv::timers::{Timer, TimerKind, TimersCollection, MAX_SPAN};

fn drain(event_loop: &mut EventLoop) -> Vec<Effect> {
    let Drained { effects, stuck } = event_loop.process_requests();
    assert!(!stuck);
    effects
}

fn callbacks(effects: &[Effect]) -> Vec<u64> {
    effects
        .iter()
        .filter_map(|effect| match effect {
            Effect::TimerCallback(callback) => Some(*callback),
            _ => None,
        })
        .collect()
}

#[test]
fn collection_splits_expired_timers_in_order() {
    let mut timers = TimersCollection::new();
    timers.insert(30, 3);
    timers.insert(10, 1);
    timers.insert(20, 2);
    timers.insert(10, 4);
    assert_eq!(timers.next().map(|(at, ids)| (at, ids.clone())), Some((10, vec![1, 4])));
    assert_eq!(timers.split_expired_timers(10), Vec::<u64>::new());
    assert_eq!(timers.split_expired_timers(21), vec![1, 4, 2]);
    assert_eq!(timers.next().map(|(at, ids)| (at, ids.clone())), Some((30, vec![3])));
    assert_eq!(timers.split_expired_timers(31), vec![3]);
    assert!(timers.next().is_none());
}

#[test]
fn earlier_expiry_is_a_prefix_of_later_expiry() {
    let fill = || {
        let mut timers = TimersCollection::new();
        for (at, id) in [(5, 1), (3, 2), (9, 3), (3, 4)] {
            timers.insert(at, id);
        }
        timers
    };
    let short = fill().split_expired_timers(6);
    let long = fill().split_expired_timers(10);
    assert_eq!(short, vec![2, 4, 1]);
    assert_eq!(long, vec![2, 4, 1, 3]);
}

#[test]
fn timeout_fires_once_after_its_delay() {
    let mut event_loop = EventLoop::new(1);
    event_loop.update_time(100);
    let handle = event_loop.handle().timer(50, TimerKind::Timeout, 7);
    assert_eq!(drain(&mut event_loop), vec![]);
    assert_eq!(event_loop.poll_timeout(RunMode::Default), Some(50));

    event_loop.update_time(150);
    assert_eq!(event_loop.run_timers(), vec![]);

    event_loop.update_time(151);
    let gone = Timer { id: handle.id, delay: 50, callback: 7, kind: TimerKind::Timeout };
    assert_eq!(
        event_loop.run_timers(),
        vec![Effect::TimerCallback(7), Effect::Drop(Resource::Timer(gone))]
    );
    assert!(!event_loop.has_pending_events());

    event_loop.update_time(1000);
    assert_eq!(event_loop.run_timers(), vec![]);
}

#[test]
fn interval_fires_over_and_over() {
    let mut event_loop = EventLoop::new(1);
    event_loop.handle().timer(10, TimerKind::Interval, 3);
    drain(&mut event_loop);

    event_loop.update_time(11);
    assert_eq!(event_loop.run_timers(), vec![Effect::TimerCallback(3)]);
    assert_eq!(event_loop.run_timers(), vec![]);
    assert_eq!(event_loop.poll_timeout(RunMode::Default), Some(10));

    event_loop.update_time(22);
    assert_eq!(event_loop.run_timers(), vec![Effect::TimerCallback(3)]);
    assert!(event_loop.has_pending_events());
}

#[test]
fn timers_fire_in_order_of_expiry() {
    let mut event_loop = EventLoop::new(1);
    event_loop.handle().timer(30, TimerKind::Timeout, 1);
    event_loop.handle().timer(10, TimerKind::Timeout, 2);
    event_loop.handle().timer(20, TimerKind::Timeout, 3);
    event_loop.handle().timer(10, TimerKind::Timeout, 4);
    drain(&mut event_loop);
    event_loop.update_time(100);
    assert_eq!(callbacks(&event_loop.run_timers()), vec![2, 4, 3, 1]);
}

#[test]
fn canceled_timer_is_ignored() {
    let mut event_loop = EventLoop::new(1);
    let timer = event_loop.handle().timer(5, TimerKind::Timeout, 9);
    event_loop.handle().timer(5, TimerKind::Timeout, 10);
    drain(&mut event_loop);

    timer.cancel(event_loop.handle());
    let gone = Timer { id: timer.id, delay: 5, callback: 9, kind: TimerKind::Timeout };
    assert_eq!(drain(&mut event_loop), vec![Effect::Drop(Resource::Timer(gone))]);

    event_loop.update_time(6);
    assert_eq!(callbacks(&event_loop.run_timers()), vec![10]);
}

#[test]
fn timer_canceled_in_time_keeps_nothing_alive() {
    let mut event_loop = EventLoop::new(1);
    let timer = event_loop.handle().timer(5, TimerKind::Interval, 9);
    timer.cancel(event_loop.handle());
    let gone = Timer { id: timer.id, delay: 5, callback: 9, kind: TimerKind::Interval };
    assert_eq!(drain(&mut event_loop), vec![Effect::Drop(Resource::Timer(gone))]);
    assert!(!event_loop.has_pending_events());
    for now in [0, 5, 6, 100] {
        event_loop.update_time(now);
        assert_eq!(event_loop.run_timers(), vec![]);
        assert_eq!(event_loop.run(RunMode::Default, Phase::Close), Phase::Done);
    }
}

#[test]
fn canceled_timer_disturbs_no_other() {
    let run = |cancels: bool| {
        let mut event_loop = EventLoop::new(1);
        event_loop.handle().timer(5, TimerKind::Timeout, 1);
        if cancels {
            let timer = event_loop.handle().timer(5, TimerKind::Timeout, 9);
            timer.cancel(event_loop.handle());
        }
        event_loop.handle().timer(5, TimerKind::Interval, 2);
        drain(&mut event_loop);
        let mut all = Vec::new();
        for now in [5, 6, 12, 20] {
            event_loop.update_time(now);
            all.push(callbacks(&event_loop.run_timers()));
        }
        all
    };
    assert_eq!(run(true), vec![vec![], vec![1, 2], vec![2], vec![2]]);
    assert_eq!(run(true), run(false));
}

#[test]
fn timer_fires_once_per_iteration() {
    let mut event_loop = EventLoop::new(1);
    event_loop.handle().timer(0, TimerKind::Interval, 3);
    event_loop.handle().timer(2, TimerKind::Interval, 4);
    drain(&mut event_loop);
    event_loop.update_time(10);
    assert_eq!(callbacks(&event_loop.run_timers()), vec![3, 4]);
    event_loop.update_time(11);
    assert_eq!(callbacks(&event_loop.run_timers()), vec![3]);
    event_loop.update_time(13);
    assert_eq!(callbacks(&event_loop.run_timers()), vec![3, 4]);
}

#[test]
fn collection_forgets_a_timer_at_every_instant() {
    let mut timers: TimersCollection<u32> = TimersCollection::new();
    for (at, id) in [(5, 1), (3, 2), (5, 2), (3, 4), (9, 2)] {
        timers.insert(at, id);
    }
    timers.remove(2);
    timers.remove(7);
    assert_eq!(timers.next().map(|(at, ids)| (at, ids.clone())), Some((3, vec![4])));
    assert_eq!(timers.split_expired_timers(10), vec![4, 1]);
    assert!(timers.next().is_none());
}

#[test]
fn second_cancel_does_nothing() {
    let mut event_loop = EventLoop::new(1);
    let timer = event_loop.handle().timer(5, TimerKind::Timeout, 9);
    timer.cancel(event_loop.handle());
    timer.cancel(event_loop.handle());
    let gone = Timer { id: timer.id, delay: 5, callback: 9, kind: TimerKind::Timeout };
    assert_eq!(drain(&mut event_loop), vec![Effect::Drop(Resource::Timer(gone))]);
    assert!(!event_loop.has_pending_events());
}

#[test]
fn cancel_before_start_does_nothing() {
    let mut event_loop = EventLoop::new(1);
    // The reference is linked to nothing yet.
    event_loop.handle().cancel_timer(0);
    event_loop.handle().timer(5, TimerKind::Timeout, 9);
    assert_eq!(drain(&mut event_loop), vec![]);
    event_loop.update_time(6);
    assert_eq!(callbacks(&event_loop.run_timers()), vec![9]);
}

#[test]
fn a_cancel_removes_whatever_the_reference_leads_to() {
    let mut event_loop = EventLoop::new(1);
    let check = event_loop.handle().check(4);
    event_loop.handle().cancel_timer(check.id);
    let gone = Check { id: check.id, callback: 4 };
    assert_eq!(drain(&mut event_loop), vec![Effect::Drop(Resource::Check(gone))]);
    assert_eq!(event_loop.run_check_callbacks(), vec![]);
    assert!(!event_loop.has_pending_events());

    let timer = event_loop.handle().timer(5, TimerKind::Timeout, 9);
    event_loop.handle().check_remove(timer.id);
    let gone = Timer { id: timer.id, delay: 5, callback: 9, kind: TimerKind::Timeout };
    assert_eq!(drain(&mut event_loop), vec![Effect::Drop(Resource::Timer(gone))]);
    event_loop.update_time(6);
    assert_eq!(event_loop.run_timers(), vec![]);
    assert!(!event_loop.has_pending_events());
}

#[test]
fn timer_keeps_its_instant_whatever_happens() {
    let mut event_loop = EventLoop::new(1);
    event_loop.update_time(100);
    event_loop.handle().timer(50, TimerKind::Interval, 7);
    drain(&mut event_loop);
    let check = event_loop.handle().check(4);
    event_loop.handle().timer(20, TimerKind::Timeout, 8);
    drain(&mut event_loop);
    event_loop.update_time(130);
    assert_eq!(callbacks(&event_loop.run_timers()), vec![8]);
    event_loop.run_check_callbacks();
    check.remove(event_loop.handle());
    drain(&mut event_loop);
    assert_eq!(event_loop.run_close(), vec![]);
    event_loop.update_time(150);
    assert_eq!(callbacks(&event_loop.run_timers()), Vec::<u64>::new());
    event_loop.update_time(160);
    assert_eq!(callbacks(&event_loop.run_timers()), vec![7]);
    event_loop.update_time(210);
    assert_eq!(callbacks(&event_loop.run_timers()), Vec::<u64>::new());
    event_loop.update_time(211);
    assert_eq!(callbacks(&event_loop.run_timers()), vec![7]);
}

#[test]
fn late_timer_does_not_make_the_poll_block() {
    let mut event_loop = EventLoop::new(1);
    event_loop.handle().timer(5, TimerKind::Timeout, 9);
    drain(&mut event_loop);
    event_loop.update_time(7);
    assert_eq!(event_loop.poll_timeout(RunMode::Once), Some(0));
}

#[test]
fn longest_delay_is_accepted() {
    let mut event_loop = EventLoop::new(1);
    event_loop.update_time(MAX_SPAN);
    event_loop.handle().timer(MAX_SPAN, TimerKind::Timeout, 1);
    drain(&mut event_loop);
    assert_eq!(event_loop.poll_timeout(RunMode::Default), Some(MAX_SPAN));
}
