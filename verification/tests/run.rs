use crabuv::check::Check;
use crabuv::effect::Effect;
use crabuv::event_loop::{Event, EventLoop, Phase, RunMode, Turn};
use crabuv::resource::Resource;
use crabuv::signals::Lifetime;
use crabuv::task::Task;
use crabuv::thread_pool::{default_pool_size, ThreadPool};
use crabuv::timers::TimerKind;

fn drain(event_loop: &mut EventLoop) -> Vec<Effect> {
    let drained = event_loop.process_requests();
    assert!(!drained.stuck);
    drained.effects
}

#[test]
fn phases_follow_each_other() {
    let event_loop = EventLoop::new(1);
    assert_eq!(event_loop.run(RunMode::Once, Phase::Requests), Phase::Timers);
    assert_eq!(event_loop.run(RunMode::Once, Phase::Timers), Phase::Poll(Some(0)));
    assert_eq!(event_loop.run(RunMode::Once, Phase::Poll(Some(0))), Phase::Check);
    assert_eq!(event_loop.run(RunMode::Once, Phase::Check), Phase::Close);
    assert_eq!(event_loop.run(RunMode::Once, Phase::Close), Phase::Done);
    assert_eq!(event_loop.run(RunMode::Once, Phase::Done), Phase::Done);
}

#[test]
fn default_mode_ends_when_nothing_is_pending() {
    let mut event_loop = EventLoop::new(1);
    assert_eq!(event_loop.run(RunMode::Default, Phase::Close), Phase::Done);
    event_loop.handle().timer(5, TimerKind::Timeout, 1);
    // A request that waits is pending work too.
    assert_eq!(event_loop.run(RunMode::Default, Phase::Close), Phase::Requests);
    drain(&mut event_loop);
    assert_eq!(event_loop.run(RunMode::Default, Phase::Close), Phase::Requests);
    assert_eq!(event_loop.run(RunMode::NoWait, Phase::Close), Phase::Done);
    assert_eq!(event_loop.run(RunMode::Once, Phase::Close), Phase::Done);
    event_loop.update_time(6);
    event_loop.run_timers();
    assert_eq!(event_loop.run(RunMode::Default, Phase::Close), Phase::Done);
}

#[test]
fn poll_blocks_only_where_it_may() {
    let mut event_loop = EventLoop::new(1);
    assert_eq!(event_loop.poll_timeout(RunMode::Default), Some(0));
    event_loop.handle().spawn(1, 2);
    drain(&mut event_loop);
    assert_eq!(event_loop.poll_timeout(RunMode::Default), None);
    assert_eq!(event_loop.poll_timeout(RunMode::NoWait), Some(0));
    event_loop.handle().check(3);
    drain(&mut event_loop);
    assert_eq!(event_loop.poll_timeout(RunMode::Default), Some(0));
}

#[test]
fn check_runs_once_per_iteration() {
    let mut event_loop = EventLoop::new(1);
    let first = event_loop.handle().check(3);
    let second = event_loop.handle().check(4);
    drain(&mut event_loop);
    let both = vec![Effect::CheckCallback(3, first), Effect::CheckCallback(4, second)];
    assert_eq!(event_loop.run_check_callbacks(), both);
    assert_eq!(event_loop.run_check_callbacks(), both);
}

#[test]
fn removed_check_does_not_run() {
    let mut event_loop = EventLoop::new(1);
    let first = event_loop.handle().check(3);
    let second = event_loop.handle().check(4);
    drain(&mut event_loop);
    first.remove(event_loop.handle());
    let gone = Check { id: first.id, callback: 3 };
    assert_eq!(drain(&mut event_loop), vec![Effect::Drop(Resource::Check(gone))]);
    assert_eq!(event_loop.run_check_callbacks(), vec![Effect::CheckCallback(4, second)]);
    second.remove(event_loop.handle());
    drain(&mut event_loop);
    assert!(!event_loop.has_pending_events());
}

#[test]
fn task_reports_to_its_callback_once() {
    let mut event_loop = EventLoop::new(2);
    let task = event_loop.handle().spawn_with_callback(11, 12, 13);
    let effects = drain(&mut event_loop);
    let id = match effects.as_slice() {
        [Effect::SpawnWork(id, 11, channel)] => {
            assert_eq!(*channel, task.cancelation);
            *id
        }
        other => panic!("{:?}", other),
    };
    assert!(event_loop.accepts(Event::ThreadPool(id)));
    let gone = Task { id: task.id, on_complete: None, cancelation: task.cancelation };
    let callback = event_loop.process_event(Event::ThreadPool(id));
    assert_eq!(callback.len(), 2);
    assert!(matches!(callback[0], Effect::TaskCallback(_)));
    assert_eq!(callback[1], Effect::Drop(Resource::Task(gone)));
    assert!(!event_loop.has_pending_events());
    // Nothing is pending in the pool anymore.
    assert!(!event_loop.accepts(Event::ThreadPool(id)));
}

#[test]
fn canceled_task_is_discarded() {
    let mut event_loop = EventLoop::new(2);
    let task = event_loop.handle().spawn_with_callback(11, 12, 13);
    let effects = drain(&mut event_loop);
    let id = match effects.as_slice() {
        [Effect::SpawnWork(id, _, _)] => *id,
        other => panic!("{:?}", other),
    };
    let channel = task.cancel(event_loop.handle());
    assert_eq!(channel, task.cancelation);
    drain(&mut event_loop);
    // The worker is not done yet.
    assert!(event_loop.has_pending_events());
    assert_eq!(event_loop.process_finished_task(id), vec![]);
    assert!(!event_loop.has_pending_events());
}

#[test]
fn skipped_task_is_settled() {
    let mut event_loop = EventLoop::new(2);
    let task = event_loop.handle().spawn(11, 12);
    drain(&mut event_loop);
    task.cancel(event_loop.handle());
    drain(&mut event_loop);
    assert!(!ThreadPool::should_run(true));
    assert!(ThreadPool::should_run(false));
    event_loop.process_skipped_task();
    assert!(!event_loop.has_pending_events());
}

#[test]
fn task_without_callback_just_leaves() {
    let mut event_loop = EventLoop::new(2);
    let task = event_loop.handle().spawn(11, 12);
    let effects = drain(&mut event_loop);
    let id = match effects.as_slice() {
        [Effect::SpawnWork(id, 11, 12)] => *id,
        other => panic!("{:?}", other),
    };
    let gone = Task { id: task.id, on_complete: None, cancelation: 12 };
    assert_eq!(
        event_loop.process_finished_task(id),
        vec![Effect::Drop(Resource::Task(gone))]
    );
}

#[test]
fn event_of_another_resource_is_not_accepted() {
    let mut event_loop = EventLoop::new(1);
    event_loop.handle().tcp_listen(Ok(5), 6).unwrap();
    event_loop.handle().spawn(1, 2);
    let effects = drain(&mut event_loop);
    let token = match effects[0] {
        Effect::Register(5, token, _) => token,
        _ => panic!(),
    };
    let id = crabuv::resource::resource_of_token(token);
    assert!(!event_loop.accepts(Event::ThreadPool(id)));
}

#[test]
fn pool_size_falls_back_to_four() {
    assert_eq!(default_pool_size(None), 4);
    assert_eq!(default_pool_size(Some(16)), 16);
}

#[test]
fn requests_are_served_in_order() {
    let mut event_loop = EventLoop::new(1);
    event_loop.handle().spawn(1, 0);
    event_loop.handle().spawn(2, 0);
    event_loop.handle().spawn(3, 0);
    let works: Vec<u64> = drain(&mut event_loop)
        .iter()
        .map(|effect| match effect {
            Effect::SpawnWork(_, work, _) => *work,
            other => panic!("{:?}", other),
        })
        .collect();
    assert_eq!(works, vec![1, 2, 3]);
    assert!(event_loop.handle().is_idle());
}

#[test]
fn pending_work_is_live_work() {
    let mut event_loop = EventLoop::new(1);
    assert!(!event_loop.has_pending_events());
    // A request that waits.
    event_loop.handle().spawn(1, 2);
    assert!(event_loop.has_pending_events());
    let id = match drain(&mut event_loop).as_slice() {
        [Effect::SpawnWork(id, 1, 2)] => *id,
        other => panic!("{:?}", other),
    };
    // A task that is not finished.
    assert!(event_loop.has_pending_events());
    event_loop.process_event(Event::ThreadPool(id));
    assert!(!event_loop.has_pending_events());
    // A resource.
    let check = event_loop.handle().check(3);
    drain(&mut event_loop);
    assert!(event_loop.has_pending_events());
    check.remove(event_loop.handle());
    drain(&mut event_loop);
    assert!(!event_loop.has_pending_events());
    // Nobody but a listener.
    assert!(event_loop.handle().signal(2, Lifetime::Persistent, 4).is_ok());
    drain(&mut event_loop);
    assert!(!event_loop.has_pending_events());
}

#[test]
fn canceled_task_never_reaches_its_callback() {
    let mut event_loop = EventLoop::new(1);
    let task = event_loop.handle().spawn_with_callback(11, 12, 13);
    task.cancel(event_loop.handle());
    let effects = drain(&mut event_loop);
    let id = match effects.as_slice() {
        [Effect::SpawnWork(id, 11, _), Effect::Drop(Resource::Task(_))] => *id,
        other => panic!("{:?}", other),
    };
    event_loop.handle().check(3);
    drain(&mut event_loop);
    assert_eq!(event_loop.process_event(Event::ThreadPool(id)), vec![]);
    event_loop.update_time(50);
    assert_eq!(event_loop.run_timers(), vec![]);
    assert_eq!(event_loop.run_close(), vec![]);
}

#[test]
fn requests_are_served_where_callbacks_have_run() {
    assert!(EventLoop::serves_requests(Turn::Phase(Phase::Requests)));
    assert!(!EventLoop::serves_requests(Turn::Phase(Phase::Timers)));
    assert!(!EventLoop::serves_requests(Turn::Phase(Phase::Poll(None))));
    assert!(EventLoop::serves_requests(Turn::Event));
    assert!(EventLoop::serves_requests(Turn::Phase(Phase::Check)));
    assert!(EventLoop::serves_requests(Turn::Phase(Phase::Close)));
    assert!(!EventLoop::serves_requests(Turn::Phase(Phase::Done)));
}
