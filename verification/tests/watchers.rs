use crabuv::effect::Effect;
use crabuv::event_loop::{Event, EventLoop, Phase, RunMode};
use crabuv::fs::{FsWatcher, WatchMode};
use crabuv::fs_event::FsEvent;
use crabuv::resource::Resource;
use crabuv::tty::{Mode, TtyHandle, TtyReader};

fn drain(event_loop: &mut EventLoop) -> Vec<Effect> {
    let drained = event_loop.process_requests();
    assert!(!drained.stuck);
    drained.effects
}

#[test]
fn watcher_reports_until_it_is_stopped() {
    let mut event_loop = EventLoop::new(1);
    let watcher = event_loop.handle().fs_watcher(Ok(9), WatchMode::Recursive, 8).unwrap();
    let id = match drain(&mut event_loop).as_slice() {
        [Effect::StartWatch(id, 9, WatchMode::Recursive)] => *id,
        other => panic!("{:?}", other),
    };
    assert_eq!(
        event_loop.process_event(Event::FsWatch(id)),
        vec![Effect::FsWatcherCallback(8, watcher)]
    );
    // The identifier is not that of a resource of another kind.
    assert_eq!(event_loop.process_event(Event::Watch(id)), vec![]);
    watcher.stop(event_loop.handle());
    let gone = FsWatcher {
        id: watcher.id,
        path: 9,
        callback: 8,
        watching: true,
        mode: WatchMode::Recursive,
    };
    assert_eq!(drain(&mut event_loop), vec![Effect::Drop(Resource::FsWatcher(gone))]);
    assert_eq!(event_loop.process_event(Event::FsWatch(id)), vec![]);
    assert!(!event_loop.has_pending_events());
}

#[test]
fn fs_event_reports_until_it_is_stopped() {
    let mut event_loop = EventLoop::new(1);
    let fs_event = event_loop.handle().fs_event_start(Ok(9), WatchMode::NonRecursive, 8).unwrap();
    let id = match drain(&mut event_loop).as_slice() {
        [Effect::StartWatch(id, 9, WatchMode::NonRecursive)] => *id,
        other => panic!("{:?}", other),
    };
    assert_eq!(
        event_loop.process_event(Event::Watch(id)),
        vec![Effect::FsEventCallback(8, fs_event)]
    );
    fs_event.stop(event_loop.handle());
    let gone = FsEvent {
        id: fs_event.id,
        path: 9,
        callback: 8,
        watching: true,
        mode: WatchMode::NonRecursive,
    };
    assert_eq!(drain(&mut event_loop), vec![Effect::Drop(Resource::FsEvent(gone))]);
    assert_eq!(event_loop.process_event(Event::Watch(id)), vec![]);
}

#[test]
fn fs_event_stopped_in_time_leaves_the_loop_idle() {
    let mut event_loop = EventLoop::new(1);
    let fs_event = event_loop.handle().fs_event_start(Ok(9), WatchMode::Recursive, 8).unwrap();
    fs_event.stop(event_loop.handle());
    let id = match drain(&mut event_loop).as_slice() {
        [Effect::StartWatch(id, 9, WatchMode::Recursive), Effect::Drop(Resource::FsEvent(gone))] => {
            assert_eq!(gone.callback, 8);
            *id
        }
        other => panic!("{:?}", other),
    };
    assert!(!event_loop.has_pending_events());
    assert_eq!(event_loop.process_event(Event::Watch(id)), vec![]);
    assert_eq!(event_loop.run(RunMode::Default, Phase::Timers), Phase::Poll(Some(0)));
    assert_eq!(event_loop.run(RunMode::Default, Phase::Close), Phase::Done);
}

#[test]
fn missing_path_makes_no_request() {
    let mut event_loop = EventLoop::new(1);
    assert_eq!(
        event_loop.handle().fs_watcher(Err(3), WatchMode::Recursive, 8).err(),
        Some(3)
    );
    assert_eq!(
        event_loop.handle().fs_event_start(Err(4), WatchMode::Recursive, 8).err(),
        Some(4)
    );
    assert!(event_loop.handle().is_idle());
}

#[test]
fn terminal_is_read_until_it_is_closed() {
    let mut event_loop = EventLoop::new(1);
    let tty = event_loop.handle().tty();
    assert_eq!(tty.stop, None);
    tty.start_reading(event_loop.handle(), 30, 31);
    let id = match drain(&mut event_loop).as_slice() {
        [Effect::StartTtyRead(id, 31)] => *id,
        other => panic!("{:?}", other),
    };
    let effects = event_loop.process_event(Event::TtyRead(id));
    let reading: TtyHandle = match effects.as_slice() {
        [Effect::TtyCallback(30, handle)] => *handle,
        other => panic!("{:?}", other),
    };
    assert_eq!(reading.stop, Some(31));
    assert_eq!(reading.stop_reading(event_loop.handle()), 31);
    assert_eq!(reading.id, tty.id);
    match drain(&mut event_loop).as_slice() {
        [Effect::Drop(Resource::TtyReader(TtyReader { tty: gone, on_read: 30, stop: 31, .. }))] => {
            assert_eq!(*gone, tty.id)
        }
        other => panic!("{:?}", other),
    }
    assert_eq!(event_loop.process_event(Event::TtyRead(id)), vec![]);
}

#[test]
fn terminal_leads_to_the_reader_that_was_started_last() {
    let mut event_loop = EventLoop::new(1);
    let tty = event_loop.handle().tty();
    tty.start_reading(event_loop.handle(), 30, 31);
    tty.start_reading(event_loop.handle(), 40, 41);
    let ids: Vec<u64> = drain(&mut event_loop)
        .iter()
        .map(|effect| match effect {
            Effect::StartTtyRead(id, _) => *id,
            other => panic!("{:?}", other),
        })
        .collect();
    let first = match event_loop.process_event(Event::TtyRead(ids[0])).as_slice() {
        [Effect::TtyCallback(30, handle)] => *handle,
        other => panic!("{:?}", other),
    };
    assert_eq!(first.stop_reading(event_loop.handle()), 31);
    drain(&mut event_loop);
    assert_eq!(event_loop.process_event(Event::TtyRead(ids[0])).len(), 1);
    assert_eq!(event_loop.process_event(Event::TtyRead(ids[1])), vec![]);
    // The terminal leads to nothing now.
    first.stop_reading(event_loop.handle());
    assert_eq!(drain(&mut event_loop), vec![]);
}

#[test]
fn closing_a_terminal_that_is_not_read_does_nothing() {
    let mut event_loop = EventLoop::new(1);
    let tty = event_loop.handle().tty();
    event_loop.handle().tty_close(tty.id);
    assert_eq!(drain(&mut event_loop), vec![]);
}

#[test]
fn terminal_modes_are_set() {
    let mut event_loop = EventLoop::new(1);
    let tty = event_loop.handle().tty();
    assert_eq!(tty.set_mode(Mode::Raw), Effect::EnableRawMode);
    assert_eq!(tty.set_mode(Mode::Normal), Effect::DisableRawMode);
    assert_eq!(tty.disable_raw_mode(), Effect::DisableRawMode);
}
