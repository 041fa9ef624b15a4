use crabuv::effect::{Effect, Failure, Interest};
use crabuv::event_loop::{Event, EventLoop, NetworkTarget, Readiness, RunMode};
use crabuv::resource::{resource_of_token, Resource};
use crabuv::tcp_listener::AcceptOutcome;
use crabuv::tcp_stream::{
    ReadOutcome, ReadProgress, SocketStatus, TcpEventKind, TcpStreamHandle, WriteOutcome,
};

fn drain(event_loop: &mut EventLoop) -> Vec<Effect> {
    let drained = event_loop.process_requests();
    assert!(!drained.stuck);
    drained.effects
}

fn ready(token: usize, readable: bool, read_closed: bool, writable: bool) -> Readiness {
    Readiness { token, readable, read_closed, writable }
}

/// Connects a stream of socket 5 and returns its token, identifier and handle.
fn connected(event_loop: &mut EventLoop) -> (usize, u64, TcpStreamHandle) {
    event_loop.handle().tcp_connect(Ok(5), 6).unwrap();
    let token = match drain(event_loop).as_slice() {
        [Effect::Register(5, token, Interest::Writable)] => *token,
        other => panic!("{:?}", other),
    };
    let id = resource_of_token(token);
    let (effects, proceeds) = event_loop.write_to_socket(id, SocketStatus::Healthy);
    assert!(proceeds);
    let handle = match effects.as_slice() {
        [Effect::ConnectionCallback(6, Ok(handle)), Effect::Reregister(5, same, Interest::Readable)] => {
            assert_eq!(*same, token);
            *handle
        }
        other => panic!("{:?}", other),
    };
    assert!(event_loop.write_front(id).is_none());
    assert_eq!(
        event_loop.write_finish(id),
        vec![Effect::Reregister(5, token, Interest::Readable)]
    );
    (token, id, handle)
}

fn read(outcomes: Vec<ReadOutcome>) -> ReadProgress {
    let mut progress = ReadProgress::new();
    for outcome in outcomes {
        assert!(!progress.done);
        let more = progress.step(outcome);
        assert_eq!(more, !progress.done);
    }
    assert!(progress.done);
    progress
}

#[test]
fn readiness_becomes_events() {
    let list = vec![
        ready(0, true, false, false),
        ready(1, true, false, false),
        ready(7, true, false, true),
        ready(8, false, true, false),
        ready(9, false, false, true),
        ready(10, false, false, false),
    ];
    assert_eq!(
        EventLoop::run_poll(&list),
        vec![
            Event::Signal,
            Event::Network(TcpEventKind::Read(7)),
            Event::Network(TcpEventKind::Read(8)),
            Event::Network(TcpEventKind::Write(9)),
        ]
    );
}

#[test]
fn connection_is_reported_once() {
    let mut event_loop = EventLoop::new(1);
    let (token, id, handle) = connected(&mut event_loop);
    assert_eq!(handle.socket, 5);
    assert!(event_loop.accepts(Event::Network(TcpEventKind::Write(token))));
    assert_eq!(
        event_loop.process_network_event(TcpEventKind::Write(token)),
        NetworkTarget::Write(id)
    );
    assert_eq!(event_loop.write_to_socket(id, SocketStatus::Healthy), (vec![], true));
}

#[test]
fn failed_connection_is_reported_and_closed() {
    let mut event_loop = EventLoop::new(1);
    event_loop.handle().tcp_connect(Ok(5), 6).unwrap();
    let token = match drain(&mut event_loop).as_slice() {
        [Effect::Register(5, token, Interest::Writable)] => *token,
        other => panic!("{:?}", other),
    };
    let id = resource_of_token(token);
    assert_eq!(
        event_loop.write_to_socket(id, SocketStatus::Failed(77)),
        (vec![Effect::ConnectionCallback(6, Err(Failure::Reported(77)))], false)
    );
    let effects = event_loop.run_close();
    assert_eq!(effects[0], Effect::Shutdown(5));
    assert!(matches!(effects[1], Effect::Drop(Resource::TcpStream(_))));
    assert_eq!(effects.len(), 2);
    assert!(!event_loop.has_pending_events());
    assert!(!event_loop.accepts(Event::Network(TcpEventKind::Write(token))));
}

#[test]
fn refused_connect_and_bind_make_no_request() {
    let mut event_loop = EventLoop::new(1);
    assert_eq!(event_loop.handle().tcp_connect(Err(3), 6), Err(3));
    assert_eq!(event_loop.handle().tcp_listen(Err(4), 6), Err(4));
    assert!(event_loop.handle().is_idle());
}

#[test]
fn writes_are_reported_in_order() {
    let mut event_loop = EventLoop::new(1);
    let (token, id, handle) = connected(&mut event_loop);
    handle.write(event_loop.handle(), vec![1, 2, 3], 20);
    handle.write(event_loop.handle(), vec![4], 21);
    handle.write(event_loop.handle(), vec![5, 6], 22);
    handle.write(event_loop.handle(), vec![7], 23);
    assert_eq!(
        drain(&mut event_loop),
        vec![
            Effect::Reregister(5, token, Interest::Both),
            Effect::Reregister(5, token, Interest::Both),
            Effect::Reregister(5, token, Interest::Both),
            Effect::Reregister(5, token, Interest::Both),
        ]
    );
    assert_eq!(event_loop.write_front(id), Some(&vec![1, 2, 3]));
    assert_eq!(
        event_loop.write_step(id, WriteOutcome::Written(3)),
        (vec![Effect::WriteCallback(20, handle, Ok(3))], true)
    );
    assert_eq!(
        event_loop.write_step(id, WriteOutcome::Failed(8)),
        (vec![Effect::WriteCallback(21, handle, Err(Failure::Reported(8)))], true)
    );
    assert_eq!(
        event_loop.write_step(id, WriteOutcome::Written(1)),
        (vec![Effect::WriteCallback(22, handle, Err(Failure::ShortWrite))], true)
    );
    assert_eq!(event_loop.write_step(id, WriteOutcome::WouldBlock), (vec![], false));
    assert_eq!(event_loop.write_front(id), Some(&vec![7]));
    assert_eq!(event_loop.write_finish(id), vec![]);
    assert_eq!(
        event_loop.write_step(id, WriteOutcome::Written(1)),
        (vec![Effect::WriteCallback(23, handle, Ok(1))], true)
    );
    assert_eq!(
        event_loop.write_finish(id),
        vec![Effect::Reregister(5, token, Interest::Readable)]
    );
}

#[test]
fn interrupted_write_is_tried_again() {
    let mut event_loop = EventLoop::new(1);
    let (_, id, handle) = connected(&mut event_loop);
    handle.write(event_loop.handle(), vec![1, 2], 20);
    handle.write(event_loop.handle(), vec![3], 21);
    drain(&mut event_loop);
    assert_eq!(event_loop.write_step(id, WriteOutcome::Interrupted), (vec![], true));
    assert_eq!(event_loop.write_front(id), Some(&vec![1, 2]));
    assert_eq!(event_loop.write_step(id, WriteOutcome::Interrupted), (vec![], true));
    assert_eq!(
        event_loop.write_step(id, WriteOutcome::Written(2)),
        (vec![Effect::WriteCallback(20, handle, Ok(2))], true)
    );
    assert_eq!(event_loop.write_front(id), Some(&vec![3]));
}

#[test]
fn socket_error_goes_to_the_next_write() {
    let mut event_loop = EventLoop::new(1);
    let (_, id, handle) = connected(&mut event_loop);
    handle.write(event_loop.handle(), vec![1], 20);
    drain(&mut event_loop);
    assert_eq!(
        event_loop.write_to_socket(id, SocketStatus::Failed(9)),
        (vec![Effect::WriteCallback(20, handle, Err(Failure::Reported(9)))], false)
    );
    assert_eq!(event_loop.write_to_socket(id, SocketStatus::Failed(9)), (vec![], true));
}

#[test]
fn reading_delivers_all_chunks() {
    let mut event_loop = EventLoop::new(1);
    let (token, id, handle) = connected(&mut event_loop);
    handle.start_reading(event_loop.handle(), 40);
    assert_eq!(
        drain(&mut event_loop),
        vec![Effect::Reregister(5, token, Interest::Readable)]
    );
    assert_eq!(
        event_loop.process_network_event(TcpEventKind::Read(token)),
        NetworkTarget::Read(id)
    );
    let progress = read(vec![
        ReadOutcome::Data(vec![1, 2]),
        ReadOutcome::Interrupted,
        ReadOutcome::Data(vec![3]),
        ReadOutcome::WouldBlock,
    ]);
    assert_eq!(
        event_loop.read_from_socket(id, progress),
        vec![Effect::ReadCallback(40, handle, Ok(vec![1, 2, 3]))]
    );
}

#[test]
fn read_that_would_block_has_no_effect() {
    let mut event_loop = EventLoop::new(1);
    let (_, id, handle) = connected(&mut event_loop);
    handle.start_reading(event_loop.handle(), 40);
    drain(&mut event_loop);
    let progress = read(vec![ReadOutcome::WouldBlock]);
    assert_eq!(event_loop.read_from_socket(id, progress), vec![]);
    let progress = read(vec![ReadOutcome::Interrupted, ReadOutcome::WouldBlock]);
    assert_eq!(event_loop.read_from_socket(id, progress), vec![]);
}

#[test]
fn end_of_stream_is_reported_after_the_bytes() {
    let mut event_loop = EventLoop::new(1);
    let (_, id, handle) = connected(&mut event_loop);
    handle.start_reading(event_loop.handle(), 40);
    drain(&mut event_loop);
    let progress = read(vec![ReadOutcome::Data(vec![1]), ReadOutcome::Data(vec![])]);
    assert_eq!(
        event_loop.read_from_socket(id, progress),
        vec![
            Effect::ReadCallback(40, handle, Ok(vec![1])),
            Effect::ReadCallback(40, handle, Ok(vec![])),
        ]
    );
    let progress = read(vec![ReadOutcome::Data(vec![])]);
    assert_eq!(
        event_loop.read_from_socket(id, progress),
        vec![Effect::ReadCallback(40, handle, Ok(vec![]))]
    );
}

#[test]
fn read_error_is_reported_once_reading_ends() {
    let mut event_loop = EventLoop::new(1);
    let (_, id, handle) = connected(&mut event_loop);
    handle.start_reading(event_loop.handle(), 40);
    drain(&mut event_loop);
    let progress = read(vec![
        ReadOutcome::Data(vec![1]),
        ReadOutcome::Failed(12),
        ReadOutcome::WouldBlock,
    ]);
    assert_eq!(
        event_loop.read_from_socket(id, progress),
        vec![Effect::ReadCallback(40, handle, Err(Failure::Reported(12)))]
    );
}

#[test]
fn new_read_callback_takes_the_place_of_the_old_one() {
    let mut event_loop = EventLoop::new(1);
    let (token, _, handle) = connected(&mut event_loop);
    handle.start_reading(event_loop.handle(), 40);
    handle.write(event_loop.handle(), vec![1], 20);
    handle.start_reading(event_loop.handle(), 41);
    assert_eq!(
        drain(&mut event_loop),
        vec![
            Effect::Reregister(5, token, Interest::Readable),
            Effect::Reregister(5, token, Interest::Both),
            Effect::Release(40),
            Effect::Reregister(5, token, Interest::Both),
        ]
    );
}

#[test]
fn stream_that_nobody_reads_is_closed_at_its_end() {
    let mut event_loop = EventLoop::new(1);
    let (_, id, _) = connected(&mut event_loop);
    let progress = read(vec![ReadOutcome::Data(vec![1]), ReadOutcome::WouldBlock]);
    assert_eq!(event_loop.read_from_socket(id, progress), vec![]);
    let progress = read(vec![ReadOutcome::Data(vec![])]);
    assert_eq!(event_loop.read_from_socket(id, progress), vec![Effect::Deregister(5)]);
    assert_eq!(event_loop.poll_timeout(RunMode::Default), Some(0));
    event_loop.run_close();
    assert!(!event_loop.has_pending_events());
}

#[test]
fn closed_stream_runs_its_callback_once() {
    let mut event_loop = EventLoop::new(1);
    let (_, _, handle) = connected(&mut event_loop);
    handle.close(event_loop.handle(), 60);
    handle.close(event_loop.handle(), 61);
    assert_eq!(drain(&mut event_loop), vec![Effect::Release(60)]);
    let effects = event_loop.run_close();
    assert_eq!(effects[0], Effect::Shutdown(5));
    assert_eq!(effects[1], Effect::CloseCallback(61));
    assert!(matches!(effects[2], Effect::Drop(Resource::TcpStream(_))));
    assert_eq!(effects.len(), 3);
    assert_eq!(event_loop.run_close(), vec![]);
}

#[test]
fn shutdown_closes_the_write_side() {
    let mut event_loop = EventLoop::new(1);
    let (_, _, handle) = connected(&mut event_loop);
    handle.shutdown_write(event_loop.handle(), 62);
    assert_eq!(
        drain(&mut event_loop),
        vec![Effect::Shutdown(5), Effect::CloseCallback(62)]
    );
    assert!(event_loop.has_pending_events());
    handle.close(event_loop.handle(), 63);
    drain(&mut event_loop);
    event_loop.run_close();
    handle.shutdown_write(event_loop.handle(), 64);
    assert_eq!(drain(&mut event_loop), vec![Effect::Release(64)]);
}

#[test]
fn write_to_a_closed_stream_cannot_be_served() {
    let mut event_loop = EventLoop::new(1);
    let (_, _, handle) = connected(&mut event_loop);
    handle.close(event_loop.handle(), 60);
    drain(&mut event_loop);
    event_loop.run_close();
    event_loop.handle().spawn(1, 2);
    handle.write(event_loop.handle(), vec![1], 20);
    let drained = event_loop.process_requests();
    assert!(drained.stuck);
    assert!(matches!(drained.effects.as_slice(), [Effect::SpawnWork(_, 1, 2)]));
    assert!(!event_loop.handle().is_idle());
}

#[test]
fn listener_accepts_connections() {
    let mut event_loop = EventLoop::new(1);
    event_loop.handle().tcp_listen(Ok(30), 31).unwrap();
    let token = match drain(&mut event_loop).as_slice() {
        [Effect::Register(30, token, Interest::Readable)] => *token,
        other => panic!("{:?}", other),
    };
    let id = resource_of_token(token);
    assert_eq!(
        event_loop.process_network_event(TcpEventKind::Read(token)),
        NetworkTarget::Accept(id)
    );
    assert!(!event_loop.accepts(Event::Network(TcpEventKind::Write(token))));

    let (effects, more) = event_loop.accept(id, AcceptOutcome::Accepted(32));
    assert!(more);
    let (listener, client) = match effects.as_slice() {
        [Effect::AcceptCallback(31, listener, Ok(client))] => (*listener, *client),
        other => panic!("{:?}", other),
    };
    assert_eq!(client.socket, 32);
    assert_eq!(event_loop.accept(id, AcceptOutcome::WouldBlock), (vec![], false));
    assert_eq!(
        event_loop.accept(id, AcceptOutcome::Failed(90)),
        (vec![Effect::AcceptCallback(31, listener, Err(Failure::Reported(90)))], false)
    );
    assert!(event_loop.can_join_clients());
    let client_token = match event_loop.join_clients().as_slice() {
        [Effect::Register(32, token, Interest::Readable)] => *token,
        other => panic!("{:?}", other),
    };
    assert_ne!(client_token, token);
    assert_eq!(event_loop.join_clients(), vec![]);

    // The new stream can be reached through its handle.
    client.write(event_loop.handle(), vec![1], 33);
    assert_eq!(
        drain(&mut event_loop),
        vec![Effect::Reregister(32, client_token, Interest::Both)]
    );

    listener.shutdown(event_loop.handle(), 34);
    drain(&mut event_loop);
    let effects = event_loop.run_close();
    assert!(matches!(effects.as_slice(), [Effect::Drop(Resource::TcpListener(_))]));
}

#[test]
fn several_connections_join_in_order() {
    let mut event_loop = EventLoop::new(1);
    event_loop.handle().tcp_listen(Ok(30), 31).unwrap();
    let token = match drain(&mut event_loop).as_slice() {
        [Effect::Register(30, token, _)] => *token,
        other => panic!("{:?}", other),
    };
    let id = resource_of_token(token);
    for socket in [40, 41, 42] {
        event_loop.accept(id, AcceptOutcome::Accepted(socket));
    }
    let sockets: Vec<u64> = event_loop
        .join_clients()
        .iter()
        .map(|effect| match effect {
            Effect::Register(socket, _, Interest::Readable) => *socket,
            other => panic!("{:?}", other),
        })
        .collect();
    assert_eq!(sockets, vec![40, 41, 42]);
}
