use crabuv::effect::Interest;
use crabuv::event_loop::Readiness;
use crabuv::index_loop::handle::ConnectOutcome;
use crabuv::index_loop::read_buffer::ReadBuffer;
use crabuv::index_loop::{
    network_event, Command, Event, EventLoop, Prepared, SocketTurn, Stage, TcpEvent,
    TcpSocketInfo, TimerWrap, Turn, Wrap,
};
use crabuv::tcp_stream::{ReadOutcome, SocketStatus};
use crabuv::timers::MAX_SPAN;

fn prepare(event_loop: &mut EventLoop, now: u128) -> Vec<Command> {
    let mut all = Vec::new();
    loop {
        match event_loop.prepare(now) {
            Prepared::Idle => return all,
            Prepared::Stuck => panic!(),
            Prepared::Commands(mut commands) => all.append(&mut commands),
        }
    }
}

fn connected(event_loop: &mut EventLoop) -> u32 {
    let index = event_loop.handle().tcp_connect(ConnectOutcome::Started(5), 6).unwrap();
    assert_eq!(
        prepare(event_loop, 0),
        vec![Command::Register(5, index as usize, Interest::Writable)]
    );
    assert_eq!(
        event_loop.run_tcp_socket_write(index, SocketStatus::Healthy),
        SocketTurn::Connected(5, 6)
    );
    index
}

#[test]
fn indexes_run_from_one() {
    let mut event_loop = EventLoop::new();
    assert_eq!(event_loop.handle().index(), 1);
    assert_eq!(event_loop.handle().timer(5, false, 1), 2);
    assert_eq!(event_loop.handle().spawn(1, None), 3);
    assert_eq!(event_loop.handle().tcp_connect(ConnectOutcome::Failed(8), 1), Err(8));
    assert_eq!(event_loop.handle().tcp_connect(ConnectOutcome::InvalidAddress(9), 1), Err(9));
    assert_eq!(event_loop.handle().tcp_connect(ConnectOutcome::Started(7), 1), Ok(5));
}

#[test]
fn stages_of_a_tick() {
    let event_loop = EventLoop::new();
    assert_eq!(event_loop.tick(Stage::Prepare), Stage::Timers);
    assert_eq!(event_loop.tick(Stage::Timers), Stage::Poll);
    assert_eq!(event_loop.tick(Stage::Poll), Stage::Done);
    assert_eq!(event_loop.tick(Stage::Done), Stage::Done);
}

#[test]
fn one_shot_timer_fires_once() {
    let mut event_loop = EventLoop::new();
    assert!(!event_loop.has_pending_events());
    let index = event_loop.handle().timer(2, false, 70);
    assert!(event_loop.has_pending_events());
    assert_eq!(prepare(&mut event_loop, 1_000), vec![]);
    assert_eq!(event_loop.run_poll(1_000), 2_000_000);
    assert_eq!(event_loop.run_timers(2_001_000), Vec::<u32>::new());
    assert_eq!(event_loop.run_timers(2_001_001), vec![index]);
    assert_eq!(event_loop.run_timer(index), Some(Command::TimerCallback(70)));
    let gone = TimerWrap { cb: 70, expires_at: 2_000_000, repeat: false };
    assert_eq!(
        event_loop.finish_timer(index, 2_001_002),
        vec![Command::Drop(Wrap::Timer(gone))]
    );
    assert_eq!(event_loop.run_timer(index), None);
    assert!(!event_loop.has_pending_events());
}

#[test]
fn repeating_timer_starts_anew_after_its_callback() {
    let mut event_loop = EventLoop::new();
    let index = event_loop.handle().timer(1, true, 70);
    prepare(&mut event_loop, 0);
    assert_eq!(event_loop.run_timers(1_000_001), vec![index]);
    assert_eq!(event_loop.finish_timer(index, 1_500_000), vec![]);
    assert_eq!(event_loop.run_poll(1_500_000), 1_000_000);
    assert_eq!(event_loop.run_timers(2_500_001), vec![index]);
}

#[test]
fn removed_timer_is_never_due() {
    let mut event_loop = EventLoop::new();
    let first = event_loop.handle().timer(1, true, 70);
    let second = event_loop.handle().timer(2, false, 71);
    prepare(&mut event_loop, 0);
    event_loop.handle().remove_timer(first);
    let gone = TimerWrap { cb: 70, expires_at: 1_000_000, repeat: true };
    assert_eq!(prepare(&mut event_loop, 0), vec![Command::Drop(Wrap::Timer(gone))]);
    assert_eq!(event_loop.run_timers(MAX_SPAN), vec![second]);
    event_loop.handle().remove_timer(first);
    assert_eq!(prepare(&mut event_loop, 0), vec![]);
}

#[test]
fn timers_of_one_instant_are_all_due() {
    let mut event_loop = EventLoop::new();
    let first = event_loop.handle().timer(1, false, 70);
    let second = event_loop.handle().timer(1, false, 71);
    prepare(&mut event_loop, 0);
    assert_eq!(event_loop.run_timers(1_000_000), Vec::<u32>::new());
    assert_eq!(event_loop.run_timers(1_000_001), vec![first, second]);
    assert_eq!(event_loop.run_timers(MAX_SPAN), Vec::<u32>::new());
}

#[test]
fn removing_a_timer_spares_others_of_the_instant() {
    let mut event_loop = EventLoop::new();
    let first = event_loop.handle().timer(1, false, 70);
    let second = event_loop.handle().timer(1, false, 71);
    let third = event_loop.handle().timer(1, false, 72);
    event_loop.handle().remove_timer(second);
    prepare(&mut event_loop, 0);
    assert_eq!(event_loop.run_timers(MAX_SPAN), vec![first, third]);
}

#[test]
fn work_is_pending_until_it_is_done() {
    let mut event_loop = EventLoop::new();
    assert!(!event_loop.has_pending_events());
    let timer = event_loop.handle().timer(1, false, 70);
    assert!(event_loop.has_pending_events());
    prepare(&mut event_loop, 0);
    assert!(event_loop.has_pending_events());
    event_loop.handle().remove_timer(timer);
    prepare(&mut event_loop, 0);
    assert!(!event_loop.has_pending_events());
}

#[test]
fn read_that_would_block_is_not_reported() {
    let mut event_loop = EventLoop::new();
    let index = connected(&mut event_loop);
    event_loop.handle().tcp_read_start(index, 95);
    prepare(&mut event_loop, 0);
    let mut buffer = ReadBuffer::new();
    assert!(!buffer.step(ReadOutcome::WouldBlock));
    assert_eq!(event_loop.run_tcp_socket_read(index, buffer), vec![]);
    let mut buffer = ReadBuffer::new();
    assert!(!buffer.step(ReadOutcome::Data(vec![])));
    assert_eq!(
        event_loop.run_tcp_socket_read(index, buffer),
        vec![Command::ReadCallback(95, index, Ok(vec![]))]
    );
}

#[test]
fn due_timers_come_in_order() {
    let mut event_loop = EventLoop::new();
    let late = event_loop.handle().timer(3, false, 70);
    let early = event_loop.handle().timer(1, false, 71);
    let middle = event_loop.handle().timer(2, false, 72);
    prepare(&mut event_loop, 0);
    assert_eq!(event_loop.run_timers(2_000_001), vec![early, middle]);
    assert_eq!(event_loop.run_timers(3_000_001), vec![late]);
}

#[test]
fn poll_waits_for_tasks() {
    let mut event_loop = EventLoop::new();
    assert_eq!(event_loop.run_poll(0), 0);
    let index = event_loop.handle().spawn(80, Some(81));
    assert_eq!(prepare(&mut event_loop, 0), vec![Command::Execute(index, 80)]);
    assert_eq!(event_loop.run_poll(0), MAX_SPAN);
    assert!(event_loop.accepts(Event::ThreadPool(index), SocketStatus::Healthy));
    assert_eq!(event_loop.run_task_callback(index), vec![Command::TaskCallback(81)]);
    assert_eq!(event_loop.run_poll(0), 0);
    assert_eq!(event_loop.run_task_callback(index), vec![]);
}

#[test]
fn task_without_callback_is_not_tracked() {
    let mut event_loop = EventLoop::new();
    let index = event_loop.handle().spawn(80, None);
    prepare(&mut event_loop, 0);
    assert!(!event_loop.has_pending_events());
    assert_eq!(event_loop.run_task_callback(index), vec![]);
    // It stays counted.
    assert_eq!(event_loop.run_poll(0), MAX_SPAN);
}

#[test]
fn readiness_for_both_is_no_event() {
    let ready = |readable: bool, read_closed: bool, writable: bool| Readiness {
        token: 3,
        readable,
        read_closed,
        writable,
    };
    assert_eq!(network_event(ready(true, false, false)), Some(TcpEvent::Read(3)));
    assert_eq!(network_event(ready(false, true, false)), Some(TcpEvent::Read(3)));
    assert_eq!(network_event(ready(false, false, true)), Some(TcpEvent::Write(3)));
    assert_eq!(network_event(ready(true, false, true)), None);
    assert_eq!(network_event(ready(false, false, false)), None);
}

#[test]
fn established_connection_is_reported() {
    let mut event_loop = EventLoop::new();
    let index = connected(&mut event_loop);
    assert_eq!(
        EventLoop::connected(index, 5, 6, 100, 101),
        vec![
            Command::ConnectionCallback(
                6,
                index,
                Ok(TcpSocketInfo { id: index, local_address: 100, remote_address: 101 })
            ),
            Command::Reregister(5, index as usize, Interest::Readable),
        ]
    );
    assert_eq!(
        event_loop.run_tcp_socket_write(index, SocketStatus::Healthy),
        SocketTurn::Done(vec![])
    );
    // An error is expected of a connection attempt only.
    let event = Event::Network(TcpEvent::Write(index));
    assert!(!event_loop.accepts(event, SocketStatus::Failed(1)));
}

#[test]
fn failed_connection_is_reported_and_dropped() {
    let mut event_loop = EventLoop::new();
    let index = event_loop.handle().tcp_connect(ConnectOutcome::Started(5), 6).unwrap();
    prepare(&mut event_loop, 0);
    match event_loop.run_tcp_socket_write(index, SocketStatus::Failed(9)) {
        SocketTurn::Done(commands) => {
            assert_eq!(commands[0], Command::ConnectionCallback(6, index, Err(9)));
            assert!(matches!(commands[1], Command::Drop(Wrap::Tcp(_))));
            assert_eq!(commands.len(), 2);
        }
        other => panic!("{:?}", other),
    }
    assert!(!event_loop.has_pending_events());
    assert_eq!(
        event_loop.run_tcp_socket_write(index, SocketStatus::Failed(9)),
        SocketTurn::Done(vec![])
    );
}

#[test]
fn queued_writes_are_taken_in_order() {
    let mut event_loop = EventLoop::new();
    let index = connected(&mut event_loop);
    event_loop.handle().tcp_write(index, vec![1, 2], 90);
    event_loop.handle().tcp_write(index, vec![3], 91);
    assert_eq!(
        prepare(&mut event_loop, 0),
        vec![
            Command::Reregister(5, index as usize, Interest::Both),
            Command::Reregister(5, index as usize, Interest::Both),
        ]
    );
    assert_eq!(
        event_loop.run_tcp_socket_write(index, SocketStatus::Healthy),
        SocketTurn::Write(5, vec![1, 2], 90)
    );
    assert_eq!(EventLoop::written(index, 90, Ok(1)), Command::WriteCallback(90, index, Ok(1)));
    assert_eq!(EventLoop::written(index, 90, Err(4)), Command::WriteCallback(90, index, Err(4)));
    assert_eq!(
        event_loop.run_tcp_socket_write(index, SocketStatus::Healthy),
        SocketTurn::Write(5, vec![3], 91)
    );
}

#[test]
fn reads_collect_all_bytes() {
    let mut event_loop = EventLoop::new();
    let index = connected(&mut event_loop);
    let event = Event::Network(TcpEvent::Read(index));
    assert!(!event_loop.accepts(event, SocketStatus::Healthy));
    event_loop.handle().tcp_read_start(index, 95);
    assert_eq!(
        prepare(&mut event_loop, 0),
        vec![Command::Reregister(5, index as usize, Interest::Readable)]
    );
    assert!(event_loop.accepts(event, SocketStatus::Healthy));
    assert_eq!(event_loop.read_socket(index), Some(5));

    let mut buffer = ReadBuffer::new();
    assert_eq!(buffer.room(), 4096);
    assert!(buffer.step(ReadOutcome::Data(vec![7; 4096])));
    assert_eq!(buffer.room(), 1024);
    assert!(buffer.step(ReadOutcome::Interrupted));
    assert!(buffer.step(ReadOutcome::Data(vec![8; 3])));
    assert_eq!(buffer.room(), 1021);
    assert!(!buffer.step(ReadOutcome::Data(vec![])));
    let mut expected = vec![7; 4096];
    expected.extend([8; 3]);
    assert_eq!(
        event_loop.run_tcp_socket_read(index, buffer),
        vec![Command::ReadCallback(95, index, Ok(expected))]
    );
}

#[test]
fn read_error_hides_the_bytes() {
    let mut event_loop = EventLoop::new();
    let index = connected(&mut event_loop);
    event_loop.handle().tcp_read_start(index, 95);
    event_loop.handle().tcp_read_start(index, 96);
    assert_eq!(
        prepare(&mut event_loop, 0),
        vec![
            Command::Reregister(5, index as usize, Interest::Readable),
            Command::Release(95),
            Command::Reregister(5, index as usize, Interest::Readable),
        ]
    );
    let mut buffer = ReadBuffer::new();
    assert!(buffer.step(ReadOutcome::Data(vec![1])));
    assert!(buffer.step(ReadOutcome::Failed(3)));
    assert!(!buffer.step(ReadOutcome::WouldBlock));
    assert_eq!(
        event_loop.run_tcp_socket_read(index, buffer),
        vec![Command::ReadCallback(96, index, Err(3))]
    );
}

#[test]
fn closed_connection_is_silent() {
    let mut event_loop = EventLoop::new();
    let index = connected(&mut event_loop);
    event_loop.handle().tcp_close(index, 99);
    let commands = prepare(&mut event_loop, 0);
    assert!(matches!(commands[0], Command::Drop(Wrap::Tcp(_))));
    assert_eq!(commands[1], Command::CloseCallback(99));
    assert_eq!(event_loop.read_socket(index), None);
    assert_eq!(event_loop.run_tcp_socket_read(index, ReadBuffer::new()), vec![]);
    event_loop.handle().tcp_write(index, vec![1], 90);
    event_loop.handle().tcp_read_start(index, 91);
    assert_eq!(
        prepare(&mut event_loop, 0),
        vec![Command::Release(90), Command::Release(91)]
    );
    // A second close has nothing to close.
    event_loop.handle().tcp_close(index, 99);
    assert_eq!(event_loop.prepare(0), Prepared::Stuck);
}

#[test]
fn actions_for_other_resources_cannot_be_performed() {
    let mut event_loop = EventLoop::new();
    let index = event_loop.handle().timer(1, false, 70);
    prepare(&mut event_loop, 0);
    event_loop.handle().tcp_write(index, vec![1], 90);
    assert_eq!(event_loop.prepare(0), Prepared::Stuck);
    assert!(!event_loop.accepts(Event::ThreadPool(index), SocketStatus::Healthy));
    assert!(event_loop.accepts(Event::Interrupt, SocketStatus::Healthy));
}

#[test]
fn actions_are_performed_where_callbacks_have_run() {
    assert!(EventLoop::performs_actions(Turn::Stage(Stage::Prepare)));
    assert!(EventLoop::performs_actions(Turn::Stage(Stage::Timers)));
    assert!(!EventLoop::performs_actions(Turn::Stage(Stage::Poll)));
    assert!(!EventLoop::performs_actions(Turn::Stage(Stage::Done)));
    assert!(!EventLoop::performs_actions(Turn::Event(Event::Interrupt)));
    assert!(EventLoop::performs_actions(Turn::Event(Event::ThreadPool(1))));
    assert!(EventLoop::performs_actions(Turn::Event(Event::Network(TcpEvent::Read(1)))));
}

#[test]
fn timer_keeps_its_instant_among_others() {
    let mut event_loop = EventLoop::new();
    let kept = event_loop.handle().timer(5, false, 70);
    prepare(&mut event_loop, 0);
    let other = event_loop.handle().timer(3, false, 71);
    prepare(&mut event_loop, 1_000_000);
    assert_eq!(event_loop.run_timers(4_000_001), vec![other]);
    event_loop.handle().remove_timer(other);
    prepare(&mut event_loop, 4_000_001);
    assert_eq!(event_loop.run_timers(5_000_000), Vec::<u32>::new());
    assert_eq!(event_loop.run_timers(5_000_001), vec![kept]);
}
