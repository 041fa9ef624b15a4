use crabuv::effect::Effect;
use crabuv::event_loop::EventLoop;
use crabuv::signals::{Lifetime, OsSignals, Signal, SignalError, SignalHandle, SignalNum};

fn listener(id: u64, lifetime: Lifetime) -> Signal {
    Signal { id, callback: id + 100, lifetime }
}

fn called(id: u64, number: i32) -> Effect {
    Effect::SignalCallback(id + 100, SignalHandle { id }, number)
}

fn number(value: i32) -> SignalNum {
    SignalNum::try_from(value).unwrap()
}

#[test]
fn numbers_are_checked() {
    assert_eq!(SignalNum::try_from(2).map(|signum| signum.number()), Ok(2));
    assert_eq!(SignalNum::try_from(31).map(|signum| signum.number()), Ok(31));
    assert_eq!(SignalNum::try_from(32).err(), Some(SignalError::OutOfRange));
    assert_eq!(SignalNum::try_from(4).err(), Some(SignalError::Forbidden));
    assert_eq!(SignalNum::try_from(8).err(), Some(SignalError::Forbidden));
    assert_eq!(SignalNum::try_from(11).err(), Some(SignalError::Forbidden));
}

#[test]
fn forbidden_signals_come_from_the_system() {
    for value in signal_hook::consts::FORBIDDEN {
        assert_eq!(SignalNum::try_from(*value).err(), Some(SignalError::Forbidden));
    }
    for value in 1..=31 {
        let forbidden = signal_hook::consts::FORBIDDEN.contains(&value);
        assert_eq!(SignalNum::try_from(value).is_err(), forbidden);
    }
}

#[test]
fn given_forbidden_signals_are_refused() {
    assert_eq!(SignalNum::checked(5, &vec![3, 5]).err(), Some(SignalError::Forbidden));
    assert_eq!(SignalNum::checked(6, &vec![3, 5]).map(|signum| signum.number()), Ok(6));
    assert_eq!(SignalNum::checked(40, &vec![40]).err(), Some(SignalError::OutOfRange));
    assert_eq!(SignalNum::checked(-3, &vec![]).map(|signum| signum.number()), Ok(-3));
}

#[test]
fn errors_have_messages() {
    assert_eq!(SignalError::OutOfRange.message(), "Signal number out of range");
    assert_eq!(SignalError::Forbidden.message(), "Forbidden signal provided");
}

#[test]
fn listeners_run_in_order_and_oneshots_leave() {
    let mut signals = OsSignals::new();
    signals.add_handler(number(2), listener(1, Lifetime::Oneshot));
    signals.add_handler(number(2), listener(2, Lifetime::Persistent));
    signals.add_handler(number(15), listener(3, Lifetime::Persistent));
    assert_eq!(
        signals.run_pending(&vec![2]),
        vec![called(1, 2), Effect::Release(101), called(2, 2)]
    );
    assert_eq!(
        signals.run_pending(&vec![2, 15]),
        vec![called(2, 2), called(3, 15)]
    );
}

#[test]
fn default_action_comes_back_after_the_last_listener() {
    let mut signals = OsSignals::new();
    signals.add_handler(number(2), listener(1, Lifetime::Oneshot));
    // Nobody ever listened to this one.
    assert_eq!(signals.run_pending(&vec![15]), vec![]);
    assert_eq!(
        signals.run_pending(&vec![2, 2]),
        vec![called(1, 2), Effect::Release(101), Effect::EmulateDefault(2)]
    );
}

#[test]
fn interrupt_has_its_default_action_without_listeners() {
    let mut signals = OsSignals::new();
    assert_eq!(signals.run_interrupt(2), vec![Effect::EmulateDefault(2)]);
    signals.add_handler(number(2), listener(1, Lifetime::Oneshot));
    assert_eq!(signals.run_interrupt(2), vec![called(1, 2), Effect::Release(101)]);
    assert_eq!(signals.run_interrupt(2), vec![Effect::EmulateDefault(2)]);
}

#[test]
fn removed_listener_is_not_called() {
    let mut signals = OsSignals::new();
    signals.add_handler(number(2), listener(1, Lifetime::Persistent));
    signals.add_handler(number(2), listener(2, Lifetime::Persistent));
    assert_eq!(signals.remove_handler(1), vec![Effect::Release(101)]);
    assert_eq!(signals.remove_handler(1), vec![]);
    assert_eq!(signals.run_pending(&vec![2]), vec![called(2, 2)]);
}

#[test]
fn signals_go_through_the_loop() {
    let mut event_loop = EventLoop::new(1);
    let handle = event_loop.handle().signal(2, Lifetime::Persistent, 50).unwrap();
    assert_eq!(event_loop.process_requests().effects, vec![Effect::WatchSignal(2)]);
    assert_eq!(
        event_loop.process_signals(&vec![2]),
        vec![Effect::SignalCallback(50, handle, 2)]
    );
    assert_eq!(
        event_loop.process_interrupt(2),
        vec![Effect::SignalCallback(50, handle, 2)]
    );
    handle.stop(event_loop.handle());
    assert_eq!(event_loop.process_requests().effects, vec![Effect::Release(50)]);
    assert_eq!(event_loop.process_signals(&vec![2]), vec![Effect::EmulateDefault(2)]);
}

#[test]
fn refused_signal_makes_no_request() {
    let mut event_loop = EventLoop::new(1);
    assert_eq!(
        event_loop.handle().signal(64, Lifetime::Oneshot, 50).err(),
        Some(SignalError::OutOfRange)
    );
    assert_eq!(
        event_loop.handle().signal(11, Lifetime::Oneshot, 50).err(),
        Some(SignalError::Forbidden)
    );
    assert!(event_loop.handle().is_idle());
}

#[test]
fn signal_listeners_do_not_keep_the_loop_alive() {
    let mut event_loop = EventLoop::new(1);
    event_loop.handle().signal(2, Lifetime::Persistent, 50).unwrap();
    event_loop.process_requests();
    assert!(!event_loop.has_pending_events());
}

#[test]
fn refused_signals_make_no_request() {
    let mut event_loop = EventLoop::new(1);
    for number in [4, 8, 11] {
        let refused = event_loop.handle().signal(number, Lifetime::Oneshot, 1);
        assert_eq!(refused.err(), Some(SignalError::Forbidden));
    }
    let killed = event_loop.handle().signal(9, Lifetime::Oneshot, 1);
    assert_ne!(killed.err(), Some(SignalError::OutOfRange));
    let refused = event_loop.handle().signal(32, Lifetime::Oneshot, 1);
    assert_eq!(refused.err(), Some(SignalError::OutOfRange));
}
