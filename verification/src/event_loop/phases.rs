//! The phases of an iteration.

use crate::check::Check;
use crate::effect::{lemma_viewed_concat, lemma_viewed_push, viewed, Effect};
use crate::event_loop::lemmas::{lemma_closed_all, lemma_clock, lemma_timers_run};
use crate::event_loop::state::LoopState;
use crate::event_loop::{Event, EventLoop, Phase, Readiness, RunMode, Turn};
use crate::resource::ResourceId;
use crate::tcp_stream::TcpEventKind;
use crate::timers::{is_earliest, Nanos, Timer, TimerKind, MAX_SPAN};
use vstd::prelude::*;

verus! {

/// The token that someone who wakes the loop up is polled under.
pub const WAKER_TOKEN: usize = 0;

/// The token that the signals are polled under.
pub const SIGNAL_TOKEN: usize = 1;

/// The event that a readiness stands for.
pub open spec fn event_of(readiness: Readiness) -> Option<Event> {
    if readiness.token == WAKER_TOKEN {
        None
    } else if readiness.token == SIGNAL_TOKEN {
        Some(Event::Signal)
    } else if readiness.readable || readiness.read_closed {
        Some(Event::Network(TcpEventKind::Read(readiness.token)))
    } else if readiness.writable {
        Some(Event::Network(TcpEventKind::Write(readiness.token)))
    } else {
        None
    }
}

/// The events that a list of readiness stands for.
pub open spec fn events_of(ready: Seq<Readiness>) -> Seq<Event>
    decreases ready.len(),
{
    if ready.len() == 0 {
        Seq::empty()
    } else {
        match event_of(ready.last()) {
            Some(event) => events_of(ready.drop_last()).push(event),
            None => events_of(ready.drop_last()),
        }
    }
}

impl EventLoop {
    /// Takes note of the time at the start of an iteration.
    pub fn update_time(&mut self, now: Nanos)
        requires
            old(self)@.wf(),
            now <= MAX_SPAN,
        ensures
            final(self)@ == (LoopState { now, ..old(self)@ }),
            final(self)@.wf(),
    {
        self.current_time = now;
        proof {
            lemma_clock(old(self)@, now);
            assert(self@ =~= (LoopState { now, ..old(self)@ }));
        }
    }

    /// Runs the event-loop by providing a run mode: returns the phase that
    /// follows the one that has just ended.
    pub fn run(&self, mode: RunMode, phase: Phase) -> (next: Phase)
        requires
            self@.wf(),
        ensures
            next == self@.next_phase(mode, phase),
    {
        match phase {
            Phase::Requests => Phase::Timers,
            // Based on the run_mode and what resources the event-loop is currently
            // running, we will calculate the timeout of the poll phase.
            Phase::Timers => Phase::Poll(self.poll_timeout(mode)),
            Phase::Poll(_) => Phase::Check,
            Phase::Check => Phase::Close,
            // Check if we need to exit, or continue the loop.
            Phase::Close => match mode {
                RunMode::Once | RunMode::NoWait => Phase::Done,
                RunMode::Default => if self.has_pending_events() {
                    Phase::Requests
                } else {
                    Phase::Done
                },
            },
            Phase::Done => Phase::Done,
        }
    }

    /// Returns true if the request queue is to be drained, in case what was just
    /// done has scheduled new work.
    pub fn serves_requests(turn: Turn) -> (serve: bool)
        ensures
            serve == turn.serves(),
    {
        match turn {
            Turn::Phase(phase) => match phase {
                Phase::Requests | Phase::Check | Phase::Close => true,
                Phase::Timers | Phase::Poll(_) | Phase::Done => false,
            },
            Turn::Event => true,
        }
    }

    /// Calculates the waiting time the poll phase should block for events.
    pub fn poll_timeout(&self, mode: RunMode) -> (timeout: Option<Nanos>)
        requires
            self@.wf(),
        ensures
            timeout == self@.poll_timeout(mode),
    {
        if mode == RunMode::NoWait || !self.has_pending_events() {
            return Some(0);
        }
        if self.check_queue.len() > 0 || self.close_queue.len() > 0 {
            return Some(0);
        }
        match self.timers.next() {
            Some((at, _)) => {
                assert(is_earliest(self@.timers, at));
                Some(
                    if at > self.current_time {
                        at - self.current_time
                    } else {
                        0
                    },
                )
            },
            None => {
                assert forall|at: Nanos| !is_earliest(self@.timers, at) by {
                    assert(!self@.timers.dom().contains(at));
                }
                None
            },
        }
    }

    /// Fires one timer that has expired.
    fn fire(&mut self, id: ResourceId) -> (effects: Vec<Effect>)
        requires
            crate::resource::keys_sound(old(self)@.resources),
            crate::resource::issued_sound(old(self)@.issued),
            old(self)@.times_sound(),
        ensures
            (final(self)@, viewed(effects@)) == old(self)@.fired(id),
    {
        let mut effects: Vec<Effect> = Vec::new();
        // In case we have a timer in the list but we don't have it as
        // a resource that means the timer was canceled.
        let (effect, delay, kind) = match self.resources.get_as::<Timer>(id) {
            Some(timer) => {
                assert(self@.resources[id]->Timer_0.delay <= MAX_SPAN);
                (timer.run_callback(), timer.delay, timer.kind)
            },
            None => {
                assert(viewed(effects@) =~= self@.fired(id).1);
                return effects;
            },
        };
        effects.push(effect);
        // If the timer is repeatable reschedule it, otherwise drop it.
        match kind {
            TimerKind::Interval => {
                let expires_at = self.current_time + delay;
                self.timers.insert(expires_at, id);
            },
            TimerKind::Timeout => {
                if let Some(timer) = self.remove_resource(id) {
                    effects.push(Effect::Drop(timer));
                }
            },
        }
        assert(viewed(effects@) =~= old(self)@.fired(id).1);
        assert(self@ =~= old(self)@.fired(id).0);
        effects
    }

    /// Runs all expired timers.
    pub fn run_timers(&mut self) -> (effects: Vec<Effect>)
        requires
            old(self)@.wf(),
        ensures
            (final(self)@, viewed(effects@)) == old(self)@.timers_run(),
            final(self)@.wf(),
    {
        let mut effects: Vec<Effect> = Vec::new();
        let expired = self.timers.split_expired_timers(self.current_time);
        let ghost start = self@;
        proof {
            lemma_timers_run(old(self)@);
            assert(start =~= (LoopState {
                timers: crate::timers::pending_from(old(self)@.timers, old(self)@.now),
                ..old(self)@
            }));
            assert(viewed(effects@) =~= Seq::empty());
        }
        // Iterate through all the expired timers.
        for i in 0..expired.len()
            invariant
                (self@, viewed(effects@)) == start.fired_all(expired@.take(i as int)),
                forall|count: int|
                    0 <= count <= expired@.len() ==> {
                        let step = (#[trigger] start.fired_all(expired@.take(count))).0;
                        &&& crate::resource::keys_sound(step.resources)
                        &&& crate::resource::issued_sound(step.issued)
                        &&& step.times_sound()
                    },
        {
            let ghost earlier = effects@;
            assert(start.fired_all(expired@.take(i as int)).0 == self@);
            let mut more = self.fire(expired[i]);
            proof {
                assert(expired@.take(i + 1).drop_last() =~= expired@.take(i as int));
                lemma_viewed_concat(earlier, more@);
            }
            effects.append(&mut more);
        }
        assert(expired@.take(expired@.len() as int) =~= expired@);
        effects
    }

    /// Returns the events that are ready after polling for new I/O.
    pub fn run_poll(ready: &Vec<Readiness>) -> (events: Vec<Event>)
        ensures
            events@ == events_of(ready@),
    {
        let mut events: Vec<Event> = Vec::new();
        for i in 0..ready.len()
            invariant
                events@ == events_of(ready@.take(i as int)),
        {
            let readiness = ready[i];
            proof {
                assert(ready@.take(i + 1).drop_last() =~= ready@.take(i as int));
                assert(ready@.take(i + 1).last() == readiness);
            }
            // Note: This is a special token signaling that someone woke us up.
            if readiness.token != WAKER_TOKEN {
                if readiness.token == SIGNAL_TOKEN {
                    events.push(Event::Signal);
                } else if readiness.readable || readiness.read_closed {
                    events.push(Event::Network(TcpEventKind::Read(readiness.token)));
                } else if readiness.writable {
                    events.push(Event::Network(TcpEventKind::Write(readiness.token)));
                }
            }
        }
        assert(ready@.take(ready@.len() as int) =~= ready@);
        events
    }

    /// Runs all check callbacks for this loop iteration.
    pub fn run_check_callbacks(&self) -> (effects: Vec<Effect>)
        requires
            self@.wf(),
        ensures
            viewed(effects@) == self@.checked_all(self@.check_queue),
    {
        let mut effects: Vec<Effect> = Vec::new();
        assert(viewed(effects@) =~= Seq::empty());
        for i in 0..self.check_queue.len()
            invariant
                self@.wf(),
                viewed(effects@) == self@.checked_all(self@.check_queue.take(i as int)),
        {
            let id = self.check_queue[i];
            let ghost earlier = effects@;
            let ghost queue = self@.check_queue;
            proof {
                assert(queue.take(i + 1).drop_last() =~= queue.take(i as int));
                assert(queue.take(i + 1).last() == id);
            }
            // Get the resource from the collection.
            if let Some(check) = self.resources.get_as::<Check>(id) {
                effects.push(check.run_callback());
            }
            assert(viewed(effects@) =~= viewed(earlier) + self@.checked(id));
        }
        assert(self@.check_queue.take(self@.check_queue.len() as int) =~= self@.check_queue);
        effects
    }

    /// Runs any clean-up actions on "dying" resources.
    pub fn run_close(&mut self) -> (effects: Vec<Effect>)
        requires
            old(self)@.wf(),
        ensures
            (final(self)@, viewed(effects@)) == old(self)@.closes_run(),
            final(self)@.wf(),
    {
        let mut effects: Vec<Effect> = Vec::new();
        let mut queue: Vec<ResourceId> = Vec::new();
        queue.append(&mut self.close_queue);
        let ghost start = self@;
        proof {
            assert(start =~= (LoopState { close_queue: Seq::empty(), ..old(self)@ }));
            assert(viewed(effects@) =~= Seq::empty());
        }
        for i in 0..queue.len()
            invariant
                old(self)@.wf(),
                queue@ == old(self)@.close_queue,
                start == (LoopState { close_queue: Seq::empty(), ..old(self)@ }),
                (self@, viewed(effects@)) == start.closed_all(queue@.take(i as int)),
        {
            let id = queue[i];
            let ghost before = self@;
            let ghost earlier = effects@;
            proof {
                lemma_closed_all(old(self)@, i as int);
                assert(queue@.take(i + 1).drop_last() =~= queue@.take(i as int));
            }
            match self.remove_resource(id) {
                Some(mut resource) => {
                    let mut more = resource.destroy();
                    proof {
                        lemma_viewed_concat(earlier, more@);
                        lemma_viewed_push(earlier + more@, Effect::Drop(resource));
                    }
                    effects.append(&mut more);
                    effects.push(Effect::Drop(resource));
                    assert(viewed(effects@) =~= viewed(earlier) + before.closed(id).1);
                },
                None => {
                    assert(viewed(effects@) =~= viewed(earlier) + before.closed(id).1);
                },
            }
        }
        proof {
            lemma_closed_all(old(self)@, queue@.len() as int);
            assert(queue@.take(queue@.len() as int) =~= queue@);
        }
        effects
    }
}

/// A socket that is readable, or whose other side is done writing, or both, gives
/// one read event of its token, whether or not it is writable too. One that is
/// only writable gives one write event. Any other gives none, and neither does the
/// waker, whatever it is ready for. The signals give one event of their own.
pub proof fn every_readiness_gives_its_event(readiness: Readiness)
    ensures
        ({
            let events = events_of(seq![readiness]);
            let socket = readiness.token != 0 && readiness.token != 1;
            &&& readiness.token == 0 ==> events.len() == 0
            &&& readiness.token == 1 ==> events == seq![Event::Signal]
            &&& socket && readiness.readable ==> events == seq![
                Event::Network(TcpEventKind::Read(readiness.token)),
            ]
            &&& socket && readiness.read_closed ==> events == seq![
                Event::Network(TcpEventKind::Read(readiness.token)),
            ]
            &&& socket && readiness.writable && !readiness.readable && !readiness.read_closed
                ==> events == seq![Event::Network(TcpEventKind::Write(readiness.token))]
            &&& socket && !readiness.writable && !readiness.readable && !readiness.read_closed
                ==> events.len() == 0
        }),
{
    let one = seq![readiness];
    assert(one.drop_last() =~= Seq::<Readiness>::empty());
    assert(events_of(one.drop_last()) =~= Seq::<Event>::empty());
    let events = events_of(one);
    if events.len() == 1 {
        assert(events =~= seq![events[0]]);
    }
}

/// Events come in the order in which polling has reported what they stand for:
/// those of two reports together are those of the first and then those of the
/// second.
pub proof fn events_come_in_order(first: Seq<Readiness>, second: Seq<Readiness>)
    ensures
        events_of(first + second) == events_of(first) + events_of(second),
    decreases second.len(),
{
    if second.len() == 0 {
        assert(first + second =~= first);
        assert(events_of(first) + Seq::<Event>::empty() =~= events_of(first));
    } else {
        let less = second.drop_last();
        events_come_in_order(first, less);
        assert((first + second).drop_last() =~= first + less);
        assert(events_of(first + second) =~= events_of(first) + events_of(second));
    }
}

} // verus!
