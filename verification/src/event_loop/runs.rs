//! Everything that can happen to an event-loop, step by step.
//!
//! A step is one call of a method of the loop, or, where a method serves several
//! requests or new connections, its work on one of them. A run is a sequence of
//! steps, as a driver takes them over any number of iterations.

use crate::effect::{viewed, EffectView, Effect, Interest};
use crate::event_loop::lemmas::{
    lemma_accepted, lemma_changed, lemma_client_joined, lemma_clock, lemma_close_queued,
    lemma_closed_all, lemma_finished, lemma_handle_used, lemma_received, lemma_served,
    lemma_settled, lemma_signaled_all, lemma_timers_run,
};
use crate::event_loop::state::LoopState;
use crate::event_loop::{Event, HandleView};
use crate::resource::{token_of, ResourceId, ResourceKind, ResourceView};
use crate::signals::{interrupted, signaled_all};
use crate::tcp_listener::{accepted_stream, AcceptOutcome};
use crate::tcp_stream::{
    write_after, write_end, write_start, ReadView, SocketStatus, WriteOutcome,
};
use crate::timers::{expired_before, pending_from, Nanos, MAX_SPAN};
use vstd::prelude::*;

verus! {

/// One thing that happens to an event-loop.
pub enum Step {
    /// The handle is used, and is afterwards as given.
    Use(HandleView),
    /// The clock is read.
    Clock(Nanos),
    /// The next request is served. What it adds gets the identifier.
    Serve(ResourceId),
    /// The expired timers fire.
    Timers,
    /// The check callbacks run.
    Checks,
    /// The dying resources are cleaned up.
    Closes,
    /// An event is processed.
    Event(Event),
    /// A worker is done with a task that was canceled before it started.
    Skip,
    /// A socket was read from.
    Read(ResourceId, ReadView),
    /// A socket is about to be written to.
    WriteStart(ResourceId, SocketStatus),
    /// A socket was written to.
    Write(ResourceId, WriteOutcome),
    /// The writing to a socket is over for now.
    WriteEnd(ResourceId),
    /// A connection was accepted, or not.
    Accept(ResourceId, AcceptOutcome),
    /// The stream of the next new connection joins, under the identifier.
    Join(ResourceId),
    /// Signals are pending.
    Signals(Seq<i32>),
    /// An interrupt has come.
    Interrupt(i32),
}

impl LoopState {
    /// Whether a step may be taken.
    pub open spec fn allows(self, step: Step) -> bool {
        match step {
            Step::Use(handle) => self.handle.used(handle),
            Step::Clock(now) => now <= MAX_SPAN,
            Step::Serve(id) => {
                &&& self.handle.requests.len() > 0
                &&& self.servable(self.handle.requests[0])
                &&& self.handle.requests[0].resource() is Some ==> self.available(id)
            },
            Step::Event(event) => self.accepts(event),
            Step::Skip => self.pool.pending > 0,
            Step::Read(id, _) | Step::WriteStart(id, _) | Step::WriteEnd(id) => self.holds(
                id,
                ResourceKind::TcpStream,
            ),
            Step::Write(id, _) => self.holds(id, ResourceKind::TcpStream)
                && self.resources[id]->TcpStream_0.write_queue.len() > 0,
            Step::Accept(id, outcome) => self.holds(id, ResourceKind::TcpListener) && (
            outcome is Accepted ==> self.handle.next_id < u64::MAX),
            Step::Join(id) => self.accepted.len() > 0 && self.available(id),
            Step::Timers | Step::Checks | Step::Closes | Step::Signals(_) | Step::Interrupt(
                _,
            ) => true,
        }
    }

    /// What a step leads to.
    pub open spec fn stepped(self, step: Step) -> (LoopState, Seq<EffectView>) {
        match step {
            Step::Use(handle) => (LoopState { handle, ..self }, Seq::empty()),
            Step::Clock(now) => (LoopState { now, ..self }, Seq::empty()),
            Step::Serve(id) => self.received().served(self.handle.requests[0], id),
            Step::Timers => self.timers_run(),
            Step::Checks => (self, self.checked_all(self.check_queue)),
            Step::Closes => self.closes_run(),
            Step::Event(event) => self.dispatched(event),
            Step::Skip => (self.settled(), Seq::empty()),
            Step::Read(id, progress) => self.stream_read(id, progress),
            Step::WriteStart(id, status) => (
                self.stream_write_start(id, status).0,
                self.stream_write_start(id, status).1,
            ),
            Step::Write(id, outcome) => (
                self.stream_write(id, outcome).0,
                self.stream_write(id, outcome).1,
            ),
            Step::WriteEnd(id) => (self, write_end(self.resources[id]->TcpStream_0, id)),
            Step::Accept(id, outcome) => (
                self.connection_accepted(id, outcome).0,
                self.connection_accepted(id, outcome).1,
            ),
            Step::Join(id) => self.client_joined(id),
            Step::Signals(numbers) => (
                LoopState { signals: signaled_all(self.signals, numbers).0, ..self },
                viewed(signaled_all(self.signals, numbers).1),
            ),
            Step::Interrupt(number) => (
                LoopState { signals: interrupted(self.signals, number).0, ..self },
                viewed(interrupted(self.signals, number).1),
            ),
        }
    }

    /// The stream of the first of the new connections joins.
    pub open spec fn client_joined(self, id: ResourceId) -> (LoopState, Seq<EffectView>) {
        (
            LoopState {
                accepted: self.accepted.drop_first(),
                ..self.joined(id, ResourceView::TcpStream(self.accepted[0]))
            },
            seq![
                EffectView::Plain(
                    Effect::Register(self.accepted[0].socket, token_of(id), Interest::Readable),
                ),
            ],
        )
    }

    /// Whether the steps may be taken one after the other.
    pub open spec fn allows_all(self, steps: Seq<Step>) -> bool
        decreases steps.len(),
    {
        steps.len() == 0 || (self.allows_all(steps.drop_last()) && self.ran(
            steps.drop_last(),
        ).0.allows(steps.last()))
    }

    /// What a run leads to.
    pub open spec fn ran(self, steps: Seq<Step>) -> (LoopState, Seq<EffectView>)
        decreases steps.len(),
    {
        if steps.len() == 0 {
            (self, Seq::empty())
        } else {
            let (before, effects) = self.ran(steps.drop_last());
            let (after, more) = before.stepped(steps.last());
            (after, effects + more)
        }
    }
}

/// The steps of serving requests, where what they add gets the given
/// identifiers.
pub open spec fn serving(ids: Seq<ResourceId>) -> Seq<Step> {
    ids.map_values(|id: ResourceId| Step::Serve(id))
}

/// The steps of joining new connections under the given identifiers.
pub open spec fn joining(ids: Seq<ResourceId>) -> Seq<Step> {
    ids.map_values(|id: ResourceId| Step::Join(id))
}

/// Every step keeps the loop sound.
pub proof fn step_keeps_loop_sound(state: LoopState, step: Step)
    requires
        state.wf(),
        state.allows(step),
    ensures
        state.stepped(step).0.wf(),
{
    match step {
        Step::Use(handle) => lemma_handle_used(state, handle),
        Step::Clock(now) => lemma_clock(state, now),
        Step::Serve(id) => {
            lemma_received(state);
            lemma_served(state.received(), state.handle.requests[0], id);
        },
        Step::Timers => lemma_timers_run(state),
        Step::Closes => {
            let count = state.close_queue.len() as int;
            lemma_closed_all(state, count);
            assert(state.close_queue.take(count) =~= state.close_queue);
        },
        Step::Event(event) => {
            if let Event::ThreadPool(id) = event {
                lemma_finished(state, id);
            }
        },
        Step::Skip => lemma_settled(state),
        Step::Read(id, progress) => lemma_close_queued(state, id),
        Step::WriteStart(id, status) => {
            let stream = ResourceView::TcpStream(
                write_start(state.resources[id]->TcpStream_0, id, status).stream,
            );
            lemma_changed(state, id, stream);
            lemma_close_queued(state.changed(id, stream), id);
        },
        Step::Write(id, outcome) => {
            let stream = ResourceView::TcpStream(
                write_after(state.resources[id]->TcpStream_0, outcome).0,
            );
            lemma_changed(state, id, stream);
        },
        Step::Accept(id, outcome) => {
            if let AcceptOutcome::Accepted(socket) = outcome {
                lemma_accepted(state, accepted_stream(state.handle.next_id, socket));
            }
        },
        Step::Join(id) => lemma_client_joined(state, id),
        Step::Signals(numbers) => lemma_signaled_all(state, numbers),
        Step::Interrupt(number) => {
            let one: Seq<i32> = seq![number];
            assert(one.drop_last() =~= Seq::<i32>::empty());
            reveal_with_fuel(signaled_all, 2);
            lemma_signaled_all(state, one);
            assert(state =~= (LoopState { signals: state.signals, ..state }));
        },
        Step::Checks | Step::WriteEnd(_) => {},
    }
}

/// Every run keeps the loop sound.
pub proof fn run_keeps_loop_sound(state: LoopState, steps: Seq<Step>)
    requires
        state.wf(),
        state.allows_all(steps),
    ensures
        state.ran(steps).0.wf(),
    decreases steps.len(),
{
    if steps.len() > 0 {
        run_keeps_loop_sound(state, steps.drop_last());
        step_keeps_loop_sound(state.ran(steps.drop_last()).0, steps.last());
    }
}

/// A run and a run after it are one run.
pub proof fn runs_add_up(state: LoopState, first: Seq<Step>, second: Seq<Step>)
    ensures
        state.allows_all(first + second) == (state.allows_all(first) && state.ran(
            first,
        ).0.allows_all(second)),
        state.ran(first + second).0 == state.ran(first).0.ran(second).0,
        state.ran(first + second).1 == state.ran(first).1 + state.ran(first).0.ran(second).1,
    decreases second.len(),
{
    let all = first + second;
    if second.len() == 0 {
        assert(all =~= first);
        assert(state.ran(first).1 + Seq::<EffectView>::empty() =~= state.ran(first).1);
    } else {
        let less = second.drop_last();
        runs_add_up(state, first, less);
        assert(all.drop_last() =~= first + less);
        assert(all.last() == second.last());
        let middle = state.ran(first).0;
        assert(state.ran(all).1 =~= state.ran(first).1 + middle.ran(second).1);
    }
}

/// Draining the request queue is a run: the requests are served one by one.
pub proof fn draining_is_a_run(state: LoopState, ids: Seq<ResourceId>)
    ensures
        state.allows_all(serving(ids)) == state.all_servable(ids.len(), ids),
        state.ran(serving(ids)) == state.served_all(ids.len(), ids),
    decreases ids.len(),
{
    if ids.len() > 0 {
        let less = ids.drop_last();
        draining_is_a_run(state, less);
        crate::event_loop::lemmas::lemma_later_ids(state, less.len(), less, ids.last());
        assert(less.push(ids.last()) =~= ids);
        assert(serving(ids).drop_last() =~= serving(less));
        assert(serving(ids).last() == Step::Serve(ids.last()));
    }
}

/// Joining the new connections is a run: they join one by one.
pub proof fn joining_clients_is_a_run(state: LoopState, ids: Seq<ResourceId>)
    requires
        ids.len() <= state.accepted.len(),
    ensures
        state.allows_all(joining(ids)) == state.clients_available(ids),
        state.ran(joining(ids)) == state.clients_joined(ids),
        state.ran(joining(ids)).0.accepted == state.accepted.skip(ids.len() as int),
    decreases ids.len(),
{
    if ids.len() > 0 {
        let less = ids.drop_last();
        joining_clients_is_a_run(state, less);
        assert(joining(ids).drop_last() =~= joining(less));
        assert(joining(ids).last() == Step::Join(ids.last()));
        let (before, effects) = state.clients_joined(less);
        assert(before.accepted.drop_first() =~= state.accepted.skip(ids.len() as int));
        assert(effects + before.client_joined(ids.last()).1 =~= effects.push(
            before.client_joined(ids.last()).1[0],
        ));
    } else {
        assert(state.accepted.skip(0) =~= state.accepted);
    }
}

/// Identifiers that were given out stay so.
pub(crate) proof fn lemma_issued_grow(state: LoopState, step: Step)
    requires
        state.wf(),
        state.allows(step),
    ensures
        state.issued.subset_of(state.stepped(step).0.issued),
        state.stepped(step).0.keys_unique() ==> state.keys_unique(),
{
    let after = state.stepped(step).0;
    step_keeps_loop_sound(state, step);
    match step {
        Step::Timers => {
            let start = LoopState { timers: pending_from(state.timers, state.now), ..state };
            lemma_fired_issued(start, expired_before(state.timers, state.now));
        },
        Step::Closes => {
            let start = LoopState { close_queue: Seq::empty(), ..state };
            lemma_closed_issued(start, state.close_queue);
        },
        _ => {},
    }
    vstd::set_lib::lemma_len_subset(state.issued, after.issued);
}

/// Timers that fire give out no identifier.
proof fn lemma_fired_issued(state: LoopState, ids: Seq<ResourceId>)
    ensures
        state.fired_all(ids).0.issued == state.issued,
    decreases ids.len(),
{
    if ids.len() > 0 {
        lemma_fired_issued(state, ids.drop_last());
    }
}

/// Resources that close give out no identifier.
proof fn lemma_closed_issued(state: LoopState, ids: Seq<ResourceId>)
    ensures
        state.closed_all(ids).0.issued == state.issued,
    decreases ids.len(),
{
    if ids.len() > 0 {
        lemma_closed_issued(state, ids.drop_last());
    }
}

/// Identifiers that were given out stay so over a run, and those that are unique
/// at its end are so throughout.
pub(crate) proof fn lemma_issued_grow_in(state: LoopState, steps: Seq<Step>)
    requires
        state.wf(),
        state.allows_all(steps),
    ensures
        state.issued.subset_of(state.ran(steps).0.issued),
        state.ran(steps).0.keys_unique() ==> state.keys_unique(),
    decreases steps.len(),
{
    if steps.len() > 0 {
        lemma_issued_grow_in(state, steps.drop_last());
        run_keeps_loop_sound(state, steps.drop_last());
        lemma_issued_grow(state.ran(steps.drop_last()).0, steps.last());
    }
}

} // verus!
