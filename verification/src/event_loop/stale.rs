//! What a canceled timer leaves behind: an entry among the scheduled timers that
//! is ignored once it expires.

use crate::effect::EffectView;
use crate::event_loop::calls::{calls, canceled_in_time_is_never_called};
use crate::event_loop::laws::lemma_served_requests;
use crate::event_loop::lemmas::lemma_received;
use crate::event_loop::runs::{
    lemma_issued_grow, lemma_issued_grow_in, run_keeps_loop_sound, Step,
};
use crate::event_loop::state::LoopState;
use crate::event_loop::{HandleView, RequestView};
use crate::resource::{keys_sound, ResourceId, ResourceKind, ResourceView, SharedId};
use crate::timers::{
    absent_timer_is_not_missed, all_but, expired_before, pending_from, schedule_is_undone,
    unscheduled, unscheduled_timer_does_not_expire, unscheduling_spares_another, Timer, TimerKind,
};
use vstd::prelude::*;

verus! {

impl LoopState {
    /// The loop without the entries of an identifier among the scheduled timers,
    /// as if the identifier had not been given out.
    pub open spec fn without_trace(self, id: ResourceId) -> LoopState {
        LoopState {
            timers: unscheduled(self.timers, id),
            issued: self.issued.remove(id),
            ..self
        }
    }
}

/// The expiry of timers is the same without the entries of a timer that is gone.
proof fn lemma_fired_without(state: LoopState, ids: Seq<ResourceId>, gone: ResourceId)
    requires
        !state.resources.contains_key(gone),
    ensures
        ({
            let (after, effects) = state.fired_all(ids);
            &&& !after.resources.contains_key(gone)
            &&& state.without_trace(gone).fired_all(all_but(ids, gone)) == (
                after.without_trace(gone),
                effects,
            )
        }),
    decreases ids.len(),
{
    reveal(Seq::filter);
    if ids.len() > 0 {
        let less = ids.drop_last();
        let id = ids.last();
        lemma_fired_without(state, less, gone);
        let (before, effects) = state.fired_all(less);
        let (after, more) = before.fired(id);
        let clean = before.without_trace(gone);
        if id == gone {
            assert(all_but(ids, gone) == all_but(less, gone));
            assert(effects + more =~= effects);
        } else {
            assert(all_but(ids, gone).drop_last() =~= all_but(less, gone));
            assert(all_but(ids, gone).last() == id);
            assert(clean.holds(id, ResourceKind::Timer) == before.holds(id, ResourceKind::Timer));
            if before.holds(id, ResourceKind::Timer) {
                let timer = before.resources[id]->Timer_0;
                if timer.kind == TimerKind::Interval {
                    unscheduling_spares_another(
                        before.timers,
                        (before.now + timer.delay) as u128,
                        id,
                        gone,
                    );
                }
            }
            assert(clean.fired(id).0 =~= after.without_trace(gone));
            assert(clean.fired(id).1 == more);
        }
    }
}

/// Closing resources has nothing to do with the scheduled timers.
proof fn lemma_closed_without(state: LoopState, ids: Seq<ResourceId>, gone: ResourceId)
    requires
        !state.resources.contains_key(gone),
    ensures
        ({
            let (after, effects) = state.closed_all(ids);
            &&& !after.resources.contains_key(gone)
            &&& state.without_trace(gone).closed_all(ids) == (
                after.without_trace(gone),
                effects,
            )
        }),
    decreases ids.len(),
{
    if ids.len() > 0 {
        lemma_closed_without(state, ids.drop_last(), gone);
        let before = state.closed_all(ids.drop_last()).0;
        let clean = before.without_trace(gone);
        assert(clean.closed(ids.last()).0 =~= before.closed(ids.last()).0.without_trace(gone));
    }
}

/// Running check callbacks has nothing to do with the scheduled timers.
proof fn lemma_checked_without(state: LoopState, ids: Seq<ResourceId>, gone: ResourceId)
    ensures
        state.without_trace(gone).checked_all(ids) == state.checked_all(ids),
    decreases ids.len(),
{
    if ids.len() > 0 {
        lemma_checked_without(state, ids.drop_last(), gone);
        let clean = state.without_trace(gone);
        let id = ids.last();
        assert(clean.holds(id, ResourceKind::Check) == state.holds(id, ResourceKind::Check));
    }
}

/// Serving a request has to do with the scheduled timers only as it adds one.
proof fn lemma_served_without(
    state: LoopState,
    request: RequestView,
    new: ResourceId,
    gone: ResourceId,
)
    requires
        !state.resources.contains_key(gone),
        state.servable(request),
        request.resource() is Some ==> new != gone,
    ensures
        ({
            let (after, effects) = state.served(request, new);
            &&& !after.resources.contains_key(gone)
            &&& state.without_trace(gone).served(request, new) == (
                after.without_trace(gone),
                effects,
            )
        }),
{
    let (after, effects) = state.served(request, new);
    let clean = state.without_trace(gone);
    if let RequestView::TimerStart(timer) = request {
        unscheduling_spares_another(
            state.timers,
            (state.now + timer.delay) as u128,
            new,
            gone,
        );
    }
    assert forall|id: ResourceId, kind: ResourceKind| #[trigger] clean.holds(id, kind)
        == state.holds(id, kind) by {}
    assert(clean.served(request, new).0 =~= after.without_trace(gone));
    assert(clean.served(request, new).1 == effects);
}

/// The entry that a timer has left behind changes no step: it does the same
/// without, with the same effects. The timer must be gone, and no identifier can
/// have been given out twice.
pub proof fn stale_entry_does_not_show(state: LoopState, step: Step, gone: ResourceId)
    requires
        state.wf(),
        state.allows(step),
        !state.resources.contains_key(gone),
        state.issued.contains(gone),
        state.keys_unique(),
    ensures
        ({
            let (after, effects) = state.stepped(step);
            &&& !after.resources.contains_key(gone)
            &&& state.without_trace(gone).allows(step)
            &&& state.without_trace(gone).stepped(step) == (
                after.without_trace(gone),
                effects,
            )
        }),
{
    let (after, effects) = state.stepped(step);
    let clean = state.without_trace(gone);
    assert forall|id: ResourceId, kind: ResourceKind| #[trigger] clean.holds(id, kind)
        == state.holds(id, kind) by {}
    match step {
        Step::Serve(id) => {
            lemma_served_without(state.received(), state.handle.requests[0], id, gone);
            assert(clean.received() =~= state.received().without_trace(gone));
        },
        Step::Timers => {
            let start = LoopState { timers: pending_from(state.timers, state.now), ..state };
            unscheduled_timer_does_not_expire(state.timers, state.now, gone);
            lemma_fired_without(start, expired_before(state.timers, state.now), gone);
            assert((LoopState { timers: pending_from(clean.timers, clean.now), ..clean })
                =~= start.without_trace(gone));
        },
        Step::Checks => lemma_checked_without(state, state.check_queue, gone),
        Step::Closes => {
            let start = LoopState { close_queue: Seq::empty(), ..state };
            lemma_closed_without(start, state.close_queue, gone);
            assert((LoopState { close_queue: Seq::empty(), ..clean }) =~= start.without_trace(
                gone,
            ));
        },
        _ => {
            assert(clean.stepped(step).0 =~= after.without_trace(gone));
            assert(clean.stepped(step).1 =~= effects);
        },
    }
}

/// A timer that is gone disturbs no other timer, nor anything else: every run of
/// the loop has the same effects as it has without the entry that the timer has
/// left behind, and leads to the same state but for the entry. So many
/// identifiers must not be given out that one is given out twice. How long the
/// poll phase blocks is not an effect of the loop: it may end early for the
/// entry.
pub proof fn canceled_timer_disturbs_nothing(
    state: LoopState,
    gone: ResourceId,
    steps: Seq<Step>,
)
    requires
        state.wf(),
        state.allows_all(steps),
        state.issued.contains(gone),
        !state.resources.contains_key(gone),
        state.ran(steps).0.keys_unique(),
    ensures
        ({
            let (after, effects) = state.ran(steps);
            &&& state.without_trace(gone).allows_all(steps)
            &&& state.without_trace(gone).ran(steps) == (after.without_trace(gone), effects)
            &&& !after.resources.contains_key(gone)
            &&& after.issued.contains(gone)
            &&& state.keys_unique()
        }),
    decreases steps.len(),
{
    if steps.len() > 0 {
        let less = steps.drop_last();
        let before = state.ran(less).0;
        run_keeps_loop_sound(state, less);
        lemma_issued_grow(before, steps.last());
        canceled_timer_disturbs_nothing(state, gone, less);
        stale_entry_does_not_show(before, steps.last(), gone);
    }
}

impl RequestView {
    /// Whether the request is for the resource of a reference.
    pub open spec fn names(self, shared: SharedId) -> bool {
        match self {
            RequestView::TimerCancel(other) | RequestView::TaskCancel(other)
            | RequestView::CheckRemove(other) | RequestView::FsEventStop(other)
            | RequestView::FsWatcherStop(other) | RequestView::TcpWrite(other, _, _)
            | RequestView::TcpRead(other, _) | RequestView::TcpShutdown(other, _)
            | RequestView::TcpClose(other, _) | RequestView::TcpListenStop(other, _) => other
                == shared,
            _ => false,
        }
    }
}

impl HandleView {
    /// The handle without two of its requests.
    pub open spec fn without_two(self, first: int, second: int) -> HandleView {
        let requests = self.requests.remove(second).remove(first);
        HandleView { requests, queue_empty: requests.len() == 0, ..self }
    }

    /// The handle after so many requests were taken off the queue.
    pub open spec fn popped(self, count: nat) -> HandleView {
        HandleView {
            requests: self.requests.skip(count as int),
            queue_empty: if count == 0 {
                self.queue_empty
            } else {
                self.requests.len() == count
            },
            ..self
        }
    }
}

/// Serving a request has nothing to do with the handle.
proof fn lemma_served_aside(
    state: LoopState,
    handle: HandleView,
    request: RequestView,
    new: ResourceId,
)
    ensures
        ({
            let (after, effects) = state.served(request, new);
            &&& after.handle == state.handle
            &&& (LoopState { handle, ..state }).served(request, new) == (
                (LoopState { handle, ..after }),
                effects,
            )
        }),
{
    let (after, effects) = state.served(request, new);
    let aside = LoopState { handle, ..state };
    assert forall|id: ResourceId, kind: ResourceKind| #[trigger] aside.holds(id, kind)
        == state.holds(id, kind) by {}
    assert(aside.served(request, new).0 =~= (LoopState { handle, ..after }));
    assert(aside.served(request, new).1 == effects);
}

/// Serving requests takes as many off the queue.
proof fn lemma_popped(state: LoopState, count: nat, ids: Seq<ResourceId>)
    requires
        count <= state.handle.requests.len(),
    ensures
        state.served_all(count, ids).0.handle == state.handle.popped(count),
    decreases count,
{
    if count > 0 {
        let less = (count - 1) as nat;
        lemma_popped(state, less, ids);
        let before = state.served_all(less, ids).0;
        lemma_served_aside(
            before.received(),
            before.handle,
            before.handle.requests[0],
            ids[less as int],
        );
        assert(before.handle.requests.drop_first() =~= state.handle.requests.skip(count as int));
    } else {
        assert(state.handle.requests.skip(0) =~= state.handle.requests);
    }
}

/// Identifiers that are unique once requests are served were so before.
proof fn lemma_keys_unique_before(
    state: LoopState,
    count: nat,
    later: nat,
    ids: Seq<ResourceId>,
)
    requires
        state.wf(),
        count <= later,
        state.all_servable(later, ids),
        state.served_all(later, ids).0.keys_unique(),
    ensures
        state.served_all(count, ids).0.wf(),
        state.served_all(count, ids).0.keys_unique(),
        state.all_servable(count, ids),
        state.served_all(count, ids).0.issued.subset_of(state.served_all(later, ids).0.issued),
    decreases later,
{
    lemma_served_requests(state, later, ids);
    if count < later {
        let less = (later - 1) as nat;
        lemma_served_requests(state, less, ids);
        lemma_issued_grow(state.served_all(less, ids).0, Step::Serve(ids[less as int]));
        lemma_keys_unique_before(state, count, less, ids);
    }
}

/// What is left of a loop without a timer that is in it.
spec fn without_timer(state: LoopState, id: ResourceId) -> LoopState {
    state.left(id).without_trace(id)
}

/// Serving a request that is not for a timer has nothing to do with the timer.
proof fn lemma_served_beside(
    state: LoopState,
    request: RequestView,
    new: ResourceId,
    id: ResourceId,
    timer: Timer,
)
    requires
        state.links_sound(),
        keys_sound(state.resources),
        state.resources.contains_key(id),
        state.resources[id] == ResourceView::Timer(timer),
        !request.names(timer.id),
        request.starts() != Some(timer.id),
        state.servable(request),
        request.resource() is Some ==> new != id,
    ensures
        ({
            let (after, effects) = state.served(request, new);
            &&& after.resources.contains_key(id)
            &&& after.resources[id] == ResourceView::Timer(timer)
            &&& without_timer(state, id).servable(request)
            &&& without_timer(state, id).served(request, new) == (
                without_timer(after, id),
                effects,
            )
        }),
{
    let (after, effects) = state.served(request, new);
    let rest = without_timer(state, id);
    if let RequestView::TimerStart(other) = request {
        unscheduling_spares_another(state.timers, (state.now + other.delay) as u128, new, id);
    }
    assert(state.links[timer.id] == id);
    assert forall|shared: SharedId| shared != timer.id implies #[trigger] rest.id_of(shared)
        == state.id_of(shared) && state.id_of(shared) != id by {
        if state.links.contains_key(shared) {
            assert(state.resources[state.links[shared]].shared_id() == shared);
        }
    }
    assert forall|other: ResourceId, kind: ResourceKind| other != id implies #[trigger] rest.holds(
        other,
        kind,
    ) == state.holds(other, kind) by {}
    assert(!state.holds(id, ResourceKind::TtyReader));
    assert(rest.resources.len() <= state.resources.len());
    assert(rest.served(request, new).0.resources =~= without_timer(after, id).resources);
    assert(rest.served(request, new).0.links =~= without_timer(after, id).links);
    assert(rest.served(request, new).0.issued =~= without_timer(after, id).issued);
    assert(rest.served(request, new).0 =~= without_timer(after, id));
    assert(rest.served(request, new).1 == effects);
}

/// How a loop fares that was not asked for a timer, beside one that was asked for
/// it and to cancel it: the requests are number `start` and number `cancel`.
spec fn keeps_step(
    state: LoopState,
    start: int,
    cancel: int,
    timer: Timer,
    ids: Seq<ResourceId>,
    count: nat,
) -> bool {
    let new = ids[start];
    let other = LoopState { handle: state.handle.without_two(start, cancel), ..state };
    let less = ids.remove(cancel).remove(start);
    let (one, effects) = state.served_all(count, ids);
    if count <= start {
        let (two, same) = other.served_all(count, less);
        &&& other.all_servable(count, less)
        &&& two == (LoopState { handle: two.handle, ..one })
        &&& same == effects
    } else if count <= cancel {
        let (two, same) = other.served_all((count - 1) as nat, less);
        &&& other.all_servable((count - 1) as nat, less)
        &&& one.resources.contains_key(new)
        &&& one.resources[new] == ResourceView::Timer(timer)
        &&& two == (LoopState { handle: two.handle, ..without_timer(one, new) })
        &&& same == effects
    } else {
        let (two, same) = other.served_all((count - 2) as nat, less);
        let place = state.served_all(cancel as nat, ids).1.len() as int;
        &&& other.all_servable((count - 2) as nat, less)
        &&& !one.resources.contains_key(new)
        &&& two == (LoopState { handle: two.handle, ..one.without_trace(new) })
        &&& place < effects.len()
        &&& effects[place] == EffectView::Drop(ResourceView::Timer(timer))
        &&& same == effects.remove(place)
    }
}

/// The two loops fare alike from request to request.
#[verifier::rlimit(40)]
proof fn lemma_keeps_step(
    state: LoopState,
    start: int,
    cancel: int,
    timer: Timer,
    ids: Seq<ResourceId>,
    count: nat,
)
    requires
        state.wf(),
        0 <= start < cancel < state.handle.requests.len(),
        state.handle.requests[start] == RequestView::TimerStart(timer),
        state.handle.requests[cancel] == RequestView::TimerCancel(timer.id),
        forall|k: int|
            start < k < cancel ==> !(#[trigger] state.handle.requests[k]).names(timer.id),
        ids.len() == state.handle.requests.len(),
        count <= ids.len(),
        state.all_servable(count, ids),
        state.served_all(count, ids).0.keys_unique(),
    ensures
        keeps_step(state, start, cancel, timer, ids, count),
    decreases count,
{
    let requests = state.handle.requests;
    let new = ids[start];
    let other = LoopState { handle: state.handle.without_two(start, cancel), ..state };
    let less = ids.remove(cancel).remove(start);
    if count == 0 {
        assert(other =~= (LoopState { handle: other.handle, ..state }));
    } else {
        let prior = (count - 1) as nat;
        lemma_keys_unique_before(state, prior, count, ids);
        lemma_keeps_step(state, start, cancel, timer, ids, prior);
        lemma_popped(state, prior, ids);
        let (before, effects) = state.served_all(prior, ids);
        let request = requests[prior as int];
        let id = ids[prior as int];
        assert(before.handle.requests[0] == request);
        lemma_received(before);
        let ready = before.received();
        let (after, more) = ready.served(request, id);
        if prior < start {
            let (two, same) = other.served_all(prior, less);
            lemma_popped(other, prior, less);
            assert(two.handle.requests[0] == request && less[prior as int] == id);
            lemma_served_aside(ready, two.received().handle, request, id);
            assert(two.received() =~= (LoopState { handle: two.received().handle, ..ready }));
        } else if prior == start {
            lemma_started_alone(ready, timer, id);
            let two = other.served_all(prior, less).0;
            assert(effects + more =~= effects);
            assert(two =~= (LoopState { handle: two.handle, ..without_timer(after, new) }));
        } else if prior < cancel {
            let step = (prior - 1) as nat;
            let (two, same) = other.served_all(step, less);
            lemma_popped(other, step, less);
            assert(two.handle.requests[0] == request && less[step as int] == id);
            assert(requests[start].starts() == Some(timer.id));
            lemma_kept_identifier(state, start, prior, ids);
            lemma_served_beside(ready, request, id, new, timer);
            lemma_served_aside(
                without_timer(ready, new),
                two.received().handle,
                request,
                id,
            );
            assert(two.received() =~= (LoopState {
                handle: two.received().handle,
                ..without_timer(ready, new)
            }));
            assert(request.resource() is Some ==> two.available(id));
            assert(two.servable(request)) by {
                assert forall|some: ResourceId, kind: ResourceKind| #[trigger] two.holds(some, kind)
                    == without_timer(ready, new).holds(some, kind) by {}
            }
        } else if prior == cancel {
            let (two, same) = other.served_all((prior - 1) as nat, less);
            assert(ready.id_of(timer.id) == new);
            assert(after.without_trace(new) =~= without_timer(ready, new));
            assert(two =~= (LoopState { handle: two.handle, ..after.without_trace(new) }));
            assert((effects + more).remove(effects.len() as int) =~= effects);
        } else {
            let step = (prior - 2) as nat;
            let (two, same) = other.served_all(step, less);
            let place = state.served_all(cancel as nat, ids).1.len() as int;
            lemma_popped(other, step, less);
            assert(two.handle.requests[0] == request && less[step as int] == id);
            lemma_kept_identifier(state, start, prior, ids);
            lemma_served_without(ready, request, id, new);
            lemma_served_aside(
                ready.without_trace(new),
                two.received().handle,
                request,
                id,
            );
            assert(two.received() =~= (LoopState {
                handle: two.received().handle,
                ..ready.without_trace(new)
            }));
            assert(two.servable(request)) by {
                assert forall|some: ResourceId, kind: ResourceKind| #[trigger] two.holds(some, kind)
                    == ready.holds(some, kind) by {}
            }
            assert((effects + more).remove(place) =~= effects.remove(place) + more);
        }
    }
}

/// The identifier of a timer is not given out again.
proof fn lemma_kept_identifier(state: LoopState, start: int, prior: nat, ids: Seq<ResourceId>)
    requires
        state.wf(),
        0 <= start < prior < state.handle.requests.len(),
        state.handle.requests[start] is TimerStart,
        ids.len() == state.handle.requests.len(),
        state.all_servable(prior + 1, ids),
        state.served_all(prior + 1, ids).0.keys_unique(),
    ensures
        state.handle.requests[prior as int].resource() is Some ==> ids[prior as int] != ids[start],
        state.served_all(prior, ids).0.issued.contains(ids[start]),
{
    let begun = (start + 1) as nat;
    lemma_keys_unique_before(state, prior, prior + 1, ids);
    lemma_keys_unique_before(state, begun, prior, ids);
    lemma_keys_unique_before(state, start as nat, begun, ids);
    lemma_popped(state, start as nat, ids);
    lemma_popped(state, prior, ids);
    assert(state.served_all(begun, ids).0.issued.contains(ids[start]));
}

/// A loop without the timer that has just joined it is as it was before.
proof fn lemma_started_alone(state: LoopState, timer: Timer, new: ResourceId)
    requires
        state.wf(),
        state.keys_unique(),
        state.admits(RequestView::TimerStart(timer)),
        state.available(new),
    ensures
        ({
            let (after, effects) = state.served(RequestView::TimerStart(timer), new);
            &&& after.resources.contains_key(new)
            &&& after.resources[new] == ResourceView::Timer(timer)
            &&& without_timer(after, new) == state
            &&& effects == Seq::<EffectView>::empty()
        }),
{
    let after = state.served(RequestView::TimerStart(timer), new).0;
    let at = (state.now + timer.delay) as u128;
    schedule_is_undone(state.timers, at, new);
    absent_timer_is_not_missed(state.timers, new);
    assert(without_timer(after, new).resources =~= state.resources);
    assert(without_timer(after, new).links =~= state.links);
    assert(without_timer(after, new).issued =~= state.issued);
}

/// A timer that is started and canceled before the loop runs leaves no trace,
/// whatever else is asked for before, between and after: it is as if the two
/// requests had not been made. The other requests are served with the same
/// effects, the timer being forgotten at its place among them. There is pending
/// work afterwards if there is without, and from then on the loop goes through
/// the same runs with the same effects, so every other timer fires as it would.
/// The callback of the timer, if it is its own, is never run. Between the two
/// requests no other may be for the timer, as only its handle makes such. No
/// identifier can have been given out twice by the end of the run.
pub proof fn timer_canceled_before_the_loop_runs_leaves_no_trace(
    state: LoopState,
    start: int,
    cancel: int,
    timer: Timer,
    ids: Seq<ResourceId>,
    steps: Seq<Step>,
)
    requires
        state.wf(),
        0 <= start < cancel < state.handle.requests.len(),
        state.handle.requests[start] == RequestView::TimerStart(timer),
        state.handle.requests[cancel] == RequestView::TimerCancel(timer.id),
        forall|k: int|
            start < k < cancel ==> !(#[trigger] state.handle.requests[k]).names(timer.id),
        ids.len() == state.handle.requests.len(),
        state.all_servable(ids.len(), ids),
        state.served_all(ids.len(), ids).0.allows_all(steps),
        state.served_all(ids.len(), ids).0.ran(steps).0.keys_unique(),
    ensures
        ({
            let (drained, effects) = state.served_all(ids.len(), ids);
            let other = LoopState { handle: state.handle.without_two(start, cancel), ..state };
            let less = ids.remove(cancel).remove(start);
            let (untouched, same) = other.served_all(less.len(), less);
            let place = state.served_all(cancel as nat, ids).1.len() as int;
            &&& other.all_servable(less.len(), less)
            &&& untouched == drained.without_trace(ids[start])
            &&& place < effects.len()
            &&& effects[place] == EffectView::Drop(ResourceView::Timer(timer))
            &&& same == effects.remove(place)
            &&& untouched.pending() == drained.pending()
            &&& untouched.allows_all(steps)
            &&& untouched.ran(steps).1 == drained.ran(steps).1
            &&& untouched.ran(steps).0.pending() == drained.ran(steps).0.pending()
            &&& state.belongs(timer.callback, timer.id, ResourceKind::Timer)
                && !drained.hears_in(steps, timer.callback) ==> !calls(effects, timer.callback)
                && !calls(drained.ran(steps).1, timer.callback)
        }),
{
    let count = ids.len();
    let new = ids[start];
    let other = LoopState { handle: state.handle.without_two(start, cancel), ..state };
    let less = ids.remove(cancel).remove(start);
    let drained = state.served_all(count, ids).0;
    lemma_served_requests(state, count, ids);
    lemma_issued_grow_in(drained, steps);
    lemma_keeps_step(state, start, cancel, timer, ids, count);
    lemma_popped(state, count, ids);
    lemma_popped(other, less.len(), less);
    let untouched = other.served_all(less.len(), less).0;
    assert(untouched.handle =~= drained.handle);
    assert(untouched == drained.without_trace(new));
    lemma_keys_unique_before(state, cancel as nat, count, ids);
    lemma_keys_unique_before(state, (start + 1) as nat, count, ids);
    lemma_popped(state, start as nat, ids);
    assert(state.served_all((start + 1) as nat, ids).0.issued.contains(new));
    canceled_timer_disturbs_nothing(drained, new, steps);
    if state.belongs(timer.callback, timer.id, ResourceKind::Timer) && !drained.hears_in(
        steps,
        timer.callback,
    ) {
        canceled_in_time_is_never_called(state, start, cancel, timer.callback, ids, steps);
    }
}

} // verus!
