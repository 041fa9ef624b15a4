//! Signal listeners.

use crate::effect::Effect;
use crate::event_loop::LoopHandle;
use crate::event_loop::RequestView;
use crate::resource::CallbackId;
use std::collections::HashMap;
use vstd::prelude::*;
use vstd::std_specs::hash::spec_keys_iter;
use vstd::std_specs::iter::IteratorSpec;

verus! {

broadcast use vstd::std_specs::hash::group_hash_axioms;

/// Controls how long a listener remains active.
#[derive(Debug, Clone, Copy, PartialEq, Eq, Structural)]
pub enum Lifetime {
    /// Invoked at most once.
    Oneshot,
    /// Stays active until explicitly removed.
    Persistent,
}

/// Based on linux systems the max allowed signal number is 31.
pub const MAX_SIGNAL_VALUE: i32 = 31;

/// A signal that can be listened to.
#[derive(Debug, Clone, Copy, PartialEq, Eq, Structural)]
pub struct SignalNum(i32);

/// Why a signal cannot be listened to.
#[derive(Debug, Clone, Copy, PartialEq, Eq, Structural)]
pub enum SignalError {
    OutOfRange,
    Forbidden,
}

impl SignalError {
    /// Returns the message of the error.
    pub fn message(&self) -> (message: String)
        ensures
            message@ == (match *self {
                SignalError::OutOfRange => "Signal number out of range"@,
                SignalError::Forbidden => "Forbidden signal provided"@,
            }),
    {
        match self {
            SignalError::OutOfRange => "Signal number out of range".to_string(),
            SignalError::Forbidden => "Forbidden signal provided".to_string(),
        }
    }
}

/// The signals that no system lets a program listen to: SIGILL, SIGFPE and
/// SIGSEGV.
pub open spec fn always_forbidden(number: i32) -> bool {
    number == 4 || number == 8 || number == 11
}

/// The signals that some system does not let a program listen to: besides those
/// that none does, SIGKILL and SIGSTOP, which has one of several numbers.
pub open spec fn maybe_forbidden(number: i32) -> bool {
    ||| always_forbidden(number)
    ||| number == 9
    ||| number == 10
    ||| number == 17
    ||| number == 19
    ||| number == 23
}

/// Reads `signal_hook::consts::FORBIDDEN`, the signals that cannot be listened
/// to. Which they are depends on the system: SIGILL, SIGFPE and SIGSEGV are among
/// them on every one, SIGKILL and SIGSTOP on every one but Windows, and no other
/// is. Left unsaid is which number SIGSTOP has, and so whether one of those that
/// it may have is in the list.
#[verifier::external_body]
fn forbidden_signals() -> (signals: Vec<i32>)
    ensures
        signals@.contains(4),
        signals@.contains(8),
        signals@.contains(11),
        forall|i: int| 0 <= i < signals@.len() ==> maybe_forbidden(#[trigger] signals@[i]),
{
    signal_hook::consts::FORBIDDEN.to_vec()
}

/// Returns true if a number is in a list.
fn contains(list: &Vec<i32>, value: i32) -> (found: bool)
    ensures
        found == list@.contains(value),
{
    for i in 0..list.len()
        invariant
            forall|j: int| 0 <= j < i ==> list@[j] != value,
    {
        if list[i] == value {
            assert(list@[i as int] == value);
            return true;
        }
    }
    false
}

impl SignalNum {
    pub closed spec fn view(&self) -> i32 {
        self.0
    }

    /// Checks a signal number against the signals that are forbidden.
    pub fn checked(value: i32, forbidden: &Vec<i32>) -> (checked: Result<Self, SignalError>)
        ensures
            match checked {
                Ok(signum) => signum@ == value && value <= MAX_SIGNAL_VALUE
                    && !forbidden@.contains(value),
                Err(SignalError::OutOfRange) => value > MAX_SIGNAL_VALUE,
                Err(SignalError::Forbidden) => value <= MAX_SIGNAL_VALUE && forbidden@.contains(
                    value,
                ),
            },
    {
        // Check if signal is within UNIX range.
        if value > MAX_SIGNAL_VALUE {
            return Err(SignalError::OutOfRange);
        }
        // Forbidden signals are not allowed to be registered.
        if contains(forbidden, value) {
            return Err(SignalError::Forbidden);
        }
        Ok(SignalNum(value))
    }

    /// Checks a signal number against the signals that the system forbids.
    pub fn try_from(value: i32) -> (checked: Result<Self, SignalError>)
        ensures
            match checked {
                Ok(signum) => signum@ == value && value <= MAX_SIGNAL_VALUE,
                Err(SignalError::OutOfRange) => value > MAX_SIGNAL_VALUE,
                Err(SignalError::Forbidden) => value <= MAX_SIGNAL_VALUE,
            },
            value > MAX_SIGNAL_VALUE ==> checked == Err::<Self, _>(SignalError::OutOfRange),
            always_forbidden(value) ==> checked == Err::<Self, _>(SignalError::Forbidden),
            value <= MAX_SIGNAL_VALUE && !maybe_forbidden(value) ==> checked is Ok,
    {
        Self::checked(value, &forbidden_signals())
    }

    /// Returns the number of the signal.
    pub fn number(&self) -> (value: i32)
        ensures
            value == self@,
    {
        self.0
    }
}

/// A listener for a signal.
#[derive(Debug, Clone, Copy, PartialEq, Eq, Structural)]
pub struct Signal {
    /// A unique reference.
    pub id: u64,
    /// Callback invoked when the signal is triggered.
    pub callback: CallbackId,
    /// Controls how long a callback remains active.
    pub lifetime: Lifetime,
}

impl Signal {
    /// Returns a handle to the signal resource.
    pub fn handle(&self) -> (handle: SignalHandle)
        ensures
            handle.id == self.id,
    {
        SignalHandle { id: self.id }
    }
}

/// A reference like struct to an active signal listener.
#[derive(Debug, Clone, Copy, PartialEq, Eq, Structural)]
pub struct SignalHandle {
    /// A unique reference.
    pub id: u64,
}

impl SignalHandle {
    /// The signal callback will no longer be called.
    pub fn stop(&self, handle: &mut LoopHandle)
        ensures
            final(handle)@ == old(handle)@.queued(RequestView::SignalStop(self.id)),
            old(handle)@.used(final(handle)@),
    {
        handle.signal_stop(self.id);
    }
}

/// The listeners of every signal that has been listened to.
pub type Handlers = Map<i32, Seq<Signal>>;

/// The listeners that stay after one run.
pub open spec fn persistent(list: Seq<Signal>) -> Seq<Signal> {
    list.filter(|signal: Signal| signal.lifetime == Lifetime::Persistent)
}

/// The listeners other than `id`.
pub open spec fn without(list: Seq<Signal>, id: u64) -> Seq<Signal> {
    list.filter(|signal: Signal| signal.id != id)
}

/// What the listeners of a signal do when it is triggered: each callback runs,
/// in order, and those that are invoked at most once are forgotten.
pub open spec fn triggered(list: Seq<Signal>, number: i32) -> Seq<Effect>
    decreases list.len(),
{
    if list.len() == 0 {
        Seq::empty()
    } else {
        let signal = list.last();
        let ran = triggered(list.drop_last(), number).push(
            Effect::SignalCallback(signal.callback, SignalHandle { id: signal.id }, number),
        );
        match signal.lifetime {
            Lifetime::Oneshot => ran.push(Effect::Release(signal.callback)),
            Lifetime::Persistent => ran,
        }
    }
}

/// The callbacks of the listener `id` that are forgotten when it is removed.
pub open spec fn released(list: Seq<Signal>, id: u64) -> Seq<Effect>
    decreases list.len(),
{
    if list.len() == 0 {
        Seq::empty()
    } else if list.last().id == id {
        released(list.drop_last(), id).push(Effect::Release(list.last().callback))
    } else {
        released(list.drop_last(), id)
    }
}

/// What a pending signal leads to. A signal that was never listened to is
/// ignored; one that nobody listens to anymore gets its default action.
pub open spec fn signaled(handlers: Handlers, number: i32) -> (Handlers, Seq<Effect>) {
    if !handlers.contains_key(number) {
        (handlers, Seq::empty())
    } else if handlers[number].len() == 0 {
        (handlers, seq![Effect::EmulateDefault(number)])
    } else {
        (
            handlers.insert(number, persistent(handlers[number])),
            triggered(handlers[number], number),
        )
    }
}

/// What an interrupt leads to where a thread of the driver always waits for it:
/// it gets its default action as long as nobody listens.
pub open spec fn interrupted(handlers: Handlers, number: i32) -> (Handlers, Seq<Effect>) {
    if handlers.contains_key(number) {
        signaled(handlers, number)
    } else {
        (handlers, seq![Effect::EmulateDefault(number)])
    }
}

/// What a series of pending signals leads to.
pub open spec fn signaled_all(handlers: Handlers, numbers: Seq<i32>) -> (Handlers, Seq<Effect>)
    decreases numbers.len(),
{
    if numbers.len() == 0 {
        (handlers, Seq::empty())
    } else {
        let (before, effects) = signaled_all(handlers, numbers.drop_last());
        let (after, more) = signaled(before, numbers.last());
        (after, effects + more)
    }
}

/// A listener `id` is in the list of `number`.
pub open spec fn listens(handlers: Handlers, number: i32, id: u64) -> bool {
    handlers.contains_key(number) && exists|i: int|
        0 <= i < handlers[number].len() && (#[trigger] handlers[number][i]).id == id
}

/// No reference is in the lists of two signals.
pub open spec fn references_unique(handlers: Handlers) -> bool {
    forall|a: i32, b: i32, id: u64|
        #![trigger listens(handlers, a, id), listens(handlers, b, id)]
        listens(handlers, a, id) && listens(handlers, b, id) ==> a == b
}

/// What the removal of a listener leads to.
pub open spec fn unlistened(handlers: Handlers, id: u64) -> (Handlers, Seq<Effect>) {
    if exists|number: i32| listens(handlers, number, id) {
        let number = choose|number: i32| listens(handlers, number, id);
        (
            handlers.insert(number, without(handlers[number], id)),
            released(handlers[number], id),
        )
    } else {
        (handlers, Seq::empty())
    }
}

/// Abstracts signal handling across platforms.
pub struct OsSignals {
    handlers: HashMap<i32, Vec<Signal>>,
}

impl View for OsSignals {
    type V = Handlers;

    closed spec fn view(&self) -> Handlers {
        self.handlers@.map_values(|list: Vec<Signal>| list@)
    }
}

impl OsSignals {
    /// Creates an empty set of listeners.
    pub fn new() -> (signals: Self)
        ensures
            signals@ == Handlers::empty(),
    {
        let signals = OsSignals { handlers: HashMap::new() };
        assert(signals@ =~= Handlers::empty());
        signals
    }

    /// Adds a listener for a signal.
    pub fn add_handler(&mut self, signum: SignalNum, signal: Signal)
        ensures
            final(self)@ == old(self)@.insert(
                signum@,
                (if old(self)@.contains_key(signum@) {
                    old(self)@[signum@]
                } else {
                    Seq::empty()
                }).push(signal),
            ),
    {
        let number: i32 = signum.number();
        let mut list = match self.handlers.remove(&number) {
            Some(list) => list,
            None => Vec::new(),
        };
        list.push(signal);
        self.handlers.insert(number, list);
        assert(self@ =~= old(self)@.insert(
            number,
            (if old(self)@.contains_key(number) {
                old(self)@[number]
            } else {
                Seq::empty()
            }).push(signal),
        ));
    }

    /// Runs the listeners of one signal. Returns those that stay and what to do.
    fn run_list(list: &Vec<Signal>, number: i32) -> (ran: (Vec<Signal>, Vec<Effect>))
        ensures
            ran.0@ == persistent(list@),
            ran.1@ == triggered(list@, number),
    {
        let mut kept: Vec<Signal> = Vec::new();
        let mut effects: Vec<Effect> = Vec::new();
        for i in 0..list.len()
            invariant
                kept@ == persistent(list@.take(i as int)),
                effects@ == triggered(list@.take(i as int), number),
        {
            let handler = list[i];
            proof {
                reveal(Seq::filter);
                assert(list@.take(i + 1).drop_last() =~= list@.take(i as int));
                assert(list@.take(i + 1).last() == handler);
            }
            // Run handler's callback.
            effects.push(Effect::SignalCallback(handler.callback, handler.handle(), number));
            // Keep the listener if persistent.
            match handler.lifetime {
                Lifetime::Oneshot => {
                    effects.push(Effect::Release(handler.callback));
                },
                Lifetime::Persistent => {
                    kept.push(handler);
                },
            }
        }
        assert(list@.take(list@.len() as int) =~= list@);
        (kept, effects)
    }

    /// Runs the listeners of an interrupt that the driver waits for at all times,
    /// even if no listener was ever added. Therefore, it's necessary to mimic the
    /// default action when no signals are registered or if the list of handlers
    /// is currently empty.
    pub fn run_interrupt(&mut self, number: i32) -> (effects: Vec<Effect>)
        ensures
            (final(self)@, effects@) == interrupted(old(self)@, number),
    {
        let mut effects: Vec<Effect> = Vec::new();
        let ghost before = self@;
        match self.handlers.remove(&number) {
            Some(list) => {
                assert(before[number] == list@);
                if list.len() == 0 {
                    effects.push(Effect::EmulateDefault(number));
                    self.handlers.insert(number, list);
                    assert(self@ =~= before);
                } else {
                    let (kept, ran) = Self::run_list(&list, number);
                    effects = ran;
                    self.handlers.insert(number, kept);
                    assert(self@ =~= signaled(before, number).0);
                }
            },
            None => {
                effects.push(Effect::EmulateDefault(number));
                assert(self@ =~= before);
            },
        }
        effects
    }

    /// Runs the listeners of the pending signals.
    pub fn run_pending(&mut self, pending: &Vec<i32>) -> (effects: Vec<Effect>)
        ensures
            (final(self)@, effects@) == signaled_all(old(self)@, pending@),
    {
        let mut effects: Vec<Effect> = Vec::new();
        // Going through the available signals.
        for i in 0..pending.len()
            invariant
                (self@, effects@) == signaled_all(old(self)@, pending@.take(i as int)),
        {
            let number: i32 = pending[i];
            let ghost before = self@;
            let ghost earlier = effects@;
            proof {
                assert(pending@.take(i + 1).drop_last() =~= pending@.take(i as int));
            }
            // Get all handlers for the given signal.
            match self.handlers.remove(&number) {
                None => {
                    assert(self@ =~= before);
                    assert(effects@ =~= earlier + signaled(before, number).1);
                },
                Some(list) => {
                    assert(before[number] == list@);
                    // No listeners for this signal, running default action.
                    if list.len() == 0 {
                        effects.push(Effect::EmulateDefault(number));
                        self.handlers.insert(number, list);
                        assert(self@ =~= before);
                        assert(effects@ =~= earlier + signaled(before, number).1);
                    } else {
                        let (kept, mut ran) = Self::run_list(&list, number);
                        effects.append(&mut ran);
                        self.handlers.insert(number, kept);
                        assert(self@ =~= signaled(before, number).0);
                        assert(effects@ =~= earlier + signaled(before, number).1);
                    }
                },
            }
        }
        assert(pending@.take(pending@.len() as int) =~= pending@);
        effects
    }

    /// Returns the signal that a listener is registered for.
    fn find(&self, id: u64) -> (found: Option<i32>)
        ensures
            match found {
                Some(number) => listens(self@, number, id),
                None => forall|number: i32| !listens(self@, number, id),
            },
    {
        let keys = self.handlers.keys();
        let ghost all = IteratorSpec::remaining(&keys);
        for number in it: keys
            invariant
                it.seq() == all,
                all == IteratorSpec::remaining(&spec_keys_iter(&self.handlers)),
                forall|j: int| 0 <= j < it.index() ==> !listens(self@, *#[trigger] all[j], id),
        {
            if let Some(list) = self.handlers.get(number) {
                for i in 0..list.len()
                    invariant
                        self.handlers@.contains_key(*number),
                        self.handlers@[*number] == *list,
                        forall|j: int| 0 <= j < i ==> (#[trigger] list@[j]).id != id,
                {
                    if list[i].id == id {
                        assert(self@[*number][i as int].id == id);
                        return Some(*number);
                    }
                }
            }
        }
        None
    }

    /// Removes a listener.
    pub fn remove_handler(&mut self, id: u64) -> (effects: Vec<Effect>)
        requires
            references_unique(old(self)@),
        ensures
            (final(self)@, effects@) == unlistened(old(self)@, id),
    {
        let mut effects: Vec<Effect> = Vec::new();
        if let Some(number) = self.find(id) {
            if let Some(list) = self.handlers.remove(&number) {
                let mut kept: Vec<Signal> = Vec::new();
                for i in 0..list.len()
                    invariant
                        kept@ == without(list@.take(i as int), id),
                        effects@ == released(list@.take(i as int), id),
                {
                    let handler = list[i];
                    proof {
                        reveal(Seq::filter);
                        assert(list@.take(i + 1).drop_last() =~= list@.take(i as int));
                        assert(list@.take(i + 1).last() == handler);
                    }
                    if handler.id != id {
                        kept.push(handler);
                    } else {
                        effects.push(Effect::Release(handler.callback));
                    }
                }
                assert(list@.take(list@.len() as int) =~= list@);
                self.handlers.insert(number, kept);
                assert(self@ =~= old(self)@.insert(number, without(old(self)@[number], id)));
            }
        }
        effects
    }
}

/// A listener that is invoked at most once is gone after a signal, and one that
/// is persistent stays.
pub proof fn oneshot_listener_is_gone(handlers: Handlers, number: i32, i: int)
    requires
        handlers.contains_key(number),
        0 <= i < handlers[number].len(),
    ensures
        ({
            let signal = handlers[number][i];
            let after = signaled(handlers, number).0;
            &&& after.contains_key(number)
            &&& forall|j: int|
                0 <= j < after[number].len() ==> (#[trigger] after[number][j]).lifetime
                    == Lifetime::Persistent
            &&& after[number].contains(signal) <==> signal.lifetime == Lifetime::Persistent
        }),
{
    let list = handlers[number];
    let keep = |signal: Signal| signal.lifetime == Lifetime::Persistent;
    assert forall|j: int| 0 <= j < persistent(list).len() implies (
    #[trigger] persistent(list)[j]).lifetime == Lifetime::Persistent by {
        crate::event_loop::lemmas::lemma_filter_origin(list, keep, j);
    }
    if list[i].lifetime == Lifetime::Persistent {
        lemma_filter_keeps(list, keep, i);
    } else if persistent(list).contains(list[i]) {
        let j = choose|j: int| 0 <= j < persistent(list).len() && persistent(list)[j] == list[i];
        crate::event_loop::lemmas::lemma_filter_origin(list, keep, j);
    }
}

/// A filter keeps what it is to keep.
proof fn lemma_filter_keeps(list: Seq<Signal>, keep: spec_fn(Signal) -> bool, i: int)
    requires
        0 <= i < list.len(),
        keep(list[i]),
    ensures
        list.filter(keep).contains(list[i]),
    decreases list.len(),
{
    reveal(Seq::filter);
    let less = list.drop_last();
    let kept = less.filter(keep);
    if i < less.len() {
        lemma_filter_keeps(less, keep, i);
        let j = choose|j: int| 0 <= j < kept.len() && kept[j] == list[i];
        assert(list.filter(keep)[j] == list[i]);
    } else {
        assert(list.filter(keep)[kept.len() as int] == list[i]);
    }
}

/// Every listener of a signal is called when it is pending, with the number of
/// the signal.
pub proof fn every_listener_is_called(handlers: Handlers, number: i32, i: int)
    requires
        handlers.contains_key(number),
        0 <= i < handlers[number].len(),
    ensures
        ({
            let signal = handlers[number][i];
            signaled(handlers, number).1.contains(
                Effect::SignalCallback(signal.callback, SignalHandle { id: signal.id }, number),
            )
        }),
{
    lemma_triggered_all(handlers[number], number, i);
}

/// Every listener in a list is called.
proof fn lemma_triggered_all(list: Seq<Signal>, number: i32, i: int)
    requires
        0 <= i < list.len(),
    ensures
        triggered(list, number).contains(
            Effect::SignalCallback(list[i].callback, SignalHandle { id: list[i].id }, number),
        ),
    decreases list.len(),
{
    let called = Effect::SignalCallback(
        list[i].callback,
        SignalHandle { id: list[i].id },
        number,
    );
    let before = triggered(list.drop_last(), number);
    if i < list.len() - 1 {
        lemma_triggered_all(list.drop_last(), number, i);
        let j = choose|j: int| 0 <= j < before.len() && before[j] == called;
        assert(triggered(list, number)[j] == called);
    } else {
        assert(triggered(list, number)[before.len() as int] == called);
    }
}

/// Nobody is called for a signal but its listeners.
proof fn lemma_triggered_origin(list: Seq<Signal>, number: i32, k: int)
    requires
        0 <= k < triggered(list, number).len(),
        triggered(list, number)[k] is SignalCallback,
    ensures
        exists|i: int|
            0 <= i < list.len() && (#[trigger] list[i]).id == triggered(
                list,
                number,
            )[k]->SignalCallback_1.id,
    decreases list.len(),
{
    let before = triggered(list.drop_last(), number);
    if k < before.len() {
        lemma_triggered_origin(list.drop_last(), number, k);
        let i = choose|i: int|
            0 <= i < list.drop_last().len() && (#[trigger] list.drop_last()[i]).id
                == before[k]->SignalCallback_1.id;
        assert(list[i].id == before[k]->SignalCallback_1.id);
    } else {
        assert(list[list.len() - 1].id == triggered(list, number)[k]->SignalCallback_1.id);
    }
}

/// A listener that was stopped is no longer called, whatever signal is pending.
pub proof fn stopped_listener_is_not_called(handlers: Handlers, id: u64, number: i32, k: int)
    requires
        references_unique(handlers),
        0 <= k < signaled(unlistened(handlers, id).0, number).1.len(),
    ensures
        ({
            let after = unlistened(handlers, id).0;
            let effect = signaled(after, number).1[k];
            &&& !listens(after, number, id)
            &&& effect is SignalCallback ==> effect->SignalCallback_1.id != id
        }),
{
    let after = unlistened(handlers, id).0;
    assert(!listens(after, number, id)) by {
        if exists|other: i32| listens(handlers, other, id) {
            let other = choose|other: i32| listens(handlers, other, id);
            if number == other {
                let keep = |signal: Signal| signal.id != id;
                assert forall|i: int| 0 <= i < after[number].len() implies (
                #[trigger] after[number][i]).id != id by {
                    crate::event_loop::lemmas::lemma_filter_origin(handlers[number], keep, i);
                }
            } else if listens(after, number, id) {
                assert(listens(handlers, number, id));
            }
        }
    }
    if after.contains_key(number) && after[number].len() > 0 {
        let effect = triggered(after[number], number)[k];
        if effect is SignalCallback {
            lemma_triggered_origin(after[number], number, k);
        }
    }
}

/// Once the last listener of a signal is gone, the signal has its default action
/// again; a signal that was never listened to is left to the system.
pub proof fn default_action_comes_back(handlers: Handlers, number: i32)
    ensures
        handlers.contains_key(number) && handlers[number].len() == 0 ==> signaled(handlers, number)
            == (handlers, seq![Effect::EmulateDefault(number)]),
        !handlers.contains_key(number) ==> signaled(handlers, number) == (
            handlers,
            Seq::<Effect>::empty(),
        ),
        handlers.contains_key(number) && persistent(handlers[number]).len() == 0 ==> signaled(
            signaled(handlers, number).0,
            number,
        ).1 == seq![Effect::EmulateDefault(number)],
{
}

/// A list without a listener, built up from its start: every listener but those of
/// the reference is there, in the order of the list.
pub proof fn lists_lose_one_reference_only(list: Seq<Signal>, signal: Signal, id: u64)
    ensures
        without(Seq::empty(), id).len() == 0,
        signal.id == id ==> without(list.push(signal), id) == without(list, id),
        signal.id != id ==> without(list.push(signal), id) == without(list, id).push(signal),
{
    reveal(Seq::filter);
    assert(list.push(signal).drop_last() =~= list);
}

/// Stopping a listener spares every other: each listener of any signal that has
/// another reference is still there, no signal gains or loses a list, and no list
/// gains a listener.
pub proof fn stopping_a_listener_spares_the_others(handlers: Handlers, id: u64, number: i32)
    ensures
        ({
            let after = unlistened(handlers, id).0;
            &&& after.contains_key(number) <==> handlers.contains_key(number)
            &&& handlers.contains_key(number) ==> {
                &&& forall|i: int|
                    0 <= i < handlers[number].len() && (#[trigger] handlers[number][i]).id != id
                        ==> after[number].contains(handlers[number][i])
                &&& forall|j: int|
                    0 <= j < after[number].len() ==> handlers[number].contains(
                        #[trigger] after[number][j],
                    )
                &&& !listens(handlers, number, id) ==> after[number] == handlers[number]
            }
            &&& (forall|other: i32| !listens(handlers, other, id)) ==> unlistened(handlers, id) == (
                handlers,
                Seq::<Effect>::empty(),
            )
        }),
{
    let after = unlistened(handlers, id).0;
    if exists|other: i32| listens(handlers, other, id) {
        let other = choose|other: i32| listens(handlers, other, id);
        if number == other {
            lemma_others_stay(handlers[number], id);
        }
    }
    if handlers.contains_key(number) && after[number] == handlers[number] {
        assert forall|i: int| 0 <= i < handlers[number].len() implies handlers[number].contains(
            #[trigger] handlers[number][i],
        ) by {}
    }
}

/// The listeners of other references stay in a list, and no other comes in.
proof fn lemma_others_stay(list: Seq<Signal>, id: u64)
    ensures
        forall|i: int|
            0 <= i < list.len() && (#[trigger] list[i]).id != id ==> without(list, id).contains(
                list[i],
            ),
        forall|j: int|
            0 <= j < without(list, id).len() ==> list.contains(#[trigger] without(list, id)[j]),
    decreases list.len(),
{
    reveal(Seq::filter);
    if list.len() > 0 {
        let less = list.drop_last();
        let left = without(less, id);
        let all = without(list, id);
        lemma_others_stay(less, id);
        assert forall|i: int| 0 <= i < list.len() && (#[trigger] list[i]).id != id
            implies all.contains(list[i]) by {
            if i < less.len() {
                assert(less[i] == list[i]);
                let k = choose|k: int| 0 <= k < left.len() && left[k] == list[i];
                assert(all[k] == list[i]);
            } else {
                assert(all[all.len() - 1] == list[i]);
            }
        }
        assert forall|j: int| 0 <= j < all.len() implies list.contains(#[trigger] all[j]) by {
            if j < left.len() {
                assert(left[j] == all[j]);
                let k = choose|k: int| 0 <= k < less.len() && less[k] == all[j];
                assert(list[k] == all[j]);
            } else {
                assert(list[list.len() - 1] == all[j]);
            }
        }
    }
}

/// Stopping a listener keeps the order of the others: of two listeners of a signal that
/// have other references, the one that comes first still does.
pub proof fn stopping_a_listener_keeps_the_order(
    handlers: Handlers,
    id: u64,
    number: i32,
    a: int,
    b: int,
)
    requires
        handlers.contains_key(number),
        0 <= a < b < handlers[number].len(),
        handlers[number][a].id != id,
        handlers[number][b].id != id,
    ensures
        ({
            let after = unlistened(handlers, id).0[number];
            exists|x: int, y: int|
                0 <= x < y < after.len() && #[trigger] after[x] == handlers[number][a]
                    && #[trigger] after[y] == handlers[number][b]
        }),
{
    let list = handlers[number];
    let after = unlistened(handlers, id).0[number];
    if after == list {
        assert(after[a] == list[a] && after[b] == list[b]);
    } else {
        lemma_order_stays(list, id, a, b);
    }
}

/// Two listeners of other references stay in their order.
proof fn lemma_order_stays(list: Seq<Signal>, id: u64, a: int, b: int)
    requires
        0 <= a < b < list.len(),
        list[a].id != id,
        list[b].id != id,
    ensures
        exists|x: int, y: int|
            0 <= x < y < without(list, id).len() && #[trigger] without(list, id)[x] == list[a]
                && #[trigger] without(list, id)[y] == list[b],
    decreases list.len(),
{
    reveal(Seq::filter);
    let less = list.drop_last();
    let left = without(less, id);
    let all = without(list, id);
    if b < less.len() {
        lemma_order_stays(less, id, a, b);
        let (x, y) = choose|x: int, y: int|
            0 <= x < y < left.len() && #[trigger] left[x] == less[a] && #[trigger] left[y]
                == less[b];
        assert(all[x] == list[a] && all[y] == list[b]);
    } else {
        lemma_others_stay(less, id);
        assert(less[a] == list[a]);
        let x = choose|x: int| 0 <= x < left.len() && left[x] == list[a];
        assert(all[x] == list[a] && all[all.len() - 1] == list[b]);
    }
}

/// Stopping a listener that has its reference alone takes exactly it out of its
/// list, so that the others keep their order, and forgets exactly its callback.
pub proof fn stopped_listener_is_taken_out(handlers: Handlers, number: i32, i: int)
    requires
        references_unique(handlers),
        handlers.contains_key(number),
        0 <= i < handlers[number].len(),
        forall|j: int|
            0 <= j < handlers[number].len() && j != i ==> (#[trigger] handlers[number][j]).id
                != handlers[number][i].id,
    ensures
        ({
            let signal = handlers[number][i];
            let (after, effects) = unlistened(handlers, signal.id);
            &&& after == handlers.insert(number, handlers[number].remove(i))
            &&& effects == seq![Effect::Release(signal.callback)]
        }),
{
    let list = handlers[number];
    let id = list[i].id;
    assert(listens(handlers, number, id));
    let found = choose|other: i32| listens(handlers, other, id);
    assert(found == number);
    assert forall|j: int| 0 <= j < list.len() && j != i implies (#[trigger] list[j]).id != id by {
        assert(handlers[number][j].id != id);
    }
    lemma_one_taken_out(list, i);
}

/// A reference that one listener has alone is taken out with it.
proof fn lemma_one_taken_out(list: Seq<Signal>, i: int)
    requires
        0 <= i < list.len(),
        forall|j: int| 0 <= j < list.len() && j != i ==> (#[trigger] list[j]).id != list[i].id,
    ensures
        without(list, list[i].id) == list.remove(i),
        released(list, list[i].id) == seq![Effect::Release(list[i].callback)],
    decreases list.len(),
{
    reveal(Seq::filter);
    let id = list[i].id;
    let less = list.drop_last();
    if i == list.len() - 1 {
        assert forall|j: int| 0 <= j < less.len() implies (#[trigger] less[j]).id != id by {
            assert(less[j] == list[j]);
        }
        lemma_none_taken_out(less, id);
        assert(list.remove(i) =~= less);
        assert(Seq::<Effect>::empty().push(Effect::Release(list[i].callback)) =~= seq![
            Effect::Release(list[i].callback),
        ]);
    } else {
        assert forall|j: int| 0 <= j < less.len() && j != i implies (#[trigger] less[j]).id
            != less[i].id by {
            assert(less[j] == list[j]);
        }
        lemma_one_taken_out(less, i);
        assert(list[list.len() - 1].id != id);
        assert(list.remove(i) =~= less.remove(i).push(list.last()));
    }
}

/// A list without the reference loses nobody.
proof fn lemma_none_taken_out(list: Seq<Signal>, id: u64)
    requires
        forall|j: int| 0 <= j < list.len() ==> (#[trigger] list[j]).id != id,
    ensures
        without(list, id) == list,
        released(list, id) == Seq::<Effect>::empty(),
    decreases list.len(),
{
    reveal(Seq::filter);
    if list.len() > 0 {
        let less = list.drop_last();
        assert forall|j: int| 0 <= j < less.len() implies (#[trigger] less[j]).id != id by {
            assert(less[j] == list[j]);
        }
        lemma_none_taken_out(less, id);
        assert(list[list.len() - 1].id != id);
        assert(less.push(list.last()) =~= list);
    }
}

/// The listeners of a signal are called one after the other, in the order in which
/// they were added, each once, and one that is invoked at most once is forgotten
/// right after its call. Those that are persistent stay, in their order.
pub proof fn listeners_run_in_order(list: Seq<Signal>, signal: Signal, number: i32)
    ensures
        triggered(Seq::empty(), number).len() == 0,
        persistent(Seq::empty()).len() == 0,
        ({
            let call = Effect::SignalCallback(
                signal.callback,
                SignalHandle { id: signal.id },
                number,
            );
            match signal.lifetime {
                Lifetime::Persistent => {
                    &&& triggered(list.push(signal), number) == triggered(list, number) + seq![call]
                    &&& persistent(list.push(signal)) == persistent(list) + seq![signal]
                },
                Lifetime::Oneshot => {
                    &&& triggered(list.push(signal), number) == triggered(list, number) + seq![
                        call,
                        Effect::Release(signal.callback),
                    ]
                    &&& persistent(list.push(signal)) == persistent(list)
                },
            }
        }),
{
    reveal(Seq::filter);
    assert(list.push(signal).drop_last() =~= list);
    let all = triggered(list.push(signal), number);
    let call = Effect::SignalCallback(signal.callback, SignalHandle { id: signal.id }, number);
    match signal.lifetime {
        Lifetime::Persistent => {
            assert(all =~= triggered(list, number) + seq![call]);
            assert(persistent(list.push(signal)) =~= persistent(list) + seq![signal]);
        },
        Lifetime::Oneshot => {
            assert(all =~= triggered(list, number) + seq![call, Effect::Release(signal.callback)]);
        },
    }
}

/// A signal concerns its own listeners alone: those of every other signal stay as
/// they are, and so does whether a signal was ever listened to. One that nobody
/// listens to anymore gets its default action, and one that nobody ever has
/// listened to is ignored.
pub proof fn signal_concerns_its_own_listeners(handlers: Handlers, number: i32, other: i32)
    ensures
        ({
            let (after, effects) = signaled(handlers, number);
            &&& after.dom() == handlers.dom()
            &&& other != number && handlers.contains_key(other) ==> after[other] == handlers[other]
            &&& handlers.contains_key(number) && handlers[number].len() > 0 ==> after[number]
                == persistent(handlers[number]) && effects == triggered(handlers[number], number)
            &&& handlers.contains_key(number) && handlers[number].len() == 0 ==> after == handlers
                && effects == seq![Effect::EmulateDefault(number)]
            &&& !handlers.contains_key(number) ==> after == handlers && effects.len() == 0
        }),
{
    assert(signaled(handlers, number).0.dom() =~= handlers.dom());
}

/// Signals that are pending together are dealt with one after the other, in their
/// order, and one alone as such.
pub proof fn pending_signals_come_in_order(
    handlers: Handlers,
    first: Seq<i32>,
    second: Seq<i32>,
    number: i32,
)
    ensures
        signaled_all(handlers, Seq::empty()) == (handlers, Seq::<Effect>::empty()),
        signaled_all(handlers, seq![number]) == signaled(handlers, number),
        ({
            let (middle, effects) = signaled_all(handlers, first);
            let (after, more) = signaled_all(middle, second);
            signaled_all(handlers, first + second) == (after, effects + more)
        }),
    decreases second.len(),
{
    let one: Seq<i32> = seq![number];
    assert(one.drop_last() =~= Seq::<i32>::empty());
    assert(signaled_all(handlers, one.drop_last()) == (handlers, Seq::<Effect>::empty()));
    assert(Seq::<Effect>::empty() + signaled(handlers, number).1 =~= signaled(handlers, number).1);
    if second.len() == 0 {
        assert(first + second =~= first);
        let effects = signaled_all(handlers, first).1;
        assert(effects + Seq::<Effect>::empty() =~= effects);
    } else {
        let less = second.drop_last();
        pending_signals_come_in_order(handlers, first, less, number);
        assert((first + second).drop_last() =~= first + less);
        let (middle, effects) = signaled_all(handlers, first);
        let (before, more) = signaled_all(middle, less);
        let last = signaled(before, second.last()).1;
        assert(effects + more + last =~= effects + (more + last));
    }
}

/// An interrupt gets its default action where nobody listens to it, whether or not
/// somebody ever did, and is dealt with as any signal where somebody does.
pub proof fn interrupt_has_a_default_action(handlers: Handlers, number: i32)
    ensures
        ({
            let listened = handlers.contains_key(number) && handlers[number].len() > 0;
            &&& !listened ==> interrupted(handlers, number) == (
                handlers,
                seq![Effect::EmulateDefault(number)],
            )
            &&& listened ==> interrupted(handlers, number) == signaled(handlers, number)
        }),
{
}

} // verus!
