//! Reactions to the events of the poll phase.

use crate::effect::{lemma_viewed_push, viewed, Effect, Interest};
use crate::event_loop::lemmas::{
    lemma_accepted, lemma_changed, lemma_client_joined, lemma_close_queued, lemma_finished,
    lemma_settled, lemma_signaled_all,
};
use crate::event_loop::state::LoopState;
use crate::event_loop::{Event, EventLoop, NetworkTarget};
use crate::fs::FsWatcher;
use crate::fs_event::FsEvent;
use crate::resource::{
    resource_of_token, token, Resource, ResourceId, ResourceKind, ResourceView, MAX_RESOURCES,
};
use crate::signals::{interrupted, signaled_all};
use crate::tcp_listener::{AcceptOutcome, TcpListener};
use crate::tcp_stream::{
    write_end, ReadProgress, SocketStatus, TcpEventKind, TcpStream, WriteOutcome,
};
use crate::tty::TtyReader;
use vstd::prelude::*;

verus! {

impl EventLoop {
    /// Returns true if the loop can take an event.
    pub fn accepts(&self, event: Event) -> (accepted: bool)
        requires
            self@.wf(),
        ensures
            accepted == self@.accepts(event),
    {
        match event {
            Event::Network(TcpEventKind::Read(token)) => {
                let id = resource_of_token(token);
                self.holds(id, ResourceKind::TcpStream) || self.holds(id, ResourceKind::TcpListener)
            },
            Event::Network(TcpEventKind::Write(token)) => {
                let id = resource_of_token(token);
                self.holds(id, ResourceKind::TcpStream)
            },
            Event::ThreadPool(id) => {
                let known = match self.resources.get(id) {
                    Some(resource) => resource.kind() == ResourceKind::Task,
                    None => true,
                };
                self.thread_pool.pending_count() > 0 && known
            },
            _ => true,
        }
    }

    /// Processes a finished task from the thread-pool.
    pub fn process_finished_task(&mut self, id: ResourceId) -> (effects: Vec<Effect>)
        requires
            old(self)@.wf(),
            old(self)@.accepts(Event::ThreadPool(id)),
        ensures
            (final(self)@, viewed(effects@)) == old(self)@.finished(id),
            final(self)@.wf(),
    {
        let mut effects: Vec<Effect> = Vec::new();
        proof {
            lemma_finished(old(self)@, id);
        }
        self.thread_pool.settle();
        // If we receive a task ID that doesn't exist as a resource,
        // it means the task has already been canceled.
        if let Some(resource) = self.remove_resource(id) {
            if let Resource::Task(mut task) = resource {
                effects = task.run_callback();
                effects.push(Effect::Drop(Resource::Task(task)));
            }
        }
        assert(viewed(effects@) =~= old(self)@.finished(id).1);
        assert(self@ =~= old(self)@.finished(id).0);
        effects
    }

    /// Takes note that a worker has dropped a task before it was executed.
    pub fn process_skipped_task(&mut self)
        requires
            old(self)@.wf(),
            old(self)@.pool.pending > 0,
        ensures
            final(self)@ == old(self)@.settled(),
            final(self)@.wf(),
    {
        self.thread_pool.settle();
        proof {
            lemma_settled(old(self)@);
            assert(self@ =~= old(self)@.settled());
        }
    }

    /// Processes a change that the watcher of a file-system event resource has
    /// detected.
    pub fn process_fs_event(&self, id: ResourceId) -> (effects: Vec<Effect>)
        requires
            self@.wf(),
        ensures
            viewed(effects@) == self@.fs_event_seen(id),
    {
        let mut effects: Vec<Effect> = Vec::new();
        if let Some(fs_event) = self.resources.get_as::<FsEvent>(id) {
            effects.push(fs_event.run_callback());
        }
        assert(viewed(effects@) =~= self@.fs_event_seen(id));
        effects
    }

    /// Processes a change that a file-system watcher has detected.
    pub fn process_watch_event(&self, id: ResourceId) -> (effects: Vec<Effect>)
        requires
            self@.wf(),
        ensures
            viewed(effects@) == self@.watch_seen(id),
    {
        let mut effects: Vec<Effect> = Vec::new();
        if let Some(watcher) = self.resources.get_as::<FsWatcher>(id) {
            effects.push(watcher.run_callback());
        }
        assert(viewed(effects@) =~= self@.watch_seen(id));
        effects
    }

    /// Processes input of the terminal.
    pub fn process_tty_read(&self, id: ResourceId) -> (effects: Vec<Effect>)
        requires
            self@.wf(),
        ensures
            viewed(effects@) == self@.input_seen(id),
    {
        let mut effects: Vec<Effect> = Vec::new();
        if let Some(reader) = self.resources.get_as::<TtyReader>(id) {
            effects.push(reader.run_callback());
        }
        assert(viewed(effects@) =~= self@.input_seen(id));
        effects
    }

    /// Processes an event that is neither for the network nor about signals.
    pub fn process_event(&mut self, event: Event) -> (effects: Vec<Effect>)
        requires
            old(self)@.wf(),
            old(self)@.accepts(event),
        ensures
            (final(self)@, viewed(effects@)) == old(self)@.dispatched(event),
            final(self)@.wf(),
    {
        match event {
            Event::ThreadPool(id) => self.process_finished_task(id),
            Event::Watch(id) => self.process_fs_event(id),
            Event::FsWatch(id) => self.process_watch_event(id),
            Event::TtyRead(id) => self.process_tty_read(id),
            Event::Network(_) | Event::Signal => {
                let effects: Vec<Effect> = Vec::new();
                assert(viewed(effects@) =~= Seq::empty());
                effects
            },
        }
    }

    /// Processes any ready network events: returns what is to be read, written
    /// or accepted.
    pub fn process_network_event(&self, event: TcpEventKind) -> (target: NetworkTarget)
        requires
            self@.wf(),
            self@.accepts(Event::Network(event)),
        ensures
            target == self@.network_target(event),
    {
        match event {
            TcpEventKind::Read(token) => {
                // There is no way to tell if the event is for a socket or a listener
                // so we'll try to cast the resource into a tcp stream first. If that fails
                // it is a tcp listener.
                let id = resource_of_token(token);
                if self.holds(id, ResourceKind::TcpStream) {
                    NetworkTarget::Read(id)
                } else {
                    NetworkTarget::Accept(id)
                }
            },
            TcpEventKind::Write(token) => NetworkTarget::Write(resource_of_token(token)),
        }
    }

    /// Reacts to a series of reads from the socket of a stream that has ended.
    pub fn read_from_socket(&mut self, id: ResourceId, progress: ReadProgress) -> (effects: Vec<
        Effect,
    >)
        requires
            old(self)@.wf(),
            old(self)@.holds(id, ResourceKind::TcpStream),
        ensures
            (final(self)@, viewed(effects@)) == old(self)@.stream_read(id, progress@),
            final(self)@.wf(),
    {
        proof {
            lemma_close_queued(old(self)@, id);
        }
        let effects = match self.resources.get_as::<TcpStream>(id) {
            Some(stream) => stream.read_from_socket(id, progress, &mut self.close_queue),
            None => Vec::new(),
        };
        assert(self@ =~= old(self)@.stream_read(id, progress@).0);
        effects
    }

    /// Starts writing to the socket of a stream, given the error state of the
    /// socket. Returns what to do first, and whether to go on.
    pub fn write_to_socket(&mut self, id: ResourceId, status: SocketStatus) -> (started: (
        Vec<Effect>,
        bool,
    ))
        requires
            old(self)@.wf(),
            old(self)@.holds(id, ResourceKind::TcpStream),
        ensures
            (final(self)@, viewed(started.0@), started.1) == old(self)@.stream_write_start(
                id,
                status,
            ),
            final(self)@.wf(),
    {
        let ghost expected = old(self)@.stream_write_start(id, status).0;
        let started = match self.resources.get_mut_as::<TcpStream>(id) {
            Some(stream) => stream.write_to_socket(id, status, &mut self.close_queue),
            None => (Vec::new(), false),
        };
        proof {
            let stream = ResourceView::TcpStream(
                crate::tcp_stream::write_start(
                    old(self)@.resources[id]->TcpStream_0,
                    id,
                    status,
                ).stream,
            );
            lemma_changed(old(self)@, id, stream);
            lemma_close_queued(old(self)@.changed(id, stream), id);
            assert(self@ =~= expected);
        }
        started
    }

    /// Returns the bytes to write next to the socket of a stream.
    pub fn write_front(&self, id: ResourceId) -> (front: Option<&Vec<u8>>)
        requires
            self@.wf(),
            self@.holds(id, ResourceKind::TcpStream),
        ensures
            ({
                let queue = self@.resources[id]->TcpStream_0.write_queue;
                match front {
                    Some(data) => queue.len() > 0 && data@ == queue[0].0,
                    None => queue.len() == 0,
                }
            }),
    {
        match self.resources.get_as::<TcpStream>(id) {
            Some(stream) => stream.write_front(),
            None => None,
        }
    }

    /// Takes the outcome of writing the front of the queue of a stream. Returns
    /// what to do, and whether to write on.
    pub fn write_step(&mut self, id: ResourceId, outcome: WriteOutcome) -> (stepped: (
        Vec<Effect>,
        bool,
    ))
        requires
            old(self)@.wf(),
            old(self)@.holds(id, ResourceKind::TcpStream),
            old(self)@.resources[id]->TcpStream_0.write_queue.len() > 0,
        ensures
            (final(self)@, viewed(stepped.0@), stepped.1) == old(self)@.stream_write(id, outcome),
            final(self)@.wf(),
    {
        let ghost expected = old(self)@.stream_write(id, outcome).0;
        let stepped = match self.resources.get_mut_as::<TcpStream>(id) {
            Some(stream) => stream.write_step(outcome),
            None => (Vec::new(), false),
        };
        proof {
            lemma_changed(
                old(self)@,
                id,
                ResourceView::TcpStream(
                    crate::tcp_stream::write_after(
                        old(self)@.resources[id]->TcpStream_0,
                        outcome,
                    ).0,
                ),
            );
            assert(self@ =~= expected);
        }
        stepped
    }

    /// Ends the writing to the socket of a stream.
    pub fn write_finish(&self, id: ResourceId) -> (effects: Vec<Effect>)
        requires
            self@.wf(),
            self@.holds(id, ResourceKind::TcpStream),
        ensures
            viewed(effects@) == write_end(self@.resources[id]->TcpStream_0, id),
    {
        match self.resources.get_as::<TcpStream>(id) {
            Some(stream) => stream.write_finish(id),
            None => Vec::new(),
        }
    }

    /// Reacts to one attempt to accept a connection of a listener. Returns what
    /// to do, and whether to try again.
    pub fn accept(&mut self, id: ResourceId, outcome: AcceptOutcome) -> (stepped: (
        Vec<Effect>,
        bool,
    ))
        requires
            old(self)@.wf(),
            old(self)@.holds(id, ResourceKind::TcpListener),
            outcome is Accepted ==> old(self)@.handle.next_id < u64::MAX,
        ensures
            (final(self)@, viewed(stepped.0@), stepped.1) == old(self)@.connection_accepted(
                id,
                outcome,
            ),
            final(self)@.wf(),
    {
        let ghost expected = old(self)@.connection_accepted(id, outcome);
        match self.resources.get_as::<TcpListener>(id) {
            Some(listener) => {
                let step = listener.accept(&mut self.handle, outcome);
                if let Some(client) = step.client {
                    self.accepted.push_back(client);
                }
                proof {
                    if let AcceptOutcome::Accepted(socket) = outcome {
                        let stream = crate::tcp_listener::accepted_stream(
                            old(self)@.handle.next_id,
                            socket,
                        );
                        lemma_accepted(old(self)@, stream);
                        assert(self@.accepted =~= old(self)@.accepted.push(stream));
                    }
                    assert(viewed(step.effects@) =~= expected.1);
                    assert(self@ =~= expected.0);
                }
                (step.effects, step.more)
            },
            None => (Vec::new(), false),
        }
    }

    /// Returns true if there is room for the streams of all new connections.
    pub fn can_join_clients(&self) -> (room: bool)
        requires
            self@.wf(),
        ensures
            room == (self@.resources.len() + self@.accepted.len() <= MAX_RESOURCES),
    {
        let used = self.resources.len();
        used <= MAX_RESOURCES && self.accepted.len() <= MAX_RESOURCES - used
    }

    /// Adds the streams of all new connections to the resources and declares
    /// interest in them.
    pub fn join_clients(&mut self) -> (effects: Vec<Effect>)
        requires
            old(self)@.wf(),
            old(self)@.resources.len() + old(self)@.accepted.len() <= MAX_RESOURCES,
        ensures
            exists|ids: Seq<ResourceId>|
                {
                    &&& ids.len() == old(self)@.accepted.len()
                    &&& old(self)@.clients_available(ids)
                    &&& (final(self)@, viewed(effects@)) == #[trigger]
                        old(self)@.clients_joined(ids)
                },
            final(self)@.wf(),
    {
        let mut effects: Vec<Effect> = Vec::new();
        let ghost mut ids: Seq<ResourceId> = Seq::empty();
        assert(viewed(effects@) =~= Seq::empty());
        while self.accepted.len() > 0
            invariant
                self@.wf(),
                self@.resources.len() + self@.accepted.len() <= MAX_RESOURCES,
                ids.len() + self@.accepted.len() == old(self)@.accepted.len(),
                old(self)@.clients_available(ids),
                (self@, viewed(effects@)) == old(self)@.clients_joined(ids),
            decreases self@.accepted.len(),
        {
            let ghost before = self@;
            let ghost earlier = effects@;
            // For every new connection, add the stream to the resources so we can
            // attach an actual ID and declare interest in the registry.
            if let Some(stream) = self.accepted.pop_front() {
                let ghost view = stream@;
                let socket = stream.socket;
                let shared = stream.id;
                let resource = Resource::TcpStream(stream);
                let id = self.resources.insert(resource);
                self.links.insert(shared, id);
                let effect = Effect::Register(socket, token(id), Interest::Readable);
                proof {
                    assert(before.accepted[0] == view);
                    lemma_viewed_push(earlier, effect);
                    assert(self@.resources.contains_key(id));
                    assert(before.available(id));
                    lemma_client_joined(before, id);
                    assert(ids.push(id).drop_last() =~= ids);
                    assert(self@ =~= (LoopState {
                        accepted: before.accepted.drop_first(),
                        ..before.joined(id, ResourceView::TcpStream(view))
                    }));
                    ids = ids.push(id);
                }
                effects.push(effect);
            }
        }
        effects
    }

    /// Runs the listeners of the pending signals.
    pub fn process_signals(&mut self, pending: &Vec<i32>) -> (effects: Vec<Effect>)
        requires
            old(self)@.wf(),
        ensures
            final(self)@ == (LoopState {
                signals: signaled_all(old(self)@.signals, pending@).0,
                ..old(self)@
            }),
            effects@ == signaled_all(old(self)@.signals, pending@).1,
            final(self)@.wf(),
    {
        let effects = self.signals.run_pending(pending);
        proof {
            lemma_signaled_all(old(self)@, pending@);
            assert(self@ =~= (LoopState {
                signals: signaled_all(old(self)@.signals, pending@).0,
                ..old(self)@
            }));
        }
        effects
    }

    /// Runs the listeners of an interrupt that the driver waits for at all times.
    pub fn process_interrupt(&mut self, number: i32) -> (effects: Vec<Effect>)
        requires
            old(self)@.wf(),
        ensures
            final(self)@ == (LoopState {
                signals: interrupted(old(self)@.signals, number).0,
                ..old(self)@
            }),
            effects@ == interrupted(old(self)@.signals, number).1,
            final(self)@.wf(),
    {
        let effects = self.signals.run_interrupt(number);
        proof {
            let after = LoopState {
                signals: interrupted(old(self)@.signals, number).0,
                ..old(self)@
            };
            assert(self@ =~= after);
            let one: Seq<i32> = seq![number];
            assert(one.drop_last() =~= Seq::<i32>::empty());
            reveal_with_fuel(signaled_all, 2);
            lemma_signaled_all(old(self)@, one);
            assert(old(self)@ =~= (LoopState { signals: old(self)@.signals, ..old(self)@ }));
        }
        effects
    }
}

} // verus!
