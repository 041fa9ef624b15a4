# crabuv

The decisions of a single-threaded event-loop for asynchronous I/O, verified with
Verus: timers, tcp connections and listeners, a thread-pool, file-system watchers,
check callbacks, signals and terminal input.

The library performs no I/O. A driver polls, reads the clock and runs the user's
callbacks. It hands the library what has happened, as plain values, and performs
the effects that the library returns, in order. Callbacks, sockets, errors, paths
and work are numbers to the library; the driver keeps what they stand for.

## Layout

- `src/event_loop.rs` is the loop. `event_loop/state.rs` says what it holds and
  what every step makes of it, `event_loop/laws.rs` what it promises across steps.
  `event_loop/runs.rs` puts the steps together to runs of any length; what holds
  over whole runs is in `calls.rs` (which callbacks are run), `due.rs` (the way of a
  timer), `tasks.rs` (the way of a task) and `stale.rs` (what a canceled timer leaves
  behind).
  The steps are in `event_loop/handle.rs` (requests are made), `requests.rs`
  (requests are served), `phases.rs` (the phases of an iteration) and `network.rs`
  (reactions to events).
- `src/timers.rs`, `tcp_stream.rs`, `tcp_listener.rs`, `task.rs`, `thread_pool.rs`,
  `check.rs`, `fs.rs`, `fs_event.rs`, `signals.rs` and `tty.rs` hold the resources,
  `src/resource.rs` the table that stores them.
- `src/index_loop.rs` is a smaller loop whose resources have running numbers.
- `app/` drives both loops on a real system.
- `tests/` runs the library on concrete values.

## One iteration

The driver asks `EventLoop::run` for the phase that comes next, and does what that
phase needs:

1. read the clock, and serve the requests that were made through the handle;
2. fire the timers whose instant has passed;
3. poll, no longer than the given time, and process the events;
4. run the check callbacks;
5. clean up the resources that are closing.

Requests are served again after every event, after the check callbacks and after
the clean-up: `EventLoop::serves_requests` says where.
