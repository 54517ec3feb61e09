//! The lifecycle of the server that hosts the service.
//!
//! The runtime is a state machine. A driver owns the socket, the signal
//! handler and the calls; it tells the machine what happened, as an `Event`,
//! and the machine answers with the next state and with what the driver is to
//! do, as an `Action`. The machine itself touches nothing outside.
//!
//! The server goes from `Unbound` through `Bound`, `Serving` and `Draining`
//! to `Stopped` and never back. Calls are taken in `Serving` only. A shutdown
//! signal ends the taking of calls at once and lets the calls in flight run
//! to their end.
//!
//! Draining has no time limit: a call that never ends keeps the server in
//! `Draining` for good. Whoever needs a limit has to put it around the
//! driver.

use crate::log::LogRecord;
use vstd::prelude::*;

verus! {

/// Why the server could not start. Each of these is fatal.
#[derive(Clone, Copy, Debug, PartialEq, Eq, Structural)]
pub enum StartupError {
    /// Another socket holds the address.
    AddressInUse,
    /// The process may not bind the address.
    PermissionDenied,
    /// The handler for the shutdown signal could not be installed, so a
    /// graceful shutdown could not be promised.
    SignalHandlerInstallFailure,
}

/// Why the address could not be bound.
#[derive(Clone, Copy, Debug, PartialEq, Eq, Structural)]
pub enum BindError {
    /// Another socket holds the address.
    AddressInUse,
    /// The process may not bind the address.
    PermissionDenied,
}

impl BindError {
    /// The startup error that this bind error amounts to.
    pub open spec fn spec_startup_error(self) -> StartupError {
        match self {
            BindError::AddressInUse => StartupError::AddressInUse,
            BindError::PermissionDenied => StartupError::PermissionDenied,
        }
    }

    /// The startup error that this bind error amounts to.
    pub fn startup_error(self) -> (error: StartupError)
        ensures
            error == self.spec_startup_error(),
    {
        match self {
            BindError::AddressInUse => StartupError::AddressInUse,
            BindError::PermissionDenied => StartupError::PermissionDenied,
        }
    }
}

/// Where the server is in its life.
#[derive(Clone, Copy, Debug, PartialEq, Eq, Structural)]
pub enum ServerState {
    /// Nothing is bound yet.
    Unbound,
    /// The address is bound; the service is not registered yet.
    Bound,
    /// The service is registered and calls are taken; `in_flight` of them
    /// have not finished yet.
    Serving { in_flight: u64 },
    /// A shutdown signal came: no call is taken any more, and `in_flight`
    /// calls, at least one, are still running.
    Draining { in_flight: u64 },
    /// The address is released and the process may exit: cleanly where
    /// `failure` is `None`, else for the startup error it names.
    Stopped { failure: Option<StartupError> },
}

/// What the driver tells the machine.
#[derive(Clone, Copy, Debug, PartialEq, Eq, Structural)]
pub enum Event {
    /// The address was bound.
    BindSucceeded,
    /// The address could not be bound.
    BindFailed(BindError),
    /// The handler for the shutdown signal could not be installed.
    SignalHandlerFailed,
    /// The service implementation was registered under the service contract.
    ServiceRegistered,
    /// A call came in.
    CallArrived,
    /// A call that was taken has finished, with a reply or with an error of
    /// its own.
    CallCompleted,
    /// The shutdown signal came.
    ShutdownSignal,
}

/// What the machine tells the driver to do.
#[derive(Clone, Copy, Debug, PartialEq, Eq, Structural)]
pub enum Action {
    /// Nothing.
    Nothing,
    /// Register the service implementation, then report `ServiceRegistered`.
    RegisterService,
    /// Start taking connections.
    AcceptConnections,
    /// Hand the call to the service; report `CallCompleted` when it is done.
    Dispatch,
    /// Turn the call away.
    Refuse,
    /// Stop taking connections; let the calls in flight finish.
    StopAccepting,
    /// Release the address, if one is bound, and exit with `code`.
    Exit { code: u8 },
}

/// The exit code of a clean shutdown.
pub const EXIT_CLEAN: u8 = 0;

/// The exit code after a startup error.
pub const EXIT_FAILURE: u8 = 1;

impl ServerState {
    /// How far the server has come: 0 for `Unbound` up to 4 for `Stopped`.
    pub open spec fn spec_rank(self) -> nat {
        match self {
            ServerState::Unbound => 0,
            ServerState::Bound => 1,
            ServerState::Serving { .. } => 2,
            ServerState::Draining { .. } => 3,
            ServerState::Stopped { .. } => 4,
        }
    }

    /// The number of calls that were taken and have not finished.
    pub open spec fn spec_in_flight(self) -> nat {
        match self {
            ServerState::Serving { in_flight } => in_flight as nat,
            ServerState::Draining { in_flight } => in_flight as nat,
            _ => 0,
        }
    }

    /// Whether the server holds its address.
    pub open spec fn spec_holds_address(self) -> bool {
        self is Bound || self is Serving || self is Draining
    }

    /// A state is well formed unless it is `Draining` with nothing to drain:
    /// the machine stops as soon as the last call has finished.
    pub open spec fn spec_well_formed(self) -> bool {
        self matches ServerState::Draining { in_flight } ==> in_flight > 0
    }

    /// The exit code, once the server has stopped.
    pub open spec fn spec_exit_code(self) -> Option<u8> {
        match self {
            ServerState::Stopped { failure: None } => Some(EXIT_CLEAN),
            ServerState::Stopped { failure: Some(_) } => Some(EXIT_FAILURE),
            _ => None,
        }
    }
}

/// The state that a fatal startup error leaves, and what is to be done.
pub open spec fn spec_fail(error: StartupError) -> (ServerState, Action) {
    (ServerState::Stopped { failure: Some(error) }, Action::Exit { code: EXIT_FAILURE })
}

/// The state after a clean shutdown, and what is to be done.
pub open spec fn spec_stop() -> (ServerState, Action) {
    (ServerState::Stopped { failure: None }, Action::Exit { code: EXIT_CLEAN })
}

/// The transition function: the state after `event` came in `state`, and
/// what the driver is to do.
///
/// An event that has no meaning in a state changes nothing and asks for
/// nothing, but for a call, which is refused wherever it is not served.
pub open spec fn spec_step(state: ServerState, event: Event) -> (ServerState, Action) {
    match (state, event) {
        (ServerState::Unbound, Event::BindSucceeded) => (
            ServerState::Bound,
            Action::RegisterService,
        ),
        (ServerState::Unbound, Event::BindFailed(error)) => spec_fail(error.spec_startup_error()),
        (ServerState::Unbound, Event::SignalHandlerFailed) => spec_fail(
            StartupError::SignalHandlerInstallFailure,
        ),
        (ServerState::Unbound, Event::ShutdownSignal) => spec_stop(),
        (ServerState::Bound, Event::ServiceRegistered) => (
            ServerState::Serving { in_flight: 0 },
            Action::AcceptConnections,
        ),
        (ServerState::Bound, Event::SignalHandlerFailed) => spec_fail(
            StartupError::SignalHandlerInstallFailure,
        ),
        (ServerState::Bound, Event::ShutdownSignal) => spec_stop(),
        (ServerState::Serving { in_flight }, Event::CallArrived) => if in_flight < u64::MAX {
            (ServerState::Serving { in_flight: (in_flight + 1) as u64 }, Action::Dispatch)
        } else {
            (state, Action::Refuse)
        },
        (ServerState::Serving { in_flight }, Event::CallCompleted) => if in_flight > 0 {
            (ServerState::Serving { in_flight: (in_flight - 1) as u64 }, Action::Nothing)
        } else {
            (state, Action::Nothing)
        },
        (ServerState::Serving { in_flight }, Event::ShutdownSignal) => if in_flight > 0 {
            (ServerState::Draining { in_flight }, Action::StopAccepting)
        } else {
            spec_stop()
        },
        (ServerState::Draining { in_flight }, Event::CallCompleted) => if in_flight > 1 {
            (ServerState::Draining { in_flight: (in_flight - 1) as u64 }, Action::Nothing)
        } else {
            spec_stop()
        },
        (_, Event::CallArrived) => (state, Action::Refuse),
        _ => (state, Action::Nothing),
    }
}

/// The record of a transition: one for each change of phase, none where the
/// server stays in its phase.
pub open spec fn spec_transition_record(state: ServerState, event: Event) -> Option<LogRecord> {
    let next = spec_step(state, event).0;
    if next.spec_rank() != state.spec_rank() {
        Some(LogRecord::StateChanged { from: state, to: next })
    } else {
        None
    }
}

/// The log after a transition: the log before it, and the record of the
/// transition where there is one.
pub open spec fn spec_log_after(log: Seq<LogRecord>, state: ServerState, event: Event) -> Seq<
    LogRecord,
> {
    match spec_transition_record(state, event) {
        Some(record) => log.push(record),
        None => log,
    }
}

impl ServerState {
    /// The state in which every server starts.
    pub fn new() -> (state: ServerState)
        ensures
            state == ServerState::Unbound,
    {
        ServerState::Unbound
    }

    /// How far the server has come: 0 for `Unbound` up to 4 for `Stopped`.
    pub fn rank(&self) -> (rank: u8)
        ensures
            rank == self.spec_rank(),
    {
        match self {
            ServerState::Unbound => 0,
            ServerState::Bound => 1,
            ServerState::Serving { .. } => 2,
            ServerState::Draining { .. } => 3,
            ServerState::Stopped { .. } => 4,
        }
    }

    /// The number of calls that were taken and have not finished.
    pub fn in_flight(&self) -> (count: u64)
        ensures
            count == self.spec_in_flight(),
    {
        match self {
            ServerState::Serving { in_flight } => *in_flight,
            ServerState::Draining { in_flight } => *in_flight,
            _ => 0,
        }
    }

    /// The exit code, once the server has stopped: `EXIT_CLEAN` after a
    /// shutdown, `EXIT_FAILURE` after a startup error.
    pub fn exit_code(&self) -> (code: Option<u8>)
        ensures
            code == self.spec_exit_code(),
    {
        match self {
            ServerState::Stopped { failure: None } => Some(EXIT_CLEAN),
            ServerState::Stopped { failure: Some(_) } => Some(EXIT_FAILURE),
            _ => None,
        }
    }
}

/// The state that a fatal startup error leaves, and what is to be done.
fn fail(error: StartupError) -> (r: (ServerState, Action))
    ensures
        r == spec_fail(error),
{
    (ServerState::Stopped { failure: Some(error) }, Action::Exit { code: EXIT_FAILURE })
}

/// The state after a clean shutdown, and what is to be done.
fn stop() -> (r: (ServerState, Action))
    ensures
        r == spec_stop(),
{
    (ServerState::Stopped { failure: None }, Action::Exit { code: EXIT_CLEAN })
}

/// Takes one step: the state after `event` came in `state`, and what the
/// driver is to do. Every change of phase is written to `log`, once.
pub fn step(state: ServerState, event: Event, log: &mut Vec<LogRecord>) -> (r: (
    ServerState,
    Action,
))
    ensures
        r == spec_step(state, event),
        final(log)@ == spec_log_after(old(log)@, state, event),
        state.spec_well_formed() ==> r.0.spec_well_formed(),
{
    let r = match state {
        ServerState::Unbound => match event {
            Event::BindSucceeded => (ServerState::Bound, Action::RegisterService),
            Event::BindFailed(error) => fail(error.startup_error()),
            Event::SignalHandlerFailed => fail(StartupError::SignalHandlerInstallFailure),
            Event::ShutdownSignal => stop(),
            Event::CallArrived => (state, Action::Refuse),
            _ => (state, Action::Nothing),
        },
        ServerState::Bound => match event {
            Event::ServiceRegistered => (
                ServerState::Serving { in_flight: 0 },
                Action::AcceptConnections,
            ),
            Event::SignalHandlerFailed => fail(StartupError::SignalHandlerInstallFailure),
            Event::ShutdownSignal => stop(),
            Event::CallArrived => (state, Action::Refuse),
            _ => (state, Action::Nothing),
        },
        ServerState::Serving { in_flight } => match event {
            Event::CallArrived => if in_flight < u64::MAX {
                (ServerState::Serving { in_flight: in_flight + 1 }, Action::Dispatch)
            } else {
                (state, Action::Refuse)
            },
            Event::CallCompleted => if in_flight > 0 {
                (ServerState::Serving { in_flight: in_flight - 1 }, Action::Nothing)
            } else {
                (state, Action::Nothing)
            },
            Event::ShutdownSignal => if in_flight > 0 {
                (ServerState::Draining { in_flight }, Action::StopAccepting)
            } else {
                stop()
            },
            _ => (state, Action::Nothing),
        },
        ServerState::Draining { in_flight } => match event {
            Event::CallCompleted => if in_flight > 1 {
                (ServerState::Draining { in_flight: in_flight - 1 }, Action::Nothing)
            } else {
                stop()
            },
            Event::CallArrived => (state, Action::Refuse),
            _ => (state, Action::Nothing),
        },
        ServerState::Stopped { .. } => match event {
            Event::CallArrived => (state, Action::Refuse),
            _ => (state, Action::Nothing),
        },
    };
    if r.0.rank() != state.rank() {
        log.push(LogRecord::StateChanged { from: state, to: r.0 });
    }
    r
}

/// The machine keeps its states well formed.
pub proof fn lemma_step_keeps_well_formed(state: ServerState, event: Event)
    requires
        state.spec_well_formed(),
    ensures
        spec_step(state, event).0.spec_well_formed(),
{
}

/// The server never goes back to an earlier phase.
pub proof fn lemma_step_never_goes_back(state: ServerState, event: Event)
    ensures
        spec_step(state, event).0.spec_rank() >= state.spec_rank(),
{
}

/// `Stopped` is final: no event changes it, and none is answered with more
/// than a refusal.
pub proof fn lemma_stopped_is_final(state: ServerState, event: Event)
    requires
        state is Stopped,
    ensures
        spec_step(state, event).0 == state,
        spec_step(state, event).1 == if event == Event::CallArrived {
            Action::Refuse
        } else {
            Action::Nothing
        },
{
}

/// Every call gets exactly one answer from the machine: it is dispatched
/// while the server is serving and can count it, and refused otherwise.
pub proof fn lemma_call_is_dispatched_or_refused(state: ServerState, event: Event)
    ensures
        spec_step(state, event).1 == Action::Dispatch <==> event == Event::CallArrived && (
        state matches ServerState::Serving { in_flight } && in_flight < u64::MAX),
        spec_step(state, event).1 == Action::Refuse <==> event == Event::CallArrived && !(
        state matches ServerState::Serving { in_flight } && in_flight < u64::MAX),
{
}

/// The address is held from a successful bind on, and only from then.
pub proof fn lemma_address_is_held_after_bind_only(state: ServerState, event: Event)
    ensures
        !state.spec_holds_address() && spec_step(state, event).0.spec_holds_address() ==> state
            == ServerState::Unbound && event == Event::BindSucceeded,
{
}

/// A failed bind is fatal and leaves nothing bound behind: the server stops
/// with the error of the bind, and the driver is told to exit with a code
/// that is not 0.
pub proof fn lemma_bind_failure_is_fatal(error: BindError)
    ensures
        spec_step(ServerState::Unbound, Event::BindFailed(error)) == (
            ServerState::Stopped { failure: Some(error.spec_startup_error()) },
            Action::Exit { code: EXIT_FAILURE },
        ),
        !spec_step(ServerState::Unbound, Event::BindFailed(error)).0.spec_holds_address(),
        EXIT_FAILURE != 0,
{
}

/// The driver is told to exit exactly when the server stops, and with the
/// exit code of the state it stopped in: 0 after a shutdown, not 0 after a
/// startup error.
pub proof fn lemma_exit_when_stopping(state: ServerState, event: Event)
    ensures
        spec_step(state, event).1 is Exit <==> spec_step(state, event).0 is Stopped && !(
        state is Stopped),
        spec_step(state, event).1 matches Action::Exit { code } ==> spec_step(
            state,
            event,
        ).0.spec_exit_code() == Some(code),
        spec_step(state, event).0 matches ServerState::Stopped { failure } ==> (failure is Some
            <==> spec_step(state, event).0.spec_exit_code() != Some(EXIT_CLEAN)),
{
}

/// A shutdown signal cancels no call: the calls in flight stay in flight,
/// and the server is draining or has stopped.
pub proof fn lemma_shutdown_keeps_calls(state: ServerState)
    ensures
        spec_step(state, Event::ShutdownSignal).0.spec_in_flight() == state.spec_in_flight(),
        spec_step(state, Event::ShutdownSignal).0.spec_rank() >= 3,
{
}

/// The number of calls in flight changes by the calls that are dispatched
/// and by those that complete, one at a time, and by nothing else.
pub proof fn lemma_calls_are_counted(state: ServerState, event: Event)
    requires
        state.spec_well_formed(),
    ensures
        spec_step(state, event).0.spec_in_flight() + spec_finished_by(state, event)
            == state.spec_in_flight() + spec_taken_by(state, event),
{
}

/// 1 where `event` in `state` has a call dispatched, else 0.
pub open spec fn spec_taken_by(state: ServerState, event: Event) -> nat {
    if spec_step(state, event).1 == Action::Dispatch {
        1
    } else {
        0
    }
}

/// 1 where `event` in `state` is the end of a call in flight, else 0.
pub open spec fn spec_finished_by(state: ServerState, event: Event) -> nat {
    if event == Event::CallCompleted && state.spec_in_flight() > 0 {
        1
    } else {
        0
    }
}

/// The state after all of `events` came, one after the other, from `state`
/// on.
pub open spec fn spec_run(state: ServerState, events: Seq<Event>) -> ServerState
    decreases events.len(),
{
    if events.len() == 0 {
        state
    } else {
        spec_run(spec_step(state, events[0]).0, events.drop_first())
    }
}

/// The number of calls that are dispatched while `events` come.
pub open spec fn spec_taken(state: ServerState, events: Seq<Event>) -> nat
    decreases events.len(),
{
    if events.len() == 0 {
        0
    } else {
        spec_taken_by(state, events[0]) + spec_taken(
            spec_step(state, events[0]).0,
            events.drop_first(),
        )
    }
}

/// The number of calls in flight that end while `events` come.
pub open spec fn spec_finished(state: ServerState, events: Seq<Event>) -> nat
    decreases events.len(),
{
    if events.len() == 0 {
        0
    } else {
        spec_finished_by(state, events[0]) + spec_finished(
            spec_step(state, events[0]).0,
            events.drop_first(),
        )
    }
}

/// No call is lost: over any run of events, the calls that were in flight
/// or were taken are those that have finished and those still in flight.
pub proof fn lemma_no_call_is_lost(state: ServerState, events: Seq<Event>)
    requires
        state.spec_well_formed(),
    ensures
        spec_run(state, events).spec_well_formed(),
        spec_run(state, events).spec_in_flight() + spec_finished(state, events)
            == state.spec_in_flight() + spec_taken(state, events),
    decreases events.len(),
{
    if events.len() > 0 {
        lemma_calls_are_counted(state, events[0]);
        lemma_no_call_is_lost(spec_step(state, events[0]).0, events.drop_first());
    }
}

/// A server that has stopped has let every call that it took run to its
/// end.
pub proof fn lemma_stopped_after_all_calls(events: Seq<Event>)
    requires
        spec_run(ServerState::Unbound, events) is Stopped,
    ensures
        spec_finished(ServerState::Unbound, events) == spec_taken(ServerState::Unbound, events),
{
    lemma_no_call_is_lost(ServerState::Unbound, events);
}

/// Once the server is draining or has stopped, it takes no call any more,
/// whatever comes.
pub proof fn lemma_no_call_while_draining(state: ServerState, events: Seq<Event>)
    requires
        state.spec_rank() >= 3,
    ensures
        spec_taken(state, events) == 0,
        spec_run(state, events).spec_rank() >= 3,
    decreases events.len(),
{
    if events.len() > 0 {
        lemma_no_call_while_draining(spec_step(state, events[0]).0, events.drop_first());
    }
}

/// After a shutdown signal no call is taken, whatever the state was and
/// whatever comes.
pub proof fn lemma_no_call_after_shutdown(state: ServerState, events: Seq<Event>)
    ensures
        spec_taken(spec_step(state, Event::ShutdownSignal).0, events) == 0,
{
    lemma_shutdown_keeps_calls(state);
    lemma_no_call_while_draining(spec_step(state, Event::ShutdownSignal).0, events);
}

} // verus!
