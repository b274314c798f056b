//! The state of a DTLS transport, and how long to wait for it to change.

use vstd::prelude::*;

use crate::transports::dtls::error::DtlsError;

verus! {

/// The state of a DTLS transport.
#[derive(Debug, Clone, Copy, PartialEq, Eq, Structural)]
pub enum DtlsState {
    Handshaking,
    Connected,
    Failed,
    Closed,
}

impl DtlsState {
    /// Whether the handshake is over, successful or not.
    pub open spec fn spec_is_terminal(self) -> bool {
        self != DtlsState::Handshaking
    }

    /// Whether the handshake is over, successful or not.
    pub fn is_terminal(self) -> (terminal: bool)
        ensures
            terminal == self.spec_is_terminal(),
    {
        match self {
            DtlsState::Handshaking => false,
            DtlsState::Connected | DtlsState::Failed | DtlsState::Closed => true,
        }
    }
}

/// What can happen to a transport.
#[derive(Debug, Clone, Copy, PartialEq, Eq, Structural)]
pub enum TransportEvent {
    /// Both sides have finished the handshake.
    HandshakeFinished,
    /// The handshake cannot succeed any more.
    HandshakeFailed,
    /// The peer did not answer in time.
    HandshakeTimedOut,
    /// There is no socket left to send on.
    SocketCleared,
    /// The transport is told to stop.
    CloseRequested,
}

impl DtlsState {
    /// The state after an event. A handshake that is cut off has failed, and so has a
    /// connection whose peer starts another that fails; a connection that is cut off
    /// is closed; failed and closed transports stay as they are.
    pub open spec fn spec_after(self, event: TransportEvent) -> DtlsState {
        match (self, event) {
            (DtlsState::Handshaking, TransportEvent::HandshakeFinished) => DtlsState::Connected,
            (DtlsState::Handshaking, TransportEvent::HandshakeFailed) => DtlsState::Failed,
            (DtlsState::Handshaking, TransportEvent::HandshakeTimedOut) => DtlsState::Failed,
            (DtlsState::Handshaking, TransportEvent::SocketCleared) => DtlsState::Failed,
            (DtlsState::Handshaking, TransportEvent::CloseRequested) => DtlsState::Closed,
            (DtlsState::Connected, TransportEvent::HandshakeFailed) => DtlsState::Failed,
            (DtlsState::Connected, TransportEvent::SocketCleared) => DtlsState::Closed,
            (DtlsState::Connected, TransportEvent::CloseRequested) => DtlsState::Closed,
            _ => self,
        }
    }

    /// The state after an event.
    pub fn after(self, event: TransportEvent) -> (state: DtlsState)
        ensures
            state == self.spec_after(event),
    {
        match (self, event) {
            (DtlsState::Handshaking, TransportEvent::HandshakeFinished) => DtlsState::Connected,
            (DtlsState::Handshaking, TransportEvent::HandshakeFailed) => DtlsState::Failed,
            (DtlsState::Handshaking, TransportEvent::HandshakeTimedOut) => DtlsState::Failed,
            (DtlsState::Handshaking, TransportEvent::SocketCleared) => DtlsState::Failed,
            (DtlsState::Handshaking, TransportEvent::CloseRequested) => DtlsState::Closed,
            (DtlsState::Connected, TransportEvent::HandshakeFailed) => DtlsState::Failed,
            (DtlsState::Connected, TransportEvent::SocketCleared) => DtlsState::Closed,
            (DtlsState::Connected, TransportEvent::CloseRequested) => DtlsState::Closed,
            _ => self,
        }
    }

    /// Whether the task that serves the transport has ended.
    pub open spec fn is_over(self) -> bool {
        self == DtlsState::Failed || self == DtlsState::Closed
    }
}

/// What to do while waiting for a transport. Times are milliseconds on a clock
/// that does not run backwards.
#[derive(Debug, Clone, Copy, PartialEq, Eq, Structural)]
pub enum WaitStep {
    /// The transport is in the awaited state; stop waiting.
    Reached(DtlsState),
    /// The transport is in a state that it will not leave; give up.
    Unreachable(DtlsState),
    /// The deadline has passed while the transport was in this state; give up.
    TimedOut(DtlsState),
    /// Wait for the state to change, but no longer than this.
    Wait(u64),
}

/// The next step of waiting for the handshake to end.
pub open spec fn terminal_step(state: DtlsState, now: u64, deadline: u64) -> WaitStep {
    if state.spec_is_terminal() {
        WaitStep::Reached(state)
    } else if now >= deadline {
        WaitStep::TimedOut(state)
    } else {
        WaitStep::Wait((deadline - now) as u64)
    }
}

/// The next step of waiting for the handshake to end.
pub fn wait_for_terminal_state(state: DtlsState, now: u64, deadline: u64) -> (step: WaitStep)
    ensures
        step == terminal_step(state, now, deadline),
{
    if state.is_terminal() {
        WaitStep::Reached(state)
    } else if now >= deadline {
        WaitStep::TimedOut(state)
    } else {
        WaitStep::Wait(deadline - now)
    }
}

/// The next step of waiting for the handshake to succeed.
pub open spec fn connected_step(state: DtlsState, now: u64, deadline: u64) -> WaitStep {
    if state == DtlsState::Connected {
        WaitStep::Reached(state)
    } else if state.is_over() {
        WaitStep::Unreachable(state)
    } else if now >= deadline {
        WaitStep::TimedOut(state)
    } else {
        WaitStep::Wait((deadline - now) as u64)
    }
}

/// The next step of waiting for the handshake to succeed.
pub fn wait_connected(state: DtlsState, now: u64, deadline: u64) -> (step: WaitStep)
    ensures
        step == connected_step(state, now, deadline),
{
    match state {
        DtlsState::Connected => WaitStep::Reached(state),
        DtlsState::Failed | DtlsState::Closed => WaitStep::Unreachable(state),
        DtlsState::Handshaking => if now >= deadline {
            WaitStep::TimedOut(state)
        } else {
            WaitStep::Wait(deadline - now)
        },
    }
}

/// No wait goes beyond the deadline, and once it is there, there is no more
/// waiting, whatever state the transport is in by then.
pub proof fn waiting_ends_at_deadline(
    state: DtlsState,
    now: u64,
    deadline: u64,
    later_state: DtlsState,
    later: u64,
)
    requires
        later >= deadline,
    ensures
        terminal_step(state, now, deadline) matches WaitStep::Wait(time) ==> now + time
            == deadline,
        connected_step(state, now, deadline) matches WaitStep::Wait(time) ==> now + time
            == deadline,
        !(terminal_step(later_state, later, deadline) matches WaitStep::Wait(_)),
        !(connected_step(later_state, later, deadline) matches WaitStep::Wait(_)),
{
}

/// What can come of waiting for a transport to change its state.
#[derive(Debug, Clone, Copy, PartialEq, Eq, Structural)]
pub enum WaitEvent {
    /// The transport is in this state now.
    Changed(DtlsState),
    /// The time to wait is over.
    Elapsed,
    /// The transport is gone and will not report a state any more.
    Closed,
}

/// The state after a wait. Without a new state, waiting fails.
pub fn state_after_wait(event: WaitEvent) -> (result: Result<DtlsState, DtlsError>)
    ensures
        result == match event {
            WaitEvent::Changed(state) => Ok(state),
            WaitEvent::Elapsed => Err(DtlsError::WaitElapsed),
            WaitEvent::Closed => Err(DtlsError::StateChannelClosed),
        },
{
    match event {
        WaitEvent::Changed(state) => Ok(state),
        WaitEvent::Elapsed => Err(DtlsError::WaitElapsed),
        WaitEvent::Closed => Err(DtlsError::StateChannelClosed),
    }
}

/// A state that was observed at a time.
pub struct Observation {
    pub state: DtlsState,
    pub now: u64,
}

/// Whether an observation leaves everything open: the handshake goes on and the
/// deadline has not passed.
pub open spec fn is_open(observation: Observation, deadline: u64) -> bool {
    observation.state == DtlsState::Handshaking && observation.now < deadline
}

/// Whether observation `n` is the first that leaves nothing open.
pub open spec fn decides(observed: Seq<Observation>, deadline: u64, n: int) -> bool {
    &&& 0 <= n < observed.len()
    &&& !is_open(observed[n], deadline)
    &&& forall|i: int| 0 <= i < n ==> is_open(#[trigger] observed[i], deadline)
}

/// What waiting for the handshake to end comes to when these states are observed
/// one after another, or `None` while it goes on.
pub open spec fn terminal_run(observed: Seq<Observation>, deadline: u64) -> Option<WaitStep>
    decreases observed.len(),
{
    if observed.len() == 0 {
        None
    } else {
        match terminal_step(observed[0].state, observed[0].now, deadline) {
            WaitStep::Wait(_) => terminal_run(observed.drop_first(), deadline),
            step => Some(step),
        }
    }
}

/// What waiting for the handshake to succeed comes to when these states are
/// observed one after another, or `None` while it goes on.
pub open spec fn connected_run(observed: Seq<Observation>, deadline: u64) -> Option<WaitStep>
    decreases observed.len(),
{
    if observed.len() == 0 {
        None
    } else {
        match connected_step(observed[0].state, observed[0].now, deadline) {
            WaitStep::Wait(_) => connected_run(observed.drop_first(), deadline),
            step => Some(step),
        }
    }
}

proof fn lemma_decided(observed: Seq<Observation>, deadline: u64, n: int)
    requires
        decides(observed, deadline, n),
    ensures
        terminal_run(observed, deadline) == Some(
            terminal_step(observed[n].state, observed[n].now, deadline),
        ),
        connected_run(observed, deadline) == Some(
            connected_step(observed[n].state, observed[n].now, deadline),
        ),
    decreases n,
{
    if n > 0 {
        let rest = observed.drop_first();
        assert(is_open(observed[0], deadline));
        assert forall|i: int| 0 <= i < n - 1 implies is_open(#[trigger] rest[i], deadline) by {
            assert(rest[i] == observed[i + 1]);
        }
        lemma_decided(rest, deadline, n - 1);
    }
}

proof fn lemma_first_decision(observed: Seq<Observation>, deadline: u64)
    ensures
        terminal_run(observed, deadline) is None || exists|n: int| decides(observed, deadline, n),
        connected_run(observed, deadline) is None || exists|n: int| decides(observed, deadline, n),
    decreases observed.len(),
{
    if observed.len() > 0 {
        if is_open(observed[0], deadline) {
            let rest = observed.drop_first();
            lemma_first_decision(rest, deadline);
            if exists|n: int| decides(rest, deadline, n) {
                let n = choose|n: int| decides(rest, deadline, n);
                assert forall|i: int| 0 <= i < n + 1 implies is_open(
                    #[trigger] observed[i],
                    deadline,
                ) by {
                    if i > 0 {
                        assert(observed[i] == rest[i - 1]);
                    }
                }
                assert(decides(observed, deadline, n + 1));
            }
        } else {
            assert(decides(observed, deadline, 0));
        }
    }
}

/// Waiting for the handshake to end returns a state exactly if it is the first
/// terminal state, and the deadline did not pass before it.
pub proof fn first_terminal_state_is_returned(
    observed: Seq<Observation>,
    deadline: u64,
    state: DtlsState,
)
    ensures
        terminal_run(observed, deadline) == Some(WaitStep::Reached(state)) <==> exists|n: int|
            {
                &&& #[trigger] decides(observed, deadline, n)
                &&& observed[n].state == state
                &&& state.spec_is_terminal()
            },
{
    lemma_first_decision(observed, deadline);
    assert forall|n: int| #[trigger] decides(observed, deadline, n) implies terminal_run(
        observed,
        deadline,
    ) == Some(terminal_step(observed[n].state, observed[n].now, deadline)) by {
        lemma_decided(observed, deadline, n);
    }
}

/// Waiting for the handshake to succeed does so exactly if a connection comes
/// before the handshake fails, the transport is closed or the deadline passes. It is
/// given up exactly if one of these comes first.
pub proof fn first_connection_succeeds(
    observed: Seq<Observation>,
    deadline: u64,
    state: DtlsState,
)
    ensures
        connected_run(observed, deadline) == Some(WaitStep::Reached(DtlsState::Connected)) <==> exists|
            n: int,
        |
            #[trigger] decides(observed, deadline, n) && observed[n].state == DtlsState::Connected,
        connected_run(observed, deadline) == Some(WaitStep::Unreachable(state)) <==> exists|n: int|
            {
                &&& #[trigger] decides(observed, deadline, n)
                &&& observed[n].state == state
                &&& state.is_over()
            },
        connected_run(observed, deadline) == Some(WaitStep::TimedOut(DtlsState::Handshaking))
            <==> exists|n: int| #[trigger]
            decides(observed, deadline, n) && observed[n].state == DtlsState::Handshaking,
{
    lemma_first_decision(observed, deadline);
    assert forall|n: int| #[trigger] decides(observed, deadline, n) implies connected_run(
        observed,
        deadline,
    ) == Some(connected_step(observed[n].state, observed[n].now, deadline)) by {
        lemma_decided(observed, deadline, n);
    }
}

/// Waiting goes on exactly as long as everything is open.
pub proof fn waiting_goes_on_while_open(observed: Seq<Observation>, deadline: u64)
    ensures
        terminal_run(observed, deadline) is None <==> forall|i: int|
            0 <= i < observed.len() ==> is_open(#[trigger] observed[i], deadline),
        connected_run(observed, deadline) is None <==> forall|i: int|
            0 <= i < observed.len() ==> is_open(#[trigger] observed[i], deadline),
    decreases observed.len(),
{
    if observed.len() > 0 {
        let rest = observed.drop_first();
        waiting_goes_on_while_open(rest, deadline);
        if connected_run(observed, deadline) is None {
            assert forall|i: int| 0 <= i < observed.len() implies is_open(
                #[trigger] observed[i],
                deadline,
            ) by {
                if i > 0 {
                    assert(rest[i - 1] == observed[i]);
                }
            }
        }
        if forall|i: int|
            0 <= i < observed.len() ==> is_open(#[trigger] observed[i], deadline) {
            assert forall|i: int| 0 <= i < rest.len() implies is_open(
                #[trigger] rest[i],
                deadline,
            ) by {
                assert(rest[i] == observed[i + 1]);
            }
            assert(is_open(observed[0], deadline));
        }
    }
}

/// A transport that is told to stop, or loses its socket, ends at once, whatever it
/// was doing.
pub proof fn cut_off_transport_ends(state: DtlsState)
    ensures
        state.spec_after(TransportEvent::SocketCleared).is_over(),
        state.spec_after(TransportEvent::CloseRequested).is_over(),
{
}

/// A handshake that gets no answer ends.
pub proof fn unanswered_handshake_fails(state: DtlsState)
    requires
        state == DtlsState::Handshaking,
    ensures
        state.spec_after(TransportEvent::HandshakeTimedOut) == DtlsState::Failed,
{
}

/// A transport that has ended stays as it ended.
pub proof fn end_is_final(state: DtlsState, event: TransportEvent)
    requires
        state.is_over(),
    ensures
        state.spec_after(event) == state,
{
}

/// A handshake is over once the transport is in any other state, and the transport is
/// over once it has failed or was closed.
pub proof fn ends_of_handshake_and_transport(state: DtlsState)
    ensures
        state.spec_is_terminal() <==> state != DtlsState::Handshaking,
        state.is_over() <==> state == DtlsState::Failed || state == DtlsState::Closed,
{
}

/// A handshake that finishes connects, and nothing else does. One that fails, gets no
/// answer or loses its socket has failed. A connection that loses its socket is closed
/// and has not failed, and an answer that is missing does not harm it. Told to stop,
/// both are closed.
pub proof fn events_lead_where_they_should(state: DtlsState, event: TransportEvent)
    ensures
        state == DtlsState::Handshaking ==> {
            &&& state.spec_after(TransportEvent::HandshakeFinished) == DtlsState::Connected
            &&& state.spec_after(TransportEvent::HandshakeFailed) == DtlsState::Failed
            &&& state.spec_after(TransportEvent::HandshakeTimedOut) == DtlsState::Failed
            &&& state.spec_after(TransportEvent::SocketCleared) == DtlsState::Failed
            &&& state.spec_after(TransportEvent::CloseRequested) == DtlsState::Closed
        },
        state == DtlsState::Connected ==> {
            &&& state.spec_after(TransportEvent::HandshakeFinished) == DtlsState::Connected
            &&& state.spec_after(TransportEvent::HandshakeFailed) == DtlsState::Failed
            &&& state.spec_after(TransportEvent::HandshakeTimedOut) == DtlsState::Connected
            &&& state.spec_after(TransportEvent::SocketCleared) == DtlsState::Closed
            &&& state.spec_after(TransportEvent::CloseRequested) == DtlsState::Closed
        },
        state.spec_after(event) == DtlsState::Connected && state != DtlsState::Connected ==> state
            == DtlsState::Handshaking && event == TransportEvent::HandshakeFinished,
{
}

/// Any end of the handshake ends the wait for it, at any time. While it goes on, the
/// wait lasts up to the deadline and no longer.
pub proof fn wait_for_the_end(state: DtlsState, now: u64, deadline: u64)
    ensures
        state != DtlsState::Handshaking ==> terminal_step(state, now, deadline)
            == WaitStep::Reached(state),
        state == DtlsState::Handshaking && now < deadline ==> (terminal_step(
            state,
            now,
            deadline,
        ) matches WaitStep::Wait(time) && now + time == deadline),
        state == DtlsState::Handshaking && now >= deadline ==> terminal_step(state, now, deadline)
            == WaitStep::TimedOut(state),
{
}

/// A connection ends the wait for it, at any time, and so does its impossibility.
/// While the handshake goes on, the wait lasts up to the deadline and no longer.
pub proof fn wait_for_the_connection(state: DtlsState, now: u64, deadline: u64)
    ensures
        state == DtlsState::Connected ==> connected_step(state, now, deadline)
            == WaitStep::Reached(state),
        state == DtlsState::Failed || state == DtlsState::Closed ==> connected_step(
            state,
            now,
            deadline,
        ) == WaitStep::Unreachable(state),
        state == DtlsState::Handshaking && now < deadline ==> (connected_step(
            state,
            now,
            deadline,
        ) matches WaitStep::Wait(time) && now + time == deadline),
        state == DtlsState::Handshaking && now >= deadline ==> connected_step(state, now, deadline)
            == WaitStep::TimedOut(state),
{
}

} // verus!
