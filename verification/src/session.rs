//! The per-connection handshake/heartbeat state machine.
//!
//! One instance governs each device connection. The connection's read loop
//! feeds it events — a decoded message, a read timeout, or a hard read or
//! decode failure — and carries out the actions it returns: sending the
//! handshake acknowledgment or a liveness probe, and registering or
//! conditionally deregistering the connection. The machine itself does no
//! I/O.
//!
//! With read-timeout interval T, a silent connection receives one `Echo`
//! probe at time about T; only a genuine `Echo` reply restores liveness, and
//! a second silent interval terminates the session, for a silent-disconnect
//! detection latency between T and 2T.

use vstd::prelude::*;

use crate::registry::after_conditional_remove;
use crate::registry::Session;

verus! {

/// A protocol message, as far as the broker's control flow distinguishes
/// them. The wire encoding is the codec's business, not the broker's.
#[derive(Debug, Clone, PartialEq, Eq)]
pub enum Message {
    /// Handshake: the device declares its serial (device to gateway).
    AuthAssociate { serial: String },
    /// Handshake acknowledgment (gateway to device).
    OkAck,
    /// Liveness probe or reply (either direction).
    Echo,
    /// A command, its payload taken literally (gateway to device).
    SetCounterValue { payload: String },
    /// Every other protocol message: passed through unhandled.
    Unhandled,
}

/// `Message` with its strings as character sequences.
pub enum MessageView {
    AuthAssociate { serial: Seq<char> },
    OkAck,
    Echo,
    SetCounterValue { payload: Seq<char> },
    Unhandled,
}

impl View for Message {
    type V = MessageView;

    open spec fn view(&self) -> MessageView {
        match self {
            Message::AuthAssociate { serial } => MessageView::AuthAssociate { serial: serial@ },
            Message::OkAck => MessageView::OkAck,
            Message::Echo => MessageView::Echo,
            Message::SetCounterValue { payload } => MessageView::SetCounterValue {
                payload: payload@,
            },
            Message::Unhandled => MessageView::Unhandled,
        }
    }
}

/// What the read side of a connection can report.
#[derive(Debug, Clone, PartialEq, Eq)]
pub enum SessionEvent {
    /// One decoded message arrived.
    Received(Message),
    /// The read timed out: the expected, recoverable silence that drives the
    /// heartbeat.
    TimedOut,
    /// A hard read error or a decode error: terminal for the session. The
    /// broker does not distinguish a malformed frame from a lost connection.
    ReadFailed,
}

/// `SessionEvent` at the specification level.
pub enum EventView {
    Received(MessageView),
    TimedOut,
    ReadFailed,
}

impl View for SessionEvent {
    type V = EventView;

    open spec fn view(&self) -> EventView {
        match self {
            SessionEvent::Received(message) => EventView::Received(message@),
            SessionEvent::TimedOut => EventView::TimedOut,
            SessionEvent::ReadFailed => EventView::ReadFailed,
        }
    }
}

/// Where a connection stands in its lifecycle.
#[derive(Debug, Clone, PartialEq, Eq)]
pub enum SessionState {
    /// No handshake yet: the connection is invisible to the registry.
    Unauthenticated,
    /// Authenticated and live.
    Idle { serial: String },
    /// A liveness probe is outstanding; only an `Echo` reply clears it.
    AwaitingEcho { serial: String },
    /// Final: reached exactly once, never left.
    Terminated,
}

/// `SessionState` at the specification level.
pub enum StateView {
    Unauthenticated,
    Idle { serial: Seq<char> },
    AwaitingEcho { serial: Seq<char> },
    Terminated,
}

impl View for SessionState {
    type V = StateView;

    open spec fn view(&self) -> StateView {
        match self {
            SessionState::Unauthenticated => StateView::Unauthenticated,
            SessionState::Idle { serial } => StateView::Idle { serial: serial@ },
            SessionState::AwaitingEcho { serial } => StateView::AwaitingEcho { serial: serial@ },
            SessionState::Terminated => StateView::Terminated,
        }
    }
}

/// What the machine asks its driver to do, in order.
#[derive(Debug, Clone, PartialEq, Eq)]
pub enum SessionAction {
    /// Send the handshake acknowledgment to the device; a send failure here
    /// terminates the connection's handler.
    SendOkAck,
    /// Upsert this connection into the registry under `serial`.
    Register { serial: String },
    /// Send a liveness probe; a send failure is ignored.
    SendEcho,
    /// Conditionally remove `serial` from the registry, presenting this
    /// connection's own peer identity.
    Deregister { serial: String },
}

/// `SessionAction` at the specification level.
pub enum ActionView {
    SendOkAck,
    Register { serial: Seq<char> },
    SendEcho,
    Deregister { serial: Seq<char> },
}

impl View for SessionAction {
    type V = ActionView;

    open spec fn view(&self) -> ActionView {
        match self {
            SessionAction::SendOkAck => ActionView::SendOkAck,
            SessionAction::Register { serial } => ActionView::Register { serial: serial@ },
            SessionAction::SendEcho => ActionView::SendEcho,
            SessionAction::Deregister { serial } => ActionView::Deregister { serial: serial@ },
        }
    }
}

/// The views of a list of actions, in order.
pub open spec fn actions_view(v: Seq<SessionAction>) -> Seq<ActionView> {
    v.map_values(|a: SessionAction| a@)
}

/// The transition relation of the state machine: next state and the actions
/// the driver must carry out, in order.
pub open spec fn spec_step(state: StateView, event: EventView) -> (StateView, Seq<ActionView>) {
    match (state, event) {
        (
            StateView::Unauthenticated,
            EventView::Received(MessageView::AuthAssociate { serial }),
        ) => (
            StateView::Idle { serial },
            seq![ActionView::SendOkAck, ActionView::Register { serial }],
        ),
        (StateView::Unauthenticated, EventView::Received(_)) => (
            StateView::Unauthenticated,
            Seq::empty(),
        ),
        (StateView::Unauthenticated, _) => (StateView::Terminated, Seq::empty()),
        (StateView::Idle { serial: _ }, EventView::Received(MessageView::AuthAssociate { serial }))
            => (
            StateView::Idle { serial },
            seq![ActionView::SendOkAck, ActionView::Register { serial }],
        ),
        (StateView::Idle { serial }, EventView::Received(_)) => (
            StateView::Idle { serial },
            Seq::empty(),
        ),
        (StateView::Idle { serial }, EventView::TimedOut) => (
            StateView::AwaitingEcho { serial },
            seq![ActionView::SendEcho],
        ),
        (StateView::Idle { serial }, EventView::ReadFailed) => (
            StateView::Terminated,
            seq![ActionView::Deregister { serial }],
        ),
        (StateView::AwaitingEcho { serial }, EventView::Received(MessageView::Echo)) => (
            StateView::Idle { serial },
            Seq::empty(),
        ),
        (StateView::AwaitingEcho { serial }, EventView::Received(_)) => (
            StateView::AwaitingEcho { serial },
            Seq::empty(),
        ),
        (StateView::AwaitingEcho { serial }, _) => (
            StateView::Terminated,
            seq![ActionView::Deregister { serial }],
        ),
        (StateView::Terminated, _) => (StateView::Terminated, Seq::empty()),
    }
}

fn no_actions() -> (r: Vec<SessionAction>)
    ensures
        actions_view(r@) == Seq::<ActionView>::empty(),
{
    let r: Vec<SessionAction> = Vec::new();
    proof {
        assert(actions_view(r@) =~= Seq::<ActionView>::empty());
    }
    r
}

fn one_action(a: SessionAction) -> (r: Vec<SessionAction>)
    ensures
        actions_view(r@) == seq![a@],
{
    let ghost av = a@;
    let mut r: Vec<SessionAction> = Vec::new();
    r.push(a);
    proof {
        assert(actions_view(r@) =~= seq![av]);
    }
    r
}

fn two_actions(a: SessionAction, b: SessionAction) -> (r: Vec<SessionAction>)
    ensures
        actions_view(r@) == seq![a@, b@],
{
    let ghost av = a@;
    let ghost bv = b@;
    let mut r: Vec<SessionAction> = Vec::new();
    r.push(a);
    r.push(b);
    proof {
        assert(actions_view(r@) =~= seq![av, bv]);
    }
    r
}

/// One step of the per-connection state machine. Exactly the table of
/// `spec_step`: the driver performs the returned actions in order, then
/// waits for the next event unless the state is `Terminated`.
pub fn session_step(state: SessionState, event: SessionEvent) -> (r: (
    SessionState,
    Vec<SessionAction>,
))
    ensures
        r.0@ == spec_step(state@, event@).0,
        actions_view(r.1@) == spec_step(state@, event@).1,
{
    match (state, event) {
        (
            SessionState::Unauthenticated,
            SessionEvent::Received(Message::AuthAssociate { serial }),
        ) => {
            let next = SessionState::Idle { serial: serial.clone() };
            let actions = two_actions(
                SessionAction::SendOkAck,
                SessionAction::Register { serial },
            );
            (next, actions)
        },
        (SessionState::Unauthenticated, SessionEvent::Received(_)) => (
            SessionState::Unauthenticated,
            no_actions(),
        ),
        (SessionState::Unauthenticated, _) => (SessionState::Terminated, no_actions()),
        (
            SessionState::Idle { serial: _ },
            SessionEvent::Received(Message::AuthAssociate { serial }),
        ) => {
            let next = SessionState::Idle { serial: serial.clone() };
            let actions = two_actions(
                SessionAction::SendOkAck,
                SessionAction::Register { serial },
            );
            (next, actions)
        },
        (SessionState::Idle { serial }, SessionEvent::Received(_)) => (
            SessionState::Idle { serial },
            no_actions(),
        ),
        (SessionState::Idle { serial }, SessionEvent::TimedOut) => (
            SessionState::AwaitingEcho { serial },
            one_action(SessionAction::SendEcho),
        ),
        (SessionState::Idle { serial }, SessionEvent::ReadFailed) => (
            SessionState::Terminated,
            one_action(SessionAction::Deregister { serial }),
        ),
        (SessionState::AwaitingEcho { serial }, SessionEvent::Received(Message::Echo)) => (
            SessionState::Idle { serial },
            no_actions(),
        ),
        (SessionState::AwaitingEcho { serial }, SessionEvent::Received(_)) => (
            SessionState::AwaitingEcho { serial },
            no_actions(),
        ),
        (SessionState::AwaitingEcho { serial }, _) => (
            SessionState::Terminated,
            one_action(SessionAction::Deregister { serial }),
        ),
        (SessionState::Terminated, _) => (SessionState::Terminated, no_actions()),
    }
}

/// The state after feeding `events`, in order, from `state`.
pub open spec fn run_state(state: StateView, events: Seq<EventView>) -> StateView
    decreases events.len(),
{
    if events.len() == 0 {
        state
    } else {
        run_state(spec_step(state, events[0]).0, events.skip(1))
    }
}

/// Every action the machine asks for while feeding `events` from `state`,
/// in order.
pub open spec fn run_actions(state: StateView, events: Seq<EventView>) -> Seq<ActionView>
    decreases events.len(),
{
    if events.len() == 0 {
        Seq::empty()
    } else {
        spec_step(state, events[0]).1 + run_actions(spec_step(state, events[0]).0, events.skip(1))
    }
}

/// Whether the event is the arrival of an `AuthAssociate` handshake.
pub open spec fn is_associate(event: EventView) -> bool {
    event matches EventView::Received(m) && m is AuthAssociate
}

proof fn lemma_untracked_from(state: StateView, events: Seq<EventView>)
    requires
        state is Unauthenticated || state is Terminated,
        forall|i: int| 0 <= i < events.len() ==> !is_associate(#[trigger] events[i]),
    ensures
        run_actions(state, events) == Seq::<ActionView>::empty(),
        run_state(state, events) is Unauthenticated || run_state(state, events) is Terminated,
    decreases events.len(),
{
    if events.len() > 0 {
        assert(!is_associate(events[0]));
        let next = spec_step(state, events[0]).0;
        assert(spec_step(state, events[0]).1 =~= Seq::<ActionView>::empty());
        assert(next is Unauthenticated || next is Terminated);
        assert forall|i: int| 0 <= i < events.skip(1).len() implies !is_associate(
            #[trigger] events.skip(1)[i],
        ) by {
            assert(events.skip(1)[i] == events[i + 1]);
        }
        lemma_untracked_from(next, events.skip(1));
        assert(run_actions(state, events) =~= Seq::<ActionView>::empty());
    }
}

/// A session that never sends `AuthAssociate` never appears in the registry,
/// and its termination never calls removal: a connection fed only
/// non-handshake events asks for no action at all, so in particular it is
/// never registered and never deregistered.
pub proof fn lemma_never_authenticated_never_registered(events: Seq<EventView>)
    requires
        forall|i: int| 0 <= i < events.len() ==> !is_associate(#[trigger] events[i]),
    ensures
        run_actions(StateView::Unauthenticated, events) == Seq::<ActionView>::empty(),
{
    lemma_untracked_from(StateView::Unauthenticated, events);
}

/// What one action does to the registry, as the driver carries it out for a
/// connection registered as `session`: `Register` upserts that session,
/// `Deregister` removes conditionally on its identity, and the send actions
/// leave the registry alone.
pub open spec fn apply_action<T>(
    m: Map<Seq<char>, Session<T>>,
    action: ActionView,
    session: Session<T>,
) -> Map<Seq<char>, Session<T>> {
    match action {
        ActionView::Register { serial } => m.insert(serial, session),
        ActionView::Deregister { serial } => after_conditional_remove(
            m,
            serial,
            session.peer_identity,
        ),
        _ => m,
    }
}

/// The registry state after the driver carries out `actions`, in order.
pub open spec fn apply_actions<T>(
    m: Map<Seq<char>, Session<T>>,
    actions: Seq<ActionView>,
    session: Session<T>,
) -> Map<Seq<char>, Session<T>>
    decreases actions.len(),
{
    if actions.len() == 0 {
        m
    } else {
        apply_actions(apply_action(m, actions[0], session), actions.skip(1), session)
    }
}

/// A session that never sends `AuthAssociate` never appears in the registry:
/// carrying out every action of a never-authenticated connection leaves any
/// registry state exactly as it was.
pub proof fn lemma_never_authenticated_untouched_registry<T>(
    events: Seq<EventView>,
    m: Map<Seq<char>, Session<T>>,
    session: Session<T>,
)
    requires
        forall|i: int| 0 <= i < events.len() ==> !is_associate(#[trigger] events[i]),
    ensures
        apply_actions(m, run_actions(StateView::Unauthenticated, events), session) == m,
{
    lemma_never_authenticated_never_registered(events);
}

/// The heartbeat discipline, for any authenticated session: a silent
/// interval in `Idle` sends exactly one `Echo` probe; a second consecutive
/// silent interval terminates the session and asks for its conditional
/// removal; an `Echo` reply instead restores `Idle` with nothing sent; no
/// received message ends an `Idle` session; and while a probe is
/// outstanding, only a genuine `Echo` reply — no other traffic — restores
/// liveness.
pub proof fn lemma_heartbeat(serial: Seq<char>)
    ensures
        spec_step(StateView::Idle { serial }, EventView::TimedOut).0 == (StateView::AwaitingEcho {
            serial,
        }),
        spec_step(StateView::Idle { serial }, EventView::TimedOut).1 == seq![ActionView::SendEcho],
        spec_step(StateView::AwaitingEcho { serial }, EventView::TimedOut).0
            == StateView::Terminated,
        spec_step(StateView::AwaitingEcho { serial }, EventView::TimedOut).1
            == seq![ActionView::Deregister { serial }],
        spec_step(StateView::AwaitingEcho { serial }, EventView::Received(MessageView::Echo)).0
            == (StateView::Idle { serial }),
        spec_step(StateView::AwaitingEcho { serial }, EventView::Received(MessageView::Echo)).1
            == Seq::<ActionView>::empty(),
        forall|m: MessageView|
            spec_step(StateView::Idle { serial }, EventView::Received(m)).0 is Idle,
        forall|m: MessageView|
            !(m is Echo) ==> spec_step(
                StateView::AwaitingEcho { serial },
                EventView::Received(m),
            ).0 == (StateView::AwaitingEcho { serial }),
{
    assert(spec_step(StateView::Idle { serial }, EventView::TimedOut).1
        =~= seq![ActionView::SendEcho]);
    assert(spec_step(StateView::AwaitingEcho { serial }, EventView::TimedOut).1
        =~= seq![ActionView::Deregister { serial }]);
    assert(spec_step(StateView::AwaitingEcho { serial }, EventView::Received(MessageView::Echo)).1
        =~= Seq::<ActionView>::empty());
}

/// The heartbeat over whole traces: from `Idle`, two consecutive silent
/// read intervals send exactly one `Echo` probe and then terminate the
/// session with its conditional removal; an `Echo` reply arriving before the
/// second interval elapses leaves the session `Idle` and alive, the one
/// probe the only thing sent.
pub proof fn lemma_heartbeat_trace(serial: Seq<char>)
    ensures
        run_state(StateView::Idle { serial }, seq![EventView::TimedOut, EventView::TimedOut])
            is Terminated,
        run_actions(StateView::Idle { serial }, seq![EventView::TimedOut, EventView::TimedOut])
            == seq![ActionView::SendEcho, ActionView::Deregister { serial }],
        run_state(
            StateView::Idle { serial },
            seq![EventView::TimedOut, EventView::Received(MessageView::Echo)],
        ) == (StateView::Idle { serial }),
        run_actions(
            StateView::Idle { serial },
            seq![EventView::TimedOut, EventView::Received(MessageView::Echo)],
        ) == seq![ActionView::SendEcho],
{
    let silent = seq![EventView::TimedOut, EventView::TimedOut];
    let replied = seq![EventView::TimedOut, EventView::Received(MessageView::Echo)];
    assert(silent.skip(1) =~= seq![EventView::TimedOut]);
    assert(replied.skip(1) =~= seq![EventView::Received(MessageView::Echo)]);
    assert(seq![EventView::TimedOut].skip(1) =~= Seq::<EventView>::empty());
    assert(seq![EventView::Received(MessageView::Echo)].skip(1) =~= Seq::<EventView>::empty());
    let awaiting = StateView::AwaitingEcho { serial };
    assert(run_state(StateView::Idle { serial }, silent) == run_state(awaiting, silent.skip(1)));
    assert(run_state(awaiting, seq![EventView::TimedOut]) == run_state(
        StateView::Terminated,
        Seq::empty(),
    ));
    assert(run_state(StateView::Idle { serial }, replied) == run_state(
        awaiting,
        replied.skip(1),
    ));
    assert(run_state(awaiting, seq![EventView::Received(MessageView::Echo)]) == run_state(
        StateView::Idle { serial },
        Seq::empty(),
    ));
    assert(run_actions(awaiting, seq![EventView::TimedOut]) =~= seq![
        ActionView::Deregister { serial },
    ] + run_actions(StateView::Terminated, Seq::empty()));
    assert(run_actions(awaiting, seq![EventView::Received(MessageView::Echo)])
        =~= Seq::<ActionView>::empty() + run_actions(StateView::Idle { serial }, Seq::empty()));
    assert(run_actions(StateView::Idle { serial }, silent) =~= seq![ActionView::SendEcho]
        + run_actions(awaiting, silent.skip(1)));
    assert(run_actions(StateView::Idle { serial }, replied) =~= seq![ActionView::SendEcho]
        + run_actions(awaiting, replied.skip(1)));
    assert(run_actions(StateView::Idle { serial }, silent) =~= seq![
        ActionView::SendEcho,
        ActionView::Deregister { serial },
    ]);
    assert(run_actions(StateView::Idle { serial }, replied) =~= seq![ActionView::SendEcho]);
}

} // verus!
