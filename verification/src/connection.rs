//! The life of one connection, as a state machine:
//! `Connecting -> Authenticated -> Serving -> Closed`.
//!
//! The machine decides; it performs nothing. Each transition takes the
//! connection and what happened, and returns the connection in its next
//! state with the one action the caller is to carry out. The caller reads
//! and writes the socket, inserts into and removes from the registry, and
//! hands messages to the router.

use crate::error::{CryptoError, HandshakeError, RegistryError};
use crate::frame::{MAX_FRAME_LEN, MAX_HANDSHAKE_LEN};
use crate::handshake::{credentials_of, decode_handshake, handshake_outcome, Credentials};
use crate::registry::{Client, ClientView};
use crate::router::{Message, MessageView};
use crate::session::{bytes_of, decrypted_under, CryptoSession};
use vstd::prelude::*;
use vstd::slice::slice_to_vec;
use vstd::string::StringSliceAdditionalSpecFns;

verus! {

/// Where a connection stands.
#[derive(Clone, Copy, Debug, PartialEq, Eq, Structural)]
pub enum Phase {
    /// Accepted; the handshake frame has not been decoded yet.
    Connecting,
    /// The handshake was accepted; the registry has not answered yet.
    Authenticated,
    /// Registered; message frames are being read.
    Serving,
    /// Over. Nothing happens to a closed connection any more.
    Closed,
}

/// Why a connection is turned away before it serves.
#[derive(Clone, Copy, Debug, PartialEq, Eq, Structural)]
pub enum RejectReason {
    /// The handshake frame was refused.
    Handshake(HandshakeError),
    /// The registry refused the client.
    Registry(RegistryError),
}

/// The state of a connection, with the client it stands for once known.
pub enum ConnectionState {
    Connecting,
    Authenticated(Client),
    Serving(Client),
    Closed,
}

/// A connection state as contracts see it.
pub enum StateView {
    Connecting,
    Authenticated(ClientView),
    Serving(ClientView),
    Closed,
}

impl View for ConnectionState {
    type V = StateView;

    open spec fn view(&self) -> StateView {
        match self {
            ConnectionState::Connecting => StateView::Connecting,
            ConnectionState::Authenticated(c) => StateView::Authenticated(c@),
            ConnectionState::Serving(c) => StateView::Serving(c@),
            ConnectionState::Closed => StateView::Closed,
        }
    }
}

/// What the caller is to do after a transition.
pub enum Action {
    /// Insert this client into the registry and report the outcome.
    Register(Client),
    /// Write the rejection notice to the peer, ignoring a failed write, and
    /// release the transport. The registry holds no entry of this connection.
    Reject(RejectReason),
    /// Start reading message frames.
    Serve,
    /// Hand this message to the router.
    Publish(Message),
    /// Remove this connection's identity from the registry and release the
    /// transport.
    Deregister,
    /// Release the transport. The registry holds no entry of this connection.
    Release,
    /// Nothing to do: the event does not concern a connection in this state.
    Ignore,
}

/// An action as contracts see it.
pub enum ActionView {
    Register(ClientView),
    Reject(RejectReason),
    Serve,
    Publish(MessageView),
    Deregister,
    Release,
    Ignore,
}

impl View for Action {
    type V = ActionView;

    open spec fn view(&self) -> ActionView {
        match self {
            Action::Register(c) => ActionView::Register(c@),
            Action::Reject(reason) => ActionView::Reject(*reason),
            Action::Serve => ActionView::Serve,
            Action::Publish(m) => ActionView::Publish(m@),
            Action::Deregister => ActionView::Deregister,
            Action::Release => ActionView::Release,
            Action::Ignore => ActionView::Ignore,
        }
    }
}

/// What can happen to a connection.
pub enum Event {
    /// The handshake frame was decoded, with this outcome.
    Handshake(Result<Credentials, HandshakeError>),
    /// The registry answered the insert, with this outcome.
    Registered(Result<(), RegistryError>),
    /// A message frame was decrypted under the client's session, with this
    /// outcome.
    Frame(Result<Seq<u8>, CryptoError>),
    /// The peer announced a frame longer than the limit in force.
    FrameTooLarge,
    /// A read returned no bytes, or the transport failed.
    Disconnected,
}

/// The transition function: the next state and the action for an event on a
/// connection of the given identity. An event that does not fit the state
/// changes nothing.
pub open spec fn next(identity: u64, s: StateView, e: Event) -> (StateView, ActionView) {
    match (s, e) {
        (StateView::Connecting, Event::Handshake(Ok(c))) => {
            let client = ClientView { identity, username: c.username, key: c.key, iv: c.iv };
            (StateView::Authenticated(client), ActionView::Register(client))
        },
        (StateView::Connecting, Event::Handshake(Err(e))) => (
            StateView::Closed,
            ActionView::Reject(RejectReason::Handshake(e)),
        ),
        (StateView::Authenticated(c), Event::Registered(Ok(_))) => (
            StateView::Serving(c),
            ActionView::Serve,
        ),
        (StateView::Authenticated(_), Event::Registered(Err(e))) => (
            StateView::Closed,
            ActionView::Reject(RejectReason::Registry(e)),
        ),
        (StateView::Serving(c), Event::Frame(Ok(payload))) => (
            s,
            ActionView::Publish(MessageView { sender: c.username, payload }),
        ),
        (StateView::Serving(_), Event::Frame(Err(_))) => (StateView::Closed, ActionView::Deregister),
        (StateView::Connecting, Event::FrameTooLarge) => (
            StateView::Closed,
            ActionView::Reject(RejectReason::Handshake(HandshakeError::MalformedPayload)),
        ),
        (StateView::Serving(_), Event::FrameTooLarge) => (StateView::Closed, ActionView::Deregister),
        (StateView::Serving(_), Event::Disconnected) => (StateView::Closed, ActionView::Deregister),
        (StateView::Connecting, Event::Disconnected) => (StateView::Closed, ActionView::Release),
        (StateView::Authenticated(_), Event::Disconnected) => (
            StateView::Closed,
            ActionView::Release,
        ),
        _ => (s, ActionView::Ignore),
    }
}

/// The actions of a whole run: what [`next`] asks for, event by event.
pub open spec fn run(identity: u64, s: StateView, events: Seq<Event>) -> Seq<ActionView>
    decreases events.len(),
{
    if events.len() == 0 {
        Seq::empty()
    } else {
        let (after, action) = next(identity, s, events.first());
        seq![action] + run(identity, after, events.drop_first())
    }
}

/// The state a run ends in.
pub open spec fn state_after(identity: u64, s: StateView, events: Seq<Event>) -> StateView
    decreases events.len(),
{
    if events.len() == 0 {
        s
    } else {
        state_after(identity, next(identity, s, events.first()).0, events.drop_first())
    }
}

/// The connection serves at the start of the run or at some point in it.
pub open spec fn ever_served(identity: u64, s: StateView, events: Seq<Event>) -> bool
    decreases events.len(),
{
    s is Serving || (events.len() > 0 && ever_served(
        identity,
        next(identity, s, events.first()).0,
        events.drop_first(),
    ))
}

/// How often a run asks for the registry entry to be removed.
pub open spec fn deregistrations(actions: Seq<ActionView>) -> nat
    decreases actions.len(),
{
    if actions.len() == 0 {
        0
    } else if actions.first() is Deregister {
        1 + deregistrations(actions.drop_first())
    } else {
        deregistrations(actions.drop_first())
    }
}

/// How often a run asks for the client to be inserted.
pub open spec fn registrations(actions: Seq<ActionView>) -> nat
    decreases actions.len(),
{
    if actions.len() == 0 {
        0
    } else if actions.first() is Register {
        1 + registrations(actions.drop_first())
    } else {
        registrations(actions.drop_first())
    }
}

/// The text sent to a peer that is turned away.
pub open spec fn notice_text(reason: RejectReason) -> &'static str {
    match reason {
        RejectReason::Handshake(_) => "Invalid client info\n",
        RejectReason::Registry(RegistryError::UsernameTaken) => "Username taken\n",
        RejectReason::Registry(RegistryError::IdentityTaken) => "Connection refused\n",
    }
}

/// The bytes to write to a peer that is turned away, in clear.
pub fn rejection_notice(reason: RejectReason) -> (notice: Vec<u8>)
    ensures
        notice@ == notice_text(reason).spec_bytes(),
{
    let text: &'static str = match reason {
        RejectReason::Handshake(_) => "Invalid client info\n",
        RejectReason::Registry(RegistryError::UsernameTaken) => "Username taken\n",
        RejectReason::Registry(RegistryError::IdentityTaken) => "Connection refused\n",
    };
    slice_to_vec(text.as_bytes())
}

/// One accepted connection.
pub struct Connection {
    identity: u64,
    state: ConnectionState,
}

impl Connection {
    /// The identity of the connection.
    pub closed spec fn id(&self) -> u64 {
        self.identity
    }

    /// The state of the connection.
    pub closed spec fn state(&self) -> StateView {
        self.state@
    }

    /// The client of a connection carries the connection's identity.
    pub open spec fn wf(&self) -> bool {
        match self.state() {
            StateView::Authenticated(c) => c.identity == self.id(),
            StateView::Serving(c) => c.identity == self.id(),
            _ => true,
        }
    }

    #[verifier::type_invariant]
    spec fn inv(&self) -> bool {
        self.wf()
    }

    /// `r` is this connection after `e`, with the action `e` calls for.
    pub open spec fn steps_to(&self, e: Event, r: (Connection, Action)) -> bool {
        &&& r.0.wf()
        &&& r.0.id() == self.id()
        &&& (r.0.state(), r.1@) == next(self.id(), self.state(), e)
    }

    /// A connection that was just accepted.
    pub fn new(identity: u64) -> (c: Connection)
        ensures
            c.wf(),
            c.id() == identity,
            c.state() == StateView::Connecting,
    {
        Connection { identity, state: ConnectionState::Connecting }
    }

    /// The identity of the connection.
    pub fn identity(&self) -> (identity: u64)
        ensures
            identity == self.id(),
    {
        self.identity
    }

    /// Where the connection stands.
    pub fn phase(&self) -> (p: Phase)
        ensures
            p == match self.state() {
                StateView::Connecting => Phase::Connecting,
                StateView::Authenticated(_) => Phase::Authenticated,
                StateView::Serving(_) => Phase::Serving,
                StateView::Closed => Phase::Closed,
            },
    {
        match &self.state {
            ConnectionState::Connecting => Phase::Connecting,
            ConnectionState::Authenticated(_) => Phase::Authenticated,
            ConnectionState::Serving(_) => Phase::Serving,
            ConnectionState::Closed => Phase::Closed,
        }
    }

    /// The longest frame body to accept from the peer in this state: the
    /// handshake limit until the handshake is read, the message limit after.
    pub fn frame_limit(&self) -> (limit: usize)
        ensures
            limit == if self.state() is Connecting {
                MAX_HANDSHAKE_LEN
            } else {
                MAX_FRAME_LEN
            },
    {
        match &self.state {
            ConnectionState::Connecting => MAX_HANDSHAKE_LEN,
            _ => MAX_FRAME_LEN,
        }
    }

    /// The handshake frame was decoded, with this outcome.
    pub fn handshake_decoded(
        self,
        outcome: Result<(String, CryptoSession), HandshakeError>,
    ) -> (r: (Connection, Action))
        ensures
            self.steps_to(Event::Handshake(credentials_of(outcome)), r),
    {
        proof {
            use_type_invariant(&self);
        }
        let identity = self.identity;
        match self.state {
            ConnectionState::Connecting => match outcome {
                Ok((username, session)) => {
                    let client = Client::new(identity, username, session);
                    let copy = client.handle();
                    (
                        Connection { identity, state: ConnectionState::Authenticated(client) },
                        Action::Register(copy),
                    )
                },
                Err(e) => (
                    Connection { identity, state: ConnectionState::Closed },
                    Action::Reject(RejectReason::Handshake(e)),
                ),
            },
            state => (Connection { identity, state }, Action::Ignore),
        }
    }

    /// The registry answered the insert, with this outcome.
    pub fn registered(self, outcome: Result<(), RegistryError>) -> (r: (Connection, Action))
        ensures
            self.steps_to(Event::Registered(outcome), r),
    {
        proof {
            use_type_invariant(&self);
        }
        let identity = self.identity;
        match self.state {
            ConnectionState::Authenticated(client) => match outcome {
                Ok(_) => (
                    Connection { identity, state: ConnectionState::Serving(client) },
                    Action::Serve,
                ),
                Err(e) => (
                    Connection { identity, state: ConnectionState::Closed },
                    Action::Reject(RejectReason::Registry(e)),
                ),
            },
            state => (Connection { identity, state }, Action::Ignore),
        }
    }

    /// A message frame was decrypted under the client's session, with this
    /// outcome.
    pub fn frame_opened(self, outcome: Result<Vec<u8>, CryptoError>) -> (r: (Connection, Action))
        ensures
            self.steps_to(Event::Frame(bytes_of(outcome)), r),
    {
        proof {
            use_type_invariant(&self);
        }
        let identity = self.identity;
        match self.state {
            ConnectionState::Serving(client) => match outcome {
                Ok(payload) => {
                    let message = Message::new(client.username.clone(), payload);
                    (
                        Connection { identity, state: ConnectionState::Serving(client) },
                        Action::Publish(message),
                    )
                },
                Err(_) => (
                    Connection { identity, state: ConnectionState::Closed },
                    Action::Deregister,
                ),
            },
            state => (Connection { identity, state }, Action::Ignore),
        }
    }

    /// The peer announced a frame longer than [`Connection::frame_limit`]
    /// allows. Before the handshake that is a malformed handshake; while
    /// serving it ends the connection.
    pub fn frame_refused(self) -> (r: (Connection, Action))
        ensures
            self.steps_to(Event::FrameTooLarge, r),
    {
        proof {
            use_type_invariant(&self);
        }
        let identity = self.identity;
        match self.state {
            ConnectionState::Connecting => (
                Connection { identity, state: ConnectionState::Closed },
                Action::Reject(RejectReason::Handshake(HandshakeError::MalformedPayload)),
            ),
            ConnectionState::Serving(_) => (
                Connection { identity, state: ConnectionState::Closed },
                Action::Deregister,
            ),
            state => (Connection { identity, state }, Action::Ignore),
        }
    }

    /// A read returned no bytes, or the transport failed.
    pub fn disconnected(self) -> (r: (Connection, Action))
        ensures
            self.steps_to(Event::Disconnected, r),
    {
        proof {
            use_type_invariant(&self);
        }
        let identity = self.identity;
        match self.state {
            ConnectionState::Connecting => (
                Connection { identity, state: ConnectionState::Closed },
                Action::Release,
            ),
            ConnectionState::Authenticated(_) => (
                Connection { identity, state: ConnectionState::Closed },
                Action::Release,
            ),
            ConnectionState::Serving(_) => (
                Connection { identity, state: ConnectionState::Closed },
                Action::Deregister,
            ),
            ConnectionState::Closed => (
                Connection { identity, state: ConnectionState::Closed },
                Action::Ignore,
            ),
        }
    }

    /// Decodes the first frame of the connection under the shared secret and
    /// takes the transition for what the frame means: a closed connection for
    /// an empty frame, a bad secret where the frame does not decrypt, and
    /// otherwise what the plaintext says.
    pub fn receive_handshake(self, shared: &CryptoSession, frame: &[u8]) -> (r: (
        Connection,
        Action,
    ))
        ensures
            self.steps_to(Event::Handshake(handshake_outcome(*shared, frame@)), r),
    {
        self.handshake_decoded(decode_handshake(shared, frame))
    }

    /// Decrypts a message frame under the client's own session and takes the
    /// transition for the outcome: what the frame opens to is published, and
    /// a frame that does not decrypt ends the connection. A connection that
    /// is not serving ignores the frame.
    pub fn receive_frame(self, frame: &[u8]) -> (r: (Connection, Action))
        ensures
            self.state() matches StateView::Serving(c) ==> self.steps_to(
                Event::Frame(decrypted_under(c.key, c.iv, frame@)),
                r,
            ),
            !(self.state() is Serving) ==> r.1@ is Ignore && r.0.state() == self.state() && r.0.id()
                == self.id(),
    {
        proof {
            use_type_invariant(&self);
        }
        let outcome = match &self.state {
            ConnectionState::Serving(client) => client.session.decrypt(frame),
            _ => Err(CryptoError::DecryptFailure),
        };
        self.frame_opened(outcome)
    }
}

/// A closed connection stays closed and asks for nothing, whatever happens.
pub proof fn lemma_closed_is_final(identity: u64, e: Event)
    ensures
        next(identity, StateView::Closed, e) == (StateView::Closed, ActionView::Ignore),
{
}

/// The registry entry is removed exactly when a serving connection closes,
/// and a client is inserted only when a connecting peer's handshake was
/// accepted: a refused handshake never reaches the registry.
pub proof fn lemma_registry_actions(identity: u64, s: StateView, e: Event)
    ensures
        next(identity, s, e).1 is Deregister <==> s is Serving && next(identity, s, e).0 is Closed,
        next(identity, s, e).1 is Register <==> s is Connecting && e matches Event::Handshake(Ok(_)),
        next(identity, s, e).0 is Serving ==> s is Serving || (s is Authenticated
            && e matches Event::Registered(Ok(_))),
        next(identity, s, e).0 is Authenticated ==> s is Authenticated || s is Connecting,
{
}

/// Over any run of events a connection asks at most once for its client to
/// be inserted and at most once for its registry entry to be removed.
pub proof fn lemma_run_once(identity: u64, s: StateView, events: Seq<Event>)
    ensures
        registrations(run(identity, s, events)) <= 1,
        deregistrations(run(identity, s, events)) <= 1,
        !(s is Connecting) ==> registrations(run(identity, s, events)) == 0,
        s is Closed ==> deregistrations(run(identity, s, events)) == 0,
    decreases events.len(),
{
    if events.len() > 0 {
        let (after, action) = next(identity, s, events.first());
        let rest = run(identity, after, events.drop_first());
        lemma_run_once(identity, after, events.drop_first());
        let all = run(identity, s, events);
        assert(all.first() == action);
        assert(all.drop_first() =~= rest);
    }
}

/// A closed connection has never more to say: it stays closed over any run
/// and does not come to serve.
pub proof fn lemma_closed_run(identity: u64, events: Seq<Event>)
    ensures
        state_after(identity, StateView::Closed, events) is Closed,
        !ever_served(identity, StateView::Closed, events),
    decreases events.len(),
{
    if events.len() > 0 {
        lemma_closed_run(identity, events.drop_first());
    }
}

/// The registry entry is removed exactly once for a connection that served
/// and is closed, and never for any other: not while the connection still
/// serves, and not for one that was closed before it served.
pub proof fn lemma_deregisters_exactly_once(identity: u64, s: StateView, events: Seq<Event>)
    ensures
        deregistrations(run(identity, s, events)) == if ever_served(identity, s, events)
            && state_after(identity, s, events) is Closed {
            1nat
        } else {
            0nat
        },
    decreases events.len(),
{
    if events.len() > 0 {
        let (after, action) = next(identity, s, events.first());
        let rest = run(identity, after, events.drop_first());
        let all = run(identity, s, events);
        assert(all.first() == action);
        assert(all.drop_first() =~= rest);
        lemma_deregisters_exactly_once(identity, after, events.drop_first());
        if after is Closed {
            lemma_closed_run(identity, events.drop_first());
        }
    }
}

} // verus!
