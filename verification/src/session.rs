//! One WebSocket connection as a state machine: the first message must
//! authenticate with the configured token, and only then are requests served.
use vstd::prelude::*;
use crate::text::equals;
use crate::ws::ErrorCode;

verus! {

/// Where a connection stands.
#[derive(Clone, Copy, PartialEq, Eq, Debug, Structural)]
pub enum SessionState {
    /// Waiting for the first message, which must authenticate.
    AwaitingAuth,
    /// Authenticated; requests are served.
    Authenticated,
    /// The connection is to be closed; nothing more is served.
    Closed,
}

/// A request from the client, as far as the session decides on it.
pub struct ClientRequest {
    pub id: Option<String>,
    pub action: String,
    /// The `token` field of the payload, when the payload has one as text.
    pub auth_token: Option<String>,
}

/// What happened on the connection.
pub enum SessionEvent {
    /// No message in time, or the connection ended or failed.
    Silence,
    /// A message that is not a request.
    Malformed,
    Request(ClientRequest),
}

/// What the server is to do next.
pub enum SessionAction {
    /// Send an error reply.
    Reject { id: Option<String>, code: ErrorCode, message: String },
    /// Confirm the authentication.
    Authenticated { id: Option<String> },
    /// Answer a `ping`.
    Pong { id: Option<String> },
    /// List the certificates and reply with them.
    ListCertificates { id: Option<String> },
    /// Sign one PDF and reply with it.
    SignPdf { id: Option<String> },
    /// Sign a batch of PDFs and reply with them.
    SignPdfs { id: Option<String> },
    /// Send nothing.
    Close,
}

pub open spec fn opt_view(o: Option<String>) -> Option<Seq<char>> {
    match o {
        Some(s) => Some(s@),
        None => None,
    }
}

/// An event, as plain values.
pub enum EventView {
    Silence,
    Malformed,
    Request { id: Option<Seq<char>>, action: Seq<char>, auth_token: Option<Seq<char>> },
}

/// An action, as plain values.
pub enum ActionView {
    Reject { id: Option<Seq<char>>, code: ErrorCode, message: Seq<char> },
    Authenticated { id: Option<Seq<char>> },
    Pong { id: Option<Seq<char>> },
    ListCertificates { id: Option<Seq<char>> },
    SignPdf { id: Option<Seq<char>> },
    SignPdfs { id: Option<Seq<char>> },
    Close,
}

pub open spec fn event_view(e: SessionEvent) -> EventView {
    match e {
        SessionEvent::Silence => EventView::Silence,
        SessionEvent::Malformed => EventView::Malformed,
        SessionEvent::Request(r) => EventView::Request {
            id: opt_view(r.id),
            action: r.action@,
            auth_token: opt_view(r.auth_token),
        },
    }
}

pub open spec fn action_view(a: SessionAction) -> ActionView {
    match a {
        SessionAction::Reject { id, code, message } => ActionView::Reject {
            id: opt_view(id),
            code,
            message: message@,
        },
        SessionAction::Authenticated { id } => ActionView::Authenticated { id: opt_view(id) },
        SessionAction::Pong { id } => ActionView::Pong { id: opt_view(id) },
        SessionAction::ListCertificates { id } => ActionView::ListCertificates { id: opt_view(id) },
        SessionAction::SignPdf { id } => ActionView::SignPdf { id: opt_view(id) },
        SessionAction::SignPdfs { id } => ActionView::SignPdfs { id: opt_view(id) },
        SessionAction::Close => ActionView::Close,
    }
}

/// The actions that serve a request.
pub open spec fn is_service(a: ActionView) -> bool {
    a is Pong || a is ListCertificates || a is SignPdf || a is SignPdfs
}

/// An authentication with the expected token.
pub open spec fn is_valid_auth(e: EventView, token: Seq<char>) -> bool {
    e matches EventView::Request { action, auth_token, .. } && action == "auth"@ && auth_token
        == Some(token)
}

/// The step taken on the first message.
pub open spec fn auth_step(e: EventView, token: Seq<char>) -> (SessionState, ActionView) {
    match e {
        EventView::Silence => (
            SessionState::Closed,
            ActionView::Reject {
                id: None,
                code: ErrorCode::AuthRequired,
                message: "Autenticacao obrigatoria em ate 3s"@,
            },
        ),
        EventView::Malformed => (
            SessionState::Closed,
            ActionView::Reject {
                id: None,
                code: ErrorCode::AuthRequired,
                message: "Primeira mensagem invalida para autenticacao"@,
            },
        ),
        EventView::Request { id, action, auth_token } => if action != "auth"@ {
            (
                SessionState::Closed,
                ActionView::Reject {
                    id,
                    code: ErrorCode::AuthRequired,
                    message: "Primeira mensagem deve ser action=auth"@,
                },
            )
        } else {
            match auth_token {
                None => (
                    SessionState::Closed,
                    ActionView::Reject { id, code: ErrorCode::AuthFailed, message: "Payload auth invalido"@ },
                ),
                Some(t) => if t != token {
                    (
                        SessionState::Closed,
                        ActionView::Reject { id, code: ErrorCode::AuthFailed, message: "Token invalido"@ },
                    )
                } else {
                    (SessionState::Authenticated, ActionView::Authenticated { id })
                },
            }
        },
    }
}

/// The step taken on a message after authentication.
pub open spec fn serve_step(e: EventView) -> (SessionState, ActionView) {
    match e {
        EventView::Silence => (SessionState::Closed, ActionView::Close),
        EventView::Malformed => (
            SessionState::Authenticated,
            ActionView::Reject { id: None, code: ErrorCode::InvalidRequest, message: "Mensagem invalida"@ },
        ),
        EventView::Request { id, action, .. } => (
            SessionState::Authenticated,
            if action == "ping"@ {
                ActionView::Pong { id }
            } else if action == "list_certificates"@ {
                ActionView::ListCertificates { id }
            } else if action == "sign_pdf"@ {
                ActionView::SignPdf { id }
            } else if action == "sign_pdfs"@ {
                ActionView::SignPdfs { id }
            } else {
                ActionView::Reject {
                    id,
                    code: ErrorCode::InvalidRequest,
                    message: "Action nao suportada"@,
                }
            },
        ),
    }
}

/// One step of a connection.
pub open spec fn step_spec(s: SessionState, e: EventView, token: Seq<char>) -> (SessionState, ActionView) {
    match s {
        SessionState::AwaitingAuth => auth_step(e, token),
        SessionState::Authenticated => serve_step(e),
        SessionState::Closed => (SessionState::Closed, ActionView::Close),
    }
}

/// A connection that has met `events`, from `s`: where it ends and what it did.
pub open spec fn run_spec(s: SessionState, events: Seq<EventView>, token: Seq<char>) -> (
    SessionState,
    Seq<ActionView>,
)
    decreases events.len(),
{
    if events.len() == 0 {
        (s, Seq::empty())
    } else {
        let (mid, actions) = run_spec(s, events.drop_last(), token);
        let (next, a) = step_spec(mid, events.last(), token);
        (next, actions.push(a))
    }
}

/// The decisions for one connection.
pub struct Session {
    state: SessionState,
    expected_token: String,
}

impl Session {
    pub closed spec fn spec_state(&self) -> SessionState {
        self.state
    }

    pub closed spec fn spec_token(&self) -> Seq<char> {
        self.expected_token@
    }

    /// A connection waiting for its authentication with `expected_token`.
    pub fn new(expected_token: String) -> (r: Session)
        ensures
            r.spec_state() == SessionState::AwaitingAuth,
            r.spec_token() == expected_token@,
    {
        Session { state: SessionState::AwaitingAuth, expected_token }
    }

    pub fn state(&self) -> (r: SessionState)
        ensures
            r == self.spec_state(),
    {
        self.state
    }

    /// Takes one event and says what to do.
    pub fn handle(&mut self, event: SessionEvent) -> (r: SessionAction)
        ensures
            final(self).spec_token() == old(self).spec_token(),
            (final(self).spec_state(), action_view(r)) == step_spec(
                old(self).spec_state(),
                event_view(event),
                old(self).spec_token(),
            ),
    {
        match self.state {
            SessionState::Closed => SessionAction::Close,
            SessionState::AwaitingAuth => {
                let (next, action) = authenticate(event, self.expected_token.as_str());
                self.state = next;
                action
            },
            SessionState::Authenticated => {
                let (next, action) = serve(event);
                self.state = next;
                action
            },
        }
    }
}

fn authenticate(event: SessionEvent, token: &str) -> (r: (SessionState, SessionAction))
    ensures
        (r.0, action_view(r.1)) == auth_step(event_view(event), token@),
{
    match event {
        SessionEvent::Silence => (
            SessionState::Closed,
            SessionAction::Reject {
                id: None,
                code: ErrorCode::AuthRequired,
                message: String::from_str("Autenticacao obrigatoria em ate 3s"),
            },
        ),
        SessionEvent::Malformed => (
            SessionState::Closed,
            SessionAction::Reject {
                id: None,
                code: ErrorCode::AuthRequired,
                message: String::from_str("Primeira mensagem invalida para autenticacao"),
            },
        ),
        SessionEvent::Request(req) => {
            if !equals(req.action.as_str(), "auth") {
                return (
                    SessionState::Closed,
                    SessionAction::Reject {
                        id: req.id,
                        code: ErrorCode::AuthRequired,
                        message: String::from_str("Primeira mensagem deve ser action=auth"),
                    },
                );
            }
            match req.auth_token {
                None => (
                    SessionState::Closed,
                    SessionAction::Reject {
                        id: req.id,
                        code: ErrorCode::AuthFailed,
                        message: String::from_str("Payload auth invalido"),
                    },
                ),
                Some(t) => if !equals(t.as_str(), token) {
                    (
                        SessionState::Closed,
                        SessionAction::Reject {
                            id: req.id,
                            code: ErrorCode::AuthFailed,
                            message: String::from_str("Token invalido"),
                        },
                    )
                } else {
                    (SessionState::Authenticated, SessionAction::Authenticated { id: req.id })
                },
            }
        },
    }
}

fn serve(event: SessionEvent) -> (r: (SessionState, SessionAction))
    ensures
        (r.0, action_view(r.1)) == serve_step(event_view(event)),
{
    match event {
        SessionEvent::Silence => (SessionState::Closed, SessionAction::Close),
        SessionEvent::Malformed => (
            SessionState::Authenticated,
            SessionAction::Reject {
                id: None,
                code: ErrorCode::InvalidRequest,
                message: String::from_str("Mensagem invalida"),
            },
        ),
        SessionEvent::Request(req) => {
            let action = if equals(req.action.as_str(), "ping") {
                SessionAction::Pong { id: req.id }
            } else if equals(req.action.as_str(), "list_certificates") {
                SessionAction::ListCertificates { id: req.id }
            } else if equals(req.action.as_str(), "sign_pdf") {
                SessionAction::SignPdf { id: req.id }
            } else if equals(req.action.as_str(), "sign_pdfs") {
                SessionAction::SignPdfs { id: req.id }
            } else {
                SessionAction::Reject {
                    id: req.id,
                    code: ErrorCode::InvalidRequest,
                    message: String::from_str("Action nao suportada"),
                }
            };
            (SessionState::Authenticated, action)
        },
    }
}

/// The kind of a received WebSocket frame.
#[derive(Clone, Copy, PartialEq, Eq, Debug, Structural)]
pub enum FrameKind {
    Close,
    Ping,
    Pong,
    Binary,
    Text,
    Other,
}

pub open spec fn frame_refusal_text(kind: FrameKind, text_len: nat) -> Option<Seq<char>> {
    match kind {
        FrameKind::Close => Some("Conexao encerrada"@),
        FrameKind::Ping | FrameKind::Pong => Some("Frame de controle nao esperado"@),
        FrameKind::Binary => Some("Mensagem binaria nao suportada"@),
        FrameKind::Other => Some("Tipo de mensagem nao suportado"@),
        FrameKind::Text => if text_len > crate::ws::MAX_MESSAGE_SIZE {
            Some("Mensagem excede limite maximo permitido"@)
        } else {
            None
        },
    }
}

/// Why a frame cannot carry a request, or `None` for a text frame of at
/// most the largest message size.
pub fn frame_refusal(kind: FrameKind, text_len: usize) -> (r: Option<&'static str>)
    ensures
        match r {
            Some(m) => frame_refusal_text(kind, text_len as nat) == Some(m@),
            None => frame_refusal_text(kind, text_len as nat) is None,
        },
{
    match kind {
        FrameKind::Close => Some("Conexao encerrada"),
        FrameKind::Ping | FrameKind::Pong => Some("Frame de controle nao esperado"),
        FrameKind::Binary => Some("Mensagem binaria nao suportada"),
        FrameKind::Other => Some("Tipo de mensagem nao suportado"),
        FrameKind::Text => if text_len > crate::ws::MAX_MESSAGE_SIZE {
            Some("Mensagem excede limite maximo permitido")
        } else {
            None
        },
    }
}

/// Whether a received text is a usable request: at most the largest
/// message size, with an action that is not blank.
pub fn request_is_well_formed(text_len: usize, action: &str) -> (r: bool)
    ensures
        r == (text_len <= crate::ws::MAX_MESSAGE_SIZE && crate::text::trim_seq(action@).len() != 0),
{
    if text_len > crate::ws::MAX_MESSAGE_SIZE {
        return false;
    }
    let t = crate::text::trim(action);
    t.unicode_len() != 0
}

/// No request is served before the connection has authenticated: a step
/// that serves a request is taken only in the authenticated state.
pub proof fn service_requires_authentication(s: SessionState, e: EventView, token: Seq<char>)
    ensures
        is_service(step_spec(s, e, token).1) ==> s == SessionState::Authenticated,
{
}

/// The first message decides: anything but an authentication with the
/// expected token closes the connection.
pub proof fn first_message_must_authenticate(e: EventView, token: Seq<char>)
    ensures
        step_spec(SessionState::AwaitingAuth, e, token).0 == (if is_valid_auth(e, token) {
            SessionState::Authenticated
        } else {
            SessionState::Closed
        }),
{
}

/// Once authenticated, each request is answered with the request's own id,
/// by the action its name asks for (`ping`, `list_certificates`,
/// `sign_pdf`, `sign_pdfs`) or else by an `invalid_request` refusal, and the
/// connection stays authenticated.
pub proof fn requests_are_answered_with_their_id(
    id: Option<Seq<char>>,
    action: Seq<char>,
    auth_token: Option<Seq<char>>,
    token: Seq<char>,
)
    ensures
        ({
            let (next, a) = step_spec(
                SessionState::Authenticated,
                EventView::Request { id, action, auth_token },
                token,
            );
            &&& next == SessionState::Authenticated
            &&& action == "ping"@ ==> a == ActionView::Pong { id }
            &&& action == "list_certificates"@ ==> a == ActionView::ListCertificates { id }
            &&& action == "sign_pdf"@ ==> a == ActionView::SignPdf { id }
            &&& action == "sign_pdfs"@ ==> a == ActionView::SignPdfs { id }
            &&& (action != "ping"@ && action != "list_certificates"@ && action != "sign_pdf"@
                && action != "sign_pdfs"@) ==> (a matches ActionView::Reject { id: rid, code, .. }
                && rid == id && code == ErrorCode::InvalidRequest)
        }),
{
    reveal_strlit("ping");
    reveal_strlit("list_certificates");
    reveal_strlit("sign_pdf");
    reveal_strlit("sign_pdfs");
    assert("ping"@.len() == 4);
    assert("list_certificates"@.len() == 17);
    assert("sign_pdf"@.len() == 8);
    assert("sign_pdfs"@.len() == 9);
}

/// The authentication that opens a connection is confirmed with the id of
/// the request that carried it.
pub proof fn authentication_is_confirmed_with_its_id(id: Option<Seq<char>>, token: Seq<char>)
    ensures
        step_spec(
            SessionState::AwaitingAuth,
            EventView::Request { id, action: "auth"@, auth_token: Some(token) },
            token,
        ) == (SessionState::Authenticated, ActionView::Authenticated { id }),
{
}

/// A run does one action per event.
proof fn lemma_run_len(s: SessionState, events: Seq<EventView>, token: Seq<char>)
    ensures
        run_spec(s, events, token).1.len() == events.len(),
    decreases events.len(),
{
    if events.len() > 0 {
        lemma_run_len(s, events.drop_last(), token);
    }
}

/// A closed connection stays closed and does nothing more.
pub proof fn closed_is_final(events: Seq<EventView>, token: Seq<char>)
    ensures
        run_spec(SessionState::Closed, events, token).0 == SessionState::Closed,
        forall|k: int|
            0 <= k < events.len() ==> #[trigger] run_spec(SessionState::Closed, events, token).1[k]
                == ActionView::Close,
    decreases events.len(),
{
    if events.len() > 0 {
        closed_is_final(events.drop_last(), token);
        lemma_run_len(SessionState::Closed, events.drop_last(), token);
        let prev = run_spec(SessionState::Closed, events.drop_last(), token);
        assert forall|k: int| 0 <= k < events.len() implies #[trigger] run_spec(
            SessionState::Closed,
            events,
            token,
        ).1[k] == ActionView::Close by {
            if k < events.len() - 1 {
                assert(prev.1[k] == ActionView::Close);
            }
        }
    }
}

/// After one or more events a connection is no longer waiting to
/// authenticate, and it is authenticated only when the first event was a
/// valid authentication.
proof fn lemma_run_state_reachable(events: Seq<EventView>, token: Seq<char>)
    ensures
        events.len() == 0 ==> run_spec(SessionState::AwaitingAuth, events, token).0
            == SessionState::AwaitingAuth,
        events.len() > 0 ==> run_spec(SessionState::AwaitingAuth, events, token).0
            != SessionState::AwaitingAuth,
        events.len() > 0 && run_spec(SessionState::AwaitingAuth, events, token).0
            == SessionState::Authenticated ==> is_valid_auth(events[0], token),
    decreases events.len(),
{
    if events.len() > 0 {
        let prefix = events.drop_last();
        lemma_run_state_reachable(prefix, token);
        if prefix.len() > 0 {
            assert(prefix[0] == events[0]);
        }
    }
}

/// Over any run of a new connection, every request served is preceded by
/// an authentication with the expected token as the first message.
pub proof fn service_only_after_authentication(events: Seq<EventView>, token: Seq<char>)
    ensures
        run_spec(SessionState::AwaitingAuth, events, token).1.len() == events.len(),
        forall|k: int|
            #![trigger run_spec(SessionState::AwaitingAuth, events, token).1[k]]
            0 <= k < events.len() && is_service(run_spec(SessionState::AwaitingAuth, events, token).1[k])
                ==> 0 < k && is_valid_auth(events[0], token),
    decreases events.len(),
{
    lemma_run_len(SessionState::AwaitingAuth, events, token);
    if events.len() > 0 {
        let prefix = events.drop_last();
        service_only_after_authentication(prefix, token);
        lemma_run_state_reachable(prefix, token);
        let (mid, actions) = run_spec(SessionState::AwaitingAuth, prefix, token);
        if prefix.len() > 0 {
            assert(prefix[0] == events[0]);
        }
        assert forall|k: int|
            #![trigger run_spec(SessionState::AwaitingAuth, events, token).1[k]]
            0 <= k < events.len() && is_service(run_spec(SessionState::AwaitingAuth, events, token).1[k])
                implies 0 < k && is_valid_auth(events[0], token) by {
            if k < events.len() - 1 {
                assert(run_spec(SessionState::AwaitingAuth, events, token).1[k] == actions[k]);
            } else {
                service_requires_authentication(mid, events.last(), token);
            }
        }
    }
}

} // verus!
