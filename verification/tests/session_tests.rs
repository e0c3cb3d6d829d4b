use assinador_livre::session::{
    frame_refusal, request_is_well_formed, ClientRequest, FrameKind, Session, SessionAction,
    SessionEvent, SessionState,
};
use assinador_livre::ws::{ErrorCode, MAX_MESSAGE_SIZE};

fn request(id: &str, action: &str, token: Option<&str>) -> SessionEvent {
    SessionEvent::Request(ClientRequest {
        id: Some(id.to_string()),
        action: action.to_string(),
        auth_token: token.map(|t| t.to_string()),
    })
}

#[test]
fn authenticated_session_serves_requests() {
    let mut s = Session::new("segredo".to_string());
    assert_eq!(s.state(), SessionState::AwaitingAuth);
    assert!(matches!(s.handle(request("1", "auth", Some("segredo"))), SessionAction::Authenticated { id: Some(ref i) } if i == "1"));
    assert_eq!(s.state(), SessionState::Authenticated);
    assert!(matches!(s.handle(request("2", "ping", None)), SessionAction::Pong { .. }));
    assert!(matches!(s.handle(request("3", "list_certificates", None)), SessionAction::ListCertificates { .. }));
    assert!(matches!(s.handle(request("4", "sign_pdf", None)), SessionAction::SignPdf { .. }));
    assert!(matches!(s.handle(request("5", "sign_pdfs", None)), SessionAction::SignPdfs { .. }));
    match s.handle(request("6", "dance", None)) {
        SessionAction::Reject { id, code, message } => {
            assert_eq!(id.as_deref(), Some("6"));
            assert_eq!(code, ErrorCode::InvalidRequest);
            assert_eq!(message, "Action nao suportada");
        }
        _ => panic!("unknown action must be refused"),
    }
    match s.handle(SessionEvent::Malformed) {
        SessionAction::Reject { code, message, .. } => {
            assert_eq!(code, ErrorCode::InvalidRequest);
            assert_eq!(message, "Mensagem invalida");
        }
        _ => panic!("malformed message must be refused"),
    }
    assert_eq!(s.state(), SessionState::Authenticated);
    assert!(matches!(s.handle(SessionEvent::Silence), SessionAction::Close));
    assert_eq!(s.state(), SessionState::Closed);
    assert!(matches!(s.handle(request("7", "ping", None)), SessionAction::Close));
}

#[test]
fn first_message_must_be_a_valid_auth() {
    let mut s = Session::new("segredo".to_string());
    match s.handle(request("1", "ping", None)) {
        SessionAction::Reject { code, message, .. } => {
            assert_eq!(code, ErrorCode::AuthRequired);
            assert_eq!(message, "Primeira mensagem deve ser action=auth");
        }
        _ => panic!("ping before auth must be refused"),
    }
    assert_eq!(s.state(), SessionState::Closed);

    let mut s = Session::new("segredo".to_string());
    match s.handle(request("1", "auth", Some("errado"))) {
        SessionAction::Reject { code, message, .. } => {
            assert_eq!(code, ErrorCode::AuthFailed);
            assert_eq!(message, "Token invalido");
        }
        _ => panic!("wrong token must be refused"),
    }
    assert_eq!(s.state(), SessionState::Closed);

    let mut s = Session::new("segredo".to_string());
    match s.handle(request("1", "auth", None)) {
        SessionAction::Reject { code, message, .. } => {
            assert_eq!(code, ErrorCode::AuthFailed);
            assert_eq!(message, "Payload auth invalido");
        }
        _ => panic!("auth without token must be refused"),
    }

    let mut s = Session::new("segredo".to_string());
    match s.handle(SessionEvent::Silence) {
        SessionAction::Reject { id, code, message } => {
            assert!(id.is_none());
            assert_eq!(code, ErrorCode::AuthRequired);
            assert_eq!(message, "Autenticacao obrigatoria em ate 3s");
        }
        _ => panic!("silence must be refused"),
    }

    let mut s = Session::new("segredo".to_string());
    match s.handle(SessionEvent::Malformed) {
        SessionAction::Reject { message, .. } => assert_eq!(message, "Primeira mensagem invalida para autenticacao"),
        _ => panic!("malformed first message must be refused"),
    }
    assert_eq!(s.state(), SessionState::Closed);
}

#[test]
fn frames_other_than_text_are_refused() {
    assert_eq!(frame_refusal(FrameKind::Close, 0), Some("Conexao encerrada"));
    assert_eq!(frame_refusal(FrameKind::Ping, 0), Some("Frame de controle nao esperado"));
    assert_eq!(frame_refusal(FrameKind::Pong, 0), Some("Frame de controle nao esperado"));
    assert_eq!(frame_refusal(FrameKind::Binary, 0), Some("Mensagem binaria nao suportada"));
    assert_eq!(frame_refusal(FrameKind::Other, 0), Some("Tipo de mensagem nao suportado"));
    assert_eq!(frame_refusal(FrameKind::Text, MAX_MESSAGE_SIZE), None);
    assert_eq!(frame_refusal(FrameKind::Text, MAX_MESSAGE_SIZE + 1), Some("Mensagem excede limite maximo permitido"));
}

#[test]
fn requests_need_an_action_and_a_bounded_size() {
    assert!(request_is_well_formed(10, "ping"));
    assert!(!request_is_well_formed(10, "   "));
    assert!(!request_is_well_formed(MAX_MESSAGE_SIZE + 1, "ping"));
}
