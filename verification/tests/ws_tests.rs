use assinador_livre::application::AppServiceError;
use assinador_livre::contracts::BatchFileResult;
use assinador_livre::ws::{
    action_error_reply, default_local_origins, file_report, is_origin_allowed, list_error_reply,
    map_service_error, origin_accepted, parse_cert_selection, prepare_sign_pdf, prepare_sign_pdfs,
    signed_pdf_base64, ErrorCode, SignFileEntry, WsActionError, MAX_BASE64_SIZE,
};

#[test]
fn origin_must_match_exact_list() {
    let allowed = vec!["http://localhost:3000".to_string()];
    assert!(is_origin_allowed("http://localhost:3000", &allowed));
    assert!(!is_origin_allowed("http://localhost:5173", &allowed));
}

#[test]
fn local_origin_list_has_defaults() {
    let values = default_local_origins("127.0.0.1", 45890);
    assert!(values.contains(&"http://127.0.0.1:45890".to_string()));
    assert!(values.contains(&"http://localhost:45890".to_string()));
}

#[test]
fn cert_selection_prioritizes_thumbprint_over_index() {
    let selection = parse_cert_selection(Some("A1 B2 C3"), Some(3)).unwrap().unwrap();
    assert_eq!(selection.thumbprint.as_deref(), Some("A1 B2 C3"));
    assert_eq!(selection.index, Some(3));
}

#[test]
fn cert_selection_rejects_zero_index() {
    let err = parse_cert_selection(None, Some(0)).unwrap_err();
    match err {
        WsActionError::Invalid(msg) => assert!(msg.contains("cert_index invalido")),
        _ => panic!("erro inesperado"),
    }
}

#[test]
fn cert_selection_trims_and_refuses_blank_thumbprint() {
    let sel = parse_cert_selection(Some("  AA BB "), None).unwrap().unwrap();
    assert_eq!(sel.thumbprint.as_deref(), Some("AA BB"));
    assert_eq!(sel.index, None);
    match parse_cert_selection(Some("   "), None) {
        Err(WsActionError::Invalid(m)) => assert_eq!(m, "cert_thumbprint invalido: nao pode ser vazio"),
        _ => panic!("blank thumbprint must be refused"),
    }
    assert!(parse_cert_selection(None, None).unwrap().is_none());
}

#[test]
fn origins_are_compared_after_trimming_and_lowering() {
    let allowed = vec!["http://localhost:3000".to_string()];
    assert!(is_origin_allowed("  HTTP://LOCALHOST:3000 ", &allowed));
    assert!(!is_origin_allowed("http://localhost:3000/", &allowed));
}

#[test]
fn local_origins_are_sorted_and_unique() {
    let values = default_local_origins("127.0.0.1", 45890);
    assert_eq!(
        values,
        vec!["http://127.0.0.1:45890".to_string(), "http://localhost:45890".to_string()]
    );
    let values = default_local_origins("myhost", 8080);
    assert_eq!(
        values,
        vec![
            "http://127.0.0.1:8080".to_string(),
            "http://localhost:8080".to_string(),
            "http://myhost:8080".to_string()
        ]
    );
}

#[test]
fn origin_check_accepts_configured_and_local_origins() {
    let allowed = vec!["https://app.example".to_string()];
    let local = default_local_origins("127.0.0.1", 45890);
    assert!(origin_accepted(Some("https://app.example"), &allowed, &local));
    assert!(origin_accepted(Some("http://localhost:45890"), &allowed, &local));
    assert!(!origin_accepted(Some("https://evil.example"), &allowed, &local));
}

#[test]
fn sign_pdf_decodes_base64() {
    let prepared = prepare_sign_pdf("YWJj", None, None).ok().unwrap();
    assert_eq!(prepared.pdf_bytes, b"abc".to_vec());
    assert!(prepared.cert_selection.is_none());
}

#[test]
fn sign_pdf_refuses_invalid_base64() {
    match prepare_sign_pdf("@@not base64@@", None, None) {
        Err(WsActionError::Invalid(m)) => assert_eq!(m, "pdf_base64 invalido"),
        _ => panic!("invalid base64 must be refused"),
    }
}

#[test]
fn sign_pdf_refuses_oversized_payload() {
    let big = "A".repeat(MAX_BASE64_SIZE + 4);
    match prepare_sign_pdf(&big, None, None) {
        Err(WsActionError::Invalid(m)) => assert_eq!(m, "pdf_base64 excede limite de 20971520 bytes"),
        _ => panic!("oversized payload must be refused"),
    }
}

#[test]
fn batch_reports_the_first_bad_file() {
    let files = vec![
        SignFileEntry { filename: Some("a.pdf".to_string()), pdf_base64: "YWJj".to_string() },
        SignFileEntry { filename: Some("b.pdf".to_string()), pdf_base64: "%%%".to_string() },
        SignFileEntry { filename: None, pdf_base64: "***".to_string() },
    ];
    match prepare_sign_pdfs(&files, None, None) {
        Err(WsActionError::Invalid(m)) => assert_eq!(m, "pdf_base64 invalido no arquivo 'b.pdf'"),
        _ => panic!("bad file must be reported"),
    }
}

#[test]
fn batch_refuses_empty_list_and_decodes_each_file() {
    match prepare_sign_pdfs(&[], None, None) {
        Err(WsActionError::Invalid(m)) => assert_eq!(m, "Lista de arquivos vazia"),
        _ => panic!("empty list must be refused"),
    }
    let files = vec![
        SignFileEntry { filename: Some("a.pdf".to_string()), pdf_base64: "YWJj".to_string() },
        SignFileEntry { filename: None, pdf_base64: "eHl6".to_string() },
    ];
    let batch = prepare_sign_pdfs(&files, Some("AA"), None).ok().unwrap();
    assert_eq!(batch.files.len(), 2);
    assert_eq!(batch.files[0].filename, "a.pdf");
    assert_eq!(batch.files[0].pdf_bytes, b"abc".to_vec());
    assert_eq!(batch.files[1].filename, "");
    assert_eq!(batch.files[1].pdf_bytes, b"xyz".to_vec());
    assert_eq!(batch.cert_selection.unwrap().thumbprint.as_deref(), Some("AA"));
}

#[test]
fn signed_pdf_is_sent_in_base64() {
    assert_eq!(signed_pdf_base64(b"abc"), "YWJj");
    assert_eq!(signed_pdf_base64(b""), "");
}

#[test]
fn file_reports_carry_pdf_or_error() {
    let ok = BatchFileResult {
        filename: "a.pdf".to_string(),
        ok: true,
        signed_pdf: Some(b"xyz".to_vec()),
        error: None,
    };
    let r = file_report(&ok);
    assert_eq!(r.filename, "a.pdf");
    assert!(r.ok);
    assert_eq!(r.signed_pdf_base64.as_deref(), Some("eHl6"));
    assert!(r.error.is_none());
    let bad = BatchFileResult {
        filename: "b.pdf".to_string(),
        ok: false,
        signed_pdf: None,
        error: Some("falhou".to_string()),
    };
    let r = file_report(&bad);
    assert!(!r.ok);
    assert!(r.signed_pdf_base64.is_none());
    assert_eq!(r.error.as_deref(), Some("falhou"));
}

#[test]
fn error_codes_have_their_protocol_names() {
    assert_eq!(ErrorCode::AuthRequired.as_str(), "AUTH_REQUIRED");
    assert_eq!(ErrorCode::AuthFailed.as_str(), "AUTH_FAILED");
    assert_eq!(ErrorCode::OriginNotAllowed.as_str(), "ORIGIN_NOT_ALLOWED");
    assert_eq!(ErrorCode::InvalidRequest.as_str(), "INVALID_REQUEST");
    assert_eq!(ErrorCode::SigningFailed.as_str(), "SIGNING_FAILED");
    assert_eq!(ErrorCode::Busy.as_str(), "BUSY");
    assert_eq!(ErrorCode::SigningBackendUnavailable.as_str(), "SIGNING_BACKEND_UNAVAILABLE");
}

#[test]
fn action_errors_map_to_codes() {
    let (code, msg) = action_error_reply(&WsActionError::Busy);
    assert_eq!(code, ErrorCode::Busy);
    assert_eq!(msg, "Ja existe assinatura em andamento");
    let (code, msg) = action_error_reply(&map_service_error(AppServiceError::Invalid("x".to_string())));
    assert_eq!(code, ErrorCode::InvalidRequest);
    assert_eq!(msg, "x");
    let (code, _) = action_error_reply(&map_service_error(AppServiceError::Signing("y".to_string())));
    assert_eq!(code, ErrorCode::SigningFailed);
    let (code, _) =
        action_error_reply(&map_service_error(AppServiceError::BackendUnavailable("z".to_string())));
    assert_eq!(code, ErrorCode::SigningBackendUnavailable);
    let (code, msg) = list_error_reply(&AppServiceError::Invalid("w".to_string()));
    assert_eq!(code, ErrorCode::SigningFailed);
    assert_eq!(msg, "w");
    let (code, _) = list_error_reply(&AppServiceError::BackendUnavailable("v".to_string()));
    assert_eq!(code, ErrorCode::SigningBackendUnavailable);
}
