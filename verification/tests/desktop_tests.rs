use assinador_livre::application::{classify_backend_error, format_service_error, AppServiceError};
use assinador_livre::config::AppConfig;
use assinador_livre::appearance::appearance_time_in;
use assinador_livre::contracts::{
    style_or_default, timezone_or_default,
    CertificateSummary, SignReport, VisibleSignaturePlacement, VisibleSignatureStyle,
    VisibleSignatureTimezone,
};
use assinador_livre::desktop::{
    default_placement_index, dialog_cert_selection, dialog_placement, is_manual_placement_index, parse_args, placement_options,
    playground_url, preselected_position, preview_unavailable_status, tray_candidates,
    DEFAULT_VISIBLE_SIGNATURE_PLACEMENT, PLACEMENT_COUNT, UiMessageLevel,
};
use assinador_livre::tray_flow::{tray_step, DialogOutcome, ServiceErrorText, TrayEvent, TrayStage};
use assinador_livre::logger::{error, info, log_line, needs_rotation, warn, LogLevel, MAX_LOG_SIZE_BYTES};
use assinador_livre::report::{file_error_entry, signed_file_name, summarize};

#[test]
fn preview_unavailable_status_mentions_fallback() {
    let status = preview_unavailable_status("teste");
    assert!(status.contains("teste"));
    assert!(status.contains("posicao predefinida"));
}

#[test]
fn placement_labels_are_human_readable() {
    assert!(placement_options()
        .iter()
        .all(|entry| !entry.ui_label.contains('_') && entry.ui_label.contains('(')));
}

#[test]
fn placement_options_follow_the_dialog_order() {
    let options = placement_options();
    assert_eq!(options.len(), PLACEMENT_COUNT);
    assert_eq!(options[0].value, VisibleSignaturePlacement::TopLeftHorizontal);
    assert_eq!(options[0].ui_label, "Superior esquerda (horizontal)");
    assert!(!options[0].vertical);
    assert!(options[1].vertical);
    assert_eq!(options[11].value, VisibleSignaturePlacement::CenterVertical);
    let d = default_placement_index();
    assert_eq!(d, 8);
    assert_eq!(options[d].value, DEFAULT_VISIBLE_SIGNATURE_PLACEMENT);
    assert!(is_manual_placement_index(PLACEMENT_COUNT, true));
    assert!(!is_manual_placement_index(PLACEMENT_COUNT, false));
    assert!(!is_manual_placement_index(3, true));
}

#[test]
fn names_of_visible_signature_options_round_trip() {
    for o in placement_options() {
        assert_eq!(VisibleSignaturePlacement::from_name(o.value.name()), Some(o.value));
        assert_eq!(o.value.is_vertical(), o.value.name().ends_with("vertical"));
    }
    assert_eq!(VisibleSignaturePlacement::from_name("centro"), None);
    assert_eq!(VisibleSignatureStyle::from_name("compact"), Some(VisibleSignatureStyle::Compact));
    assert_eq!(VisibleSignatureStyle::from_name(VisibleSignatureStyle::default().name()), Some(VisibleSignatureStyle::Default));
    assert_eq!(VisibleSignatureTimezone::from_name("utc"), Some(VisibleSignatureTimezone::Utc));
    assert_eq!(VisibleSignatureTimezone::from_name("america_sao_paulo"), None);
    assert_eq!(VisibleSignatureTimezone::default(), VisibleSignatureTimezone::Local);
    assert_eq!(VisibleSignatureStyle::default(), VisibleSignatureStyle::Default);
}

#[test]
fn command_line_flags_are_read() {
    let args = vec!["--verbose".to_string(), "--sign-now".to_string(), "extra".to_string()];
    let a = parse_args(&args);
    assert!(a.sign_now && a.verbose && !a.print_config_path);
    let a = parse_args(&vec!["-v".to_string(), "--print-config-path".to_string()]);
    assert!(a.verbose && a.print_config_path && !a.sign_now);
    let a = parse_args(&Vec::new());
    assert!(!a.verbose && !a.print_config_path && !a.sign_now);
}

#[test]
fn playground_url_uses_host_and_port() {
    assert_eq!(playground_url(&AppConfig::default()), "http://127.0.0.1:45890/playground");
}

fn summary(index: usize, token: bool) -> CertificateSummary {
    CertificateSummary {
        index,
        subject: format!("CN={index}"),
        issuer: "AC".to_string(),
        thumbprint: format!("{index:02X}"),
        is_hardware_token: token,
        provider_name: "p".to_string(),
        valid_now: true,
        supports_digital_signature: true,
    }
}

#[test]
fn token_only_mode_offers_only_tokens() {
    let certs = vec![summary(1, false), summary(2, true), summary(3, true)];
    let offered = tray_candidates(certs, "token_only");
    assert_eq!(offered.iter().map(|c| c.index).collect::<Vec<_>>(), vec![2, 3]);
    let certs = vec![summary(1, false), summary(2, true)];
    let offered = tray_candidates(certs, "auto");
    assert_eq!(offered.iter().map(|c| c.index).collect::<Vec<_>>(), vec![1, 2]);
}

#[test]
fn dialog_preselects_the_recommended_certificate() {
    let certs = vec![summary(4, false), summary(7, true), summary(9, true)];
    assert_eq!(preselected_position(&certs, Some(7)), 1);
    assert_eq!(preselected_position(&certs, Some(5)), 0);
    assert_eq!(preselected_position(&certs, None), 0);
}

#[test]
fn log_lines_have_time_level_and_message() {
    assert_eq!(log_line("2024-01-02 03:04:05", LogLevel::Info, "ola"), "[2024-01-02 03:04:05] [INFO] ola\n");
    assert_eq!(info("t", "m"), "[t] [INFO] m\n");
    assert_eq!(warn("t", "m"), "[t] [WARN] m\n");
    assert_eq!(error("t", "m"), "[t] [ERROR] m\n");
    assert!(!needs_rotation(false, MAX_LOG_SIZE_BYTES * 2));
    assert!(!needs_rotation(true, MAX_LOG_SIZE_BYTES - 1));
    assert!(needs_rotation(true, MAX_LOG_SIZE_BYTES));
}

#[test]
fn backend_errors_are_classified() {
    let e = classify_backend_error("SIGNING_BACKEND_UNAVAILABLE: sem backend".to_string());
    assert!(matches!(e, AppServiceError::BackendUnavailable(_)));
    let e = classify_backend_error("cert_index fora da faixa".to_string());
    assert!(matches!(e, AppServiceError::Invalid(_)));
    let e = classify_backend_error("Payload ruim".to_string());
    assert!(matches!(e, AppServiceError::Invalid(_)));
    let e = classify_backend_error("token ausente".to_string());
    assert!(matches!(e, AppServiceError::Signing(_)));
    assert_eq!(format_service_error(&e), "token ausente");
}

#[test]
fn run_summary_lists_files_and_errors() {
    assert_eq!(signed_file_name("contrato"), "contrato_assinado.pdf");
    assert_eq!(file_error_entry("a.pdf", "falhou"), "a.pdf: falhou");
    let report = SignReport { signed: vec!["a.pdf".to_string()], errors: vec!["b.pdf: falhou".to_string()] };
    let (title, text, warning) = summarize(2, &report, &vec!["a".to_string()]);
    assert_eq!(title, "Concluido com erros");
    assert!(warning);
    assert_eq!(
        text,
        "Assinados com sucesso: 1/2\n\nArquivos assinados:\n  - a.pdf -> a_assinado.pdf\n\nErros (1):\n  - b.pdf: falhou"
    );
    let ok = SignReport { signed: vec![], errors: vec![] };
    let (title, text, warning) = summarize(0, &ok, &vec![]);
    assert_eq!(title, "Sucesso!");
    assert!(!warning);
    assert_eq!(text, "Assinados com sucesso: 0/0\n");
}

#[test]
fn dialog_choice_becomes_a_certificate_selection() {
    let certs = vec![summary(4, false), summary(7, true)];
    assert!(dialog_cert_selection(&certs, true, 9).unwrap().is_none());
    let sel = dialog_cert_selection(&certs, false, 1).unwrap().unwrap();
    assert_eq!(sel.thumbprint.as_deref(), Some("07"));
    assert_eq!(sel.index, Some(7));
    assert_eq!(dialog_cert_selection(&certs, false, 2).unwrap_err(), "Indice selecionado fora da faixa: 2 (max 1)");
    assert_eq!(dialog_cert_selection(&Vec::new(), false, 0).unwrap_err(), "Indice selecionado fora da faixa: 0 (max 0)");
}

#[test]
fn dialog_placement_defaults_follow_the_box() {
    assert_eq!(dialog_placement(None, false).unwrap(), VisibleSignaturePlacement::BottomCenterHorizontal);
    assert_eq!(dialog_placement(None, true).unwrap(), VisibleSignaturePlacement::CenterHorizontal);
    assert_eq!(dialog_placement(Some("top_right_vertical"), true).unwrap(), VisibleSignaturePlacement::TopRightVertical);
    assert_eq!(
        dialog_placement(Some("centro"), false).unwrap_err(),
        "Posicao de assinatura visivel invalida retornada pelo dialogo: 'centro'"
    );
}

#[test]
fn tray_flow_runs_through_to_signing() {
    let s = tray_step(TrayStage::Gate, TrayEvent::Gate { acquired: true });
    assert_eq!(s.next, TrayStage::PickPdfs);
    assert!(s.log.is_none() && s.message.is_none());
    let s = tray_step(TrayStage::PickPdfs, TrayEvent::PdfsPicked { count: 2 });
    assert_eq!(s.next, TrayStage::ListCertificates);
    let s = tray_step(TrayStage::ListCertificates, TrayEvent::CertificatesListed { error: None });
    assert_eq!(s.next, TrayStage::FilterCandidates);
    let s = tray_step(TrayStage::FilterCandidates, TrayEvent::CandidatesFiltered { count: 1, mode: "auto".to_string() });
    assert_eq!(s.next, TrayStage::Dialog);
    let s = tray_step(TrayStage::Dialog, TrayEvent::DialogClosed { outcome: DialogOutcome::Chosen });
    assert_eq!(s.next, TrayStage::Sign);
    assert_eq!(s.log, Some((LogLevel::Info, "Assinatura iniciada via bandeja".to_string())));
    let s = tray_step(TrayStage::Sign, TrayEvent::Signed { error: None });
    assert_eq!(s.next, TrayStage::Done);
    assert!(s.message.is_none());
}

#[test]
fn tray_flow_reports_each_way_of_stopping() {
    let s = tray_step(TrayStage::Gate, TrayEvent::Gate { acquired: false });
    assert_eq!(s.next, TrayStage::Done);
    assert_eq!(s.log, Some((LogLevel::Warn, "Assinatura ignorada: app ocupado".to_string())));
    assert_eq!(
        s.message,
        Some((
            UiMessageLevel::Warning,
            "Assinatura em andamento".to_string(),
            "Ja existe uma assinatura em andamento. Tente novamente em instantes.".to_string()
        ))
    );
    let s = tray_step(TrayStage::PickPdfs, TrayEvent::PdfsPicked { count: 0 });
    assert_eq!(s.next, TrayStage::Done);
    assert_eq!(s.log, Some((LogLevel::Info, "Assinatura via bandeja cancelada: nenhum PDF selecionado".to_string())));
    let err = ServiceErrorText { logged: "Backend(x)".to_string(), shown: "x".to_string() };
    let s = tray_step(TrayStage::ListCertificates, TrayEvent::CertificatesListed { error: Some(err) });
    assert_eq!(s.log, Some((LogLevel::Error, "Falha ao listar certificados: Backend(x)".to_string())));
    assert_eq!(s.message, Some((UiMessageLevel::Error, "Erro na selecao de certificado".to_string(), "x".to_string())));
    let s = tray_step(TrayStage::FilterCandidates, TrayEvent::CandidatesFiltered { count: 0, mode: "token_only".to_string() });
    assert!(s.log.is_none());
    assert_eq!(
        s.message.unwrap().2,
        "Nenhum certificado elegivel para selecao manual no modo 'token_only'."
    );
    let s = tray_step(TrayStage::Dialog, TrayEvent::DialogClosed { outcome: DialogOutcome::Failed { text: "boom".to_string() } });
    assert_eq!(s.log, Some((LogLevel::Error, "Falha na selecao de certificado via bandeja: boom".to_string())));
    assert_eq!(s.message.unwrap().2, "boom");
    let s = tray_step(TrayStage::Dialog, TrayEvent::DialogClosed { outcome: DialogOutcome::Cancelled });
    assert_eq!(s.log, Some((LogLevel::Info, "Assinatura via bandeja cancelada pelo usuario".to_string())));
    let err = ServiceErrorText { logged: "Sign".to_string(), shown: "falhou".to_string() };
    let s = tray_step(TrayStage::Sign, TrayEvent::Signed { error: Some(err) });
    assert_eq!(s.log, Some((LogLevel::Error, "Falha na assinatura via bandeja: Sign".to_string())));
    assert_eq!(s.message, Some((UiMessageLevel::Error, "Erro na assinatura".to_string(), "falhou".to_string())));
    let s = tray_step(TrayStage::Sign, TrayEvent::Gate { acquired: true });
    assert_eq!(s.next, TrayStage::Done);
    assert!(s.log.is_none() && s.message.is_none());
}

#[test]
fn style_and_timezone_default_when_absent() {
    assert_eq!(style_or_default(None), Some(VisibleSignatureStyle::Default));
    assert_eq!(style_or_default(Some("compact")), Some(VisibleSignatureStyle::Compact));
    assert_eq!(style_or_default(Some("fancy")), None);
    assert_eq!(timezone_or_default(None), Some(VisibleSignatureTimezone::Local));
    assert_eq!(timezone_or_default(Some("utc")), Some(VisibleSignatureTimezone::Utc));
    assert_eq!(timezone_or_default(Some("america_sao_paulo")), None);
}

#[test]
fn signing_time_in_utc_or_local_time() {
    assert_eq!(appearance_time_in(0, VisibleSignatureTimezone::Utc, -10800).unwrap(), "01/01/1970 00:00:00 UTC");
    assert_eq!(appearance_time_in(0, VisibleSignatureTimezone::Local, -10800).unwrap(), "31/12/1969 21:00:00 -03:00");
    assert_eq!(appearance_time_in(3600, VisibleSignatureTimezone::Local, 0).unwrap(), "01/01/1970 01:00:00 +00:00");
    assert!(appearance_time_in(0, VisibleSignatureTimezone::Local, 86_400).is_none());
}
