use assinador_livre::certs::{
    certificate_score, is_test_certificate, looks_like_guid, looks_like_hardware_token, OwnedCert,
};
use assinador_livre::config::CertOverride;
use assinador_livre::contracts::CertSelectionRequest;
use assinador_livre::selection::effective_override;
use assinador_livre::report::certificate_selection_line;
use assinador_livre::selection::{
    choose_certificate_index, ensure_mode_allows_certificate, normalize_thumbprint,
    rank_certificates, require_certificates, CertSelectionError, SelectionSource,
};

fn cert(subject: &str, issuer: &str, thumbprint: &str, token: bool, provider: &str, container: &str) -> OwnedCert {
    OwnedCert {
        subject: subject.to_string(),
        issuer: issuer.to_string(),
        thumbprint: thumbprint.to_string(),
        valid_now: true,
        supports_digital_signature: true,
        key_provider_name: provider.to_string(),
        key_container_name: container.to_string(),
        key_provider_type: 1,
        key_spec: 2,
        is_hardware_token: token,
    }
}

fn token_cert() -> OwnedCert {
    cert(
        "CN=FULANO DE TAL:12345678901, O=ICP-Brasil",
        "AC SOLUTI Multipla v5",
        "AABBCC",
        true,
        "SafeNet Smart Card Key Storage Provider",
        "etoken-abc",
    )
}

fn localhost_cert() -> OwnedCert {
    let mut c = cert("CN=localhost", "CN=localhost", "112233", false, "Microsoft Software Key Storage Provider", "abc");
    c.supports_digital_signature = false;
    c
}

fn override_with(mode: &str, thumbprint: Option<&str>, index: Option<usize>) -> CertOverride {
    CertOverride { mode: mode.to_string(), thumbprint: thumbprint.map(|t| t.to_string()), index }
}

#[test]
fn token_certificate_scores_every_matching_rule() {
    let (score, reasons) = certificate_score(&token_cert());
    assert_eq!(score, 2005);
    assert_eq!(
        reasons,
        vec![
            "+10 subject preenchido",
            "+5 issuer preenchido",
            "+220 certificado valido agora",
            "+170 key usage permite assinatura digital",
            "+900 certificado detectado como token/smart card",
            "+280 provider indica token/smart card",
            "+130 container indica token/smart card",
            "+180 subject com identificador numerico (ex.: CPF/CNPJ)",
            "+80 issuer conhecido de AC",
            "+30 subject com formato humano",
        ]
    );
}

#[test]
fn localhost_software_certificate_is_penalised() {
    let (score, reasons) = certificate_score(&localhost_cert());
    assert_eq!(score, -1065);
    assert_eq!(reasons.len(), 7);
    assert_eq!(reasons[6], "-200 certificado localhost");
    assert!(is_test_certificate(&localhost_cert()));
    assert!(!is_test_certificate(&token_cert()));
}

#[test]
fn guid_shapes_are_recognised() {
    assert!(looks_like_guid("123e4567-e89b-12d3-a456-426614174000"));
    assert!(!looks_like_guid("123e4567e89b12d3a456426614174000"));
    assert!(!looks_like_guid("123e4567-e89b-12d3-a456-42661417400z"));
    let guid = "123e4567-e89b-12d3-a456-426614174000";
    assert!(is_test_certificate(&cert(guid, guid, "", false, "", "")));
}

#[test]
fn hardware_token_markers_are_found_case_insensitively() {
    assert!(looks_like_hardware_token("SafeNet Key Storage", ""));
    assert!(looks_like_hardware_token("Microsoft", "PKCS#11 slot"));
    assert!(!looks_like_hardware_token("Microsoft Software Key Storage Provider", "abc"));
}

#[test]
fn ranking_puts_higher_scores_first() {
    let certs = vec![localhost_cert(), token_cert(), localhost_cert()];
    let ranked = rank_certificates(&certs, &[0, 1, 2]);
    assert_eq!(ranked.iter().map(|r| r.index).collect::<Vec<_>>(), vec![1, 0, 2]);
    assert_eq!(ranked[0].score, 2005);
}

#[test]
fn thumbprints_are_normalised() {
    assert_eq!(normalize_thumbprint("aa:bb cc-0f"), "AABBCC0F");
    let once = normalize_thumbprint(" 1a 2B zz ");
    assert_eq!(once, "1A2B");
    assert_eq!(normalize_thumbprint(&once), once);
}

#[test]
fn automatic_choice_prefers_the_token() {
    let certs = vec![localhost_cert(), token_cert()];
    let choice = choose_certificate_index(&certs, &CertOverride::default(), None).ok().unwrap();
    assert_eq!(choice.index, 1);
    assert_eq!(choice.source, SelectionSource::Auto);
    assert_eq!(choice.source.label(), "auto");
}

#[test]
fn configured_index_thumbprint_and_environment_take_priority() {
    let certs = vec![localhost_cert(), token_cert()];
    let c = choose_certificate_index(&certs, &override_with("auto", None, Some(1)), None).ok().unwrap();
    assert_eq!((c.index, c.source), (0, SelectionSource::ConfigIndex));
    let c = choose_certificate_index(&certs, &override_with("auto", Some("aa:bb cc"), None), None).ok().unwrap();
    assert_eq!((c.index, c.source), (1, SelectionSource::ConfigThumbprint));
    let c = choose_certificate_index(&certs, &override_with("auto", Some("ffff"), None), Some(" 1 ".to_string()))
        .ok()
        .unwrap();
    assert_eq!((c.index, c.source), (0, SelectionSource::EnvIndex));
    let single = vec![localhost_cert()];
    let c = choose_certificate_index(&single, &CertOverride::default(), None).ok().unwrap();
    assert_eq!((c.index, c.source), (0, SelectionSource::AutoSingle));
}

#[test]
fn selection_errors_name_the_problem() {
    let certs = vec![localhost_cert(), token_cert()];
    let e = choose_certificate_index(&certs, &override_with("auto", None, Some(3)), None).err().unwrap();
    assert!(matches!(e, CertSelectionError::IndexOutOfRange { index: 3, available: 2 }));
    assert_eq!(e.message(), "cert_override.index invalido: 3. Valores aceitos: 1..=2");
    let e = choose_certificate_index(&certs, &override_with("token_only", None, Some(1)), None).err().unwrap();
    assert!(matches!(e, CertSelectionError::TokenRequired));
    let e = choose_certificate_index(&certs, &CertOverride::default(), Some("x".to_string())).err().unwrap();
    assert_eq!(e.message(), "ASSINADOR_CERT_INDEX invalido: 'x'. Valores aceitos: 1..=2.");
    let both_software = vec![localhost_cert(), localhost_cert()];
    let e = choose_certificate_index(&both_software, &override_with("token_only", None, None), None).err().unwrap();
    assert!(matches!(e, CertSelectionError::NoTokenCertificate));
    let e = choose_certificate_index(&certs, &override_with("manual", None, None), None).err().unwrap();
    assert_eq!(e.message(), "cert_override.mode invalido: 'manual'. Valores aceitos: auto, token_only");
    assert!(matches!(require_certificates(Vec::new()), Err(CertSelectionError::NoCertificates)));
    assert_eq!(require_certificates(vec![token_cert()]).ok().unwrap().len(), 1);
}

#[test]
fn token_only_mode_refuses_software_certificates() {
    assert!(ensure_mode_allows_certificate(&token_cert(), "token_only").is_ok());
    assert!(ensure_mode_allows_certificate(&localhost_cert(), "auto").is_ok());
    let e = ensure_mode_allows_certificate(&localhost_cert(), "token_only").err().unwrap();
    assert!(matches!(e, CertSelectionError::TokenRequired));
}

#[test]
fn selection_is_logged_with_every_detail() {
    let certs = vec![localhost_cert(), token_cert()];
    assert_eq!(
        certificate_selection_line(&certs, 1, "auto"),
        "Certificado selecionado (auto): idx=2/2; subject='CN=FULANO DE TAL:12345678901, O=ICP-Brasil'; issuer='AC SOLUTI Multipla v5'; thumbprint=AABBCC; token_hardware=true; provider='SafeNet Smart Card Key Storage Provider'; container='etoken-abc'; key_spec=2; prov_type=1"
    );
}

#[test]
fn request_thumbprint_comes_before_index_and_configuration() {
    let configured = CertOverride { mode: "token_only".to_string(), thumbprint: Some("AA".to_string()), index: Some(2) };
    let by_thumb = CertSelectionRequest { thumbprint: Some("BB".to_string()), index: Some(3) };
    let r = effective_override(&configured, Some(&by_thumb));
    assert_eq!((r.mode.as_str(), r.thumbprint.as_deref(), r.index), ("token_only", Some("BB"), None));
    let by_index = CertSelectionRequest { thumbprint: None, index: Some(3) };
    let r = effective_override(&configured, Some(&by_index));
    assert_eq!((r.thumbprint.as_deref(), r.index), (None, Some(3)));
    let neither = CertSelectionRequest { thumbprint: None, index: None };
    let r = effective_override(&configured, Some(&neither));
    assert_eq!((r.thumbprint.as_deref(), r.index), (Some("AA"), Some(2)));
    let r = effective_override(&configured, None);
    assert_eq!((r.thumbprint.as_deref(), r.index), (Some("AA"), Some(2)));
}

#[test]
fn one_flag_moves_the_score_by_a_fixed_amount() {
    let on = token_cert();
    let mut off = token_cert();
    off.valid_now = false;
    let (a, ra) = certificate_score(&on);
    let (b, rb) = certificate_score(&off);
    assert_eq!(a - b, 480);
    assert_eq!(ra.len(), rb.len());
    let diffs: Vec<usize> = (0..ra.len()).filter(|&i| ra[i] != rb[i]).collect();
    assert_eq!(diffs.len(), 1);
    assert_eq!(ra[diffs[0]], "+220 certificado valido agora");
    assert_eq!(rb[diffs[0]], "-260 certificado fora da validade");
    let mut soft = token_cert();
    soft.is_hardware_token = false;
    assert_eq!(a - certificate_score(&soft).0, 1280);
    let mut no_sig = token_cert();
    no_sig.supports_digital_signature = false;
    assert_eq!(a - certificate_score(&no_sig).0, 390);
}

#[test]
fn an_empty_certificate_list_fails_by_source() {
    let none: Vec<OwnedCert> = Vec::new();
    let r = choose_certificate_index(&none, &override_with("auto", None, Some(1)), None);
    assert!(matches!(r, Err(CertSelectionError::IndexOutOfRange { index: 1, available: 0 })));
    let r = choose_certificate_index(&none, &override_with("token_only", None, None), None);
    assert!(matches!(r, Err(CertSelectionError::NoTokenCertificate)));
    let r = choose_certificate_index(&none, &override_with("auto", Some("AA"), None), None);
    assert!(matches!(r, Err(CertSelectionError::NoCertificates)));
    let r = choose_certificate_index(&none, &override_with("auto", None, None), Some("1".to_string()));
    assert!(matches!(r, Err(CertSelectionError::EnvIndexInvalid { available: 0, .. })));
    let r = choose_certificate_index(&none, &override_with("manual", None, None), None);
    assert!(matches!(r, Err(CertSelectionError::InvalidMode { .. })));
}
