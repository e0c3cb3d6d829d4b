use assinador_livre::config::{normalize_and_validate, AppConfig, ConfigError};

#[test]
fn normalize_ws_path_adds_slash() {
    let mut cfg = AppConfig::default();
    cfg.ws_path = "ws".to_string();
    normalize_and_validate(&mut cfg).expect("config should be valid");
    assert_eq!(cfg.ws_path, "/ws");
}

#[test]
fn rejects_empty_token() {
    let mut cfg = AppConfig::default();
    cfg.ws_token = "   ".to_string();
    assert!(normalize_and_validate(&mut cfg).is_err());
}

#[test]
fn accepts_token_only_mode() {
    let mut cfg = AppConfig::default();
    cfg.cert_override.mode = "token_only".to_string();
    assert!(normalize_and_validate(&mut cfg).is_ok());
}

#[test]
fn defaults_match_the_documented_configuration() {
    let cfg = AppConfig::default();
    assert_eq!(cfg.ws_host, "127.0.0.1");
    assert_eq!(cfg.ws_port, 45890);
    assert_eq!(cfg.ws_path, "/ws");
    assert_eq!(cfg.ws_token, "troque-este-token");
    assert_eq!(cfg.allowed_origins, vec!["http://localhost:3000".to_string(), "https://seu-dominio.com".to_string()]);
    assert_eq!(cfg.cert_override.mode, "auto");
    assert!(cfg.cert_override.thumbprint.is_none());
    assert!(cfg.cert_override.index.is_none());
    assert!(cfg.startup_with_os_login);
}

#[test]
fn endpoint_joins_host_port_and_path() {
    let cfg = AppConfig::default();
    assert_eq!(cfg.endpoint(), "ws://127.0.0.1:45890/ws");
}

#[test]
fn normalized_path_keeps_a_leading_slash_and_trims() {
    let mut cfg = AppConfig::default();
    cfg.ws_path = "  /socket  ".to_string();
    assert_eq!(cfg.normalized_ws_path(), "/socket");
    cfg.ws_path = "   ".to_string();
    assert_eq!(cfg.normalized_ws_path(), "/");
}

#[test]
fn normalized_origins_are_trimmed_lowered_and_non_empty() {
    let mut cfg = AppConfig::default();
    cfg.allowed_origins = vec![" HTTP://LocalHost:3000 ".to_string(), "   ".to_string(), "https://A.b".to_string()];
    assert_eq!(
        cfg.normalized_allowed_origins(),
        vec!["http://localhost:3000".to_string(), "https://a.b".to_string()]
    );
}

#[test]
fn normalization_trims_fields_and_lowers_the_mode() {
    let mut cfg = AppConfig::default();
    cfg.ws_host = "  localhost ".to_string();
    cfg.ws_token = " segredo ".to_string();
    cfg.cert_override.mode = "  TOKEN_ONLY ".to_string();
    assert!(normalize_and_validate(&mut cfg).is_ok());
    assert_eq!(cfg.ws_host, "localhost");
    assert_eq!(cfg.ws_token, "segredo");
    assert_eq!(cfg.cert_override.mode, "token_only");
}

#[test]
fn normalization_is_idempotent_on_an_example() {
    let mut cfg = AppConfig::default();
    cfg.ws_host = " 127.0.0.1 ".to_string();
    cfg.ws_path = " ws ".to_string();
    cfg.cert_override.mode = " Auto ".to_string();
    assert!(normalize_and_validate(&mut cfg).is_ok());
    let (host, path, token, mode) =
        (cfg.ws_host.clone(), cfg.ws_path.clone(), cfg.ws_token.clone(), cfg.cert_override.mode.clone());
    assert!(normalize_and_validate(&mut cfg).is_ok());
    assert_eq!(cfg.ws_host, host);
    assert_eq!(cfg.ws_path, path);
    assert_eq!(cfg.ws_token, token);
    assert_eq!(cfg.cert_override.mode, mode);
    assert_eq!(cfg.ws_path, "/ws");
    assert_eq!(cfg.cert_override.mode, "auto");
}

#[test]
fn empty_mode_becomes_auto() {
    let mut cfg = AppConfig::default();
    cfg.cert_override.mode = "   ".to_string();
    assert!(normalize_and_validate(&mut cfg).is_ok());
    assert_eq!(cfg.cert_override.mode, "auto");
}

#[test]
fn each_refusal_has_its_error() {
    let mut cfg = AppConfig::default();
    cfg.ws_host = "  ".to_string();
    assert!(matches!(normalize_and_validate(&mut cfg), Err(ConfigError::EmptyHost)));

    let mut cfg = AppConfig::default();
    cfg.ws_port = 0;
    let err = normalize_and_validate(&mut cfg).unwrap_err();
    assert!(matches!(err, ConfigError::InvalidPort { port: 0 }));
    assert_eq!(err.message(), "ws_port invalido: 0");

    let mut cfg = AppConfig::default();
    cfg.ws_token = "".to_string();
    let err = normalize_and_validate(&mut cfg).unwrap_err();
    assert!(matches!(err, ConfigError::EmptyToken));
    assert_eq!(err.message(), "ws_token nao pode ser vazio");

    let mut cfg = AppConfig::default();
    cfg.ws_path = " / ".to_string();
    let err = normalize_and_validate(&mut cfg).unwrap_err();
    assert!(matches!(err, ConfigError::RootPath));
    assert_eq!(err.message(), "ws_path deve conter um path especifico (ex.: /ws)");

    let mut cfg = AppConfig::default();
    cfg.cert_override.mode = "Manual".to_string();
    let err = normalize_and_validate(&mut cfg).unwrap_err();
    assert_eq!(err.message(), "cert_override.mode invalido: 'manual'. Valores aceitos: auto, token_only");

    let mut cfg = AppConfig::default();
    cfg.cert_override.index = Some(0);
    let err = normalize_and_validate(&mut cfg).unwrap_err();
    assert!(matches!(err, ConfigError::ZeroIndex));
    assert_eq!(err.message(), "cert_override.index deve ser >= 1");
    assert_eq!(ConfigError::EmptyHost.message(), "ws_host nao pode ser vazio");
}
