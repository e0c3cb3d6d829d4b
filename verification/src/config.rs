//! The application's configuration: its defaults, the values derived from it
//! and the normalisation and validation applied after it is read.
use std::path::PathBuf;
use vstd::prelude::*;
use crate::text::{
    decimal, decimal_seq, equals, lemma_trim_idempotent, lemma_trimmed_fixed, lower_seq, push_all,
    push_char, to_ascii_lowercase, trim, trim_seq,
};

verus! {

/// How the signing certificate is chosen.
pub struct CertOverride {
    /// `auto` or `token_only`.
    pub mode: String,
    /// A certificate thumbprint to use when present.
    pub thumbprint: Option<String>,
    /// A 1-based position in the certificate list to use when present.
    pub index: Option<usize>,
}

impl Default for CertOverride {
    fn default() -> (r: Self)
        ensures
            r.mode@ == "auto"@,
            r.thumbprint is None,
            r.index is None,
    {
        CertOverride { mode: String::from_str("auto"), thumbprint: None, index: None }
    }
}

#[verifier::external_type_specification]
#[verifier::external_body]
pub struct ExPathBuf(PathBuf);

/// Where the application keeps its files.
pub struct AppPaths {
    pub base_dir: PathBuf,
    pub config_path: PathBuf,
    pub log_dir: PathBuf,
    pub log_file: PathBuf,
}

/// A configuration together with the paths it was read from.
pub struct LoadedConfig {
    pub config: AppConfig,
    pub paths: AppPaths,
}

/// The application's settings.
pub struct AppConfig {
    pub ws_host: String,
    pub ws_port: u16,
    pub ws_path: String,
    pub ws_token: String,
    pub allowed_origins: Vec<String>,
    pub cert_override: CertOverride,
    pub startup_with_os_login: bool,
}

pub open spec fn strings_of(v: Seq<String>) -> Seq<Seq<char>> {
    v.map_values(|s: String| s@)
}

impl Default for AppConfig {
    fn default() -> (r: Self)
        ensures
            r.ws_host@ == "127.0.0.1"@,
            r.ws_port == 45890,
            r.ws_path@ == "/ws"@,
            r.ws_token@ == "troque-este-token"@,
            strings_of(r.allowed_origins@) == seq!["http://localhost:3000"@, "https://seu-dominio.com"@],
            r.cert_override.mode@ == "auto"@,
            r.cert_override.thumbprint is None,
            r.cert_override.index is None,
            r.startup_with_os_login,
    {
        let mut origins: Vec<String> = Vec::new();
        origins.push(String::from_str("http://localhost:3000"));
        origins.push(String::from_str("https://seu-dominio.com"));
        assert(strings_of(origins@) == seq!["http://localhost:3000"@, "https://seu-dominio.com"@]);
        AppConfig {
            ws_host: String::from_str("127.0.0.1"),
            ws_port: 45890,
            ws_path: String::from_str("/ws"),
            ws_token: String::from_str("troque-este-token"),
            allowed_origins: origins,
            cert_override: CertOverride::default(),
            startup_with_os_login: true,
        }
    }
}

/// The WebSocket path, trimmed and starting with `/`.
pub open spec fn normalized_path_seq(path: Seq<char>) -> Seq<char> {
    let t = trim_seq(path);
    if t.len() > 0 && t[0] == '/' {
        t
    } else {
        seq!['/'] + t
    }
}

/// The allowed origins, trimmed and lower-cased, without the empty ones.
pub open spec fn normalized_origins_seq(origins: Seq<Seq<char>>) -> Seq<Seq<char>>
    decreases origins.len(),
{
    if origins.len() == 0 {
        Seq::empty()
    } else {
        let rest = normalized_origins_seq(origins.drop_last());
        let o = lower_seq(trim_seq(origins.last()));
        if o.len() == 0 {
            rest
        } else {
            rest.push(o)
        }
    }
}

pub open spec fn endpoint_seq(c: AppConfig) -> Seq<char> {
    "ws://"@ + c.ws_host@ + ":"@ + decimal_seq(c.ws_port as nat) + c.ws_path@
}

impl AppConfig {
    /// The WebSocket URL, `ws://host:port/path`.
    pub fn endpoint(&self) -> (r: String)
        ensures
            r@ == endpoint_seq(*self),
    {
        let mut r = String::from_str("ws://");
        push_all(&mut r, self.ws_host.as_str());
        push_all(&mut r, ":");
        let port = decimal(self.ws_port as u64);
        push_all(&mut r, port.as_str());
        push_all(&mut r, self.ws_path.as_str());
        r
    }

    /// The WebSocket path, trimmed and starting with `/`.
    pub fn normalized_ws_path(&self) -> (r: String)
        ensures
            r@ == normalized_path_seq(self.ws_path@),
    {
        let trimmed = trim(self.ws_path.as_str());
        if trimmed.unicode_len() > 0 && trimmed.as_str().get_char(0) == '/' {
            trimmed
        } else {
            let mut r = String::new();
            push_char(&mut r, '/');
            push_all(&mut r, trimmed.as_str());
            r
        }
    }

    /// The allowed origins, trimmed and lower-cased, without the empty ones.
    pub fn normalized_allowed_origins(&self) -> (r: Vec<String>)
        ensures
            strings_of(r@) == normalized_origins_seq(strings_of(self.allowed_origins@)),
    {
        let mut r: Vec<String> = Vec::new();
        let mut i: usize = 0;
        while i < self.allowed_origins.len()
            invariant
                i <= self.allowed_origins.len(),
                strings_of(r@) == normalized_origins_seq(
                    strings_of(self.allowed_origins@).take(i as int),
                ),
            decreases self.allowed_origins.len() - i,
        {
            let t = trim(self.allowed_origins[i].as_str());
            let o = to_ascii_lowercase(t.as_str());
            let ghost prefix = strings_of(self.allowed_origins@).take(i + 1);
            assert(prefix.drop_last() == strings_of(self.allowed_origins@).take(i as int));
            assert(prefix.last() == self.allowed_origins@[i as int]@);
            if o.unicode_len() != 0 {
                let ghost before = r@;
                r.push(o);
                assert(strings_of(r@) == strings_of(before).push(o@));
            }
            i = i + 1;
        }
        assert(strings_of(self.allowed_origins@).take(i as int) == strings_of(
            self.allowed_origins@,
        ));
        r
    }
}

/// A configuration value that is not accepted.
#[derive(Debug)]
pub enum ConfigError {
    EmptyHost,
    InvalidPort { port: u16 },
    EmptyToken,
    RootPath,
    InvalidMode { mode: String },
    ZeroIndex,
}

pub open spec fn config_error_message(e: ConfigError) -> Seq<char> {
    match e {
        ConfigError::EmptyHost => "ws_host nao pode ser vazio"@,
        ConfigError::InvalidPort { port } => "ws_port invalido: "@ + decimal_seq(port as nat),
        ConfigError::EmptyToken => "ws_token nao pode ser vazio"@,
        ConfigError::RootPath => "ws_path deve conter um path especifico (ex.: /ws)"@,
        ConfigError::InvalidMode { mode } => "cert_override.mode invalido: '"@ + mode@
            + "'. Valores aceitos: auto, token_only"@,
        ConfigError::ZeroIndex => "cert_override.index deve ser >= 1"@,
    }
}

impl ConfigError {
    /// The message shown to the user.
    pub fn message(&self) -> (r: String)
        ensures
            r@ == config_error_message(*self),
    {
        match self {
            ConfigError::EmptyHost => String::from_str("ws_host nao pode ser vazio"),
            ConfigError::InvalidPort { port } => {
                let mut m = String::from_str("ws_port invalido: ");
                let d = decimal(*port as u64);
                push_all(&mut m, d.as_str());
                m
            },
            ConfigError::EmptyToken => String::from_str("ws_token nao pode ser vazio"),
            ConfigError::RootPath => String::from_str(
                "ws_path deve conter um path especifico (ex.: /ws)",
            ),
            ConfigError::InvalidMode { mode } => {
                let mut m = String::from_str("cert_override.mode invalido: '");
                push_all(&mut m, mode.as_str());
                push_all(&mut m, "'. Valores aceitos: auto, token_only");
                m
            },
            ConfigError::ZeroIndex => String::from_str("cert_override.index deve ser >= 1"),
        }
    }
}

/// The text fields after trimming: host, path and token trimmed (the path
/// also starting with `/`), the certificate mode trimmed and lower-cased.
pub open spec fn trimmed_fields(old: AppConfig, new: AppConfig) -> bool {
    &&& new.ws_host@ == trim_seq(old.ws_host@)
    &&& new.ws_path@ == normalized_path_seq(old.ws_path@)
    &&& new.ws_token@ == trim_seq(old.ws_token@)
    &&& new.ws_port == old.ws_port
    &&& new.allowed_origins == old.allowed_origins
    &&& new.startup_with_os_login == old.startup_with_os_login
    &&& new.cert_override.thumbprint == old.cert_override.thumbprint
    &&& new.cert_override.index == old.cert_override.index
}

/// The certificate mode after normalisation: trimmed, lower-cased, and
/// `auto` when that leaves it empty.
pub open spec fn normalized_mode_seq(mode: Seq<char>) -> Seq<char> {
    let m = lower_seq(trim_seq(mode));
    if m.len() == 0 {
        "auto"@
    } else {
        m
    }
}

/// The checks that `normalize_and_validate` makes, on the configuration
/// as it was before.
pub open spec fn normalization_accepts(c: AppConfig) -> bool {
    let mode = normalized_mode_seq(c.cert_override.mode@);
    &&& trim_seq(c.ws_host@).len() > 0
    &&& c.ws_port != 0
    &&& trim_seq(c.ws_token@).len() > 0
    &&& normalized_path_seq(c.ws_path@) != "/"@
    &&& (mode == "auto"@ || mode == "token_only"@)
    &&& c.cert_override.index != Some(0usize)
}

/// `after` is `before` normalised.
pub open spec fn normalized_from(before: AppConfig, after: AppConfig) -> bool {
    &&& trimmed_fields(before, after)
    &&& after.cert_override.mode@ == normalized_mode_seq(before.cert_override.mode@)
}

/// Normalises the configuration in place and checks it.
///
/// Host, path and token are trimmed, the path made to start with `/`, the
/// certificate mode trimmed and lower-cased. Then, in order: an empty host,
/// port 0, an empty token and the path `/` are refused; an empty mode becomes
/// `auto`; a mode other than `auto` or `token_only` is refused, and so is
/// `cert_override.index` 0. A refused configuration keeps the changes made
/// before the check that refused it.
pub fn normalize_and_validate(config: &mut AppConfig) -> (r: Result<(), ConfigError>)
    ensures
        trimmed_fields(*old(config), *final(config)),
        r is Ok <==> normalization_accepts(*old(config)),
        r is Ok ==> normalized_from(*old(config), *final(config)),
        ({
            let host = trim_seq(old(config).ws_host@);
            let token = trim_seq(old(config).ws_token@);
            let path = normalized_path_seq(old(config).ws_path@);
            let lowered = lower_seq(trim_seq(old(config).cert_override.mode@));
            let mode = normalized_mode_seq(old(config).cert_override.mode@);
            if host.len() == 0 {
                r matches Err(ConfigError::EmptyHost) && final(config).cert_override.mode@ == lowered
            } else if old(config).ws_port == 0 {
                r matches Err(ConfigError::InvalidPort { port }) && port == 0
                    && final(config).cert_override.mode@ == lowered
            } else if token.len() == 0 {
                r matches Err(ConfigError::EmptyToken) && final(config).cert_override.mode@ == lowered
            } else if path == "/"@ {
                r matches Err(ConfigError::RootPath) && final(config).cert_override.mode@ == lowered
            } else if mode != "auto"@ && mode != "token_only"@ {
                r matches Err(ConfigError::InvalidMode { mode: m }) && m@ == mode
                    && final(config).cert_override.mode@ == mode
            } else if old(config).cert_override.index == Some(0usize) {
                r matches Err(ConfigError::ZeroIndex) && final(config).cert_override.mode@ == mode
            } else {
                r is Ok && final(config).cert_override.mode@ == mode
            }
        }),
{
    config.ws_host = trim(config.ws_host.as_str());
    config.ws_path = config.normalized_ws_path();
    config.ws_token = trim(config.ws_token.as_str());
    let trimmed_mode = trim(config.cert_override.mode.as_str());
    config.cert_override.mode = to_ascii_lowercase(trimmed_mode.as_str());

    if config.ws_host.unicode_len() == 0 {
        return Err(ConfigError::EmptyHost);
    }
    if config.ws_port == 0 {
        return Err(ConfigError::InvalidPort { port: config.ws_port });
    }
    if config.ws_token.unicode_len() == 0 {
        return Err(ConfigError::EmptyToken);
    }
    if equals(config.ws_path.as_str(), "/") {
        return Err(ConfigError::RootPath);
    }
    if config.cert_override.mode.unicode_len() == 0 {
        config.cert_override.mode = String::from_str("auto");
    }
    if !equals(config.cert_override.mode.as_str(), "auto") && !equals(
        config.cert_override.mode.as_str(),
        "token_only",
    ) {
        return Err(ConfigError::InvalidMode { mode: config.cert_override.mode.clone() });
    }
    if let Some(index) = config.cert_override.index {
        if index == 0 {
            return Err(ConfigError::ZeroIndex);
        }
    }
    Ok(())
}

/// Normalising a WebSocket path twice gives the path normalised once: the
/// result starts with `/` and is already trimmed.
pub proof fn path_normalization_is_idempotent(path: Seq<char>)
    ensures
        normalized_path_seq(path).len() > 0 && normalized_path_seq(path)[0] == '/',
        normalized_path_seq(normalized_path_seq(path)) == normalized_path_seq(path),
{
    let t = trim_seq(path);
    lemma_trim_idempotent(path);
    let p = normalized_path_seq(path);
    if !(t.len() > 0 && t[0] == '/') {
        assert(p[0] == '/');
        if t.len() > 0 {
            assert(p.last() == t.last());
        }
        lemma_trimmed_fixed(p);
    }
}

proof fn lemma_mode_fixed(mode: Seq<char>)
    requires
        normalized_mode_seq(mode) == "auto"@ || normalized_mode_seq(mode) == "token_only"@,
    ensures
        normalized_mode_seq(normalized_mode_seq(mode)) == normalized_mode_seq(mode),
{
    reveal_strlit("auto");
    reveal_strlit("token_only");
    let m = normalized_mode_seq(mode);
    lemma_trimmed_fixed(m);
    assert(lower_seq(m) =~= m);
}

/// Normalising is idempotent: a configuration that was accepted comes out
/// as one that is accepted again and that a second normalisation leaves
/// as it is.
pub proof fn normalization_is_idempotent(before: AppConfig, after: AppConfig)
    requires
        normalization_accepts(before),
        normalized_from(before, after),
    ensures
        normalization_accepts(after),
        normalized_from(after, after),
{
    lemma_trim_idempotent(before.ws_host@);
    lemma_trim_idempotent(before.ws_token@);
    path_normalization_is_idempotent(before.ws_path@);
    lemma_mode_fixed(before.cert_override.mode@);
}

} // verus!
