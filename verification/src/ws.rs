//! The decisions of the local WebSocket server: which origins may connect,
//! how signing requests are checked and decoded, and how outcomes are
//! reported to the client.
use base64::Engine;
use vstd::prelude::*;
use vstd::utf8::encode_utf8;
use crate::application::{AppServiceError, service_error_message};
use crate::contracts::{BatchFileResult, CertSelectionRequest};
use crate::text::{chars_of, decimal, decimal_seq, lower_seq, push_all, to_ascii_lowercase, trim, trim_seq};

verus! {

/// Largest accepted `pdf_base64` text, in bytes.
pub const MAX_BASE64_SIZE: usize = 20 * 1024 * 1024;

/// Largest accepted WebSocket message, in bytes.
pub const MAX_MESSAGE_SIZE: usize = 22 * 1024 * 1024;

/// Seconds a client has to authenticate.
pub const AUTH_TIMEOUT_SECS: u64 = 3;

/// Seconds a signing request may take.
pub const SIGN_TIMEOUT_SECS: u64 = 120;

/// The error codes of the protocol.
#[derive(Clone, Copy, PartialEq, Eq, Debug, Structural)]
pub enum ErrorCode {
    AuthRequired,
    AuthFailed,
    OriginNotAllowed,
    InvalidRequest,
    SigningFailed,
    Busy,
    SigningBackendUnavailable,
}

pub open spec fn error_code_text(c: ErrorCode) -> Seq<char> {
    match c {
        ErrorCode::AuthRequired => "AUTH_REQUIRED"@,
        ErrorCode::AuthFailed => "AUTH_FAILED"@,
        ErrorCode::OriginNotAllowed => "ORIGIN_NOT_ALLOWED"@,
        ErrorCode::InvalidRequest => "INVALID_REQUEST"@,
        ErrorCode::SigningFailed => "SIGNING_FAILED"@,
        ErrorCode::Busy => "BUSY"@,
        ErrorCode::SigningBackendUnavailable => "SIGNING_BACKEND_UNAVAILABLE"@,
    }
}

impl ErrorCode {
    /// The code as sent to clients.
    pub fn as_str(&self) -> (r: &'static str)
        ensures
            r@ == error_code_text(*self),
    {
        match self {
            ErrorCode::AuthRequired => "AUTH_REQUIRED",
            ErrorCode::AuthFailed => "AUTH_FAILED",
            ErrorCode::OriginNotAllowed => "ORIGIN_NOT_ALLOWED",
            ErrorCode::InvalidRequest => "INVALID_REQUEST",
            ErrorCode::SigningFailed => "SIGNING_FAILED",
            ErrorCode::Busy => "BUSY",
            ErrorCode::SigningBackendUnavailable => "SIGNING_BACKEND_UNAVAILABLE",
        }
    }
}

/// A failed WebSocket action.
#[derive(Debug)]
pub enum WsActionError {
    /// Another signature is in progress.
    Busy,
    Invalid(String),
    Signing(String),
    BackendUnavailable(String),
}

/// Carries a service error over to the WebSocket action, message unchanged.
pub fn map_service_error(err: AppServiceError) -> (r: WsActionError)
    ensures
        (err is Invalid) == (r is Invalid),
        (err is Signing) == (r is Signing),
        (err is BackendUnavailable) == (r is BackendUnavailable),
        r matches WsActionError::Invalid(m) ==> m@ == service_error_message(err),
        r matches WsActionError::Signing(m) ==> m@ == service_error_message(err),
        r matches WsActionError::BackendUnavailable(m) ==> m@ == service_error_message(err),
{
    match err {
        AppServiceError::Invalid(msg) => WsActionError::Invalid(msg),
        AppServiceError::Signing(msg) => WsActionError::Signing(msg),
        AppServiceError::BackendUnavailable(msg) => WsActionError::BackendUnavailable(msg),
    }
}

/// The error reply to a failed signing action.
pub open spec fn action_error_reply_spec(err: WsActionError) -> (ErrorCode, Seq<char>) {
    match err {
        WsActionError::Busy => (ErrorCode::Busy, "Ja existe assinatura em andamento"@),
        WsActionError::Invalid(m) => (ErrorCode::InvalidRequest, m@),
        WsActionError::Signing(m) => (ErrorCode::SigningFailed, m@),
        WsActionError::BackendUnavailable(m) => (ErrorCode::SigningBackendUnavailable, m@),
    }
}

/// The code and message sent for a failed signing action.
pub fn action_error_reply(err: &WsActionError) -> (r: (ErrorCode, String))
    ensures
        (r.0, r.1@) == action_error_reply_spec(*err),
{
    match err {
        WsActionError::Busy => (ErrorCode::Busy, String::from_str("Ja existe assinatura em andamento")),
        WsActionError::Invalid(m) => (ErrorCode::InvalidRequest, m.clone()),
        WsActionError::Signing(m) => (ErrorCode::SigningFailed, m.clone()),
        WsActionError::BackendUnavailable(m) => (ErrorCode::SigningBackendUnavailable, m.clone()),
    }
}

/// The code and message sent when listing the certificates failed.
pub fn list_error_reply(err: &AppServiceError) -> (r: (ErrorCode, String))
    ensures
        r.1@ == service_error_message(*err),
        r.0 == (if err is BackendUnavailable {
            ErrorCode::SigningBackendUnavailable
        } else {
            ErrorCode::SigningFailed
        }),
{
    match err {
        AppServiceError::BackendUnavailable(m) => (ErrorCode::SigningBackendUnavailable, m.clone()),
        AppServiceError::Invalid(m) => (ErrorCode::SigningFailed, m.clone()),
        AppServiceError::Signing(m) => (ErrorCode::SigningFailed, m.clone()),
    }
}

/// What checking a request's certificate choice gives.
pub open spec fn cert_selection_checked(
    cert_thumbprint: Option<Seq<char>>,
    cert_index: Option<usize>,
    r: Result<Option<CertSelectionRequest>, WsActionError>,
) -> bool {
    if cert_index == Some(0usize) {
        r matches Err(WsActionError::Invalid(m)) && m@
            == "cert_index invalido: valores aceitos comecam em 1"@
    } else if cert_thumbprint is Some && trim_seq(cert_thumbprint->0).len() == 0 {
        r matches Err(WsActionError::Invalid(m)) && m@ == "cert_thumbprint invalido: nao pode ser vazio"@
    } else if cert_thumbprint is None && cert_index is None {
        r matches Ok(None)
    } else {
        &&& r matches Ok(Some(sel))
        &&& sel.index == cert_index
        &&& match cert_thumbprint {
            Some(raw) => sel.thumbprint matches Some(t) && t@ == trim_seq(raw),
            None => sel.thumbprint is None,
        }
    }
}

pub open spec fn opt_view(o: Option<&str>) -> Option<Seq<char>> {
    match o {
        Some(s) => Some(s@),
        None => None,
    }
}

/// Checks the certificate chosen by a request: an index must be at least 1
/// and a thumbprint, trimmed, must not be empty. No choice at all is `None`.
pub fn parse_cert_selection(cert_thumbprint: Option<&str>, cert_index: Option<usize>) -> (r: Result<
    Option<CertSelectionRequest>,
    WsActionError,
>)
    ensures
        cert_selection_checked(opt_view(cert_thumbprint), cert_index, r),
{
    if let Some(index) = cert_index {
        if index == 0 {
            return Err(
                WsActionError::Invalid(
                    String::from_str("cert_index invalido: valores aceitos comecam em 1"),
                ),
            );
        }
    }
    let thumbprint = match cert_thumbprint {
        Some(raw) => {
            let trimmed = trim(raw);
            if trimmed.unicode_len() == 0 {
                return Err(
                    WsActionError::Invalid(
                        String::from_str("cert_thumbprint invalido: nao pode ser vazio"),
                    ),
                );
            }
            Some(trimmed)
        },
        None => None,
    };
    if thumbprint.is_none() && cert_index.is_none() {
        return Ok(None);
    }
    Ok(Some(CertSelectionRequest { thumbprint, index: cert_index }))
}

/// An origin, trimmed and lower-cased.
pub open spec fn normalized_origin(origin: Seq<char>) -> Seq<char> {
    lower_seq(trim_seq(origin))
}

pub open spec fn strings_view(v: Seq<String>) -> Seq<Seq<char>> {
    v.map_values(|s: String| s@)
}

/// `origin`, normalised, is one of `allowed`, which is compared as given.
pub open spec fn origin_listed(origin: Seq<char>, allowed: Seq<Seq<char>>) -> bool {
    exists|i: int| 0 <= i < allowed.len() && #[trigger] allowed[i] == normalized_origin(origin)
}

fn position_of(s: &[String], x: &str) -> (r: bool)
    ensures
        r == (exists|i: int| 0 <= i < s@.len() && #[trigger] strings_view(s@)[i] == x@),
{
    let mut i: usize = 0;
    while i < s.len()
        invariant
            i <= s.len(),
            forall|j: int| 0 <= j < i ==> #[trigger] strings_view(s@)[j] != x@,
        decreases s.len() - i,
    {
        if crate::text::equals(s[i].as_str(), x) {
            assert(strings_view(s@)[i as int] == x@);
            return true;
        }
        i = i + 1;
    }
    false
}

/// Whether an origin, trimmed and lower-cased, is in the allowed list.
pub fn is_origin_allowed(origin: &str, allowed_origins: &[String]) -> (r: bool)
    ensures
        r == origin_listed(origin@, strings_view(allowed_origins@)),
{
    let trimmed = trim(origin);
    let normalized = to_ascii_lowercase(trimmed.as_str());
    position_of(allowed_origins, normalized.as_str())
}

/// Whether a WebSocket upgrade may proceed: an `Origin` header must be
/// present and, trimmed and lower-cased, be an allowed origin or one of the
/// local origins.
pub fn origin_accepted(origin: Option<&str>, allowed_origins: &[String], local_origins: &[String]) -> (r:
    bool)
    ensures
        r == (match origin {
            Some(o) => origin_listed(normalized_origin(o@), strings_view(allowed_origins@))
                || exists|j: int|
                0 <= j < local_origins@.len() && #[trigger] strings_view(local_origins@)[j]
                    == normalized_origin(o@),
            None => false,
        }),
{
    match origin {
        Some(o) => {
            let trimmed = trim(o);
            let normalized = to_ascii_lowercase(trimmed.as_str());
            is_origin_allowed(normalized.as_str(), allowed_origins) || position_of(
                local_origins,
                normalized.as_str(),
            )
        },
        None => false,
    }
}

/// Lexicographic order on characters.
pub open spec fn lex_lt(a: Seq<char>, b: Seq<char>) -> bool
    decreases a.len(),
{
    if a.len() == 0 {
        b.len() > 0
    } else if b.len() == 0 {
        false
    } else if (a[0] as int) < (b[0] as int) {
        true
    } else if (a[0] as int) > (b[0] as int) {
        false
    } else {
        lex_lt(a.drop_first(), b.drop_first())
    }
}

proof fn lemma_lex_lt_irreflexive(a: Seq<char>)
    ensures
        !lex_lt(a, a),
    decreases a.len(),
{
    if a.len() > 0 {
        lemma_lex_lt_irreflexive(a.drop_first());
    }
}

proof fn lemma_lex_lt_transitive(a: Seq<char>, b: Seq<char>, c: Seq<char>)
    requires
        lex_lt(a, b),
        lex_lt(b, c),
    ensures
        lex_lt(a, c),
    decreases a.len(),
{
    if a.len() > 0 && b.len() > 0 && c.len() > 0 && a[0] == b[0] && b[0] == c[0] {
        lemma_lex_lt_transitive(a.drop_first(), b.drop_first(), c.drop_first());
    } else if a.len() > 0 && b.len() > 0 && c.len() > 0 && a[0] == b[0] {
    } else {
    }
}

proof fn lemma_lex_lt_total(a: Seq<char>, b: Seq<char>)
    ensures
        a == b || lex_lt(a, b) || lex_lt(b, a),
    decreases a.len(),
{
    if a.len() > 0 && b.len() > 0 && a[0] == b[0] {
        lemma_lex_lt_total(a.drop_first(), b.drop_first());
        if a.drop_first() == b.drop_first() {
            assert(a =~= seq![a[0]] + a.drop_first());
            assert(b =~= seq![b[0]] + b.drop_first());
        }
    } else if a.len() == 0 && b.len() == 0 {
        assert(a == b);
    }
}

fn lex_less(a: &[char], b: &[char]) -> (r: bool)
    ensures
        r == lex_lt(a@, b@),
{
    let mut i: usize = 0;
    assert(a@.subrange(0, a@.len() as int) == a@);
    assert(b@.subrange(0, b@.len() as int) == b@);
    while i < a.len() && i < b.len() && a[i] == b[i]
        invariant
            i <= a.len(),
            i <= b.len(),
            lex_lt(a@, b@) == lex_lt(a@.subrange(i as int, a@.len() as int), b@.subrange(
                i as int,
                b@.len() as int,
            )),
        decreases a.len() - i,
    {
        let ghost sa = a@.subrange(i as int, a@.len() as int);
        let ghost sb = b@.subrange(i as int, b@.len() as int);
        assert(sa.drop_first() == a@.subrange(i + 1, a@.len() as int));
        assert(sb.drop_first() == b@.subrange(i + 1, b@.len() as int));
        i = i + 1;
    }
    let ghost sa = a@.subrange(i as int, a@.len() as int);
    let ghost sb = b@.subrange(i as int, b@.len() as int);
    if i == a.len() {
        i < b.len()
    } else if i == b.len() {
        false
    } else {
        assert(sa[0] == a@[i as int] && sb[0] == b@[i as int]);
        a[i] < b[i]
    }
}

/// A strictly increasing list of strings.
pub open spec fn strictly_sorted(v: Seq<Seq<char>>) -> bool {
    forall|i: int, j: int| #![trigger v[i], v[j]] 0 <= i < j < v.len() ==> lex_lt(v[i], v[j])
}

/// Inserts `x` into a strictly sorted list unless it is already there.
fn insert_sorted_unique(v: &mut Vec<String>, x: String)
    requires
        strictly_sorted(strings_view(old(v)@)),
    ensures
        strictly_sorted(strings_view(final(v)@)),
        strings_view(final(v)@).to_set() == strings_view(old(v)@).to_set().insert(x@),
{
    let xs = chars_of(x.as_str());
    let mut p: usize = 0;
    let ghost sv = strings_view(v@);
    while p < v.len() && lex_less(chars_of(v[p].as_str()).as_slice(), xs.as_slice())
        invariant
            p <= v.len(),
            sv == strings_view(v@),
            xs@ == x@,
            forall|j: int| 0 <= j < p ==> lex_lt(#[trigger] sv[j], x@),
        decreases v.len() - p,
    {
        p = p + 1;
    }
    if p < v.len() && crate::text::equals(v[p].as_str(), x.as_str()) {
        assert(sv.to_set().insert(x@) =~= sv.to_set()) by {
            assert(sv.contains(x@)) by {
                assert(sv[p as int] == x@);
            }
        }
        return;
    }
    proof {
        if p < v.len() {
            lemma_lex_lt_total(sv[p as int], x@);
            assert forall|j: int| p <= j < sv.len() implies lex_lt(x@, #[trigger] sv[j]) by {
                if j > p {
                    assert(lex_lt(sv[p as int], sv[j]));
                    lemma_lex_lt_transitive(x@, sv[p as int], sv[j]);
                }
            }
        }
    }
    v.insert(p, x);
    proof {
        let nv = strings_view(v@);
        assert(nv =~= sv.insert(p as int, x@));
        assert forall|i: int, j: int| 0 <= i < j < nv.len() implies lex_lt(
            #[trigger] nv[i],
            #[trigger] nv[j],
        ) by {
            if i < p && j < p {
                assert(nv[i] == sv[i] && nv[j] == sv[j]);
            } else if i < p && j == p {
            } else if i < p && j > p {
                assert(nv[i] == sv[i] && nv[j] == sv[j - 1]);
                assert(lex_lt(sv[i], x@));
                lemma_lex_lt_transitive(sv[i], x@, sv[j - 1]);
            } else if i == p {
                assert(nv[j] == sv[j - 1]);
            } else {
                assert(nv[i] == sv[i - 1] && nv[j] == sv[j - 1]);
            }
        }
        assert(nv.to_set() =~= sv.to_set().insert(x@)) by {
            assert forall|e: Seq<char>| nv.to_set().contains(e) <==> sv.to_set().insert(x@).contains(
                e,
            ) by {
                if nv.contains(e) {
                    let k = choose|k: int| 0 <= k < nv.len() && nv[k] == e;
                    if k < p {
                        assert(sv[k] == e);
                    } else if k > p {
                        assert(sv[k - 1] == e);
                    }
                }
                if sv.contains(e) {
                    let k = choose|k: int| 0 <= k < sv.len() && sv[k] == e;
                    if k < p {
                        assert(nv[k] == e);
                    } else {
                        assert(nv[k + 1] == e);
                    }
                }
                if e == x@ {
                    assert(nv[p as int] == e);
                }
            }
        }
    }
}

/// `http://` + the host + `:` + the port, lower-cased.
pub open spec fn local_origin(host: Seq<char>, port: u16) -> Seq<char> {
    lower_seq("http://"@ + host + ":"@ + decimal_seq(port as nat))
}

fn make_origin(host: &str, port: u16) -> (r: String)
    ensures
        r@ == local_origin(host@, port),
{
    let mut s = String::from_str("http://");
    push_all(&mut s, host);
    push_all(&mut s, ":");
    let p = decimal(port as u64);
    push_all(&mut s, p.as_str());
    to_ascii_lowercase(s.as_str())
}

/// The origins of the local playground page: the configured host,
/// `localhost` and `127.0.0.1` on the server's port, lower-cased, sorted and
/// without repetitions.
pub fn default_local_origins(host: &str, port: u16) -> (r: Vec<String>)
    ensures
        strictly_sorted(strings_view(r@)),
        strings_view(r@).to_set() == set![
            local_origin(host@, port),
            local_origin("localhost"@, port),
            local_origin("127.0.0.1"@, port),
        ],
{
    let mut values: Vec<String> = Vec::new();
    assert(strings_view(values@) =~= Seq::empty());
    insert_sorted_unique(&mut values, make_origin(host, port));
    insert_sorted_unique(&mut values, make_origin("localhost", port));
    insert_sorted_unique(&mut values, make_origin("127.0.0.1", port));
    assert(strings_view(values@).to_set() =~= set![
        local_origin(host@, port),
        local_origin("localhost"@, port),
        local_origin("127.0.0.1"@, port),
    ]);
    values
}

/// What the standard base64 engine of the `base64` crate decodes `text`
/// into; `None` when it refuses the text.
pub uninterp spec fn base64_standard_decode(text: Seq<char>) -> Option<Seq<u8>>;

/// What the standard base64 engine of the `base64` crate encodes `bytes` into.
pub uninterp spec fn base64_standard_encode(bytes: Seq<u8>) -> Seq<char>;

/// `base64::engine::general_purpose::STANDARD.decode`: the decoded bytes,
/// or `None` where the engine reports an error.
#[verifier::external_body]
fn decode_base64(text: &str) -> (r: Option<Vec<u8>>)
    ensures
        match base64_standard_decode(text@) {
            Some(b) => r matches Some(v) && v@ == b,
            None => r is None,
        },
{
    base64::engine::general_purpose::STANDARD.decode(text.as_bytes()).ok()
}

/// `base64::engine::general_purpose::STANDARD.encode`.
#[verifier::external_body]
fn encode_base64(bytes: &[u8]) -> (r: String)
    ensures
        r@ == base64_standard_encode(bytes@),
{
    base64::engine::general_purpose::STANDARD.encode(bytes)
}

/// A `sign_pdf` request, decoded and checked.
pub struct PreparedSignPdf {
    pub pdf_bytes: Vec<u8>,
    pub cert_selection: Option<CertSelectionRequest>,
}

/// The `pdf_base64` text is longer, in UTF-8 bytes (`str::len`), than accepted.
pub open spec fn base64_too_long(text: Seq<char>) -> bool {
    encode_utf8(text).len() > MAX_BASE64_SIZE
}

/// Checks the fields of a `sign_pdf` request, in order: the size of
/// `pdf_base64`, its decoding, then the certificate choice.
pub fn prepare_sign_pdf(pdf_base64: &str, cert_thumbprint: Option<&str>, cert_index: Option<usize>) -> (r:
    Result<PreparedSignPdf, WsActionError>)
    ensures
        ({
            if base64_too_long(pdf_base64@) {
                r matches Err(WsActionError::Invalid(m)) && m@ == "pdf_base64 excede limite de "@
                    + decimal_seq(MAX_BASE64_SIZE as nat) + " bytes"@
            } else if base64_standard_decode(pdf_base64@) is None {
                r matches Err(WsActionError::Invalid(m)) && m@ == "pdf_base64 invalido"@
            } else {
                let sel: Result<Option<CertSelectionRequest>, WsActionError> = match r {
                    Ok(p) => Ok(p.cert_selection),
                    Err(e) => Err(e),
                };
                &&& cert_selection_checked(opt_view(cert_thumbprint), cert_index, sel)
                &&& r matches Ok(p) ==> p.pdf_bytes@ == base64_standard_decode(pdf_base64@)->0
            }
        }),
{
    if pdf_base64.as_bytes().len() > MAX_BASE64_SIZE {
        let mut m = String::from_str("pdf_base64 excede limite de ");
        let d = decimal(MAX_BASE64_SIZE as u64);
        push_all(&mut m, d.as_str());
        push_all(&mut m, " bytes");
        return Err(WsActionError::Invalid(m));
    }
    let pdf_bytes = match decode_base64(pdf_base64) {
        Some(b) => b,
        None => {
            return Err(WsActionError::Invalid(String::from_str("pdf_base64 invalido")));
        },
    };
    match parse_cert_selection(cert_thumbprint, cert_index) {
        Ok(cert_selection) => Ok(PreparedSignPdf { pdf_bytes, cert_selection }),
        Err(e) => Err(e),
    }
}

/// One file of a `sign_pdfs` request, as received.
pub struct SignFileEntry {
    pub filename: Option<String>,
    pub pdf_base64: String,
}

/// One file of a `sign_pdfs` request, decoded.
pub struct PreparedFile {
    pub filename: String,
    pub pdf_bytes: Vec<u8>,
}

/// The name used for a file in messages: its name, or `?` when it has none.
pub open spec fn shown_name(e: SignFileEntry) -> Seq<char> {
    match e.filename {
        Some(n) => n@,
        None => "?"@,
    }
}

/// The entry is refused, for its size or its encoding.
pub open spec fn entry_refused(e: SignFileEntry) -> bool {
    base64_too_long(e.pdf_base64@) || base64_standard_decode(e.pdf_base64@) is None
}

/// The message for a refused entry.
pub open spec fn entry_error_message(e: SignFileEntry) -> Seq<char> {
    if base64_too_long(e.pdf_base64@) {
        "pdf_base64 do arquivo '"@ + shown_name(e) + "' excede limite de "@ + decimal_seq(
            MAX_BASE64_SIZE as nat,
        ) + " bytes"@
    } else {
        "pdf_base64 invalido no arquivo '"@ + shown_name(e) + "'"@
    }
}

/// The file as it is signed: its name (empty when it has none) and its
/// decoded bytes.
pub open spec fn prepared_matches(e: SignFileEntry, p: PreparedFile) -> bool {
    &&& p.filename@ == match e.filename {
        Some(n) => n@,
        None => Seq::<char>::empty(),
    }
    &&& p.pdf_bytes@ == base64_standard_decode(e.pdf_base64@)->0
}

/// A checked `sign_pdfs` request.
pub struct PreparedBatch {
    pub files: Vec<PreparedFile>,
    pub cert_selection: Option<CertSelectionRequest>,
}

/// The certificate choice of a request is refused.
pub open spec fn selection_refused(cert_thumbprint: Option<Seq<char>>, cert_index: Option<usize>) -> bool {
    cert_index == Some(0usize) || (cert_thumbprint is Some && trim_seq(cert_thumbprint->0).len() == 0)
}

/// What checking a `sign_pdfs` request gives: an empty list is refused,
/// then the certificate choice is checked, then every file in order; the
/// first refused file is reported.
pub open spec fn batch_checked(
    files: Seq<SignFileEntry>,
    cert_thumbprint: Option<Seq<char>>,
    cert_index: Option<usize>,
    r: Result<PreparedBatch, WsActionError>,
) -> bool {
    let sel: Result<Option<CertSelectionRequest>, WsActionError> = match r {
        Ok(b) => Ok(b.cert_selection),
        Err(e) => Err(e),
    };
    if files.len() == 0 {
        r matches Err(WsActionError::Invalid(m)) && m@ == "Lista de arquivos vazia"@
    } else if selection_refused(cert_thumbprint, cert_index) {
        cert_selection_checked(cert_thumbprint, cert_index, sel)
    } else if exists|k: int| 0 <= k < files.len() && entry_refused(#[trigger] files[k]) {
        exists|k: int|
            0 <= k < files.len() && entry_refused(#[trigger] files[k]) && (forall|q: int|
                0 <= q < k ==> !entry_refused(#[trigger] files[q])) && (r matches Err(
                WsActionError::Invalid(m),
            ) && m@ == entry_error_message(files[k]))
    } else {
        &&& cert_selection_checked(cert_thumbprint, cert_index, sel)
        &&& r matches Ok(b)
        &&& b.files@.len() == files.len()
        &&& forall|k: int| 0 <= k < files.len() ==> prepared_matches(files[k], #[trigger] b.files@[k])
    }
}

fn refused_entry_message(e: &SignFileEntry) -> (r: String)
    requires
        entry_refused(*e),
    ensures
        r@ == entry_error_message(*e),
{
    let name = match &e.filename {
        Some(n) => n.clone(),
        None => String::from_str("?"),
    };
    if e.pdf_base64.as_str().as_bytes().len() > MAX_BASE64_SIZE {
        let mut m = String::from_str("pdf_base64 do arquivo '");
        push_all(&mut m, name.as_str());
        push_all(&mut m, "' excede limite de ");
        let d = decimal(MAX_BASE64_SIZE as u64);
        push_all(&mut m, d.as_str());
        push_all(&mut m, " bytes");
        m
    } else {
        let mut m = String::from_str("pdf_base64 invalido no arquivo '");
        push_all(&mut m, name.as_str());
        push_all(&mut m, "'");
        m
    }
}

/// Checks a `sign_pdfs` request and decodes its files.
pub fn prepare_sign_pdfs(
    files: &[SignFileEntry],
    cert_thumbprint: Option<&str>,
    cert_index: Option<usize>,
) -> (r: Result<PreparedBatch, WsActionError>)
    ensures
        batch_checked(files@, opt_view(cert_thumbprint), cert_index, r),
{
    if files.len() == 0 {
        return Err(WsActionError::Invalid(String::from_str("Lista de arquivos vazia")));
    }
    let cert_selection = match parse_cert_selection(cert_thumbprint, cert_index) {
        Ok(s) => s,
        Err(e) => {
            return Err(e);
        },
    };
    let mut prepared: Vec<PreparedFile> = Vec::new();
    let mut k: usize = 0;
    while k < files.len()
        invariant
            k <= files.len(),
            files@.len() > 0,
            !selection_refused(opt_view(cert_thumbprint), cert_index),
            cert_selection_checked(opt_view(cert_thumbprint), cert_index, Ok(cert_selection)),
            prepared@.len() == k,
            forall|q: int| 0 <= q < k ==> !entry_refused(#[trigger] files@[q]),
            forall|q: int| 0 <= q < k ==> prepared_matches(files@[q], #[trigger] prepared@[q]),
        decreases files.len() - k,
    {
        let entry = &files[k];
        if entry.pdf_base64.as_str().as_bytes().len() > MAX_BASE64_SIZE {
            let m = refused_entry_message(entry);
            assert(entry_refused(files@[k as int]));
            return Err(WsActionError::Invalid(m));
        }
        let pdf_bytes = match decode_base64(entry.pdf_base64.as_str()) {
            Some(b) => b,
            None => {
                let m = refused_entry_message(entry);
                assert(entry_refused(files@[k as int]));
                return Err(WsActionError::Invalid(m));
            },
        };
        let filename = match &entry.filename {
            Some(n) => n.clone(),
            None => String::new(),
        };
        prepared.push(PreparedFile { filename, pdf_bytes });
        k = k + 1;
    }
    Ok(PreparedBatch { files: prepared, cert_selection })
}

/// How one file of a batch is reported to the client.
pub struct FileReport {
    pub filename: String,
    pub ok: bool,
    /// The signed PDF in base64, for a signed file.
    pub signed_pdf_base64: Option<String>,
    /// The error, for a file that was not signed.
    pub error: Option<String>,
}

pub open spec fn kept_pdf(f: BatchFileResult) -> Seq<u8> {
    match f.signed_pdf {
        Some(p) => p@,
        None => Seq::<u8>::empty(),
    }
}

pub open spec fn kept_error(f: BatchFileResult) -> Seq<char> {
    match f.error {
        Some(m) => m@,
        None => Seq::<char>::empty(),
    }
}

/// Reports one file of a batch: a signed file with its PDF in base64 (an
/// empty PDF when none was kept), a failed one with its error (empty when
/// none was kept).
pub fn file_report(f: &BatchFileResult) -> (r: FileReport)
    ensures
        r.filename@ == f.filename@,
        r.ok == f.ok,
        f.ok ==> (r.error is None && r.signed_pdf_base64 is Some && r.signed_pdf_base64->0@
            == base64_standard_encode(kept_pdf(*f))),
        !f.ok ==> (r.signed_pdf_base64 is None && r.error is Some && r.error->0@ == kept_error(*f)),
{
    if f.ok {
        let encoded = match &f.signed_pdf {
            Some(p) => encode_base64(p.as_slice()),
            None => {
                let empty: Vec<u8> = Vec::new();
                encode_base64(empty.as_slice())
            },
        };
        FileReport {
            filename: f.filename.clone(),
            ok: true,
            signed_pdf_base64: Some(encoded),
            error: None,
        }
    } else {
        let error = match &f.error {
            Some(m) => m.clone(),
            None => String::new(),
        };
        FileReport { filename: f.filename.clone(), ok: false, signed_pdf_base64: None, error: Some(error) }
    }
}

/// The signed PDF of a `sign_pdf` response, in base64.
pub fn signed_pdf_base64(signed_pdf: &[u8]) -> (r: String)
    ensures
        r@ == base64_standard_encode(signed_pdf@),
{
    encode_base64(signed_pdf)
}

} // verus!
