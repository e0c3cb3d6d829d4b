//! Choosing the signing certificate: an explicit index or thumbprint from
//! the configuration, an index from the environment, or the best-ranked
//! candidate of the automatic ranking.
use vstd::prelude::*;
use vstd::seq_lib::group_to_multiset_ensures;
use crate::certs::{
    OwnedCert, certificate_score, is_test_cert_spec, is_test_certificate, reasons_spec,
    score_spec, strings_view,
};
use crate::config::CertOverride;
use crate::contracts::CertSelectionRequest;
use crate::text::{
    chars_of, decimal, decimal_seq, equals, hex_digits, hex_digits_of, is_ascii_hex_digit, parse_unsigned,
    parse_unsigned_chars, push_all, to_ascii_uppercase, trim, trim_seq, upper_seq,
};

verus! {

broadcast use group_to_multiset_ensures;

/// A candidate certificate with its automatic-selection score.
pub struct RankedCert {
    pub index: usize,
    pub score: i32,
    pub reasons: Vec<String>,
}

/// Ranking order: higher score first, then lower index.
pub open spec fn ranks_before(s1: int, i1: int, s2: int, i2: int) -> bool {
    s1 > s2 || (s1 == s2 && i1 <= i2)
}

pub open spec fn ranked_entry_ok(certs: Seq<OwnedCert>, e: RankedCert) -> bool {
    &&& e.index < certs.len()
    &&& e.score == score_spec(certs[e.index as int])
    &&& strings_view(e.reasons@) == reasons_spec(certs[e.index as int])
}

pub open spec fn ranking_sorted(r: Seq<RankedCert>) -> bool {
    forall|i: int, j: int|
        #![trigger r[i], r[j]]
        0 <= i < j < r.len() ==> ranks_before(
            r[i].score as int,
            r[i].index as int,
            r[j].score as int,
            r[j].index as int,
        )
}

pub open spec fn ranking_indices(r: Seq<RankedCert>) -> Seq<usize> {
    r.map_values(|e: RankedCert| e.index)
}

proof fn lemma_insert_sorted(r: Seq<RankedCert>, p: int, e: RankedCert)
    requires
        ranking_sorted(r),
        0 <= p <= r.len(),
        forall|j: int|
            0 <= j < p ==> ranks_before(
                #[trigger] r[j].score as int,
                r[j].index as int,
                e.score as int,
                e.index as int,
            ),
        forall|j: int|
            p <= j < r.len() ==> ranks_before(
                e.score as int,
                e.index as int,
                #[trigger] r[j].score as int,
                r[j].index as int,
            ),
    ensures
        ranking_sorted(r.insert(p, e)),
{
    let s = r.insert(p, e);
    assert forall|i: int, j: int| 0 <= i < j < s.len() implies ranks_before(
        #[trigger] s[i].score as int,
        s[i].index as int,
        #[trigger] s[j].score as int,
        s[j].index as int,
    ) by {
        if i < p && j < p {
            assert(s[i] == r[i] && s[j] == r[j]);
        } else if i < p && j == p {
            assert(s[i] == r[i] && s[j] == e);
        } else if i < p && j > p {
            assert(s[i] == r[i] && s[j] == r[j - 1]);
        } else if i == p {
            assert(s[i] == e && s[j] == r[j - 1]);
        } else {
            assert(s[i] == r[i - 1] && s[j] == r[j - 1]);
        }
    }
}

/// Scores the candidates and sorts them, best first; equal scores keep
/// the lower certificate index first.
pub fn rank_certificates(certs: &[OwnedCert], candidate_indexes: &[usize]) -> (r: Vec<RankedCert>)
    requires
        forall|i: int| 0 <= i < candidate_indexes.len() ==> #[trigger] candidate_indexes[i] < certs.len(),
    ensures
        r.len() == candidate_indexes.len(),
        forall|i: int| 0 <= i < r.len() ==> ranked_entry_ok(certs@, #[trigger] r@[i]),
        ranking_sorted(r@),
        ranking_indices(r@).to_multiset() == candidate_indexes@.to_multiset(),
{
    let mut ranked: Vec<RankedCert> = Vec::new();
    let mut k: usize = 0;
    while k < candidate_indexes.len()
        invariant
            k <= candidate_indexes.len(),
            ranked.len() == k,
            forall|i: int| 0 <= i < candidate_indexes.len() ==> #[trigger] candidate_indexes[i] < certs.len(),
            forall|i: int| 0 <= i < ranked.len() ==> ranked_entry_ok(certs@, #[trigger] ranked@[i]),
            ranking_sorted(ranked@),
            ranking_indices(ranked@).to_multiset() == candidate_indexes@.take(k as int).to_multiset(),
        decreases candidate_indexes.len() - k,
    {
        let idx = candidate_indexes[k];
        let (score, reasons) = certificate_score(&certs[idx]);
        let entry = RankedCert { index: idx, score, reasons };
        let mut p: usize = 0;
        while p < ranked.len() && (ranked[p].score > score || (ranked[p].score == score
            && ranked[p].index <= idx))
            invariant
                p <= ranked.len(),
                forall|j: int|
                    0 <= j < p ==> ranks_before(
                        #[trigger] ranked@[j].score as int,
                        ranked@[j].index as int,
                        score as int,
                        idx as int,
                    ),
            decreases ranked.len() - p,
        {
            p = p + 1;
        }
        proof {
            assert forall|j: int| p <= j < ranked@.len() implies ranks_before(
                score as int,
                idx as int,
                #[trigger] ranked@[j].score as int,
                ranked@[j].index as int,
            ) by {
                assert(ranks_before(
                    ranked@[p as int].score as int,
                    ranked@[p as int].index as int,
                    ranked@[j].score as int,
                    ranked@[j].index as int,
                ));
            }
            lemma_insert_sorted(ranked@, p as int, entry);
            assert(ranking_indices(ranked@.insert(p as int, entry)) =~= ranking_indices(
                ranked@,
            ).insert(p as int, idx));
            assert(candidate_indexes@.take(k + 1) =~= candidate_indexes@.take(k as int).push(idx));
        }
        ranked.insert(p, entry);
        k = k + 1;
    }
    assert(candidate_indexes@.take(k as int) =~= candidate_indexes@);
    ranked
}

/// `raw` reduced to its hexadecimal digits, in upper case.
pub open spec fn normalized_thumbprint(raw: Seq<char>) -> Seq<char> {
    upper_seq(hex_digits_of(raw))
}

/// Reduces a thumbprint to its hexadecimal digits in upper case, so that
/// `"aa:bb cc"` and `"AABBCC"` name the same certificate.
pub fn normalize_thumbprint(raw: &str) -> (r: String)
    ensures
        r@ == normalized_thumbprint(raw@),
{
    let digits = hex_digits(raw);
    to_ascii_uppercase(digits.as_str())
}

proof fn lemma_hex_digits_of(s: Seq<char>)
    ensures
        forall|i: int| 0 <= i < hex_digits_of(s).len() ==> is_ascii_hex_digit(#[trigger] hex_digits_of(s)[i]),
        (forall|i: int| 0 <= i < s.len() ==> is_ascii_hex_digit(#[trigger] s[i])) ==> hex_digits_of(s) == s,
    decreases s.len(),
{
    if s.len() > 0 {
        lemma_hex_digits_of(s.drop_last());
        let prev = hex_digits_of(s.drop_last());
        let h = hex_digits_of(s);
        assert forall|i: int| 0 <= i < h.len() implies is_ascii_hex_digit(#[trigger] h[i]) by {
            if i < prev.len() {
                assert(h[i] == prev[i]);
            }
        }
        if forall|i: int| 0 <= i < s.len() ==> is_ascii_hex_digit(#[trigger] s[i]) {
            assert forall|i: int| 0 <= i < s.drop_last().len() implies is_ascii_hex_digit(
                #[trigger] s.drop_last()[i],
            ) by {
                assert(s.drop_last()[i] == s[i]);
            }
            assert(s.drop_last().push(s.last()) =~= s);
        }
    }
}

/// Normalising a thumbprint twice is normalising it once.
pub proof fn thumbprint_normalization_is_idempotent(raw: Seq<char>)
    ensures
        normalized_thumbprint(normalized_thumbprint(raw)) == normalized_thumbprint(raw),
{
    let h = hex_digits_of(raw);
    lemma_hex_digits_of(raw);
    let u = upper_seq(h);
    assert forall|i: int| 0 <= i < u.len() implies is_ascii_hex_digit(#[trigger] u[i]) by {
        assert(is_ascii_hex_digit(h[i]));
    }
    lemma_hex_digits_of(u);
    assert(upper_seq(u) =~= u);
}

/// Where a chosen certificate came from.
#[derive(Clone, Copy, PartialEq, Eq, Debug, Structural)]
pub enum SelectionSource {
    ConfigIndex,
    ConfigThumbprint,
    EnvIndex,
    AutoSingle,
    Auto,
}

impl SelectionSource {
    /// The label under which a selection is logged.
    pub fn label(&self) -> (r: &'static str)
        ensures
            r@ == source_label(*self),
    {
        match self {
            SelectionSource::ConfigIndex => "config.index",
            SelectionSource::ConfigThumbprint => "config.thumbprint",
            SelectionSource::EnvIndex => "env.ASSINADOR_CERT_INDEX",
            SelectionSource::AutoSingle => "auto.single",
            SelectionSource::Auto => "auto",
        }
    }
}

pub open spec fn source_label(s: SelectionSource) -> Seq<char> {
    match s {
        SelectionSource::ConfigIndex => "config.index"@,
        SelectionSource::ConfigThumbprint => "config.thumbprint"@,
        SelectionSource::EnvIndex => "env.ASSINADOR_CERT_INDEX"@,
        SelectionSource::AutoSingle => "auto.single"@,
        SelectionSource::Auto => "auto"@,
    }
}

/// Why no certificate could be chosen.
#[derive(Debug)]
pub enum CertSelectionError {
    /// The certificate store holds no certificate with a private key.
    NoCertificates,
    /// `cert_override.index` is outside `1..=available`.
    IndexOutOfRange { index: usize, available: usize },
    /// The index from the environment is not a number in `1..=available`.
    EnvIndexInvalid { raw: String, available: usize },
    /// `token_only` mode, but the chosen certificate is not on a hardware token.
    TokenRequired,
    /// `token_only` mode, but no candidate is on a hardware token.
    NoTokenCertificate,
    /// A mode other than `auto` and `token_only`.
    InvalidMode { mode: String },
}

pub open spec fn selection_error_message(e: CertSelectionError) -> Seq<char> {
    match e {
        CertSelectionError::NoCertificates => "Nenhum certificado com chave privada encontrado no repositorio 'Minhas'.\nVerifique se o driver do token A3 esta instalado e o dispositivo conectado."@,
        CertSelectionError::IndexOutOfRange { index, available } => "cert_override.index invalido: "@
            + decimal_seq(index as nat) + ". Valores aceitos: 1..="@ + decimal_seq(available as nat),
        CertSelectionError::EnvIndexInvalid { raw, available } => "ASSINADOR_CERT_INDEX invalido: '"@
            + raw@ + "'. Valores aceitos: 1..="@ + decimal_seq(available as nat) + "."@,
        CertSelectionError::TokenRequired => "cert_override.mode=token_only exige certificado de token/smart card. O certificado selecionado nao parece hardware token."@,
        CertSelectionError::NoTokenCertificate => "cert_override.mode=token_only exige certificado de token/smart card, mas nenhum foi encontrado no repositorio 'Minhas'."@,
        CertSelectionError::InvalidMode { mode } => "cert_override.mode invalido: '"@ + mode@
            + "'. Valores aceitos: auto, token_only"@,
    }
}

impl CertSelectionError {
    /// The message shown to the user.
    pub fn message(&self) -> (r: String)
        ensures
            r@ == selection_error_message(*self),
    {
        match self {
            CertSelectionError::NoCertificates => String::from_str(
                "Nenhum certificado com chave privada encontrado no repositorio 'Minhas'.\nVerifique se o driver do token A3 esta instalado e o dispositivo conectado.",
            ),
            CertSelectionError::IndexOutOfRange { index, available } => {
                let mut m = String::from_str("cert_override.index invalido: ");
                let d = decimal(*index as u64);
                push_all(&mut m, d.as_str());
                push_all(&mut m, ". Valores aceitos: 1..=");
                let a = decimal(*available as u64);
                push_all(&mut m, a.as_str());
                m
            },
            CertSelectionError::EnvIndexInvalid { raw, available } => {
                let mut m = String::from_str("ASSINADOR_CERT_INDEX invalido: '");
                push_all(&mut m, raw.as_str());
                push_all(&mut m, "'. Valores aceitos: 1..=");
                let a = decimal(*available as u64);
                push_all(&mut m, a.as_str());
                push_all(&mut m, ".");
                m
            },
            CertSelectionError::TokenRequired => String::from_str(
                "cert_override.mode=token_only exige certificado de token/smart card. O certificado selecionado nao parece hardware token.",
            ),
            CertSelectionError::NoTokenCertificate => String::from_str(
                "cert_override.mode=token_only exige certificado de token/smart card, mas nenhum foi encontrado no repositorio 'Minhas'.",
            ),
            CertSelectionError::InvalidMode { mode } => {
                let mut m = String::from_str("cert_override.mode invalido: '");
                push_all(&mut m, mode.as_str());
                push_all(&mut m, "'. Valores aceitos: auto, token_only");
                m
            },
        }
    }
}

/// Refuses an empty certificate list.
pub fn require_certificates(certs: Vec<OwnedCert>) -> (r: Result<Vec<OwnedCert>, CertSelectionError>)
    ensures
        certs.len() == 0 ==> r matches Err(CertSelectionError::NoCertificates),
        certs.len() != 0 ==> r == Ok::<Vec<OwnedCert>, CertSelectionError>(certs),
{
    if certs.len() == 0 {
        Err(CertSelectionError::NoCertificates)
    } else {
        Ok(certs)
    }
}

/// The chosen certificate, how it was chosen and, for the automatic choice,
/// the full ranking of the candidates.
pub struct CertificateChoice {
    pub index: usize,
    pub source: SelectionSource,
    pub ranking: Vec<RankedCert>,
}

/// `token_only` mode refuses a certificate that is not on a hardware token.
pub open spec fn mode_blocks(mode: Seq<char>, c: OwnedCert) -> bool {
    mode == "token_only"@ && !c.is_hardware_token
}

pub fn ensure_mode_allows_certificate(cert: &OwnedCert, mode: &str) -> (r: Result<(), CertSelectionError>)
    ensures
        mode_blocks(mode@, *cert) ==> r matches Err(CertSelectionError::TokenRequired),
        !mode_blocks(mode@, *cert) ==> r is Ok,
{
    if equals(mode, "token_only") && !cert.is_hardware_token {
        Err(CertSelectionError::TokenRequired)
    } else {
        Ok(())
    }
}

/// Some certificate is not a test certificate.
pub open spec fn has_non_test(certs: Seq<OwnedCert>) -> bool {
    exists|i: int| 0 <= i < certs.len() && !is_test_cert_spec(#[trigger] certs[i])
}

/// The candidates before the mode is applied: the certificates that are not
/// test certificates, or all of them when every one is.
pub open spec fn in_base(certs: Seq<OwnedCert>, i: int) -> bool {
    &&& 0 <= i < certs.len()
    &&& has_non_test(certs) ==> !is_test_cert_spec(certs[i])
}

pub open spec fn has_token_in_base(certs: Seq<OwnedCert>) -> bool {
    exists|i: int| #[trigger] in_base(certs, i) && certs[i].is_hardware_token
}

/// The mode restricts the candidates to hardware tokens: always in
/// `token_only` mode, and in `auto` mode when there is one.
pub open spec fn tokens_only(certs: Seq<OwnedCert>, mode: Seq<char>) -> bool {
    mode == "token_only"@ || (mode == "auto"@ && has_token_in_base(certs))
}

/// The candidates of the automatic ranking.
pub open spec fn in_pool(certs: Seq<OwnedCert>, mode: Seq<char>, i: int) -> bool {
    &&& in_base(certs, i)
    &&& tokens_only(certs, mode) ==> certs[i].is_hardware_token
}

/// `b` is the best-ranked candidate.
pub open spec fn is_best(certs: Seq<OwnedCert>, mode: Seq<char>, b: int) -> bool {
    &&& in_pool(certs, mode, b)
    &&& forall|j: int|
        #[trigger] in_pool(certs, mode, j) ==> ranks_before(
            score_spec(certs[b]),
            b,
            score_spec(certs[j]),
            j,
        )
}

/// `r` chooses certificate `idx` from `src`, unless the mode refuses it.
pub open spec fn chosen_after_mode_check(
    r: Result<CertificateChoice, CertSelectionError>,
    certs: Seq<OwnedCert>,
    mode: Seq<char>,
    idx: int,
    src: SelectionSource,
) -> bool {
    if mode_blocks(mode, certs[idx]) {
        r matches Err(CertSelectionError::TokenRequired)
    } else {
        r matches Ok(c) && c.index == idx && c.source == src && c.ranking@.len() == 0
    }
}

pub open spec fn is_first_thumbprint_match(certs: Seq<OwnedCert>, wanted: Seq<char>, i: int) -> bool {
    &&& 0 <= i < certs.len()
    &&& certs[i].thumbprint@ == wanted
    &&& forall|j: int| 0 <= j < i ==> (#[trigger] certs[j]).thumbprint@ != wanted
}

/// The index named by the environment, 0 when it is not a number.
pub open spec fn env_index_value(raw: Seq<char>) -> nat {
    match parse_unsigned(trim_seq(raw), usize::MAX as nat) {
        Some(v) => v,
        None => 0,
    }
}

/// The automatic choice among several certificates; with none at all there
/// is nothing to choose.
pub open spec fn automatic_choice_correct(
    certs: Seq<OwnedCert>,
    mode: Seq<char>,
    r: Result<CertificateChoice, CertSelectionError>,
) -> bool {
    if mode == "token_only"@ && !has_token_in_base(certs) {
        r matches Err(CertSelectionError::NoTokenCertificate)
    } else if mode != "token_only"@ && mode != "auto"@ {
        r matches Err(CertSelectionError::InvalidMode { mode: m }) && m@ == mode
    } else if certs.len() == 0 {
        r matches Err(CertSelectionError::NoCertificates)
    } else {
        &&& r matches Ok(c)
        &&& c.source == SelectionSource::Auto
        &&& is_best(certs, mode, c.index as int)
        &&& ranking_sorted(c.ranking@)
        &&& ranking_indices(c.ranking@).no_duplicates()
        &&& forall|i: int| 0 <= i < c.ranking@.len() ==> ranked_entry_ok(certs, #[trigger] c.ranking@[i])
        &&& forall|j: usize| #[trigger] ranking_indices(c.ranking@).contains(j) <==> in_pool(certs, mode, j as int)
        &&& c.ranking@[0].index == c.index
    }
}

/// The whole selection procedure, in the order in which its sources are tried.
pub open spec fn selection_correct(
    certs: Seq<OwnedCert>,
    ov: CertOverride,
    env: Option<String>,
    r: Result<CertificateChoice, CertSelectionError>,
) -> bool {
    let n = certs.len();
    let mode = ov.mode@;
    match ov.index {
        Some(idx) => if 1 <= idx <= n {
            chosen_after_mode_check(r, certs, mode, idx - 1, SelectionSource::ConfigIndex)
        } else {
            r matches Err(CertSelectionError::IndexOutOfRange { index, available }) && index == idx
                && available == n
        },
        None => {
            let matched = match ov.thumbprint {
                Some(tp) => normalized_thumbprint(tp@).len() != 0 && exists|i: int|
                    #[trigger] is_first_thumbprint_match(certs, normalized_thumbprint(tp@), i),
                None => false,
            };
            if matched {
                exists|i: int|
                    #[trigger] is_first_thumbprint_match(
                        certs,
                        normalized_thumbprint(ov.thumbprint->0@),
                        i,
                    ) && chosen_after_mode_check(r, certs, mode, i, SelectionSource::ConfigThumbprint)
            } else {
                match env {
                    Some(raw) => {
                        let v = env_index_value(raw@);
                        if 1 <= v <= n {
                            chosen_after_mode_check(r, certs, mode, v - 1, SelectionSource::EnvIndex)
                        } else {
                            r matches Err(CertSelectionError::EnvIndexInvalid { raw: shown, available })
                                && shown@ == trim_seq(raw@) && available == n
                        }
                    },
                    None => if n == 1 {
                        chosen_after_mode_check(r, certs, mode, 0, SelectionSource::AutoSingle)
                    } else {
                        automatic_choice_correct(certs, mode, r)
                    },
                }
            }
        },
    }
}

fn choose_with_mode_check(certs: &[OwnedCert], mode: &str, idx: usize, src: SelectionSource) -> (r:
    Result<CertificateChoice, CertSelectionError>)
    requires
        idx < certs.len(),
    ensures
        chosen_after_mode_check(r, certs@, mode@, idx as int, src),
{
    match ensure_mode_allows_certificate(&certs[idx], mode) {
        Ok(()) => Ok(CertificateChoice { index: idx, source: src, ranking: Vec::new() }),
        Err(e) => Err(e),
    }
}

/// Indices of the certificates that are not test certificates, or of all
/// of them when every one is.
fn base_candidates(certs: &[OwnedCert]) -> (v: Vec<usize>)
    ensures
        forall|a: int, b: int| 0 <= a < b < v.len() ==> v@[a] < v@[b],
        forall|j: usize| #[trigger] v@.contains(j) <==> in_base(certs@, j as int),
{
    let n = certs.len();
    let mut v: Vec<usize> = Vec::new();
    let mut i: usize = 0;
    while i < n
        invariant
            i <= n,
            n == certs.len(),
            forall|a: int, b: int| 0 <= a < b < v.len() ==> v@[a] < v@[b],
            forall|a: int| 0 <= a < v.len() ==> v@[a] < i,
            forall|j: usize| #[trigger] v@.contains(j) <==> (j < i && !is_test_cert_spec(certs@[j as int])),
        decreases n - i,
    {
        let ghost before = v@;
        if !is_test_certificate(&certs[i]) {
            v.push(i);
        }
        proof {
            assert forall|j: usize| #[trigger] v@.contains(j) <==> (j < i + 1 && !is_test_cert_spec(certs@[j as int])) by {
                if v@.contains(j) {
                    let a = choose|a: int| 0 <= a < v@.len() && #[trigger] v@[a] == j;
                    if a < before.len() {
                        assert(before[a] == j);
                        assert(before.contains(j));
                    }
                }
                if j < i && !is_test_cert_spec(certs@[j as int]) {
                    assert(before.contains(j));
                    let a = choose|a: int| 0 <= a < before.len() && #[trigger] before[a] == j;
                    assert(v@[a] == j);
                }
                if j == i && !is_test_cert_spec(certs@[j as int]) {
                    assert(v@[v@.len() - 1] == j);
                }
            }
        }
        i = i + 1;
    }
    if v.len() == 0 {
        assert(!has_non_test(certs@)) by {
            if has_non_test(certs@) {
                let w = choose|w: int| 0 <= w < certs@.len() && !is_test_cert_spec(#[trigger] certs@[w]);
                assert(v@.contains(w as usize));
            }
        }
        let mut all: Vec<usize> = Vec::new();
        let mut k: usize = 0;
        while k < n
            invariant
                k <= n,
                n == certs.len(),
                all@.len() == k,
                forall|a: int| 0 <= a < k ==> all@[a] == a,
            decreases n - k,
        {
            all.push(k);
            k = k + 1;
        }
        assert forall|j: usize| #[trigger] all@.contains(j) <==> in_base(certs@, j as int) by {
            if j < n {
                assert(all@[j as int] == j);
            }
        }
        all
    } else {
        assert(has_non_test(certs@)) by {
            let j = v@[0];
            assert(v@.contains(j));
        }
        v
    }
}

/// The hardware-token certificates among `cands`, in order.
fn token_candidates(certs: &[OwnedCert], cands: &Vec<usize>) -> (v: Vec<usize>)
    requires
        forall|a: int| 0 <= a < cands.len() ==> #[trigger] cands@[a] < certs.len(),
        forall|a: int, b: int| 0 <= a < b < cands.len() ==> cands@[a] < cands@[b],
    ensures
        forall|a: int, b: int| 0 <= a < b < v.len() ==> v@[a] < v@[b],
        forall|j: usize| #[trigger] v@.contains(j) <==> (cands@.contains(j) && certs@[j as int].is_hardware_token),
{
    let mut v: Vec<usize> = Vec::new();
    let mut k: usize = 0;
    while k < cands.len()
        invariant
            k <= cands.len(),
            forall|a: int| 0 <= a < cands.len() ==> #[trigger] cands@[a] < certs.len(),
            forall|a: int, b: int| 0 <= a < b < cands.len() ==> cands@[a] < cands@[b],
            forall|a: int, b: int| 0 <= a < b < v.len() ==> v@[a] < v@[b],
            k < cands.len() ==> forall|a: int| 0 <= a < v.len() ==> #[trigger] v@[a] < cands@[k as int],
            forall|j: usize| #[trigger] v@.contains(j) <==> cands@.take(k as int).contains(j) && certs@[j as int].is_hardware_token,
        decreases cands.len() - k,
    {
        let c = cands[k];
        let ghost before = v@;
        assert(cands@.take(k + 1) == cands@.take(k as int).push(c));
        if certs[c].is_hardware_token {
            v.push(c);
        }
        proof {
            if k + 1 < cands.len() {
                assert(c < cands@[k + 1]);
            }
            assert forall|j: usize| #[trigger] v@.contains(j) <==> cands@.take(k + 1).contains(j) && certs@[j as int].is_hardware_token by {
                assert(cands@.take(k + 1)[k as int] == c);
                if j == c {
                    if !certs@[c as int].is_hardware_token && before.contains(c) {
                        let a = choose|a: int| 0 <= a < before.len() && #[trigger] before[a] == c;
                        assert(before[a] < c);
                    }
                    if certs@[c as int].is_hardware_token {
                        assert(v@[v@.len() - 1] == c);
                    }
                } else {
                    if v@.contains(j) {
                        let a = choose|a: int| 0 <= a < v@.len() && #[trigger] v@[a] == j;
                        assert(a < before.len());
                        assert(before[a] == j);
                        assert(before.contains(j));
                        assert(cands@.take(k as int).contains(j));
                        let q = choose|q: int| 0 <= q < k && #[trigger] cands@.take(k as int)[q] == j;
                        assert(cands@.take(k + 1)[q] == j);
                    }
                    if cands@.take(k + 1).contains(j) && certs@[j as int].is_hardware_token {
                        let q = choose|q: int| 0 <= q < k + 1 && #[trigger] cands@.take(k + 1)[q] == j;
                        assert(q < k);
                        assert(cands@.take(k as int)[q] == j);
                        assert(cands@.take(k as int).contains(j));
                        assert(before.contains(j));
                        let a = choose|a: int| 0 <= a < before.len() && #[trigger] before[a] == j;
                        assert(v@[a] == j);
                    }
                }
            }
        }
        k = k + 1;
    }
    assert(cands@.take(k as int) == cands@);
    v
}

proof fn lemma_strictly_increasing_no_duplicates(s: Seq<usize>)
    requires
        forall|a: int, b: int| 0 <= a < b < s.len() ==> s[a] < s[b],
    ensures
        s.no_duplicates(),
{
    assert forall|a: int, b: int| 0 <= a < s.len() && 0 <= b < s.len() && a != b implies s[a] != s[b] by {
        if a < b {
            assert(s[a] < s[b]);
        } else {
            assert(s[b] < s[a]);
        }
    }
}

/// Chooses the signing certificate.
///
/// In order: `cert_override.index`; `cert_override.thumbprint`, when it
/// names a certificate (otherwise selection goes on); the index given by the
/// environment; the only certificate when there is one; the best-ranked
/// candidate. Any certificate chosen must be a hardware token in
/// `token_only` mode. Without any certificate, each source that names one
/// fails as it would on a list too short, and the automatic choice fails
/// with `NoCertificates`.
pub fn choose_certificate_index(
    certs: &[OwnedCert],
    cert_override: &CertOverride,
    env_cert_index: Option<String>,
) -> (r: Result<CertificateChoice, CertSelectionError>)
    ensures
        selection_correct(certs@, *cert_override, env_cert_index, r),
{
    let n = certs.len();
    let mode = cert_override.mode.as_str();
    if let Some(index) = cert_override.index {
        if 1 <= index && index <= n {
            return choose_with_mode_check(certs, mode, index - 1, SelectionSource::ConfigIndex);
        }
        return Err(CertSelectionError::IndexOutOfRange { index, available: n });
    }
    if let Some(tp) = &cert_override.thumbprint {
        let wanted = normalize_thumbprint(tp.as_str());
        if wanted.unicode_len() != 0 {
            let mut i: usize = 0;
            while i < n
                invariant
                    i <= n,
                    n == certs.len(),
                    cert_override.thumbprint == Some(*tp),
                    cert_override.index is None,
                    wanted@ == normalized_thumbprint(tp@),
                    wanted@.len() != 0,
                    mode@ == cert_override.mode@,
                    forall|j: int| 0 <= j < i ==> (#[trigger] certs@[j]).thumbprint@ != wanted@,
                decreases n - i,
            {
                if equals(certs[i].thumbprint.as_str(), wanted.as_str()) {
                    let r = choose_with_mode_check(certs, mode, i, SelectionSource::ConfigThumbprint);
                    assert(cert_override.thumbprint->0 == *tp);
                    assert(is_first_thumbprint_match(certs@, wanted@, i as int));
                    assert(is_first_thumbprint_match(
                        certs@,
                        normalized_thumbprint(cert_override.thumbprint->0@),
                        i as int,
                    ) && chosen_after_mode_check(r, certs@, mode@, i as int, SelectionSource::ConfigThumbprint));
                    return r;
                }
                i = i + 1;
            }
        }
    }
    if let Some(raw) = env_cert_index {
        let trimmed = trim(raw.as_str());
        let chars = chars_of(trimmed.as_str());
        let idx: u64 = match parse_unsigned_chars(chars.as_slice(), usize::MAX as u64) {
            Some(v) => v,
            None => 0,
        };
        if 1 <= idx && idx <= n as u64 {
            return choose_with_mode_check(certs, mode, (idx - 1) as usize, SelectionSource::EnvIndex);
        }
        return Err(CertSelectionError::EnvIndexInvalid { raw: trimmed, available: n });
    }
    if n == 1 {
        return choose_with_mode_check(certs, mode, 0, SelectionSource::AutoSingle);
    }
    if n == 0 {
        if equals(mode, "token_only") {
            return Err(CertSelectionError::NoTokenCertificate);
        } else if equals(mode, "auto") {
            return Err(CertSelectionError::NoCertificates);
        }
        return Err(CertSelectionError::InvalidMode { mode: String::from_str(mode) });
    }
    let base = base_candidates(certs);
    assert forall|a: int| 0 <= a < base.len() implies #[trigger] base@[a] < certs.len() by {
        assert(base@.contains(base@[a]));
    }
    assert(base@.len() > 0) by {
        if has_non_test(certs@) {
            let w = choose|w: int| 0 <= w < certs@.len() && !is_test_cert_spec(#[trigger] certs@[w]);
            assert(base@.contains(w as usize));
        } else {
            assert(base@.contains(0usize));
        }
    }
    let tokens = token_candidates(certs, &base);
    assert(tokens@.len() > 0 <==> has_token_in_base(certs@)) by {
        if tokens@.len() > 0 {
            assert(tokens@.contains(tokens@[0]));
        }
        if has_token_in_base(certs@) {
            let w = choose|w: int| #[trigger] in_base(certs@, w) && certs@[w].is_hardware_token;
            assert(tokens@.contains(w as usize));
        }
    }
    let pool = if equals(mode, "token_only") {
        if tokens.len() == 0 {
            return Err(CertSelectionError::NoTokenCertificate);
        }
        tokens
    } else if equals(mode, "auto") {
        if tokens.len() != 0 {
            tokens
        } else {
            base
        }
    } else {
        return Err(CertSelectionError::InvalidMode { mode: String::from_str(mode) });
    };
    assert(forall|j: usize| #[trigger] pool@.contains(j) <==> in_pool(certs@, mode@, j as int));
    assert(pool@.len() > 0);
    assert forall|i: int| 0 <= i < pool.len() implies #[trigger] pool@[i] < certs.len() by {
        assert(pool@.contains(pool@[i]));
    }
    let ranking = rank_certificates(certs, pool.as_slice());
    let best = ranking[0].index;
    proof {
        lemma_strictly_increasing_no_duplicates(pool@);
        let idxs = ranking_indices(ranking@);
        pool@.lemma_multiset_has_no_duplicates();
        idxs.lemma_multiset_has_no_duplicates_conv();
        assert forall|j: usize| #[trigger] idxs.contains(j) <==> pool@.contains(j) by {
            assert(idxs.contains(j) <==> idxs.to_multiset().count(j) > 0);
            assert(pool@.contains(j) <==> pool@.to_multiset().count(j) > 0);
        }
        assert(idxs[0] == best);
        assert(idxs.contains(best));
        assert forall|j: int| #[trigger] in_pool(certs@, mode@, j) implies ranks_before(
            score_spec(certs@[best as int]),
            best as int,
            score_spec(certs@[j]),
            j,
        ) by {
            assert(idxs.contains(j as usize));
            let q = choose|q: int| 0 <= q < idxs.len() && #[trigger] idxs[q] == j as usize;
            assert(ranked_entry_ok(certs@, ranking@[q]));
            assert(ranked_entry_ok(certs@, ranking@[0]));
            if q > 0 {
                assert(ranks_before(
                    ranking@[0].score as int,
                    ranking@[0].index as int,
                    ranking@[q].score as int,
                    ranking@[q].index as int,
                ));
            }
        }
    }
    Ok(CertificateChoice { index: best, source: SelectionSource::Auto, ranking })
}

} // verus!

verus! {

pub open spec fn text_view(o: Option<String>) -> Option<Seq<char>> {
    match o {
        Some(s) => Some(s@),
        None => None,
    }
}

fn copy_text(o: &Option<String>) -> (r: Option<String>)
    ensures
        text_view(r) == text_view(*o),
{
    match o {
        Some(s) => Some(s.clone()),
        None => None,
    }
}

/// The thumbprint and index that one request chooses by: a thumbprint in
/// the request comes first, then an index in it; without either the
/// configuration's own stand.
pub open spec fn override_choice(
    configured: CertOverride,
    selection: Option<CertSelectionRequest>,
) -> (Option<Seq<char>>, Option<usize>) {
    match selection {
        Some(sel) => if sel.thumbprint is Some {
            (text_view(sel.thumbprint), None)
        } else if sel.index is Some {
            (None, sel.index)
        } else {
            (text_view(configured.thumbprint), configured.index)
        },
        None => (text_view(configured.thumbprint), configured.index),
    }
}

/// The certificate override for one request: the configured mode, with the
/// thumbprint or index that the request chooses.
pub fn effective_override(cert_override: &CertOverride, selection: Option<&CertSelectionRequest>) -> (r: CertOverride)
    ensures
        r.mode@ == cert_override.mode@,
        (text_view(r.thumbprint), r.index) == override_choice(*cert_override, match selection {
            Some(sel) => Some(*sel),
            None => None,
        }),
{
    let mode = cert_override.mode.clone();
    match selection {
        Some(sel) => {
            if sel.thumbprint.is_some() {
                return CertOverride { mode, thumbprint: copy_text(&sel.thumbprint), index: None };
            } else if sel.index.is_some() {
                return CertOverride { mode, thumbprint: None, index: sel.index };
            }
        },
        None => {},
    }
    CertOverride { mode, thumbprint: copy_text(&cert_override.thumbprint), index: cert_override.index }
}

} // verus!

verus! {

/// An explicit index in the configuration gives exactly that certificate,
/// when it is in range and the mode allows it; otherwise selection fails.
pub proof fn explicit_index_is_obeyed(
    certs: Seq<OwnedCert>,
    ov: CertOverride,
    env: Option<String>,
    r: Result<CertificateChoice, CertSelectionError>,
    i: usize,
)
    requires
        selection_correct(certs, ov, env, r),
        ov.index == Some(i),
    ensures
        (1 <= i <= certs.len() && !mode_blocks(ov.mode@, certs[i - 1])) ==> (r matches Ok(c) && c.index == i - 1),
        !(1 <= i <= certs.len() && !mode_blocks(ov.mode@, certs[i - 1])) ==> r is Err,
{
}

/// In `token_only` mode only a certificate on a hardware token is ever
/// chosen, and selection fails when there is none.
pub proof fn token_only_chooses_tokens(
    certs: Seq<OwnedCert>,
    ov: CertOverride,
    env: Option<String>,
    r: Result<CertificateChoice, CertSelectionError>,
)
    requires
        selection_correct(certs, ov, env, r),
        ov.mode@ == "token_only"@,
    ensures
        r matches Ok(c) ==> c.index < certs.len() && certs[c.index as int].is_hardware_token,
        (forall|j: int| 0 <= j < certs.len() ==> !(#[trigger] certs[j]).is_hardware_token) ==> r is Err,
{
    if let Ok(c) = r {
        assert(c.index < certs.len() && certs[c.index as int].is_hardware_token);
    }
}

/// A configured thumbprint that names no certificate changes nothing: the
/// choice is the one made without it.
pub proof fn unknown_thumbprint_falls_back(
    certs: Seq<OwnedCert>,
    ov: CertOverride,
    without: CertOverride,
    env: Option<String>,
    r: Result<CertificateChoice, CertSelectionError>,
    r_without: Result<CertificateChoice, CertSelectionError>,
)
    requires
        selection_correct(certs, ov, env, r),
        selection_correct(certs, without, env, r_without),
        ov.index is None,
        without.index is None,
        without.thumbprint is None,
        without.mode@ == ov.mode@,
        ov.thumbprint matches Some(tp) && forall|k: int|
            0 <= k < certs.len() ==> (#[trigger] certs[k]).thumbprint@ != normalized_thumbprint(tp@),
    ensures
        r is Ok <==> r_without is Ok,
        r matches Ok(c) ==> (r_without matches Ok(d) && c.index == d.index),
{
    let tp = ov.thumbprint->0;
    assert(!exists|i: int| #[trigger] is_first_thumbprint_match(certs, normalized_thumbprint(tp@), i));
    if let Ok(c) = r {
        if let Ok(d) = r_without {
            let mode = ov.mode@;
            if env is None && certs.len() != 1 {
                assert(is_best(certs, mode, c.index as int));
                assert(is_best(certs, mode, d.index as int));
                assert(in_pool(certs, mode, d.index as int));
                assert(in_pool(certs, mode, c.index as int));
                assert(ranks_before(score_spec(certs[c.index as int]), c.index as int, score_spec(certs[d.index as int]), d.index as int));
                assert(ranks_before(score_spec(certs[d.index as int]), d.index as int, score_spec(certs[c.index as int]), c.index as int));
            }
        }
    }
}

} // verus!
