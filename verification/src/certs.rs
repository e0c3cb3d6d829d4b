//! Certificate classification and scoring: which certificates look like test
//! certificates, which look like hardware tokens, and how each one is scored
//! for automatic selection.
use vstd::prelude::*;
use crate::text::{
    ascii_hex_digit, chars_of, contains, contains_any, contains_any_seq, contains_seq,
    count_ascii_digits, digit_count, is_ascii_hex_digit, lower_seq, push_all, push_char,
    to_ascii_lowercase,
};

verus! {

/// A certificate with a private key, as read from the operating system's
/// certificate store.
pub struct OwnedCert {
    pub subject: String,
    pub issuer: String,
    pub thumbprint: String,
    pub valid_now: bool,
    pub supports_digital_signature: bool,
    pub key_provider_name: String,
    pub key_container_name: String,
    pub key_provider_type: u32,
    pub key_spec: u32,
    pub is_hardware_token: bool,
}

pub open spec fn is_guid_dash_position(i: int) -> bool {
    i == 8 || i == 13 || i == 18 || i == 23
}

pub open spec fn guid_char_ok(s: Seq<char>, i: int) -> bool {
    if is_guid_dash_position(i) {
        s[i] == '-'
    } else {
        is_ascii_hex_digit(s[i])
    }
}

/// Five groups of 8, 4, 4, 4 and 12 hexadecimal digits joined by `-`.
pub open spec fn guid_seq(s: Seq<char>) -> bool {
    &&& s.len() == 36
    &&& forall|i: int| 0 <= i < 36 ==> #[trigger] guid_char_ok(s, i)
}

/// Whether `s` has the shape of a GUID.
pub fn looks_like_guid(s: &str) -> (r: bool)
    ensures
        r == guid_seq(s@),
{
    let v = chars_of(s);
    if v.len() != 36 {
        return false;
    }
    let mut i: usize = 0;
    while i < 36
        invariant
            v@ == s@,
            v@.len() == 36,
            i <= 36,
            forall|j: int| 0 <= j < i ==> #[trigger] guid_char_ok(s@, j),
        decreases 36 - i,
    {
        let ok = if i == 8 || i == 13 || i == 18 || i == 23 {
            v[i] == '-'
        } else {
            ascii_hex_digit(v[i])
        };
        if !ok {
            assert(!guid_char_ok(s@, i as int));
            return false;
        }
        i = i + 1;
    }
    true
}

pub open spec fn mentions_localhost(s: Seq<char>) -> bool {
    contains_seq(lower_seq(s), "localhost"@)
}

fn mentions_localhost_exec(s: &str) -> (r: bool)
    ensures
        r == mentions_localhost(s@),
{
    let lower = to_ascii_lowercase(s);
    contains(lower.as_str(), "localhost")
}

/// Self-issued development certificates: subject and issuer both GUIDs, or
/// either of them naming `localhost`.
pub open spec fn is_test_cert_spec(c: OwnedCert) -> bool {
    ||| (guid_seq(c.subject@) && guid_seq(c.issuer@))
    ||| mentions_localhost(c.subject@)
    ||| mentions_localhost(c.issuer@)
}

pub fn is_test_certificate(cert: &OwnedCert) -> (r: bool)
    ensures
        r == is_test_cert_spec(*cert),
{
    (looks_like_guid(cert.subject.as_str()) && looks_like_guid(cert.issuer.as_str()))
        || mentions_localhost_exec(cert.subject.as_str()) || mentions_localhost_exec(
        cert.issuer.as_str(),
    )
}

pub open spec fn hardware_token_markers() -> Seq<Seq<char>> {
    seq![
        "smart card"@,
        "smartcard"@,
        "token"@,
        "etoken"@,
        "safenet"@,
        "watchdata"@,
        "aladdin"@,
        "gemalto"@,
        "entersafe"@,
        "epass"@,
        "pkcs11"@,
        "pkcs#11"@,
        "a3"@,
    ]
}

/// The provider and container names, lower-cased and joined by a space,
/// mention a smart card or token vendor.
pub open spec fn hardware_token_spec(provider: Seq<char>, container: Seq<char>) -> bool {
    contains_any_seq(lower_seq(provider) + seq![' '] + lower_seq(container), hardware_token_markers())
}

/// Whether a key provider/container pair looks like a hardware token.
pub fn looks_like_hardware_token(provider_name: &str, container_name: &str) -> (r: bool)
    ensures
        r == hardware_token_spec(provider_name@, container_name@),
{
    let mut combined = to_ascii_lowercase(provider_name);
    push_char(&mut combined, ' ');
    let container_lc = to_ascii_lowercase(container_name);
    push_all(&mut combined, container_lc.as_str());
    assert(combined@ == lower_seq(provider_name@) + seq![' '] + lower_seq(container_name@));
    let markers: &[&str] = &[
        "smart card",
        "smartcard",
        "token",
        "etoken",
        "safenet",
        "watchdata",
        "aladdin",
        "gemalto",
        "entersafe",
        "epass",
        "pkcs11",
        "pkcs#11",
        "a3",
    ];
    assert(markers@.map_values(|t: &str| t@) == hardware_token_markers());
    contains_any(combined.as_str(), markers)
}

pub open spec fn software_provider_names() -> Seq<Seq<char>> {
    seq!["software key storage provider"@, "software cryptographic provider"@]
}

pub open spec fn token_provider_names() -> Seq<Seq<char>> {
    seq!["smart card"@, "token"@, "safenet"@, "watchdata"@, "entersafe"@, "epass"@]
}

pub open spec fn token_container_names() -> Seq<Seq<char>> {
    seq!["smart"@, "token"@, "safenet"@, "watchdata"@, "etoken"@, "entersafe"@, "epass"@]
}

pub open spec fn known_issuer_names() -> Seq<Seq<char>> {
    seq!["icp-brasil"@, "ac "@, "soluti"@, "certisign"@, "valid"@, "serasa"@, "serpro"@]
}

pub open spec fn signing_subject_hints() -> Seq<Seq<char>> {
    seq!["token"@, "a3"@, "assinatura"@, "cpf"@, "cnpj"@]
}

/// One line of the scoring table: when `applies`, `points` are added and
/// `reason` is reported.
pub struct ScoreRule {
    pub applies: bool,
    pub points: int,
    pub reason: Seq<char>,
}

pub open spec fn rule(applies: bool, points: int, reason: Seq<char>) -> ScoreRule {
    ScoreRule { applies, points, reason }
}

/// The facts about a certificate that the scoring table looks at.
pub struct ScoreFacts {
    pub subject_filled: bool,
    pub issuer_filled: bool,
    pub valid_now: bool,
    pub digital_signature: bool,
    pub hardware_token: bool,
    pub software_provider: bool,
    pub token_provider: bool,
    pub token_container: bool,
    pub subject_guid: bool,
    pub issuer_guid: bool,
    pub localhost: bool,
    pub numeric_subject: bool,
    pub known_issuer: bool,
    pub signing_hint: bool,
    pub human_subject: bool,
}

pub open spec fn score_facts(c: OwnedCert) -> ScoreFacts {
    let subject_lc = lower_seq(c.subject@);
    let issuer_lc = lower_seq(c.issuer@);
    let provider_lc = lower_seq(c.key_provider_name@);
    let container_lc = lower_seq(c.key_container_name@);
    ScoreFacts {
        subject_filled: c.subject@.len() != 0,
        issuer_filled: c.issuer@.len() != 0,
        valid_now: c.valid_now,
        digital_signature: c.supports_digital_signature,
        hardware_token: c.is_hardware_token,
        software_provider: contains_any_seq(provider_lc, software_provider_names()),
        token_provider: contains_any_seq(provider_lc, token_provider_names()),
        token_container: contains_any_seq(container_lc, token_container_names()),
        subject_guid: guid_seq(c.subject@),
        issuer_guid: guid_seq(c.issuer@),
        localhost: contains_seq(subject_lc, "localhost"@) || contains_seq(issuer_lc, "localhost"@),
        numeric_subject: digit_count(c.subject@) >= 11,
        known_issuer: contains_any_seq(issuer_lc, known_issuer_names()),
        signing_hint: contains_any_seq(subject_lc, signing_subject_hints()),
        human_subject: !guid_seq(c.subject@) && !contains_seq(subject_lc, "localhost"@),
    }
}

/// Line `i` of the scoring table for automatic certificate selection; the
/// lines are listed in the order in which their reasons are reported.
pub open spec fn score_rule(f: ScoreFacts, i: int) -> ScoreRule {
    if i == 0 {
        rule(f.subject_filled, 10, "+10 subject preenchido"@)
    } else if i == 1 {
        rule(f.issuer_filled, 5, "+5 issuer preenchido"@)
    } else if i == 2 {
        rule(f.valid_now, 220, "+220 certificado valido agora"@)
    } else if i == 3 {
        rule(!f.valid_now, -260, "-260 certificado fora da validade"@)
    } else if i == 4 {
        rule(f.digital_signature, 170, "+170 key usage permite assinatura digital"@)
    } else if i == 5 {
        rule(!f.digital_signature, -220, "-220 key usage sem assinatura digital"@)
    } else if i == 6 {
        rule(f.hardware_token, 900, "+900 certificado detectado como token/smart card"@)
    } else if i == 7 {
        rule(!f.hardware_token, -380, "-380 nao parece certificado de token/smart card"@)
    } else if i == 8 {
        rule(f.software_provider, -500, "-500 provider de software (sem token)"@)
    } else if i == 9 {
        rule(f.token_provider, 280, "+280 provider indica token/smart card"@)
    } else if i == 10 {
        rule(f.token_container, 130, "+130 container indica token/smart card"@)
    } else if i == 11 {
        rule(f.subject_guid, -120, "-120 subject parece GUID"@)
    } else if i == 12 {
        rule(f.issuer_guid, -80, "-80 issuer parece GUID"@)
    } else if i == 13 {
        rule(f.localhost, -200, "-200 certificado localhost"@)
    } else if i == 14 {
        rule(f.numeric_subject, 180, "+180 subject com identificador numerico (ex.: CPF/CNPJ)"@)
    } else if i == 15 {
        rule(f.known_issuer, 80, "+80 issuer conhecido de AC"@)
    } else if i == 16 {
        rule(f.signing_hint, 40, "+40 subject com indicio de certificado de assinatura"@)
    } else {
        rule(f.human_subject, 30, "+30 subject com formato humano"@)
    }
}

/// Number of lines in the scoring table.
pub open spec fn score_rule_count() -> nat {
    18
}

/// The first `k` lines of the scoring table.
pub open spec fn rules_upto(f: ScoreFacts, k: nat) -> Seq<ScoreRule>
    decreases k,
{
    if k == 0 {
        Seq::empty()
    } else {
        rules_upto(f, (k - 1) as nat).push(score_rule(f, k - 1))
    }
}

pub open spec fn rules_for(f: ScoreFacts) -> Seq<ScoreRule> {
    rules_upto(f, score_rule_count())
}

pub open spec fn score_rules(c: OwnedCert) -> Seq<ScoreRule> {
    rules_for(score_facts(c))
}

/// Sum of the points of the rules that apply.
#[verifier::opaque]
pub open spec fn rules_points(rules: Seq<ScoreRule>) -> int
    decreases rules.len(),
{
    if rules.len() == 0 {
        0
    } else {
        rules_points(rules.drop_last()) + if rules.last().applies {
            rules.last().points
        } else {
            0
        }
    }
}

/// Reasons of the rules that apply, in order.
#[verifier::opaque]
pub open spec fn rules_reasons(rules: Seq<ScoreRule>) -> Seq<Seq<char>>
    decreases rules.len(),
{
    if rules.len() == 0 {
        Seq::empty()
    } else if rules.last().applies {
        rules_reasons(rules.drop_last()).push(rules.last().reason)
    } else {
        rules_reasons(rules.drop_last())
    }
}

pub open spec fn score_spec(c: OwnedCert) -> int {
    rules_points(score_rules(c))
}

pub open spec fn reasons_spec(c: OwnedCert) -> Seq<Seq<char>> {
    rules_reasons(score_rules(c))
}

pub open spec fn strings_view(v: Seq<String>) -> Seq<Seq<char>> {
    v.map_values(|s: String| s@)
}

/// `score` and `reasons` are what the rules in `done` give.
#[verifier::opaque]
pub open spec fn accounts_for(score: int, reasons: Seq<String>, done: Seq<ScoreRule>) -> bool {
    score == rules_points(done) && strings_view(reasons) == rules_reasons(done)
}

fn apply_rule(
    score: &mut i32,
    reasons: &mut Vec<String>,
    applies: bool,
    points: i32,
    reason: &str,
    Ghost(f): Ghost<ScoreFacts>,
    Ghost(k): Ghost<nat>,
)
    requires
        -100000 <= *old(score) <= 100000,
        -1000 <= points <= 1000,
        rule(applies, points as int, reason@) == score_rule(f, k as int),
        accounts_for(*old(score) as int, old(reasons)@, rules_upto(f, k)),
    ensures
        *old(score) - 1000 <= *final(score) <= *old(score) + 1000,
        accounts_for(*final(score) as int, final(reasons)@, rules_upto(f, k + 1)),
{
    let ghost next = rules_upto(f, k + 1);
    assert(next.drop_last() == rules_upto(f, k));
    assert(next.last() == rule(applies, points as int, reason@));
    reveal(rules_points);
    reveal(rules_reasons);
    reveal(accounts_for);
    if applies {
        *score = *score + points;
        let ghost before = reasons@;
        reasons.push(String::from_str(reason));
        assert(strings_view(reasons@) == strings_view(before).push(reason@));
    }
}

fn contains_any_lower(s: &str, needles: &[&str], Ghost(expected): Ghost<Seq<Seq<char>>>) -> (r: bool)
    requires
        needles@.map_values(|t: &str| t@) == expected,
    ensures
        r == contains_any_seq(lower_seq(s@), expected),
{
    let lower = to_ascii_lowercase(s);
    contains_any(lower.as_str(), needles)
}

fn score_rules_first(score: &mut i32, reasons: &mut Vec<String>, f: &ScoreFacts)
    requires
        -20000 <= *old(score) <= 20000,
        accounts_for(*old(score) as int, old(reasons)@, rules_upto(*f, 0)),
    ensures
        *old(score) - 6000 <= *final(score) <= *old(score) + 6000,
        accounts_for(*final(score) as int, final(reasons)@, rules_upto(*f, 6)),
{
    let r = "+10 subject preenchido";
    apply_rule(score, reasons, f.subject_filled, 10, r, Ghost(*f), Ghost(0nat));
    let r = "+5 issuer preenchido";
    apply_rule(score, reasons, f.issuer_filled, 5, r, Ghost(*f), Ghost(1nat));
    let r = "+220 certificado valido agora";
    apply_rule(score, reasons, f.valid_now, 220, r, Ghost(*f), Ghost(2nat));
    let r = "-260 certificado fora da validade";
    apply_rule(score, reasons, !f.valid_now, -260, r, Ghost(*f), Ghost(3nat));
    let r = "+170 key usage permite assinatura digital";
    apply_rule(score, reasons, f.digital_signature, 170, r, Ghost(*f), Ghost(4nat));
    let r = "-220 key usage sem assinatura digital";
    apply_rule(score, reasons, !f.digital_signature, -220, r, Ghost(*f), Ghost(5nat));
}

fn score_rules_middle(score: &mut i32, reasons: &mut Vec<String>, f: &ScoreFacts)
    requires
        -20000 <= *old(score) <= 20000,
        accounts_for(*old(score) as int, old(reasons)@, rules_upto(*f, 6)),
    ensures
        *old(score) - 6000 <= *final(score) <= *old(score) + 6000,
        accounts_for(*final(score) as int, final(reasons)@, rules_upto(*f, 12)),
{
    let r = "+900 certificado detectado como token/smart card";
    apply_rule(score, reasons, f.hardware_token, 900, r, Ghost(*f), Ghost(6nat));
    let r = "-380 nao parece certificado de token/smart card";
    apply_rule(score, reasons, !f.hardware_token, -380, r, Ghost(*f), Ghost(7nat));
    let r = "-500 provider de software (sem token)";
    apply_rule(score, reasons, f.software_provider, -500, r, Ghost(*f), Ghost(8nat));
    let r = "+280 provider indica token/smart card";
    apply_rule(score, reasons, f.token_provider, 280, r, Ghost(*f), Ghost(9nat));
    let r = "+130 container indica token/smart card";
    apply_rule(score, reasons, f.token_container, 130, r, Ghost(*f), Ghost(10nat));
    let r = "-120 subject parece GUID";
    apply_rule(score, reasons, f.subject_guid, -120, r, Ghost(*f), Ghost(11nat));
}

fn score_rules_last(score: &mut i32, reasons: &mut Vec<String>, f: &ScoreFacts)
    requires
        -20000 <= *old(score) <= 20000,
        accounts_for(*old(score) as int, old(reasons)@, rules_upto(*f, 12)),
    ensures
        *old(score) - 6000 <= *final(score) <= *old(score) + 6000,
        accounts_for(*final(score) as int, final(reasons)@, rules_upto(*f, 18)),
{
    let r = "-80 issuer parece GUID";
    apply_rule(score, reasons, f.issuer_guid, -80, r, Ghost(*f), Ghost(12nat));
    let r = "-200 certificado localhost";
    apply_rule(score, reasons, f.localhost, -200, r, Ghost(*f), Ghost(13nat));
    let r = "+180 subject com identificador numerico (ex.: CPF/CNPJ)";
    apply_rule(score, reasons, f.numeric_subject, 180, r, Ghost(*f), Ghost(14nat));
    let r = "+80 issuer conhecido de AC";
    apply_rule(score, reasons, f.known_issuer, 80, r, Ghost(*f), Ghost(15nat));
    let r = "+40 subject com indicio de certificado de assinatura";
    apply_rule(score, reasons, f.signing_hint, 40, r, Ghost(*f), Ghost(16nat));
    let r = "+30 subject com formato humano";
    apply_rule(score, reasons, f.human_subject, 30, r, Ghost(*f), Ghost(17nat));
}

fn score_from_facts(f: &ScoreFacts) -> (r: (i32, Vec<String>))
    ensures
        r.0 == rules_points(rules_for(*f)),
        strings_view(r.1@) == rules_reasons(rules_for(*f)),
{
    let mut score: i32 = 0;
    let mut reasons: Vec<String> = Vec::new();
    assert(accounts_for(score as int, reasons@, rules_upto(*f, 0))) by {
        reveal(rules_reasons);
        reveal(rules_points);
        reveal(accounts_for);
        assert(strings_view(reasons@) =~= Seq::empty());
    }
    score_rules_first(&mut score, &mut reasons, f);
    score_rules_middle(&mut score, &mut reasons, f);
    score_rules_last(&mut score, &mut reasons, f);
    proof {
        reveal(accounts_for);
    }
    (score, reasons)
}

fn facts_of(cert: &OwnedCert) -> (f: ScoreFacts)
    ensures
        f == score_facts(*cert),
{
    let subject_localhost = mentions_localhost_exec(cert.subject.as_str());
    let issuer_localhost = mentions_localhost_exec(cert.issuer.as_str());
    let subject_guid = looks_like_guid(cert.subject.as_str());
    let issuer_guid = looks_like_guid(cert.issuer.as_str());

    let software: &[&str] = &["software key storage provider", "software cryptographic provider"];
    assert(software@.map_values(|t: &str| t@) == software_provider_names());
    let token_providers: &[&str] = &["smart card", "token", "safenet", "watchdata", "entersafe", "epass"];
    assert(token_providers@.map_values(|t: &str| t@) == token_provider_names());
    let token_containers: &[&str] = &[
        "smart",
        "token",
        "safenet",
        "watchdata",
        "etoken",
        "entersafe",
        "epass",
    ];
    assert(token_containers@.map_values(|t: &str| t@) == token_container_names());
    let issuers: &[&str] = &["icp-brasil", "ac ", "soluti", "certisign", "valid", "serasa", "serpro"];
    assert(issuers@.map_values(|t: &str| t@) == known_issuer_names());
    let hints: &[&str] = &["token", "a3", "assinatura", "cpf", "cnpj"];
    assert(hints@.map_values(|t: &str| t@) == signing_subject_hints());

    ScoreFacts {
        subject_filled: cert.subject.unicode_len() != 0,
        issuer_filled: cert.issuer.unicode_len() != 0,
        valid_now: cert.valid_now,
        digital_signature: cert.supports_digital_signature,
        hardware_token: cert.is_hardware_token,
        software_provider: contains_any_lower(
            cert.key_provider_name.as_str(),
            software,
            Ghost(software_provider_names()),
        ),
        token_provider: contains_any_lower(
            cert.key_provider_name.as_str(),
            token_providers,
            Ghost(token_provider_names()),
        ),
        token_container: contains_any_lower(
            cert.key_container_name.as_str(),
            token_containers,
            Ghost(token_container_names()),
        ),
        subject_guid,
        issuer_guid,
        localhost: subject_localhost || issuer_localhost,
        numeric_subject: count_ascii_digits(cert.subject.as_str()) >= 11,
        known_issuer: contains_any_lower(cert.issuer.as_str(), issuers, Ghost(known_issuer_names())),
        signing_hint: contains_any_lower(cert.subject.as_str(), hints, Ghost(signing_subject_hints())),
        human_subject: !subject_guid && !subject_localhost,
    }
}

/// The automatic-selection score of a certificate and the reasons behind it.
pub fn certificate_score(cert: &OwnedCert) -> (r: (i32, Vec<String>))
    ensures
        r.0 == score_spec(*cert),
        strings_view(r.1@) == reasons_spec(*cert),
{
    let facts = facts_of(cert);
    score_from_facts(&facts)
}

} // verus!

verus! {

proof fn rules_prefix_agree(fa: ScoreFacts, fb: ScoreFacts, j: nat)
    requires
        forall|i: int| 0 <= i < j ==> score_rule(fa, i) == score_rule(fb, i),
    ensures
        rules_upto(fa, j) == rules_upto(fb, j),
    decreases j,
{
    if j > 0 {
        rules_prefix_agree(fa, fb, (j - 1) as nat);
    }
}

/// Over the first `k` rules, where rule `j` applies to `fa` only, rule
/// `j + 1` to `fb` only, and every other rule is the same for both.
proof fn rules_flip(fa: ScoreFacts, fb: ScoreFacts, j: nat, k: nat)
    requires
        j + 2 <= k,
        forall|i: int| 0 <= i < k && i != j && i != j + 1 ==> score_rule(fa, i) == score_rule(fb, i),
        score_rule(fa, j as int).applies,
        !score_rule(fa, j as int + 1).applies,
        !score_rule(fb, j as int).applies,
        score_rule(fb, j as int + 1).applies,
    ensures
        rules_points(rules_upto(fa, k)) - rules_points(rules_upto(fb, k)) == score_rule(fa, j as int).points
            - score_rule(fb, j as int + 1).points,
        rules_reasons(rules_upto(fa, k)).len() == rules_reasons(rules_upto(fb, k)).len(),
        rules_reasons(rules_upto(fa, j)).len() < rules_reasons(rules_upto(fb, k)).len(),
        rules_reasons(rules_upto(fb, k))[rules_reasons(rules_upto(fa, j)).len() as int] == score_rule(fb, j as int + 1).reason,
        rules_reasons(rules_upto(fa, k)) == rules_reasons(rules_upto(fb, k)).update(
            rules_reasons(rules_upto(fa, j)).len() as int,
            score_rule(fa, j as int).reason,
        ),
    decreases k,
{
    reveal(rules_points);
    reveal(rules_reasons);
    rules_prefix_agree(fa, fb, j);
    let m = rules_reasons(rules_upto(fa, j)).len() as int;
    if k == j + 2 {
        let p = rules_upto(fa, j);
        assert(rules_upto(fa, j + 1) == p.push(score_rule(fa, j as int)));
        assert(rules_upto(fb, j + 1) == p.push(score_rule(fb, j as int)));
        assert(rules_upto(fa, k) == rules_upto(fa, j + 1).push(score_rule(fa, j as int + 1)));
        assert(rules_upto(fb, k) == rules_upto(fb, j + 1).push(score_rule(fb, j as int + 1)));
        assert(rules_upto(fa, j + 1).drop_last() == p);
        assert(rules_upto(fb, j + 1).drop_last() == p);
        assert(rules_upto(fa, k).drop_last() == rules_upto(fa, j + 1));
        assert(rules_upto(fb, k).drop_last() == rules_upto(fb, j + 1));
        let a1 = rules_upto(fa, j + 1);
        let b1 = rules_upto(fb, j + 1);
        let a2 = rules_upto(fa, k);
        let b2 = rules_upto(fb, k);
        assert(a1.last() == score_rule(fa, j as int));
        assert(b1.last() == score_rule(fb, j as int));
        assert(a2.last() == score_rule(fa, j as int + 1));
        assert(b2.last() == score_rule(fb, j as int + 1));
        assert(rules_points(a1) == rules_points(p) + score_rule(fa, j as int).points);
        assert(rules_points(b1) == rules_points(p));
        assert(rules_points(a2) == rules_points(a1));
        assert(rules_points(b2) == rules_points(b1) + score_rule(fb, j as int + 1).points);
        assert(rules_reasons(a1) == rules_reasons(p).push(score_rule(fa, j as int).reason));
        assert(rules_reasons(b1) == rules_reasons(p));
        assert(rules_reasons(a2) == rules_reasons(a1));
        assert(rules_reasons(b2) == rules_reasons(b1).push(score_rule(fb, j as int + 1).reason));
        assert(rules_reasons(a2) =~= rules_reasons(b2).update(m, score_rule(fa, j as int).reason));
    } else {
        rules_flip(fa, fb, j, (k - 1) as nat);
        let r = score_rule(fa, k - 1);
        assert(score_rule(fb, k - 1) == r);
        assert(rules_upto(fa, k).drop_last() == rules_upto(fa, (k - 1) as nat));
        assert(rules_upto(fb, k).drop_last() == rules_upto(fb, (k - 1) as nat));
        assert(rules_upto(fa, k).last() == r);
        assert(rules_upto(fb, k).last() == r);
        let ra = rules_reasons(rules_upto(fa, (k - 1) as nat));
        let rb = rules_reasons(rules_upto(fb, (k - 1) as nat));
        if r.applies {
            assert(ra.push(r.reason) =~= rb.push(r.reason).update(m, score_rule(fa, j as int).reason));
        }
    }
}

/// The same certificate but for its validity, digital-signature use and
/// hardware-token flags.
pub open spec fn same_but_flags(a: OwnedCert, b: OwnedCert) -> bool {
    &&& a.subject@ == b.subject@
    &&& a.issuer@ == b.issuer@
    &&& a.key_provider_name@ == b.key_provider_name@
    &&& a.key_container_name@ == b.key_container_name@
}

/// A certificate that is valid scores 480 more than the same certificate
/// that is not, all else equal; of its reasons only one differs, where
/// `+220 certificado valido agora` stands for `-260 certificado fora da
/// validade`.
pub proof fn validity_adds_480(a: OwnedCert, b: OwnedCert)
    requires
        same_but_flags(a, b),
        a.valid_now,
        !b.valid_now,
        a.supports_digital_signature == b.supports_digital_signature,
        a.is_hardware_token == b.is_hardware_token,
    ensures
        score_spec(a) - score_spec(b) == 480,
        reasons_spec(a).len() == reasons_spec(b).len(),
        exists|k: int|
            0 <= k < reasons_spec(b).len() && #[trigger] reasons_spec(b)[k] == "-260 certificado fora da validade"@
                && reasons_spec(a) == reasons_spec(b).update(k, "+220 certificado valido agora"@),
{
    let fa = score_facts(a);
    let fb = score_facts(b);
    rules_flip(fa, fb, 2, score_rule_count());
    let k = rules_reasons(rules_upto(fa, 2)).len() as int;
    assert(reasons_spec(b)[k] == "-260 certificado fora da validade"@);
}

/// A certificate whose key may sign digitally scores 390 more than the same
/// certificate whose key may not, all else equal; of its reasons only one
/// differs, where `+170 key usage permite assinatura digital` stands for
/// `-220 key usage sem assinatura digital`.
pub proof fn digital_signature_adds_390(a: OwnedCert, b: OwnedCert)
    requires
        same_but_flags(a, b),
        a.valid_now == b.valid_now,
        a.supports_digital_signature,
        !b.supports_digital_signature,
        a.is_hardware_token == b.is_hardware_token,
    ensures
        score_spec(a) - score_spec(b) == 390,
        reasons_spec(a).len() == reasons_spec(b).len(),
        exists|k: int|
            0 <= k < reasons_spec(b).len() && #[trigger] reasons_spec(b)[k] == "-220 key usage sem assinatura digital"@
                && reasons_spec(a) == reasons_spec(b).update(k, "+170 key usage permite assinatura digital"@),
{
    let fa = score_facts(a);
    let fb = score_facts(b);
    rules_flip(fa, fb, 4, score_rule_count());
    let k = rules_reasons(rules_upto(fa, 4)).len() as int;
    assert(reasons_spec(b)[k] == "-220 key usage sem assinatura digital"@);
}

/// A certificate detected as held in hardware scores 1280 more than the
/// same certificate that is not, all else equal; of its reasons only one
/// differs, where `+900 certificado detectado como token/smart card` stands
/// for `-380 nao parece certificado de token/smart card`.
pub proof fn hardware_token_adds_1280(a: OwnedCert, b: OwnedCert)
    requires
        same_but_flags(a, b),
        a.valid_now == b.valid_now,
        a.supports_digital_signature == b.supports_digital_signature,
        a.is_hardware_token,
        !b.is_hardware_token,
    ensures
        score_spec(a) - score_spec(b) == 1280,
        reasons_spec(a).len() == reasons_spec(b).len(),
        exists|k: int|
            0 <= k < reasons_spec(b).len() && #[trigger] reasons_spec(b)[k]
                == "-380 nao parece certificado de token/smart card"@ && reasons_spec(a) == reasons_spec(b).update(
                k,
                "+900 certificado detectado como token/smart card"@,
            ),
{
    let fa = score_facts(a);
    let fb = score_facts(b);
    rules_flip(fa, fb, 6, score_rule_count());
    let k = rules_reasons(rules_upto(fa, 6)).len() as int;
    assert(reasons_spec(b)[k] == "-380 nao parece certificado de token/smart card"@);
}

} // verus!

verus! {

/// Over the first `k` rules, where rule `j` applies to `fa` only and every
/// other rule is the same for both.
proof fn rules_differ_at(fa: ScoreFacts, fb: ScoreFacts, j: nat, k: nat)
    requires
        j < k,
        forall|i: int| 0 <= i < k && i != j ==> score_rule(fa, i) == score_rule(fb, i),
        score_rule(fa, j as int).applies,
        !score_rule(fb, j as int).applies,
    ensures
        rules_points(rules_upto(fa, k)) - rules_points(rules_upto(fb, k)) == score_rule(fa, j as int).points,
        rules_reasons(rules_upto(fa, j)).len() <= rules_reasons(rules_upto(fb, k)).len(),
        rules_reasons(rules_upto(fa, k)) == rules_reasons(rules_upto(fb, k)).insert(
            rules_reasons(rules_upto(fa, j)).len() as int,
            score_rule(fa, j as int).reason,
        ),
    decreases k,
{
    reveal(rules_points);
    reveal(rules_reasons);
    rules_prefix_agree(fa, fb, j);
    let m = rules_reasons(rules_upto(fa, j)).len() as int;
    let p = rules_upto(fa, j);
    if k == j + 1 {
        let a1 = rules_upto(fa, k);
        let b1 = rules_upto(fb, k);
        assert(a1.drop_last() == p);
        assert(b1.drop_last() == p);
        assert(a1.last() == score_rule(fa, j as int));
        assert(b1.last() == score_rule(fb, j as int));
        assert(rules_points(a1) == rules_points(p) + score_rule(fa, j as int).points);
        assert(rules_points(b1) == rules_points(p));
        assert(rules_reasons(a1) == rules_reasons(p).push(score_rule(fa, j as int).reason));
        assert(rules_reasons(b1) == rules_reasons(p));
        assert(rules_reasons(a1) =~= rules_reasons(b1).insert(m, score_rule(fa, j as int).reason));
    } else {
        rules_differ_at(fa, fb, j, (k - 1) as nat);
        let r = score_rule(fa, k - 1);
        assert(score_rule(fb, k - 1) == r);
        assert(rules_upto(fa, k).drop_last() == rules_upto(fa, (k - 1) as nat));
        assert(rules_upto(fb, k).drop_last() == rules_upto(fb, (k - 1) as nat));
        assert(rules_upto(fa, k).last() == r);
        assert(rules_upto(fb, k).last() == r);
        let ra = rules_reasons(rules_upto(fa, (k - 1) as nat));
        let rb = rules_reasons(rules_upto(fb, (k - 1) as nat));
        if r.applies {
            assert(ra.push(r.reason) =~= rb.push(r.reason).insert(m, score_rule(fa, j as int).reason));
        }
    }
}

/// An issuer that names a known certification authority is worth 80
/// points: two certificates that differ only in their issuers, both
/// filled, alike in looking like a GUID or naming localhost, where only the
/// first's lower-cased issuer contains one of the known authority names,
/// score exactly 80 apart, and the first has one reason more,
/// `+80 issuer conhecido de AC`.
pub proof fn known_issuer_adds_80(a: OwnedCert, b: OwnedCert)
    requires
        a.subject@ == b.subject@,
        a.key_provider_name@ == b.key_provider_name@,
        a.key_container_name@ == b.key_container_name@,
        a.valid_now == b.valid_now,
        a.supports_digital_signature == b.supports_digital_signature,
        a.is_hardware_token == b.is_hardware_token,
        a.issuer@.len() > 0,
        b.issuer@.len() > 0,
        guid_seq(a.issuer@) == guid_seq(b.issuer@),
        contains_seq(lower_seq(a.issuer@), "localhost"@) == contains_seq(lower_seq(b.issuer@), "localhost"@),
        exists|k: int|
            0 <= k < known_issuer_names().len() && contains_seq(
                lower_seq(a.issuer@),
                #[trigger] known_issuer_names()[k],
            ),
        forall|k: int|
            0 <= k < known_issuer_names().len() ==> !contains_seq(
                lower_seq(b.issuer@),
                #[trigger] known_issuer_names()[k],
            ),
    ensures
        score_spec(a) - score_spec(b) == 80,
        exists|k: int|
            0 <= k <= reasons_spec(b).len() && reasons_spec(a) == #[trigger] reasons_spec(b).insert(
                k,
                "+80 issuer conhecido de AC"@,
            ),
{
    let fa = score_facts(a);
    let fb = score_facts(b);
    assert(fa.known_issuer);
    assert(!fb.known_issuer);
    assert forall|i: int| 0 <= i < 18 && i != 15 implies score_rule(fa, i) == score_rule(fb, i) by {}
    rules_differ_at(fa, fb, 15, score_rule_count());
    let m = rules_reasons(rules_upto(fa, 15)).len() as int;
    assert(reasons_spec(a) == reasons_spec(b).insert(m, "+80 issuer conhecido de AC"@));
}

} // verus!
