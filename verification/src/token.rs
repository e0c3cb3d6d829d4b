//! The names and thumbprints of certificates read from a PKCS#11 token:
//! how a distinguished name given as bytes is shown, when the name from the
//! certificate itself is used instead, and how that name is written.
use vstd::prelude::*;
use vstd::utf8::encode_utf8;
use crate::text::{
    chars_of, equals, is_ascii_hex_digit, push_all, push_char, to_ascii_uppercase, upper_seq,
};
use crate::certs::OwnedCert;
use openssl::hash::MessageDigest;
use openssl::x509::X509;

verus! {

/// A lower-case hexadecimal digit.
pub open spec fn hex_digit_lower(d: nat) -> char {
    if d < 10 {
        ((d as int) + ('0' as int)) as char
    } else {
        ((d as int) - 10 + ('a' as int)) as char
    }
}

/// Each byte as two lower-case hexadecimal digits.
pub open spec fn hex_lower(bytes: Seq<u8>) -> Seq<char>
    decreases bytes.len(),
{
    if bytes.len() == 0 {
        Seq::empty()
    } else {
        hex_lower(bytes.drop_last()) + seq![
            hex_digit_lower((bytes.last() / 16) as nat),
            hex_digit_lower((bytes.last() % 16) as nat),
        ]
    }
}

/// `hex::encode`: each byte as two lower-case hexadecimal digits, high
/// nibble first.
#[verifier::external_body]
fn hex_encode(bytes: &[u8]) -> (r: String)
    ensures
        r@ == hex_lower(bytes@),
{
    hex::encode(bytes)
}

/// A byte that is a printable ASCII character.
pub open spec fn printable(b: u8) -> bool {
    32 <= b <= 126
}

/// How a distinguished name read as bytes from the token is shown: as
/// text when every byte is printable ASCII, else as `0x` and its hex digits.
pub open spec fn dn_text(der: Seq<u8>) -> Seq<char> {
    if der.len() == 0 {
        Seq::empty()
    } else if forall|i: int| 0 <= i < der.len() ==> printable(#[trigger] der[i]) {
        Seq::new(der.len(), |i: int| der[i] as char)
    } else {
        "0x"@ + hex_lower(der)
    }
}

/// How a distinguished name read as bytes from the token is shown.
pub fn parse_dn_bytes(der: &[u8]) -> (r: String)
    ensures
        r@ == dn_text(der@),
{
    if der.len() == 0 {
        return String::new();
    }
    let mut all_printable = true;
    let mut i: usize = 0;
    while i < der.len()
        invariant
            i <= der@.len(),
            all_printable == forall|j: int| 0 <= j < i ==> printable(#[trigger] der@[j]),
        decreases der.len() - i,
    {
        let b = der[i];
        if !(32 <= b && b <= 126) {
            all_printable = false;
        }
        i = i + 1;
    }
    if all_printable {
        let mut s = String::new();
        let mut k: usize = 0;
        while k < der.len()
            invariant
                k <= der@.len(),
                s@ == Seq::new(k as nat, |j: int| der@[j] as char),
            decreases der.len() - k,
        {
            let c = der[k] as char;
            push_char(&mut s, c);
            assert(s@ =~= Seq::new((k + 1) as nat, |j: int| der@[j] as char));
            k = k + 1;
        }
        s
    } else {
        let mut s = String::from_str("0x");
        let h = hex_encode(der);
        push_all(&mut s, h.as_str());
        s
    }
}

/// `s` without a leading `0x`.
pub open spec fn hex_body(s: Seq<char>) -> Seq<char> {
    if s.len() >= 2 && s[0] == '0' && s[1] == 'x' {
        s.subrange(2, s.len() as int)
    } else {
        s
    }
}

/// `s`, without a leading `0x`, is a non-empty run of hexadecimal digits.
pub open spec fn all_hex_seq(s: Seq<char>) -> bool {
    &&& hex_body(s).len() > 0
    &&& forall|i: int| 0 <= i < hex_body(s).len() ==> is_ascii_hex_digit(#[trigger] hex_body(s)[i])
}

/// Whether `s`, without a leading `0x`, is a non-empty run of hexadecimal digits.
pub fn is_all_hex(s: &str) -> (r: bool)
    ensures
        r == all_hex_seq(s@),
{
    let v = chars_of(s);
    let start: usize = if v.len() >= 2 && v[0] == '0' && v[1] == 'x' {
        2
    } else {
        0
    };
    let ghost body = hex_body(s@);
    if start >= v.len() {
        return false;
    }
    let mut i: usize = start;
    while i < v.len()
        invariant
            start <= i <= v@.len(),
            v@ == s@,
            start == (if s@.len() >= 2 && s@[0] == '0' && s@[1] == 'x' {
                2usize
            } else {
                0usize
            }),
            body == v@.subrange(start as int, v@.len() as int),
            forall|j: int| start <= j < i ==> is_ascii_hex_digit(#[trigger] v@[j]),
        decreases v.len() - i,
    {
        let c = v[i];
        if !(('0' <= c && c <= '9') || ('a' <= c && c <= 'f') || ('A' <= c && c <= 'F')) {
            assert(body[i - start] == c);
            assert(!is_ascii_hex_digit(body[i - start]));
            return false;
        }
        i = i + 1;
    }
    assert forall|j: int| 0 <= j < body.len() implies is_ascii_hex_digit(#[trigger] body[j]) by {
        assert(body[j] == v@[j + start]);
    }
    true
}

/// A name read from the token is replaced by the certificate's own when it
/// is shorter than ten bytes (empty among them) or only hexadecimal digits.
pub fn needs_certificate_name(name: &str) -> (r: bool)
    ensures
        r == (encode_utf8(name@).len() < 10 || all_hex_seq(name@)),
{
    name.as_bytes().len() < 10 || is_all_hex(name)
}

/// The short label of a name attribute, or the attribute's own name.
pub open spec fn attribute_label(oid: Seq<char>) -> Seq<char> {
    if oid == "commonName"@ {
        "CN"@
    } else if oid == "organizationName"@ {
        "O"@
    } else if oid == "organizationalUnitName"@ {
        "OU"@
    } else if oid == "countryName"@ {
        "C"@
    } else if oid == "localityName"@ {
        "L"@
    } else if oid == "stateOrProvinceName"@ {
        "ST"@
    } else {
        oid
    }
}

fn label_of(oid: &str) -> (r: String)
    ensures
        r@ == attribute_label(oid@),
{
    if equals(oid, "commonName") {
        String::from_str("CN")
    } else if equals(oid, "organizationName") {
        String::from_str("O")
    } else if equals(oid, "organizationalUnitName") {
        String::from_str("OU")
    } else if equals(oid, "countryName") {
        String::from_str("C")
    } else if equals(oid, "localityName") {
        String::from_str("L")
    } else if equals(oid, "stateOrProvinceName") {
        String::from_str("ST")
    } else {
        String::from_str(oid)
    }
}

/// One attribute of a certificate name: its type, and its value when that
/// reads as UTF-8.
pub struct NameEntry {
    pub oid: String,
    pub value: Option<String>,
}

/// An entry as plain values: its type, and its value when it has one.
pub open spec fn entry_view(e: NameEntry) -> (Seq<char>, Option<Seq<char>>) {
    (e.oid@, match e.value {
        Some(v) => Some(v@),
        None => None,
    })
}

pub open spec fn entries_view(entries: Seq<NameEntry>) -> Seq<(Seq<char>, Option<Seq<char>>)> {
    entries.map_values(|e: NameEntry| entry_view(e))
}

/// The written parts of the first `k` entries: `label=value` for each
/// entry with a value.
pub open spec fn name_parts(entries: Seq<(Seq<char>, Option<Seq<char>>)>, k: int) -> Seq<Seq<char>>
    decreases k,
{
    if k <= 0 {
        Seq::empty()
    } else {
        let rest = name_parts(entries, k - 1);
        match entries[k - 1].1 {
            Some(v) => rest.push(attribute_label(entries[k - 1].0) + "="@ + v),
            None => rest,
        }
    }
}

/// `parts` joined by `, `.
pub open spec fn join_parts(parts: Seq<Seq<char>>) -> Seq<char>
    decreases parts.len(),
{
    if parts.len() == 0 {
        Seq::empty()
    } else if parts.len() == 1 {
        parts[0]
    } else {
        join_parts(parts.drop_last()) + ", "@ + parts.last()
    }
}

/// A certificate name as `CN=..., O=...`, or `Unknown` when no attribute
/// has a value.
pub open spec fn name_text(entries: Seq<(Seq<char>, Option<Seq<char>>)>) -> Seq<char> {
    let parts = name_parts(entries, entries.len() as int);
    if parts.len() == 0 {
        "Unknown"@
    } else {
        join_parts(parts)
    }
}

/// A certificate name as `CN=..., O=...`, or `Unknown` when no attribute
/// has a value.
pub fn format_x509_name(entries: &Vec<NameEntry>) -> (r: String)
    ensures
        r@ == name_text(entries_view(entries@)),
{
    let ghost ev = entries_view(entries@);
    let mut out = String::new();
    let mut count: usize = 0;
    let mut i: usize = 0;
    while i < entries.len()
        invariant
            i <= entries@.len(),
            ev == entries_view(entries@),
            count == name_parts(ev, i as int).len(),
            out@ == join_parts(name_parts(ev, i as int)),
            count <= i,
        decreases entries.len() - i,
    {
        let e = &entries[i];
        assert(ev[i as int] == entry_view(*e));
        match &e.value {
            Some(v) => {
                let ghost before = name_parts(ev, i as int);
                if count > 0 {
                    push_all(&mut out, ", ");
                }
                let label = label_of(e.oid.as_str());
                push_all(&mut out, label.as_str());
                push_all(&mut out, "=");
                push_all(&mut out, v.as_str());
                let ghost after = name_parts(ev, i + 1);
                assert(after == before.push(attribute_label(e.oid@) + "="@ + v@));
                assert(after.drop_last() == before);
                count = count + 1;
            },
            None => {},
        }
        i = i + 1;
    }
    if count == 0 {
        return String::from_str("Unknown");
    }
    out
}

/// A certificate's thumbprint: the hexadecimal digits of its SHA-1
/// digest, in upper case.
pub fn thumbprint_text(digest: &[u8]) -> (r: String)
    ensures
        r@ == upper_seq(hex_lower(digest@)),
{
    let h = hex_encode(digest);
    to_ascii_uppercase(h.as_str())
}

/// The SHA-1 digest that openssl computes for the certificate `der`, when
/// it parses.
pub uninterp spec fn x509_sha1(der: Seq<u8>) -> Option<Seq<u8>>;

/// The entries of the subject name of the certificate `der`, in order, as
/// openssl reads them, when it parses.
pub uninterp spec fn x509_subject(der: Seq<u8>) -> Option<Seq<(Seq<char>, Option<Seq<char>>)>>;

/// The entries of the issuer name of the certificate `der`, in order, as
/// openssl reads them, when it parses.
pub uninterp spec fn x509_issuer(der: Seq<u8>) -> Option<Seq<(Seq<char>, Option<Seq<char>>)>>;

/// `X509::from_der`, then `digest(MessageDigest::sha1())`.
#[verifier::external_body]
fn certificate_sha1(der: &[u8]) -> (r: Option<Vec<u8>>)
    ensures
        match r {
            Some(d) => x509_sha1(der@) == Some(d@),
            None => x509_sha1(der@) is None,
        },
{
    let cert = X509::from_der(der).ok()?;
    cert.digest(MessageDigest::sha1()).ok().map(|d| d.to_vec())
}

/// `X509::from_der`, then the entries of `subject_name()`: each entry's
/// object as text and its data when it reads as UTF-8. It fails only where
/// the certificate does not parse, so it gives entries wherever a digest
/// could be computed.
#[verifier::external_body]
fn certificate_subject(der: &[u8]) -> (r: Option<Vec<NameEntry>>)
    ensures
        match r {
            Some(v) => x509_subject(der@) == Some(entries_view(v@)),
            None => x509_subject(der@) is None,
        },
        x509_sha1(der@) is Some ==> r is Some,
{
    let cert = X509::from_der(der).ok()?;
    let entries = cert.subject_name().entries();
    Some(entries.map(|e| NameEntry { oid: e.object().to_string(), value: e.data().as_utf8().ok().map(|t| t.to_string()) }).collect())
}

/// `X509::from_der`, then the entries of `issuer_name()`, as for the
/// subject.
#[verifier::external_body]
fn certificate_issuer(der: &[u8]) -> (r: Option<Vec<NameEntry>>)
    ensures
        match r {
            Some(v) => x509_issuer(der@) == Some(entries_view(v@)),
            None => x509_issuer(der@) is None,
        },
        x509_sha1(der@) is Some ==> r is Some,
{
    let cert = X509::from_der(der).ok()?;
    let entries = cert.issuer_name().entries();
    Some(entries.map(|e| NameEntry { oid: e.object().to_string(), value: e.data().as_utf8().ok().map(|t| t.to_string()) }).collect())
}

/// A name from the token is replaced by the certificate's own when it is
/// shorter than ten bytes or only hexadecimal digits.
pub open spec fn needs_name(shown: Seq<char>) -> bool {
    encode_utf8(shown).len() < 10 || all_hex_seq(shown)
}

/// The name shown for a certificate on a token: the token's own text of
/// it, or the certificate's name where that text says too little.
pub open spec fn shown_name(dn: Seq<u8>, entries: Option<Seq<(Seq<char>, Option<Seq<char>>)>>) -> Seq<char> {
    let shown = dn_text(dn);
    if needs_name(shown) {
        match entries {
            Some(e) => name_text(e),
            None => shown,
        }
    } else {
        shown
    }
}

/// The digest of a certificate that parses.
pub open spec fn sha1_of(der: Seq<u8>) -> Seq<u8> {
    match x509_sha1(der) {
        Some(d) => d,
        None => Seq::empty(),
    }
}

fn shown_name_of(dn: &[u8], entries: Option<Vec<NameEntry>>) -> (r: String)
    ensures
        r@ == shown_name(dn@, match entries {
            Some(v) => Some(entries_view(v@)),
            None => None,
        }),
{
    let shown = parse_dn_bytes(dn);
    if needs_certificate_name(shown.as_str()) {
        match entries {
            Some(v) => format_x509_name(&v),
            None => shown,
        }
    } else {
        shown
    }
}

/// A certificate found on a PKCS#11 token: `der` is its value, `subject_dn`
/// and `issuer_dn` the names the token gives for it (empty where it gives
/// none). There is none where the value is empty or openssl cannot compute
/// its digest. Its thumbprint is that SHA-1 digest in upper-case
/// hexadecimal; each name is the token's, or the certificate's own where the
/// token's says too little. A certificate on a token counts as valid, able
/// to sign and held in hardware.
pub fn token_certificate(
    der: &[u8],
    subject_dn: &[u8],
    issuer_dn: &[u8],
    provider: String,
    container: String,
) -> (r: Option<OwnedCert>)
    ensures
        r is Some <==> (der@.len() > 0 && x509_sha1(der@) is Some),
        r matches Some(c) ==> {
            &&& c.thumbprint@ == upper_seq(hex_lower(sha1_of(der@)))
            &&& c.subject@ == shown_name(subject_dn@, x509_subject(der@))
            &&& c.issuer@ == shown_name(issuer_dn@, x509_issuer(der@))
            &&& c.key_provider_name@ == provider@
            &&& c.key_container_name@ == container@
            &&& c.valid_now && c.supports_digital_signature && c.is_hardware_token
            &&& c.key_provider_type == 0 && c.key_spec == 0
        },
{
    if der.len() == 0 {
        return None;
    }
    let digest = match certificate_sha1(der) {
        Some(d) => d,
        None => return None,
    };
    let thumbprint = thumbprint_text(digest.as_slice());
    let subject = shown_name_of(subject_dn, certificate_subject(der));
    let issuer = shown_name_of(issuer_dn, certificate_issuer(der));
    Some(OwnedCert {
        subject,
        issuer,
        thumbprint,
        valid_now: true,
        supports_digital_signature: true,
        key_provider_name: provider,
        key_container_name: container,
        key_provider_type: 0,
        key_spec: 0,
        is_hardware_token: true,
    })
}

/// The parts of the first `k` entries do not depend on what follows them.
proof fn name_parts_prefix(
    e: Seq<(Seq<char>, Option<Seq<char>>)>,
    x: (Seq<char>, Option<Seq<char>>),
    k: int,
)
    requires
        0 <= k <= e.len(),
    ensures
        name_parts(e.push(x), k) == name_parts(e, k),
    decreases k,
{
    if k > 0 {
        name_parts_prefix(e, x, k - 1);
        assert(e.push(x)[k - 1] == e[k - 1]);
    }
}

/// The first `k` entries give a part exactly when one of them has a value.
proof fn name_parts_nonempty(e: Seq<(Seq<char>, Option<Seq<char>>)>, k: int)
    requires
        0 <= k <= e.len(),
    ensures
        name_parts(e, k).len() > 0 <==> exists|i: int| 0 <= i < k && (#[trigger] e[i]).1 is Some,
    decreases k,
{
    if k > 0 {
        name_parts_nonempty(e, k - 1);
        if (exists|i: int| 0 <= i < k && (#[trigger] e[i]).1 is Some) {
            let i = choose|i: int| 0 <= i < k && (#[trigger] e[i]).1 is Some;
            if i < k - 1 {
                assert(exists|j: int| 0 <= j < k - 1 && (#[trigger] e[j]).1 is Some);
            }
        }
    }
}

/// A name of one attribute is `label=value`, with the fixed label of its
/// type: `CN` for commonName, `O` for organizationName, `OU` for
/// organizationalUnitName, `C` for countryName, `L` for localityName, `ST`
/// for stateOrProvinceName, and the type's own name for any other; an
/// attribute without a value leaves the name `Unknown`.
pub proof fn single_attribute_names(oid: Seq<char>, v: Seq<char>)
    ensures
        oid == "commonName"@ ==> name_text(seq![(oid, Some(v))]) == "CN="@ + v,
        oid == "organizationName"@ ==> name_text(seq![(oid, Some(v))]) == "O="@ + v,
        oid == "organizationalUnitName"@ ==> name_text(seq![(oid, Some(v))]) == "OU="@ + v,
        oid == "countryName"@ ==> name_text(seq![(oid, Some(v))]) == "C="@ + v,
        oid == "localityName"@ ==> name_text(seq![(oid, Some(v))]) == "L="@ + v,
        oid == "stateOrProvinceName"@ ==> name_text(seq![(oid, Some(v))]) == "ST="@ + v,
        oid != "commonName"@ && oid != "organizationName"@ && oid != "organizationalUnitName"@
            && oid != "countryName"@ && oid != "localityName"@ && oid != "stateOrProvinceName"@
            ==> name_text(seq![(oid, Some(v))]) == oid + "="@ + v,
        name_text(seq![(oid, None::<Seq<char>>)]) == "Unknown"@,
{
    reveal_strlit("commonName");
    reveal_strlit("organizationName");
    reveal_strlit("organizationalUnitName");
    reveal_strlit("countryName");
    reveal_strlit("localityName");
    reveal_strlit("stateOrProvinceName");
    assert("commonName"@.len() == 10 && "organizationName"@.len() == 16);
    assert("organizationalUnitName"@.len() == 22 && "countryName"@.len() == 11);
    assert("localityName"@.len() == 12 && "stateOrProvinceName"@.len() == 19);
    reveal_strlit("CN");
    reveal_strlit("CN=");
    reveal_strlit("O");
    reveal_strlit("O=");
    reveal_strlit("OU");
    reveal_strlit("OU=");
    reveal_strlit("C");
    reveal_strlit("C=");
    reveal_strlit("L");
    reveal_strlit("L=");
    reveal_strlit("ST");
    reveal_strlit("ST=");
    reveal_strlit("=");
    assert("CN"@ + "="@ =~= "CN="@);
    assert("O"@ + "="@ =~= "O="@);
    assert("OU"@ + "="@ =~= "OU="@);
    assert("C"@ + "="@ =~= "C="@);
    assert("L"@ + "="@ =~= "L="@);
    assert("ST"@ + "="@ =~= "ST="@);
    let e = seq![(oid, Some(v))];
    assert(name_parts(e, 0) =~= Seq::<Seq<char>>::empty());
    assert(name_parts(e, 1) == seq![attribute_label(oid) + "="@ + v]);
    let u = seq![(oid, None::<Seq<char>>)];
    assert(name_parts(u, 1) == name_parts(u, 0));
    assert(name_parts(u, 0) =~= Seq::<Seq<char>>::empty());
}

/// A further attribute with a value is written after the name so far,
/// separated by `, `, once some attribute has a value: the order of the
/// attributes is kept.
pub proof fn attributes_are_joined_in_order(
    e: Seq<(Seq<char>, Option<Seq<char>>)>,
    oid: Seq<char>,
    v: Seq<char>,
)
    requires
        exists|i: int| 0 <= i < e.len() && (#[trigger] e[i]).1 is Some,
    ensures
        name_text(e.push((oid, Some(v)))) == name_text(e) + ", "@ + name_text(seq![(oid, Some(v))]),
{
    let x = (oid, Some(v));
    let f = e.push(x);
    name_parts_nonempty(e, e.len() as int);
    name_parts_prefix(e, x, e.len() as int);
    let before = name_parts(e, e.len() as int);
    assert(f.len() == e.len() + 1);
    assert(f[e.len() as int] == x);
    assert(name_parts(f, f.len() as int) == before.push(attribute_label(oid) + "="@ + v));
    assert(before.push(attribute_label(oid) + "="@ + v).drop_last() == before);
    single_attribute_names(oid, v);
    let one = seq![x];
    assert(name_parts(one, 0) =~= Seq::<Seq<char>>::empty());
    assert(name_parts(one, 1) == seq![attribute_label(oid) + "="@ + v]);
}

} // verus!
